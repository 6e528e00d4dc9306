pub mod account_types;
pub mod crypto;
pub mod frame;
pub mod instructions;
pub mod le;
pub mod oracle;
pub mod pubkey;
pub mod quorum;
pub mod ramp;
pub mod sigverify;
pub mod state;
pub mod sysvar;
pub mod utils;
pub mod whitelist;
pub mod wire;
