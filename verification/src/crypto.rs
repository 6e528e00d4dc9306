//! The calls into the hashing, signature-recovery and hex-encoding crates, and
//! the one call into std's UTF-8 validation. Each item here is trusted: its
//! contract restates what the called function's source or documentation shows.
use vstd::prelude::*;
use crate::pubkey::Pubkey;
#[allow(unused_imports)]
use vstd::string::StringSliceAdditionalSpecFns;
#[allow(unused_imports)]
use sha2::Digest;

verus! {

/// The SHA-256 digest of `data`.
pub uninterp spec fn sha256(data: Seq<u8>) -> Seq<u8>;

/// The Keccak-256 digest of `data`.
pub uninterp spec fn keccak256(data: Seq<u8>) -> Seq<u8>;

/// The 64-byte uncompressed public key (without its format byte) that signed
/// the 32-byte message `hash` with `signature` and `recovery_id`, if any.
pub uninterp spec fn secp256k1_recovered_key(
    hash: Seq<u8>,
    recovery_id: u8,
    signature: Seq<u8>,
) -> Option<Seq<u8>>;

/// Calls `sha2::Sha256::digest`. Trusted: the result is the SHA-256 digest of
/// `data` (named `sha256`), 32 bytes long.
#[verifier::external_body]
pub(crate) fn sha256_digest(data: &[u8]) -> (d: Vec<u8>)
    ensures
        d@ == sha256(data@),
        d@.len() == 32,
{
    sha2::Sha256::digest(data).to_vec()
}

/// Calls `solana_program::keccak::hash`. Trusted: the result is the
/// Keccak-256 digest of `data` (named `keccak256`).
#[verifier::external_body]
pub(crate) fn keccak256_hash(data: &[u8]) -> (h: [u8; 32])
    ensures
        h@ == keccak256(data@),
{
    solana_program::keccak::hash(data).to_bytes()
}

/// Calls `solana_program::secp256k1_recover::secp256k1_recover`. Trusted: for
/// a 32-byte hash and a 64-byte signature, the result is the key named
/// `secp256k1_recovered_key`, `None` where the crate returns an error. The
/// crate's documentation asks callers to check those lengths beforehand (on
/// chain it does not check them), so they are required here. Which keys the
/// elliptic-curve recovery yields is left unsaid.
#[verifier::external_body]
pub(crate) fn secp256k1_recover(hash: &[u8], recovery_id: u8, signature: &[u8]) -> (r: Option<
    [u8; 64],
>)
    requires
        hash@.len() == 32,
        signature@.len() == 64,
    ensures
        match r {
            Some(k) => secp256k1_recovered_key(hash@, recovery_id, signature@) == Some(k@),
            None => secp256k1_recovered_key(hash@, recovery_id, signature@) is None,
        },
{
    match solana_program::secp256k1_recover::secp256k1_recover(hash, recovery_id, signature) {
        Ok(key) => Some(key.0),
        Err(_) => None,
    }
}

/// The lower-case hexadecimal digit for `n` (0 to 15).
pub open spec fn hex_digit(n: int) -> char {
    if n < 10 {
        (48 + n) as char
    } else {
        (87 + n) as char
    }
}

/// Two lower-case hexadecimal digits per byte, high nibble first.
pub open spec fn hex_lower(data: Seq<u8>) -> Seq<char>
    decreases data.len(),
{
    if data.len() == 0 {
        Seq::empty()
    } else {
        seq![hex_digit((data[0] / 16) as int), hex_digit((data[0] % 16) as int)] + hex_lower(data.drop_first())
    }
}

/// Hex text has two digits per byte.
pub proof fn lemma_hex_lower_len(data: Seq<u8>)
    ensures
        hex_lower(data).len() == 2 * data.len(),
    decreases data.len(),
{
    if data.len() > 0 {
        lemma_hex_lower_len(data.drop_first());
    }
}

/// Hex text is two lower-case digits per byte, high nibble first: for each
/// byte, its digits are `0`-`9` or `a`-`f`, and read back as sixteen times the
/// first plus the second they give the byte.
pub proof fn lemma_hex_lower_digits(data: Seq<u8>)
    ensures
        hex_lower(data).len() == 2 * data.len(),
        forall|i: int, k: int|
            #![trigger hex_lower(data)[2 * i + k]]
            0 <= i < data.len() && 0 <= k < 2 ==> {
                let c = hex_lower(data)[2 * i + k] as int;
                (48 <= c <= 57 || 97 <= c <= 102)
            },
        forall|i: int|
            0 <= i < data.len() ==> 16 * hex_value(#[trigger] hex_lower(data)[2 * i]) + hex_value(
                hex_lower(data)[2 * i + 1],
            ) == data[i],
    decreases data.len(),
{
    lemma_hex_lower_len(data);
    if data.len() > 0 {
        let rest = data.drop_first();
        lemma_hex_lower_digits(rest);
        let h = hex_lower(data);
        let t = hex_lower(rest);
        assert(h =~= seq![hex_digit((data[0] / 16) as int), hex_digit((data[0] % 16) as int)] + t);
        assert forall|i: int, k: int|
            #![trigger h[2 * i + k]]
            0 <= i < data.len() && 0 <= k < 2 implies {
                let c = h[2 * i + k] as int;
                (48 <= c <= 57 || 97 <= c <= 102)
            } by {
            if i > 0 {
                assert(h[2 * i + k] == t[2 * (i - 1) + k]);
            }
        }
        assert forall|i: int| 0 <= i < data.len() implies 16 * hex_value(#[trigger] h[2 * i])
            + hex_value(h[2 * i + 1]) == data[i] by {
            if i > 0 {
                assert(h[2 * i] == t[2 * (i - 1)]);
                assert(h[2 * i + 1] == t[2 * (i - 1) + 1]);
                assert(rest[i - 1] == data[i]);
            } else {
                assert(data[0] == 16 * (data[0] / 16) + data[0] % 16);
            }
        }
    }
}

/// The number that a hexadecimal digit stands for.
pub open spec fn hex_value(c: char) -> int {
    if c as int <= 57 {
        c as int - 48
    } else {
        c as int - 87
    }
}

/// Calls `hex::encode`. Trusted: as its documentation and source show, the
/// result is each byte as two lower-case hexadecimal digits, high nibble first.
#[verifier::external_body]
pub(crate) fn hex_encode(data: &[u8]) -> (s: String)
    ensures
        s@ == hex_lower(data@),
{
    hex::encode(data)
}

/// Calls `std::str::from_utf8`. Trusted: as std documents, it succeeds exactly
/// on valid UTF-8, and the string it gives holds those bytes.
#[verifier::external_body]
pub(crate) fn utf8_str(bytes: &[u8]) -> (r: Option<&str>)
    ensures
        r is Some <==> vstd::utf8::valid_utf8(bytes@),
        r matches Some(s) ==> s.spec_bytes() == bytes@,
{
    std::str::from_utf8(bytes).ok()
}

/// The address of the native secp256k1 program,
/// `KeccakSecp256k11111111111111111111111111111`.
pub open spec fn secp256k1_program_id() -> Seq<u8> {
    seq![
        4u8, 198, 252, 32, 240, 80, 204, 240, 85, 132, 215, 33, 28, 159, 140, 245,
        158, 193, 71, 133, 187, 22, 106, 30, 40, 48, 232, 18, 32, 0, 0, 0,
    ]
}

/// Compares with `solana_program::secp256k1_program::ID`. Trusted: that
/// constant is the address `KeccakSecp256k11111111111111111111111111111`,
/// whose bytes `secp256k1_program_id` spells out.
#[verifier::external_body]
pub(crate) fn is_secp256k1_program(id: &Pubkey) -> (r: bool)
    ensures
        r == (id.bytes@ == secp256k1_program_id()),
{
    solana_program::pubkey::Pubkey::new_from_array(id.bytes) == solana_program::secp256k1_program::ID
}

} // verus!
