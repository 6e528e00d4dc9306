//! Looking for a native secp256k1 verification among the instructions of the
//! current transaction that precede the running one, as the instructions
//! sysvar's account describes them.
use vstd::prelude::*;
use crate::crypto::{is_secp256k1_program, secp256k1_program_id};
use crate::le::le_value;
use crate::pubkey::Pubkey;
use crate::sysvar::{
    instructions_sysvar_id, is_instructions_sysvar, load_current_index, load_instruction_at,
    sysvar_instruction,
};

verus! {

/// An instruction of the transaction: the program it calls and its data.
#[derive(Clone, Debug)]
pub struct InstructionRecord {
    pub program_id: Pubkey,
    pub data: Vec<u8>,
}

/// An instruction as the contracts see it: the program id's bytes and the data.
pub struct LoadedInstruction {
    pub program_id: Seq<u8>,
    pub data: Seq<u8>,
}

/// A loaded instruction as the contracts see it.
pub open spec fn record_view(o: Option<InstructionRecord>) -> Option<LoadedInstruction> {
    match o {
        Some(rec) => Some(LoadedInstruction { program_id: rec.program_id.bytes@, data: rec.data@ }),
        None => None,
    }
}

/// Loaded instructions as the contracts see them.
pub open spec fn records_view(v: Seq<Option<InstructionRecord>>) -> Seq<Option<LoadedInstruction>> {
    v.map_values(|o: Option<InstructionRecord>| record_view(o))
}

/// The account handed in as the instructions sysvar: its address and its data.
pub struct InstructionsAccount {
    pub key: Pubkey,
    pub data: Vec<u8>,
}

/// The index of the running instruction can be read: an account at the
/// sysvar's address has at least the two bytes that hold it.
pub open spec fn instructions_readable(key: Pubkey, data: Seq<u8>) -> bool {
    key.bytes@ == instructions_sysvar_id() ==> data.len() >= 2
}

/// The index of the running instruction: the last two bytes, little-endian.
pub open spec fn current_index(data: Seq<u8>) -> nat {
    le_value(data.subrange(data.len() - 2, data.len() as int))
}

/// The instruction at `i`, as the sysvar's data describes it.
pub open spec fn loaded_at(data: Seq<u8>, i: int) -> Option<LoadedInstruction> {
    match sysvar_instruction(data, i as nat) {
        Some((p, d)) => Some(LoadedInstruction { program_id: p, data: d }),
        None => None,
    }
}

/// The instructions before the running one: `None` when the account is not
/// the instructions sysvar, else one entry per preceding instruction, `None`
/// where it cannot be read.
pub open spec fn account_instructions(key: Pubkey, data: Seq<u8>) -> Option<
    Seq<Option<LoadedInstruction>>,
> {
    if key.bytes@ != instructions_sysvar_id() {
        None
    } else {
        Some(Seq::new(current_index(data), |i: int| loaded_at(data, i)))
    }
}

/// `needle` occurs as a contiguous run of `hay`.
pub open spec fn has_window(hay: Seq<u8>, needle: Seq<u8>) -> bool {
    exists|i: int|
        0 <= i && i + needle.len() <= hay.len() && #[trigger] hay.subrange(i, i + needle.len())
            == needle
}

/// A loaded instruction of the native secp256k1 program.
pub open spec fn is_secp_instruction(ix: Option<LoadedInstruction>) -> bool {
    ix is Some && ix->0.program_id == secp256k1_program_id()
}

/// A loaded secp256k1 instruction whose data holds the key, the signature and the message.
pub open spec fn carries(
    ix: Option<LoadedInstruction>,
    message: Seq<u8>,
    signature: Seq<u8>,
    pubkey: Seq<u8>,
) -> bool {
    &&& is_secp_instruction(ix)
    &&& has_window(ix->0.data, pubkey)
    &&& has_window(ix->0.data, signature)
    &&& has_window(ix->0.data, message)
}

/// Searching this instruction would slide a window of width zero over its data.
pub open spec fn empty_window_at(
    ix: Option<LoadedInstruction>,
    message: Seq<u8>,
    signature: Seq<u8>,
    pubkey: Seq<u8>,
) -> bool {
    is_secp_instruction(ix) && (pubkey.len() == 0 || (has_window(ix->0.data, pubkey) && (
    signature.len() == 0 || (has_window(ix->0.data, signature) && message.len() == 0))))
}

/// The search never slides a window of width zero.
pub open spec fn search_defined(
    loaded: Option<Seq<Option<LoadedInstruction>>>,
    message: Seq<u8>,
    signature: Seq<u8>,
    pubkey: Seq<u8>,
) -> bool {
    loaded matches Some(ixs) ==> forall|i: int|
        0 <= i < ixs.len() ==> !#[trigger] empty_window_at(ixs[i], message, signature, pubkey)
}

/// Some preceding instruction verified `signature` of `message` by `pubkey`.
pub open spec fn signature_found(
    loaded: Option<Seq<Option<LoadedInstruction>>>,
    message: Seq<u8>,
    signature: Seq<u8>,
    pubkey: Seq<u8>,
) -> bool {
    &&& loaded is Some
    &&& exists|i: int|
        0 <= i < loaded->0.len() && #[trigger] carries(loaded->0[i], message, signature, pubkey)
}

/// Whether `needle`, which is not empty, occurs in `hay`.
pub fn contains_window(hay: &[u8], needle: &[u8]) -> (r: bool)
    requires
        needle@.len() > 0,
    ensures
        r == has_window(hay@, needle@),
{
    let n = hay.len();
    let m = needle.len();
    if m > n {
        return false;
    }
    let mut i: usize = 0;
    while i <= n - m
        invariant
            n == hay@.len(),
            m == needle@.len(),
            0 < m <= n,
            i <= n - m + 1,
            forall|k: int| 0 <= k < i ==> #[trigger] hay@.subrange(k, k + m) != needle@,
        decreases n - m + 1 - i,
    {
        let mut j: usize = 0;
        let mut same = true;
        while j < m
            invariant
                n == hay@.len(),
                m == needle@.len(),
                i + m <= n,
                j <= m,
                same == forall|t: int| 0 <= t < j ==> hay@[i + t] == needle@[t],
            decreases m - j,
        {
            if hay[i + j] != needle[j] {
                same = false;
            }
            j = j + 1;
        }
        if same {
            assert(hay@.subrange(i as int, i + m) =~= needle@);
            return true;
        }
        assert(hay@.subrange(i as int, i + m)[0] == hay@[i as int]);
        assert(hay@.subrange(i as int, i + m) != needle@) by {
            let t = choose|t: int| 0 <= t < m && hay@[i + t] != needle@[t];
            assert(hay@.subrange(i as int, i + m)[t] == hay@[i + t]);
        }
        i = i + 1;
    }
    false
}

/// Whether `ix` is a secp256k1 instruction whose data holds the key, the signature and the message.
fn instruction_carries(
    ix: &Option<InstructionRecord>,
    message: &[u8],
    signature: &[u8],
    pubkey: &[u8],
) -> (r: bool)
    requires
        !empty_window_at(record_view(*ix), message@, signature@, pubkey@),
    ensures
        r == carries(record_view(*ix), message@, signature@, pubkey@),
{
    match ix {
        None => false,
        Some(rec) => {
            if !is_secp256k1_program(&rec.program_id) {
                return false;
            }
            let d = rec.data.as_slice();
            contains_window(d, pubkey) && contains_window(d, signature) && contains_window(
                d,
                message,
            )
        },
    }
}

/// Whether the index of the running instruction can be read from the account.
pub fn is_readable(acc: &InstructionsAccount) -> (r: bool)
    ensures
        r == instructions_readable(acc.key, acc.data@),
{
    !is_instructions_sysvar(&acc.key) || acc.data.len() >= 2
}

/// Reads the instructions before the running one from the instructions
/// sysvar's account: `None` when the account is not that sysvar.
pub fn load_instructions(acc: &InstructionsAccount) -> (r: Option<Vec<Option<InstructionRecord>>>)
    requires
        instructions_readable(acc.key, acc.data@),
    ensures
        r is None <==> acc.key.bytes@ != instructions_sysvar_id(),
        r matches Some(v) ==> v@.len() == current_index(acc.data@),
        r matches Some(v) ==> account_instructions(acc.key, acc.data@) == Some(records_view(v@)),
{
    if !is_instructions_sysvar(&acc.key) {
        return None;
    }
    let data = acc.data.as_slice();
    let n = load_current_index(data);
    let ghost d = acc.data@;
    let mut v: Vec<Option<InstructionRecord>> = Vec::new();
    let mut i: u16 = 0;
    while i < n
        invariant
            d == acc.data@,
            d == data@,
            i <= n,
            n as nat == current_index(d),
            v@.len() == i,
            forall|j: int| 0 <= j < i ==> #[trigger] record_view(v@[j]) == loaded_at(d, j),
        decreases n - i,
    {
        let rec = load_instruction_at(data, i as usize);
        v.push(rec);
        i = i + 1;
    }
    proof {
        assert(records_view(v@) =~= Seq::new(current_index(d), |j: int| loaded_at(d, j)));
    }
    Some(v)
}

/// An instruction whose search would slide an empty window makes the whole
/// search undefined.
proof fn lemma_search_undefined_at(
    loaded: Option<Seq<Option<LoadedInstruction>>>,
    i: int,
    message: Seq<u8>,
    signature: Seq<u8>,
    pubkey: Seq<u8>,
)
    requires
        loaded is Some,
        0 <= i < loaded->0.len(),
        empty_window_at(loaded->0[i], message, signature, pubkey),
    ensures
        !search_defined(loaded, message, signature, pubkey),
{
}

/// Whether searching the loaded instructions never slides an empty window.
fn search_defined_in(
    ixs: &Vec<Option<InstructionRecord>>,
    message: &[u8],
    signature: &[u8],
    pubkey: &[u8],
) -> (r: bool)
    ensures
        r == search_defined(Some(records_view(ixs@)), message@, signature@, pubkey@),
{
    let ghost lv = Some(records_view(ixs@));
    let mut i: usize = 0;
    while i < ixs.len()
        invariant
            i <= ixs@.len(),
            lv == Some(records_view(ixs@)),
            forall|j: int|
                0 <= j < i ==> !#[trigger] empty_window_at(
                    records_view(ixs@)[j],
                    message@,
                    signature@,
                    pubkey@,
                ),
        decreases ixs@.len() - i,
    {
        assert(records_view(ixs@)[i as int] == record_view(ixs@[i as int]));
        if let Some(rec) = &ixs[i] {
            if is_secp256k1_program(&rec.program_id) {
                let d = rec.data.as_slice();
                if pubkey.len() == 0 {
                    proof { lemma_search_undefined_at(lv, i as int, message@, signature@, pubkey@); }
                    return false;
                }
                if contains_window(d, pubkey) {
                    if signature.len() == 0 {
                        proof { lemma_search_undefined_at(lv, i as int, message@, signature@, pubkey@); }
                        return false;
                    }
                    if contains_window(d, signature) && message.len() == 0 {
                        proof { lemma_search_undefined_at(lv, i as int, message@, signature@, pubkey@); }
                        return false;
                    }
                }
            }
        }
        i = i + 1;
    }
    true
}

/// Whether one of the loaded instructions is a secp256k1 instruction whose
/// data holds the key, the signature and the message.
pub(crate) fn find_signature(
    ixs: &Vec<Option<InstructionRecord>>,
    message: &[u8],
    signature: &[u8],
    pubkey: &[u8],
) -> (r: bool)
    requires
        search_defined(Some(records_view(ixs@)), message@, signature@, pubkey@),
    ensures
        r == signature_found(Some(records_view(ixs@)), message@, signature@, pubkey@),
{
    let ghost lv = Some(records_view(ixs@));
    let mut i: usize = 0;
    while i < ixs.len()
        invariant
            i <= ixs@.len(),
            lv == Some(records_view(ixs@)),
            search_defined(lv, message@, signature@, pubkey@),
            forall|j: int|
                0 <= j < i ==> !#[trigger] carries(records_view(ixs@)[j], message@, signature@, pubkey@),
        decreases ixs@.len() - i,
    {
        assert(records_view(ixs@)[i as int] == record_view(ixs@[i as int]));
        assert(!empty_window_at(lv->0[i as int], message@, signature@, pubkey@));
        if instruction_carries(&ixs[i], message, signature, pubkey) {
            assert(carries(lv->0[i as int], message@, signature@, pubkey@));
            return true;
        }
        i = i + 1;
    }
    false
}

/// Whether the running instruction's index can be read and searching the
/// instructions before it for the key, the signature and the message never
/// slides a window of width zero, so that the search can run.
pub fn search_is_defined(
    acc: &InstructionsAccount,
    message: &[u8],
    signature: &[u8],
    pubkey: &[u8],
) -> (r: bool)
    ensures
        r == (instructions_readable(acc.key, acc.data@) && search_defined(
            account_instructions(acc.key, acc.data@),
            message@,
            signature@,
            pubkey@,
        )),
{
    if !is_readable(acc) {
        return false;
    }
    match load_instructions(acc) {
        None => true,
        Some(ixs) => search_defined_in(&ixs, message, signature, pubkey),
    }
}

/// A signature counts as verified exactly when some loaded instruction calls
/// the native secp256k1 program and its data holds the key, the signature and
/// the message, each somewhere as a contiguous run of bytes.
pub proof fn lemma_signature_found_means(
    loaded: Option<Seq<Option<LoadedInstruction>>>,
    message: Seq<u8>,
    signature: Seq<u8>,
    pubkey: Seq<u8>,
)
    ensures
        signature_found(loaded, message, signature, pubkey) <==> (loaded is Some && exists|
            i: int,
            a: int,
            b: int,
            c: int,
        |
            #![trigger loaded->0[i], loaded->0[i]->0.data.subrange(a, a + pubkey.len()), loaded->0[i]->0.data.subrange(b, b + signature.len()), loaded->0[i]->0.data.subrange(c, c + message.len())]
            {
                &&& 0 <= i < loaded->0.len()
                &&& loaded->0[i] is Some
                &&& loaded->0[i]->0.program_id == secp256k1_program_id()
                &&& 0 <= a && a + pubkey.len() <= loaded->0[i]->0.data.len()
                &&& loaded->0[i]->0.data.subrange(a, a + pubkey.len()) == pubkey
                &&& 0 <= b && b + signature.len() <= loaded->0[i]->0.data.len()
                &&& loaded->0[i]->0.data.subrange(b, b + signature.len()) == signature
                &&& 0 <= c && c + message.len() <= loaded->0[i]->0.data.len()
                &&& loaded->0[i]->0.data.subrange(c, c + message.len()) == message
            }),
{
    if signature_found(loaded, message, signature, pubkey) {
        let i = choose|i: int|
            0 <= i < loaded->0.len() && #[trigger] carries(loaded->0[i], message, signature, pubkey);
        let d = loaded->0[i]->0.data;
        let a = choose|a: int|
            0 <= a && a + pubkey.len() <= d.len() && #[trigger] d.subrange(a, a + pubkey.len())
                == pubkey;
        let b = choose|b: int|
            0 <= b && b + signature.len() <= d.len() && #[trigger] d.subrange(b, b + signature.len())
                == signature;
        let c = choose|c: int|
            0 <= c && c + message.len() <= d.len() && #[trigger] d.subrange(c, c + message.len())
                == message;
        assert(loaded->0[i] == loaded->0[i]);
    }
    if loaded is Some && exists|i: int, a: int, b: int, c: int|
        #![trigger loaded->0[i], loaded->0[i]->0.data.subrange(a, a + pubkey.len()), loaded->0[i]->0.data.subrange(b, b + signature.len()), loaded->0[i]->0.data.subrange(c, c + message.len())]
        {
            &&& 0 <= i < loaded->0.len()
            &&& loaded->0[i] is Some
            &&& loaded->0[i]->0.program_id == secp256k1_program_id()
            &&& 0 <= a && a + pubkey.len() <= loaded->0[i]->0.data.len()
            &&& loaded->0[i]->0.data.subrange(a, a + pubkey.len()) == pubkey
            &&& 0 <= b && b + signature.len() <= loaded->0[i]->0.data.len()
            &&& loaded->0[i]->0.data.subrange(b, b + signature.len()) == signature
            &&& 0 <= c && c + message.len() <= loaded->0[i]->0.data.len()
            &&& loaded->0[i]->0.data.subrange(c, c + message.len()) == message
        } {
        let (i, a, b, c) = choose|i: int, a: int, b: int, c: int|
            #![trigger loaded->0[i], loaded->0[i]->0.data.subrange(a, a + pubkey.len()), loaded->0[i]->0.data.subrange(b, b + signature.len()), loaded->0[i]->0.data.subrange(c, c + message.len())]
            {
                &&& 0 <= i < loaded->0.len()
                &&& loaded->0[i] is Some
                &&& loaded->0[i]->0.program_id == secp256k1_program_id()
                &&& 0 <= a && a + pubkey.len() <= loaded->0[i]->0.data.len()
                &&& loaded->0[i]->0.data.subrange(a, a + pubkey.len()) == pubkey
                &&& 0 <= b && b + signature.len() <= loaded->0[i]->0.data.len()
                &&& loaded->0[i]->0.data.subrange(b, b + signature.len()) == signature
                &&& 0 <= c && c + message.len() <= loaded->0[i]->0.data.len()
                &&& loaded->0[i]->0.data.subrange(c, c + message.len()) == message
            };
        assert(carries(loaded->0[i], message, signature, pubkey));
    }
}

} // verus!
