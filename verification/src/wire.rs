//! The byte layout in which accounts and instruction arguments travel: fixed
//! integers in little-endian order, addresses and byte arrays as they are, and a
//! string as its UTF-8 length in four little-endian bytes followed by its UTF-8
//! bytes.
use vstd::prelude::*;
use crate::crypto::utf8_str;
use crate::le::{le_bytes, le_value, pow256, push_le, read_u32_le, read_u64_le, lemma_le_bytes_len, lemma_le_roundtrip, lemma_le_bytes_of_value, lemma_pow256_values};
use crate::oracle::{ReportContext, TokenTransferMetadata};
#[allow(unused_imports)]
use vstd::string::StringSliceAdditionalSpecFns;
use vstd::utf8::{decode_utf8, encode_utf8, valid_utf8};

verus! {

/// A string whose UTF-8 length fits in the four-byte length prefix.
pub open spec fn string_fits(s: Seq<char>) -> bool {
    encode_utf8(s).len() < pow256(4)
}

/// A string on the wire.
pub open spec fn encode_string(s: Seq<char>) -> Seq<u8> {
    le_bytes(encode_utf8(s).len(), 4) + encode_utf8(s)
}

/// A `TokenTransferMetadata` on the wire.
pub open spec fn encode_metadata(m: TokenTransferMetadata) -> Seq<u8> {
    le_bytes(m.target_chain_id as nat, 8) + m.token_address.bytes@ + m.symbol@ + le_bytes(
        m.amount as nat,
        8,
    ) + encode_string(m.extra_data@)
}

/// A `ReportContext` on the wire.
pub open spec fn encode_report_context(r: ReportContext) -> Seq<u8> {
    encode_string(r.message_id@) + encode_string(r.sender@) + r.receiver.bytes@ + le_bytes(
        r.src_chain as nat,
        8,
    ) + le_bytes(r.dst_chain as nat, 8) + le_bytes(r.epoch as nat, 8)
}

pub open spec fn metadata_fits(m: TokenTransferMetadata) -> bool {
    string_fits(m.extra_data@)
}

pub open spec fn report_context_fits(r: ReportContext) -> bool {
    string_fits(r.message_id@) && string_fits(r.sender@)
}

/// Two metadata values that agree in every field (strings by their characters).
pub open spec fn same_metadata(a: TokenTransferMetadata, b: TokenTransferMetadata) -> bool {
    &&& a.target_chain_id == b.target_chain_id
    &&& a.token_address == b.token_address
    &&& a.symbol == b.symbol
    &&& a.amount == b.amount
    &&& a.extra_data@ == b.extra_data@
}

/// Two report contexts that agree in every field (strings by their characters).
pub open spec fn same_report_context(a: ReportContext, b: ReportContext) -> bool {
    &&& a.message_id@ == b.message_id@
    &&& a.sender@ == b.sender@
    &&& a.receiver == b.receiver
    &&& a.src_chain == b.src_chain
    &&& a.dst_chain == b.dst_chain
    &&& a.epoch == b.epoch
}

proof fn lemma_string_len(s: Seq<char>)
    ensures
        encode_string(s).len() == 4 + encode_utf8(s).len(),
{
    lemma_le_bytes_len(encode_utf8(s).len(), 4);
}

/// A wire string determines where it ends: two fitting wire strings that begin
/// two equal byte strings are the same string, and what follows them is equal.
pub proof fn lemma_string_prefix_unique(t1: Seq<char>, r1: Seq<u8>, t2: Seq<char>, r2: Seq<u8>)
    requires
        string_fits(t1),
        string_fits(t2),
        encode_string(t1) + r1 == encode_string(t2) + r2,
    ensures
        t1 == t2,
        r1 == r2,
{
    let b1 = encode_utf8(t1);
    let b2 = encode_utf8(t2);
    let w = encode_string(t1) + r1;
    lemma_le_roundtrip(b1.len(), 4);
    lemma_le_roundtrip(b2.len(), 4);
    assert(w.subrange(0, 4) =~= le_bytes(b1.len(), 4));
    assert((encode_string(t2) + r2).subrange(0, 4) =~= le_bytes(b2.len(), 4));
    assert(b1.len() == b2.len());
    assert(w.subrange(4, 4 + b1.len() as int) =~= b1);
    assert((encode_string(t2) + r2).subrange(4, 4 + b2.len() as int) =~= b2);
    vstd::utf8::encode_utf8_decode_utf8(t1);
    vstd::utf8::encode_utf8_decode_utf8(t2);
    assert(r1 =~= w.subrange(4 + b1.len() as int, w.len() as int));
    assert(r2 =~= (encode_string(t2) + r2).subrange(4 + b2.len() as int, w.len() as int));
}

/// Appends `b`.
pub fn push_bytes(out: &mut Vec<u8>, b: &[u8])
    ensures
        final(out)@ == old(out)@ + b@,
{
    let n = b.len();
    let mut i: usize = 0;
    while i < n
        invariant
            i <= n,
            n == b@.len(),
            out@ == old(out)@ + b@.subrange(0, i as int),
        decreases n - i,
    {
        out.push(b[i]);
        i = i + 1;
        assert(out@ =~= old(out)@ + b@.subrange(0, i as int));
    }
    assert(b@.subrange(0, n as int) =~= b@);
}

/// Appends `s` as a wire string.
pub fn push_string(out: &mut Vec<u8>, s: &str)
    requires
        string_fits(s@),
    ensures
        final(out)@ == old(out)@ + encode_string(s@),
{
    let b = s.as_bytes();
    proof {
        lemma_pow256_values();
    }
    push_le(out, b.len() as u64, 4);
    push_bytes(out, b);
    assert(out@ =~= old(out)@ + encode_string(s@));
}


/// Copies the `len` bytes at `start`.
pub fn take_bytes(b: &[u8], start: usize, len: usize) -> (v: Vec<u8>)
    requires
        start + len <= b@.len(),
    ensures
        v@ == b@.subrange(start as int, start + len),
{
    let n = b.len();
    let mut v: Vec<u8> = Vec::new();
    let mut i: usize = 0;
    while i < len
        invariant
            n == b@.len(),
            i <= len,
            start + len <= b@.len(),
            v@ == b@.subrange(start as int, start + i),
        decreases len - i,
    {
        v.push(b[start + i]);
        i = i + 1;
        assert(v@ =~= b@.subrange(start as int, start + i));
    }
    v
}

/// Copies the 32 bytes at `start`.
pub fn take_32(b: &[u8], start: usize) -> (a: [u8; 32])
    requires
        start + 32 <= b@.len(),
    ensures
        a@ == b@.subrange(start as int, start + 32),
{
    let n = b.len();
    let mut a = [0u8; 32];
    let mut i: usize = 0;
    while i < 32
        invariant
            n == b@.len(),
            i <= 32,
            start + 32 <= b@.len(),
            forall|j: int| 0 <= j < i ==> a@[j] == b@[start + j],
        decreases 32 - i,
    {
        a[i] = b[start + i];
        i = i + 1;
    }
    assert(a@ =~= b@.subrange(start as int, start + 32));
    a
}

/// Copies the 16 bytes at `start`.
pub fn take_16(b: &[u8], start: usize) -> (a: [u8; 16])
    requires
        start + 16 <= b@.len(),
    ensures
        a@ == b@.subrange(start as int, start + 16),
{
    let n = b.len();
    let mut a = [0u8; 16];
    let mut i: usize = 0;
    while i < 16
        invariant
            n == b@.len(),
            i <= 16,
            start + 16 <= b@.len(),
            forall|j: int| 0 <= j < i ==> a@[j] == b@[start + j],
        decreases 16 - i,
    {
        a[i] = b[start + i];
        i = i + 1;
    }
    assert(a@ =~= b@.subrange(start as int, start + 16));
    a
}

/// Reads the wire string at `start`: it is there exactly when some fitting
/// string's wire form begins the bytes from `start` on, and then it is that one.
pub fn decode_string_at(b: &[u8], start: usize) -> (r: Option<(String, usize)>)
    requires
        start <= b@.len(),
    ensures
        r matches Some((s, next)) ==> {
            &&& start <= next <= b@.len()
            &&& string_fits(s@)
            &&& b@.subrange(start as int, next as int) == encode_string(s@)
        },
        forall|t: Seq<char>|
            string_fits(t) && #[trigger] encode_string(t).is_prefix_of(
                b@.subrange(start as int, b@.len() as int),
            ) ==> (r matches Some((s, next)) && s@ == t),
{
    let n = b.len();
    let ghost rest = b@.subrange(start as int, n as int);
    proof {
        lemma_pow256_values();
    }
    if n - start < 4 {
        proof {
            assert forall|t: Seq<char>|
                string_fits(t) && #[trigger] encode_string(t).is_prefix_of(rest) implies false by {
                lemma_string_len(t);
            }
        }
        return None;
    }
    let len = read_u32_le(b, start) as usize;
    proof {
        assert forall|t: Seq<char>|
            string_fits(t) && #[trigger] encode_string(t).is_prefix_of(rest) implies len
            == encode_utf8(t).len() && len + 4 <= n - start && b@.subrange(
            start + 4,
            start + 4 + len,
        ) == encode_utf8(t) by {
            lemma_string_len(t);
            let e = encode_string(t);
            lemma_le_roundtrip(encode_utf8(t).len(), 4);
            assert(e.subrange(0, 4) =~= le_bytes(encode_utf8(t).len(), 4));
            assert(b@.subrange(start as int, start + 4) =~= e.subrange(0, 4));
            assert(b@.subrange(start + 4, start + 4 + len) =~= e.subrange(4, 4 + len as int));
            assert(e.subrange(4, 4 + len as int) =~= encode_utf8(t));
        }
    }
    if len > n - start - 4 {
        return None;
    }
    let bytes = take_bytes(b, start + 4, len);
    match utf8_str(bytes.as_slice()) {
        None => {
            proof {
                assert forall|t: Seq<char>|
                    string_fits(t) && #[trigger] encode_string(t).is_prefix_of(rest) implies false by {
                    vstd::utf8::encode_utf8_valid_utf8(t);
                }
            }
            None
        },
        Some(text) => {
            let s = text.to_owned();
            let next = start + 4 + len;
            proof {
                lemma_le_bytes_of_value(b@.subrange(start as int, start + 4));
                assert(encode_utf8(s@) == bytes@);
                assert(b@.subrange(start as int, next as int) =~= b@.subrange(
                    start as int,
                    start + 4,
                ) + bytes@);
                assert forall|t: Seq<char>|
                    string_fits(t) && #[trigger] encode_string(t).is_prefix_of(rest) implies s@
                    == t by {
                    vstd::utf8::encode_utf8_decode_utf8(t);
                    vstd::utf8::encode_utf8_decode_utf8(s@);
                }
            }
            Some((s, next))
        },
    }
}


/// Whether `s` fits in a wire string.
fn str_fits(s: &str) -> (r: bool)
    ensures
        r == string_fits(s@),
{
    proof {
        lemma_pow256_values();
    }
    s.as_bytes().len() <= 0xffff_ffff
}

impl TokenTransferMetadata {
    /// The wire form; `None` when the extra data is too long for its length prefix.
    pub fn try_to_vec(&self) -> (r: Option<Vec<u8>>)
        ensures
            r is Some <==> metadata_fits(*self),
            r matches Some(v) ==> v@ == encode_metadata(*self),
    {
        let extra = self.extra_data.as_str();
        if !str_fits(extra) {
            return None;
        }
        proof {
            lemma_pow256_values();
        }
        let mut out: Vec<u8> = Vec::new();
        push_le(&mut out, self.target_chain_id, 8);
        push_bytes(&mut out, self.token_address.bytes.as_slice());
        push_bytes(&mut out, self.symbol.as_slice());
        push_le(&mut out, self.amount, 8);
        push_string(&mut out, extra);
        assert(out@ =~= encode_metadata(*self));
        Some(out)
    }

    /// Reads a value from its wire form, which must use up every byte.
    pub fn try_from_slice(b: &[u8]) -> (r: Option<TokenTransferMetadata>)
        ensures
            r matches Some(m) ==> metadata_fits(m) && encode_metadata(m) == b@,
            forall|m: TokenTransferMetadata|
                metadata_fits(m) && #[trigger] encode_metadata(m) == b@ ==> r is Some,
    {
        let n = b.len();
        proof {
            lemma_pow256_values();
            assert forall|m: TokenTransferMetadata|
                metadata_fits(m) && #[trigger] encode_metadata(m) == b@ implies {
                &&& n >= 64
                &&& encode_string(m.extra_data@).is_prefix_of(b@.subrange(64, n as int))
                &&& encode_string(m.extra_data@).len() == n - 64
            } by {
                lemma_le_bytes_len(m.target_chain_id as nat, 8);
                lemma_le_bytes_len(m.amount as nat, 8);
                assert(b@.subrange(64, n as int) =~= encode_string(m.extra_data@));
            }
        }
        if n < 64 {
            return None;
        }
        let target_chain_id = read_u64_le(b, 0);
        let token_address = crate::pubkey::Pubkey::new_from_array(take_32(b, 8));
        let symbol = take_16(b, 40);
        let amount = read_u64_le(b, 56);
        match decode_string_at(b, 64) {
            None => None,
            Some((extra_data, next)) => {
                if next != n {
                    return None;
                }
                let m = TokenTransferMetadata {
                    target_chain_id,
                    token_address,
                    symbol,
                    amount,
                    extra_data,
                };
                proof {
                    lemma_le_bytes_of_value(b@.subrange(0, 8));
                    lemma_le_bytes_of_value(b@.subrange(56, 64));
                    assert(b@ =~= b@.subrange(0, 8) + b@.subrange(8, 40) + b@.subrange(40, 56)
                        + b@.subrange(56, 64) + b@.subrange(64, n as int));
                    assert(encode_metadata(m) =~= b@);
                }
                Some(m)
            },
        }
    }
}

impl ReportContext {
    /// The wire form; `None` when a string is too long for its length prefix.
    pub fn try_to_vec(&self) -> (r: Option<Vec<u8>>)
        ensures
            r is Some <==> report_context_fits(*self),
            r matches Some(v) ==> v@ == encode_report_context(*self),
    {
        let message_id = self.message_id.as_str();
        let sender = self.sender.as_str();
        if !str_fits(message_id) || !str_fits(sender) {
            return None;
        }
        proof {
            lemma_pow256_values();
        }
        let mut out: Vec<u8> = Vec::new();
        push_string(&mut out, message_id);
        push_string(&mut out, sender);
        push_bytes(&mut out, self.receiver.bytes.as_slice());
        push_le(&mut out, self.src_chain, 8);
        push_le(&mut out, self.dst_chain, 8);
        push_le(&mut out, self.epoch, 8);
        assert(out@ =~= encode_report_context(*self));
        Some(out)
    }

    /// Reads a value from its wire form, which must use up every byte.
    #[verifier::rlimit(50)]
    pub fn try_from_slice(b: &[u8]) -> (r: Option<ReportContext>)
        ensures
            r matches Some(c) ==> report_context_fits(c) && encode_report_context(c) == b@,
            forall|c: ReportContext|
                report_context_fits(c) && #[trigger] encode_report_context(c) == b@ ==> r is Some,
    {
        let n = b.len();
        let ghost whole = b@;
        proof {
            lemma_pow256_values();
        }
        let (message_id, p1) = match decode_string_at(b, 0) {
            None => {
                proof {
                    assert forall|c: ReportContext|
                        report_context_fits(c) && #[trigger] encode_report_context(c)
                            == b@ implies false by {
                        assert(encode_string(c.message_id@).is_prefix_of(
                            b@.subrange(0, n as int),
                        )) by {
                            assert(b@.subrange(0, n as int) =~= b@);
                        }
                    }
                }
                return None;
            },
            Some(x) => x,
        };
        proof {
            assert forall|c: ReportContext|
                report_context_fits(c) && #[trigger] encode_report_context(c) == b@ implies {
                &&& c.message_id@ == message_id@
                &&& encode_string(c.sender@).is_prefix_of(b@.subrange(p1 as int, n as int))
            } by {
                let tail = encode_string(c.sender@) + c.receiver.bytes@ + le_bytes(
                    c.src_chain as nat,
                    8,
                ) + le_bytes(c.dst_chain as nat, 8) + le_bytes(c.epoch as nat, 8);
                assert(b@.subrange(0, n as int) =~= b@);
                assert(encode_report_context(c) =~= encode_string(c.message_id@) + tail);
                assert(b@ =~= encode_string(message_id@) + b@.subrange(p1 as int, n as int));
                lemma_string_prefix_unique(
                    c.message_id@,
                    tail,
                    message_id@,
                    b@.subrange(p1 as int, n as int),
                );
                assert(b@.subrange(p1 as int, n as int).subrange(
                    0,
                    encode_string(c.sender@).len() as int,
                ) =~= encode_string(c.sender@));
            }
        }
        let (sender, p2) = match decode_string_at(b, p1) {
            None => {
                proof {
                    assert forall|c: ReportContext|
                        report_context_fits(c) && #[trigger] encode_report_context(c)
                            == b@ implies false by {
                        assert(encode_string(c.sender@).is_prefix_of(
                            b@.subrange(p1 as int, n as int),
                        ));
                    }
                }
                return None;
            },
            Some(x) => x,
        };
        proof {
            assert forall|c: ReportContext|
                report_context_fits(c) && #[trigger] encode_report_context(c) == b@ implies {
                &&& c.sender@ == sender@
                &&& b@.subrange(p2 as int, n as int) == c.receiver.bytes@ + le_bytes(
                    c.src_chain as nat,
                    8,
                ) + le_bytes(c.dst_chain as nat, 8) + le_bytes(c.epoch as nat, 8)
            } by {
                let tail = c.receiver.bytes@ + le_bytes(c.src_chain as nat, 8) + le_bytes(
                    c.dst_chain as nat,
                    8,
                ) + le_bytes(c.epoch as nat, 8);
                assert(b@.subrange(p1 as int, n as int) =~= encode_string(c.sender@) + tail);
                assert(b@.subrange(p1 as int, n as int) =~= encode_string(sender@) + b@.subrange(
                    p2 as int,
                    n as int,
                ));
                lemma_string_prefix_unique(
                    c.sender@,
                    tail,
                    sender@,
                    b@.subrange(p2 as int, n as int),
                );
                lemma_le_bytes_len(c.src_chain as nat, 8);
                lemma_le_bytes_len(c.dst_chain as nat, 8);
                lemma_le_bytes_len(c.epoch as nat, 8);
            }
        }
        if n - p2 != 56 {
            proof {
                assert forall|c: ReportContext|
                    report_context_fits(c) && #[trigger] encode_report_context(c) == b@ implies false by {
                    lemma_le_bytes_len(c.src_chain as nat, 8);
                    lemma_le_bytes_len(c.dst_chain as nat, 8);
                    lemma_le_bytes_len(c.epoch as nat, 8);
                    assert(b@.subrange(p2 as int, n as int).len() == 56);
                }
            }
            return None;
        }
        let receiver = crate::pubkey::Pubkey::new_from_array(take_32(b, p2));
        let src_chain = read_u64_le(b, p2 + 32);
        let dst_chain = read_u64_le(b, p2 + 40);
        let epoch = read_u64_le(b, p2 + 48);
        let c = ReportContext { message_id, sender, receiver, src_chain, dst_chain, epoch };
        proof {
            lemma_le_bytes_of_value(b@.subrange(p2 + 32, p2 + 40));
            lemma_le_bytes_of_value(b@.subrange(p2 + 40, p2 + 48));
            lemma_le_bytes_of_value(b@.subrange(p2 + 48, p2 + 56));
            assert(b@ =~= b@.subrange(0, p1 as int) + b@.subrange(p1 as int, p2 as int)
                + b@.subrange(p2 as int, p2 + 32) + b@.subrange(p2 + 32, p2 + 40) + b@.subrange(
                p2 + 40,
                p2 + 48,
            ) + b@.subrange(p2 + 48, p2 + 56));
            assert(encode_report_context(c) =~= b@);
        }
        Some(c)
    }
}


/// Reading back a written value gives that value: two fitting metadata values
/// with the same wire form agree in every field.
pub proof fn lemma_metadata_encoding_injective(a: TokenTransferMetadata, b: TokenTransferMetadata)
    requires
        metadata_fits(a),
        metadata_fits(b),
        encode_metadata(a) == encode_metadata(b),
    ensures
        same_metadata(a, b),
{
    let e = encode_metadata(a);
    let f = encode_metadata(b);
    lemma_pow256_values();
    lemma_le_roundtrip(a.target_chain_id as nat, 8);
    lemma_le_roundtrip(b.target_chain_id as nat, 8);
    lemma_le_roundtrip(a.amount as nat, 8);
    lemma_le_roundtrip(b.amount as nat, 8);
    assert(e.subrange(0, 8) =~= le_bytes(a.target_chain_id as nat, 8));
    assert(f.subrange(0, 8) =~= le_bytes(b.target_chain_id as nat, 8));
    assert(e.subrange(8, 40) =~= a.token_address.bytes@);
    assert(f.subrange(8, 40) =~= b.token_address.bytes@);
    assert(a.token_address.bytes =~= b.token_address.bytes);
    assert(e.subrange(40, 56) =~= a.symbol@);
    assert(f.subrange(40, 56) =~= b.symbol@);
    assert(a.symbol =~= b.symbol);
    assert(e.subrange(56, 64) =~= le_bytes(a.amount as nat, 8));
    assert(f.subrange(56, 64) =~= le_bytes(b.amount as nat, 8));
    assert(e.subrange(64, e.len() as int) =~= encode_string(a.extra_data@));
    assert(f.subrange(64, f.len() as int) =~= encode_string(b.extra_data@));
    assert(encode_string(a.extra_data@) + Seq::<u8>::empty() =~= encode_string(a.extra_data@));
    assert(encode_string(b.extra_data@) + Seq::<u8>::empty() =~= encode_string(b.extra_data@));
    lemma_string_prefix_unique(a.extra_data@, Seq::empty(), b.extra_data@, Seq::empty());
}

/// Reading back a written value gives that value: two fitting report contexts
/// with the same wire form agree in every field.
pub proof fn lemma_report_context_encoding_injective(a: ReportContext, b: ReportContext)
    requires
        report_context_fits(a),
        report_context_fits(b),
        encode_report_context(a) == encode_report_context(b),
    ensures
        same_report_context(a, b),
{
    lemma_pow256_values();
    let ta = le_bytes(a.src_chain as nat, 8) + le_bytes(a.dst_chain as nat, 8) + le_bytes(
        a.epoch as nat,
        8,
    );
    let tb = le_bytes(b.src_chain as nat, 8) + le_bytes(b.dst_chain as nat, 8) + le_bytes(
        b.epoch as nat,
        8,
    );
    let ra = encode_string(a.sender@) + a.receiver.bytes@ + ta;
    let rb = encode_string(b.sender@) + b.receiver.bytes@ + tb;
    assert(encode_report_context(a) =~= encode_string(a.message_id@) + ra);
    assert(encode_report_context(b) =~= encode_string(b.message_id@) + rb);
    lemma_string_prefix_unique(a.message_id@, ra, b.message_id@, rb);
    assert(ra =~= encode_string(a.sender@) + (a.receiver.bytes@ + ta));
    assert(rb =~= encode_string(b.sender@) + (b.receiver.bytes@ + tb));
    lemma_string_prefix_unique(a.sender@, a.receiver.bytes@ + ta, b.sender@, b.receiver.bytes@ + tb);
    let ua = a.receiver.bytes@ + ta;
    let ub = b.receiver.bytes@ + tb;
    lemma_le_roundtrip(a.src_chain as nat, 8);
    lemma_le_roundtrip(b.src_chain as nat, 8);
    lemma_le_roundtrip(a.dst_chain as nat, 8);
    lemma_le_roundtrip(b.dst_chain as nat, 8);
    lemma_le_roundtrip(a.epoch as nat, 8);
    lemma_le_roundtrip(b.epoch as nat, 8);
    assert(ua.subrange(0, 32) =~= a.receiver.bytes@);
    assert(ub.subrange(0, 32) =~= b.receiver.bytes@);
    assert(a.receiver.bytes =~= b.receiver.bytes);
    assert(ua.subrange(32, 40) =~= le_bytes(a.src_chain as nat, 8));
    assert(ub.subrange(32, 40) =~= le_bytes(b.src_chain as nat, 8));
    assert(ua.subrange(40, 48) =~= le_bytes(a.dst_chain as nat, 8));
    assert(ub.subrange(40, 48) =~= le_bytes(b.dst_chain as nat, 8));
    assert(ua.subrange(48, 56) =~= le_bytes(a.epoch as nat, 8));
    assert(ub.subrange(48, 56) =~= le_bytes(b.epoch as nat, 8));
}

/// The wire form of token-transfer metadata is its fields in declaration
/// order: bytes 0..8 the target chain and 56..64 the amount, both
/// little-endian; 8..40 the token address; 40..56 the symbol; 64..68 the
/// number of UTF-8 bytes of the extra data, little-endian; then those bytes.
pub proof fn lemma_metadata_layout(m: TokenTransferMetadata)
    requires
        metadata_fits(m),
    ensures
        ({
            let e = encode_metadata(m);
            let x = encode_utf8(m.extra_data@);
            &&& e.len() == 68 + x.len()
            &&& le_value(e.subrange(0, 8)) == m.target_chain_id
            &&& e.subrange(8, 40) == m.token_address.bytes@
            &&& e.subrange(40, 56) == m.symbol@
            &&& le_value(e.subrange(56, 64)) == m.amount
            &&& le_value(e.subrange(64, 68)) == x.len()
            &&& e.subrange(68, e.len() as int) == x
        }),
{
    let e = encode_metadata(m);
    let x = encode_utf8(m.extra_data@);
    lemma_pow256_values();
    lemma_le_roundtrip(m.target_chain_id as nat, 8);
    lemma_le_roundtrip(m.amount as nat, 8);
    lemma_le_roundtrip(x.len(), 4);
    assert(e.subrange(0, 8) =~= le_bytes(m.target_chain_id as nat, 8));
    assert(e.subrange(8, 40) =~= m.token_address.bytes@);
    assert(e.subrange(40, 56) =~= m.symbol@);
    assert(e.subrange(56, 64) =~= le_bytes(m.amount as nat, 8));
    assert(e.subrange(64, 68) =~= le_bytes(x.len(), 4));
    assert(e.subrange(68, e.len() as int) =~= x);
}

/// The wire form of a report context is its fields in declaration order: the
/// message id and the sender, each as four little-endian bytes of UTF-8 length
/// and then its UTF-8 bytes; the receiver's 32 bytes; the source chain, the
/// destination chain and the epoch, eight little-endian bytes each.
pub proof fn lemma_report_context_layout(r: ReportContext)
    requires
        report_context_fits(r),
    ensures
        ({
            let e = encode_report_context(r);
            let a = encode_utf8(r.message_id@);
            let b = encode_utf8(r.sender@);
            let la = a.len() as int;
            let o = 8 + la + b.len();
            &&& e.len() == o + 56
            &&& le_value(e.subrange(0, 4)) == a.len()
            &&& e.subrange(4, 4 + la) == a
            &&& le_value(e.subrange(4 + la, 8 + la)) == b.len()
            &&& e.subrange(8 + la, o) == b
            &&& e.subrange(o, o + 32) == r.receiver.bytes@
            &&& le_value(e.subrange(o + 32, o + 40)) == r.src_chain
            &&& le_value(e.subrange(o + 40, o + 48)) == r.dst_chain
            &&& le_value(e.subrange(o + 48, o + 56)) == r.epoch
        }),
{
    let e = encode_report_context(r);
    let a = encode_utf8(r.message_id@);
    let b = encode_utf8(r.sender@);
    let la = a.len() as int;
    let o = 8 + la + b.len();
    lemma_pow256_values();
    lemma_le_roundtrip(a.len(), 4);
    lemma_le_roundtrip(b.len(), 4);
    lemma_le_roundtrip(r.src_chain as nat, 8);
    lemma_le_roundtrip(r.dst_chain as nat, 8);
    lemma_le_roundtrip(r.epoch as nat, 8);
    assert(e.subrange(0, 4) =~= le_bytes(a.len(), 4));
    assert(e.subrange(4, 4 + la) =~= a);
    assert(e.subrange(4 + la, 8 + la) =~= le_bytes(b.len(), 4));
    assert(e.subrange(8 + la, o) =~= b);
    assert(e.subrange(o, o + 32) =~= r.receiver.bytes@);
    assert(e.subrange(o + 32, o + 40) =~= le_bytes(r.src_chain as nat, 8));
    assert(e.subrange(o + 40, o + 48) =~= le_bytes(r.dst_chain as nat, 8));
    assert(e.subrange(o + 48, o + 56) =~= le_bytes(r.epoch as nat, 8));
}

} // verus!
