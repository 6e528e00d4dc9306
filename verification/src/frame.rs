//! The byte frame that a `transmit` instruction carries:
//! a report context, a message and token-transfer metadata, each as a
//! four-byte little-endian length and that many bytes; then a four-byte
//! little-endian signature count and, per signature, 64 signature bytes
//! followed by a one-byte recovery id. Bytes after the last signature are
//! ignored.
use vstd::prelude::*;
use crate::crypto::{keccak256, keccak256_hash, secp256k1_recover, secp256k1_recovered_key};
use crate::le::{le_bytes, le_value, lemma_le_roundtrip, lemma_pow256_values, pow256, read_u32_le};
use crate::quorum::{key_view, keys_view};
use crate::wire::push_bytes;
use crate::wire::take_bytes;

verus! {

/// The four-byte little-endian number at `off`.
pub open spec fn u32_at(d: Seq<u8>, off: int) -> int {
    le_value(d.subrange(off, off + 4)) as int
}

/// Where the length-prefixed field at `off` ends.
pub open spec fn field_end(d: Seq<u8>, off: int) -> int {
    off + 4 + u32_at(d, off)
}

/// The length-prefixed field at `off` lies inside `d`.
pub open spec fn field_fits(d: Seq<u8>, off: int) -> bool {
    0 <= off && off + 4 <= d.len() && field_end(d, off) <= d.len()
}

/// The bytes of the length-prefixed field at `off`.
pub open spec fn field(d: Seq<u8>, off: int) -> Seq<u8> {
    d.subrange(off + 4, field_end(d, off))
}

pub open spec fn message_offset(d: Seq<u8>) -> int {
    field_end(d, 0)
}

pub open spec fn metadata_offset(d: Seq<u8>) -> int {
    field_end(d, message_offset(d))
}

pub open spec fn count_offset(d: Seq<u8>) -> int {
    field_end(d, metadata_offset(d))
}

/// The number of signatures the frame announces.
pub open spec fn sig_count(d: Seq<u8>) -> int {
    u32_at(d, count_offset(d))
}

/// Where the `k`-th signature entry begins.
pub open spec fn sig_start(d: Seq<u8>, k: int) -> int {
    count_offset(d) + 4 + 65 * k
}

/// The frame holds every part it announces.
pub open spec fn frame_ok(d: Seq<u8>) -> bool {
    &&& field_fits(d, 0)
    &&& field_fits(d, message_offset(d))
    &&& field_fits(d, metadata_offset(d))
    &&& count_offset(d) + 4 <= d.len()
    &&& sig_start(d, sig_count(d)) <= d.len()
}

/// The parts of a frame.
pub struct FrameParts {
    pub report_context: Seq<u8>,
    pub message: Seq<u8>,
    pub token_transfer_metadata: Seq<u8>,
    pub signatures: Seq<Seq<u8>>,
    pub recovery_ids: Seq<u8>,
}

/// The parts of the frame `d`, or `None` when it is cut short.
pub open spec fn spec_parse_frame(d: Seq<u8>) -> Option<FrameParts> {
    if frame_ok(d) {
        Some(
            FrameParts {
                report_context: field(d, 0),
                message: field(d, message_offset(d)),
                token_transfer_metadata: field(d, metadata_offset(d)),
                signatures: Seq::new(
                    sig_count(d) as nat,
                    |k: int| d.subrange(sig_start(d, k), sig_start(d, k) + 64),
                ),
                recovery_ids: Seq::new(sig_count(d) as nat, |k: int| d[sig_start(d, k) + 64]),
            },
        )
    } else {
        None
    }
}

/// A parsed frame.
pub struct TransmitFrame {
    pub report_context: Vec<u8>,
    pub message: Vec<u8>,
    pub token_transfer_metadata: Vec<u8>,
    pub signatures: Vec<Vec<u8>>,
    pub recovery_ids: Vec<u8>,
}

impl View for TransmitFrame {
    type V = FrameParts;

    open spec fn view(&self) -> FrameParts {
        FrameParts {
            report_context: self.report_context@,
            message: self.message@,
            token_transfer_metadata: self.token_transfer_metadata@,
            signatures: self.signatures@.map_values(|s: Vec<u8>| s@),
            recovery_ids: self.recovery_ids@,
        }
    }
}

/// Reads the length-prefixed field at `off`, giving its bytes and where it ends.
fn read_field(d: &[u8], off: usize) -> (r: Option<(Vec<u8>, usize)>)
    requires
        off <= d@.len(),
    ensures
        r is Some <==> field_fits(d@, off as int),
        r matches Some((v, end)) ==> v@ == field(d@, off as int) && end == field_end(
            d@,
            off as int,
        ),
{
    let n = d.len();
    if n - off < 4 {
        return None;
    }
    let len = read_u32_le(d, off) as usize;
    if len > n - off - 4 {
        return None;
    }
    let v = take_bytes(d, off + 4, len);
    Some((v, off + 4 + len))
}

/// Splits a frame into its parts; `None` exactly when it is cut short.
pub fn parse_transmit_frame(data: &[u8]) -> (r: Option<TransmitFrame>)
    ensures
        r is None <==> spec_parse_frame(data@) is None,
        r matches Some(f) ==> spec_parse_frame(data@) == Some(f@) && f.signatures@.len()
            == f.recovery_ids@.len() && forall|i: int|
            0 <= i < f.signatures@.len() ==> #[trigger] f.signatures@[i]@.len() == 64,
{
    let ghost d = data@;
    let n = data.len();
    let (report_context, o1) = match read_field(data, 0) {
        None => return None,
        Some(x) => x,
    };
    let (message, o2) = match read_field(data, o1) {
        None => return None,
        Some(x) => x,
    };
    let (token_transfer_metadata, o3) = match read_field(data, o2) {
        None => return None,
        Some(x) => x,
    };
    if n - o3 < 4 {
        return None;
    }
    let count = read_u32_le(data, o3) as usize;
    let room = n - o3 - 4;
    if count > room / 65 {
        assert(sig_start(d, sig_count(d)) > d.len()) by (nonlinear_arith)
            requires
                count > room / 65,
                room == d.len() - count_offset(d) - 4,
                count == sig_count(d),
                sig_start(d, sig_count(d)) == count_offset(d) + 4 + 65 * sig_count(d),
        ;
        return None;
    }
    assert(65 * count <= room) by (nonlinear_arith)
        requires
            count <= room / 65,
    ;
    let mut signatures: Vec<Vec<u8>> = Vec::new();
    let mut recovery_ids: Vec<u8> = Vec::new();
    let mut k: usize = 0;
    let mut off: usize = o3 + 4;
    while k < count
        invariant
            n == d.len(),
            d == data@,
            frame_ok(d),
            o3 == count_offset(d),
            count == sig_count(d),
            k <= count,
            off == sig_start(d, k as int),
            signatures@.len() == k,
            recovery_ids@.len() == k,
            forall|j: int| 0 <= j < k ==> #[trigger] signatures@[j]@.len() == 64,
            forall|j: int|
                0 <= j < k ==> #[trigger] signatures@[j]@ == d.subrange(
                    sig_start(d, j),
                    sig_start(d, j) + 64,
                ),
            forall|j: int| 0 <= j < k ==> #[trigger] recovery_ids@[j] == d[sig_start(d, j) + 64],
        decreases count - k,
    {
        assert(sig_start(d, k as int) + 65 <= sig_start(d, count as int));
        let sig = take_bytes(data, off, 64);
        let rid = data[off + 64];
        signatures.push(sig);
        recovery_ids.push(rid);
        k = k + 1;
        off = off + 65;
    }
    let f = TransmitFrame { report_context, message, token_transfer_metadata, signatures, recovery_ids };
    proof {
        let p = spec_parse_frame(d).unwrap();
        assert(f@.signatures =~= p.signatures);
        assert(f@.recovery_ids =~= p.recovery_ids);
    }
    Some(f)
}

/// The digest the oracle nodes sign: Keccak-256 of the report context, the
/// message and the metadata, one after the other.
pub open spec fn report_digest(f: FrameParts) -> Seq<u8> {
    keccak256(f.report_context + f.message + f.token_transfer_metadata)
}

/// The key recovered from each signature of the frame.
pub open spec fn recovered_signers(f: FrameParts) -> Seq<Option<Seq<u8>>> {
    Seq::new(
        f.signatures.len(),
        |i: int| secp256k1_recovered_key(report_digest(f), f.recovery_ids[i], f.signatures[i]),
    )
}

/// Recovers the key behind each signature of the frame, over the frame's digest.
pub fn recover_signers(frame: &TransmitFrame) -> (recovered: Vec<Option<[u8; 64]>>)
    requires
        frame.signatures@.len() == frame.recovery_ids@.len(),
        forall|i: int| 0 <= i < frame.signatures@.len() ==> #[trigger] frame.signatures@[i]@.len() == 64,
    ensures
        keys_view(recovered@) == recovered_signers(frame@),
{
    let ghost f = frame@;
    let mut signed: Vec<u8> = Vec::new();
    push_bytes(&mut signed, frame.report_context.as_slice());
    push_bytes(&mut signed, frame.message.as_slice());
    push_bytes(&mut signed, frame.token_transfer_metadata.as_slice());
    let digest = keccak256_hash(signed.as_slice());
    let mut recovered: Vec<Option<[u8; 64]>> = Vec::new();
    let mut i: usize = 0;
    while i < frame.signatures.len()
        invariant
            i <= frame.signatures@.len(),
            frame.signatures@.len() == frame.recovery_ids@.len(),
            forall|j: int| 0 <= j < frame.signatures@.len() ==> #[trigger] frame.signatures@[j]@.len() == 64,
            frame@ == f,
            digest@ == report_digest(f),
            recovered@.len() == i,
            forall|j: int|
                0 <= j < i ==> #[trigger] key_view(recovered@[j]) == recovered_signers(f)[j],
        decreases frame.signatures@.len() - i,
    {
        let key = secp256k1_recover(
            digest.as_slice(),
            frame.recovery_ids[i],
            frame.signatures[i].as_slice(),
        );
        recovered.push(key);
        proof {
            assert(f.signatures[i as int] == frame.signatures@[i as int]@);
        }
        i = i + 1;
    }
    proof {
        assert(keys_view(recovered@) =~= recovered_signers(f));
    }
    recovered
}

/// The signature entries of a frame: each signature followed by its recovery id.
pub open spec fn signature_entries(sigs: Seq<Seq<u8>>, rids: Seq<u8>) -> Seq<u8>
    decreases sigs.len(),
{
    if sigs.len() == 0 {
        Seq::empty()
    } else {
        signature_entries(sigs.drop_last(), rids.drop_last()) + sigs.last() + seq![rids.last()]
    }
}

/// A frame written from its parts: each of the three fields as four
/// little-endian bytes of length and then its bytes; the number of signatures
/// in four little-endian bytes; then the signature entries.
pub open spec fn frame_bytes(
    report_context: Seq<u8>,
    message: Seq<u8>,
    token_transfer_metadata: Seq<u8>,
    sigs: Seq<Seq<u8>>,
    rids: Seq<u8>,
) -> Seq<u8> {
    le_bytes(report_context.len(), 4) + report_context + le_bytes(message.len(), 4) + message
        + le_bytes(token_transfer_metadata.len(), 4) + token_transfer_metadata + le_bytes(
        sigs.len(),
        4,
    ) + signature_entries(sigs, rids)
}

proof fn lemma_signature_entries(sigs: Seq<Seq<u8>>, rids: Seq<u8>)
    requires
        sigs.len() == rids.len(),
        forall|k: int| 0 <= k < sigs.len() ==> (#[trigger] sigs[k]).len() == 64,
    ensures
        signature_entries(sigs, rids).len() == 65 * sigs.len(),
        forall|k: int|
            0 <= k < sigs.len() ==> signature_entries(sigs, rids).subrange(65 * k, 65 * k + 64)
                == #[trigger] sigs[k] && signature_entries(sigs, rids)[65 * k + 64] == rids[k],
    decreases sigs.len(),
{
    if sigs.len() > 0 {
        let s0 = sigs.drop_last();
        let r0 = rids.drop_last();
        assert forall|k: int| 0 <= k < s0.len() implies (#[trigger] s0[k]).len() == 64 by {
            assert(s0[k] == sigs[k]);
        }
        lemma_signature_entries(s0, r0);
        let e0 = signature_entries(s0, r0);
        let e = signature_entries(sigs, rids);
        let n = sigs.len() as int;
        assert(e == e0 + sigs.last() + seq![rids.last()]);
        assert forall|k: int| 0 <= k < sigs.len() implies e.subrange(65 * k, 65 * k + 64)
            == #[trigger] sigs[k] && e[65 * k + 64] == rids[k] by {
            if k < n - 1 {
                assert(e0.subrange(65 * k, 65 * k + 64) == s0[k]);
                assert(e.subrange(65 * k, 65 * k + 64) =~= e0.subrange(65 * k, 65 * k + 64));
                assert(e[65 * k + 64] == e0[65 * k + 64]);
                assert(s0[k] == sigs[k]);
                assert(r0[k] == rids[k]);
            } else {
                assert(e.subrange(65 * k, 65 * k + 64) =~= sigs.last());
            }
        }
    }
}

proof fn lemma_signature_entry_at(sigs: Seq<Seq<u8>>, rids: Seq<u8>, k: int)
    requires
        sigs.len() == rids.len(),
        forall|j: int| 0 <= j < sigs.len() ==> (#[trigger] sigs[j]).len() == 64,
        0 <= k < sigs.len(),
    ensures
        signature_entries(sigs, rids).subrange(65 * k, 65 * k + 64) == sigs[k],
        signature_entries(sigs, rids)[65 * k + 64] == rids[k],
{
    lemma_signature_entries(sigs, rids);
    assert(sigs[k] == sigs[k]);
}

/// Reading a frame gives back the parts it was written from, whatever bytes
/// follow it: the three fields, each signature and each recovery id, in order.
#[verifier::spinoff_prover]
pub proof fn lemma_frame_round_trip(
    report_context: Seq<u8>,
    message: Seq<u8>,
    token_transfer_metadata: Seq<u8>,
    sigs: Seq<Seq<u8>>,
    rids: Seq<u8>,
    extra: Seq<u8>,
)
    requires
        report_context.len() < pow256(4),
        message.len() < pow256(4),
        token_transfer_metadata.len() < pow256(4),
        sigs.len() < pow256(4),
        sigs.len() == rids.len(),
        forall|k: int| 0 <= k < sigs.len() ==> (#[trigger] sigs[k]).len() == 64,
    ensures
        spec_parse_frame(
            frame_bytes(report_context, message, token_transfer_metadata, sigs, rids) + extra,
        ) == Some(
            FrameParts {
                report_context,
                message,
                token_transfer_metadata,
                signatures: sigs,
                recovery_ids: rids,
            },
        ),
{
    let d = frame_bytes(report_context, message, token_transfer_metadata, sigs, rids) + extra;
    let a = report_context.len() as int;
    let b = message.len() as int;
    let m = token_transfer_metadata.len() as int;
    let n = sigs.len() as int;
    let e = signature_entries(sigs, rids);
    lemma_signature_entries(sigs, rids);
    lemma_pow256_values();
    lemma_le_roundtrip(report_context.len(), 4);
    lemma_le_roundtrip(message.len(), 4);
    lemma_le_roundtrip(token_transfer_metadata.len(), 4);
    lemma_le_roundtrip(sigs.len(), 4);
    let o1 = 4 + a;
    let o2 = o1 + 4 + b;
    let o3 = o2 + 4 + m;
    assert(d.subrange(0, 4) =~= le_bytes(report_context.len(), 4));
    assert(d.subrange(4, o1) =~= report_context);
    assert(d.subrange(o1, o1 + 4) =~= le_bytes(message.len(), 4));
    assert(d.subrange(o1 + 4, o2) =~= message);
    assert(d.subrange(o2, o2 + 4) =~= le_bytes(token_transfer_metadata.len(), 4));
    assert(d.subrange(o2 + 4, o3) =~= token_transfer_metadata);
    assert(d.subrange(o3, o3 + 4) =~= le_bytes(sigs.len(), 4));
    assert(d.subrange(o3 + 4, o3 + 4 + 65 * n) =~= e);
    assert(message_offset(d) == o1);
    assert(metadata_offset(d) == o2);
    assert(count_offset(d) == o3);
    assert(sig_count(d) == n);
    assert(frame_ok(d));
    let p = spec_parse_frame(d)->0;
    assert forall|k: int| 0 <= k < n implies p.signatures[k] == #[trigger] sigs[k] by {
        lemma_signature_entry_at(sigs, rids, k);
        assert(d.subrange(sig_start(d, k), sig_start(d, k) + 64) =~= e.subrange(65 * k, 65 * k + 64));
    }
    assert forall|k: int| 0 <= k < n implies p.recovery_ids[k] == #[trigger] rids[k] by {
        assert(sig_start(d, k) == o3 + 4 + 65 * k);
        lemma_signature_entry_at(sigs, rids, k);
        assert(d.subrange(o3 + 4, o3 + 4 + 65 * n)[65 * k + 64] == e[65 * k + 64]);
        assert(d[sig_start(d, k) + 64] == e[65 * k + 64]);
    }
    assert(p.signatures =~= sigs);
    assert(p.recovery_ids =~= rids);
    assert(p.report_context =~= report_context);
    assert(p.message =~= message);
    assert(p.token_transfer_metadata =~= token_transfer_metadata);
}

/// The digest the nodes sign is the Keccak-256 digest of the report context,
/// the message and the metadata, laid end to end in that order.
pub proof fn lemma_report_digest_input(f: FrameParts, x: Seq<u8>)
    requires
        x.len() == f.report_context.len() + f.message.len() + f.token_transfer_metadata.len(),
        x.subrange(0, f.report_context.len() as int) == f.report_context,
        x.subrange(
            f.report_context.len() as int,
            (f.report_context.len() + f.message.len()) as int,
        ) == f.message,
        x.subrange((f.report_context.len() + f.message.len()) as int, x.len() as int)
            == f.token_transfer_metadata,
    ensures
        report_digest(f) == keccak256(x),
{
    assert(x =~= f.report_context + f.message + f.token_transfer_metadata) by {
        let a = f.report_context.len() as int;
        let b = f.message.len() as int;
        assert forall|i: int| 0 <= i < x.len() implies x[i] == (f.report_context + f.message
            + f.token_transfer_metadata)[i] by {
            if i < a {
                assert(x.subrange(0, a)[i] == x[i]);
            } else if i < a + b {
                assert(x.subrange(a, a + b)[i - a] == x[i]);
            } else {
                assert(x.subrange(a + b, x.len() as int)[i - a - b] == x[i]);
            }
        }
    }
}

} // verus!
