//! Counting the oracle nodes that signed a report, and the quorums they must
//! reach: two thirds of the node slots in use for the oracle, a majority of
//! them for the ramp.
use vstd::prelude::*;
use crate::pubkey::Pubkey;

verus! {

broadcast use vstd::seq_lib::seq_to_set_is_finite;

/// A recovered key as a byte sequence.
pub open spec fn key_view(o: Option<[u8; 64]>) -> Option<Seq<u8>> {
    match o {
        Some(k) => Some(k@),
        None => None,
    }
}

/// The recovered keys as byte sequences.
pub open spec fn keys_view(r: Seq<Option<[u8; 64]>>) -> Seq<Option<Seq<u8>>> {
    r.map_values(|o: Option<[u8; 64]>| key_view(o))
}

/// `node` is the signer of a signature whose recovered key is `recovered`:
/// its address is the first 32 bytes of that key.
pub open spec fn signed_by(node: Pubkey, recovered: Option<Seq<u8>>) -> bool {
    &&& recovered is Some
    &&& recovered->0.len() >= 32
    &&& recovered->0.subrange(0, 32) == node.bytes@
}

/// `k` is a configured, non-empty node that signed one of the signatures.
pub open spec fn is_validator(nodes: Seq<Pubkey>, recovered: Seq<Option<Seq<u8>>>, k: Pubkey) -> bool {
    &&& !k.is_default()
    &&& nodes.contains(k)
    &&& exists|i: int| 0 <= i < recovered.len() && #[trigger] signed_by(k, recovered[i])
}

/// The distinct nodes that signed.
pub open spec fn validators(nodes: Seq<Pubkey>, recovered: Seq<Option<Seq<u8>>>) -> Set<Pubkey> {
    Set::new(|k: Pubkey| is_validator(nodes, recovered, k))
}

/// The number of non-empty node slots (a key set twice counts twice).
pub open spec fn active_count(nodes: Seq<Pubkey>) -> nat
    decreases nodes.len(),
{
    if nodes.len() == 0 {
        0
    } else {
        active_count(nodes.drop_last()) + if nodes.last().is_default() {
            0nat
        } else {
            1nat
        }
    }
}

/// Two thirds of the non-empty node slots, rounded up; with no non-empty slot,
/// one signer (which cannot be found).
pub open spec fn two_thirds_threshold(nodes: Seq<Pubkey>) -> nat {
    let n = active_count(nodes);
    if n == 0 {
        1
    } else {
        (2 * n + 2) / 3
    }
}

/// At least two thirds of the non-empty node slots signed.
pub open spec fn reaches_two_thirds(nodes: Seq<Pubkey>, recovered: Seq<Option<Seq<u8>>>) -> bool {
    validators(nodes, recovered).len() >= two_thirds_threshold(nodes)
}

/// More than half of the non-empty node slots.
pub open spec fn majority_threshold(nodes: Seq<Pubkey>) -> nat {
    active_count(nodes) / 2 + 1
}

/// More than half of the non-empty node slots signed.
pub open spec fn reaches_majority(nodes: Seq<Pubkey>, recovered: Seq<Option<Seq<u8>>>) -> bool {
    validators(nodes, recovered).len() >= majority_threshold(nodes)
}

/// Whether the first 32 bytes of `key` are `node`'s address.
fn key_names(node: &Pubkey, key: &[u8; 64]) -> (r: bool)
    ensures
        r == (key@.subrange(0, 32) == node.bytes@),
{
    let mut i: usize = 0;
    while i < 32
        invariant
            i <= 32,
            forall|j: int| 0 <= j < i ==> key@[j] == node.bytes@[j],
        decreases 32 - i,
    {
        if key[i] != node.bytes[i] {
            assert(key@.subrange(0, 32)[i as int] != node.bytes@[i as int]);
            return false;
        }
        i = i + 1;
    }
    assert(key@.subrange(0, 32) =~= node.bytes@);
    true
}

/// Whether `node` signed any of the signatures.
fn signed_any(node: &Pubkey, recovered: &Vec<Option<[u8; 64]>>) -> (r: bool)
    ensures
        r == exists|i: int|
            0 <= i < recovered@.len() && #[trigger] signed_by(*node, keys_view(recovered@)[i]),
{
    let ghost rv = keys_view(recovered@);
    let mut i: usize = 0;
    while i < recovered.len()
        invariant
            i <= recovered@.len(),
            rv == keys_view(recovered@),
            forall|j: int| 0 <= j < i ==> !#[trigger] signed_by(*node, rv[j]),
        decreases recovered@.len() - i,
    {
        match &recovered[i] {
            Some(key) => {
                if key_names(node, key) {
                    assert(signed_by(*node, rv[i as int]));
                    return true;
                }
            },
            None => {},
        }
        i = i + 1;
    }
    false
}

/// Whether `k` is already among `found`.
fn holds_key(found: &Vec<Pubkey>, k: &Pubkey) -> (r: bool)
    ensures
        r == found@.contains(*k),
{
    let mut i: usize = 0;
    while i < found.len()
        invariant
            i <= found@.len(),
            forall|j: int| 0 <= j < i ==> found@[j] != *k,
        decreases found@.len() - i,
    {
        if found[i] == *k {
            return true;
        }
        i = i + 1;
    }
    false
}

/// The number of distinct non-empty nodes that signed.
pub fn count_validators(nodes: &[Pubkey; 8], recovered: &Vec<Option<[u8; 64]>>) -> (c: usize)
    ensures
        validators(nodes@, keys_view(recovered@)).finite(),
        c == validators(nodes@, keys_view(recovered@)).len(),
{
    let ghost rv = keys_view(recovered@);
    let ghost ns = nodes@;
    let mut found: Vec<Pubkey> = Vec::new();
    let mut j: usize = 0;
    while j < 8
        invariant
            j <= 8,
            ns == nodes@,
            rv == keys_view(recovered@),
            found@.no_duplicates(),
            forall|k: Pubkey|
                #![trigger found@.contains(k)]
                found@.contains(k) <==> (!k.is_default() && ns.subrange(0, j as int).contains(k)
                    && exists|i: int| 0 <= i < rv.len() && #[trigger] signed_by(k, rv[i])),
        decreases 8 - j,
    {
        let node = nodes[j];
        let ghost before = found@;
        let empty = node.is_default_key();
        let signed = signed_any(&node, recovered);
        let seen = holds_key(&found, &node);
        if !empty && signed && !seen {
            found.push(node);
        }
        proof {
            let prev = ns.subrange(0, j as int);
            let next = ns.subrange(0, j + 1);
            assert(next =~= prev.push(node));
            assert forall|k: Pubkey|
                #![trigger found@.contains(k)]
                found@.contains(k) <==> (!k.is_default() && next.contains(k)
                    && exists|i: int| 0 <= i < rv.len() && #[trigger] signed_by(k, rv[i])) by {
                assert(before.contains(k) <==> (!k.is_default() && prev.contains(k)
                    && exists|i: int| 0 <= i < rv.len() && #[trigger] signed_by(k, rv[i])));
                if prev.contains(k) {
                    let w = choose|w: int| 0 <= w < prev.len() && prev[w] == k;
                    assert(next[w] == k);
                }
                if next.contains(k) && k != node {
                    let w = choose|w: int| 0 <= w < next.len() && next[w] == k;
                    assert(prev[w] == k);
                }
                if k == node {
                    assert(next[j as int] == k);
                }
                if found@.len() > before.len() && found@.contains(k) && k != node {
                    let w = choose|w: int| 0 <= w < found@.len() && found@[w] == k;
                    assert(before[w] == k);
                }
                if before.contains(k) {
                    let w = choose|w: int| 0 <= w < before.len() && before[w] == k;
                    assert(found@[w] == k);
                }
                if found@.len() > before.len() && k == node {
                    assert(found@[before.len() as int] == k);
                }
                if k == node && !(!empty && signed && !seen) {
                    assert(found@ == before);
                }
                if k != node {
                    assert(found@.contains(k) <==> before.contains(k));
                    assert(next.contains(k) <==> prev.contains(k));
                }
            }
            if !empty && signed && !seen {
                assert forall|a: int, b: int|
                    0 <= a < found@.len() && 0 <= b < found@.len() && a != b implies found@[a]
                    != found@[b] by {
                    if a == before.len() {
                        assert(!before.contains(node));
                    } else if b == before.len() {
                        assert(!before.contains(node));
                    }
                }
            }
        }
        j = j + 1;
    }
    proof {
        assert(ns.subrange(0, 8) =~= ns);
        assert(found@.to_set() =~= validators(ns, rv));
        found@.unique_seq_to_set();
    }
    found.len()
}

/// The number of non-empty node slots.
pub fn count_active_nodes(nodes: &[Pubkey; 8]) -> (c: usize)
    ensures
        c == active_count(nodes@),
{
    let ghost ns = nodes@;
    let mut c: usize = 0;
    let mut j: usize = 0;
    while j < 8
        invariant
            j <= 8,
            ns == nodes@,
            c <= j,
            c == active_count(ns.subrange(0, j as int)),
        decreases 8 - j,
    {
        proof {
            assert(ns.subrange(0, j + 1).drop_last() =~= ns.subrange(0, j as int));
        }
        if !nodes[j].is_default_key() {
            c = c + 1;
        }
        j = j + 1;
    }
    assert(ns.subrange(0, 8) =~= ns);
    c
}

/// Whether the distinct signing nodes are at least two thirds of the non-empty
/// slots, and at least one.
pub fn has_two_thirds(nodes: &[Pubkey; 8], recovered: &Vec<Option<[u8; 64]>>) -> (r: bool)
    ensures
        r == reaches_two_thirds(nodes@, keys_view(recovered@)),
{
    let signers = count_validators(nodes, recovered);
    let active = count_active_nodes(nodes);
    proof {
        lemma_validators_bounded(nodes@, keys_view(recovered@));
        lemma_active_count_bounded(nodes@);
        let n = active as int;
        let s = signers as int;
        assert(n > 0 ==> (s >= (2 * n + 2) / 3 <==> 3 * s >= 2 * n)) by (nonlinear_arith);
    }
    signers >= 1 && 3 * signers >= 2 * active
}

/// Whether the distinct signing nodes are more than half of the non-empty slots.
pub fn has_majority(nodes: &[Pubkey; 8], recovered: &Vec<Option<[u8; 64]>>) -> (r: bool)
    ensures
        r == reaches_majority(nodes@, keys_view(recovered@)),
{
    let signers = count_validators(nodes, recovered);
    let active = count_active_nodes(nodes);
    signers >= active / 2 + 1
}

/// There are no more non-empty slots than slots.
proof fn lemma_active_count_bounded(nodes: Seq<Pubkey>)
    ensures
        active_count(nodes) <= nodes.len(),
    decreases nodes.len(),
{
    if nodes.len() > 0 {
        lemma_active_count_bounded(nodes.drop_last());
    }
}


/// A signature repeated is counted once: adding a copy of one of the recovered
/// keys leaves the set of signing nodes as it was.
pub proof fn lemma_repeated_signature_counts_once(
    nodes: Seq<Pubkey>,
    recovered: Seq<Option<Seq<u8>>>,
    i: int,
)
    requires
        0 <= i < recovered.len(),
    ensures
        validators(nodes, recovered.push(recovered[i])) == validators(nodes, recovered),
{
    let more = recovered.push(recovered[i]);
    assert forall|k: Pubkey| is_validator(nodes, more, k) implies is_validator(nodes, recovered, k) by {
        let j = choose|j: int| 0 <= j < more.len() && #[trigger] signed_by(k, more[j]);
        if j == recovered.len() {
            assert(signed_by(k, recovered[i]));
        } else {
            assert(signed_by(k, recovered[j]));
        }
    }
    assert forall|k: Pubkey| is_validator(nodes, recovered, k) implies is_validator(nodes, more, k) by {
        let j = choose|j: int| 0 <= j < recovered.len() && #[trigger] signed_by(k, recovered[j]);
        assert(signed_by(k, more[j]));
    }
    assert(validators(nodes, more) =~= validators(nodes, recovered));
}

/// No more nodes count as signers than there are node slots.
pub proof fn lemma_validators_bounded(nodes: Seq<Pubkey>, recovered: Seq<Option<Seq<u8>>>)
    ensures
        validators(nodes, recovered).finite(),
        validators(nodes, recovered).len() <= nodes.len(),
{
    let vs = validators(nodes, recovered);
    assert(vs.subset_of(nodes.to_set()));
    nodes.lemma_cardinality_of_set();
    vstd::set_lib::lemma_len_subset(vs, nodes.to_set());
}

/// With every node slot empty, no report reaches either quorum.
pub proof fn lemma_no_nodes_no_quorum(nodes: Seq<Pubkey>, recovered: Seq<Option<Seq<u8>>>)
    requires
        forall|j: int| 0 <= j < nodes.len() ==> (#[trigger] nodes[j]).is_default(),
    ensures
        !reaches_two_thirds(nodes, recovered),
        !reaches_majority(nodes, recovered),
{
    assert(validators(nodes, recovered) =~= Set::<Pubkey>::empty());
}

/// A signature whose recovered key names none of the configured nodes counts
/// for nobody: the set of signing nodes stays as it was.
pub proof fn lemma_outside_signer_not_counted(
    nodes: Seq<Pubkey>,
    recovered: Seq<Option<Seq<u8>>>,
    key: Option<Seq<u8>>,
)
    requires
        forall|j: int| 0 <= j < nodes.len() ==> !signed_by(#[trigger] nodes[j], key),
    ensures
        validators(nodes, recovered.push(key)) == validators(nodes, recovered),
{
    let more = recovered.push(key);
    assert forall|k: Pubkey| is_validator(nodes, more, k) implies is_validator(nodes, recovered, k) by {
        let j = choose|j: int| 0 <= j < more.len() && #[trigger] signed_by(k, more[j]);
        let n = choose|n: int| 0 <= n < nodes.len() && nodes[n] == k;
        assert(!signed_by(nodes[n], key));
        assert(j != recovered.len());
        assert(signed_by(k, recovered[j]));
    }
    assert forall|k: Pubkey| is_validator(nodes, recovered, k) implies is_validator(nodes, more, k) by {
        let j = choose|j: int| 0 <= j < recovered.len() && #[trigger] signed_by(k, recovered[j]);
        assert(signed_by(k, more[j]));
    }
    assert(validators(nodes, more) =~= validators(nodes, recovered));
}

/// One more signature never undoes a quorum: a report that reached either
/// quorum still does with any signature added.
pub proof fn lemma_more_signatures_keep_quorum(
    nodes: Seq<Pubkey>,
    recovered: Seq<Option<Seq<u8>>>,
    key: Option<Seq<u8>>,
)
    ensures
        reaches_two_thirds(nodes, recovered) ==> reaches_two_thirds(nodes, recovered.push(key)),
        reaches_majority(nodes, recovered) ==> reaches_majority(nodes, recovered.push(key)),
{
    let more = recovered.push(key);
    assert forall|k: Pubkey| is_validator(nodes, recovered, k) implies is_validator(nodes, more, k) by {
        let j = choose|j: int| 0 <= j < recovered.len() && #[trigger] signed_by(k, recovered[j]);
        assert(signed_by(k, more[j]));
    }
    assert(validators(nodes, recovered).subset_of(validators(nodes, more)));
    lemma_validators_bounded(nodes, more);
    vstd::set_lib::lemma_len_subset(validators(nodes, recovered), validators(nodes, more));
}

/// A signer is named by the first 32 bytes of the recovered key, byte for byte.
pub proof fn lemma_signed_by_means(node: Pubkey, key: Seq<u8>)
    ensures
        signed_by(node, Some(key)) <==> (key.len() >= 32 && forall|j: int|
            0 <= j < 32 ==> #[trigger] key[j] == node.bytes[j]),
        !signed_by(node, None),
{
    if key.len() >= 32 && forall|j: int| 0 <= j < 32 ==> #[trigger] key[j] == node.bytes[j] {
        assert(key.subrange(0, 32) =~= node.bytes@);
    }
    if signed_by(node, Some(key)) {
        assert forall|j: int| 0 <= j < 32 implies #[trigger] key[j] == node.bytes[j] by {
            assert(key.subrange(0, 32)[j] == key[j]);
        }
    }
}

/// The oracle's quorum is reached exactly when three times the number of
/// distinct signing nodes is at least twice the number of non-empty slots, and
/// some node signed; the ramp's exactly when twice that number exceeds the
/// number of non-empty slots.
pub proof fn lemma_quorum_arithmetic(nodes: Seq<Pubkey>, recovered: Seq<Option<Seq<u8>>>)
    ensures
        reaches_two_thirds(nodes, recovered) <==> (3 * validators(nodes, recovered).len() >= 2
            * active_count(nodes) && validators(nodes, recovered).len() >= 1),
        reaches_majority(nodes, recovered) <==> 2 * validators(nodes, recovered).len()
            > active_count(nodes),
{
    let s = validators(nodes, recovered).len() as int;
    let n = active_count(nodes) as int;
    assert(n > 0 ==> (s >= (2 * n + 2) / 3 <==> 3 * s >= 2 * n)) by (nonlinear_arith)
        requires
            n >= 0,
    ;
    assert((s >= n / 2 + 1) <==> (2 * s > n)) by (nonlinear_arith)
        requires
            n >= 0,
    ;
}

/// The number of non-empty slots counts the slots that do not hold the empty
/// address.
pub proof fn lemma_active_count_counts_non_empty(nodes: Seq<Pubkey>)
    ensures
        active_count(nodes) == nodes.filter(|k: Pubkey| !k.is_default()).len(),
    decreases nodes.len(),
{
    reveal(Seq::filter);
    if nodes.len() > 0 {
        lemma_active_count_counts_non_empty(nodes.drop_last());
    }
}

} // verus!
