//! The sender whitelist: eight slots, the empty address marking a free one.
use vstd::prelude::*;
use crate::pubkey::{empty_key, lemma_empty_key, Pubkey};

verus! {

/// `i` is the first slot that is empty or already holds `sender`.
pub open spec fn is_first_open_slot(w: Seq<Pubkey>, sender: Pubkey, i: int) -> bool {
    &&& 0 <= i < w.len()
    &&& (w[i].is_default() || w[i] == sender)
    &&& forall|j: int| 0 <= j < i ==> !(#[trigger] w[j]).is_default() && w[j] != sender
}

/// The sender whitelist after adding `sender`: it goes into the first slot that
/// is empty or already holds it; `None` when every slot holds another sender.
pub open spec fn whitelist_after_add(w: Seq<Pubkey>, sender: Pubkey) -> Option<Seq<Pubkey>> {
    if exists|i: int| is_first_open_slot(w, sender, i) {
        let i = choose|i: int| is_first_open_slot(w, sender, i);
        Some(w.update(i, sender))
    } else {
        None
    }
}

/// `i` is the first slot that holds `sender`.
pub open spec fn is_first_slot_of(w: Seq<Pubkey>, sender: Pubkey, i: int) -> bool {
    &&& 0 <= i < w.len()
    &&& w[i] == sender
    &&& forall|j: int| 0 <= j < i ==> #[trigger] w[j] != sender
}

/// The sender whitelist after removing `sender`: its first slot is emptied;
/// `None` when no slot holds it.
pub open spec fn whitelist_after_remove(w: Seq<Pubkey>, sender: Pubkey) -> Option<Seq<Pubkey>> {
    if exists|i: int| is_first_slot_of(w, sender, i) {
        let i = choose|i: int| is_first_slot_of(w, sender, i);
        Some(w.update(i, empty_key()))
    } else {
        None
    }
}

pub(crate) proof fn lemma_first_open_slot_unique(w: Seq<Pubkey>, sender: Pubkey, i: int, k: int)
    requires
        is_first_open_slot(w, sender, i),
        is_first_open_slot(w, sender, k),
    ensures
        i == k,
{
    if i < k {
        assert(!w[i].is_default() && w[i] != sender);
    } else if k < i {
        assert(!w[k].is_default() && w[k] != sender);
    }
}

pub(crate) proof fn lemma_first_slot_of_unique(w: Seq<Pubkey>, sender: Pubkey, i: int, k: int)
    requires
        is_first_slot_of(w, sender, i),
        is_first_slot_of(w, sender, k),
    ensures
        i == k,
{
    if i < k {
        assert(w[i] != sender);
    } else if k < i {
        assert(w[k] != sender);
    }
}

/// After an addition succeeds, the whitelist holds the sender.
pub proof fn lemma_added_sender_is_listed(w: Seq<Pubkey>, sender: Pubkey)
    requires
        whitelist_after_add(w, sender) is Some,
    ensures
        whitelist_after_add(w, sender)->0.contains(sender),
{
    let i = choose|i: int| is_first_open_slot(w, sender, i);
    assert(w.update(i, sender)[i] == sender);
}

/// Adding a sender a second time succeeds and changes nothing.
pub proof fn lemma_add_sender_idempotent(w: Seq<Pubkey>, sender: Pubkey)
    requires
        whitelist_after_add(w, sender) is Some,
    ensures
        whitelist_after_add(whitelist_after_add(w, sender)->0, sender) == whitelist_after_add(
            w,
            sender,
        ),
{
    let i = choose|i: int| is_first_open_slot(w, sender, i);
    let w2 = w.update(i, sender);
    assert(is_first_open_slot(w2, sender, i));
    let k = choose|k: int| is_first_open_slot(w2, sender, k);
    lemma_first_open_slot_unique(w2, sender, i, k);
    assert(w2.update(i, sender) =~= w2);
}

/// Removing a sender that was just added to a whitelist that did not hold it
/// gives back the whitelist as it was.
pub proof fn lemma_add_then_remove_sender(w: Seq<Pubkey>, sender: Pubkey)
    requires
        !w.contains(sender),
        whitelist_after_add(w, sender) is Some,
    ensures
        whitelist_after_remove(whitelist_after_add(w, sender)->0, sender) == Some(w),
{
    let i = choose|i: int| is_first_open_slot(w, sender, i);
    let w2 = w.update(i, sender);
    assert(w[i] != sender);
    lemma_empty_key(w[i]);
    lemma_empty_key(sender);
    assert(is_first_slot_of(w2, sender, i));
    let k = choose|k: int| is_first_slot_of(w2, sender, k);
    lemma_first_slot_of_unique(w2, sender, i, k);
    assert(w2.update(i, empty_key()) =~= w);
}

/// Removing a sender that the whitelist holds in one slot only leaves it unlisted.
pub proof fn lemma_removed_sender_is_unlisted(w: Seq<Pubkey>, sender: Pubkey, i: int)
    requires
        0 <= i < w.len(),
        w[i] == sender,
        forall|j: int| 0 <= j < w.len() && j != i ==> #[trigger] w[j] != sender,
        !sender.is_default(),
    ensures
        whitelist_after_remove(w, sender) is Some,
        !whitelist_after_remove(w, sender)->0.contains(sender),
{
    assert(is_first_slot_of(w, sender, i));
    let k = choose|k: int| is_first_slot_of(w, sender, k);
    lemma_first_slot_of_unique(w, sender, i, k);
    lemma_empty_key(sender);
    let w3 = w.update(i, empty_key());
    assert forall|j: int| 0 <= j < w3.len() implies w3[j] != sender by {
        if j == i {
            assert(w3[j] == empty_key());
        }
    }
}

/// A slot that is empty or already holds `sender`.
spec fn open_for(w: Seq<Pubkey>, sender: Pubkey, i: int) -> bool {
    w[i].is_default() || w[i] == sender
}

/// Some slot before `n` is open for `sender`, so a first one exists.
proof fn lemma_first_open_exists(w: Seq<Pubkey>, sender: Pubkey, n: int)
    requires
        0 <= n <= w.len(),
        exists|i: int| 0 <= i < n && #[trigger] open_for(w, sender, i),
    ensures
        exists|i: int| is_first_open_slot(w, sender, i),
    decreases n,
{
    if exists|i: int| 0 <= i < n - 1 && #[trigger] open_for(w, sender, i) {
        lemma_first_open_exists(w, sender, n - 1);
    } else {
        let k = choose|i: int| 0 <= i < n && #[trigger] open_for(w, sender, i);
        assert(k == n - 1);
        assert forall|j: int| 0 <= j < n - 1 implies !(#[trigger] w[j]).is_default() && w[j] != sender by {
            assert(!open_for(w, sender, j));
        }
        assert(is_first_open_slot(w, sender, n - 1));
    }
}

/// Adding a sender succeeds exactly when some slot, the last one included, is
/// empty or already holds it; the first such slot then holds the sender and
/// every other slot keeps its key.
pub proof fn lemma_add_sender_fills_first_open_slot(w: Seq<Pubkey>, sender: Pubkey)
    ensures
        whitelist_after_add(w, sender) is Some <==> exists|i: int|
            0 <= i < w.len() && (#[trigger] w[i].is_default() || w[i] == sender),
        forall|i: int|
            0 <= i < w.len() && (#[trigger] w[i].is_default() || w[i] == sender) && (forall|j: int|
                0 <= j < i ==> !(#[trigger] w[j]).is_default() && w[j] != sender)
                ==> whitelist_after_add(w, sender) == Some(w.update(i, sender)),
{
    if exists|i: int| 0 <= i < w.len() && (#[trigger] w[i].is_default() || w[i] == sender) {
        let i = choose|i: int| 0 <= i < w.len() && (#[trigger] w[i].is_default() || w[i] == sender);
        assert(open_for(w, sender, i));
        lemma_first_open_exists(w, sender, w.len() as int);
    }
    if whitelist_after_add(w, sender) is Some {
        let k = choose|k: int| is_first_open_slot(w, sender, k);
        assert(w[k].is_default() || w[k] == sender);
    }
    assert forall|i: int|
        0 <= i < w.len() && (#[trigger] w[i].is_default() || w[i] == sender) && (forall|j: int|
            0 <= j < i ==> !(#[trigger] w[j]).is_default() && w[j] != sender)
            implies whitelist_after_add(w, sender) == Some(w.update(i, sender)) by {
        assert(is_first_open_slot(w, sender, i));
        let k = choose|k: int| is_first_open_slot(w, sender, k);
        lemma_first_open_slot_unique(w, sender, i, k);
    }
}

/// Some slot before `n` holds `sender`, so a first one exists.
proof fn lemma_first_slot_of_exists(w: Seq<Pubkey>, sender: Pubkey, n: int)
    requires
        0 <= n <= w.len(),
        exists|i: int| 0 <= i < n && #[trigger] w[i] == sender,
    ensures
        exists|i: int| is_first_slot_of(w, sender, i),
    decreases n,
{
    if exists|i: int| 0 <= i < n - 1 && #[trigger] w[i] == sender {
        lemma_first_slot_of_exists(w, sender, n - 1);
    } else {
        assert(is_first_slot_of(w, sender, n - 1));
    }
}

/// Removing a sender succeeds exactly when some slot, the last one included,
/// holds it; the first such slot is then emptied and every other slot keeps
/// its key.
pub proof fn lemma_remove_sender_empties_first_slot(w: Seq<Pubkey>, sender: Pubkey)
    ensures
        whitelist_after_remove(w, sender) is Some <==> w.contains(sender),
        forall|i: int|
            0 <= i < w.len() && #[trigger] w[i] == sender && (forall|j: int|
                0 <= j < i ==> #[trigger] w[j] != sender) ==> whitelist_after_remove(w, sender)
                == Some(w.update(i, empty_key())),
{
    if w.contains(sender) {
        let i = choose|i: int| 0 <= i < w.len() && w[i] == sender;
        assert(w[i] == sender);
        lemma_first_slot_of_exists(w, sender, w.len() as int);
    }
    if whitelist_after_remove(w, sender) is Some {
        let k = choose|k: int| is_first_slot_of(w, sender, k);
        assert(w[k] == sender);
    }
    assert forall|i: int|
        0 <= i < w.len() && #[trigger] w[i] == sender && (forall|j: int|
            0 <= j < i ==> #[trigger] w[j] != sender)
            implies whitelist_after_remove(w, sender) == Some(w.update(i, empty_key())) by {
        assert(is_first_slot_of(w, sender, i));
        let k = choose|k: int| is_first_slot_of(w, sender, k);
        lemma_first_slot_of_unique(w, sender, i, k);
    }
}

} // verus!
