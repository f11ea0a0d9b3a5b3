//! Laws of the store's contract, stated over the same mapping model that the
//! operations' own postconditions use. The store serializes every operation
//! behind one lock, so any concurrent execution observes some sequential
//! order of the calls; the laws about racing calls speak of every such
//! order.

use vstd::prelude::*;

use crate::store::{after_create, after_replace, create_allowed, lookup, replace_allowed};

verus! {

/// Creating a fresh identifier succeeds and a subsequent read of that
/// identifier returns exactly the created name.
pub proof fn lemma_create_then_get(m: Map<usize, Seq<char>>, id: usize, name: Seq<char>)
    requires
        create_allowed(m, id),
    ensures
        lookup(after_create(m, id, name), id) == Some(name),
{
}

/// A create against an occupied identifier changes nothing: the mapping and
/// the stored name stay exactly as they were.
pub proof fn lemma_create_conflict(m: Map<usize, Seq<char>>, id: usize, name: Seq<char>)
    requires
        !create_allowed(m, id),
    ensures
        after_create(m, id, name) == m,
        lookup(after_create(m, id, name), id) == lookup(m, id),
{
}

/// A replace against a missing identifier inserts nothing: the mapping is
/// unchanged and a following read of the identifier still finds nothing.
pub proof fn lemma_replace_missing(m: Map<usize, Seq<char>>, id: usize, name: Seq<char>)
    requires
        !replace_allowed(m, id),
    ensures
        after_replace(m, id, name) == m,
        lookup(after_replace(m, id, name), id) is None,
{
}

/// A replace of a present identifier overwrites: a subsequent read returns
/// the new name, and never the old one when the two differ.
pub proof fn lemma_replace_overwrites(
    m: Map<usize, Seq<char>>,
    id: usize,
    name1: Seq<char>,
    name2: Seq<char>,
)
    requires
        replace_allowed(m, id),
        lookup(m, id) == Some(name1),
    ensures
        lookup(after_replace(m, id, name2), id) == Some(name2),
        name2 != name1 ==> lookup(after_replace(m, id, name2), id) != Some(name1),
{
}

/// One mutation, as the laws see it: which operation it is, the identifier
/// it targets, and the submitted name.
pub struct StoreOp {
    pub is_create: bool,
    pub id: usize,
    pub name: Seq<char>,
}

/// Whether the mutation applies to the current mapping: a create wants its
/// identifier absent, a replace wants it present.
pub open spec fn op_succeeds(m: Map<usize, Seq<char>>, op: StoreOp) -> bool {
    if op.is_create {
        create_allowed(m, op.id)
    } else {
        replace_allowed(m, op.id)
    }
}

/// The mapping after the mutation.
pub open spec fn apply_op(m: Map<usize, Seq<char>>, op: StoreOp) -> Map<usize, Seq<char>> {
    if op.is_create {
        after_create(m, op.id, op.name)
    } else {
        after_replace(m, op.id, op.name)
    }
}

/// The mapping after the whole sequence of mutations, run in order.
pub open spec fn apply_ops(m: Map<usize, Seq<char>>, ops: Seq<StoreOp>) -> Map<usize, Seq<char>>
    decreases ops.len(),
{
    if ops.len() == 0 {
        m
    } else {
        apply_ops(apply_op(m, ops[0]), ops.drop_first())
    }
}

/// Every mutation of the sequence applies to the mapping it meets.
pub open spec fn all_ops_succeed(m: Map<usize, Seq<char>>, ops: Seq<StoreOp>) -> bool
    decreases ops.len(),
{
    ops.len() == 0 || (op_succeeds(m, ops[0]) && all_ops_succeed(apply_op(m, ops[0]), ops.drop_first()))
}

/// The name submitted by the last mutation of the sequence that targets the
/// identifier, if any does.
pub open spec fn last_write(ops: Seq<StoreOp>, k: usize) -> Option<Seq<char>>
    decreases ops.len(),
{
    if ops.len() == 0 {
        None
    } else if last_write(ops.drop_first(), k) is Some {
        last_write(ops.drop_first(), k)
    } else if ops[0].id == k {
        Some(ops[0].name)
    } else {
        None
    }
}

/// After any sequence of successful creates and replaces, every identifier
/// reads back its last successful write, and an identifier none of them
/// touched reads as before — so a snapshot taken then lists exactly one
/// entry per live identifier, each carrying its last written name.
pub proof fn lemma_last_successful_write_wins(
    m: Map<usize, Seq<char>>,
    ops: Seq<StoreOp>,
    k: usize,
)
    requires
        all_ops_succeed(m, ops),
    ensures
        (last_write(ops, k) matches Some(name) ==> lookup(apply_ops(m, ops), k) == Some(name)),
        last_write(ops, k) is None ==> lookup(apply_ops(m, ops), k) == lookup(m, k),
    decreases ops.len(),
{
    if ops.len() == 0 {
    } else {
        let m1 = apply_op(m, ops[0]);
        lemma_last_successful_write_wins(m1, ops.drop_first(), k);
    }
}

/// The identifiers of a batch of create requests are pairwise distinct.
pub open spec fn distinct_ids(entries: Seq<(usize, Seq<char>)>) -> bool {
    forall|i: int, j: int|
        0 <= i < j < entries.len() ==> (#[trigger] entries[i]).0 != (#[trigger] entries[j]).0
}

/// None of the batch's identifiers is already present in the mapping.
pub open spec fn none_present(m: Map<usize, Seq<char>>, entries: Seq<(usize, Seq<char>)>) -> bool {
    forall|i: int| 0 <= i < entries.len() ==> !m.contains_key((#[trigger] entries[i]).0)
}

/// The mapping after the batch's creates run one after another.
pub open spec fn create_all(m: Map<usize, Seq<char>>, entries: Seq<(usize, Seq<char>)>) -> Map<
    usize,
    Seq<char>,
>
    decreases entries.len(),
{
    if entries.len() == 0 {
        m
    } else {
        create_all(after_create(m, entries[0].0, entries[0].1), entries.drop_first())
    }
}

/// Every create of the batch, run in this order, targets a fresh identifier.
pub open spec fn all_creates_succeed(m: Map<usize, Seq<char>>, entries: Seq<(usize, Seq<char>)>) -> bool
    decreases entries.len(),
{
    entries.len() == 0 || (create_allowed(m, entries[0].0) && all_creates_succeed(
        after_create(m, entries[0].0, entries[0].1),
        entries.drop_first(),
    ))
}

/// Concurrent creates on distinct fresh identifiers: however the lock
/// serializes them, every one succeeds, afterwards each identifier reads
/// back its own name, and every previously present entry is untouched — so
/// a final snapshot lists all of them.
pub proof fn lemma_concurrent_distinct_creates(
    m: Map<usize, Seq<char>>,
    entries: Seq<(usize, Seq<char>)>,
)
    requires
        distinct_ids(entries),
        none_present(m, entries),
    ensures
        all_creates_succeed(m, entries),
        forall|i: int|
            0 <= i < entries.len() ==> lookup(create_all(m, entries), (#[trigger] entries[i]).0)
                == Some(entries[i].1),
        forall|k: usize|
            #[trigger] m.contains_key(k) ==> lookup(create_all(m, entries), k) == lookup(m, k),
    decreases entries.len(),
{
    if entries.len() == 0 {
    } else {
        let id0 = entries[0].0;
        let m1 = after_create(m, id0, entries[0].1);
        let rest = entries.drop_first();
        assert(forall|i: int| 0 <= i < rest.len() ==> rest[i] == entries[i + 1]);
        assert forall|i: int| 0 <= i < rest.len() implies !m1.contains_key(
            (#[trigger] rest[i]).0,
        ) by {
            assert((entries[i + 1]).0 != id0);
            assert(!m.contains_key((entries[i + 1]).0));
        }
        lemma_concurrent_distinct_creates(m1, rest);
        assert forall|i: int|
            0 <= i < entries.len() implies lookup(create_all(m, entries), (
        #[trigger] entries[i]).0) == Some(entries[i].1) by {
            if i == 0 {
                assert(m1.contains_key(id0));
                assert(lookup(create_all(m1, rest), id0) == lookup(m1, id0));
            } else {
                assert(rest[i - 1] == entries[i]);
            }
        }
        assert forall|k: usize| m.contains_key(k) implies lookup(create_all(m, entries), k)
            == lookup(m, k) by {
            assert(k != id0);
            assert(m1.contains_key(k));
            assert(lookup(create_all(m1, rest), k) == lookup(m1, k));
        }
    }
}

/// Two creates race on one identifier: in whichever order the lock runs
/// them, the first succeeds, the second observes the conflict and changes
/// nothing, and the stored name is exactly the winner's.
pub proof fn lemma_create_race_same_id(
    m: Map<usize, Seq<char>>,
    id: usize,
    name1: Seq<char>,
    name2: Seq<char>,
)
    requires
        create_allowed(m, id),
    ensures
        !create_allowed(after_create(m, id, name1), id),
        lookup(after_create(after_create(m, id, name1), id, name2), id) == Some(name1),
        !create_allowed(after_create(m, id, name2), id),
        lookup(after_create(after_create(m, id, name2), id, name1), id) == Some(name2),
{
}

} // verus!
