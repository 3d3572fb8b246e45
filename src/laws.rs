use vstd::prelude::*;

use crate::buffer::{
    ConsumableEventIterator,
    lemma_unconsumed_concat,
    lemma_unconsumed_records_of,
    records_of,
    unconsumed,
};

verus! {

/// The records of `s` after sending each payload of `ps` on its own, in order.
pub open spec fn sent_one_by_one<E>(s: Seq<Option<E>>, ps: Seq<E>) -> Seq<Option<E>>
    decreases ps.len(),
{
    if ps.len() == 0 {
        s
    } else {
        sent_one_by_one(s, ps.drop_last()).push(Some(ps.last()))
    }
}

/// Number of consumed records in `s`.
pub open spec fn consumed_count<E>(s: Seq<Option<E>>) -> nat
    decreases s.len(),
{
    if s.len() == 0 {
        0
    } else {
        consumed_count(s.drop_last()) + if s.last() is None {
            1nat
        } else {
            0nat
        }
    }
}

/// Sent payloads are read after what was already unconsumed, in the order
/// they were sent; on an empty buffer a pass reads exactly them.
pub proof fn lemma_read_order<E>(s: Seq<Option<E>>, ps: Seq<E>)
    ensures
        unconsumed(s + records_of(ps)) == unconsumed(s) + ps,
        unconsumed(Seq::<Option<E>>::empty() + records_of(ps)) == ps,
{
    lemma_unconsumed_concat(s, records_of(ps));
    lemma_unconsumed_records_of(ps);
    let empty = Seq::<Option<E>>::empty();
    lemma_unconsumed_concat(empty, records_of(ps));
    assert(unconsumed(empty) =~= Seq::<E>::empty());
    assert(unconsumed(empty) + ps =~= ps);
}

/// Consuming the record at `i` takes exactly that record out of what every
/// later pass reads, and leaves the others in their order.
pub proof fn lemma_consume_once<E>(s: Seq<Option<E>>, i: int)
    requires
        0 <= i < s.len(),
        s[i] is Some,
    ensures
        unconsumed(s) == unconsumed(s.take(i)) + seq![s[i]->Some_0] + unconsumed(s.skip(i + 1)),
        unconsumed(s.update(i, None)) == unconsumed(s.take(i)) + unconsumed(s.skip(i + 1)),
        unconsumed(s.update(i, None)).len() + 1 == unconsumed(s).len(),
{
    let head = seq![s[i]];
    let none = seq![None::<E>];
    assert(s =~= s.take(i) + head + s.skip(i + 1));
    assert(s.update(i, None) =~= s.take(i) + none + s.skip(i + 1));
    lemma_unconsumed_concat(s.take(i) + head, s.skip(i + 1));
    lemma_unconsumed_concat(s.take(i), head);
    lemma_unconsumed_concat(s.take(i) + none, s.skip(i + 1));
    lemma_unconsumed_concat(s.take(i), none);
    assert(head.drop_last() =~= Seq::<Option<E>>::empty());
    assert(none.drop_last() =~= Seq::<Option<E>>::empty());
    assert(unconsumed(head.drop_last()) =~= Seq::<E>::empty());
    assert(unconsumed(head) =~= seq![s[i]->Some_0]);
    assert(unconsumed(none) =~= Seq::<E>::empty());
    assert(unconsumed(s.take(i)) + unconsumed(none) =~= unconsumed(s.take(i)));
}

/// Pruning consumed records keeps exactly the unconsumed ones, in their
/// order, and removes as many records as were consumed.
pub proof fn lemma_clear_consumed_partition<E>(s: Seq<Option<E>>)
    ensures
        unconsumed(records_of(unconsumed(s))) == unconsumed(s),
        forall|k: int|
            0 <= k < records_of(unconsumed(s)).len() ==> records_of(unconsumed(s))[k] is Some,
        s.len() - records_of(unconsumed(s)).len() == consumed_count(s),
    decreases s.len(),
{
    lemma_unconsumed_records_of(unconsumed(s));
    if s.len() > 0 {
        lemma_clear_consumed_partition(s.drop_last());
    }
}

/// After a full clear no pass, new or begun earlier, reads anything.
pub proof fn lemma_clear_reads_nothing<E>(pass: ConsumableEventIterator)
    ensures
        unconsumed(Seq::<Option<E>>::empty()) == Seq::<E>::empty(),
        pass.remaining(Seq::<Option<E>>::empty()) == Seq::<E>::empty(),
{
    let empty = Seq::<Option<E>>::empty();
    if pass.position() <= 0 {
        assert(empty.skip(0) =~= empty);
    }
}

/// Sending a batch leaves the same records as sending its payloads one by
/// one, in the same order.
pub proof fn lemma_batch_is_sends<E>(s: Seq<Option<E>>, ps: Seq<E>)
    ensures
        s + records_of(ps) == sent_one_by_one(s, ps),
    decreases ps.len(),
{
    if ps.len() == 0 {
        assert(s + records_of(ps) =~= s);
    } else {
        lemma_batch_is_sends(s, ps.drop_last());
        assert(s + records_of(ps) =~= (s + records_of(ps.drop_last())).push(Some(ps.last())));
    }
}

} // verus!
