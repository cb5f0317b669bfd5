//! Properties that relate several operations of the bit list, stated over
//! the store-level operations that their contracts use.
use vstd::prelude::*;

use crate::bits::{
    bits_of, lemma_append_stores, lemma_pop_store, lemma_push_store, lemma_write_bit, pop_store,
    push_store, write_bit,
};
use crate::list::BitArrayList;

verus! {

/// Writing value `v` at index `i` and then reading index `i` gives `v`; the
/// length and every other bit stay as they were.
pub proof fn law_set_then_read(a: BitArrayList, i: int, v: bool)
    requires
        a.wf(),
        0 <= i < a@.len(),
    ensures
        bits_of(write_bit(a.store(), i, v), a@.len()).len() == a@.len(),
        bits_of(write_bit(a.store(), i, v), a@.len())[i] == v,
        forall|j: int|
            0 <= j < a@.len() && j != i ==> #[trigger] bits_of(
                write_bit(a.store(), i, v),
                a@.len(),
            )[j] == a@[j],
{
    lemma_write_bit(a.store(), a@.len(), i, v);
}

/// Pushing `v` and then popping gives back `v` and the list as it was.
pub proof fn law_push_then_pop(a: BitArrayList, v: bool)
    requires
        a.wf(),
    ensures
        bits_of(push_store(a.store(), a@.len(), v), a@.len() + 1).last() == v,
        bits_of(pop_store(push_store(a.store(), a@.len(), v), a@.len() + 1), a@.len()) == a@,
{
    let n = a@.len();
    let pushed = push_store(a.store(), n, v);
    lemma_push_store(a.store(), n, v);
    lemma_pop_store(pushed, n + 1);
    assert(bits_of(pushed, n + 1).drop_last() =~= a@);
}

/// Pushing and then popping gives the store back the number of bytes it had:
/// a byte that the push added is dropped again. This holds except where the
/// store is empty, or where the list fills whole bytes and the store holds
/// exactly one spare byte after them, which the pop then drops.
pub proof fn law_push_then_pop_keeps_byte_count(a: BitArrayList, v: bool)
    requires
        a.wf(),
        a.store().len() > 0,
        !(a@.len() % 8 == 0 && a.store().len() > 1 && a@.len() / 8 == a.store().len() - 1),
    ensures
        pop_store(push_store(a.store(), a@.len(), v), a@.len() + 1).len() == a.store().len(),
{
    let n = a@.len();
    lemma_push_store(a.store(), n, v);
}

/// Appending `b` to `a` gives a list of `len(a) + len(b)` bits: the bits of
/// `a`, then those of `b`. Where `a` fills whole bytes, taking over the store
/// of `b` after the bytes that `a` uses gives that same list.
pub proof fn law_concatenate(a: BitArrayList, b: BitArrayList)
    requires
        a.wf(),
        b.wf(),
    ensures
        (a@ + b@).len() == a@.len() + b@.len(),
        forall|i: int| 0 <= i < a@.len() ==> #[trigger] (a@ + b@)[i] == a@[i],
        forall|i: int|
            a@.len() <= i < a@.len() + b@.len() ==> #[trigger] (a@ + b@)[i] == b@[i - a@.len()],
        a@.len() % 8 == 0 ==> bits_of(
            a.store().subrange(0, (a@.len() / 8) as int) + b.store(),
            a@.len() + b@.len(),
        ) == a@ + b@,
{
    if a@.len() % 8 == 0 {
        lemma_append_stores(a.store(), a@.len(), b.store(), b@.len());
    }
}

} // verus!
