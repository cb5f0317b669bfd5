//! Index arithmetic and the packing model: how a bit index maps onto a byte
//! of the store and onto one of its eight positions.
use vstd::prelude::*;

verus! {

/// The byte that singles out position `p` of a byte, counted from the most
/// significant bit.
pub open spec fn mask(p: u8) -> u8 {
    128u8 >> p
}

/// Whether position `p` of byte `b` is on.
pub open spec fn byte_bit(b: u8, p: u8) -> bool {
    b & mask(p) != 0
}

/// Splits a bit index into the index of its byte and its position there.
pub fn split_index(to_split: usize) -> (r: (usize, u8))
    ensures
        r.0 == to_split / 8,
        r.1 == to_split % 8,
        r.1 < 8,
{
    (to_split / 8, (to_split % 8) as u8)
}

/// The mask of position `bit_position` within a byte.
pub fn bitmask(bit_position: u8) -> (r: u8)
    requires
        bit_position < 8,
    ensures
        r == mask(bit_position),
{
    128u8 >> bit_position
}

/// The bit that index `i` reads in `store`.
pub open spec fn stored_bit(store: Seq<u8>, i: int) -> bool {
    byte_bit(store[i / 8], (i % 8) as u8)
}

/// The first `len` bits that `store` packs.
pub open spec fn bits_of(store: Seq<u8>, len: nat) -> Seq<bool> {
    Seq::new(len, |i: int| stored_bit(store, i))
}

/// `store` with the bit at index `i` turned to `v`.
pub open spec fn write_bit(store: Seq<u8>, i: int, v: bool) -> Seq<u8> {
    let b = store[i / 8];
    let p = (i % 8) as u8;
    store.update(i / 8, if v { b | mask(p) } else { b & !mask(p) })
}

/// The store of a list of `len` bits after bit `v` is appended: one zero byte
/// is added when the last byte is full, then the new bit is written.
pub open spec fn push_store(store: Seq<u8>, len: nat, v: bool) -> Seq<u8> {
    let grown = if len / 8 == store.len() { store.push(0u8) } else { store };
    write_bit(grown, len as int, v)
}

/// The store of a list of `len` bits after its last bit is removed: the last
/// byte is dropped when that bit was its first and another byte remains;
/// otherwise the bit is cleared.
pub open spec fn pop_store(store: Seq<u8>, len: nat) -> Seq<u8> {
    let k = len - 1;
    if k % 8 == 0 && store.len() > 1 && k / 8 == store.len() - 1 {
        store.drop_last()
    } else {
        write_bit(store, k, false)
    }
}

/// Setting or clearing one position of a byte leaves the others as they were.
pub proof fn lemma_byte_bit_write(b: u8, p: u8, q: u8)
    requires
        p < 8,
        q < 8,
    ensures
        byte_bit(b | mask(p), q) == (q == p || byte_bit(b, q)),
        byte_bit(b & !mask(p), q) == (q != p && byte_bit(b, q)),
        !byte_bit(0u8, q),
{
    assert(byte_bit(b | mask(p), q) == (q == p || byte_bit(b, q))) by (bit_vector)
        requires
            p < 8,
            q < 8,
    ;
    assert(byte_bit(b & !mask(p), q) == (q != p && byte_bit(b, q))) by (bit_vector)
        requires
            p < 8,
            q < 8,
    ;
    assert(!byte_bit(0u8, q)) by (bit_vector);
}

/// Writing one bit of the store changes that bit of the list and no other.
pub proof fn lemma_write_bit(store: Seq<u8>, len: nat, i: int, v: bool)
    requires
        0 <= i < len,
        len <= 8 * store.len(),
    ensures
        write_bit(store, i, v).len() == store.len(),
        bits_of(write_bit(store, i, v), len) =~= bits_of(store, len).update(i, v),
{
    let w = write_bit(store, i, v);
    assert forall|j: int| 0 <= j < len implies #[trigger] stored_bit(w, j) == (if j == i {
        v
    } else {
        stored_bit(store, j)
    }) by {
        if j / 8 == i / 8 {
            lemma_byte_bit_write(store[i / 8], (i % 8) as u8, (j % 8) as u8);
        }
    }
}

/// Appending through the store appends the bit to the list.
pub proof fn lemma_push_store(store: Seq<u8>, len: nat, v: bool)
    requires
        len <= 8 * store.len(),
    ensures
        len + 1 <= 8 * push_store(store, len, v).len(),
        push_store(store, len, v).len() == if len / 8 == store.len() {
            store.len() + 1
        } else {
            store.len()
        },
        bits_of(push_store(store, len, v), len + 1) =~= bits_of(store, len).push(v),
{
    let grown = if len / 8 == store.len() { store.push(0u8) } else { store };
    assert(bits_of(grown, len + 1).subrange(0, len as int) =~= bits_of(store, len));
    lemma_write_bit(grown, len + 1, len as int, v);
}

/// Removing through the store removes the last bit of the list.
pub proof fn lemma_pop_store(store: Seq<u8>, len: nat)
    requires
        0 < len <= 8 * store.len(),
    ensures
        len - 1 <= 8 * pop_store(store, len).len(),
        bits_of(pop_store(store, len), (len - 1) as nat) =~= bits_of(store, len).drop_last(),
{
    let k = len - 1;
    if !(k % 8 == 0 && store.len() > 1 && k / 8 == store.len() - 1) {
        lemma_write_bit(store, len, k, false);
        assert(bits_of(write_bit(store, k, false), len).drop_last() =~= bits_of(
            write_bit(store, k, false),
            (len - 1) as nat,
        ));
    }
}

/// Where the first list fills whole bytes, its used bytes followed by the
/// second store pack the two lists one after the other.
pub proof fn lemma_append_stores(s: Seq<u8>, la: nat, t: Seq<u8>, lb: nat)
    requires
        la % 8 == 0,
        la <= 8 * s.len(),
        lb <= 8 * t.len(),
    ensures
        la + lb <= 8 * (s.subrange(0, (la / 8) as int) + t).len(),
        bits_of(s.subrange(0, (la / 8) as int) + t, la + lb) =~= bits_of(s, la) + bits_of(t, lb),
{
    let u = s.subrange(0, (la / 8) as int) + t;
    let q = la / 8;
    assert forall|j: int| 0 <= j < la + lb implies #[trigger] stored_bit(u, j) == (if j < la {
        stored_bit(s, j)
    } else {
        stored_bit(t, j - la)
    }) by {
        if j >= la {
            assert((j - la) / 8 == j / 8 - q && (j - la) % 8 == j % 8) by {
                assert(la == 8 * q);
            }
        }
    }
}

} // verus!
