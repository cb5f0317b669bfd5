//! The bit list itself: a store of bytes and a count of the bits in use.
use vstd::prelude::*;
use vstd::string::*;

use crate::bits::{
    bitmask, bits_of, byte_bit, lemma_append_stores, lemma_pop_store, lemma_push_store,
    lemma_write_bit, pop_store, push_store, split_index, write_bit,
};

verus! {

/// A grow-able list of bits packed into bytes, most significant bit first.
///
/// The store may hold more positions than there are bits: the positions past
/// the length are wasted space, whose content carries no meaning.
#[derive(Clone, Debug)]
pub struct BitArrayList {
    bytes: Vec<u8>,
    length: usize,
}

/// The character that shows bit `b`.
pub open spec fn digit(b: bool) -> char {
    if b {
        '1'
    } else {
        '0'
    }
}

/// The digits of `bits`, separated by a comma and a space.
pub open spec fn joined(bits: Seq<bool>) -> Seq<char>
    decreases bits.len(),
{
    if bits.len() == 0 {
        Seq::empty()
    } else if bits.len() == 1 {
        seq![digit(bits[0])]
    } else {
        joined(bits.drop_last()) + seq![',', ' ', digit(bits.last())]
    }
}

/// `bits` shown as a bracketed list, such as `[1, 0, 1]`.
pub open spec fn rendered(bits: Seq<bool>) -> Seq<char> {
    seq!['['] + joined(bits) + seq![']']
}

impl View for BitArrayList {
    type V = Seq<bool>;

    /// The bits of the list, in order.
    open spec fn view(&self) -> Seq<bool> {
        bits_of(self.store(), self.bit_count())
    }
}

impl BitArrayList {
    /// The packed bytes, wasted space included.
    pub closed spec fn store(&self) -> Seq<u8> {
        self.bytes@
    }

    /// The number of bits in the list.
    pub closed spec fn bit_count(&self) -> nat {
        self.length as nat
    }

    /// The store has room for every bit of the list.
    pub open spec fn wf(&self) -> bool {
        self.bit_count() <= 8 * self.store().len()
    }

    /// Whether the bit at `bit_index` is on.
    pub fn is_set(&self, bit_index: usize) -> (r: bool)
        requires
            self.wf(),
            bit_index < self@.len(),
        ensures
            r == self@[bit_index as int],
    {
        let (byte_index, bit_position) = split_index(bit_index);
        self.zero_testing(byte_index, bit_position)
    }

    /// The number of bits in the list.
    pub fn len(&self) -> (r: usize)
        ensures
            r == self@.len(),
    {
        self.length
    }

    /// Whether the list holds no bit.
    pub fn is_empty(&self) -> (r: bool)
        ensures
            r == (self@.len() == 0),
    {
        self.length < 1
    }

    /// The packed bytes, wasted space included: without the length they do
    /// not tell which bits belong to the list.
    pub fn bytes(&self) -> (r: &Vec<u8>)
        ensures
            r@ == self.store(),
    {
        &self.bytes
    }

    /// The bit at `bit_index` as `"1"` or `"0"`.
    pub fn bit_to_str(&self, bit_index: usize) -> (r: &str)
        requires
            self.wf(),
            bit_index < self@.len(),
        ensures
            r@ == (if self@[bit_index as int] {
                "1"@
            } else {
                "0"@
            }),
    {
        if self.is_set(bit_index) {
            "1"
        } else {
            "0"
        }
    }

    /// Turns the existing bit at `bit_index` to `bit`, which is 1 or 0.
    pub fn set_bit_to(&mut self, bit_index: usize, bit: u8)
        requires
            old(self).wf(),
            bit_index < old(self)@.len(),
            bit <= 1,
        ensures
            final(self).wf(),
            final(self)@ == old(self)@.update(bit_index as int, bit == 1),
            final(self).store() == write_bit(old(self).store(), bit_index as int, bit == 1),
    {
        proof {
            lemma_write_bit(self.bytes@, self.length as nat, bit_index as int, bit == 1);
        }
        let (byte_index, bit_position) = split_index(bit_index);
        if bit == 1 {
            self.bytes.set(byte_index, self.bytes[byte_index] | bitmask(bit_position));
        } else {
            self.bytes.set(byte_index, self.bytes[byte_index] & !bitmask(bit_position));
        }
    }

    /// Appends `bit`, which is 1 or 0, after the last bit. A zero byte is
    /// added to the store when its last byte is full.
    pub fn push(&mut self, bit: u8)
        requires
            old(self).wf(),
            old(self)@.len() < usize::MAX,
            bit <= 1,
        ensures
            final(self).wf(),
            final(self)@ == old(self)@.push(bit == 1),
            final(self).store() == push_store(old(self).store(), old(self)@.len(), bit == 1),
    {
        proof {
            lemma_push_store(self.bytes@, self.length as nat, bit == 1);
        }
        let (byte_index, bit_position) = split_index(self.length);
        if byte_index >= self.bytes.len() {
            self.bytes.push(0);
        }
        if bit == 1 {
            self.bytes.set(byte_index, self.bytes[byte_index] | bitmask(bit_position));
        } else {
            self.bytes.set(byte_index, self.bytes[byte_index] & !bitmask(bit_position));
        }
        self.length += 1;
    }

    /// Removes and returns the last bit, or `None` when the list is empty.
    ///
    /// The last byte of the store is dropped when the removed bit was its
    /// first and another byte remains; otherwise the bit is cleared.
    pub fn pop(&mut self) -> (r: Option<bool>)
        requires
            old(self).wf(),
        ensures
            final(self).wf(),
            old(self)@.len() == 0 ==> r == None::<bool> && final(self)@ == old(self)@
                && final(self).store() == old(self).store(),
            old(self)@.len() > 0 ==> r == Some(old(self)@.last()) && final(self)@
                == old(self)@.drop_last() && final(self).store() == pop_store(
                old(self).store(),
                old(self)@.len(),
            ),
    {
        if self.is_empty() {
            return None;
        }
        proof {
            lemma_pop_store(self.bytes@, self.length as nat);
        }
        let last_bit_index = self.length - 1;
        let (byte_index, bit_position) = split_index(last_bit_index);
        let to_return = self.zero_testing(byte_index, bit_position);
        if bit_position == 0 && self.bytes.len() > 1 && byte_index == self.bytes.len() - 1 {
            self.bytes.pop();
        } else {
            self.bytes.set(byte_index, self.bytes[byte_index] & !bitmask(bit_position));
        }
        self.length -= 1;
        Some(to_return)
    }

    /// Appends the bits of `other_bits` after the last bit, consuming it.
    ///
    /// Where the list fills whole bytes, the other store's bytes are taken
    /// over directly after the bytes in use; otherwise the bits are pushed one
    /// by one.
    pub fn concatenate(&mut self, other_bits: BitArrayList)
        requires
            old(self).wf(),
            other_bits.wf(),
            old(self)@.len() + other_bits@.len() <= usize::MAX,
        ensures
            final(self).wf(),
            final(self)@ == old(self)@ + other_bits@,
            old(self)@.len() == 0 ==> final(self).store() == other_bits.store(),
            old(self)@.len() > 0 && old(self)@.len() % 8 == 0 ==> final(self).store()
                == old(self).store().subrange(0, (old(self)@.len() / 8) as int) + other_bits.store(),
    {
        let mut other_bits = other_bits;
        if self.length % 8 != 0 {
            let ghost before = self@;
            let mut bit_index: usize = 0;
            while bit_index < other_bits.length
                invariant
                    self.wf(),
                    other_bits.wf(),
                    bit_index <= other_bits@.len(),
                    before.len() + other_bits@.len() <= usize::MAX,
                    self@ == before + other_bits@.subrange(0, bit_index as int),
                decreases other_bits@.len() - bit_index,
            {
                if other_bits.is_set(bit_index) {
                    self.push(1);
                } else {
                    self.push(0);
                }
                assert(other_bits@.subrange(0, bit_index + 1) =~= other_bits@.subrange(
                    0,
                    bit_index as int,
                ).push(other_bits@[bit_index as int]));
                bit_index += 1;
            }
            assert(other_bits@.subrange(0, bit_index as int) =~= other_bits@);
        } else {
            if self.is_empty() {
                self.bytes = other_bits.bytes;
            } else {
                proof {
                    lemma_append_stores(
                        self.bytes@,
                        self.length as nat,
                        other_bits.bytes@,
                        other_bits.length as nat,
                    );
                }
                self.bytes.truncate(self.length / 8);
                self.bytes.append(&mut other_bits.bytes);
            }
            self.length += other_bits.length;
        }
    }

    /// An empty list, whose store holds one zero byte.
    pub fn new() -> (r: BitArrayList)
        ensures
            r.wf(),
            r@ == Seq::<bool>::empty(),
            r.store() == seq![0u8],
    {
        BitArrayList { bytes: vec![0], length: 0 }
    }

    /// The list of the first `l` bits that `b` packs.
    ///
    /// The positions of `b` past `l` are kept as they are: they stay readable
    /// through [`BitArrayList::bytes`].
    pub fn from(b: Vec<u8>, l: usize) -> (r: BitArrayList)
        requires
            l <= 8 * b@.len(),
        ensures
            r.wf(),
            r.store() == b@,
            r@ == bits_of(b@, l as nat),
    {
        BitArrayList { bytes: b, length: l }
    }

    /// The list shown as its digits in brackets, separated by a comma and a
    /// space: `[]`, `[1]`, `[1, 0, 1]`.
    pub fn to_string(&self) -> (r: String)
        requires
            self.wf(),
        ensures
            r@ == rendered(self@),
    {
        proof {
            reveal_strlit("[");
        }
        let mut text = String::new();
        text.append("[");
        let mut i: usize = 0;
        while i < self.length
            invariant
                self.wf(),
                i <= self@.len(),
                text@ == seq!['['] + joined(self@.subrange(0, i as int)),
            decreases self@.len() - i,
        {
            let ghost head = self@.subrange(0, i as int);
            let ghost next = self@.subrange(0, i + 1);
            assert(next.drop_last() =~= head);
            proof {
                reveal_strlit(", ");
                reveal_strlit("1");
                reveal_strlit("0");
            }
            assert(next.last() == self@[i as int]);
            if i > 0 {
                text.append(", ");
            }
            let d = self.bit_to_str(i);
            assert(d@ =~= seq![digit(self@[i as int])]);
            text.append(d);
            assert(text@ =~= seq!['['] + joined(next));
            i += 1;
        }
        assert(self@.subrange(0, i as int) =~= self@);
        proof {
            reveal_strlit("]");
        }
        text.append("]");
        text
    }

    /// Whether position `bit_position` of byte `byte_index` is on.
    fn zero_testing(&self, byte_index: usize, bit_position: u8) -> (r: bool)
        requires
            byte_index < self.store().len(),
            bit_position < 8,
        ensures
            r == byte_bit(self.store()[byte_index as int], bit_position),
    {
        self.bytes[byte_index] & bitmask(bit_position) != 0
    }
}

} // verus!
