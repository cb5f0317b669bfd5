use bit_array_list::BitArrayList;

#[test]
fn leds_pattern() {
    let leds = BitArrayList::from(vec![10, 165], 16);
    for i in [4, 6, 8, 10, 13, 15] {
        assert!(leds.is_set(i));
    }
    for i in [0, 1, 2, 3, 5, 7, 9, 11, 12, 14] {
        assert!(!leds.is_set(i));
    }
}

#[test]
fn wasted_space() {
    let bit_array = BitArrayList::from(vec![255, 32], 11);
    assert_eq!(bit_array.bytes().len() * 8 - bit_array.len(), 5);
}

#[test]
fn is_set_reads_bits() {
    let bit_array = BitArrayList::from(vec![64, 32], 11);
    assert!(bit_array.is_set(1));
    assert!(bit_array.is_set(10));
    assert!(!bit_array.is_set(0));
}

#[test]
fn is_set_twice_agrees() {
    let bit_array = BitArrayList::from(vec![64, 32], 11);
    for i in 0..11 {
        assert_eq!(bit_array.is_set(i), bit_array.is_set(i));
    }
}

#[test]
fn len_reports_length() {
    let bit_array = BitArrayList::from(vec![12, 16], 12);
    assert_eq!(bit_array.len(), 12);
}

#[test]
fn empty_until_push() {
    let mut bit_array = BitArrayList::new();
    assert!(bit_array.is_empty());
    assert_eq!(bit_array.len(), 0);
    assert_eq!(bit_array.bytes(), &vec![0]);
    bit_array.push(0);
    assert!(!bit_array.is_empty());
}

#[test]
fn bytes_are_raw_store() {
    let bit_array = BitArrayList::from(vec![12, 70], 15);
    assert_eq!(bit_array.bytes(), &vec![12, 70]);
}

#[test]
fn bit_to_str_digits() {
    let bit_array = BitArrayList::from(vec![64, 32], 11);
    assert_eq!(bit_array.bit_to_str(1), "1");
    assert_eq!(bit_array.bit_to_str(10), "1");
    assert_eq!(bit_array.bit_to_str(0), "0");
}

#[test]
fn set_bit_to_updates_store() {
    let mut bit_array = BitArrayList::from(vec![64, 128], 9);
    bit_array.set_bit_to(1, 0);
    bit_array.set_bit_to(2, 1);
    assert_eq!(bit_array.bytes(), &vec![32, 128]);
    assert_eq!(bit_array.len(), 9);
}

#[test]
fn set_then_read_each_index() {
    let mut bit_array = BitArrayList::from(vec![0b1010_0101, 0b0110_0000], 12);
    let before: Vec<bool> = (0..12).map(|i| bit_array.is_set(i)).collect();
    for i in 0..12 {
        for v in [1u8, 0u8] {
            bit_array.set_bit_to(i, v);
            assert_eq!(bit_array.is_set(i), v == 1);
            assert_eq!(bit_array.len(), 12);
        }
        bit_array.set_bit_to(i, if before[i] { 1 } else { 0 });
        for j in 0..12 {
            assert_eq!(bit_array.is_set(j), before[j]);
        }
    }
}

#[test]
fn push_three_bits() {
    let mut bit_array = BitArrayList::from(vec![200, 128], 15);
    bit_array.push(1);
    bit_array.push(1);
    bit_array.push(0);
    assert_eq!(bit_array.bytes(), &vec![200, 129, 128]);
    assert_eq!(bit_array.len(), 18);
}

#[test]
fn push_zero_over_leftover_bit() {
    let mut bit_array = BitArrayList::from(vec![255], 3);
    bit_array.push(0);
    assert_eq!(bit_array.len(), 4);
    assert!(!bit_array.is_set(3));
    assert_eq!(bit_array.bytes(), &vec![0b1110_1111]);
}

#[test]
fn pop_until_empty() {
    let mut bit_array = BitArrayList::from(vec![128], 2);
    assert_eq!(bit_array.pop(), Some(false));
    assert_eq!(bit_array.pop(), Some(true));
    assert_eq!(bit_array.pop(), None);
}

#[test]
fn pop_leaves_trailing_bits() {
    let mut bit_array = BitArrayList::from(vec![128, 224], 10);
    assert_eq!(bit_array.pop(), Some(true));
    assert_eq!(bit_array.bytes(), &vec![128, 128 + 32]);
}

#[test]
fn pop_on_empty_repeats_none() {
    let mut bit_array = BitArrayList::new();
    for _ in 0..5 {
        assert_eq!(bit_array.pop(), None);
        assert_eq!(bit_array.len(), 0);
        assert_eq!(bit_array.bytes(), &vec![0]);
    }
}

#[test]
fn pop_drops_emptied_last_byte() {
    let mut bit_array = BitArrayList::from(vec![255, 128], 9);
    assert_eq!(bit_array.pop(), Some(true));
    assert_eq!(bit_array.bytes(), &vec![255]);
    assert_eq!(bit_array.len(), 8);
}

#[test]
fn pop_keeps_single_byte() {
    let mut bit_array = BitArrayList::from(vec![128], 1);
    assert_eq!(bit_array.pop(), Some(true));
    assert_eq!(bit_array.bytes(), &vec![0]);
    assert!(bit_array.is_empty());
}

#[test]
fn push_then_pop_round_trip() {
    for (store, len) in [(vec![0u8], 0usize), (vec![0xab], 5), (vec![0xff], 8), (vec![0x12, 0x34], 15)] {
        for v in [0u8, 1u8] {
            let mut bit_array = BitArrayList::from(store.clone(), len);
            let groups = bit_array.bytes().len();
            bit_array.push(v);
            assert_eq!(bit_array.pop(), Some(v == 1));
            assert_eq!(bit_array.len(), len);
            assert_eq!(bit_array.bytes().len(), groups);
        }
    }
}

#[test]
fn concatenate_bit_by_bit() {
    let mut bit_array = BitArrayList::from(vec![213, 128], 9);
    bit_array.concatenate(BitArrayList::from(vec![48], 4));
    assert_eq!(bit_array.bytes(), &vec![213, 152]);
    assert_eq!(bit_array.len(), 9 + 4);
}

#[test]
fn concatenate_whole_bytes() {
    let mut bit_array = BitArrayList::from(vec![0xf0, 0x0f], 16);
    bit_array.concatenate(BitArrayList::from(vec![0xa0], 3));
    assert_eq!(bit_array.bytes(), &vec![0xf0, 0x0f, 0xa0]);
    assert_eq!(bit_array.len(), 19);
    assert!(bit_array.is_set(16));
    assert!(!bit_array.is_set(17));
    assert!(bit_array.is_set(18));
}

#[test]
fn concatenate_into_empty() {
    let mut bit_array = BitArrayList::new();
    bit_array.concatenate(BitArrayList::from(vec![0x80, 0x40], 10));
    assert_eq!(bit_array.bytes(), &vec![0x80, 0x40]);
    assert_eq!(bit_array.len(), 10);
}

#[test]
fn concatenate_skips_spare_bytes() {
    let mut bit_array = BitArrayList::from(vec![0xff, 0x55, 0x55], 8);
    bit_array.concatenate(BitArrayList::from(vec![0x80], 1));
    assert_eq!(bit_array.bytes(), &vec![0xff, 0x80]);
    assert_eq!(bit_array.len(), 9);
    assert!(bit_array.is_set(8));
}

#[test]
fn concatenate_paths_agree() {
    let a_bits = [true, false, true, true, false, false, true, false];
    let b_bits = [false, true, true, false, true];
    for a_len in [0usize, 3, 8] {
        let mut a = BitArrayList::new();
        for &bit in &a_bits[..a_len] {
            a.push(if bit { 1 } else { 0 });
        }
        let mut b = BitArrayList::new();
        for &bit in &b_bits {
            b.push(if bit { 1 } else { 0 });
        }
        a.concatenate(b);
        assert_eq!(a.len(), a_len + b_bits.len());
        for i in 0..a_len {
            assert_eq!(a.is_set(i), a_bits[i]);
        }
        for i in 0..b_bits.len() {
            assert_eq!(a.is_set(a_len + i), b_bits[i]);
        }
    }
}

#[test]
fn to_string_lists_bits() {
    assert_eq!(BitArrayList::new().to_string(), "[]");
    assert_eq!(BitArrayList::from(vec![128], 1).to_string(), "[1]");
    assert_eq!(BitArrayList::from(vec![0b1010_0000], 4).to_string(), "[1, 0, 1, 0]");
}
