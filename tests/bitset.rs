use tikv_store::bitset::{AtomicBitset, Bitset, WORD_BITS};

const TEST_SIZE: usize = 1000;
type TestBitset = AtomicBitset<{ (TEST_SIZE + WORD_BITS - 1) / WORD_BITS }>;

#[test]
fn test_atomic_bitset() {
    let mut bitset = TestBitset::new();

    for i in 0..TEST_SIZE {
        assert!(!bitset.get(i), "Bit {i} should be unset in new BITSET");
    }

    for i in 0..TEST_SIZE {
        assert!(!bitset.get(i), "Bit {i} should be initially unset");
        bitset.set(i);
        assert!(bitset.get(i), "Bit {i} should be set after setting");
    }

    bitset.clear_all();

    for i in 0..TEST_SIZE {
        bitset.set(i);
        assert!(bitset.get(i), "Bit {i} should be set before clearing");
        bitset.clear(i);
        assert!(!bitset.get(i), "Bit {i} should be unset after clearing");
    }

    bitset.clear_all();

    // Set even bits
    for i in (0..TEST_SIZE).step_by(2) {
        bitset.set(i);
    }

    // Check all bits
    for i in 0..TEST_SIZE {
        if i % 2 == 0 {
            assert!(bitset.get(i), "Even bit {i} should be set");
        } else {
            assert!(!bitset.get(i), "Odd bit {i} should be unset");
        }
    }

    // Clear even bits and set odd bits
    for i in 0..TEST_SIZE {
        if i % 2 == 0 {
            bitset.clear(i);
        } else {
            bitset.set(i);
        }
    }

    // Check all bits again
    for i in 0..TEST_SIZE {
        if i % 2 == 0 {
            assert!(!bitset.get(i), "Even bit {i} should now be unset");
        } else {
            assert!(bitset.get(i), "Odd bit {i} should now be set");
        }
    }
}

#[test]
fn set_and_clear_touch_one_bit_only() {
    let mut bitset = AtomicBitset::<2>::new();
    bitset.set(64);
    assert!(bitset.get(64));
    assert!(!bitset.get(63));
    assert!(!bitset.get(65));
    bitset.set(127);
    bitset.clear(64);
    assert!(!bitset.get(64));
    assert!(bitset.get(127));
    assert!(!bitset.get(0));
}

#[test]
fn last_index_is_addressable() {
    let mut bitset = AtomicBitset::<3>::new();
    bitset.set(3 * WORD_BITS - 1);
    assert!(bitset.get(3 * WORD_BITS - 1));
    assert!(!bitset.is_empty());
}

#[test]
fn clear_all_empties_the_set() {
    let mut bitset = AtomicBitset::<4>::new();
    assert!(bitset.is_empty());
    for i in [0usize, 63, 64, 200, 255] {
        bitset.set(i);
    }
    assert!(!bitset.is_empty());
    bitset.clear_all();
    assert!(bitset.is_empty());
    for i in 0..4 * WORD_BITS {
        assert!(!bitset.get(i));
    }
}

#[test]
fn is_empty_sees_a_single_high_bit() {
    let mut bitset = AtomicBitset::<2>::new();
    bitset.set(127);
    assert!(!bitset.is_empty());
    bitset.clear(127);
    assert!(bitset.is_empty());
}

#[test]
fn update_then_union_is_bitwise_or() {
    let a = Bitset::<2>([0b1010, 1 << 63]);
    let b = Bitset::<2>([0b0110, 1]);
    let mut bitset = AtomicBitset::<2>::new();
    bitset.set(100);
    bitset.update(&a);
    assert!(!bitset.get(100));
    bitset.union(&b);
    for i in 0..2 * WORD_BITS {
        let in_a = a.0[i / WORD_BITS] >> (i % WORD_BITS) & 1 == 1;
        let in_b = b.0[i / WORD_BITS] >> (i % WORD_BITS) & 1 == 1;
        assert_eq!(bitset.get(i), in_a || in_b, "bit {i}");
    }
    assert!(bitset.get(1) && bitset.get(2) && bitset.get(3));
    assert!(!bitset.get(0));
    assert!(bitset.get(64) && bitset.get(127));
}
