//! Fixed-capacity bit vectors addressed by index: bit `i` lives in word
//! `i / WORD_BITS`, at position `i % WORD_BITS`.

use vstd::prelude::*;

verus! {

/// Number of bits in one storage word.
pub const WORD_BITS: usize = 64;

/// Bit `b` of the word `w`.
pub open spec fn word_bit(w: u64, b: int) -> bool {
    (w >> (b as u64)) & 1u64 == 1u64
}

/// The flags held by a sequence of words, word `0` first.
pub open spec fn bits_of(words: Seq<u64>) -> Seq<bool> {
    Seq::new((words.len() * 64) as nat, |i: int| word_bit(words[i / 64], i % 64))
}

/// `n` flags, none of them set.
pub open spec fn all_clear(n: nat) -> Seq<bool> {
    Seq::new(n, |i: int| false)
}

/// Flag-wise disjunction of two flag sequences of the same length.
pub open spec fn union_of(a: Seq<bool>, b: Seq<bool>) -> Seq<bool> {
    Seq::new(a.len(), |i: int| a[i] || b[i])
}

/// True when no flag of `s` is set.
pub open spec fn none_set(s: Seq<bool>) -> bool {
    forall|i: int| 0 <= i < s.len() ==> !#[trigger] s[i]
}

proof fn lemma_bit_of_or_mask(w: u64, b: u64, k: u64)
    requires
        b < 64,
        k < 64,
    ensures
        ((w | (1u64 << b)) >> k) & 1u64 == 1u64 <==> (k == b || (w >> k) & 1u64
            == 1u64),
{
    assert(((w | (1u64 << b)) >> k) & 1u64 == 1u64 <==> (k == b || (w >> k) & 1u64
        == 1u64)) by (bit_vector)
        requires
            b < 64,
            k < 64,
    ;
}

proof fn lemma_bit_of_and_not_mask(w: u64, b: u64, k: u64)
    requires
        b < 64,
        k < 64,
    ensures
        ((w & !(1u64 << b)) >> k) & 1u64 == 1u64 <==> (k != b && (w >> k) & 1u64
            == 1u64),
{
    assert(((w & !(1u64 << b)) >> k) & 1u64 == 1u64 <==> (k != b && (w >> k) & 1u64
        == 1u64)) by (bit_vector)
        requires
            b < 64,
            k < 64,
    ;
}

proof fn lemma_bit_of_or(w: u64, v: u64, k: u64)
    requires
        k < 64,
    ensures
        ((w | v) >> k) & 1u64 == 1u64 <==> ((w >> k) & 1u64 == 1u64 || (v >> k) & 1u64
            == 1u64),
{
    assert(((w | v) >> k) & 1u64 == 1u64 <==> ((w >> k) & 1u64 == 1u64 || (v >> k)
        & 1u64 == 1u64)) by (bit_vector)
        requires
            k < 64,
    ;
}

proof fn lemma_bit_of_zero(k: u64)
    requires
        k < 64,
    ensures
        (0u64 >> k) & 1u64 != 1u64,
{
    assert((0u64 >> k) & 1u64 != 1u64) by (bit_vector);
}

/// A word whose bits from `k` upwards are all clear has nothing left after
/// shifting out the bits below `k`.
proof fn lemma_high_bits_clear(w: u64, k: u64)
    requires
        k < 64,
        forall|j: int| k <= j < 64 ==> !#[trigger] word_bit(w, j),
    ensures
        w >> k == 0,
    decreases 64 - k,
{
    if k == 63 {
        assert(!word_bit(w, 63));
        assert((w >> 63u64) & 1u64 != 1u64 ==> w >> 63u64 == 0) by (bit_vector);
    } else {
        lemma_high_bits_clear(w, (k + 1) as u64);
        assert(!word_bit(w, k as int));
        let k1 = (k + 1) as u64;
        assert((w >> k1) == 0 && (w >> k) & 1u64 != 1u64 && k1 == k + 1 && k < 63 ==> w >> k
            == 0) by (bit_vector);
    }
}

proof fn lemma_zero_word_iff_no_bits(w: u64)
    ensures
        w == 0 <==> forall|j: int| 0 <= j < 64 ==> !#[trigger] word_bit(w, j),
{
    if w == 0 {
        assert forall|j: int| 0 <= j < 64 implies !#[trigger] word_bit(w, j) by {
            lemma_bit_of_zero(j as u64);
        }
    }
    if forall|j: int| 0 <= j < 64 ==> !#[trigger] word_bit(w, j) {
        lemma_high_bits_clear(w, 0);
        assert(w >> 0u64 == w) by (bit_vector);
    }
}

/// A plain, non-shared snapshot of `N` words of flags.
pub struct Bitset<const N: usize>(pub [u64; N]);

impl<const N: usize> View for Bitset<N> {
    type V = Seq<bool>;

    open spec fn view(&self) -> Seq<bool> {
        bits_of(self.0@)
    }
}

/// A fixed-capacity set of `N * WORD_BITS` flags. Every operation touches
/// whole words in place; sharing it between threads goes through the
/// owner's synchronisation, as the exclusive borrows of the mutators demand.
pub struct AtomicBitset<const N: usize> {
    words: [u64; N],
}

impl<const N: usize> View for AtomicBitset<N> {
    type V = Seq<bool>;

    closed spec fn view(&self) -> Seq<bool> {
        bits_of(self.words@)
    }
}

impl<const N: usize> Bitset<N> {
    /// A snapshot holds `N * WORD_BITS` flags.
    pub proof fn lemma_view_len(&self)
        ensures
            self@.len() == AtomicBitset::<N>::capacity(),
    {
    }
}

impl<const N: usize> AtomicBitset<N> {
    /// Number of flags the set can hold.
    pub open spec fn capacity() -> nat {
        (N * 64) as nat
    }

    /// The set holds exactly `capacity()` flags.
    pub proof fn lemma_view_len(&self)
        ensures
            self@.len() == Self::capacity(),
    {
    }

    /// A set with every flag clear.
    pub fn new() -> (r: Self)
        ensures
            r@ == all_clear(Self::capacity()),
    {
        let r = AtomicBitset { words: [0u64; N] };
        assert forall|i: int| 0 <= i < Self::capacity() implies r@[i] == all_clear(
            Self::capacity(),
        )[i] by {
            lemma_bit_of_zero((i % 64) as u64);
        }
        assert(r@ =~= all_clear(Self::capacity()));
        r
    }

    /// Sets flag `index`.
    pub fn set(&mut self, index: usize)
        requires
            index < Self::capacity(),
        ensures
            final(self)@ == old(self)@.update(index as int, true),
    {
        let w = index / WORD_BITS;
        let b = (index % WORD_BITS) as u64;
        let ghost before = self.words@;
        self.words[w] = self.words[w] | (1u64 << b);
        proof {
            let after = self.words@;
            assert forall|i: int| 0 <= i < Self::capacity() implies #[trigger] bits_of(after)[i]
                == old(self)@.update(index as int, true)[i] by {
                if i / 64 == w as int {
                    lemma_bit_of_or_mask(before[w as int], b, (i % 64) as u64);
                }
            }
            assert(self@ =~= old(self)@.update(index as int, true));
        }
    }

    /// Clears flag `index`.
    pub fn clear(&mut self, index: usize)
        requires
            index < Self::capacity(),
        ensures
            final(self)@ == old(self)@.update(index as int, false),
    {
        let w = index / WORD_BITS;
        let b = (index % WORD_BITS) as u64;
        let ghost before = self.words@;
        self.words[w] = self.words[w] & !(1u64 << b);
        proof {
            let after = self.words@;
            assert forall|i: int| 0 <= i < Self::capacity() implies #[trigger] bits_of(after)[i]
                == old(self)@.update(index as int, false)[i] by {
                if i / 64 == w as int {
                    lemma_bit_of_and_not_mask(before[w as int], b, (i % 64) as u64);
                }
            }
            assert(self@ =~= old(self)@.update(index as int, false));
        }
    }

    /// Reads flag `index`.
    pub fn get(&self, index: usize) -> (r: bool)
        requires
            index < Self::capacity(),
        ensures
            r == self@[index as int],
    {
        let w = index / WORD_BITS;
        let b = (index % WORD_BITS) as u64;
        let word = self.words[w];
        let r = (word >> b) & 1u64 == 1u64;
        proof {
            assert(r == word_bit(word, index as int % 64));
        }
        r
    }

    /// Overwrites every word with the words of `bitset`.
    pub fn update(&mut self, bitset: &Bitset<N>)
        ensures
            final(self)@ == bitset@,
    {
        let mut i: usize = 0;
        while i < N
            invariant
                i <= N,
                self.words@.len() == N,
                forall|j: int| 0 <= j < i ==> self.words@[j] == bitset.0@[j],
            decreases N - i,
        {
            self.words[i] = bitset.0[i];
            i += 1;
        }
        assert(self.words@ =~= bitset.0@);
    }

    /// Sets every flag that is set in `bitset`, keeping those already set.
    pub fn union(&mut self, bitset: &Bitset<N>)
        ensures
            final(self)@ == union_of(old(self)@, bitset@),
    {
        let ghost start = self.words@;
        let mut i: usize = 0;
        while i < N
            invariant
                i <= N,
                self.words@.len() == N,
                start.len() == N,
                forall|j: int| 0 <= j < i ==> self.words@[j] == (start[j] | bitset.0@[j]),
                forall|j: int| i <= j < N ==> self.words@[j] == start[j],
            decreases N - i,
        {
            self.words[i] = self.words[i] | bitset.0[i];
            i += 1;
        }
        proof {
            assert forall|k: int| 0 <= k < Self::capacity() implies #[trigger] self@[k]
                == union_of(old(self)@, bitset@)[k] by {
                lemma_bit_of_or(start[k / 64], bitset.0@[k / 64], (k % 64) as u64);
            }
            assert(self@ =~= union_of(old(self)@, bitset@));
        }
    }

    /// Clears every flag.
    pub fn clear_all(&mut self)
        ensures
            final(self)@ == all_clear(Self::capacity()),
    {
        let mut i: usize = 0;
        while i < N
            invariant
                i <= N,
                self.words@.len() == N,
                forall|j: int| 0 <= j < i ==> self.words@[j] == 0,
            decreases N - i,
        {
            self.words[i] = 0;
            i += 1;
        }
        proof {
            assert forall|k: int| 0 <= k < Self::capacity() implies #[trigger] self@[k]
                == all_clear(Self::capacity())[k] by {
                lemma_bit_of_zero((k % 64) as u64);
            }
            assert(self@ =~= all_clear(Self::capacity()));
        }
    }

    /// True when no flag is set.
    pub fn is_empty(&self) -> (r: bool)
        ensures
            r == none_set(self@),
    {
        let mut i: usize = 0;
        while i < N
            invariant
                i <= N,
                self.words@.len() == N,
                forall|j: int| 0 <= j < i ==> self.words@[j] == 0,
            decreases N - i,
        {
            if self.words[i] != 0 {
                proof {
                    let w = self.words@[i as int];
                    lemma_zero_word_iff_no_bits(w);
                    let k = choose|k: int| 0 <= k < 64 && #[trigger] word_bit(w, k);
                    assert(self@[i * 64 + k]);
                }
                return false;
            }
            i += 1;
        }
        proof {
            assert forall|k: int| 0 <= k < self@.len() implies !#[trigger] self@[k] by {
                lemma_bit_of_zero((k % 64) as u64);
            }
        }
        true
    }
}

} // verus!

verus! {

/// Once flag `i` is set it reads as set, once cleared it reads as clear, and
/// either way every other flag keeps its value.
pub proof fn lemma_set_clear_then_get<const N: usize>(b: AtomicBitset<N>, i: int)
    requires
        0 <= i < AtomicBitset::<N>::capacity(),
    ensures
        b@.update(i, true)[i],
        !b@.update(i, false)[i],
        forall|j: int|
            0 <= j < AtomicBitset::<N>::capacity() && j != i ==> #[trigger] b@.update(i, true)[j]
                == b@[j] && b@.update(i, false)[j] == b@[j],
{
}

/// After clearing every flag the set is empty and no flag reads as set.
pub proof fn lemma_clear_all_then_empty(n: nat)
    ensures
        none_set(all_clear(n)),
        forall|i: int| 0 <= i < n ==> !#[trigger] all_clear(n)[i],
{
}

/// After overwriting the set with `a` and then adding `b`, flag `i` reads as
/// set exactly when it is set in `a` or in `b`.
pub proof fn lemma_update_then_union<const N: usize>(a: Bitset<N>, b: Bitset<N>)
    ensures
        union_of(a@, b@).len() == AtomicBitset::<N>::capacity(),
        forall|i: int|
            0 <= i < AtomicBitset::<N>::capacity() ==> #[trigger] union_of(a@, b@)[i] == (a@[i]
                || b@[i]),
{
}

} // verus!
