//! A fixed-length, packed array of `bool` values.
//!
//! The bits live in 64-bit words; bit `i` of the array is bit `i % 64` of
//! word `i / 64`. `first_false` scans word-at-a-time and uses the
//! trailing-zeros primitive on the inverted word to locate the first clear
//! bit, clamping to the array's length so that padding bits past the end
//! cannot be reported.

use vstd::prelude::*;

verus! {

use vstd::arithmetic::div_mod::lemma_fundamental_div_mod;
use vstd::arithmetic::div_mod::lemma_fundamental_div_mod_converse;
use vstd::arithmetic::div_mod::lemma_div_is_ordered;
use vstd::std_specs::bits::axiom_u64_trailing_zeros;

/// True iff bit `k` of the word `w` is set.
pub open spec fn word_bit(w: u64, k: u64) -> bool {
    (w >> k) & 1 == 1
}

/// Number of 64-bit words needed to hold `len` bits.
pub open spec fn word_count(len: int) -> int {
    if len == 0 {
        0
    } else {
        (len - 1) / 64 + 1
    }
}

/// A fixed-length, packed array of `bool` values.
#[derive(Clone, Debug)]
pub struct BoolArray {
    words: Vec<u64>,
    len: usize,
}

impl View for BoolArray {
    type V = Seq<bool>;

    closed spec fn view(&self) -> Seq<bool> {
        Seq::new(self.len as nat, |i: int| word_bit(self.words[i / 64], (i % 64) as u64))
    }
}

proof fn lemma_zero_word_bit(k: u64)
    by (bit_vector)
    ensures
        !word_bit(0u64, k),
{
}

proof fn lemma_mask_bit(w: u64, k: u64)
    by (bit_vector)
    requires
        k < 64,
    ensures
        ((w & (1u64 << k)) != 0) == word_bit(w, k),
{
}

proof fn lemma_or_mask_bit(w: u64, k: u64, m: u64)
    by (bit_vector)
    requires
        k < 64,
        m < 64,
    ensures
        word_bit(w | (1u64 << k), k),
        m != k ==> word_bit(w | (1u64 << k), m) == word_bit(w, m),
{
}

proof fn lemma_andnot_mask_bit(w: u64, k: u64, m: u64)
    by (bit_vector)
    requires
        k < 64,
        m < 64,
    ensures
        !word_bit(w & !(1u64 << k), k),
        m != k ==> word_bit(w & !(1u64 << k), m) == word_bit(w, m),
{
}

proof fn lemma_max_word_bit(k: u64)
    by (bit_vector)
    requires
        k < 64,
    ensures
        word_bit(u64::MAX, k),
{
}

proof fn lemma_not_word_bit(w: u64, k: u64)
    by (bit_vector)
    requires
        k < 64,
    ensures
        word_bit(!w, k) == !word_bit(w, k),
        w != u64::MAX ==> !w != 0,
{
}

/// Splits a bit index into the index of its word and the mask of its bit
/// within that word.
fn split_index(index: usize) -> (r: (usize, u64))
    ensures
        r.0 == index as int / 64,
        r.1 == 1u64 << ((index as int % 64) as u64),
{
    let word_index = index >> 6;
    let bit: u64 = (index & 63) as u64;
    proof {
        assert(index >> 6 == index / 64) by (bit_vector);
        assert((index & 63) as u64 == (index % 64) as u64) by (bit_vector);
    }
    (word_index, 1u64 << bit)
}

impl BoolArray {
    /// Structural soundness: exactly the words needed for `len` bits.
    pub closed spec fn wf(&self) -> bool {
        &&& self.words@.len() == word_count(self.len as int)
        &&& self.len <= usize::MAX - 64
    }

    /// Creates a `BoolArray` of `len` bits, all `false`.
    pub fn new(len: usize) -> (r: BoolArray)
        requires
            len <= usize::MAX - 64,
        ensures
            r.wf(),
            r@.len() == len,
            forall|i: int| 0 <= i < len ==> !r@[i],
    {
        let cap: usize = if len == 0 {
            0
        } else {
            (len - 1) / 64 + 1
        };
        let mut words: Vec<u64> = Vec::new();
        while words.len() < cap
            invariant
                words@.len() <= cap,
                forall|i: int| 0 <= i < words@.len() ==> words@[i] == 0u64,
            decreases cap - words@.len(),
        {
            words.push(0);
        }
        let r = BoolArray { words, len };
        proof {
            assert forall|i: int| 0 <= i < len implies !r@[i] by {
                lemma_div_is_ordered(i, len - 1, 64);
                lemma_zero_word_bit((i % 64) as u64);
            }
        }
        r
    }

    /// The number of bits in the array.
    pub fn len(&self) -> (r: usize)
        ensures
            r == self@.len(),
    {
        self.len
    }

    /// Gets the `bool` value at the given `index`.
    pub fn get(&self, index: usize) -> (r: bool)
        requires
            self.wf(),
            index < self@.len(),
        ensures
            r == self@[index as int],
    {
        let (word_index, mask) = split_index(index);
        proof {
            lemma_div_is_ordered(index as int, self.len - 1, 64);
            lemma_mask_bit(self.words[index as int / 64], (index as int % 64) as u64);
        }
        (self.words[word_index] & mask) != 0
    }

    /// Sets the bit at `index` to `true` and returns the previous value.
    pub fn set(&mut self, index: usize) -> (prev: bool)
        requires
            old(self).wf(),
            index < old(self)@.len(),
        ensures
            final(self).wf(),
            final(self)@ == old(self)@.update(index as int, true),
            prev == old(self)@[index as int],
    {
        let (word_index, mask) = split_index(index);
        proof {
            lemma_div_is_ordered(index as int, self.len - 1, 64);
        }
        let word = self.words[word_index];
        self.words[word_index] = word | mask;
        proof {
            self.lemma_one_bit_changed(*old(self), index as int, true, word);
            lemma_mask_bit(word, (index as int % 64) as u64);
        }
        (word & mask) != 0
    }

    /// Sets the bit at `index` to `false` and returns the previous value.
    pub fn clear(&mut self, index: usize) -> (prev: bool)
        requires
            old(self).wf(),
            index < old(self)@.len(),
        ensures
            final(self).wf(),
            final(self)@ == old(self)@.update(index as int, false),
            prev == old(self)@[index as int],
    {
        let (word_index, mask) = split_index(index);
        proof {
            lemma_div_is_ordered(index as int, self.len - 1, 64);
        }
        let word = self.words[word_index];
        self.words[word_index] = word & !mask;
        proof {
            self.lemma_one_bit_changed(*old(self), index as int, false, word);
            lemma_mask_bit(word, (index as int % 64) as u64);
        }
        (word & mask) != 0
    }

    /// After a store into the word of bit `index` that sets or clears that
    /// bit and leaves the word's other bits alone, the view is the old view
    /// with exactly the one bit replaced.
    proof fn lemma_one_bit_changed(&self, prior: BoolArray, index: int, value: bool, word: u64)
        requires
            prior.wf(),
            0 <= index < prior.len,
            self.len == prior.len,
            self.words@.len() == prior.words@.len(),
            word == prior.words[index / 64],
            forall|w: int| 0 <= w < self.words@.len() && w != index / 64
                ==> self.words[w] == prior.words[w],
            self.words[index / 64] == if value {
                word | (1u64 << ((index % 64) as u64))
            } else {
                word & !(1u64 << ((index % 64) as u64))
            },
        ensures
            self.wf(),
            self@ == prior@.update(index, value),
    {
        let k = (index % 64) as u64;
        assert forall|j: int| 0 <= j < self.len implies self@[j] == prior@.update(index, value)[j] by {
            let m = (j % 64) as u64;
            lemma_fundamental_div_mod(j, 64);
            lemma_fundamental_div_mod(index, 64);
            if j / 64 == index / 64 {
                if value {
                    lemma_or_mask_bit(word, k, m);
                } else {
                    lemma_andnot_mask_bit(word, k, m);
                }
            }
        }
        assert(self@ =~= prior@.update(index, value));
    }

    /// Returns the index of the first `false` bit, or `None` if every bit in
    /// the array is `true`.
    pub fn first_false(&self) -> (r: Option<usize>)
        requires
            self.wf(),
        ensures
            match r {
                Some(i) => {
                    &&& i < self@.len()
                    &&& !self@[i as int]
                    &&& forall|j: int| 0 <= j < i ==> self@[j]
                },
                None => forall|j: int| 0 <= j < self@.len() ==> self@[j],
            },
    {
        let mut word_index: usize = 0;
        while word_index < self.words.len()
            invariant
                self.wf(),
                word_index <= self.words@.len(),
                forall|j: int| 0 <= j < self@.len() && j < word_index * 64 ==> self@[j],
            decreases self.words@.len() - word_index,
        {
            let word = self.words[word_index];
            if word != u64::MAX {
                proof {
                    lemma_not_word_bit(word, 0);
                    axiom_u64_trailing_zeros(!word);
                }
                let tz = (!word).trailing_zeros() as usize;
                proof {
                    if self.len != 0 {
                        lemma_fundamental_div_mod((self.len - 1) as int, 64);
                    }
                }
                let index = word_index * 64 + tz;
                proof {
                    lemma_fundamental_div_mod_converse(index as int, 64, word_index as int, tz as int);
                    lemma_not_word_bit(word, tz as u64);
                    assert forall|j: int| 0 <= j < self@.len() && j < index implies self@[j] by {
                        lemma_fundamental_div_mod(j, 64);
                        if j / 64 == word_index {
                            lemma_not_word_bit(word, (j % 64) as u64);
                        }
                    }
                }
                if index < self.len {
                    return Some(index);
                } else {
                    return None;
                }
            }
            proof {
                assert forall|j: int| 0 <= j < self@.len() && j < (word_index + 1) * 64
                    implies self@[j] by {
                    lemma_fundamental_div_mod(j, 64);
                    if j / 64 == word_index {
                        lemma_max_word_bit((j % 64) as u64);
                    }
                }
            }
            word_index = word_index + 1;
        }
        proof {
            if self.len != 0 {
                lemma_fundamental_div_mod((self.len - 1) as int, 64);
            }
        }
        None
    }
}

/// The number of `true` bits in `s`.
pub open spec fn count_ones(s: Seq<bool>) -> int
    decreases s.len(),
{
    if s.len() == 0 {
        0
    } else {
        count_ones(s.drop_last()) + if s.last() {
            1int
        } else {
            0int
        }
    }
}

/// The count of set bits never exceeds the length.
pub proof fn lemma_count_ones_le(s: Seq<bool>)
    ensures
        0 <= count_ones(s) <= s.len(),
    decreases s.len(),
{
    if s.len() > 0 {
        lemma_count_ones_le(s.drop_last());
    }
}

/// The count of set bits equals the length exactly when every bit is set.
pub proof fn lemma_count_ones_full(s: Seq<bool>)
    ensures
        count_ones(s) == s.len() <==> (forall|i: int| 0 <= i < s.len() ==> s[i]),
    decreases s.len(),
{
    if s.len() > 0 {
        lemma_count_ones_full(s.drop_last());
        lemma_count_ones_le(s.drop_last());
        if count_ones(s) == s.len() {
            assert forall|i: int| 0 <= i < s.len() implies s[i] by {
                if i < s.len() - 1 {
                    assert(s.drop_last()[i] == s[i]);
                }
            }
        } else {
            if forall|i: int| 0 <= i < s.len() ==> s[i] {
                assert(forall|i: int|
                    0 <= i < s.drop_last().len() ==> s.drop_last()[i] == s[i]);
            }
        }
    }
}

/// Writing a bit fixes what reading it gives: in the model, after an update
/// of index `i` to `true` that index reads `true`, and after an update to
/// `false` it reads `false`, whatever the array held before.
pub proof fn lemma_update_then_read(s: Seq<bool>, i: int)
    requires
        0 <= i < s.len(),
    ensures
        s.update(i, true)[i] == true,
        s.update(i, false)[i] == false,
{
}

} // verus!
