//! A growable vector of single-bit flags, packed sixty-four to a word.

use vstd::prelude::*;

verus! {

/// Whether bit `bit` of `word` is set.
pub open spec fn word_bit(word: u64, bit: u64) -> bool {
    word & (1u64 << bit) != 0
}

/// Setting or clearing one bit of a word changes that bit and no other.
proof fn lemma_word_bits(word: u64, b: u64, c: u64)
    requires
        b < 64,
        c < 64,
    ensures
        word_bit((word & !(1u64 << b)) | (1u64 << b), c) == (c == b || word_bit(word, c)),
        word_bit((word & !(1u64 << b)) | 0, c) == (c != b && word_bit(word, c)),
        !word_bit(0, c),
{
    assert(((word & !(1u64 << b)) | (1u64 << b)) & (1u64 << c) != 0 <==> (c == b || word & (1u64
        << c) != 0)) by (bit_vector)
        requires
            b < 64,
            c < 64,
    ;
    assert(((word & !(1u64 << b)) | 0) & (1u64 << c) != 0 <==> (c != b && word & (1u64 << c) != 0))
        by (bit_vector)
        requires
            b < 64,
            c < 64,
    ;
    assert(0u64 & (1u64 << c) == 0) by (bit_vector);
}

/// The state of a flag vector as contracts see it.
pub struct FlagVecView {
    /// The index behind the flag whose setting last made the vector grow.
    pub length: nat,
    /// Number of words that the vector holds.
    pub words: nat,
    /// The indices whose flag is set.
    pub set: Set<nat>,
}

/// A vector of single-bit flags.
///
/// The vector grows as indices are set, and never shrinks.
pub struct FlagVec {
    data: Vec<u64>,
    length: usize,
}

impl View for FlagVec {
    type V = FlagVecView;

    closed spec fn view(&self) -> FlagVecView {
        FlagVecView {
            length: self.length as nat,
            words: self.data@.len(),
            set: Set::new(|i: nat| flag_in(self.data@, i)),
        }
    }
}

/// Whether the flag with index `i` is set in `words`.
pub open spec fn flag_in(words: Seq<u64>, i: nat) -> bool {
    i / 64 < words.len() && word_bit(words[(i / 64) as int], (i % 64) as u64)
}

impl Default for FlagVec {
    fn default() -> (flags: Self)
        ensures
            flags@ == (FlagVecView { length: 0, words: 0, set: Set::empty() }),
    {
        Self::new()
    }
}

impl FlagVec {
    /// A vector without words, in which no flag is set.
    #[must_use]
    pub fn new() -> (flags: Self)
        ensures
            flags@ == (FlagVecView { length: 0, words: 0, set: Set::empty() }),
    {
        let flags = Self { data: Vec::new(), length: 0 };
        assert(flags@.set =~= Set::empty());
        flags
    }

    /// The index behind the flag whose setting last made the vector grow. The
    /// value never decreases, even if that flag is cleared later.
    #[must_use]
    pub fn len(&self) -> (length: usize)
        ensures
            length == self@.length,
    {
        self.length
    }

    /// Whether the vector has never grown.
    #[must_use]
    pub fn is_empty(&self) -> (empty: bool)
        ensures
            empty == (self@.length == 0),
    {
        self.length == 0
    }

    /// Number of words that the vector holds.
    #[must_use]
    pub fn word_count(&self) -> (words: usize)
        ensures
            words == self@.words,
    {
        self.data.len()
    }

    /// Sets the flag at `index` to `value` and returns the value that it had.
    ///
    /// Where the index lies behind the last word, the vector grows to hold it,
    /// and its length becomes the index plus one.
    pub fn set(&mut self, index: usize, value: bool) -> (old_value: bool)
        requires
            index / 64 >= old(self)@.words ==> index < usize::MAX,
        ensures
            old_value == old(self)@.set.contains(index as nat),
            final(self)@.set == if value {
                old(self)@.set.insert(index as nat)
            } else {
                old(self)@.set.remove(index as nat)
            },
            final(self)@.words == if index / 64 >= old(self)@.words {
                (index / 64 + 1) as nat
            } else {
                old(self)@.words
            },
            final(self)@.length == if index / 64 >= old(self)@.words {
                (index + 1) as nat
            } else {
                old(self)@.length
            },
    {
        let int_index: usize = index / 64;
        let bit_index: u64 = (index % 64) as u64;

        if int_index >= self.data.len() {
            while self.data.len() <= int_index
                invariant
                    old(self).data@.len() <= self.data@.len() <= int_index + 1,
                    self.data@.subrange(0, old(self).data@.len() as int) == old(self).data@,
                    forall|j: int| old(self).data@.len() <= j < self.data@.len() ==> self.data@[j] == 0,
                decreases int_index + 1 - self.data@.len(),
            {
                let ghost before = self.data@;
                self.data.push(0);
                assert(self.data@.subrange(0, old(self).data@.len() as int) =~= before.subrange(
                    0,
                    old(self).data@.len() as int,
                ));
            }
            self.length = index + 1;
        }
        let ghost grown = self.data@;
        let word: u64 = self.data[int_index];
        let mask: u64 = 1u64 << bit_index;
        let old_value: bool = word & mask != 0;
        let fill: u64 = if value {
            mask
        } else {
            0
        };
        self.data[int_index] = (word & !mask) | fill;

        proof {
            let before = old(self).data@;
            let after = self.data@;
            assert forall|i: nat| flag_in(grown, i) == flag_in(before, i) by {
                if i / 64 < grown.len() {
                    if i / 64 < before.len() {
                        assert(grown[(i / 64) as int] == grown.subrange(0, before.len() as int)[(i
                            / 64) as int]);
                    } else {
                        lemma_word_bits(0, 0, (i % 64) as u64);
                    }
                }
            }
            assert forall|i: nat| flag_in(after, i) == (if i == index {
                value
            } else {
                flag_in(before, i)
            }) by {
                if i / 64 == int_index {
                    lemma_word_bits(word, bit_index, (i % 64) as u64);
                    assert(i == index <==> i % 64 == index % 64);
                }
            }
            if value {
                assert(self@.set =~= old(self)@.set.insert(index as nat));
            } else {
                assert(self@.set =~= old(self)@.set.remove(index as nat));
            }
        }
        old_value
    }

    /// The value of the flag at `index`; false behind the last word.
    #[must_use]
    pub fn get(&self, index: usize) -> (value: bool)
        ensures
            value == self@.set.contains(index as nat),
    {
        let int_index: usize = index / 64;
        let bit_index: u64 = (index % 64) as u64;

        if int_index >= self.data.len() {
            false
        } else {
            self.data[int_index] & (1u64 << bit_index) != 0
        }
    }
}

} // verus!
