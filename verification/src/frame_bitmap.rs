//! A frame allocator over a fixed number of frames, one bit per frame.
//!
//! A set bit marks a free frame. A new allocator has none, and allocation takes
//! the lowest.
use vstd::prelude::*;

verus! {

/// An allocator for the frames `0..FRAMES`.
pub struct BitmapFrameAllocator<const FRAMES: usize> {
    /// The bits, 64 to a word. Those past the last frame stay clear.
    pub words: Vec<u64>,
}

/// Bit `b` of the word is set.
pub open spec fn bit_set(word: u64, b: int) -> bool {
    (word >> (b as u64)) & 1 == 1
}

/// The bit of this frame is set.
pub open spec fn frame_bit(words: Seq<u64>, frame: int) -> bool {
    bit_set(words[frame / 64], frame % 64)
}

/// How many ones the binary form of the word has.
pub open spec fn ones(word: u64) -> nat
    decreases word,
{
    if word == 0 {
        0
    } else {
        (word % 2) as nat + ones(word / 2)
    }
}

/// `u64::count_ones` of the standard library: the number of ones in the binary
/// form of the word.
pub assume_specification[ u64::count_ones ](word: u64) -> (r: u32)
    ensures
        r == ones(word),
;

impl<const FRAMES: usize> BitmapFrameAllocator<FRAMES> {
    /// There are as many words as the frames need, and no bit past the last frame
    /// is set.
    pub open spec fn wf(self) -> bool {
        &&& FRAMES + 63 <= usize::MAX
        &&& self.words@.len() == (FRAMES + 63) / 64
        &&& forall|f: int|
            FRAMES <= f < self.words@.len() * 64 ==> !#[trigger] frame_bit(self.words@, f)
    }

    /// The free frames.
    pub open spec fn frames(self) -> Set<int> {
        Set::new(|f: int| 0 <= f < FRAMES && frame_bit(self.words@, f))
    }

    /// An allocator with all frames in use.
    pub fn new() -> (r: Self)
        requires
            FRAMES + 63 <= usize::MAX,
        ensures
            r.wf(),
            r.frames() == Set::<int>::empty(),
    {
        let n: usize = (FRAMES + 63) / 64;
        let mut words: Vec<u64> = Vec::new();
        while words.len() < n
            invariant
                words@.len() <= n,
                forall|i: int| 0 <= i < words@.len() ==> #[trigger] words@[i] == 0,
            decreases n - words@.len(),
        {
            words.push(0);
        }
        let r = BitmapFrameAllocator { words };
        proof {
            assert forall|f: int| 0 <= f < r.words@.len() * 64 implies !#[trigger] frame_bit(
                r.words@,
                f,
            ) by {
                let b = (f % 64) as u64;
                assert((0u64 >> b) & 1 == 0) by (bit_vector);
            }
            assert(r.frames() =~= Set::<int>::empty());
        }
        r
    }

    /// Marks a frame free. A frame out of range is ignored.
    pub fn mark_free(&mut self, frame: usize)
        requires
            old(self).wf(),
        ensures
            final(self).wf(),
            final(self).frames() == if frame < FRAMES {
                old(self).frames().insert(frame as int)
            } else {
                old(self).frames()
            },
    {
        if frame >= FRAMES {
            return;
        }
        let w: usize = frame / 64;
        let b: u64 = (frame % 64) as u64;
        let word: u64 = self.words[w] | (1u64 << b);
        self.words.set(w, word);
        proof {
            assert forall|f: int| 0 <= f < self.words@.len() * 64 implies #[trigger] frame_bit(
                self.words@,
                f,
            ) == (frame_bit(old(self).words@, f) || f == frame) by {
                lemma_set_bit(old(self).words@[w as int], b, (f % 64) as u64);
            }
            assert(self.frames() =~= old(self).frames().insert(frame as int));
        }
    }

    /// Marks a frame used. A frame out of range is ignored.
    pub fn mark_used(&mut self, frame: usize)
        requires
            old(self).wf(),
        ensures
            final(self).wf(),
            final(self).frames() == old(self).frames().remove(frame as int),
    {
        if frame >= FRAMES {
            assert(self.frames() =~= old(self).frames().remove(frame as int));
            return;
        }
        let w: usize = frame / 64;
        let b: u64 = (frame % 64) as u64;
        let word: u64 = self.words[w] & !(1u64 << b);
        self.words.set(w, word);
        proof {
            lemma_remove_frame(*old(self), *self, frame as int);
        }
    }

    /// Takes the lowest free frame. Answers `None` when no frame is free.
    pub fn allocate(&mut self) -> (r: Option<usize>)
        requires
            old(self).wf(),
        ensures
            final(self).wf(),
            match r {
                Some(frame) => frame < FRAMES && crate::memory::takes_lowest(
                    old(self).frames(),
                    frame as int,
                    final(self).frames(),
                ),
                None => old(self).frames() == Set::<int>::empty() && *final(self) == *old(self),
            },
    {
        let mut wi: usize = 0;
        while wi < self.words.len()
            invariant
                self.wf(),
                *self == *old(self),
                wi <= self.words@.len(),
                forall|f: int| 0 <= f < wi * 64 ==> !#[trigger] frame_bit(self.words@, f),
            decreases self.words@.len() - wi,
        {
            let word: u64 = self.words[wi];
            if word != 0 {
                let bi: u32 = word.trailing_zeros();
                proof {
                    vstd::std_specs::bits::axiom_u64_trailing_zeros(word);
                }
                let frame: usize = wi * 64 + bi as usize;
                proof {
                    assert(frame_bit(self.words@, frame as int));
                    assert(frame < FRAMES);
                    assert forall|f: int| #[trigger] self.frames().contains(f) implies frame
                        <= f by {
                        if f < frame {
                            assert(f >= wi * 64);
                            let j = (f % 64) as u64;
                            assert((word >> j) & 1 == 0);
                        }
                    }
                }
                let b: u64 = bi as u64;
                let cleared: u64 = word & !(1u64 << b);
                self.words.set(wi, cleared);
                proof {
                    lemma_remove_frame(*old(self), *self, frame as int);
                }
                return Some(frame);
            }
            proof {
                assert forall|f: int| 0 <= f < (wi + 1) * 64 implies !#[trigger] frame_bit(
                    self.words@,
                    f,
                ) by {
                    if f >= wi * 64 {
                        let b = (f % 64) as u64;
                        assert((0u64 >> b) & 1 == 0) by (bit_vector);
                    }
                }
            }
            wi = wi + 1;
        }
        assert(self.frames() =~= Set::<int>::empty());
        None
    }

    /// Gives a frame back. A frame out of range is ignored.
    pub fn free(&mut self, frame: usize)
        requires
            old(self).wf(),
        ensures
            final(self).wf(),
            final(self).frames() == if frame < FRAMES {
                old(self).frames().insert(frame as int)
            } else {
                old(self).frames()
            },
    {
        self.mark_free(frame);
    }

    /// Whether the frame is free. A frame out of range is not.
    pub fn is_free(&self, frame: usize) -> (r: bool)
        requires
            self.wf(),
        ensures
            r == self.frames().contains(frame as int),
    {
        if frame >= FRAMES {
            return false;
        }
        let w: usize = frame / 64;
        let b: u64 = (frame % 64) as u64;
        proof {
            lemma_test_bit(self.words@[w as int], b);
        }
        (self.words[w] & (1u64 << b)) != 0
    }

    /// The number of free frames.
    pub fn free_count(&self) -> (r: usize)
        requires
            self.wf(),
        ensures
            self.frames().finite(),
            r == self.frames().len(),
    {
        let mut cnt: usize = 0;
        let mut wi: usize = 0;
        proof {
            assert(bits_below(self.words@, 0) =~= Set::<int>::empty());
        }
        while wi < self.words.len()
            invariant
                self.wf(),
                wi <= self.words@.len(),
                bits_below(self.words@, wi * 64).finite(),
                bits_below(self.words@, wi * 64).len() == cnt,
                cnt <= wi * 64,
            decreases self.words@.len() - wi,
        {
            proof {
                lemma_count_word(self.words@, wi as int, 64);
                lemma_ones(self.words@[wi as int], 64);
            }
            cnt = cnt + self.words[wi].count_ones() as usize;
            wi = wi + 1;
        }
        assert(bits_below(self.words@, self.words@.len() as int * 64) =~= self.frames());
        cnt
    }
}

/// Setting bit `b` sets that bit and leaves the others.
proof fn lemma_set_bit(word: u64, b: u64, c: u64)
    requires
        b < 64,
        c < 64,
    ensures
        bit_set(word | (1u64 << b), c as int) == (bit_set(word, c as int) || c == b),
{
    assert(((word | (1u64 << b)) >> c) & 1 == 1 <==> ((word >> c) & 1 == 1 || c == b))
        by (bit_vector)
        requires
            b < 64,
            c < 64,
    ;
}

/// Clearing bit `b` clears that bit and leaves the others.
proof fn lemma_clear_bit(word: u64, b: u64, c: u64)
    requires
        b < 64,
        c < 64,
    ensures
        bit_set(word & !(1u64 << b), c as int) == (bit_set(word, c as int) && c != b),
{
    assert(((word & !(1u64 << b)) >> c) & 1 == 1 <==> ((word >> c) & 1 == 1 && c != b))
        by (bit_vector)
        requires
            b < 64,
            c < 64,
    ;
}

/// Masking with bit `b` tells whether it is set.
proof fn lemma_test_bit(word: u64, b: u64)
    requires
        b < 64,
    ensures
        (word & (1u64 << b) != 0) == bit_set(word, b as int),
{
    assert((word & (1u64 << b) != 0) == ((word >> b) & 1 == 1)) by (bit_vector)
        requires
            b < 64,
    ;
}

/// Clearing a frame's bit takes the frame out of the free ones.
proof fn lemma_remove_frame<const FRAMES: usize>(
    before: BitmapFrameAllocator<FRAMES>,
    after: BitmapFrameAllocator<FRAMES>,
    frame: int,
)
    requires
        before.wf(),
        0 <= frame < FRAMES,
        after.words@ == before.words@.update(
            frame / 64,
            before.words@[frame / 64] & !(1u64 << ((frame % 64) as u64)),
        ),
    ensures
        after.wf(),
        after.frames() == before.frames().remove(frame),
{
    assert forall|f: int| 0 <= f < after.words@.len() * 64 implies #[trigger] frame_bit(
        after.words@,
        f,
    ) == (frame_bit(before.words@, f) && f != frame) by {
        lemma_clear_bit(before.words@[frame / 64], (frame % 64) as u64, (f % 64) as u64);
    }
    assert(after.frames() =~= before.frames().remove(frame));
}

/// The set bits among the first `n`.
spec fn bits_below(words: Seq<u64>, n: int) -> Set<int> {
    Set::new(|f: int| 0 <= f < n && frame_bit(words, f))
}

/// How many of the lowest `n` bits of the word are set.
spec fn count_below(word: u64, n: nat) -> nat
    decreases n,
{
    if n == 0 {
        0
    } else {
        count_below(word, (n - 1) as nat) + if bit_set(word, n - 1) {
            1nat
        } else {
            0
        }
    }
}

/// The first `n` bits of word `wi` add their number to the set bits before it.
proof fn lemma_count_word(words: Seq<u64>, wi: int, n: nat)
    requires
        0 <= wi < words.len(),
        n <= 64,
        bits_below(words, wi * 64).finite(),
    ensures
        bits_below(words, wi * 64 + n).finite(),
        bits_below(words, wi * 64 + n).len() == bits_below(words, wi * 64).len() + count_below(
            words[wi],
            n,
        ),
        count_below(words[wi], n) <= n,
    decreases n,
{
    if n > 0 {
        lemma_count_word(words, wi, (n - 1) as nat);
        let f = wi * 64 + n - 1;
        let a = bits_below(words, f);
        let b = bits_below(words, f + 1);
        if bit_set(words[wi], n - 1) {
            assert(b =~= a.insert(f));
        } else {
            assert(b =~= a);
        }
    }
}

/// Counting the bits of a word one by one gives the number of its ones, as long
/// as all of its ones are counted.
proof fn lemma_ones(word: u64, n: nat)
    requires
        n <= 64,
        n < 64 ==> word < (1u64 << (n as u64)),
    ensures
        count_below(word, n) == ones(word),
    decreases n,
{
    if n == 0 {
        assert(1u64 << 0 == 1) by (bit_vector);
    } else {
        let half = word / 2;
        let m = n as u64;
        assert(m == 64 || word < (1u64 << m) ==> word / 2 < (1u64 << ((m - 1) as u64)))
            by (bit_vector)
            requires
                1 <= m <= 64,
        ;
        lemma_ones(half, (n - 1) as nat);
        lemma_count_half(word, n);
        assert((word >> 0) & 1 == word % 2) by (bit_vector);
        if word == 0 {
            assert(half == 0);
        }
    }
}

/// The lowest bit and the bits of half the word make up the bits of the word.
proof fn lemma_count_half(word: u64, n: nat)
    requires
        1 <= n <= 64,
    ensures
        count_below(word, n) == count_below(word / 2, (n - 1) as nat) + if bit_set(word, 0) {
            1nat
        } else {
            0
        },
    decreases n,
{
    if n > 1 {
        lemma_count_half(word, (n - 1) as nat);
        let c = (n - 1) as u64;
        assert(((word >> c) & 1 == 1) == (((word / 2) >> ((c - 1) as u64)) & 1 == 1)) by (bit_vector)
            requires
                1 <= c < 64,
        ;
    } else {
        assert(count_below(word, 0) == 0);
        assert(count_below(word / 2, 0) == 0);
    }
}

} // verus!
