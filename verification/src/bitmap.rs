//! Bitmap implementation: a fixed-size bit-vector laid over word-sized backing
//! storage (little-endian bit order within each 64-bit word).
//!
//! The bitmap owns its backing words; they model the raw storage window that
//! the physical memory manager reserves for its own bookkeeping.

use vstd::prelude::*;

verus! {

/// Whether bit `k` of the word `w` is set.
pub open spec fn word_bit(w: u64, k: u64) -> bool {
    (w >> k) & 1 == 1
}

/// Whether logical bit `i` is set in a sequence of backing words.
pub open spec fn seq_bit(words: Seq<u64>, i: int) -> bool {
    word_bit(words[i / 64], (i % 64) as u64)
}

/// The word whose low `n` bits are set and all others clear (`n < 64`).
pub open spec fn low_mask(n: u64) -> u64 {
    ((1u64 << n) - 1) as u64
}

pub struct Bitmap {
    array: Vec<u64>,
    /// Size of the bitmap in bits.
    size: usize,
}

impl View for Bitmap {
    type V = Seq<bool>;

    /// The logical contents: one boolean per bit index below `size`.
    closed spec fn view(&self) -> Seq<bool> {
        Seq::new(self.size as nat, |i: int| seq_bit(self.array@, i))
    }
}

impl Bitmap {
    /// The backing words, including the unused tail of the last word.
    pub closed spec fn storage(self) -> Seq<u64> {
        self.array@
    }

    /// The storage is large enough for the logical size, and bit-index
    /// arithmetic on it cannot overflow a `usize`.
    pub closed spec fn wf(self) -> bool {
        &&& self.size <= self.array@.len() * 64
        &&& self.array@.len() * 64 <= usize::MAX
    }

    /// Builds a bitmap of `size` bits over the given backing words.
    pub fn new(array: Vec<u64>, size: usize) -> (r: Bitmap)
        requires
            size <= array@.len() * 64,
            array@.len() * 64 <= usize::MAX,
        ensures
            r.wf(),
            r.storage() == array@,
            r@.len() == size,
            forall|i: int| 0 <= i < size ==> r@[i] == seq_bit(array@, i),
    {
        Bitmap { array, size }
    }

    /// Number of logical bits.
    pub fn len(&self) -> (r: usize)
        ensures
            r == self@.len(),
    {
        self.size
    }

    /// Reads one backing word; lets callers observe the stored pattern.
    pub fn storage_word(&self, index: usize) -> (r: u64)
        requires
            index < self.storage().len(),
        ensures
            r == self.storage()[index as int],
    {
        self.array[index]
    }

    /// Clear the entire bitmap (set all bits in `[0, size)` to zero). Whole
    /// backing words are zeroed in bulk; the remaining bits of a trailing
    /// partial word are cleared individually, so bits beyond `size` inside
    /// that word are left untouched.
    pub fn clear(&mut self)
        requires
            old(self).wf(),
        ensures
            final(self).wf(),
            final(self)@.len() == old(self)@.len(),
            final(self).storage().len() == old(self).storage().len(),
            forall|i: int| 0 <= i < final(self)@.len() ==> !final(self)@[i],
            forall|j: int|
                old(self)@.len() <= j < final(self).storage().len() * 64 ==> seq_bit(
                    final(self).storage(),
                    j,
                ) == seq_bit(old(self).storage(), j),
            forall|k: int| 0 <= k < old(self)@.len() as int / 64 ==> final(self).storage()[k] == 0,
            old(self)@.len() as int / 64 < old(self).storage().len()
                ==> final(self).storage()[old(self)@.len() as int / 64]
                == (old(self).storage()[old(self)@.len() as int / 64]
                & !low_mask((old(self)@.len() as int % 64) as u64)),
            forall|k: int|
                old(self)@.len() as int / 64 < k < old(self).storage().len()
                    ==> final(self).storage()[k] == old(self).storage()[k],
    {
        let ghost orig = self.array@;
        let full_blocks_count = self.size / 64;
        proof {
            let sz = self.size as int;
            let len = self.array@.len() as int;
            assert(sz / 64 <= len) by (nonlinear_arith)
                requires
                    0 <= sz <= len * 64,
            ;
        }
        let mut block: usize = 0;
        while block < full_blocks_count
            invariant
                self.size == old(self).size,
                self.wf(),
                block <= full_blocks_count,
                full_blocks_count == self.size / 64,
                full_blocks_count <= self.array@.len(),
                self.array@.len() == orig.len(),
                forall|k: int| 0 <= k < block ==> self.array@[k] == 0,
                forall|k: int| block <= k < orig.len() ==> self.array@[k] == orig[k],
            decreases full_blocks_count - block,
        {
            self.array[block] = 0;
            block += 1;
        }

        let mut bit = full_blocks_count * 64;
        proof {
            assert(full_blocks_count * 64 <= self.size
                && self.size - full_blocks_count * 64 < 64) by (nonlinear_arith)
                requires
                    full_blocks_count == self.size as int / 64,
                    self.size >= 0,
            ;
            if full_blocks_count < self.array@.len() {
                let w = self.array@[full_blocks_count as int];
                assert(w & !low_mask(0) == w) by (bit_vector);
            }
        }
        while bit < self.size
            invariant
                self.size == old(self).size,
                self.wf(),
                full_blocks_count == self.size / 64,
                full_blocks_count <= self.array@.len(),
                self.array@.len() == orig.len(),
                full_blocks_count * 64 <= bit <= self.size,
                self.size - full_blocks_count * 64 < 64,
                forall|k: int| 0 <= k < full_blocks_count ==> self.array@[k] == 0,
                forall|k: int| full_blocks_count < k < orig.len() ==> self.array@[k] == orig[k],
                full_blocks_count < orig.len() ==> self.array@[full_blocks_count as int] == (
                orig[full_blocks_count as int] & !low_mask((bit - full_blocks_count * 64) as u64)),
            decreases self.size - bit,
        {
            let ghost w_before = self.array@[full_blocks_count as int];
            let ghost n = bit - full_blocks_count as int * 64;
            proof {
                assert(full_blocks_count < self.array@.len()) by (nonlinear_arith)
                    requires
                        full_blocks_count as int * 64 <= bit < self.size,
                        self.size <= self.array@.len() * 64,
                ;
                lemma_div_mod_of_block(bit as int, full_blocks_count as int);
            }
            self.clear_bit(bit);
            proof {
                lemma_clear_low_step(orig[full_blocks_count as int], n as u64);
            }
            bit += 1;
        }
        proof {
            if full_blocks_count < self.array@.len() && full_blocks_count * 64 == self.size as int {
                let w = orig[full_blocks_count as int];
                assert(w & !low_mask(0) == w) by (bit_vector);
            }
            lemma_clear_view(old(self).array@, self.array@, self.size as int, full_blocks_count as int);
        }
    }

    /// Sets bit `bit` to one, leaving every other bit unchanged.
    pub fn set_bit(&mut self, bit: usize)
        requires
            old(self).wf(),
            bit < old(self)@.len(),
        ensures
            final(self).wf(),
            final(self)@.len() == old(self)@.len(),
            final(self)@ == old(self)@.update(bit as int, true),
            final(self).storage() == old(self).storage().update(
                bit as int / 64,
                (old(self).storage()[bit as int / 64] | (1u64 << ((bit % 64) as u64))) as u64,
            ),
    {
        proof {
            lemma_bit_index_in_storage(bit as int, self.array@.len() as int, self.size as int);
        }
        let index = bit / 64;
        let w = self.array[index];
        self.array[index] = w | (1u64 << ((bit % 64) as u64));
        proof {
            lemma_word_update_view(old(self).array@, self.array@, self.size as int, bit as int, true);
        }
    }

    /// Clears bit `bit` to zero, leaving every other bit unchanged.
    pub fn clear_bit(&mut self, bit: usize)
        requires
            old(self).wf(),
            bit < old(self)@.len(),
        ensures
            final(self).wf(),
            final(self)@.len() == old(self)@.len(),
            final(self)@ == old(self)@.update(bit as int, false),
            final(self).storage() == old(self).storage().update(
                bit as int / 64,
                (old(self).storage()[bit as int / 64] & !(1u64 << ((bit % 64) as u64))) as u64,
            ),
    {
        proof {
            lemma_bit_index_in_storage(bit as int, self.array@.len() as int, self.size as int);
        }
        let index = bit / 64;
        let w = self.array[index];
        self.array[index] = w & !(1u64 << ((bit % 64) as u64));
        proof {
            lemma_word_update_view(old(self).array@, self.array@, self.size as int, bit as int, false);
        }
    }

    /// Whether bit `bit` is currently set.
    pub fn is_bit_set(&self, bit: usize) -> (r: bool)
        requires
            self.wf(),
            bit < self@.len(),
        ensures
            r == self@[bit as int],
    {
        proof {
            lemma_bit_index_in_storage(bit as int, self.array@.len() as int, self.size as int);
        }
        let r = self.array[bit / 64] & (1u64 << ((bit % 64) as u64)) > 0;
        proof {
            let k = (bit % 64) as u64;
            let w = self.array@[bit as int / 64];
            assert((w & (1u64 << k) > 0) == word_bit(w, k)) by (bit_vector)
                requires
                    k < 64,
            ;
        }
        r
    }

    /// Scans for the lowest zero bit. Returns its index only if it lies below
    /// the logical size: a zero bit living in the unused tail of the last
    /// backing word yields no result. Returns nothing when every bit is one.
    pub fn find_first_zero(&self) -> (r: Option<usize>)
        requires
            self.wf(),
        ensures
            match r {
                Some(bit) => {
                    &&& bit < self@.len()
                    &&& !self@[bit as int]
                    &&& forall|j: int| 0 <= j < bit ==> self@[j]
                },
                None => forall|j: int| 0 <= j < self@.len() ==> self@[j],
            },
    {
        let mut block_index: usize = 0;
        while block_index < self.array.len()
            invariant
                self.wf(),
                block_index <= self.array@.len(),
                forall|j: int|
                    0 <= j < block_index * 64 && j < self.size ==> seq_bit(self.array@, j),
            decreases self.array@.len() - block_index,
        {
            let block = self.array[block_index];
            if block != u64::MAX {
                /* Current block contains at least one zero bit. */
                let mut b = block;
                let mut bit = block_index * 64;
                let ghost base = block_index as int * 64;
                let ghost mut s: u64 = 0;
                proof {
                    assert(block & low_mask(0) == low_mask(0)) by (bit_vector);
                    assert(block >> 0u64 == block) by (bit_vector);
                    lemma_block_base_bound(block_index as int, self.array@.len() as int);
                }
                while b % 2 == 1
                    invariant
                        self.wf(),
                        0 <= block_index < self.array@.len(),
                        block == self.array@[block_index as int],
                        block != u64::MAX,
                        base == block_index as int * 64,
                        base + 64 <= self.array@.len() * 64,
                        s < 64,
                        bit == base + s,
                        b == block >> s,
                        block & low_mask(s) == low_mask(s),
                    decreases b,
                {
                    proof {
                        assert(s < 63) by {
                            assert(!(block != u64::MAX && s == 63 && (block >> s) % 2 == 1
                                && block & low_mask(s) == low_mask(s))) by (bit_vector);
                        }
                        let s1 = (s + 1) as u64;
                        assert((block >> s) % 2 == 1 && s < 63 && s1 == s + 1 && block & low_mask(s)
                            == low_mask(s) ==> (block >> s1 == (block >> s) >> 1u64 && block
                            & low_mask(s1) == low_mask(s1) && (block >> s) >> 1u64 < block
                            >> s)) by (bit_vector);
                        s = s1;
                    }
                    b = b >> 1u64;
                    bit = bit + 1;
                }
                proof {
                    assert((block >> s) % 2 != 1 && s < 64 ==> !word_bit(block, s)) by (bit_vector);
                    assert(forall|t: u64|
                        t < s && block & low_mask(s) == low_mask(s) && s < 64 ==> word_bit(
                            block,
                            t,
                        )) by (bit_vector);
                }
                return if bit < self.size {
                    proof {
                        lemma_found_zero_view(self.array@, self.size as int, block_index as int, s);
                    }
                    Some(bit)
                } else {
                    proof {
                        lemma_tail_zero_view(self.array@, self.size as int, block_index as int, s);
                    }
                    None
                };
            }
            proof {
                lemma_full_block_view(self.array@, self.size as int, block_index as int);
            }
            block_index += 1;
        }
        None
    }
}

/// A bit index below the logical size addresses a word inside the storage.
proof fn lemma_bit_index_in_storage(bit: int, len: int, size: int)
    requires
        0 <= bit < size,
        size <= len * 64,
    ensures
        0 <= bit / 64 < len,
        0 <= bit % 64 < 64,
{
    assert(bit / 64 < len && bit % 64 < 64) by (nonlinear_arith)
        requires
            0 <= bit < size,
            size <= len * 64,
    ;
}

/// Base index of a block stays within the storage's bit range.
proof fn lemma_block_base_bound(block_index: int, len: int)
    requires
        0 <= block_index < len,
    ensures
        block_index * 64 + 64 <= len * 64,
{
    assert(block_index * 64 + 64 <= len * 64) by (nonlinear_arith)
        requires
            block_index < len,
    ;
}

/// A logical index inside block `q` splits as `q * 64 + r` with `r < 64`.
proof fn lemma_div_mod_of_block(i: int, q: int)
    requires
        q >= 0,
        q * 64 <= i < q * 64 + 64,
    ensures
        i / 64 == q,
        i % 64 == i - q * 64,
{
    assert(i / 64 == q && i % 64 == i - q * 64) by (nonlinear_arith)
        requires
            q >= 0,
            q * 64 <= i < q * 64 + 64,
    ;
}

/// Effect of OR-ing in a single-bit mask on each bit of a word.
proof fn lemma_or_bit(w: u64, n: u64, t: u64)
    requires
        n < 64,
        t < 64,
    ensures
        word_bit((w | (1u64 << n)) as u64, t) == (t == n || word_bit(w, t)),
{
    assert(word_bit((w | (1u64 << n)) as u64, t) == (t == n || word_bit(w, t))) by (bit_vector)
        requires
            n < 64,
            t < 64,
    ;
}

/// Effect of AND-ing with an inverted single-bit mask on each bit of a word.
proof fn lemma_and_not_bit(w: u64, n: u64, t: u64)
    requires
        n < 64,
        t < 64,
    ensures
        word_bit((w & !(1u64 << n)) as u64, t) == (t != n && word_bit(w, t)),
{
    assert(word_bit((w & !(1u64 << n)) as u64, t) == (t != n && word_bit(w, t))) by (bit_vector)
        requires
            n < 64,
            t < 64,
    ;
}

/// Clearing the next bit of a word whose low `n` bits are already cleared
/// clears exactly its low `n + 1` bits.
proof fn lemma_clear_low_step(w: u64, n: u64)
    requires
        n < 63,
    ensures
        ((w & !low_mask(n)) & !(1u64 << n)) as u64 == (w & !low_mask((n + 1) as u64)) as u64,
{
    assert(((w & !low_mask(n)) & !(1u64 << n)) as u64 == (w & !low_mask((n + 1) as u64)) as u64)
        by (bit_vector)
        requires
            n < 63,
    ;
}

/// Each bit of a word with its low `n` bits masked off.
proof fn lemma_and_not_low_mask_bit(w: u64, n: u64, t: u64)
    requires
        n < 64,
        t < 64,
    ensures
        word_bit((w & !low_mask(n)) as u64, t) == (n <= t && word_bit(w, t)),
{
    assert(word_bit((w & !low_mask(n)) as u64, t) == (n <= t && word_bit(w, t))) by (bit_vector)
        requires
            n < 64,
            t < 64,
    ;
}

/// Replacing one word so that a single bit changes updates the view at that
/// bit alone, and the storage at that word alone.
proof fn lemma_word_update_view(orig: Seq<u64>, cur: Seq<u64>, size: int, bit: int, v: bool)
    requires
        0 <= bit < size,
        size <= orig.len() * 64,
        cur.len() == orig.len(),
        cur == orig.update(
            bit / 64,
            if v {
                (orig[bit / 64] | (1u64 << ((bit % 64) as u64))) as u64
            } else {
                (orig[bit / 64] & !(1u64 << ((bit % 64) as u64))) as u64
            },
        ),
    ensures
        Seq::new(size as nat, |i: int| seq_bit(cur, i)) == Seq::new(
            size as nat,
            |i: int| seq_bit(orig, i),
        ).update(bit, v),
{
    lemma_bit_index_in_storage(bit, orig.len() as int, size);
    let k = (bit % 64) as u64;
    let w = orig[bit / 64];
    assert forall|i: int| 0 <= i < size implies seq_bit(cur, i) == if i == bit {
        v
    } else {
        seq_bit(orig, i)
    } by {
        lemma_bit_index_in_storage(i, orig.len() as int, size);
        if i / 64 == bit / 64 {
            lemma_div_mod_of_block(i, bit / 64);
            lemma_div_mod_of_block(bit, bit / 64);
            assert(i != bit ==> (i % 64) as u64 != k);
            assert(i == bit ==> (i % 64) as u64 == k);
            if v {
                lemma_or_bit(w, k, (i % 64) as u64);
            } else {
                lemma_and_not_bit(w, k, (i % 64) as u64);
            }
        }
    }
    assert(Seq::new(size as nat, |i: int| seq_bit(cur, i)) =~= Seq::new(
        size as nat,
        |i: int| seq_bit(orig, i),
    ).update(bit, v));
}

/// After bulk-zeroing the full blocks and clearing the head of the partial
/// block, every logical bit is clear and the tail is untouched.
proof fn lemma_clear_view(orig: Seq<u64>, cur: Seq<u64>, size: int, full: int)
    requires
        0 <= size <= orig.len() * 64,
        cur.len() == orig.len(),
        full == size / 64,
        forall|k: int| 0 <= k < full ==> cur[k] == 0,
        forall|k: int| full < k < orig.len() ==> cur[k] == orig[k],
        full < orig.len() ==> cur[full] == (orig[full] & !low_mask((size - full * 64) as u64)),
    ensures
        forall|i: int| 0 <= i < size ==> !seq_bit(cur, i),
        forall|j: int| size <= j < orig.len() * 64 ==> seq_bit(cur, j) == seq_bit(orig, j),
{
    assert(full * 64 <= size && size - full * 64 < 64) by (nonlinear_arith)
        requires
            full == size / 64,
            size >= 0,
    ;
    assert(forall|t: u64| t < 64 ==> !word_bit(0u64, t)) by (bit_vector);
    let m = (size - full * 64) as u64;
    assert forall|i: int| 0 <= i < size implies !seq_bit(cur, i) by {
        lemma_bit_index_in_storage(i, orig.len() as int, size);
        if i / 64 < full {
        } else {
            lemma_div_mod_of_block(i, full);
            lemma_and_not_low_mask_bit(orig[full], m, (i % 64) as u64);
        }
    }
    assert forall|j: int| size <= j < orig.len() * 64 implies seq_bit(cur, j) == seq_bit(
        orig,
        j,
    ) by {
        assert(0 <= j / 64 < orig.len() && 0 <= j % 64 < 64) by (nonlinear_arith)
            requires
                0 <= j < orig.len() * 64,
        ;
        if j / 64 == full {
            lemma_div_mod_of_block(j, full);
            lemma_and_not_low_mask_bit(orig[full], m, (j % 64) as u64);
        } else {
            assert(j / 64 > full) by (nonlinear_arith)
                requires
                    j >= size,
                    full * 64 <= size,
                    size - full * 64 < 64,
                    j / 64 != full,
                    j % 64 < 64,
                    j == 64 * (j / 64) + j % 64,
            ;
        }
    }
}

/// When the scan stops on a zero bit below the logical size, that bit is the
/// lowest zero of the whole bitmap.
proof fn lemma_found_zero_view(words: Seq<u64>, size: int, block_index: int, s: u64)
    requires
        size <= words.len() * 64,
        0 <= block_index < words.len(),
        s < 64,
        block_index * 64 + s < size,
        !word_bit(words[block_index], s),
        forall|t: u64| t < s ==> word_bit(words[block_index], t),
        forall|j: int| 0 <= j < block_index * 64 && j < size ==> seq_bit(words, j),
    ensures
        !seq_bit(words, block_index * 64 + s),
        forall|j: int| 0 <= j < block_index * 64 + s ==> seq_bit(words, j),
{
    let bit = block_index * 64 + s;
    lemma_div_mod_of_block(bit, block_index);
    assert forall|j: int| 0 <= j < bit implies seq_bit(words, j) by {
        if j >= block_index * 64 {
            lemma_div_mod_of_block(j, block_index);
        }
    }
}

/// When the scan stops on a zero bit at or past the logical size, every
/// logical bit is one.
proof fn lemma_tail_zero_view(words: Seq<u64>, size: int, block_index: int, s: u64)
    requires
        size <= words.len() * 64,
        0 <= block_index < words.len(),
        s < 64,
        size <= block_index * 64 + s,
        forall|t: u64| t < s ==> word_bit(words[block_index], t),
        forall|j: int| 0 <= j < block_index * 64 && j < size ==> seq_bit(words, j),
    ensures
        forall|j: int| 0 <= j < size ==> seq_bit(words, j),
{
    assert forall|j: int| 0 <= j < size implies seq_bit(words, j) by {
        if j >= block_index * 64 {
            lemma_div_mod_of_block(j, block_index);
        }
    }
}

/// Every bit of an all-ones block is set.
proof fn lemma_full_block_view(words: Seq<u64>, size: int, block_index: int)
    requires
        size <= words.len() * 64,
        0 <= block_index < words.len(),
        words[block_index] == u64::MAX,
    ensures
        forall|j: int|
            block_index * 64 <= j < block_index * 64 + 64 && j < size ==> seq_bit(words, j),
{
    assert(forall|t: u64| t < 64 ==> word_bit(u64::MAX, t)) by (bit_vector);
    assert forall|j: int|
        block_index * 64 <= j < block_index * 64 + 64 && j < size implies seq_bit(words, j) by {
        lemma_div_mod_of_block(j, block_index);
    }
}

/// A bit read reflects exactly the most recent write to that index: writing
/// `v` at `i` makes index `i` read `v` and leaves every other index alone.
/// Together with the contracts of `set_bit`, `clear_bit` and `clear`, this
/// pins the bitmap's contents under any sequence of in-range writes.
pub proof fn lemma_latest_write_wins(bits: Seq<bool>, i: int, j: int, v: bool)
    requires
        0 <= i < bits.len(),
        0 <= j < bits.len(),
    ensures
        bits.update(i, v)[i] == v,
        i != j ==> bits.update(i, v)[j] == bits[j],
{
}

/// Round trip: setting a bit and then clearing it leaves the bit unset, and
/// clearing then setting leaves it set; when the bit started in the opposite
/// state, the whole bitmap is restored exactly.
pub proof fn lemma_set_clear_round_trip(bits: Seq<bool>, i: int)
    requires
        0 <= i < bits.len(),
    ensures
        !bits.update(i, true).update(i, false)[i],
        bits.update(i, false).update(i, true)[i],
        !bits[i] ==> bits.update(i, true).update(i, false) == bits,
        bits[i] ==> bits.update(i, false).update(i, true) == bits,
{
    if !bits[i] {
        assert(bits.update(i, true).update(i, false) =~= bits);
    }
    if bits[i] {
        assert(bits.update(i, false).update(i, true) =~= bits);
    }
}

/// Exercises the bitmap over a single backing word of sixteen logical bits.
/// Every check is discharged statically, from the contracts alone.
pub fn bitmap_test() {
    let mut array: Vec<u64> = Vec::new();
    array.push(0);
    let mut bitmap = Bitmap::new(array, 16);
    bitmap.clear();
    let mut i: usize = 0;
    while i < 16
        invariant
            bitmap.wf(),
            bitmap@.len() == 16,
            forall|j: int| 0 <= j < 16 ==> !bitmap@[j],
            i <= 16,
        decreases 16 - i,
    {
        let set = bitmap.is_bit_set(i);
        assert(!set);
        i += 1;
    }
    assert(bitmap.storage()[0] == 0) by {
        assert(0u64 & !low_mask(16) == 0) by (bit_vector);
    }

    bitmap.set_bit(1);
    bitmap.set_bit(3);
    bitmap.set_bit(5);
    bitmap.set_bit(7);
    bitmap.set_bit(11);
    bitmap.set_bit(13);
    assert(bitmap.storage()[0] == 0b0010100010101010u64) by {
        assert((((((0u64 | (1u64 << 1)) | (1u64 << 3)) | (1u64 << 5)) | (1u64 << 7)) | (1u64
            << 11)) | (1u64 << 13) == 0b0010100010101010u64) by (bit_vector);
    }

    bitmap.clear_bit(5);
    bitmap.clear_bit(11);
    assert(bitmap.storage()[0] == 0b0010000010001010u64) by {
        assert((0b0010100010101010u64 & !(1u64 << 5)) & !(1u64 << 11)
            == 0b0010000010001010u64) by (bit_vector);
    }

    let mut array2: Vec<u64> = Vec::new();
    array2.push(0b0011110111111111u64);
    let bitmap2 = Bitmap::new(array2, 16);
    proof {
        assert(!word_bit(0b0011110111111111u64, 9)) by (bit_vector);
        assert(forall|t: u64| t < 9 ==> word_bit(0b0011110111111111u64, t)) by (bit_vector);
        assert forall|j: int| 0 <= j < 16 implies bitmap2@[j] == word_bit(
            0b0011110111111111u64,
            j as u64,
        ) by {
            lemma_div_mod_of_block(j, 0);
        }
    }
    let first_zero = bitmap2.find_first_zero();
    proof {
        assert(!bitmap2@[9]);
        assert(forall|j: int| 0 <= j < 9 ==> bitmap2@[j]);
    }
    assert(first_zero == Some(9usize));

    let mut array3: Vec<u64> = Vec::new();
    array3.push(0xffff_ffff_ffff_ffffu64);
    let bitmap3 = Bitmap::new(array3, 16);
    proof {
        assert(forall|t: u64| t < 64 ==> word_bit(0xffff_ffff_ffff_ffffu64, t)) by (bit_vector);
        assert forall|j: int| 0 <= j < 16 implies bitmap3@[j] by {
            lemma_div_mod_of_block(j, 0);
        }
    }
    let none_found = bitmap3.find_first_zero();
    assert(none_found is None);
}

} // verus!
