//! Row vectors over the two-element field, and their packing into
//! byte streams, most significant bit first.

use vstd::prelude::*;

verus! {

/// Bit `i` of the vector, or zero past its end.
pub open spec fn bit_at(bits: Seq<u8>, i: int) -> u8 {
    if 0 <= i < bits.len() {
        bits[i]
    } else {
        0
    }
}

/// The byte packing bits `8k` to `8k + 7`, most significant first,
/// after the first `j` of them have been placed.
pub open spec fn pack_bits(bits: Seq<u8>, k: int, j: int) -> u8
    decreases j,
{
    if j <= 0 {
        0u8
    } else {
        pack_bits(bits, k, j - 1) | ((bit_at(bits, 8 * k + j - 1) as u8) << ((7 - (j
            - 1)) as u32))
    }
}

proof fn lemma_pack_pad(bits: Seq<u8>, k: int, j: int)
    requires
        0 <= j <= 8,
        8 * k + j >= bits.len(),
    ensures
        pack_bits(bits, k, 8) == pack_bits(bits, k, j),
    decreases 8 - j,
{
    if j < 8 {
        assert(bit_at(bits, 8 * k + j) == 0);
        let p = pack_bits(bits, k, j);
        let sh: u32 = (7 - j) as u32;
        assert((p | (0u8 << sh)) == p) by (bit_vector);
        assert(pack_bits(bits, k, j + 1) == p);
        lemma_pack_pad(bits, k, j + 1);
    }
}

/// A row vector on the two-element field: one byte per entry, each
/// zero or one.
pub struct RowVec {
    bits: Vec<u8>,
}

impl RowVec {
    /// The entries of the vector.
    pub closed spec fn view(&self) -> Seq<u8> {
        self.bits@
    }

    /// Every entry is a field element: zero or one.
    pub open spec fn wf(&self) -> bool {
        forall|i: int| 0 <= i < self.view().len() ==> self.view()[i] <= 1
    }

    /// The all-zero vector of the given width.
    pub fn zero(cols: usize) -> (r: RowVec)
        ensures
            r.view().len() == cols,
            forall|i: int| 0 <= i < cols ==> r.view()[i] == 0,
            r.wf(),
    {
        let mut bits: Vec<u8> = Vec::new();
        let mut i: usize = 0;
        while i < cols
            invariant
                i <= cols,
                bits@.len() == i,
                forall|j: int| 0 <= j < i ==> bits@[j] == 0,
            decreases cols - i,
        {
            bits.push(0);
            i += 1;
        }
        RowVec { bits }
    }

    /// The number of entries.
    pub fn cols(&self) -> (r: usize)
        ensures
            r == self.view().len(),
    {
        self.bits.len()
    }

    /// Entry `i` of the vector.
    pub fn get(&self, i: usize) -> (r: u8)
        requires
            i < self.view().len(),
        ensures
            r == self.view()[i as int],
    {
        self.bits[i]
    }

    /// Packs the entries into bytes, eight to a byte, most significant
    /// bit first; a trailing partial byte is padded with zero bits.
    pub fn to_bytes(&self) -> (r: Vec<u8>)
        ensures
            r@.len() == (self.view().len() + 7) / 8,
            forall|k: int| 0 <= k < r@.len() ==> r@[k] == pack_bits(self.view(), k, 8),
    {
        let cols = self.bits.len();
        let mut vec: Vec<u8> = Vec::new();
        let mut byte: u8 = 0;
        let mut shift: u32 = 7;
        let mut i: usize = 0;
        while i < cols
            invariant
                i <= cols,
                cols == self.view().len(),
                shift == 7 - (i % 8),
                vec@.len() == i / 8,
                byte == pack_bits(self.view(), (i / 8) as int, (i % 8) as int),
                forall|k: int| 0 <= k < vec@.len() ==> vec@[k] == pack_bits(self.view(), k, 8),
            decreases cols - i,
        {
            proof {
                vstd::arithmetic::div_mod::lemma_fundamental_div_mod(i as int, 8);
                vstd::arithmetic::div_mod::lemma_mod_bound(i as int, 8);
                vstd::arithmetic::div_mod::lemma_fundamental_div_mod(i + 1, 8);
                vstd::arithmetic::div_mod::lemma_mod_bound(i + 1, 8);
            }
            byte |= self.bits[i] << shift;
            if shift == 0 {
                vec.push(byte);
                byte = 0;
                shift = 7;
            } else {
                shift -= 1;
            }
            i += 1;
        }
        proof {
            vstd::arithmetic::div_mod::lemma_fundamental_div_mod(cols as int, 8);
            vstd::arithmetic::div_mod::lemma_mod_bound(cols as int, 8);
        }
        if cols % 8 != 0 {
            proof {
                lemma_pack_pad(self.view(), (cols / 8) as int, (cols % 8) as int);
            }
            vec.push(byte);
        }
        vec
    }

    /// Unpacks `cols` entries from a byte stream, eight to a byte,
    /// most significant bit first; missing bytes read as zero.
    pub fn from_bytes(vec: &[u8], cols: usize) -> (r: RowVec)
        ensures
            r.view().len() == cols,
            forall|i: int|
                0 <= i < cols ==> r.view()[i] == (if i / 8 < vec@.len() {
                    (vec@[i / 8] >> ((7 - (i % 8)) as u32)) & 1
                } else {
                    0u8
                }),
            r.wf(),
    {
        let mut bits: Vec<u8> = Vec::new();
        let mut i: usize = 0;
        while i < cols
            invariant
                i <= cols,
                bits@.len() == i,
                forall|j: int|
                    0 <= j < i ==> bits@[j] == (if j / 8 < vec@.len() {
                        (vec@[j / 8] >> ((7 - (j % 8)) as u32)) & 1
                    } else {
                        0u8
                    }),
                forall|j: int| 0 <= j < i ==> bits@[j] <= 1,
            decreases cols - i,
        {
            proof {
                vstd::arithmetic::div_mod::lemma_fundamental_div_mod(i as int, 8);
                vstd::arithmetic::div_mod::lemma_mod_bound(i as int, 8);
            }
            let k = i / 8;
            let sh: u32 = 7 - (i % 8) as u32;
            let b: u8 = if k < vec.len() {
                (vec[k] >> sh) & 1
            } else {
                0
            };
            proof {
                let vb: u8 = if k < vec@.len() {
                    vec@[k as int]
                } else {
                    0
                };
                assert(((vb >> sh) & 1) <= 1) by (bit_vector);
            }
            bits.push(b);
            i += 1;
        }
        RowVec { bits }
    }
}

} // verus!
