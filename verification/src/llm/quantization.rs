//! Quantization formats and the integer side of quantization.
use vstd::prelude::*;

verus! {

/// Storage format of weights.
#[derive(Debug, Clone, Copy, PartialEq, Eq, Structural)]
pub enum QuantizationType {
    /// No quantization: weights are kept as they are.
    Unquantized,
    F32,
    F16,
    BF16,
    Int8,
    Int4,
    Int3,
    FP8,
    Q8_0,
    Q4_0,
    Q4_1,
}

/// Quantization settings.
#[derive(Debug, Clone, Copy)]
pub struct QuantizationConfig {
    pub qtype: QuantizationType,
    pub group_size: usize,
    pub mixed_quantization: bool,
}

impl Default for QuantizationConfig {
    /// INT8, groups of 128, mixed quantization on.
    fn default() -> (r: Self)
        ensures
            r.qtype == QuantizationType::Int8,
            r.group_size == 128,
            r.mixed_quantization,
    {
        QuantizationConfig { qtype: QuantizationType::Int8, group_size: 128, mixed_quantization: true }
    }
}

/// Quantizer holding its settings.
pub struct Quantizer {
    config: QuantizationConfig,
}

/// Low four bits of a value.
pub open spec fn low_nibble(v: i8) -> u8 {
    (v & 0x0F) as u8
}

/// One packed byte: the first value in the low nibble, the second (if any)
/// in the high nibble.
pub open spec fn pack_pair(lo: i8, hi: Option<i8>) -> i8 {
    match hi {
        Some(h) => (low_nibble(lo) | (low_nibble(h) << 4u8)) as i8,
        None => low_nibble(lo) as i8,
    }
}

/// Packing of a whole sequence, two values per byte.
pub open spec fn packed_nibbles(data: Seq<i8>) -> Seq<i8> {
    Seq::new(
        ((data.len() + 1) / 2) as nat,
        |k: int|
            pack_pair(
                data[2 * k],
                if 2 * k + 1 < data.len() {
                    Some(data[2 * k + 1])
                } else {
                    None
                },
            ),
    )
}

impl Quantizer {
    /// A quantizer with the given settings.
    pub fn new(config: QuantizationConfig) -> (r: Self)
        ensures
            r.config_view() == config,
    {
        Quantizer { config }
    }

    /// The settings.
    pub closed spec fn config_view(&self) -> QuantizationConfig {
        self.config
    }

    /// The settings.
    pub fn config(&self) -> (r: QuantizationConfig)
        ensures
            r == self.config_view(),
    {
        self.config
    }

    /// Packs 4-bit values two per byte (low nibble first).
    pub fn compress_int4_to_half_byte(data: &[i8]) -> (r: Vec<i8>)
        ensures
            r@ == packed_nibbles(data@),
    {
        let mut result: Vec<i8> = Vec::new();
        let n = data.len();
        let out_len = n / 2 + n % 2;
        let mut j: usize = 0;
        while j < out_len
            invariant
                n == data@.len(),
                out_len == (n + 1) / 2,
                j <= out_len,
                result@.len() == j,
                forall|m: int| 0 <= m < j ==> result@[m] == packed_nibbles(data@)[m],
            decreases out_len - j,
        {
            let k = 2 * j;
            let lo = data[k];
            let mut byte: u8 = (lo & 0x0F) as u8;
            if k + 1 < n {
                let hi = data[k + 1];
                byte = byte | (((hi & 0x0F) as u8) << 4u8);
            }
            result.push(byte as i8);
            proof {
                assert(result@[j as int] == packed_nibbles(data@)[j as int]);
            }
            j += 1;
        }
        assert(result@ =~= packed_nibbles(data@));
        result
    }
}

/// Turns stored quantized weights back into values.
pub struct Dequantizer;

/// The 4-bit value at column `j` of a packed row: the low nibble of the
/// byte for even `j`, the high nibble for odd `j`.
pub open spec fn nibble_at(byte: u8, j: int) -> i8 {
    if j % 2 == 0 {
        (byte & 0x0F) as i8
    } else {
        ((byte >> 4u8) & 0x0F) as i8
    }
}

/// Position of the byte holding element `(i, j)` of a matrix packed two
/// values per byte, `cols / 2` bytes per row.
pub open spec fn packed_index(i: int, j: int, cols: int) -> int {
    i * (cols / 2) + j / 2
}

impl Dequantizer {
    /// The 4-bit values of a `rows` x `cols` matrix packed two per byte,
    /// row by row (each value read from byte `i * (cols / 2) + j / 2`).
    /// Every byte read must be present.
    pub fn unpack_int4(data: &[u8], rows: usize, cols: usize) -> (r: Vec<i8>)
        requires
            rows * cols <= usize::MAX,
            rows > 0 && cols > 0 ==> packed_index(rows - 1, cols - 1, cols as int) < data@.len(),
        ensures
            r@.len() == rows * cols,
            forall|i: int, j: int|
                0 <= i < rows && 0 <= j < cols ==> #[trigger] r@[i * cols + j] == nibble_at(
                    data@[packed_index(i, j, cols as int)],
                    j,
                ),
    {
        let mut out: Vec<i8> = Vec::new();
        let half = cols / 2;
        let n = data.len();
        let mut i: usize = 0;
        while i < rows
            invariant
                rows * cols <= usize::MAX,
                rows > 0 && cols > 0 ==> packed_index(rows - 1, cols - 1, cols as int) < data@.len(),
                half == cols / 2,
                n == data@.len(),
                i <= rows,
                out@.len() == i * cols,
                forall|a: int, b: int|
                    0 <= a < i && 0 <= b < cols ==> #[trigger] out@[a * cols + b] == nibble_at(
                        data@[packed_index(a, b, cols as int)],
                        b,
                    ),
            decreases rows - i,
        {
            let mut j: usize = 0;
            while j < cols
                invariant
                    rows * cols <= usize::MAX,
                    rows > 0 && cols > 0 ==> packed_index(rows - 1, cols - 1, cols as int) < data@.len(),
                    half == cols / 2,
                    n == data@.len(),
                    i < rows,
                    j <= cols,
                    out@.len() == i * cols + j,
                    forall|a: int, b: int|
                        0 <= a < i && 0 <= b < cols ==> #[trigger] out@[a * cols + b] == nibble_at(
                            data@[packed_index(a, b, cols as int)],
                            b,
                        ),
                    forall|b: int| 0 <= b < j ==> #[trigger] out@[i * cols + b] == nibble_at(
                        data@[packed_index(i as int, b, cols as int)],
                        b,
                    ),
                decreases cols - j,
            {
                proof {
                    lemma_packed_index_bound(i as int, j as int, rows as int, cols as int);
                    assert(i * half + j / 2 == packed_index(i as int, j as int, cols as int));
                    assert(i * half + j / 2 < n);
                    assert(i * cols + j < rows * cols) by (nonlinear_arith)
                        requires
                            i < rows,
                            j < cols,
                    ;
                }
                let k = i * half + j / 2;
                let byte = data[k];
                let q: i8 = if j % 2 == 0 {
                    (byte & 0x0F) as i8
                } else {
                    ((byte >> 4u8) & 0x0F) as i8
                };
                let ghost before = out@;
                out.push(q);
                proof {
                    assert forall|a: int, b: int|
                        0 <= a < i && 0 <= b < cols implies #[trigger] out@[a * cols + b] == nibble_at(
                            data@[packed_index(a, b, cols as int)],
                            b,
                        ) by {
                        assert(a * cols + b < i * cols) by (nonlinear_arith)
                            requires
                                a < i,
                                b < cols,
                        ;
                        assert(out@[a * cols + b] == before[a * cols + b]);
                    }
                }
                j += 1;
            }
            proof {
                assert(out@.len() == (i + 1) * cols) by (nonlinear_arith)
                    requires
                        out@.len() == i * cols + cols,
                ;
            }
            i += 1;
        }
        out
    }
}

proof fn lemma_packed_index_bound(i: int, j: int, rows: int, cols: int)
    requires
        0 <= i < rows,
        0 <= j < cols,
    ensures
        0 <= packed_index(i, j, cols) <= packed_index(rows - 1, cols - 1, cols),
{
    assert(0 <= i * (cols / 2)) by (nonlinear_arith)
        requires
            0 <= i,
            0 <= cols,
    ;
    assert(i * (cols / 2) <= (rows - 1) * (cols / 2)) by (nonlinear_arith)
        requires
            i <= rows - 1,
            0 <= cols,
    ;
    assert(j / 2 <= (cols - 1) / 2) by (nonlinear_arith)
        requires
            0 <= j <= cols - 1,
    ;
}

/// Unpacking packed 4-bit values gives back the low four bits of each.
pub proof fn lemma_unpack_packed(data: Seq<i8>, j: int)
    requires
        0 <= j < data.len(),
        data.len() % 2 == 0,
    ensures
        nibble_at(packed_nibbles(data)[j / 2] as u8, j) == (low_nibble(data[j]) as i8),
{
    let k = j / 2;
    assert(2 * k + 1 < data.len());
    let lo = data[2 * k];
    let hi = data[2 * k + 1];
    let b = pack_pair(lo, Some(hi));
    assert(packed_nibbles(data)[k] == b);
    let l = low_nibble(lo);
    let h = low_nibble(hi);
    assert(l < 16 && h < 16) by (bit_vector)
        requires
            l == (lo & 0x0F) as u8,
            h == (hi & 0x0F) as u8,
    ;
    if j % 2 == 0 {
        assert(j == 2 * k);
        assert((((l | (h << 4u8)) as i8) as u8 & 0x0F) as i8 == l as i8) by (bit_vector)
            requires
                l < 16,
                h < 16,
        ;
    } else {
        assert(j == 2 * k + 1);
        assert(((((l | (h << 4u8)) as i8) as u8 >> 4u8) & 0x0F) as i8 == h as i8) by (bit_vector)
            requires
                l < 16,
                h < 16,
        ;
    }
}

} // verus!
