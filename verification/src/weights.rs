//! The binary file of the routing classifier's weights: its header and the
//! places of its sections.
//!
//! The file starts with four little-endian `i32`: the number of labels, the
//! embedding size, the hidden size and the number of complexity classes. Then
//! come, as little-endian `f32`, the shared layer's weights (embedding × hidden)
//! and biases (hidden), the category head's weights (hidden × labels) and
//! biases (labels), and the complexity head's weights (hidden × complexities)
//! and biases (complexities). The values themselves are floats, and are read
//! by the caller from the places given here.

use vstd::prelude::*;

verus! {

/// A run of `count` little-endian `f32` values starting at byte `offset`.
pub struct Section {
    pub offset: usize,
    pub count: usize,
}

/// The sizes that the header gives and the places of the six sections.
pub struct WeightsLayout {
    pub num_labels: usize,
    pub embedding_dim: usize,
    pub hidden_dim: usize,
    pub num_complexities: usize,
    pub shared_w: Section,
    pub shared_b: Section,
    pub cat_w: Section,
    pub cat_b: Section,
    pub complexity_w: Section,
    pub complexity_b: Section,
}

/// Why a weights file cannot be read.
pub enum WeightsError {
    /// The file is shorter than its sixteen-byte header.
    TooSmall,
    /// The file is shorter than the header says it must be.
    Truncated { expected: usize, got: usize },
}

/// The little-endian `i32` at byte `at` of `b`.
pub open spec fn le_i32(b: Seq<u8>, at: int) -> i32 {
    (b[at] + 256 * b[at + 1] + 65536 * b[at + 2] + 16777216 * b[at + 3]) as u32 as i32
}

/// The size that the header gives at byte `at`, read as an `i32` and taken as a
/// `usize` (a negative number wraps around).
pub open spec fn header_size(b: Seq<u8>, at: int) -> usize {
    le_i32(b, at) as usize
}

/// The number of floats that the sizes `nl`, `e`, `h`, `nc` call for.
pub open spec fn float_count(nl: int, e: int, h: int, nc: int) -> int {
    e * h + h + h * nl + nl + h * nc + nc
}

/// The sizes of the header of `b` can be computed with: their products, and the
/// byte length of the whole file, fit in a `usize`.
pub open spec fn sizes_fit(b: Seq<u8>) -> bool {
    let nl = header_size(b, 0) as int;
    let e = header_size(b, 4) as int;
    let h = header_size(b, 8) as int;
    let nc = header_size(b, 12) as int;
    &&& e * h <= usize::MAX
    &&& h * nl <= usize::MAX
    &&& h * nc <= usize::MAX
    &&& 16 + 4 * float_count(nl, e, h, nc) <= usize::MAX
}

/// The layout of a file whose header gives the sizes `nl`, `e`, `h`, `nc`.
pub open spec fn layout_of(nl: usize, e: usize, h: usize, nc: usize) -> WeightsLayout {
    let o1 = 16 + 4 * (e * h);
    let o2 = o1 + 4 * h;
    let o3 = o2 + 4 * (h * nl);
    let o4 = o3 + 4 * nl;
    let o5 = o4 + 4 * (h * nc);
    WeightsLayout {
        num_labels: nl,
        embedding_dim: e,
        hidden_dim: h,
        num_complexities: nc,
        shared_w: Section { offset: 16, count: (e * h) as usize },
        shared_b: Section { offset: o1 as usize, count: h },
        cat_w: Section { offset: o2 as usize, count: (h * nl) as usize },
        cat_b: Section { offset: o3 as usize, count: nl },
        complexity_w: Section { offset: o4 as usize, count: (h * nc) as usize },
        complexity_b: Section { offset: o5 as usize, count: nc },
    }
}

/// The sections of `l` follow one another from the end of the header, each
/// four bytes per value, and the last ends within `n` bytes.
pub open spec fn sections_tile(l: WeightsLayout, n: int) -> bool {
    &&& l.shared_w.offset == 16
    &&& l.shared_b.offset == l.shared_w.offset + 4 * l.shared_w.count
    &&& l.cat_w.offset == l.shared_b.offset + 4 * l.shared_b.count
    &&& l.cat_b.offset == l.cat_w.offset + 4 * l.cat_w.count
    &&& l.complexity_w.offset == l.cat_b.offset + 4 * l.cat_b.count
    &&& l.complexity_b.offset == l.complexity_w.offset + 4 * l.complexity_w.count
    &&& l.complexity_b.offset + 4 * l.complexity_b.count <= n
}

/// The byte length that a file whose header is in `b` must have.
pub open spec fn expected_len(b: Seq<u8>) -> int {
    16 + 4 * float_count(
        header_size(b, 0) as int,
        header_size(b, 4) as int,
        header_size(b, 8) as int,
        header_size(b, 12) as int,
    )
}

/// The four bytes that hold `v` in little-endian order: lowest byte first.
pub open spec fn le_bytes(v: u32) -> Seq<u8> {
    seq![(v & 0xff) as u8, ((v >> 8) & 0xff) as u8, ((v >> 16) & 0xff) as u8, ((v >> 24) & 0xff) as u8]
}

/// Law: the size read at byte `at` is the `i32` whose little-endian bytes stand
/// there: four bytes that encode `v` read back as `v`, and the four bytes at
/// `at` are the encoding of what is read there.
pub proof fn lemma_le_i32_reads_le_bytes(b: Seq<u8>, at: int, v: u32)
    requires
        0 <= at,
        at + 4 <= b.len(),
    ensures
        b.subrange(at, at + 4) == le_bytes(v) ==> le_i32(b, at) == v as i32,
        le_bytes(le_i32(b, at) as u32) == b.subrange(at, at + 4),
{
    let b0 = b[at];
    let b1 = b[at + 1];
    let b2 = b[at + 2];
    let b3 = b[at + 3];
    if b.subrange(at, at + 4) == le_bytes(v) {
        assert(b0 == le_bytes(v)[0] && b1 == le_bytes(v)[1] && b2 == le_bytes(v)[2] && b3
            == le_bytes(v)[3]);
        assert(((v & 0xff) as u8) + 256 * (((v >> 8) & 0xff) as u8) + 65536 * (((v >> 16)
            & 0xff) as u8) + 16777216 * (((v >> 24) & 0xff) as u8) == v) by (bit_vector);
    }
    let sum: int = b0 + 256 * b1 + 65536 * b2 + 16777216 * b3;
    assert(0 <= sum <= u32::MAX);
    let w: u32 = sum as u32;
    assert(w == sum);
    assert(((w as i32) as u32) == w) by (bit_vector);
    assert(le_i32(b, at) as u32 == w);
    assert((w & 0xff) as u8 == b0 && ((w >> 8) & 0xff) as u8 == b1 && ((w >> 16) & 0xff) as u8
        == b2 && ((w >> 24) & 0xff) as u8 == b3) by (bit_vector)
        requires
            w == b0 + 256 * b1 + 65536 * b2 + 16777216 * b3,
    ;
    assert(le_bytes(w) =~= b.subrange(at, at + 4));
}

/// The sizes and sections of `l` are those that the header of `b` gives, each
/// section as long as its shape: the shared layer's weights are embedding ×
/// hidden and its biases hidden, the category head's weights hidden × labels and
/// its biases labels, the complexity head's weights hidden × complexities and its
/// biases complexities.
pub open spec fn header_gives(l: WeightsLayout, b: Seq<u8>) -> bool {
    let nl = header_size(b, 0);
    let e = header_size(b, 4);
    let h = header_size(b, 8);
    let nc = header_size(b, 12);
    &&& l.num_labels == nl
    &&& l.embedding_dim == e
    &&& l.hidden_dim == h
    &&& l.num_complexities == nc
    &&& l.shared_w.count == e * h
    &&& l.shared_b.count == h
    &&& l.cat_w.count == h * nl
    &&& l.cat_b.count == nl
    &&& l.complexity_w.count == h * nc
    &&& l.complexity_b.count == nc
}

/// Law: the layout of a file whose sizes fit has, for each section, the length
/// that its shape calls for, in the order shared weights, shared biases,
/// category weights, category biases, complexity weights, complexity biases,
/// packed one after the other from the end of the header; the last ends at the
/// byte length that the file must have.
pub proof fn lemma_layout_follows_header(b: Seq<u8>)
    requires
        b.len() >= 16,
        sizes_fit(b),
    ensures
        header_gives(
            layout_of(header_size(b, 0), header_size(b, 4), header_size(b, 8), header_size(b, 12)),
            b,
        ),
        sections_tile(
            layout_of(header_size(b, 0), header_size(b, 4), header_size(b, 8), header_size(b, 12)),
            expected_len(b),
        ),
        layout_of(
            header_size(b, 0),
            header_size(b, 4),
            header_size(b, 8),
            header_size(b, 12),
        ).complexity_b.offset + 4 * header_size(b, 12) == expected_len(b),
{
    let nl = header_size(b, 0) as int;
    let e = header_size(b, 4) as int;
    let h = header_size(b, 8) as int;
    let nc = header_size(b, 12) as int;
    assert(0 <= e * h) by (nonlinear_arith)
        requires
            0 <= e,
            0 <= h,
    ;
    assert(0 <= h * nl) by (nonlinear_arith)
        requires
            0 <= h,
            0 <= nl,
    ;
    assert(0 <= h * nc) by (nonlinear_arith)
        requires
            0 <= h,
            0 <= nc,
    ;
}

fn read_size(data: &[u8], at: usize) -> (r: usize)
    requires
        at + 4 <= data@.len(),
    ensures
        r == header_size(data@, at as int),
{
    let v: u32 = data[at] as u32 + 256 * (data[at + 1] as u32) + 65536 * (data[at + 2] as u32)
        + 16777216 * (data[at + 3] as u32);
    let s: i32 = v as i32;
    s as usize
}

/// Whether the sizes in the header of `data` can be computed with; a file
/// shorter than its header needs no computing.
pub fn sizes_can_be_computed(data: &[u8]) -> (r: bool)
    ensures
        r == (data@.len() < 16 || sizes_fit(data@)),
{
    if data.len() < 16 {
        return true;
    }
    let nl = read_size(data, 0);
    let e = read_size(data, 4);
    let h = read_size(data, 8);
    let nc = read_size(data, 12);
    let sw = match e.checked_mul(h) {
        Some(x) => x,
        None => return false,
    };
    let cw = match h.checked_mul(nl) {
        Some(x) => x,
        None => return false,
    };
    let xw = match h.checked_mul(nc) {
        Some(x) => x,
        None => return false,
    };
    // The sum of six terms, times four, plus sixteen, each step checked.
    let mut total: usize = sw;
    total = match total.checked_add(h) {
        Some(x) => x,
        None => return false,
    };
    total = match total.checked_add(cw) {
        Some(x) => x,
        None => return false,
    };
    total = match total.checked_add(nl) {
        Some(x) => x,
        None => return false,
    };
    total = match total.checked_add(xw) {
        Some(x) => x,
        None => return false,
    };
    total = match total.checked_add(nc) {
        Some(x) => x,
        None => return false,
    };
    total = match total.checked_mul(4) {
        Some(x) => x,
        None => return false,
    };
    match total.checked_add(16) {
        Some(_) => true,
        None => false,
    }
}

/// Reads the header of a weights file and places its sections.
pub fn parse_weights_layout(data: &[u8]) -> (r: Result<WeightsLayout, WeightsError>)
    requires
        data@.len() < 16 || sizes_fit(data@),
    ensures
        data@.len() < 16 ==> r matches Err(WeightsError::TooSmall),
        data@.len() >= 16 && data@.len() < expected_len(data@) ==> r == Err::<
            WeightsLayout,
            WeightsError,
        >(WeightsError::Truncated { expected: expected_len(data@) as usize, got: data@.len() as usize }),
        r matches Ok(l) ==> sections_tile(l, data@.len() as int),
        r matches Ok(l) ==> header_gives(l, data@),
        data@.len() >= 16 && data@.len() >= expected_len(data@) ==> r == Ok::<
            WeightsLayout,
            WeightsError,
        >(
            layout_of(
                header_size(data@, 0),
                header_size(data@, 4),
                header_size(data@, 8),
                header_size(data@, 12),
            ),
        ),
{
    if data.len() < 16 {
        return Err(WeightsError::TooSmall);
    }
    let nl = read_size(data, 0);
    let e = read_size(data, 4);
    let h = read_size(data, 8);
    let nc = read_size(data, 12);
    let sw = e * h;
    let sb = h;
    let cw = h * nl;
    let cb = nl;
    let xw = h * nc;
    let xb = nc;
    let expected = 16 + (sw + sb + cw + cb + xw + xb) * 4;
    if data.len() < expected {
        return Err(WeightsError::Truncated { expected, got: data.len() });
    }
    let o1 = 16 + sw * 4;
    let o2 = o1 + sb * 4;
    let o3 = o2 + cw * 4;
    let o4 = o3 + cb * 4;
    let o5 = o4 + xw * 4;
    Ok(
        WeightsLayout {
            num_labels: nl,
            embedding_dim: e,
            hidden_dim: h,
            num_complexities: nc,
            shared_w: Section { offset: 16, count: sw },
            shared_b: Section { offset: o1, count: sb },
            cat_w: Section { offset: o2, count: cw },
            cat_b: Section { offset: o3, count: cb },
            complexity_w: Section { offset: o4, count: xw },
            complexity_b: Section { offset: o5, count: xb },
        },
    )
}

} // verus!
