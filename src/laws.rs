//! Properties of the `.npy` stream that hold for every array.
use crate::array::{array_wf, ArrayModel};
use crate::bytes::{endian_symbol, Order};
use crate::dtype::{dtype_width, DType};
use crate::header::{head_middle, padding};
use crate::bytes::le_bytes;
use crate::writer::{magic, spaces, version, element_bytes, element_chunk, header_len, header_of, npy_bytes};
use vstd::prelude::*;

verus! {

/// Where the payload starts: after the preamble and the padded header.
pub open spec fn payload_start(o: Order, m: ArrayModel) -> nat {
    10 + header_len(o, m)
}

/// The padded header ends on a 16-byte boundary, and padding is never a
/// full 16 bytes: a header that already ends on the boundary gets none.
pub proof fn lemma_header_aligned(o: Order, m: ArrayModel)
    ensures
        (10 + header_len(o, m)) % 16 == 0,
        padding(header_of(o, m).len()) < 16,
        (10 + header_of(o, m).len()) % 16 == 0 ==> padding(header_of(o, m).len()) == 0,
{
}

/// In the stream itself, the length field reads `L` (least significant byte
/// first), `10 + L` is a multiple of 16, the header text `H` starts at byte
/// 10, `H.len() <= L < H.len() + 16`, and bytes `10 + H.len() .. 10 + L` are
/// spaces.
pub proof fn lemma_padded_header(o: Order, m: ArrayModel)
    requires
        crate::writer::header_fits(m),
    ensures
        ({
            let s = npy_bytes(o, m);
            let h = header_of(o, m);
            let l = header_len(o, m);
            &&& s[8] as nat + 256 * (s[9] as nat) == l
            &&& (10 + l) % 16 == 0
            &&& h.len() <= l < h.len() + 16
            &&& s.subrange(10, 10 + h.len() as int) == h
            &&& forall|i: int| 10 + h.len() <= i < 10 + l ==> #[trigger] s[i] == 32
        }),
{
    let s = npy_bytes(o, m);
    let l = header_len(o, m);
    crate::decode::lemma_stream_split(o, m);
    lemma_header_aligned(o, m);
    assert(header_of(o, m).len() == header_of(Order::Little, m).len());
    assert(l <= 65535);
    reveal_with_fuel(le_bytes, 3);
    let b = le_bytes(l, 2);
    assert(b == seq![(l % 256) as u8] + (seq![((l / 256) % 256) as u8] + Seq::<u8>::empty()));
    assert(s[8] == s.subrange(8, 10)[0] && s[9] == s.subrange(8, 10)[1]);
    assert(s[8] as nat == l % 256);
    assert((l / 256) % 256 == l / 256);
    assert(s[9] as nat == l / 256);
}

proof fn lemma_element_bytes_len(o: Order, d: DType, data: Seq<u64>)
    ensures
        element_bytes(o, d, data).len() == data.len() * dtype_width(d),
    decreases data.len(),
{
    if data.len() > 0 {
        lemma_element_bytes_len(o, d, data.drop_last());
        crate::bytes::lemma_order_bytes_len(o, data.last() as nat, dtype_width(d));
        assert(data.len() * dtype_width(d) == (data.len() - 1) * dtype_width(d) + dtype_width(d))
            by (nonlinear_arith);
    }
}

/// Element `i` of `data` stands at bytes `[i * w, (i + 1) * w)` of the payload.
pub proof fn lemma_element_at(o: Order, d: DType, data: Seq<u64>, i: int)
    requires
        0 <= i < data.len(),
    ensures
        element_bytes(o, d, data).subrange(i * dtype_width(d), (i + 1) * dtype_width(d))
            == element_chunk(o, d, data[i]),
    decreases data.len(),
{
    let w = dtype_width(d);
    let last = data.len() - 1;
    lemma_element_bytes_len(o, d, data.drop_last());
    crate::bytes::lemma_order_bytes_len(o, data.last() as nat, w);
    let pre = element_bytes(o, d, data.drop_last());
    let e = element_bytes(o, d, data);
    assert(e == pre + element_chunk(o, d, data.last()));
    if i == last {
        assert(i * w == pre.len()) by (nonlinear_arith)
            requires
                pre.len() == (data.len() - 1) * w,
                i == data.len() - 1,
        ;
        assert((i + 1) * w == i * w + w) by (nonlinear_arith);
        assert(e.subrange(i * w, (i + 1) * w) =~= element_chunk(o, d, data[i]));
    } else {
        lemma_element_at(o, d, data.drop_last(), i);
        assert((i + 1) * w <= pre.len()) by (nonlinear_arith)
            requires
                pre.len() == (data.len() - 1) * w,
                i + 1 <= data.len() - 1,
        ;
        assert(0 <= i * w) by (nonlinear_arith)
            requires
                0 <= i,
        ;
        assert((i + 1) * w == i * w + w) by (nonlinear_arith);
        assert(e.subrange(i * w, (i + 1) * w) =~= pre.subrange(i * w, (i + 1) * w));
    }
}

/// The stream declares the byte order that it encodes every element in:
/// the header's endian symbol is that of `o`, and the payload is the
/// elements in byte order `o`.
pub proof fn lemma_endian_consistent(o: Order, m: ArrayModel)
    ensures
        npy_bytes(o, m)[21] == endian_symbol(o),
        npy_bytes(o, m).subrange(payload_start(o, m) as int, npy_bytes(o, m).len() as int)
            == element_bytes(o, m.dtype, m.data),
{
    let s = npy_bytes(o, m);
    let h = header_of(o, m);
    crate::bytes::lemma_order_bytes_len(Order::Little, header_len(o, m), 2);
    let pre = magic() + version() + le_bytes(header_len(o, m), 2);
    assert(pre.len() == 10);
    let pad = spaces(padding(h.len()));
    assert(s == pre + h + pad + element_bytes(o, m.dtype, m.data));
    assert(h[11] == endian_symbol(o));
    assert(s[21] == h[11]);
    assert(s.subrange(payload_start(o, m) as int, s.len() as int) =~= element_bytes(
        o,
        m.dtype,
        m.data,
    ));
}

/// The header always claims row-major order (`'fortran_order': False`), and
/// element `i` of the row-major sequence is written at
/// `payload_start + i * width`.
pub proof fn lemma_row_major(o: Order, m: ArrayModel, i: int)
    requires
        0 <= i < m.data.len(),
    ensures
        header_of(o, m).subrange(14, 49) == head_middle(),
        npy_bytes(o, m).subrange(
            payload_start(o, m) + i * dtype_width(m.dtype),
            payload_start(o, m) + (i + 1) * dtype_width(m.dtype),
        ) == element_chunk(o, m.dtype, m.data[i]),
{
    let w = dtype_width(m.dtype);
    let p = payload_start(o, m) as int;
    let s = npy_bytes(o, m);
    assert(header_of(o, m).subrange(14, 49) =~= head_middle());
    lemma_endian_consistent(o, m);
    lemma_element_at(o, m.dtype, m.data, i);
    lemma_element_bytes_len(o, m.dtype, m.data);
    let e = element_bytes(o, m.dtype, m.data);
    assert(0 <= i * w && (i + 1) * w <= e.len()) by (nonlinear_arith)
        requires
            0 <= i < m.data.len(),
            e.len() == m.data.len() * w,
    ;
    assert(s.subrange(p + i * w, p + (i + 1) * w) =~= e.subrange(i * w, (i + 1) * w));
}

/// Arrays with the same contents, written in the same byte order, give the
/// same bytes.
pub proof fn lemma_deterministic(o: Order, a: ArrayModel, b: ArrayModel)
    requires
        a.dtype == b.dtype,
        a.shape == b.shape,
        a.data == b.data,
    ensures
        npy_bytes(o, a) == npy_bytes(o, b),
{
    assert(a == b);
}

} // verus!
