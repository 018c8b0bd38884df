//! The `.npy` byte stream: magic prefix, version, header length, padded
//! header, then the element payload.
use crate::array::{array_wf, ArrayModel, NpyArray};
use crate::bytes::{le_bytes, le_u16, order_bytes, push_uint, resolve, Endian, Order};
use crate::dtype::{dtype_width, DType};
use crate::header::{get_header, header_text, padding, padding_for, push_bytes, MAX_HEADER_LEN};
use vstd::prelude::*;

verus! {

/// Why an array could not be written.
#[derive(Clone, Copy, Debug, PartialEq, Eq, Structural)]
pub enum NpyError {
    /// The padded header does not fit the 16-bit length field.
    HeaderTooLarge,
    /// The sink refused a write.
    IoFailure,
}

/// The magic prefix `\x93NUMPY`.
pub open spec fn magic() -> Seq<u8> {
    seq![147u8, 78, 85, 77, 80, 89]
}

/// The format version 1.0.
pub open spec fn version() -> Seq<u8> {
    seq![1u8, 0]
}

/// `n` ASCII spaces.
pub open spec fn spaces(n: nat) -> Seq<u8> {
    Seq::new(n, |i: int| 32u8)
}

/// The bytes of one element with bit pattern `x`.
pub open spec fn element_chunk(o: Order, d: DType, x: u64) -> Seq<u8> {
    order_bytes(o, x as nat, dtype_width(d))
}

/// The payload: every element in turn, in byte order `o`.
pub open spec fn element_bytes(o: Order, d: DType, data: Seq<u64>) -> Seq<u8>
    decreases data.len(),
{
    if data.len() == 0 {
        Seq::empty()
    } else {
        element_bytes(o, d, data.drop_last()) + element_chunk(o, d, data.last())
    }
}

/// The header text of array `m` written in byte order `o`.
pub open spec fn header_of(o: Order, m: ArrayModel) -> Seq<u8> {
    header_text(o, m.dtype, m.shape)
}

/// The length of the padded header, as the length field states it.
pub open spec fn header_len(o: Order, m: ArrayModel) -> nat {
    header_of(o, m).len() + padding(header_of(o, m).len())
}

/// The padded header fits the 16-bit length field (the byte order has no
/// bearing on it: its symbol is one byte either way).
pub open spec fn header_fits(m: ArrayModel) -> bool {
    header_len(Order::Little, m) <= 65535
}

/// The whole `.npy` stream for array `m` in byte order `o`.
pub open spec fn npy_bytes(o: Order, m: ArrayModel) -> Seq<u8> {
    magic() + version() + le_bytes(header_len(o, m), 2) + header_of(o, m) + spaces(
        padding(header_of(o, m).len()),
    ) + element_bytes(o, m.dtype, m.data)
}

/// Whether a caller's selection `e` allows byte order `o`.
pub open spec fn selects(e: Endian, o: Order) -> bool {
    match e {
        Endian::Little => o == Order::Little,
        Endian::Big => o == Order::Big,
        Endian::Native => true,
    }
}

/// The pieces of the stream, one per write to the sink: magic, version,
/// length field, header text, each padding space, each element.
pub open spec fn write_chunks(o: Order, m: ArrayModel) -> Seq<Seq<u8>> {
    seq![magic(), version(), le_bytes(header_len(o, m), 2), header_of(o, m)] + Seq::new(
        padding(header_of(o, m).len()),
        |i: int| seq![32u8],
    ) + m.data.map_values(|x: u64| element_chunk(o, m.dtype, x))
}

/// The pieces `cs` one after the other.
pub open spec fn concat(cs: Seq<Seq<u8>>) -> Seq<u8>
    decreases cs.len(),
{
    if cs.len() == 0 {
        Seq::empty()
    } else {
        concat(cs.drop_last()) + cs.last()
    }
}

proof fn lemma_header_len_any_order(o: Order, m: ArrayModel)
    ensures
        header_of(o, m).len() == header_of(Order::Little, m).len(),
        header_len(o, m) == header_len(Order::Little, m),
{
}

pub(crate) proof fn lemma_concat_append(a: Seq<Seq<u8>>, b: Seq<Seq<u8>>)
    ensures
        concat(a + b) == concat(a) + concat(b),
    decreases b.len(),
{
    if b.len() == 0 {
        assert(a + b =~= a);
        assert(concat(b) =~= Seq::<u8>::empty());
        assert(concat(a) + concat(b) =~= concat(a));
    } else {
        lemma_concat_append(a, b.drop_last());
        assert((a + b).drop_last() =~= a + b.drop_last());
        assert((a + b).last() == b.last());
        assert(concat(a + b) =~= concat(a) + concat(b));
    }
}

proof fn lemma_concat_spaces(n: nat)
    ensures
        concat(Seq::new(n, |i: int| seq![32u8])) == spaces(n),
    decreases n,
{
    let cs = Seq::new(n, |i: int| seq![32u8]);
    if n == 0 {
        assert(concat(cs) =~= spaces(n));
    } else {
        lemma_concat_spaces((n - 1) as nat);
        assert(cs.drop_last() =~= Seq::new((n - 1) as nat, |i: int| seq![32u8]));
        assert(concat(cs) =~= spaces(n));
    }
}

proof fn lemma_concat_elements(o: Order, d: DType, data: Seq<u64>)
    ensures
        concat(data.map_values(|x: u64| element_chunk(o, d, x))) == element_bytes(o, d, data),
    decreases data.len(),
{
    let cs = data.map_values(|x: u64| element_chunk(o, d, x));
    if data.len() == 0 {
        assert(concat(cs) =~= element_bytes(o, d, data));
    } else {
        lemma_concat_elements(o, d, data.drop_last());
        assert(cs.drop_last() =~= data.drop_last().map_values(|x: u64| element_chunk(o, d, x)));
    }
}

/// The pieces of the stream, written one after the other, are the stream.
pub proof fn lemma_chunks_make_stream(o: Order, m: ArrayModel)
    ensures
        concat(write_chunks(o, m)) == npy_bytes(o, m),
{
    let head = seq![magic(), version(), le_bytes(header_len(o, m), 2), header_of(o, m)];
    let pad = Seq::new(padding(header_of(o, m).len()), |i: int| seq![32u8]);
    let els = m.data.map_values(|x: u64| element_chunk(o, m.dtype, x));
    lemma_concat_append(head + pad, els);
    lemma_concat_append(head, pad);
    lemma_concat_spaces(padding(header_of(o, m).len()));
    lemma_concat_elements(o, m.dtype, m.data);
    reveal_with_fuel(concat, 5);
    assert(head.drop_last().drop_last().drop_last().drop_last() =~= Seq::<Seq<u8>>::empty());
    assert(concat(head) =~= magic() + version() + le_bytes(header_len(o, m), 2) + header_of(o, m));
    assert(concat(write_chunks(o, m)) =~= npy_bytes(o, m));
}

/// The header text, its padding and its length field, or `HeaderTooLarge`.
pub(crate) fn header_parts(array: &NpyArray, o: Order) -> (r: Result<(Vec<u8>, usize, u16), NpyError>)
    ensures
        r is Err <==> !header_fits(array@),
        r is Err ==> r == Err::<(Vec<u8>, usize, u16), NpyError>(NpyError::HeaderTooLarge),
        r is Ok ==> ({
            let (h, pad, len) = r.unwrap();
            &&& h@ == header_of(o, array@)
            &&& pad as nat == padding(h@.len())
            &&& len as nat == header_len(o, array@)
        }),
{
    proof { lemma_header_len_any_order(o, array@); }
    let header = get_header(o, array.dtype(), array.shape());
    if header.len() > MAX_HEADER_LEN {
        return Err(NpyError::HeaderTooLarge);
    }
    let pad = padding_for(header.len());
    let total: usize = header.len() + pad;
    if total > MAX_HEADER_LEN {
        return Err(NpyError::HeaderTooLarge);
    }
    Ok((header, pad, total as u16))
}

/// Appends the payload: each element's bytes in byte order `o`.
fn push_elements(out: &mut Vec<u8>, o: Order, d: DType, data: &Vec<u64>)
    requires
        forall|i: int| 0 <= i < data@.len() ==> crate::dtype::fits_dtype(d, #[trigger] data@[i]),
    ensures
        final(out)@ == old(out)@ + element_bytes(o, d, data@),
{
    let w = d.width();
    let mut i: usize = 0;
    assert(data@.subrange(0, 0) =~= Seq::<u64>::empty());
    assert(old(out)@ =~= old(out)@ + element_bytes(o, d, data@.subrange(0, 0)));
    while i < data.len()
        invariant
            i <= data@.len(),
            w as nat == dtype_width(d),
            forall|i: int| 0 <= i < data@.len() ==> crate::dtype::fits_dtype(d, #[trigger] data@[i]),
            out@ == old(out)@ + element_bytes(o, d, data@.subrange(0, i as int)),
        decreases data@.len() - i,
    {
        let x = data[i];
        assert(crate::dtype::fits_dtype(d, data@[i as int]));
        push_uint(out, o, x, w);
        i = i + 1;
        proof {
            let s = data@.subrange(0, i as int);
            assert(s.drop_last() =~= data@.subrange(0, i - 1));
            assert(out@ =~= old(out)@ + element_bytes(o, d, s));
        }
    }
    assert(data@.subrange(0, data@.len() as int) =~= data@);
}

/// Appends the `.npy` stream of `array` in byte order `o` to `out`; on
/// `HeaderTooLarge` nothing is appended.
pub fn write_ordered(out: &mut Vec<u8>, array: &NpyArray, o: Order) -> (r: Result<(), NpyError>)
    ensures
        r is Ok <==> header_fits(array@),
        r is Ok ==> final(out)@ == old(out)@ + npy_bytes(o, array@),
        r is Err ==> r == Err::<(), NpyError>(NpyError::HeaderTooLarge) && final(out)@ == old(out)@,
{
    array.lemma_wf();
    let (header, pad, len) = match header_parts(array, o) {
        Ok(p) => p,
        Err(e) => return Err(e),
    };
    let m: [u8; 6] = [147u8, 78, 85, 77, 80, 89];
    let v: [u8; 2] = [1u8, 0];
    assert(m@ =~= magic());
    assert(v@ =~= version());
    push_bytes(out, m.as_slice());
    push_bytes(out, v.as_slice());
    push_bytes(out, le_u16(len).as_slice());
    push_bytes(out, header.as_slice());
    let ghost before_pad = out@;
    let mut i: usize = 0;
    while i < pad
        invariant
            i <= pad,
            out@ == before_pad + spaces(i as nat),
        decreases pad - i,
    {
        out.push(32u8);
        i = i + 1;
        assert(out@ =~= before_pad + spaces(i as nat));
    }
    push_elements(out, o, array.dtype(), array.data());
    assert(final(out)@ =~= old(out)@ + npy_bytes(o, array@));
    Ok(())
}

/// Appends the `.npy` stream of `array` to `out`, in the byte order that
/// `endian` selects (`Native` is resolved to the machine's); on
/// `HeaderTooLarge` nothing is appended.
pub fn write(out: &mut Vec<u8>, array: &NpyArray, endian: Endian) -> (r: Result<(), NpyError>)
    ensures
        r is Ok <==> header_fits(array@),
        r is Ok ==> exists|o: Order|
            selects(endian, o) && final(out)@ == old(out)@ + npy_bytes(o, array@),
        r is Err ==> r == Err::<(), NpyError>(NpyError::HeaderTooLarge) && final(out)@ == old(out)@,
{
    let o = resolve(endian);
    let r = write_ordered(out, array, o);
    assert(selects(endian, o));
    r
}

} // verus!
