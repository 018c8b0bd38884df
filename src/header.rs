//! The textual header and its alignment.
use crate::bytes::{endian_symbol, Order};
use crate::dtype::{dtype_tag, DType};
use vstd::prelude::*;

verus! {

/// Bytes before the header text: magic prefix (6), version (2) and the
/// header length field (2).
pub const PREAMBLE_LEN: usize = 10;

/// The largest header length that the 16-bit length field holds.
pub const MAX_HEADER_LEN: usize = 65535;

/// The decimal digits of `n`, most significant first, without leading zeros.
pub open spec fn digits(n: nat) -> Seq<u8>
    decreases n,
{
    if n < 10 {
        seq![(48 + n) as u8]
    } else {
        digits(n / 10) + seq![(48 + n % 10) as u8]
    }
}

/// The dimensions of `shape` in decimal, joined by commas.
pub open spec fn joined_dims(shape: Seq<usize>) -> Seq<u8>
    decreases shape.len(),
{
    if shape.len() == 0 {
        Seq::empty()
    } else if shape.len() == 1 {
        digits(shape[0] as nat)
    } else {
        joined_dims(shape.drop_last()) + seq![44u8] + digits(shape.last() as nat)
    }
}

/// The inside of the shape tuple: the dimensions joined by commas, with a
/// trailing comma where there is exactly one, so that `(d0,)` reads as a
/// one-tuple and not as a number.
pub open spec fn dims_text(shape: Seq<usize>) -> Seq<u8> {
    if shape.len() == 1 {
        joined_dims(shape) + seq![44u8]
    } else {
        joined_dims(shape)
    }
}

/// `{'descr': '`
pub open spec fn head_open() -> Seq<u8> {
    seq![123u8, 39, 100, 101, 115, 99, 114, 39, 58, 32, 39]
}

/// `','fortran_order': False,'shape': (`
pub open spec fn head_middle() -> Seq<u8> {
    seq![
        39u8, 44, 39, 102, 111, 114, 116, 114, 97, 110, 95, 111, 114, 100, 101, 114, 39, 58, 32,
        70, 97, 108, 115, 101, 44, 39, 115, 104, 97, 112, 101, 39, 58, 32, 40,
    ]
}

/// `)}` and a newline.
pub open spec fn head_close() -> Seq<u8> {
    seq![41u8, 125, 10]
}

/// The header text for elements of kind `d` in byte order `o` and an array
/// of the given shape:
/// `{'descr': '<E><T>','fortran_order': False,'shape': (<dims>)}` and a newline.
pub open spec fn header_text(o: Order, d: DType, shape: Seq<usize>) -> Seq<u8> {
    head_open() + seq![endian_symbol(o)] + dtype_tag(d) + head_middle() + dims_text(shape)
        + head_close()
}

/// The number of spaces that bring a header of `len` bytes, after the
/// preamble, to a multiple of 16.
pub open spec fn padding(len: nat) -> nat {
    ((16 - (10 + len) % 16) % 16) as nat
}

/// Appends all of `b` to `out`.
pub fn push_bytes(out: &mut Vec<u8>, b: &[u8])
    ensures
        final(out)@ == old(out)@ + b@,
{
    let mut i: usize = 0;
    while i < b.len()
        invariant
            i <= b@.len(),
            out@ == old(out)@ + b@.subrange(0, i as int),
        decreases b@.len() - i,
    {
        out.push(b[i]);
        i = i + 1;
        assert(b@.subrange(0, i as int) == b@.subrange(0, i - 1) + seq![b@[i - 1]]);
    }
    assert(b@.subrange(0, b@.len() as int) == b@);
}

/// Appends the decimal digits of `n`.
pub fn push_decimal(out: &mut Vec<u8>, n: usize)
    ensures
        final(out)@ == old(out)@ + digits(n as nat),
    decreases n,
{
    if n >= 10 {
        push_decimal(out, n / 10);
    }
    let d: u8 = (n % 10) as u8;
    out.push(48 + d);
    proof {
        if n >= 10 {
            assert(digits(n as nat) == digits((n / 10) as nat) + seq![(48 + n % 10) as u8]);
        }
    }
    assert(final(out)@ =~= old(out)@ + digits(n as nat));
}

/// Appends the inside of the shape tuple: the dimensions in decimal, joined
/// by commas, and a trailing comma where there is exactly one.
pub fn push_dims(out: &mut Vec<u8>, shape: &Vec<usize>)
    ensures
        final(out)@ == old(out)@ + dims_text(shape@),
{
    let mut i: usize = 0;
    while i < shape.len()
        invariant
            i <= shape@.len(),
            out@ == old(out)@ + joined_dims(shape@.subrange(0, i as int)),
        decreases shape@.len() - i,
    {
        let ghost before = out@;
        if i > 0 {
            out.push(44u8);
        }
        push_decimal(out, shape[i]);
        i = i + 1;
        proof {
            let s = shape@.subrange(0, i as int);
            assert(s.drop_last() =~= shape@.subrange(0, i - 1));
            assert(s.last() == shape@[i - 1]);
            if i == 1 {
                assert(joined_dims(shape@.subrange(0, 0)) =~= Seq::<u8>::empty());
                assert(out@ =~= old(out)@ + joined_dims(s));
            } else {
                assert(out@ =~= old(out)@ + joined_dims(s));
            }
        }
    }
    assert(shape@.subrange(0, shape@.len() as int) =~= shape@);
    if shape.len() == 1 {
        out.push(44u8);
    }
    assert(final(out)@ =~= old(out)@ + dims_text(shape@));
}

/// Builds the header text for elements of kind `d` in byte order `o` and an
/// array of the given shape.
pub fn get_header(o: Order, d: DType, shape: &Vec<usize>) -> (r: Vec<u8>)
    ensures
        r@ == header_text(o, d, shape@),
{
    let mut out: Vec<u8> = Vec::new();
    let open: [u8; 11] = [123u8, 39, 100, 101, 115, 99, 114, 39, 58, 32, 39];
    let middle: [u8; 35] = [
        39u8, 44, 39, 102, 111, 114, 116, 114, 97, 110, 95, 111, 114, 100, 101, 114, 39, 58, 32,
        70, 97, 108, 115, 101, 44, 39, 115, 104, 97, 112, 101, 39, 58, 32, 40,
    ];
    let close: [u8; 3] = [41u8, 125, 10];
    assert(open@ =~= head_open());
    assert(middle@ =~= head_middle());
    assert(close@ =~= head_close());
    push_bytes(&mut out, open.as_slice());
    out.push(o.endian_symbol());
    push_bytes(&mut out, d.dtype().as_slice());
    push_bytes(&mut out, middle.as_slice());
    push_dims(&mut out, shape);
    push_bytes(&mut out, close.as_slice());
    assert(out@ =~= header_text(o, d, shape@));
    out
}

/// The number of padding spaces after a header of `len` bytes.
pub fn padding_for(len: usize) -> (r: usize)
    ensures
        r as nat == padding(len as nat),
        r < 16,
        (10 + len + r) % 16 == 0,
{
    let rem: usize = (len % 16 + PREAMBLE_LEN) % 16;
    assert(rem as int == (10 + len) % 16) by (nonlinear_arith)
        requires
            rem as int == (len % 16 + 10) % 16,
    ;
    (16 - rem) % 16
}

} // verus!
