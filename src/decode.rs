//! The stream can be read back: it determines the byte order and the array
//! that were written.
use crate::array::{array_wf, ArrayModel};
use crate::bytes::{be_bytes, endian_symbol, le_bytes, order_bytes, Order};
use crate::dtype::{dtype_tag, dtype_width, fits_dtype, DType};
use crate::header::{digits, dims_text, joined_dims, head_close, head_middle, head_open, padding};
use crate::writer::{
    element_bytes, element_chunk, header_fits, header_len, header_of, magic, npy_bytes, spaces,
    version,
};
use vstd::prelude::*;

verus! {

/// `256` to the power `k`.
pub open spec fn pow256(k: nat) -> nat
    decreases k,
{
    if k == 0 {
        1
    } else {
        256 * pow256((k - 1) as nat)
    }
}

/// No byte of `b` is a comma.
pub open spec fn comma_free(b: Seq<u8>) -> bool {
    forall|i: int| 0 <= i < b.len() ==> #[trigger] b[i] != 44
}

proof fn lemma_digits_shape(n: nat)
    ensures
        digits(n).len() >= 1,
        n >= 10 ==> digits(n).len() >= 2,
        comma_free(digits(n)),
        forall|i: int| 0 <= i < digits(n).len() ==> 48 <= #[trigger] digits(n)[i] <= 57,
    decreases n,
{
    let d = digits(n);
    if n >= 10 {
        lemma_digits_shape(n / 10);
        assert(d == digits(n / 10) + seq![(48 + n % 10) as u8]);
        assert forall|i: int| 0 <= i < d.len() implies #[trigger] d[i] != 44 && 48 <= d[i] <= 57 by {
            if i < d.len() - 1 {
                assert(d[i] == digits(n / 10)[i]);
            }
        }
    } else {
        assert(d == seq![(48 + n) as u8]);
        assert(d[0] == (48 + n) as u8);
    }
}

proof fn lemma_joined_bytes(s: Seq<usize>)
    ensures
        forall|i: int|
            0 <= i < joined_dims(s).len() ==> #[trigger] joined_dims(s)[i] == 44 || 48
                <= joined_dims(s)[i] <= 57,
    decreases s.len(),
{
    if s.len() == 1 {
        lemma_digits_shape(s[0] as nat);
    } else if s.len() > 1 {
        lemma_joined_bytes(s.drop_last());
        lemma_digits_shape(s.last() as nat);
        let p = joined_dims(s.drop_last());
        let d = digits(s.last() as nat);
        let j = joined_dims(s);
        assert(j == p + seq![44u8] + d);
        assert forall|i: int| 0 <= i < j.len() implies #[trigger] j[i] == 44 || 48 <= j[i] <= 57 by {
            if i < p.len() {
                assert(j[i] == p[i]);
            } else if i > p.len() {
                assert(j[i] == d[i - p.len() - 1]);
            }
        }
    }
}

/// The header never holds a `T`, so it never reads `True`: the only
/// boolean in it is the `fortran_order` literal `False`.
pub proof fn lemma_header_never_true(o: Order, m: ArrayModel)
    ensures
        forall|i: int| 0 <= i < header_of(o, m).len() ==> #[trigger] header_of(o, m)[i] != 84,
{
    let h = header_of(o, m);
    let d = dims_text(m.shape);
    lemma_joined_bytes(m.shape);
    assert(forall|i: int| 0 <= i < d.len() ==> #[trigger] d[i] == 44 || 48 <= d[i] <= 57) by {
        if m.shape.len() == 1 {
            assert forall|i: int| 0 <= i < d.len() implies #[trigger] d[i] == 44 || 48 <= d[i] <= 57 by {
                if i < joined_dims(m.shape).len() {
                    assert(d[i] == joined_dims(m.shape)[i]);
                }
            }
        }
    }
    let pre = head_open() + seq![endian_symbol(o)] + dtype_tag(m.dtype) + head_middle();
    assert(pre.len() == 49);
    assert(forall|i: int| 0 <= i < 49 ==> #[trigger] pre[i] != 84) by {
        assert(pre =~= seq![
            123u8, 39, 100, 101, 115, 99, 114, 39, 58, 32, 39, endian_symbol(o),
            102, dtype_tag(m.dtype)[1], 39, 44, 39, 102, 111, 114, 116, 114, 97, 110, 95, 111,
            114, 100, 101, 114, 39, 58, 32, 70, 97, 108, 115, 101, 44, 39, 115, 104, 97, 112, 101,
            39, 58, 32, 40,
        ]);
    }
    assert(h == pre + d + head_close());
    assert forall|i: int| 0 <= i < h.len() implies #[trigger] h[i] != 84 by {
        if i < 49 {
            assert(h[i] == pre[i]);
        } else if i < 49 + d.len() {
            assert(h[i] == d[i - 49]);
        } else {
            assert(h[i] == head_close()[i - 49 - d.len()]);
        }
    }
}

proof fn lemma_digits_injective(a: nat, b: nat)
    requires
        digits(a) == digits(b),
    ensures
        a == b,
    decreases a,
{
    lemma_digits_shape(a);
    lemma_digits_shape(b);
    if a < 10 {
        assert(digits(a) == seq![(48 + a) as u8]);
        assert(digits(a).len() == 1);
        assert(b < 10);
        assert(digits(b) == seq![(48 + b) as u8]);
        assert(digits(a)[0] == digits(b)[0]);
        assert(digits(a)[0] == (48 + a) as u8);
        assert(digits(b)[0] == (48 + b) as u8);
        assert(((48 + a) as u8) as int == 48 + a);
        assert(((48 + b) as u8) as int == 48 + b);
    } else {
        assert(digits(a).len() >= 2);
        if b < 10 {
            assert(digits(b) == seq![(48 + b) as u8]);
            assert(digits(b).len() == 1);
        }
        assert(b >= 10);
        let da = digits(a);
        let db = digits(b);
        assert(da == digits(a / 10) + seq![(48 + a % 10) as u8]);
        assert(db == digits(b / 10) + seq![(48 + b % 10) as u8]);
        assert(da.last() == (48 + a % 10) as u8);
        assert(db.last() == (48 + b % 10) as u8);
        assert(da.drop_last() =~= digits(a / 10));
        assert(db.drop_last() =~= digits(b / 10));
        lemma_digits_injective(a / 10, b / 10);
        assert(a % 10 == b % 10);
        assert(a == 10 * (a / 10) + a % 10);
        assert(b == 10 * (b / 10) + b % 10);
    }
}

proof fn lemma_joined_ends_in_digit(s: Seq<usize>)
    requires
        s.len() >= 1,
    ensures
        joined_dims(s).len() >= 1,
        joined_dims(s).last() != 44,
{
    let d = digits(s.last() as nat);
    lemma_digits_shape(s.last() as nat);
    assert(d[d.len() - 1] != 44);
    if s.len() == 1 {
        assert(s.last() == s[0]);
    } else {
        let j = joined_dims(s.drop_last()) + seq![44u8] + d;
        assert(j.last() == d[d.len() - 1]);
    }
}

/// Splitting at the last comma: the parts before and after it agree.
proof fn lemma_split_last_comma(a: Seq<u8>, d1: Seq<u8>, b: Seq<u8>, d2: Seq<u8>)
    requires
        a + seq![44u8] + d1 == b + seq![44u8] + d2,
        comma_free(d1),
        comma_free(d2),
    ensures
        a == b,
        d1 == d2,
{
    let a1 = a + seq![44u8];
    let b1 = b + seq![44u8];
    let x = a1 + d1;
    let y = b1 + d2;
    assert(a1.len() == a.len() + 1 && b1.len() == b.len() + 1);
    assert(x.len() == a.len() + 1 + d1.len());
    assert(y.len() == b.len() + 1 + d2.len());
    assert(x == y);
    if d1.len() < d2.len() {
        let i = a.len() as int;
        assert(i >= b1.len());
        assert(x[i] == a1[i]);
        assert(a1[i] == 44);
        assert(y[i] == d2[i - b1.len()]);
    } else if d2.len() < d1.len() {
        let i = b.len() as int;
        assert(i >= a1.len());
        assert(y[i] == b1[i]);
        assert(b1[i] == 44);
        assert(x[i] == d1[i - a1.len()]);
    } else {
        assert(a =~= x.subrange(0, a.len() as int));
        assert(b =~= y.subrange(0, b.len() as int));
        assert(d1 =~= x.subrange(a.len() as int + 1, x.len() as int));
        assert(d2 =~= y.subrange(b.len() as int + 1, y.len() as int));
    }
}

proof fn lemma_joined_injective(s: Seq<usize>, t: Seq<usize>)
    requires
        joined_dims(s) == joined_dims(t),
    ensures
        s == t,
    decreases s.len(),
{
    if s.len() == 0 || t.len() == 0 {
        if s.len() > 0 {
            lemma_joined_ends_in_digit(s);
        }
        if t.len() > 0 {
            lemma_joined_ends_in_digit(t);
        }
        assert(s =~= t);
    } else if s.len() == 1 && t.len() == 1 {
        lemma_digits_injective(s[0] as nat, t[0] as nat);
        assert(s =~= t);
    } else if s.len() == 1 || t.len() == 1 {
        let (one, many) = if s.len() == 1 {
            (s, t)
        } else {
            (t, s)
        };
        lemma_digits_shape(one[0] as nat);
        let pre = joined_dims(many.drop_last());
        let x = joined_dims(many);
        assert(x == pre + seq![44u8] + digits(many.last() as nat));
        assert(x[pre.len() as int] == 44);
        assert(joined_dims(one) == digits(one[0] as nat));
    } else {
        lemma_digits_shape(s.last() as nat);
        lemma_digits_shape(t.last() as nat);
        lemma_split_last_comma(
            joined_dims(s.drop_last()),
            digits(s.last() as nat),
            joined_dims(t.drop_last()),
            digits(t.last() as nat),
        );
        lemma_joined_injective(s.drop_last(), t.drop_last());
        lemma_digits_injective(s.last() as nat, t.last() as nat);
        assert(s =~= s.drop_last().push(s.last()));
        assert(t =~= t.drop_last().push(t.last()));
    }
}

proof fn lemma_dims_injective(s: Seq<usize>, t: Seq<usize>)
    requires
        dims_text(s) == dims_text(t),
    ensures
        s == t,
{
    if s.len() == 1 && t.len() == 1 {
        let (x, y) = (joined_dims(s) + seq![44u8], joined_dims(t) + seq![44u8]);
        assert(joined_dims(s) =~= x.drop_last());
        assert(joined_dims(t) =~= y.drop_last());
        lemma_joined_injective(s, t);
    } else if s.len() == 1 || t.len() == 1 {
        let (one, other) = if s.len() == 1 {
            (s, t)
        } else {
            (t, s)
        };
        let x = joined_dims(one) + seq![44u8];
        assert(x.last() == 44);
        assert(dims_text(other) == joined_dims(other));
        if other.len() > 0 {
            lemma_joined_ends_in_digit(other);
        }
    } else {
        lemma_joined_injective(s, t);
    }
}

proof fn lemma_bytes_injective(o: Order, x: nat, y: nat, k: nat)
    requires
        x < pow256(k),
        y < pow256(k),
        order_bytes(o, x, k) == order_bytes(o, y, k),
    ensures
        x == y,
    decreases k,
{
    if k > 0 {
        let p = pow256((k - 1) as nat);
        let (bx, by) = (order_bytes(o, x, k), order_bytes(o, y, k));
        match o {
            Order::Little => {
                assert(bx[0] == by[0]);
                assert(bx.subrange(1, bx.len() as int) =~= le_bytes(x / 256, (k - 1) as nat));
                assert(by.subrange(1, by.len() as int) =~= le_bytes(y / 256, (k - 1) as nat));
            },
            Order::Big => {
                assert(bx.last() == by.last());
                assert(bx.drop_last() =~= be_bytes(x / 256, (k - 1) as nat));
                assert(by.drop_last() =~= be_bytes(y / 256, (k - 1) as nat));
            },
        }
        assert(x % 256 == y % 256);
        assert(x / 256 < p && y / 256 < p) by (nonlinear_arith)
            requires
                x < 256 * p,
                y < 256 * p,
        ;
        lemma_bytes_injective(o, x / 256, y / 256, (k - 1) as nat);
        assert(x == 256 * (x / 256) + x % 256);
        assert(y == 256 * (y / 256) + y % 256);
    } else {
        assert(x == 0 && y == 0);
    }
}

proof fn lemma_elements_injective(o: Order, d: DType, a: Seq<u64>, b: Seq<u64>)
    requires
        a.len() == b.len(),
        element_bytes(o, d, a) == element_bytes(o, d, b),
        forall|i: int| 0 <= i < a.len() ==> fits_dtype(d, #[trigger] a[i]),
        forall|i: int| 0 <= i < b.len() ==> fits_dtype(d, #[trigger] b[i]),
    ensures
        a == b,
    decreases a.len(),
{
    if a.len() > 0 {
        let w = dtype_width(d);
        let (ca, cb) = (element_chunk(o, d, a.last()), element_chunk(o, d, b.last()));
        crate::bytes::lemma_order_bytes_len(o, a.last() as nat, w);
        crate::bytes::lemma_order_bytes_len(o, b.last() as nat, w);
        let (pa, pb) = (element_bytes(o, d, a.drop_last()), element_bytes(o, d, b.drop_last()));
        let e = element_bytes(o, d, a);
        assert(pa =~= e.subrange(0, pa.len() as int));
        assert(pb =~= e.subrange(0, pb.len() as int));
        assert(ca =~= e.subrange(pa.len() as int, e.len() as int));
        assert(cb =~= e.subrange(pb.len() as int, e.len() as int));
        assert(fits_dtype(d, a[a.len() - 1]) && fits_dtype(d, b[b.len() - 1]));
        reveal_with_fuel(pow256, 9);
        assert(pow256(4) == 0x1_0000_0000);
        assert(pow256(8) == 0x1_0000_0000_0000_0000);
        lemma_bytes_injective(o, a.last() as nat, b.last() as nat, w);
        lemma_elements_injective(o, d, a.drop_last(), b.drop_last());
        assert(a =~= a.drop_last().push(a.last()));
        assert(b =~= b.drop_last().push(b.last()));
    } else {
        assert(a =~= b);
    }
}

proof fn lemma_length_field_injective(x: nat, y: nat)
    requires
        x <= 65535,
        y <= 65535,
        le_bytes(x, 2) == le_bytes(y, 2),
    ensures
        x == y,
{
    reveal_with_fuel(pow256, 3);
    assert(pow256(2) == 65536);
    lemma_bytes_injective(Order::Little, x, y, 2);
}

proof fn lemma_header_facts(o: Order, m: ArrayModel)
    ensures
        header_of(o, m).len() == 52 + dims_text(m.shape).len(),
        header_of(o, m)[11] == endian_symbol(o),
        header_of(o, m)[13] == dtype_tag(m.dtype)[1],
        header_of(o, m)[header_of(o, m).len() - 1] == 10,
        header_of(o, m).subrange(49, header_of(o, m).len() - 3) == dims_text(m.shape),
{
    let h = header_of(o, m);
    let d = dims_text(m.shape);
    assert(h == head_open() + seq![endian_symbol(o)] + dtype_tag(m.dtype) + head_middle() + d
        + head_close());
    assert(h.subrange(49, h.len() - 3) =~= d);
}

/// Where each part of the stream stands: the length field at bytes 8..10,
/// the header text from byte 10, spaces up to `10 + header_len`, then the
/// payload.
pub proof fn lemma_stream_split(o: Order, m: ArrayModel)
    ensures
        ({
            let s = npy_bytes(o, m);
            let h = header_of(o, m);
            let hl = header_len(o, m);
            &&& s.len() == 10 + hl + element_bytes(o, m.dtype, m.data).len()
            &&& hl == h.len() + padding(h.len())
            &&& s.subrange(8, 10) == le_bytes(hl, 2)
            &&& s.subrange(10, 10 + h.len() as int) == h
            &&& forall|i: int| 10 + h.len() <= i < 10 + hl ==> #[trigger] s[i] == 32
            &&& s.subrange(10 + hl as int, s.len() as int) == element_bytes(o, m.dtype, m.data)
        }),
{
    let s = npy_bytes(o, m);
    let h = header_of(o, m);
    let hl = header_len(o, m);
    crate::bytes::lemma_order_bytes_len(Order::Little, hl, 2);
    let q = magic() + version() + le_bytes(hl, 2);
    let p = spaces(padding(h.len()));
    let e = element_bytes(o, m.dtype, m.data);
    assert(q.len() == 10);
    assert(s == q + h + p + e);
    assert(s.subrange(8, 10) =~= le_bytes(hl, 2));
    assert(s.subrange(10, 10 + h.len() as int) =~= h);
    assert forall|i: int| 10 + h.len() <= i < 10 + hl implies #[trigger] s[i] == 32 by {
        assert(s[i] == p[i - 10 - h.len()]);
    }
    assert(s.subrange(10 + hl as int, s.len() as int) =~= e);
}

/// A stream is read back to what was written: where two well-formed arrays
/// whose headers fit give the same bytes, they were written in the same byte
/// order and are the same array (kind, shape and every element).
pub proof fn lemma_round_trip(o1: Order, a: ArrayModel, o2: Order, b: ArrayModel)
    requires
        array_wf(a),
        array_wf(b),
        header_fits(a),
        header_fits(b),
        npy_bytes(o1, a) == npy_bytes(o2, b),
    ensures
        o1 == o2,
        a == b,
{
    let s = npy_bytes(o1, a);
    let (ha, hb) = (header_of(o1, a), header_of(o2, b));
    let (la, lb) = (header_len(o1, a), header_len(o2, b));
    lemma_header_facts(o1, a);
    lemma_header_facts(o2, b);
    lemma_stream_split(o1, a);
    lemma_stream_split(o2, b);
    assert(ha.len() == header_of(Order::Little, a).len());
    assert(hb.len() == header_of(Order::Little, b).len());
    // the byte order, from the endian symbol
    assert(s[21] == s.subrange(10, 10 + ha.len() as int)[11]);
    assert(s[21] == s.subrange(10, 10 + hb.len() as int)[11]);
    assert(o1 == o2);
    // the header length, from the length field
    lemma_length_field_injective(la, lb);
    // the header text, which ends at the only newline of the padded header
    if ha.len() < hb.len() {
        let i = 10 + hb.len() - 1;
        assert(s[i] == s.subrange(10, 10 + hb.len() as int)[hb.len() - 1]);
        assert(s[i] == 32);
    } else if hb.len() < ha.len() {
        let i = 10 + ha.len() - 1;
        assert(s[i] == s.subrange(10, 10 + ha.len() as int)[ha.len() - 1]);
        assert(s[i] == 32);
    }
    assert(ha == hb);
    // the kind, from the tag
    assert(a.dtype == b.dtype);
    // the shape, from the dimensions
    lemma_dims_injective(a.shape, b.shape);
    // the elements, from the payload
    lemma_elements_injective(o1, a.dtype, a.data, b.data);
}

} // verus!
