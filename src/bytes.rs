//! Byte orders and the encoding of unsigned integers into bytes.
use byteorder::{BigEndian, ByteOrder, LittleEndian, NativeEndian};
use vstd::prelude::*;

verus! {

/// The `k` low-order bytes of `n`, least significant first.
pub open spec fn le_bytes(n: nat, k: nat) -> Seq<u8>
    decreases k,
{
    if k == 0 {
        Seq::empty()
    } else {
        seq![(n % 256) as u8] + le_bytes(n / 256, (k - 1) as nat)
    }
}

/// The `k` low-order bytes of `n`, most significant first.
pub open spec fn be_bytes(n: nat, k: nat) -> Seq<u8>
    decreases k,
{
    if k == 0 {
        Seq::empty()
    } else {
        be_bytes(n / 256, (k - 1) as nat) + seq![(n % 256) as u8]
    }
}

/// `k` bytes, whichever the order.
pub proof fn lemma_order_bytes_len(o: Order, n: nat, k: nat)
    ensures
        order_bytes(o, n, k).len() == k,
    decreases k,
{
    if k > 0 {
        lemma_order_bytes_len(o, n / 256, (k - 1) as nat);
    }
}

/// A byte order that elements are actually encoded in.
#[derive(Clone, Copy, Debug, PartialEq, Eq, Structural)]
pub enum Order {
    Little,
    Big,
}

/// The byte order that a caller selects; `Native` is resolved to the
/// producing machine's order once per write.
#[derive(Clone, Copy, Debug, PartialEq, Eq, Structural)]
pub enum Endian {
    Little,
    Big,
    Native,
}

/// `k` bytes of `n` in byte order `o`.
pub open spec fn order_bytes(o: Order, n: nat, k: nat) -> Seq<u8> {
    match o {
        Order::Little => le_bytes(n, k),
        Order::Big => be_bytes(n, k),
    }
}

/// The symbol that a header declares for byte order `o`.
pub open spec fn endian_symbol(o: Order) -> u8 {
    match o {
        Order::Little => 60u8,
        Order::Big => 62u8,
    }
}

impl Order {
    /// The header's symbol for this byte order: `<` or `>`.
    pub fn endian_symbol(&self) -> (r: u8)
        ensures
            r == endian_symbol(*self),
    {
        match self {
            Order::Little => 60u8,
            Order::Big => 62u8,
        }
    }
}

/// Relies on byteorder's `LittleEndian::write_u16`: the two bytes of `n`,
/// least significant first.
#[verifier::external_body]
pub(crate) fn le_u16(n: u16) -> (r: [u8; 2])
    ensures
        r@ == le_bytes(n as nat, 2),
{
    let mut b = [0u8; 2];
    LittleEndian::write_u16(&mut b, n);
    b
}

/// Relies on byteorder's `NativeEndian::write_u16`: the two bytes of `n` in
/// the order of the machine, which is one of the two.
#[verifier::external_body]
pub(crate) fn native_u16(n: u16) -> (r: [u8; 2])
    ensures
        r@ == le_bytes(n as nat, 2) || r@ == be_bytes(n as nat, 2),
{
    let mut b = [0u8; 2];
    NativeEndian::write_u16(&mut b, n);
    b
}

/// Relies on byteorder's `LittleEndian::write_u32`: the four bytes of `n`,
/// least significant first.
#[verifier::external_body]
pub(crate) fn le_u32(n: u32) -> (r: [u8; 4])
    ensures
        r@ == le_bytes(n as nat, 4),
{
    let mut b = [0u8; 4];
    LittleEndian::write_u32(&mut b, n);
    b
}

/// Relies on byteorder's `BigEndian::write_u32`: the four bytes of `n`, most
/// significant first.
#[verifier::external_body]
pub(crate) fn be_u32(n: u32) -> (r: [u8; 4])
    ensures
        r@ == be_bytes(n as nat, 4),
{
    let mut b = [0u8; 4];
    BigEndian::write_u32(&mut b, n);
    b
}

/// Relies on byteorder's `LittleEndian::write_u64`: the eight bytes of `n`,
/// least significant first.
#[verifier::external_body]
pub(crate) fn le_u64(n: u64) -> (r: [u8; 8])
    ensures
        r@ == le_bytes(n as nat, 8),
{
    let mut b = [0u8; 8];
    LittleEndian::write_u64(&mut b, n);
    b
}

/// Relies on byteorder's `BigEndian::write_u64`: the eight bytes of `n`, most
/// significant first.
#[verifier::external_body]
pub(crate) fn be_u64(n: u64) -> (r: [u8; 8])
    ensures
        r@ == be_bytes(n as nat, 8),
{
    let mut b = [0u8; 8];
    BigEndian::write_u64(&mut b, n);
    b
}

/// The byte order of the machine that runs this code.
pub fn native_order() -> (r: Order) {
    let b = native_u16(1);
    proof {
        reveal_with_fuel(le_bytes, 3);
        reveal_with_fuel(be_bytes, 3);
    }
    if b[0] == 1 {
        Order::Little
    } else {
        Order::Big
    }
}

/// Resolves a selected byte order.
pub fn resolve(e: Endian) -> (r: Order)
    ensures
        e == Endian::Little ==> r == Order::Little,
        e == Endian::Big ==> r == Order::Big,
{
    match e {
        Endian::Little => Order::Little,
        Endian::Big => Order::Big,
        Endian::Native => native_order(),
    }
}

/// Appends the `k`-byte encoding of `n` in byte order `o` (`k` is 4 or 8).
pub fn push_uint(out: &mut Vec<u8>, o: Order, n: u64, k: usize)
    requires
        k == 4 || k == 8,
        k == 4 ==> n < 0x1_0000_0000,
    ensures
        final(out)@ == old(out)@ + order_bytes(o, n as nat, k as nat),
{
    if k == 4 {
        let b4 = match o {
            Order::Little => le_u32(n as u32),
            Order::Big => be_u32(n as u32),
        };
        let mut i: usize = 0;
        while i < 4
            invariant
                i <= 4,
                out@ == old(out)@ + b4@.subrange(0, i as int),
            decreases 4 - i,
        {
            out.push(b4[i]);
            i = i + 1;
            proof { assert(b4@.subrange(0, i as int) == b4@.subrange(0, i - 1) + seq![b4@[i - 1]]); }
        }
        assert(b4@.subrange(0, 4) == b4@);
    } else {
        let b8 = match o {
            Order::Little => le_u64(n),
            Order::Big => be_u64(n),
        };
        let mut i: usize = 0;
        while i < 8
            invariant
                i <= 8,
                out@ == old(out)@ + b8@.subrange(0, i as int),
            decreases 8 - i,
        {
            out.push(b8[i]);
            i = i + 1;
            proof { assert(b8@.subrange(0, i as int) == b8@.subrange(0, i - 1) + seq![b8@[i - 1]]); }
        }
        assert(b8@.subrange(0, 8) == b8@);
    }
}

} // verus!
