//! The element kinds that can be stored: 4- and 8-byte IEEE-754 floats.
use vstd::prelude::*;

verus! {

/// The kind of the elements of an array.
#[derive(Clone, Copy, Debug, PartialEq, Eq, Structural)]
pub enum DType {
    /// `f32`, tagged `f4`.
    Float32,
    /// `f64`, tagged `f8`.
    Float64,
}

/// The byte width of one element of kind `d`.
pub open spec fn dtype_width(d: DType) -> nat {
    match d {
        DType::Float32 => 4,
        DType::Float64 => 8,
    }
}

/// The format tag of kind `d`: `f4` or `f8`.
pub open spec fn dtype_tag(d: DType) -> Seq<u8> {
    match d {
        DType::Float32 => seq![102u8, 52u8],
        DType::Float64 => seq![102u8, 56u8],
    }
}

/// Whether `bits` is the bit pattern of an element of kind `d`.
pub open spec fn fits_dtype(d: DType, bits: u64) -> bool {
    d == DType::Float32 ==> bits < 0x1_0000_0000
}

impl DType {
    /// The byte width of one element.
    pub fn width(&self) -> (r: usize)
        ensures
            r as nat == dtype_width(*self),
    {
        match self {
            DType::Float32 => 4,
            DType::Float64 => 8,
        }
    }

    /// The two bytes of the format tag.
    pub fn dtype(&self) -> (r: [u8; 2])
        ensures
            r@ == dtype_tag(*self),
    {
        let r: [u8; 2] = match self {
            DType::Float32 => [102u8, 52u8],
            DType::Float64 => [102u8, 56u8],
        };
        assert(r@ =~= dtype_tag(*self));
        r
    }
}

} // verus!
