//! Arrays as the encoder sees them: an element kind, a shape, and the
//! elements' bit patterns in row-major order.
use crate::dtype::{fits_dtype, DType};
use vstd::prelude::*;

verus! {

/// The number of elements of an array of the given shape.
pub open spec fn shape_size(shape: Seq<usize>) -> nat
    decreases shape.len(),
{
    if shape.len() == 0 {
        1
    } else {
        shape_size(shape.drop_last()) * (shape.last() as nat)
    }
}

/// What an array is: element kind, shape, and elements in row-major order
/// (last axis fastest), each as its IEEE-754 bit pattern.
pub struct ArrayModel {
    pub dtype: DType,
    pub shape: Seq<usize>,
    pub data: Seq<u64>,
}

/// The shape accounts for every element, and every element is a bit pattern
/// of the array's kind.
pub open spec fn array_wf(m: ArrayModel) -> bool {
    &&& m.data.len() == shape_size(m.shape)
    &&& forall|i: int| 0 <= i < m.data.len() ==> fits_dtype(m.dtype, #[trigger] m.data[i])
}

/// An array of `f32` or `f64` elements, held as bit patterns.
pub struct NpyArray {
    dtype: DType,
    shape: Vec<usize>,
    data: Vec<u64>,
}

impl View for NpyArray {
    type V = ArrayModel;

    closed spec fn view(&self) -> ArrayModel {
        ArrayModel { dtype: self.dtype, shape: self.shape@, data: self.data@ }
    }
}

proof fn lemma_size_zero(shape: Seq<usize>, i: int)
    requires
        0 <= i < shape.len(),
        shape[i] == 0,
    ensures
        shape_size(shape) == 0,
    decreases shape.len(),
{
    let a = shape_size(shape.drop_last());
    if i < shape.len() - 1 {
        assert(shape.drop_last()[i] == shape[i]);
        lemma_size_zero(shape.drop_last(), i);
        assert(a == 0);
        assert(a * (shape.last() as nat) == 0) by (nonlinear_arith)
            requires
                a == 0,
        ;
    } else {
        assert(shape.last() == 0);
        assert(a * (shape.last() as nat) == 0);
    }
}

proof fn lemma_size_grows(shape: Seq<usize>, k: int)
    requires
        0 <= k <= shape.len(),
        forall|j: int| 0 <= j < shape.len() ==> shape[j] >= 1,
    ensures
        shape_size(shape.subrange(0, k)) <= shape_size(shape),
    decreases shape.len() - k,
{
    if k < shape.len() {
        lemma_size_grows(shape, k + 1);
        let s = shape.subrange(0, k + 1);
        assert(s.drop_last() =~= shape.subrange(0, k));
        let a = shape_size(shape.subrange(0, k));
        let b = s.last() as nat;
        assert(a <= a * b) by (nonlinear_arith)
            requires
                b >= 1,
        ;
    } else {
        assert(shape.subrange(0, k) =~= shape);
    }
}

/// The number of elements of `shape`, or `None` where it exceeds `limit`.
fn size_up_to(shape: &Vec<usize>, limit: usize) -> (r: Option<usize>)
    ensures
        r is Some <==> shape_size(shape@) <= limit,
        r is Some ==> r.unwrap() as nat == shape_size(shape@),
{
    let mut z: usize = 0;
    while z < shape.len()
        invariant
            z <= shape@.len(),
            forall|j: int| 0 <= j < z ==> shape@[j] >= 1,
        decreases shape@.len() - z,
    {
        if shape[z] == 0 {
            proof { lemma_size_zero(shape@, z as int); }
            return Some(0);
        }
        z = z + 1;
    }
    let mut n: usize = 1;
    let mut i: usize = 0;
    assert(shape@.subrange(0, 0) =~= Seq::<usize>::empty());
    while i < shape.len()
        invariant
            i <= shape@.len(),
            n <= limit || i == 0,
            n as nat == shape_size(shape@.subrange(0, i as int)),
            forall|j: int| 0 <= j < shape@.len() ==> shape@[j] >= 1,
        decreases shape@.len() - i,
    {
        proof {
            let s = shape@.subrange(0, i + 1);
            assert(s.drop_last() =~= shape@.subrange(0, i as int));
        }
        match n.checked_mul(shape[i]) {
            Some(m) => {
                if m > limit {
                    proof { lemma_size_grows(shape@, i + 1); }
                    return None;
                }
                n = m;
            },
            None => {
                proof { lemma_size_grows(shape@, i + 1); }
                return None;
            },
        }
        i = i + 1;
    }
    assert(shape@.subrange(0, shape@.len() as int) =~= shape@);
    if n > limit {
        return None;
    }
    Some(n)
}

impl NpyArray {
    #[verifier::type_invariant]
    spec fn inv(&self) -> bool {
        array_wf(self@)
    }

    /// An array of kind `dtype` and the given shape, whose elements in
    /// row-major order have the bit patterns `data`; `None` where the number
    /// of elements is not the product of the dimensions, or where an `f32`
    /// element does not fit in 32 bits.
    pub fn new(dtype: DType, shape: Vec<usize>, data: Vec<u64>) -> (r: Option<NpyArray>)
        ensures
            r is Some <==> array_wf(ArrayModel { dtype, shape: shape@, data: data@ }),
            r is Some ==> r.unwrap()@ == (ArrayModel { dtype, shape: shape@, data: data@ }),
    {
        match size_up_to(&shape, data.len()) {
            None => None,
            Some(n) => {
                if n != data.len() {
                    return None;
                }
                let mut i: usize = 0;
                while i < data.len()
                    invariant
                        i <= data@.len(),
                        forall|j: int| 0 <= j < i ==> fits_dtype(dtype, #[trigger] data@[j]),
                    decreases data@.len() - i,
                {
                    if dtype == DType::Float32 && data[i] >= 0x1_0000_0000u64 {
                        return None;
                    }
                    i = i + 1;
                }
                Some(NpyArray { dtype, shape, data })
            },
        }
    }

    /// The kind of the elements.
    pub fn dtype(&self) -> (r: DType)
        ensures
            r == self@.dtype,
    {
        self.dtype
    }

    /// The dimension sizes.
    pub fn shape(&self) -> (r: &Vec<usize>)
        ensures
            r@ == self@.shape,
    {
        &self.shape
    }

    /// The elements' bit patterns in row-major order.
    pub fn data(&self) -> (r: &Vec<u64>)
        ensures
            r@ == self@.data,
    {
        &self.data
    }

    /// The array is well formed.
    pub fn lemma_wf(&self)
        ensures
            array_wf(self@),
    {
        proof { use_type_invariant(self); }
    }
}

} // verus!
