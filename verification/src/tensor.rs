//! The tensor: a dense matrix, its shape, and an optional gradient of the
//! same shape.
use vstd::prelude::*;
use crate::error::TensorError;
use crate::matrix::{
    constant, duplicate, filled, is_matrix_product, matrix_product_permitted, multiply, rows_of,
    shaped,
};
use crate::scalar::Scalar;

verus! {

/// A dense matrix of at least one row and one column, with an optional
/// gradient accumulator of the same shape. Its entries never change after
/// construction.
#[derive(Debug)]
pub struct Tensor<T> {
    data: Vec<Vec<T>>,
    grad: Option<Box<Tensor<T>>>,
    shape: (usize, usize),
}

/// What a constructor answers when handed `rows`: the reason for refusing
/// them, or `None` where they form a matrix.
pub open spec fn refusal<T>(rows: Seq<Seq<T>>) -> Option<TensorError> {
    if rows.len() == 0 || rows[0].len() == 0 {
        Some(TensorError::EmptyInput)
    } else if exists|i: int| 0 <= i < rows.len() && (#[trigger] rows[i]).len() != rows[0].len() {
        Some(TensorError::IrregularRows)
    } else {
        None
    }
}

impl<T> Tensor<T> {
    #[verifier::type_invariant]
    pub(crate) closed spec fn inv(self) -> bool {
        &&& self.wf()
        &&& match self.grad {
            Some(g) => g.grad is None && g.shape == self.shape,
            None => true,
        }
    }

    /// What holds of every tensor that exists makes it well formed.
    pub(crate) proof fn lemma_inv_is_wf(self)
        requires
            self.inv(),
        ensures
            self.wf(),
    {
    }

    /// The entries, row by row.
    pub closed spec fn entries(self) -> Seq<Seq<T>> {
        rows_of(self.data)
    }

    /// The number of rows and the number of columns.
    pub closed spec fn dims(self) -> (usize, usize) {
        self.shape
    }

    /// The entries of the gradient, where the tensor holds one.
    pub closed spec fn gradient(self) -> Option<Seq<Seq<T>>> {
        match self.grad {
            Some(g) => Some(rows_of(g.data)),
            None => None,
        }
    }

    /// The shape is not empty, the entries fill it, and so does the
    /// gradient where there is one.
    pub open spec fn wf(self) -> bool {
        &&& self.dims().0 >= 1
        &&& self.dims().1 >= 1
        &&& shaped(self.entries(), self.dims().0 as nat, self.dims().1 as nat)
        &&& self.gradient() matches Some(g) ==> shaped(
            g,
            self.dims().0 as nat,
            self.dims().1 as nat,
        )
    }
}

impl<T: Scalar> Tensor<T> {
    /// Wraps `data` into a tensor whose shape is read off the rows, with a
    /// gradient of zeros. Rows that hold no entry, or that differ in length,
    /// are refused.
    pub fn new(data: &Vec<Vec<T>>) -> (r: Result<Tensor<T>, TensorError>)
        ensures
            refusal(rows_of(*data)) matches Some(e) ==> r == Err::<Tensor<T>, TensorError>(e),
            refusal(rows_of(*data)) is None ==> {
                &&& r matches Ok(t)
                &&& t.wf()
                &&& t.entries() == rows_of(*data)
                &&& t.dims().0 == data@.len()
                &&& t.dims().1 == data@[0]@.len()
                &&& t.gradient() matches Some(g)
                &&& constant(g, 0u8)
            },
    {
        let ghost rows = rows_of(*data);
        if data.len() == 0 {
            return Err(TensorError::EmptyInput);
        }
        let cols = data[0].len();
        assert(rows[0].len() == cols);
        if cols == 0 {
            return Err(TensorError::EmptyInput);
        }
        let mut i: usize = 1;
        while i < data.len()
            invariant
                1 <= i <= data@.len(),
                rows == rows_of(*data),
                cols == rows[0].len(),
                cols >= 1,
                forall|r: int| 0 <= r < i ==> (#[trigger] rows[r]).len() == cols,
            decreases data@.len() - i,
        {
            if data[i].len() != cols {
                assert(rows[i as int].len() != rows[0].len());
                return Err(TensorError::IrregularRows);
            }
            i += 1;
        }
        let shape = (data.len(), cols);
        let zeros: Vec<Vec<T>> = filled(shape.0, shape.1, 0u8);
        let grad = Tensor { data: zeros, grad: None, shape };
        Ok(Tensor { data: duplicate(data), grad: Some(Box::new(grad)), shape })
    }

    /// A tensor of the given shape in which every entry is one. It is a
    /// constant: it holds no gradient.
    pub fn ones(size: (usize, usize)) -> (r: Result<Tensor<T>, TensorError>)
        ensures
            size.0 == 0 || size.1 == 0 ==> r == Err::<Tensor<T>, TensorError>(
                TensorError::EmptyInput,
            ),
            size.0 >= 1 && size.1 >= 1 ==> {
                &&& r matches Ok(t)
                &&& t.wf()
                &&& t.dims() == size
                &&& constant(t.entries(), 1u8)
                &&& t.gradient() is None
            },
    {
        if size.0 == 0 || size.1 == 0 {
            return Err(TensorError::EmptyInput);
        }
        Ok(Tensor { data: filled(size.0, size.1, 1u8), grad: None, shape: size })
    }

    /// A tensor of the given shape in which every entry is zero. It is a
    /// constant: it holds no gradient.
    pub fn zeros(size: (usize, usize)) -> (r: Result<Tensor<T>, TensorError>)
        ensures
            size.0 == 0 || size.1 == 0 ==> r == Err::<Tensor<T>, TensorError>(
                TensorError::EmptyInput,
            ),
            size.0 >= 1 && size.1 >= 1 ==> {
                &&& r matches Ok(t)
                &&& t.wf()
                &&& t.dims() == size
                &&& constant(t.entries(), 0u8)
                &&& t.gradient() is None
            },
    {
        if size.0 == 0 || size.1 == 0 {
            return Err(TensorError::EmptyInput);
        }
        Ok(Tensor { data: filled(size.0, size.1, 0u8), grad: None, shape: size })
    }

    /// The matrix product of `self` and `other`, as a new tensor with a
    /// gradient of zeros: entry `(i, j)` starts from zero and takes up the
    /// products of row `i` of `self` and column `j` of `other`, one after
    /// another from the first to the last. Operands whose inner dimensions
    /// disagree are refused, and both operands are left as they were.
    ///
    /// Where the shapes fit, the number type must accept every product and
    /// sum on the way.
    pub fn dot(&self, other: &Tensor<T>) -> (r: Result<Tensor<T>, TensorError>)
        requires
            self.dims().1 == other.dims().0 ==> matrix_product_permitted(
                self.entries(),
                other.entries(),
            ),
        ensures
            self.dims().1 != other.dims().0 ==> r == Err::<Tensor<T>, TensorError>(
                TensorError::ShapeMismatch {
                    left_cols: self.dims().1,
                    right_rows: other.dims().0,
                },
            ),
            self.dims().1 == other.dims().0 ==> {
                &&& r matches Ok(t)
                &&& t.wf()
                &&& t.dims() == (self.dims().0, other.dims().1)
                &&& is_matrix_product(self.entries(), other.entries(), t.entries())
                &&& t.gradient() matches Some(g)
                &&& constant(g, 0u8)
            },
    {
        proof {
            use_type_invariant(self);
            use_type_invariant(other);
        }
        if other.shape.0 != self.shape.1 {
            return Err(
                TensorError::ShapeMismatch { left_cols: self.shape.1, right_rows: other.shape.0 },
            );
        }
        let shape = (self.shape.0, other.shape.1);
        let data = multiply(&self.data, &other.data, self.shape.0, self.shape.1, other.shape.1);
        let zeros: Vec<Vec<T>> = filled(shape.0, shape.1, 0u8);
        let grad = Tensor { data: zeros, grad: None, shape };
        Ok(Tensor { data, grad: Some(Box::new(grad)), shape })
    }

    /// Puts `entries` in the place of the gradient's entries.
    pub(crate) fn set_grad(&mut self, entries: Vec<Vec<T>>)
        requires
            old(self).gradient() is Some,
            shaped(rows_of(entries), old(self).dims().0 as nat, old(self).dims().1 as nat),
        ensures
            final(self).wf(),
            final(self).entries() == old(self).entries(),
            final(self).dims() == old(self).dims(),
            final(self).gradient() == Some(rows_of(entries)),
    {
        proof {
            use_type_invariant(&*self);
        }
        let grad = Tensor { data: entries, grad: None, shape: self.shape };
        self.grad = Some(Box::new(grad));
    }

    /// The number of rows and the number of columns.
    pub fn shape(&self) -> (s: (usize, usize))
        ensures
            s == self.dims(),
            self.wf(),
    {
        proof {
            use_type_invariant(self);
        }
        self.shape
    }

    /// The entries, row by row.
    pub fn data(&self) -> (d: &Vec<Vec<T>>)
        ensures
            rows_of(*d) == self.entries(),
            self.wf(),
    {
        proof {
            use_type_invariant(self);
        }
        &self.data
    }

    /// The gradient, where the tensor holds one: a tensor of the same shape
    /// that itself holds no gradient.
    pub fn grad(&self) -> (g: Option<&Tensor<T>>)
        ensures
            self.wf(),
            self.gradient() is None ==> g is None,
            self.gradient() matches Some(entries) ==> {
                &&& g matches Some(t)
                &&& t.wf()
                &&& t.entries() == entries
                &&& t.dims() == self.dims()
                &&& t.gradient() is None
            },
    {
        proof {
            use_type_invariant(self);
        }
        match &self.grad {
            Some(boxed) => {
                let inner: &Tensor<T> = &**boxed;
                proof {
                    use_type_invariant(inner);
                }
                Some(inner)
            },
            None => None,
        }
    }
}

} // verus!
