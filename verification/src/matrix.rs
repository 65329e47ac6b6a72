//! Dense matrices as rows of entries: the mathematical vocabulary that the
//! contracts of tensors speak, and the loops that compute with it.
use vstd::prelude::*;
use crate::scalar::{can_add, can_mul, is_product, is_sum, is_zero, number, represents, Scalar};

verus! {

/// The rows of a nested vector, each as a sequence of its entries.
pub open spec fn rows_of<T>(v: Vec<Vec<T>>) -> Seq<Seq<T>> {
    Seq::new(v@.len(), |i: int| v@[i]@)
}

/// `m` has `rows` rows of `cols` entries each.
pub open spec fn shaped<T>(m: Seq<Seq<T>>, rows: nat, cols: nat) -> bool {
    &&& m.len() == rows
    &&& forall|i: int| 0 <= i < m.len() ==> (#[trigger] m[i]).len() == cols
}

/// Every entry of `m` is an outcome of converting the small integer `n`.
pub open spec fn constant<T: Scalar>(m: Seq<Seq<T>>, n: u8) -> bool {
    forall|i: int, j: int|
        0 <= i < m.len() && 0 <= j < m[i].len() ==> represents(n, #[trigger] m[i][j])
}

/// Column `j` of `m`, read from the top row down.
pub open spec fn column<T>(m: Seq<Seq<T>>, j: int) -> Seq<T> {
    Seq::new(m.len(), |t: int| m[t][j])
}

/// The number of entries in the rows of `m`.
pub open spec fn width<T>(m: Seq<Seq<T>>) -> nat {
    if m.len() == 0 {
        0
    } else {
        m[0].len()
    }
}

/// `m` with rows and columns exchanged.
pub open spec fn transposed<T>(m: Seq<Seq<T>>) -> Seq<Seq<T>> {
    Seq::new(width(m), |j: int| column(m, j))
}

/// `r` is an outcome of adding the first `n` products `row[t] * col[t]` to a
/// zero, one after another in the order of `t`.
pub open spec fn accumulates<T: Scalar>(row: Seq<T>, col: Seq<T>, n: nat, r: T) -> bool
    decreases n,
{
    if n == 0 {
        is_zero(r)
    } else {
        exists|acc: T, p: T|
            accumulates(row, col, (n - 1) as nat, acc) && is_product(row[n - 1], col[n - 1], p)
                && #[trigger] is_sum(acc, p, r)
    }
}

/// `r` is an outcome of the inner product of `row` and `col`.
pub open spec fn is_inner_product<T: Scalar>(row: Seq<T>, col: Seq<T>, r: T) -> bool {
    row.len() == col.len() && accumulates(row, col, row.len(), r)
}

/// Every product and every sum that the inner product of `row` and `col`
/// can come to is accepted by the number type.
pub open spec fn inner_product_permitted<T: Scalar>(row: Seq<T>, col: Seq<T>) -> bool {
    &&& forall|t: int| 0 <= t < row.len() ==> #[trigger] can_mul(row[t], col[t])
    &&& forall|n: nat, acc: T, p: T|
        n < row.len() && #[trigger] accumulates(row, col, n, acc) && is_product(
            row[n as int],
            col[n as int],
            p,
        ) ==> #[trigger] can_add(acc, p)
}

/// One more product taken up: from an outcome for the first `n` products to
/// an outcome for the first `n + 1`.
pub proof fn lemma_accumulates_step<T: Scalar>(row: Seq<T>, col: Seq<T>, n: nat, acc: T, p: T, r: T)
    requires
        accumulates(row, col, n, acc),
        is_product(row[n as int], col[n as int], p),
        is_sum(acc, p, r),
    ensures
        accumulates(row, col, n + 1, r),
{
    assert(accumulates(row, col, ((n + 1) - 1) as nat, acc));
}

/// `c` is an outcome of the matrix product of `a` and `b`: it has the rows
/// of `a` and the columns of `b`, and entry `(i, j)` is an outcome of the
/// inner product of row `i` of `a` and column `j` of `b`.
pub open spec fn is_matrix_product<T: Scalar>(
    a: Seq<Seq<T>>,
    b: Seq<Seq<T>>,
    c: Seq<Seq<T>>,
) -> bool {
    &&& shaped(c, a.len(), width(b))
    &&& forall|i: int, j: int|
        0 <= i < a.len() && 0 <= j < width(b) ==> is_inner_product(
            a[i],
            column(b, j),
            #[trigger] c[i][j],
        )
}

/// Every operation that the matrix product of `a` and `b` can come to is
/// accepted by the number type.
pub open spec fn matrix_product_permitted<T: Scalar>(a: Seq<Seq<T>>, b: Seq<Seq<T>>) -> bool {
    forall|i: int, j: int|
        0 <= i < a.len() && 0 <= j < width(b) ==> inner_product_permitted(
            #[trigger] a[i],
            #[trigger] column(b, j),
        )
}

/// `s` is an outcome of adding `y` to `x` entry by entry.
pub open spec fn is_matrix_sum<T: Scalar>(x: Seq<Seq<T>>, y: Seq<Seq<T>>, s: Seq<Seq<T>>) -> bool {
    &&& s.len() == x.len()
    &&& forall|i: int| 0 <= i < x.len() ==> (#[trigger] s[i]).len() == x[i].len()
    &&& forall|i: int, j: int|
        0 <= i < x.len() && 0 <= j < x[i].len() ==> is_sum(x[i][j], y[i][j], #[trigger] s[i][j])
}

/// The number type accepts the sum of `x` and `y` at every entry.
pub open spec fn matrix_sum_permitted<T: Scalar>(x: Seq<Seq<T>>, y: Seq<Seq<T>>) -> bool {
    forall|i: int, j: int|
        0 <= i < x.len() && 0 <= j < x[i].len() ==> #[trigger] can_add(x[i][j], y[i][j])
}

/// Builds a `rows` by `cols` matrix in which every entry is the image of `n`.
pub(crate) fn filled<T: Scalar>(rows: usize, cols: usize, n: u8) -> (m: Vec<Vec<T>>)
    ensures
        shaped(rows_of(m), rows as nat, cols as nat),
        constant(rows_of(m), n),
{
    let mut data: Vec<Vec<T>> = Vec::new();
    let mut i: usize = 0;
    while i < rows
        invariant
            i <= rows,
            data@.len() == i,
            forall|r: int| 0 <= r < i ==> (#[trigger] data@[r])@.len() == cols,
            forall|r: int, c: int| 0 <= r < i && 0 <= c < cols ==> represents(n, #[trigger] data@[r]@[c]),
        decreases rows - i,
    {
        let mut inner: Vec<T> = Vec::new();
        let mut j: usize = 0;
        while j < cols
            invariant
                j <= cols,
                inner@.len() == j,
                forall|c: int| 0 <= c < j ==> represents(n, #[trigger] inner@[c]),
            decreases cols - j,
        {
            inner.push(number::<T>(n));
            j += 1;
        }
        data.push(inner);
        i += 1;
    }
    data
}

/// Copies a nested vector entry by entry.
pub(crate) fn duplicate<T: Copy>(source: &Vec<Vec<T>>) -> (copy: Vec<Vec<T>>)
    ensures
        rows_of(copy) == rows_of(*source),
{
    let mut data: Vec<Vec<T>> = Vec::new();
    let mut i: usize = 0;
    while i < source.len()
        invariant
            i <= source@.len(),
            data@.len() == i,
            forall|r: int| 0 <= r < i ==> (#[trigger] data@[r])@ == source@[r]@,
        decreases source@.len() - i,
    {
        let row = &source[i];
        let mut inner: Vec<T> = Vec::new();
        let mut j: usize = 0;
        while j < row.len()
            invariant
                j <= row@.len(),
                inner@.len() == j,
                forall|c: int| 0 <= c < j ==> #[trigger] inner@[c] == row@[c],
            decreases row@.len() - j,
        {
            inner.push(row[j]);
            j += 1;
        }
        assert(inner@ =~= row@);
        data.push(inner);
        i += 1;
    }
    assert(rows_of(data) =~= rows_of(*source));
    data
}

/// Multiplies an `m` by `k` matrix with a `k` by `n` matrix: entry `(i, j)`
/// starts from zero and takes up the products `a[i][t] * b[t][j]` in the
/// order of `t`.
pub(crate) fn multiply<T: Scalar>(a: &Vec<Vec<T>>, b: &Vec<Vec<T>>, m: usize, k: usize, n: usize) -> (c:
    Vec<Vec<T>>)
    requires
        k >= 1,
        shaped(rows_of(*a), m as nat, k as nat),
        shaped(rows_of(*b), k as nat, n as nat),
        matrix_product_permitted(rows_of(*a), rows_of(*b)),
    ensures
        shaped(rows_of(c), m as nat, n as nat),
        is_matrix_product(rows_of(*a), rows_of(*b), rows_of(c)),
{
    let ghost ra = rows_of(*a);
    let ghost rb = rows_of(*b);
    let mut data: Vec<Vec<T>> = Vec::new();
    let mut i: usize = 0;
    while i < m
        invariant
            i <= m,
            k >= 1,
            ra == rows_of(*a),
            rb == rows_of(*b),
            shaped(ra, m as nat, k as nat),
            shaped(rb, k as nat, n as nat),
            matrix_product_permitted(ra, rb),
            data@.len() == i,
            forall|r: int| 0 <= r < i ==> (#[trigger] data@[r])@.len() == n,
            forall|r: int, q: int|
                0 <= r < i && 0 <= q < n ==> is_inner_product(
                    ra[r],
                    column(rb, q),
                    #[trigger] data@[r]@[q],
                ),
        decreases m - i,
    {
        let mut inner: Vec<T> = Vec::new();
        let mut j: usize = 0;
        while j < n
            invariant
                i < m,
                j <= n,
                k >= 1,
                ra == rows_of(*a),
                rb == rows_of(*b),
                shaped(ra, m as nat, k as nat),
                shaped(rb, k as nat, n as nat),
                matrix_product_permitted(ra, rb),
                inner@.len() == j,
                forall|q: int|
                    0 <= q < j ==> is_inner_product(ra[i as int], column(rb, q), #[trigger] inner@[q]),
            decreases n - j,
        {
            let ghost row = ra[i as int];
            let ghost col = column(rb, j as int);
            assert(width(rb) == n);
            assert(inner_product_permitted(row, col));
            let mut acc: T = number::<T>(0u8);
            let mut t: usize = 0;
            while t < k
                invariant
                    i < m,
                    j < n,
                    t <= k,
                    ra == rows_of(*a),
                    rb == rows_of(*b),
                    shaped(ra, m as nat, k as nat),
                    shaped(rb, k as nat, n as nat),
                    row == ra[i as int],
                    col == column(rb, j as int),
                    inner_product_permitted(row, col),
                    accumulates(row, col, t as nat, acc),
                decreases k - t,
            {
                assert(row.len() == k);
                assert(rb[t as int].len() == n);
                let x = a[i][t];
                let y = b[t][j];
                assert(x == row[t as int]);
                assert(y == col[t as int]);
                assert(can_mul(row[t as int], col[t as int]));
                let p = x * y;
                assert(can_add(acc, p));
                let next = acc + p;
                proof {
                    lemma_accumulates_step(row, col, t as nat, acc, p, next);
                }
                acc = next;
                t += 1;
            }
            assert(row.len() == k);
            inner.push(acc);
            j += 1;
        }
        data.push(inner);
        i += 1;
    }
    assert(width(rb) == n);
    data
}

/// Exchanges the rows and columns of a `rows` by `cols` matrix.
pub(crate) fn transpose<T: Copy>(a: &Vec<Vec<T>>, rows: usize, cols: usize) -> (t: Vec<Vec<T>>)
    requires
        rows >= 1,
        shaped(rows_of(*a), rows as nat, cols as nat),
    ensures
        shaped(rows_of(t), cols as nat, rows as nat),
        rows_of(t) == transposed(rows_of(*a)),
{
    let ghost ra = rows_of(*a);
    let mut data: Vec<Vec<T>> = Vec::new();
    let mut j: usize = 0;
    while j < cols
        invariant
            j <= cols,
            rows >= 1,
            ra == rows_of(*a),
            shaped(ra, rows as nat, cols as nat),
            data@.len() == j,
            forall|c: int| 0 <= c < j ==> (#[trigger] data@[c])@ == column(ra, c),
        decreases cols - j,
    {
        let mut inner: Vec<T> = Vec::new();
        let mut i: usize = 0;
        while i < rows
            invariant
                j < cols,
                i <= rows,
                ra == rows_of(*a),
                shaped(ra, rows as nat, cols as nat),
                inner@.len() == i,
                forall|r: int| 0 <= r < i ==> #[trigger] inner@[r] == ra[r][j as int],
            decreases rows - i,
        {
            assert(ra[i as int].len() == cols);
            inner.push(a[i][j]);
            i += 1;
        }
        assert(inner@ =~= column(ra, j as int));
        data.push(inner);
        j += 1;
    }
    assert(width(ra) == cols);
    assert(rows_of(data) =~= transposed(ra));
    data
}

/// Adds `y` to `x` entry by entry.
pub(crate) fn sum<T: Scalar>(x: &Vec<Vec<T>>, y: &Vec<Vec<T>>, rows: usize, cols: usize) -> (s: Vec<
    Vec<T>,
>)
    requires
        shaped(rows_of(*x), rows as nat, cols as nat),
        shaped(rows_of(*y), rows as nat, cols as nat),
        matrix_sum_permitted(rows_of(*x), rows_of(*y)),
    ensures
        shaped(rows_of(s), rows as nat, cols as nat),
        is_matrix_sum(rows_of(*x), rows_of(*y), rows_of(s)),
{
    let ghost rx = rows_of(*x);
    let ghost ry = rows_of(*y);
    let mut data: Vec<Vec<T>> = Vec::new();
    let mut i: usize = 0;
    while i < rows
        invariant
            i <= rows,
            rx == rows_of(*x),
            ry == rows_of(*y),
            shaped(rx, rows as nat, cols as nat),
            shaped(ry, rows as nat, cols as nat),
            matrix_sum_permitted(rx, ry),
            data@.len() == i,
            forall|r: int| 0 <= r < i ==> (#[trigger] data@[r])@.len() == cols,
            forall|r: int, c: int|
                0 <= r < i && 0 <= c < cols ==> is_sum(rx[r][c], ry[r][c], #[trigger] data@[r]@[c]),
        decreases rows - i,
    {
        let mut inner: Vec<T> = Vec::new();
        let mut j: usize = 0;
        while j < cols
            invariant
                i < rows,
                j <= cols,
                rx == rows_of(*x),
                ry == rows_of(*y),
                shaped(rx, rows as nat, cols as nat),
                shaped(ry, rows as nat, cols as nat),
                matrix_sum_permitted(rx, ry),
                inner@.len() == j,
                forall|c: int|
                    0 <= c < j ==> is_sum(rx[i as int][c], ry[i as int][c], #[trigger] inner@[c]),
            decreases cols - j,
        {
            assert(rx[i as int].len() == cols);
            assert(ry[i as int].len() == cols);
            assert(can_add(rx[i as int][j as int], ry[i as int][j as int]));
            inner.push(x[i][j] + y[i][j]);
            j += 1;
        }
        data.push(inner);
        i += 1;
    }
    data
}

} // verus!
