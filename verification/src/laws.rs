//! What holds of products and of backward passes in general, stated over
//! the vocabulary of the contracts.
use vstd::prelude::*;
use crate::graph::{
    backpropagates, backward_permitted, depends_on, feed_permitted, feeds, fires, mark, only,
    seeds, step, swept, takes_up, GraphView, Op,
};
use crate::matrix::{
    accumulates, column, constant, inner_product_permitted, is_inner_product, is_matrix_product,
    is_matrix_sum, matrix_product_permitted, matrix_sum_permitted, shaped, transposed, width,
};
use crate::scalar::{
    arithmetic_is_functional, arithmetic_is_total, can_add, can_mul, is_product, is_sum, is_zero,
    Scalar,
};
use vstd::std_specs::convert::FromSpec;
use vstd::std_specs::ops::AddSpec;
use vstd::std_specs::ops::MulSpec;

verus! {

/// Every operation that the inner product of `row` and `col` can come to
/// has one outcome: the zero it starts from, each product `row[t] * col[t]`,
/// and each sum that takes up such a product.
pub open spec fn inner_product_is_functional<T: Scalar>(row: Seq<T>, col: Seq<T>) -> bool {
    &&& forall|y: T, z: T| #[trigger] is_zero(y) && #[trigger] is_zero(z) ==> y == z
    &&& forall|t: int, p: T, q: T|
        0 <= t < row.len() && #[trigger] is_product(row[t], col[t], p) && #[trigger] is_product(
            row[t],
            col[t],
            q,
        ) ==> p == q
    &&& forall|n: nat, acc: T, p: T, s: T, u: T|
        n < row.len() && #[trigger] accumulates(row, col, n, acc) && #[trigger] is_product(
            row[n as int],
            col[n as int],
            p,
        ) && #[trigger] is_sum(acc, p, s) && #[trigger] is_sum(acc, p, u) ==> s == u
}

/// Every operation that the matrix product of `a` and `b` can come to has
/// one outcome.
pub open spec fn matrix_product_is_functional<T: Scalar>(a: Seq<Seq<T>>, b: Seq<Seq<T>>) -> bool {
    forall|i: int, j: int|
        0 <= i < a.len() && 0 <= j < width(b) ==> inner_product_is_functional(
            #[trigger] a[i],
            #[trigger] column(b, j),
        )
}

/// Where every operation on the way has one outcome, so has the
/// accumulation of products.
pub proof fn lemma_accumulation_is_functional<T: Scalar>(
    row: Seq<T>,
    col: Seq<T>,
    n: nat,
    first: T,
    second: T,
)
    requires
        inner_product_is_functional(row, col),
        n <= row.len(),
        accumulates(row, col, n, first),
        accumulates(row, col, n, second),
    ensures
        first == second,
    decreases n,
{
    if n > 0 {
        let (left_acc, left_p) = choose|acc: T, p: T|
            accumulates(row, col, (n - 1) as nat, acc) && is_product(row[n - 1], col[n - 1], p)
                && #[trigger] is_sum(acc, p, first);
        let (right_acc, right_p) = choose|acc: T, p: T|
            accumulates(row, col, (n - 1) as nat, acc) && is_product(row[n - 1], col[n - 1], p)
                && #[trigger] is_sum(acc, p, second);
        lemma_accumulation_is_functional(row, col, (n - 1) as nat, left_acc, right_acc);
        let m = (n - 1) as nat;
        assert(is_product(row[m as int], col[m as int], left_p));
        assert(is_product(row[m as int], col[m as int], right_p));
    }
}

/// Multiplying the same matrices twice gives the same product, entry for
/// entry, wherever every operation on the way has one outcome.
pub proof fn law_product_is_deterministic<T: Scalar>(
    a: Seq<Seq<T>>,
    b: Seq<Seq<T>>,
    first: Seq<Seq<T>>,
    second: Seq<Seq<T>>,
)
    requires
        matrix_product_is_functional(a, b),
        is_matrix_product(a, b, first),
        is_matrix_product(a, b, second),
    ensures
        first == second,
{
    assert forall|i: int| 0 <= i < first.len() implies first[i] == second[i] by {
        assert forall|j: int| 0 <= j < first[i].len() implies first[i][j] == second[i][j] by {
            assert(is_inner_product(a[i], column(b, j), first[i][j]));
            assert(is_inner_product(a[i], column(b, j), second[i][j]));
            assert(inner_product_is_functional(a[i], column(b, j)));
            lemma_accumulation_is_functional(
                a[i],
                column(b, j),
                a[i].len(),
                first[i][j],
                second[i][j],
            );
        }
        assert(first[i] =~= second[i]);
    }
    assert(first =~= second);
}

/// A number type each of whose operations has one outcome makes every
/// matrix product functional.
pub proof fn law_functional_arithmetic_gives_functional_products<T: Scalar>(
    a: Seq<Seq<T>>,
    b: Seq<Seq<T>>,
)
    requires
        arithmetic_is_functional::<T>(),
    ensures
        matrix_product_is_functional(a, b),
{
    assert forall|i: int, j: int|
        0 <= i < a.len() && 0 <= j < width(b) implies inner_product_is_functional(
        #[trigger] a[i],
        #[trigger] column(b, j),
    ) by {
    }
}

/// The arithmetic is definite: the conversion from small integers, `+` and
/// `*` each compute a function that the number type names.
pub open spec fn arithmetic_is_definite<T: Scalar>() -> bool {
    &&& <T as FromSpec<u8>>::obeys_from_spec()
    &&& <T as AddSpec>::obeys_add_spec()
    &&& <T as MulSpec>::obeys_mul_spec()
}

/// The sum of the first `n` products `row[t] * col[t]`, added to zero in
/// the order of `t`, by the functions that the number type names.
pub open spec fn accumulated<T: Scalar>(row: Seq<T>, col: Seq<T>, n: nat) -> T
    decreases n,
{
    if n == 0 {
        <T as FromSpec<u8>>::from_spec(0u8)
    } else {
        accumulated(row, col, (n - 1) as nat).add_spec(row[n - 1].mul_spec(col[n - 1]))
    }
}

/// For a number type whose arithmetic is definite, the one outcome of an
/// accumulation of products is the sum that its functions give.
pub proof fn law_accumulation_value<T: Scalar>(row: Seq<T>, col: Seq<T>, n: nat, r: T)
    requires
        arithmetic_is_definite::<T>(),
        accumulates(row, col, n, r),
    ensures
        r == accumulated(row, col, n),
    decreases n,
{
    if n > 0 {
        let (acc, p) = choose|acc: T, p: T|
            accumulates(row, col, (n - 1) as nat, acc) && is_product(row[n - 1], col[n - 1], p)
                && #[trigger] is_sum(acc, p, r);
        law_accumulation_value(row, col, (n - 1) as nat, acc);
    }
}

/// For a number type whose arithmetic is definite, every entry of a matrix
/// product is the sum that its functions give for the row and the column.
pub proof fn law_product_value<T: Scalar>(a: Seq<Seq<T>>, b: Seq<Seq<T>>, c: Seq<Seq<T>>)
    requires
        arithmetic_is_definite::<T>(),
        is_matrix_product(a, b, c),
    ensures
        forall|i: int, j: int|
            0 <= i < a.len() && 0 <= j < width(b) ==> #[trigger] c[i][j] == accumulated(
                a[i],
                column(b, j),
                a[i].len(),
            ),
{
    assert forall|i: int, j: int| 0 <= i < a.len() && 0 <= j < width(b) implies #[trigger] c[i][j]
        == accumulated(a[i], column(b, j), a[i].len()) by {
        assert(is_inner_product(a[i], column(b, j), c[i][j]));
        law_accumulation_value(a[i], column(b, j), a[i].len(), c[i][j]);
    }
}

/// For a number type whose arithmetic is definite, an inner product is
/// permitted where the number type accepts each product and each sum of the
/// one accumulation that its functions give.
pub proof fn law_definite_inner_product_permitted<T: Scalar>(row: Seq<T>, col: Seq<T>)
    requires
        arithmetic_is_definite::<T>(),
        forall|t: int|
            0 <= t < row.len() ==> #[trigger] can_mul(row[t], col[t]) && can_add(
                accumulated(row, col, t as nat),
                row[t].mul_spec(col[t]),
            ),
    ensures
        inner_product_permitted(row, col),
{
    assert forall|n: nat, acc: T, p: T|
        n < row.len() && #[trigger] accumulates(row, col, n, acc) && is_product(
            row[n as int],
            col[n as int],
            p,
        ) implies #[trigger] can_add(acc, p) by {
        law_accumulation_value(row, col, n, acc);
        assert(can_mul(row[n as int], col[n as int]));
    }
}

/// A number type that accepts every sum and every product permits every
/// matrix product.
pub proof fn law_total_arithmetic_permits_products<T: Scalar>(a: Seq<Seq<T>>, b: Seq<Seq<T>>)
    requires
        arithmetic_is_total::<T>(),
    ensures
        matrix_product_permitted(a, b),
{
    assert forall|i: int, j: int| 0 <= i < a.len() && 0 <= j < width(b) implies inner_product_permitted(
        #[trigger] a[i],
        #[trigger] column(b, j),
    ) by {
    }
}

/// A number type that accepts every sum and every product permits every
/// backward pass.
pub proof fn law_total_arithmetic_permits_backward<T: Scalar>(g: GraphView<T>, root: int)
    requires
        arithmetic_is_total::<T>(),
    ensures
        backward_permitted(g, root),
{
    assert forall|x: Seq<Seq<T>>, y: Seq<Seq<T>>| #[trigger] matrix_sum_permitted(x, y) by {
    }
    assert forall|before: Option<Seq<Seq<T>>>, x: Seq<Seq<T>>, y: Seq<Seq<T>>| #[trigger]
        feed_permitted(before, x, y) by {
        law_total_arithmetic_permits_products(x, y);
    }
}

/// A node comes after every node that it depends on.
pub proof fn lemma_dependency_precedes<T: Scalar>(g: GraphView<T>, x: int, y: int)
    requires
        depends_on(g, x, y),
    ensures
        y < x,
    decreases x,
{
    let left = g.ops[x]->left as int;
    let right = g.ops[x]->right as int;
    if left != y && right != y {
        if depends_on(g, left, y) {
            lemma_dependency_precedes(g, left, y);
        } else {
            lemma_dependency_precedes(g, right, y);
        }
    }
}

/// What a node depends on, it depends on with its operands: if `x` depends
/// on the product `j`, it depends on both operands of `j`.
pub proof fn lemma_dependency_extends<T: Scalar>(g: GraphView<T>, x: int, j: int)
    requires
        g.wf(),
        depends_on(g, x, j),
        0 <= j < g.ops.len(),
        g.ops[j] is Dot,
    ensures
        depends_on(g, x, g.ops[j]->left as int),
        depends_on(g, x, g.ops[j]->right as int),
    decreases x,
{
    let left = g.ops[x]->left as int;
    let right = g.ops[x]->right as int;
    if left == j || right == j {
        assert(depends_on(g, j, g.ops[j]->left as int));
        assert(depends_on(g, j, g.ops[j]->right as int));
    } else if depends_on(g, left, j) {
        lemma_dependency_extends(g, left, j);
    } else {
        lemma_dependency_extends(g, right, j);
    }
}

/// However many nodes a backward pass from `root` has visited, it has
/// reached only the root and nodes that the root depends on, and the
/// gradient of every other node is the one it started with.
pub proof fn lemma_swept_is_local<T: Scalar>(
    g: GraphView<T>,
    start: Seq<Option<Seq<Seq<T>>>>,
    root: int,
    count: nat,
    grads: Seq<Option<Seq<Seq<T>>>>,
    reached: Seq<bool>,
)
    requires
        g.wf(),
        0 <= root < g.values.len(),
        start.len() == g.values.len(),
        count <= root + 1,
        swept(g, start, root, count, grads, reached),
    ensures
        grads.len() == g.values.len(),
        reached.len() == g.values.len(),
        forall|i: int|
            0 <= i < g.values.len() && #[trigger] reached[i] ==> i == root || depends_on(g, root, i),
        forall|i: int|
            0 <= i < g.values.len() && i != root && !depends_on(g, root, i) ==> #[trigger] grads[i]
                == start[i],
    decreases count,
{
    if count > 0 {
        let (prev, was) = choose|prev: Seq<Option<Seq<Seq<T>>>>, was: Seq<bool>|
            swept(g, start, root, (count - 1) as nat, prev, was) && #[trigger] step(
                g,
                root - (count - 1),
                prev,
                was,
                grads,
            ) && reached == #[trigger] mark(g, root - (count - 1), prev, was);
        lemma_swept_is_local(g, start, root, (count - 1) as nat, prev, was);
        let j = root - (count - 1);
        if fires(g, j, prev, was) {
            let left = g.ops[j]->left as int;
            let right = g.ops[j]->right as int;
            if j == root {
                assert(depends_on(g, root, left));
                assert(depends_on(g, root, right));
            } else {
                lemma_dependency_extends(g, root, j);
            }
            lemma_dependency_precedes(g, root, left);
            lemma_dependency_precedes(g, root, right);
            let mid = choose|mid: Seq<Option<Seq<Seq<T>>>>| #[trigger]
                feeds(prev, left, prev[j].unwrap(), transposed(g.values[right]), mid) && feeds(
                    mid,
                    right,
                    transposed(g.values[left]),
                    prev[j].unwrap(),
                    grads,
                );
            assert forall|i: int|
                0 <= i < g.values.len() && i != root && !depends_on(g, root, i) implies #[trigger] grads[i]
                == start[i] by {
                assert(grads[i] == mid[i]);
                assert(mid[i] == prev[i]);
            }
        }
    }
}

/// A backward pass is local: it changes the gradient of no node other than
/// the root and the nodes that the root depends on.
pub proof fn law_backward_is_local<T: Scalar>(
    g: GraphView<T>,
    root: int,
    after: Seq<Option<Seq<Seq<T>>>>,
)
    requires
        g.wf(),
        0 <= root < g.values.len(),
        backpropagates(g, root, after),
    ensures
        after.len() == g.grads.len(),
        forall|i: int|
            0 <= i < g.grads.len() && i != root && !depends_on(g, root, i) ==> #[trigger] after[i]
                == g.grads[i],
{
    let (ones, reached) = choose|ones: Seq<Seq<T>>, reached: Seq<bool>|
        seeds(g, root, ones) && #[trigger] swept(
            g,
            g.grads.update(root, Some(ones)),
            root,
            (root + 1) as nat,
            after,
            reached,
        );
    let start = g.grads.update(root, Some(ones));
    lemma_swept_is_local(g, start, root, (root + 1) as nat, after, reached);
}

/// In a backward pass from the product `c` of `a` and `b`, neither of which
/// depends on the other, the gradients of `a`, `b` and `c` are settled by
/// the visit of `c`: later visits leave them as that visit left them.
proof fn lemma_swept_from_product<T: Scalar>(
    g: GraphView<T>,
    start: Seq<Option<Seq<Seq<T>>>>,
    a: usize,
    b: usize,
    c: usize,
    count: nat,
    grads: Seq<Option<Seq<Seq<T>>>>,
    reached: Seq<bool>,
) -> (first: Seq<Option<Seq<Seq<T>>>>)
    requires
        g.wf(),
        c < g.values.len(),
        start.len() == g.values.len(),
        g.ops[c as int] == (Op::Dot { left: a, right: b }),
        !depends_on(g, a as int, b as int),
        !depends_on(g, b as int, a as int),
        1 <= count <= c + 1,
        swept(g, start, c as int, count, grads, reached),
    ensures
        step(g, c as int, start, only(g.values.len(), c as int), first),
        grads[a as int] == first[a as int],
        grads[b as int] == first[b as int],
        grads[c as int] == first[c as int],
    decreases count,
{
    let (prev, was) = choose|prev: Seq<Option<Seq<Seq<T>>>>, was: Seq<bool>|
        swept(g, start, c as int, (count - 1) as nat, prev, was) && #[trigger] step(
            g,
            c - (count - 1),
            prev,
            was,
            grads,
        ) && reached == #[trigger] mark(g, c - (count - 1), prev, was);
    if count == 1 {
        grads
    } else {
        let first = lemma_swept_from_product(g, start, a, b, c, (count - 1) as nat, prev, was);
        lemma_swept_is_local(g, start, c as int, (count - 1) as nat, prev, was);
        let j = c - (count - 1);
        if fires(g, j, prev, was) {
            let left = g.ops[j]->left as int;
            let right = g.ops[j]->right as int;
            assert(depends_on(g, c as int, j));
            assert(j == a || j == b || depends_on(g, a as int, j) || depends_on(g, b as int, j));
            if depends_on(g, a as int, j) {
                lemma_dependency_precedes(g, a as int, j);
                lemma_dependency_extends(g, a as int, j);
            }
            if depends_on(g, b as int, j) {
                lemma_dependency_precedes(g, b as int, j);
                lemma_dependency_extends(g, b as int, j);
            }
            if j == a {
                assert(depends_on(g, a as int, left));
                assert(depends_on(g, a as int, right));
            }
            if j == b {
                assert(depends_on(g, b as int, left));
                assert(depends_on(g, b as int, right));
            }
            assert(left != a && left != b && left != c);
            assert(right != a && right != b && right != c);
            let mid = choose|mid: Seq<Option<Seq<Seq<T>>>>| #[trigger]
                feeds(prev, left, prev[j].unwrap(), transposed(g.values[right]), mid) && feeds(
                    mid,
                    right,
                    transposed(g.values[left]),
                    prev[j].unwrap(),
                    grads,
                );
            assert(grads[a as int] == mid[a as int]);
            assert(mid[a as int] == prev[a as int]);
            assert(grads[b as int] == mid[b as int]);
            assert(mid[b as int] == prev[b as int]);
            assert(grads[c as int] == mid[c as int]);
            assert(mid[c as int] == prev[c as int]);
        }
        first
    }
}

/// The gradients of a product. Let node `c` be the product of two
/// different nodes `a` and `b`, neither of which depends on the other. A
/// backward pass from `c` sets the gradient of `c` to a matrix of ones; the
/// gradient of `a` takes up the product of those ones and the transpose of
/// `b`; the gradient of `b` takes up the product of the transpose of `a`
/// and those ones.
pub proof fn law_gradients_of_product<T: Scalar>(
    g: GraphView<T>,
    a: usize,
    b: usize,
    c: usize,
    after: Seq<Option<Seq<Seq<T>>>>,
)
    requires
        g.wf(),
        c < g.values.len(),
        g.ops[c as int] == (Op::Dot { left: a, right: b }),
        a != b,
        !depends_on(g, a as int, b as int),
        !depends_on(g, b as int, a as int),
        backpropagates(g, c as int, after),
    ensures
        exists|ones: Seq<Seq<T>>|
            {
                &&& #[trigger] seeds(g, c as int, ones)
                &&& after[c as int] == Some(ones)
                &&& takes_up(
                    g.grads[a as int],
                    ones,
                    transposed(g.values[b as int]),
                    after[a as int],
                )
                &&& takes_up(
                    g.grads[b as int],
                    transposed(g.values[a as int]),
                    ones,
                    after[b as int],
                )
            },
{
    let (ones, reached) = choose|ones: Seq<Seq<T>>, reached: Seq<bool>|
        seeds(g, c as int, ones) && #[trigger] swept(
            g,
            g.grads.update(c as int, Some(ones)),
            c as int,
            (c + 1) as nat,
            after,
            reached,
        );
    let start = g.grads.update(c as int, Some(ones));
    let first = lemma_swept_from_product(g, start, a, b, c, (c + 1) as nat, after, reached);
    assert(fires(g, c as int, start, only(g.values.len(), c as int)));
    let mid = choose|mid: Seq<Option<Seq<Seq<T>>>>| #[trigger]
        feeds(start, a as int, ones, transposed(g.values[b as int]), mid) && feeds(
            mid,
            b as int,
            transposed(g.values[a as int]),
            ones,
            first,
        );
    assert(mid[b as int] == start[b as int]);
    assert(first[a as int] == mid[a as int]);
    assert(first[c as int] == mid[c as int]);
    assert(seeds(g, c as int, ones));
}

/// Adding to a zero changes nothing: the one outcome of `z + x`, for a zero
/// `z`, is `x`.
pub open spec fn zero_is_neutral<T: Scalar>() -> bool {
    forall|z: T, x: T, s: T| is_zero(z) && #[trigger] is_sum(z, x, s) ==> s == x
}

/// A gradient of zeros that takes up a product becomes that product, where
/// adding to a zero changes nothing.
pub proof fn lemma_zeros_take_up_the_product<T: Scalar>(
    zeros: Seq<Seq<T>>,
    x: Seq<Seq<T>>,
    y: Seq<Seq<T>>,
    after: Option<Seq<Seq<T>>>,
)
    requires
        zero_is_neutral::<T>(),
        constant(zeros, 0u8),
        shaped(zeros, x.len(), width(y)),
        takes_up(Some(zeros), x, y, after),
    ensures
        after is Some,
        is_matrix_product(x, y, after.unwrap()),
{
    let p = choose|p: Seq<Seq<T>>| #[trigger]
        is_matrix_product(x, y, p) && is_matrix_sum(zeros, p, after.unwrap());
    let grown = after.unwrap();
    assert forall|i: int| 0 <= i < grown.len() implies grown[i] == p[i] by {
        assert(zeros[i].len() == width(y));
        assert forall|j: int| 0 <= j < grown[i].len() implies grown[i][j] == p[i][j] by {
            assert(is_zero(zeros[i][j]));
            assert(is_sum(zeros[i][j], p[i][j], grown[i][j]));
        }
        assert(grown[i] =~= p[i]);
    }
    assert(grown =~= p);
}

/// The gradients of a product in a fresh graph. Let node `c` be the product
/// of two different nodes `a` and `b`, neither of which depends on the
/// other, whose gradients are still zeros, and let adding to a zero change
/// nothing. After a backward pass from `c`, the gradient of `a` is the
/// product of a matrix of ones in the shape of `c` and the transpose of
/// `b`, and the gradient of `b` is the product of the transpose of `a` and
/// those ones.
pub proof fn law_gradients_of_fresh_product<T: Scalar>(
    g: GraphView<T>,
    a: usize,
    b: usize,
    c: usize,
    after: Seq<Option<Seq<Seq<T>>>>,
)
    requires
        g.wf(),
        c < g.values.len(),
        g.ops[c as int] == (Op::Dot { left: a, right: b }),
        a != b,
        !depends_on(g, a as int, b as int),
        !depends_on(g, b as int, a as int),
        zero_is_neutral::<T>(),
        g.grads[a as int] matches Some(z) ==> constant(z, 0u8),
        g.grads[b as int] matches Some(z) ==> constant(z, 0u8),
        backpropagates(g, c as int, after),
    ensures
        exists|ones: Seq<Seq<T>>|
            {
                &&& #[trigger] seeds(g, c as int, ones)
                &&& after[c as int] == Some(ones)
                &&& g.grads[a as int] is Some ==> after[a as int] is Some && is_matrix_product(
                    ones,
                    transposed(g.values[b as int]),
                    after[a as int].unwrap(),
                )
                &&& g.grads[b as int] is Some ==> after[b as int] is Some && is_matrix_product(
                    transposed(g.values[a as int]),
                    ones,
                    after[b as int].unwrap(),
                )
            },
{
    law_gradients_of_product(g, a, b, c, after);
    let ones = choose|ones: Seq<Seq<T>>|
        {
            &&& #[trigger] seeds(g, c as int, ones)
            &&& after[c as int] == Some(ones)
            &&& takes_up(g.grads[a as int], ones, transposed(g.values[b as int]), after[a as int])
            &&& takes_up(g.grads[b as int], transposed(g.values[a as int]), ones, after[b as int])
        };
    let va = g.values[a as int];
    let vb = g.values[b as int];
    assert(g.product_fits(c as int, a as int, b as int));
    assert(g.matrix_at(a as int) && g.matrix_at(b as int) && g.matrix_at(c as int));
    assert(g.gradient_fits(a as int) && g.gradient_fits(b as int));
    if let Some(z) = g.grads[a as int] {
        assert(transposed(vb).len() == width(vb));
        assert(transposed(vb)[0] == column(vb, 0));
        assert(width(transposed(vb)) == vb.len());
        lemma_zeros_take_up_the_product(z, ones, transposed(vb), after[a as int]);
    }
    if let Some(z) = g.grads[b as int] {
        assert(transposed(va).len() == width(va));
        lemma_zeros_take_up_the_product(z, transposed(va), ones, after[b as int]);
    }
}

} // verus!
