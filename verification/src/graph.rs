//! The computation graph: an arena of tensors, each with the record of the
//! operation that produced it, over which gradients are propagated from a
//! root back to its operands.
use vstd::prelude::*;
use crate::error::TensorError;
use crate::matrix::{
    constant, duplicate, filled, is_matrix_product, is_matrix_sum, matrix_product_permitted,
    matrix_sum_permitted, multiply, rows_of, shaped, sum, transpose, transposed, width,
};
use crate::scalar::Scalar;
use crate::tensor::Tensor;

verus! {

/// How a node of the graph came to be.
#[derive(Debug, Clone, Copy, PartialEq, Eq, Structural)]
pub enum Op {
    /// The tensor was handed in from outside.
    Leaf,
    /// The tensor is the matrix product of the nodes `left` and `right`.
    Dot { left: usize, right: usize },
}

/// A graph as contracts see it: for each node its entries, its gradient
/// where it holds one, and its operation.
pub struct GraphView<T> {
    pub values: Seq<Seq<Seq<T>>>,
    pub grads: Seq<Option<Seq<Seq<T>>>>,
    pub ops: Seq<Op>,
}

impl<T: Scalar> GraphView<T> {
    /// Node `i` is a matrix of at least one row and one column.
    pub open spec fn matrix_at(self, i: int) -> bool {
        &&& self.values[i].len() >= 1
        &&& width(self.values[i]) >= 1
        &&& shaped(self.values[i], self.values[i].len(), width(self.values[i]))
    }

    /// The gradient of node `i`, if it holds one, has the shape of the node.
    pub open spec fn gradient_fits(self, i: int) -> bool {
        self.grads[i] matches Some(g) ==> shaped(g, self.values[i].len(), width(self.values[i]))
    }

    /// Node `i` is the product of `left` and `right`: they come before it,
    /// their shapes fit, and the node holds an outcome of multiplying them
    /// and a gradient.
    pub open spec fn product_fits(self, i: int, left: int, right: int) -> bool {
        &&& 0 <= left < i
        &&& 0 <= right < i
        &&& width(self.values[left]) == self.values[right].len()
        &&& self.values[i].len() == self.values[left].len()
        &&& width(self.values[i]) == width(self.values[right])
        &&& self.grads[i] is Some
        &&& is_matrix_product(self.values[left], self.values[right], self.values[i])
    }

    /// Every node is a matrix with a gradient of its own shape, if any, and
    /// every product fits its operands.
    pub open spec fn wf(self) -> bool {
        &&& self.grads.len() == self.values.len()
        &&& self.ops.len() == self.values.len()
        &&& forall|i: int| 0 <= i < self.values.len() ==> #[trigger] self.matrix_at(i)
        &&& forall|i: int| 0 <= i < self.values.len() ==> #[trigger] self.gradient_fits(i)
        &&& forall|i: int|
            0 <= i < self.values.len() ==> (#[trigger] self.ops[i] matches Op::Dot {
                left,
                right,
            } ==> self.product_fits(i, left as int, right as int))
    }
}

/// Node `x` is computed from node `y`, directly or through other products.
pub open spec fn depends_on<T: Scalar>(g: GraphView<T>, x: int, y: int) -> bool
    decreases x,
{
    if 0 <= x < g.ops.len() && g.ops[x] is Dot && g.ops[x]->left < x && g.ops[x]->right < x {
        let left = g.ops[x]->left as int;
        let right = g.ops[x]->right as int;
        left == y || right == y || depends_on(g, left, y) || depends_on(g, right, y)
    } else {
        false
    }
}

/// The gradient `before` after it took up an outcome of the product of `x`
/// and `y`. A tensor without a gradient takes up nothing.
pub open spec fn takes_up<T: Scalar>(
    before: Option<Seq<Seq<T>>>,
    x: Seq<Seq<T>>,
    y: Seq<Seq<T>>,
    after: Option<Seq<Seq<T>>>,
) -> bool {
    match before {
        None => after is None,
        Some(held) => after is Some && exists|p: Seq<Seq<T>>| #[trigger]
            is_matrix_product(x, y, p) && is_matrix_sum(held, p, after.unwrap()),
    }
}

/// `after` is `grads` in which the gradient of node `k` took up an outcome
/// of the product of `x` and `y`, and nothing else changed.
pub open spec fn feeds<T: Scalar>(
    grads: Seq<Option<Seq<Seq<T>>>>,
    k: int,
    x: Seq<Seq<T>>,
    y: Seq<Seq<T>>,
    after: Seq<Option<Seq<Seq<T>>>>,
) -> bool {
    &&& after.len() == grads.len()
    &&& forall|i: int| 0 <= i < grads.len() && i != k ==> #[trigger] after[i] == grads[i]
    &&& takes_up(grads[k], x, y, after[k])
}

/// Node `j` hands its gradient on: it was reached from the root, is a
/// product and holds a gradient.
pub open spec fn fires<T: Scalar>(
    g: GraphView<T>,
    j: int,
    grads: Seq<Option<Seq<Seq<T>>>>,
    reached: Seq<bool>,
) -> bool {
    reached[j] && g.ops[j] is Dot && grads[j] is Some
}

/// The visit of node `j`. Where the node is a product `C = A * B` with
/// gradient `dC` that was reached from the root, the gradient of `A` takes
/// up `dC * transposed(B)` and then the gradient of `B` takes up
/// `transposed(A) * dC`. Any other node leaves the gradients as they are.
pub open spec fn step<T: Scalar>(
    g: GraphView<T>,
    j: int,
    grads: Seq<Option<Seq<Seq<T>>>>,
    reached: Seq<bool>,
    after: Seq<Option<Seq<Seq<T>>>>,
) -> bool {
    if fires(g, j, grads, reached) {
        let left = g.ops[j]->left as int;
        let right = g.ops[j]->right as int;
        let up = grads[j].unwrap();
        exists|mid: Seq<Option<Seq<Seq<T>>>>| #[trigger]
            feeds(grads, left, up, transposed(g.values[right]), mid) && feeds(
                mid,
                right,
                transposed(g.values[left]),
                up,
                after,
            )
    } else {
        after == grads
    }
}

/// The nodes reached from the root once node `j` was visited: a product
/// that was reached reaches its two operands.
pub open spec fn mark<T: Scalar>(
    g: GraphView<T>,
    j: int,
    grads: Seq<Option<Seq<Seq<T>>>>,
    reached: Seq<bool>,
) -> Seq<bool> {
    if fires(g, j, grads, reached) {
        reached.update(g.ops[j]->left as int, true).update(g.ops[j]->right as int, true)
    } else {
        reached
    }
}

/// Only the root is reached.
pub open spec fn only(len: nat, root: int) -> Seq<bool> {
    Seq::new(len, |i: int| i == root)
}

/// `grads` and `reached` are an outcome of visiting `count` nodes, from
/// `root` downwards, starting from the gradients `start` with only the root
/// reached.
pub open spec fn swept<T: Scalar>(
    g: GraphView<T>,
    start: Seq<Option<Seq<Seq<T>>>>,
    root: int,
    count: nat,
    grads: Seq<Option<Seq<Seq<T>>>>,
    reached: Seq<bool>,
) -> bool
    decreases count,
{
    if count == 0 {
        grads == start && reached == only(g.values.len(), root)
    } else {
        exists|prev: Seq<Option<Seq<Seq<T>>>>, was: Seq<bool>|
            swept(g, start, root, (count - 1) as nat, prev, was) && #[trigger] step(
                g,
                root - (count - 1),
                prev,
                was,
                grads,
            ) && reached == #[trigger] mark(g, root - (count - 1), prev, was)
    }
}

/// `seed` is a gradient of ones for node `root`.
pub open spec fn seeds<T: Scalar>(g: GraphView<T>, root: int, seed: Seq<Seq<T>>) -> bool {
    shaped(seed, g.values[root].len(), width(g.values[root])) && constant(seed, 1u8)
}

/// `after` holds the gradients that a backward pass from `root` can leave:
/// the gradient of the root is set to ones, then every node from the root
/// down to the first is visited.
pub open spec fn backpropagates<T: Scalar>(
    g: GraphView<T>,
    root: int,
    after: Seq<Option<Seq<Seq<T>>>>,
) -> bool {
    exists|seed: Seq<Seq<T>>, reached: Seq<bool>|
        seeds(g, root, seed) && #[trigger] swept(
            g,
            g.grads.update(root, Some(seed)),
            root,
            (root + 1) as nat,
            after,
            reached,
        )
}

/// The number type accepts every operation by which the gradient `before`
/// takes up the product of `x` and `y`.
pub open spec fn feed_permitted<T: Scalar>(
    before: Option<Seq<Seq<T>>>,
    x: Seq<Seq<T>>,
    y: Seq<Seq<T>>,
) -> bool {
    before matches Some(held) ==> {
        &&& matrix_product_permitted(x, y)
        &&& forall|p: Seq<Seq<T>>| #[trigger]
            is_matrix_product(x, y, p) ==> matrix_sum_permitted(held, p)
    }
}

/// The number type accepts every operation of the visit of node `j`.
pub open spec fn step_permitted<T: Scalar>(
    g: GraphView<T>,
    j: int,
    grads: Seq<Option<Seq<Seq<T>>>>,
    reached: Seq<bool>,
) -> bool {
    fires(g, j, grads, reached) ==> {
        let left = g.ops[j]->left as int;
        let right = g.ops[j]->right as int;
        let up = grads[j].unwrap();
        &&& feed_permitted(grads[left], up, transposed(g.values[right]))
        &&& forall|mid: Seq<Option<Seq<Seq<T>>>>| #[trigger]
            feeds(grads, left, up, transposed(g.values[right]), mid) ==> feed_permitted(
                mid[right],
                transposed(g.values[left]),
                up,
            )
    }
}

/// The number type accepts every operation that a backward pass from
/// `root` can come to.
pub open spec fn backward_permitted<T: Scalar>(g: GraphView<T>, root: int) -> bool {
    forall|
        seed: Seq<Seq<T>>,
        count: nat,
        grads: Seq<Option<Seq<Seq<T>>>>,
        reached: Seq<bool>,
    |
        seeds(g, root, seed) && count <= root && #[trigger] swept(
            g,
            g.grads.update(root, Some(seed)),
            root,
            count,
            grads,
            reached,
        ) ==> step_permitted(g, root - count, grads, reached)
}

/// One more node visited: from an outcome of `count` visits to an outcome
/// of `count + 1`.
pub proof fn lemma_swept_step<T: Scalar>(
    g: GraphView<T>,
    start: Seq<Option<Seq<Seq<T>>>>,
    root: int,
    count: nat,
    prev: Seq<Option<Seq<Seq<T>>>>,
    was: Seq<bool>,
    grads: Seq<Option<Seq<Seq<T>>>>,
)
    requires
        swept(g, start, root, count, prev, was),
        step(g, root - count, prev, was, grads),
    ensures
        swept(g, start, root, count + 1, grads, mark(g, root - count, prev, was)),
{
    let next: nat = count + 1;
    assert(swept(g, start, root, (next - 1) as nat, prev, was));
    assert(step(g, root - (next - 1), prev, was, grads));
}

/// A tensor of the arena with the record of its operation.
#[derive(Debug)]
struct Node<T> {
    tensor: Tensor<T>,
    op: Op,
}

/// An arena of tensors in which every product remembers its operands by
/// their handles. Handles are the positions at which nodes were added, so an
/// operand always comes before the product it feeds.
#[derive(Debug)]
pub struct Graph<T: Scalar> {
    nodes: Vec<Node<T>>,
}

/// What contracts see of a sequence of nodes.
spec fn view_of<T: Scalar>(nodes: Seq<Node<T>>) -> GraphView<T> {
    GraphView {
        values: Seq::new(nodes.len(), |i: int| nodes[i].tensor.entries()),
        grads: Seq::new(nodes.len(), |i: int| nodes[i].tensor.gradient()),
        ops: Seq::new(nodes.len(), |i: int| nodes[i].op),
    }
}

/// Every tensor is well formed, and so is the graph they make up.
spec fn sound<T: Scalar>(nodes: Seq<Node<T>>) -> bool {
    &&& forall|i: int| 0 <= i < nodes.len() ==> (#[trigger] nodes[i]).tensor.wf()
    &&& view_of(nodes).wf()
}

/// A node may join the arena where its tensor is well formed and, if it is
/// a product, its operands are in the arena and it holds an outcome of
/// multiplying them, with a gradient.
spec fn joins<T: Scalar>(nodes: Seq<Node<T>>, node: Node<T>) -> bool {
    &&& node.tensor.wf()
    &&& node.op matches Op::Dot { left, right } ==> {
        let a = nodes[left as int].tensor;
        let b = nodes[right as int].tensor;
        &&& left < nodes.len()
        &&& right < nodes.len()
        &&& a.dims().1 == b.dims().0
        &&& node.tensor.dims() == (a.dims().0, b.dims().1)
        &&& node.tensor.gradient() is Some
        &&& is_matrix_product(a.entries(), b.entries(), node.tensor.entries())
    }
}

/// Adding a node that may join keeps the arena sound and leaves the nodes
/// before it as they were.
proof fn lemma_push_sound<T: Scalar>(nodes: Seq<Node<T>>, node: Node<T>)
    requires
        sound(nodes),
        joins(nodes, node),
    ensures
        sound(nodes.push(node)),
        view_of(nodes.push(node)).values == view_of(nodes).values.push(node.tensor.entries()),
        view_of(nodes.push(node)).grads == view_of(nodes).grads.push(node.tensor.gradient()),
        view_of(nodes.push(node)).ops == view_of(nodes).ops.push(node.op),
{
    let before = view_of(nodes);
    let grown = nodes.push(node);
    let after = view_of(grown);
    assert(after.values =~= before.values.push(node.tensor.entries()));
    assert(after.grads =~= before.grads.push(node.tensor.gradient()));
    assert(after.ops =~= before.ops.push(node.op));
    assert forall|i: int| 0 <= i < grown.len() implies (#[trigger] grown[i]).tensor.wf() by {
        if i < nodes.len() {
            assert(grown[i] == nodes[i]);
        }
    }
    assert forall|i: int| 0 <= i < after.values.len() implies #[trigger] after.matrix_at(i) by {
        assert(grown[i].tensor.wf());
    }
    assert forall|i: int| 0 <= i < after.values.len() implies #[trigger] after.gradient_fits(i) by {
        assert(grown[i].tensor.wf());
    }
    assert forall|i: int| 0 <= i < after.values.len() implies (#[trigger] after.ops[i] matches Op::Dot {
        left,
        right,
    } ==> after.product_fits(i, left as int, right as int)) by {
        if let Op::Dot { left, right } = after.ops[i] {
            if i < nodes.len() {
                assert(before.ops[i] == after.ops[i]);
                assert(before.product_fits(i, left as int, right as int));
            } else {
                assert(grown[left as int].tensor.wf());
                assert(grown[right as int].tensor.wf());
                assert(grown[i].tensor.wf());
            }
        }
    }
}

/// Putting a new gradient of the right shape in the place of the gradient
/// of node `k` keeps the arena sound and changes nothing else.
proof fn lemma_set_grad_sound<T: Scalar>(nodes: Seq<Node<T>>, k: int, node: Node<T>)
    requires
        sound(nodes),
        0 <= k < nodes.len(),
        node.op == nodes[k].op,
        node.tensor.wf(),
        node.tensor.entries() == nodes[k].tensor.entries(),
        node.tensor.dims() == nodes[k].tensor.dims(),
        node.tensor.gradient() is Some,
    ensures
        sound(nodes.update(k, node)),
        view_of(nodes.update(k, node)).values == view_of(nodes).values,
        view_of(nodes.update(k, node)).ops == view_of(nodes).ops,
        view_of(nodes.update(k, node)).grads == view_of(nodes).grads.update(
            k,
            node.tensor.gradient(),
        ),
{
    let before = view_of(nodes);
    let changed = nodes.update(k, node);
    let after = view_of(changed);
    assert(after.values =~= before.values);
    assert(after.ops =~= before.ops);
    assert(after.grads =~= before.grads.update(k, node.tensor.gradient()));
    assert forall|i: int| 0 <= i < changed.len() implies (#[trigger] changed[i]).tensor.wf() by {
        if i != k {
            assert(changed[i] == nodes[i]);
        }
    }
    assert forall|i: int| 0 <= i < after.values.len() implies #[trigger] after.matrix_at(i) by {
        assert(before.matrix_at(i));
    }
    assert forall|i: int| 0 <= i < after.values.len() implies #[trigger] after.gradient_fits(i) by {
        assert(changed[i].tensor.wf());
    }
    assert forall|i: int| 0 <= i < after.values.len() implies (#[trigger] after.ops[i] matches Op::Dot {
        left,
        right,
    } ==> after.product_fits(i, left as int, right as int)) by {
        if let Op::Dot { left, right } = after.ops[i] {
            assert(before.ops[i] == after.ops[i]);
            assert(before.product_fits(i, left as int, right as int));
        }
    }
}

/// Lets the gradient of node `target` take up the product of `x` and `y`,
/// whose inner dimension is `inner`.
fn feed<T: Scalar>(
    nodes: &mut Vec<Node<T>>,
    target: usize,
    x: &Vec<Vec<T>>,
    y: &Vec<Vec<T>>,
    inner: usize,
)
    requires
        sound(old(nodes)@),
        target < old(nodes)@.len(),
        old(nodes)@[target as int].tensor.gradient() is Some,
        inner >= 1,
        shaped(rows_of(*x), old(nodes)@[target as int].tensor.dims().0 as nat, inner as nat),
        shaped(rows_of(*y), inner as nat, old(nodes)@[target as int].tensor.dims().1 as nat),
        feed_permitted(view_of(old(nodes)@).grads[target as int], rows_of(*x), rows_of(*y)),
    ensures
        sound(final(nodes)@),
        final(nodes)@.len() == old(nodes)@.len(),
        view_of(final(nodes)@).values == view_of(old(nodes)@).values,
        view_of(final(nodes)@).ops == view_of(old(nodes)@).ops,
        feeds(
            view_of(old(nodes)@).grads,
            target as int,
            rows_of(*x),
            rows_of(*y),
            view_of(final(nodes)@).grads,
        ),
{
    let ghost held = nodes@;
    let (rows, cols) = nodes[target].tensor.shape();
    let product = multiply(x, y, rows, inner, cols);
    let grown = sum(nodes[target].tensor.grad().unwrap().data(), &product, rows, cols);
    nodes[target].tensor.set_grad(grown);
    proof {
        lemma_set_grad_sound(held, target as int, nodes@[target as int]);
        assert(nodes@ =~= held.update(target as int, nodes@[target as int]));
    }
}

impl<T: Scalar> View for Graph<T> {
    type V = GraphView<T>;

    closed spec fn view(&self) -> GraphView<T> {
        view_of(self.nodes@)
    }
}

impl<T: Scalar> Graph<T> {
    #[verifier::type_invariant]
    closed spec fn inv(self) -> bool {
        sound(self.nodes@)
    }

    /// A graph without nodes.
    pub fn new() -> (g: Graph<T>)
        ensures
            g@.wf(),
            g@.values.len() == 0,
    {
        Graph { nodes: Vec::new() }
    }

    /// The number of nodes.
    pub fn len(&self) -> (n: usize)
        ensures
            self@.wf(),
            n == self@.values.len(),
    {
        proof {
            use_type_invariant(self);
        }
        self.nodes.len()
    }

    /// Adds a tensor that was made outside the graph and returns its handle.
    pub fn leaf(&mut self, tensor: Tensor<T>) -> (handle: usize)
        ensures
            final(self)@.wf(),
            handle == old(self)@.values.len(),
            final(self)@.values == old(self)@.values.push(tensor.entries()),
            final(self)@.grads == old(self)@.grads.push(tensor.gradient()),
            final(self)@.ops == old(self)@.ops.push(Op::Leaf),
    {
        proof {
            use_type_invariant(&*self);
            use_type_invariant(&tensor);
            tensor.lemma_inv_is_wf();
        }
        let mut nodes: Vec<Node<T>> = Vec::new();
        core::mem::swap(&mut self.nodes, &mut nodes);
        let handle = nodes.len();
        let node = Node { tensor, op: Op::Leaf };
        proof {
            lemma_push_sound(nodes@, node);
        }
        nodes.push(node);
        core::mem::swap(&mut self.nodes, &mut nodes);
        handle
    }

    /// Multiplies the tensors at `left` and `right` and adds the product as
    /// a new node that remembers both operands. Handles that name no node,
    /// and operands whose inner dimensions disagree, are refused and leave
    /// the graph as it was.
    ///
    /// Where the product is made, the number type must accept every product
    /// and sum on the way.
    pub fn dot(&mut self, left: usize, right: usize) -> (r: Result<usize, TensorError>)
        requires
            left < old(self)@.values.len() && right < old(self)@.values.len() && width(
                old(self)@.values[left as int],
            ) == old(self)@.values[right as int].len() ==> matrix_product_permitted(
                old(self)@.values[left as int],
                old(self)@.values[right as int],
            ),
        ensures
            final(self)@.wf(),
            left >= old(self)@.values.len() || right >= old(self)@.values.len() ==> {
                &&& r == Err::<usize, TensorError>(TensorError::UnknownNode)
                &&& final(self)@ == old(self)@
            },
            left < old(self)@.values.len() && right < old(self)@.values.len() && width(
                old(self)@.values[left as int],
            ) != old(self)@.values[right as int].len() ==> {
                &&& r matches Err(TensorError::ShapeMismatch { left_cols, right_rows })
                &&& left_cols == width(old(self)@.values[left as int])
                &&& right_rows == old(self)@.values[right as int].len()
                &&& final(self)@ == old(self)@
            },
            left < old(self)@.values.len() && right < old(self)@.values.len() && width(
                old(self)@.values[left as int],
            ) == old(self)@.values[right as int].len() ==> {
                let n = old(self)@.values.len() as int;
                &&& r == Ok::<usize, TensorError>(n as usize)
                &&& final(self)@.values.len() == n + 1
                &&& final(self)@.values.take(n) == old(self)@.values
                &&& final(self)@.grads.take(n) == old(self)@.grads
                &&& final(self)@.ops == old(self)@.ops.push(Op::Dot { left, right })
                &&& is_matrix_product(
                    old(self)@.values[left as int],
                    old(self)@.values[right as int],
                    final(self)@.values[n],
                )
                &&& final(self)@.grads[n] matches Some(g)
                &&& constant(g, 0u8)
            },
    {
        proof {
            use_type_invariant(&*self);
        }
        let n = self.nodes.len();
        if left >= n || right >= n {
            return Err(TensorError::UnknownNode);
        }
        let ghost before = self@;
        let ghost a = self.nodes@[left as int].tensor;
        let ghost b = self.nodes@[right as int].tensor;
        assert(a.wf() && b.wf());
        assert(before.values[left as int] == a.entries());
        assert(before.values[right as int] == b.entries());
        let product = match self.nodes[left].tensor.dot(&self.nodes[right].tensor) {
            Ok(product) => product,
            Err(e) => {
                return Err(e);
            },
        };
        let mut nodes: Vec<Node<T>> = Vec::new();
        core::mem::swap(&mut self.nodes, &mut nodes);
        let node = Node { tensor: product, op: Op::Dot { left, right } };
        proof {
            lemma_push_sound(nodes@, node);
            assert(view_of(nodes@.push(node)).values.take(n as int) =~= before.values);
            assert(view_of(nodes@.push(node)).grads.take(n as int) =~= before.grads);
        }
        nodes.push(node);
        core::mem::swap(&mut self.nodes, &mut nodes);
        Ok(n)
    }

    /// Propagates gradients from `root` back through the graph. The gradient
    /// of the root is set to ones. Then the nodes are visited from the root
    /// down to the first, so that a product is visited only after every
    /// node that it feeds. A product `C = A * B` that the root depends on
    /// hands its gradient `dC` on: the gradient of `A` takes up
    /// `dC * transposed(B)`, the gradient of `B` takes up
    /// `transposed(A) * dC`. Tensors without a gradient take up nothing, and
    /// no entry of any tensor changes. A root that the graph does not have,
    /// or that holds no gradient, is refused and leaves the graph as it was.
    ///
    /// Where the pass is made, the number type must accept every product
    /// and sum on the way.
    pub fn backward(&mut self, root: usize) -> (r: Result<(), TensorError>)
        requires
            root < old(self)@.values.len() && old(self)@.grads[root as int] is Some
                ==> backward_permitted(old(self)@, root as int),
        ensures
            final(self)@.wf(),
            final(self)@.values == old(self)@.values,
            final(self)@.ops == old(self)@.ops,
            root >= old(self)@.values.len() ==> {
                &&& r == Err::<(), TensorError>(TensorError::UnknownNode)
                &&& final(self)@ == old(self)@
            },
            root < old(self)@.values.len() && old(self)@.grads[root as int] is None ==> {
                &&& r == Err::<(), TensorError>(TensorError::NoGradient)
                &&& final(self)@ == old(self)@
            },
            root < old(self)@.values.len() && old(self)@.grads[root as int] is Some ==> {
                &&& r is Ok
                &&& backpropagates(old(self)@, root as int, final(self)@.grads)
            },
    {
        proof {
            use_type_invariant(&*self);
        }
        let n = self.nodes.len();
        if root >= n {
            return Err(TensorError::UnknownNode);
        }
        if self.nodes[root].tensor.grad().is_none() {
            return Err(TensorError::NoGradient);
        }
        let ghost g = self@;
        let mut nodes: Vec<Node<T>> = Vec::new();
        core::mem::swap(&mut self.nodes, &mut nodes);
        let (rows, cols) = nodes[root].tensor.shape();
        let seed: Vec<Vec<T>> = filled(rows, cols, 1u8);
        let ghost ones = rows_of(seed);
        let ghost start = g.grads.update(root as int, Some(ones));
        proof {
            assert(nodes@[root as int].tensor.wf());
            assert(g.values[root as int] == nodes@[root as int].tensor.entries());
            assert(seeds(g, root as int, ones));
        }
        let ghost held = nodes@;
        nodes[root].tensor.set_grad(seed);
        proof {
            lemma_set_grad_sound(held, root as int, nodes@[root as int]);
            assert(nodes@ =~= held.update(root as int, nodes@[root as int]));
        }
        let mut reached: Vec<bool> = Vec::new();
        let mut i: usize = 0;
        while i < n
            invariant
                i <= n,
                reached@.len() == i,
                forall|k: int| 0 <= k < i ==> #[trigger] reached@[k] == (k == root),
            decreases n - i,
        {
            reached.push(i == root);
            i += 1;
        }
        assert(reached@ =~= only(n as nat, root as int));
        let mut j: usize = root + 1;
        while j > 0
            invariant
                j <= root + 1,
                root < n,
                g.wf(),
                g.values.len() == n,
                nodes@.len() == n,
                reached@.len() == n,
                sound(nodes@),
                view_of(nodes@).values == g.values,
                view_of(nodes@).ops == g.ops,
                seeds(g, root as int, ones),
                start == g.grads.update(root as int, Some(ones)),
                backward_permitted(g, root as int),
                swept(g, start, root as int, (root + 1 - j) as nat, view_of(nodes@).grads, reached@),
            decreases j,
        {
            j -= 1;
            let ghost before = view_of(nodes@).grads;
            let ghost was = reached@;
            let ghost count = (root - j) as nat;
            assert(step_permitted(g, root as int - count, before, was));
            let op = nodes[j].op;
            assert(op == g.ops[j as int]);
            if reached[j] {
                match op {
                    Op::Dot { left, right } => {
                        assert(before[j as int] is Some);
                        assert(fires(g, j as int, before, was));
                        let (m, k) = nodes[left].tensor.shape();
                        let (_, w) = nodes[right].tensor.shape();
                        let up = duplicate(nodes[j].tensor.grad().unwrap().data());
                        let ghost dc = rows_of(up);
                        let ghost bt = transposed(g.values[right as int]);
                        let ghost at = transposed(g.values[left as int]);
                        proof {
                            assert(nodes@[j as int].tensor.wf());
                            assert(nodes@[left as int].tensor.wf());
                            assert(nodes@[right as int].tensor.wf());
                            assert(g.values[left as int] == nodes@[left as int].tensor.entries());
                            assert(g.values[right as int] == nodes@[right as int].tensor.entries());
                            assert(g.values[j as int] == nodes@[j as int].tensor.entries());
                            assert(dc == before[j as int].unwrap());
                        }
                        if nodes[left].tensor.grad().is_some() {
                            let flipped = transpose(nodes[right].tensor.data(), k, w);
                            feed(&mut nodes, left, &up, &flipped, w);
                        }
                        let ghost mid = view_of(nodes@).grads;
                        assert(feeds(before, left as int, dc, bt, mid));
                        if nodes[right].tensor.grad().is_some() {
                            let flipped = transpose(nodes[left].tensor.data(), m, k);
                            feed(&mut nodes, right, &flipped, &up, m);
                        }
                        assert(feeds(mid, right as int, at, dc, view_of(nodes@).grads));
                        reached[left] = true;
                        reached[right] = true;
                        assert(step(g, j as int, before, was, view_of(nodes@).grads));
                        assert(reached@ == mark(g, j as int, before, was));
                    },
                    Op::Leaf => {},
                }
            }
            proof {
                lemma_swept_step(
                    g,
                    start,
                    root as int,
                    count,
                    before,
                    was,
                    view_of(nodes@).grads,
                );
            }
        }
        core::mem::swap(&mut self.nodes, &mut nodes);
        Ok(())
    }

    /// The tensor at `handle`, if the graph has such a node.
    pub fn tensor(&self, handle: usize) -> (t: Option<&Tensor<T>>)
        ensures
            self@.wf(),
            handle >= self@.values.len() ==> t is None,
            handle < self@.values.len() ==> {
                &&& t matches Some(node)
                &&& node.wf()
                &&& node.entries() == self@.values[handle as int]
                &&& node.gradient() == self@.grads[handle as int]
            },
    {
        proof {
            use_type_invariant(self);
        }
        if handle < self.nodes.len() {
            Some(&self.nodes[handle].tensor)
        } else {
            None
        }
    }

    /// The operation that produced the node at `handle`, if the graph has
    /// such a node.
    pub fn op(&self, handle: usize) -> (o: Option<Op>)
        ensures
            self@.wf(),
            handle >= self@.values.len() ==> o is None,
            handle < self@.values.len() ==> o == Some(self@.ops[handle as int]),
    {
        proof {
            use_type_invariant(self);
        }
        if handle < self.nodes.len() {
            Some(self.nodes[handle].op)
        } else {
            None
        }
    }
}

} // verus!
