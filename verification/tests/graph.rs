use simple_nn::Graph;
use simple_nn::Op;
use simple_nn::Tensor;
use simple_nn::TensorError;

fn grad_of(graph: &Graph<f64>, handle: usize) -> Vec<Vec<f64>> {
    graph.tensor(handle).unwrap().grad().unwrap().data().clone()
}

#[test]
fn a_new_graph_is_empty() {
    let graph: Graph<f64> = Graph::new();
    assert_eq!(graph.len(), 0);
    assert!(graph.tensor(0).is_none());
    assert!(graph.op(0).is_none());
}

#[test]
fn leaves_get_handles_in_the_order_they_are_added() {
    let mut graph: Graph<f64> = Graph::new();
    let a = graph.leaf(Tensor::new(&vec![vec![1.0, 2.0]]).unwrap());
    let b = graph.leaf(Tensor::ones((2, 2)).unwrap());
    assert_eq!(a, 0);
    assert_eq!(b, 1);
    assert_eq!(graph.len(), 2);
    assert_eq!(graph.op(a), Some(Op::Leaf));
    assert_eq!(graph.op(b), Some(Op::Leaf));
    assert_eq!(*graph.tensor(a).unwrap().data(), [[1.0, 2.0]]);
    assert_eq!(*graph.tensor(b).unwrap().data(), [[1.0, 1.0], [1.0, 1.0]]);
    assert!(graph.tensor(2).is_none());
    assert!(graph.op(2).is_none());
}

#[test]
fn dot_adds_a_node_that_remembers_its_operands() {
    let mut graph: Graph<f64> = Graph::new();
    let a = graph.leaf(Tensor::new(&vec![vec![1.0, 2.0, 3.0], vec![3.0, 2.0, 3.0]]).unwrap());
    let b = graph.leaf(Tensor::ones((3, 2)).unwrap());
    let c = graph.dot(a, b).unwrap();
    assert_eq!(c, 2);
    assert_eq!(graph.len(), 3);
    assert_eq!(graph.op(c), Some(Op::Dot { left: a, right: b }));
    let product = graph.tensor(c).unwrap();
    assert_eq!(product.shape(), (2, 2));
    assert_eq!(*product.data(), [[6.0, 6.0], [8.0, 8.0]]);
    assert_eq!(*product.grad().unwrap().data(), [[0.0, 0.0], [0.0, 0.0]]);
    assert_eq!(*graph.tensor(a).unwrap().data(), [[1.0, 2.0, 3.0], [3.0, 2.0, 3.0]]);
    assert_eq!(*graph.tensor(b).unwrap().data(), [[1.0, 1.0], [1.0, 1.0], [1.0, 1.0]]);
}

#[test]
fn dot_refuses_unknown_handles_and_keeps_the_graph() {
    let mut graph: Graph<f64> = Graph::new();
    let a = graph.leaf(Tensor::ones((2, 2)).unwrap());
    assert_eq!(graph.dot(a, 1).unwrap_err(), TensorError::UnknownNode);
    assert_eq!(graph.dot(1, a).unwrap_err(), TensorError::UnknownNode);
    assert_eq!(graph.dot(7, 9).unwrap_err(), TensorError::UnknownNode);
    assert_eq!(graph.len(), 1);
}

#[test]
fn dot_refuses_mismatched_shapes_and_keeps_the_graph() {
    let mut graph: Graph<f64> = Graph::new();
    let a = graph.leaf(Tensor::new(&vec![vec![1.0, 2.0, 3.0]]).unwrap());
    let b = graph.leaf(Tensor::new(&vec![vec![1.0, 2.0], vec![3.0, 4.0]]).unwrap());
    assert_eq!(
        graph.dot(a, b).unwrap_err(),
        TensorError::ShapeMismatch { left_cols: 3, right_rows: 2 }
    );
    assert_eq!(
        graph.dot(b, a).unwrap_err(),
        TensorError::ShapeMismatch { left_cols: 2, right_rows: 1 }
    );
    assert_eq!(graph.len(), 2);
    assert_eq!(*graph.tensor(a).unwrap().data(), [[1.0, 2.0, 3.0]]);
    assert_eq!(*graph.tensor(b).unwrap().data(), [[1.0, 2.0], [3.0, 4.0]]);
    assert_eq!(grad_of(&graph, a), [[0.0, 0.0, 0.0]]);
}

#[test]
fn backward_gives_the_gradients_of_a_product() {
    let mut graph: Graph<f64> = Graph::new();
    let a = graph.leaf(Tensor::new(&vec![vec![1.0, 2.0, 3.0], vec![3.0, 2.0, 3.0]]).unwrap());
    let b = graph.leaf(Tensor::new(&vec![vec![1.0, 2.0], vec![3.0, 4.0], vec![5.0, 6.0]]).unwrap());
    let c = graph.dot(a, b).unwrap();
    assert_eq!(graph.backward(c), Ok(()));

    assert_eq!(grad_of(&graph, c), [[1.0, 1.0], [1.0, 1.0]]);
    // ones * transposed(b): every row holds the sums of the rows of b.
    assert_eq!(grad_of(&graph, a), [[3.0, 7.0, 11.0], [3.0, 7.0, 11.0]]);
    // transposed(a) * ones: every column holds the sums of the columns of a.
    assert_eq!(grad_of(&graph, b), [[4.0, 4.0], [4.0, 4.0], [6.0, 6.0]]);

    let ones: Tensor<f64> = Tensor::ones((2, 2)).unwrap();
    let b_transposed = Tensor::new(&vec![vec![1.0, 3.0, 5.0], vec![2.0, 4.0, 6.0]]).unwrap();
    let a_transposed = Tensor::new(&vec![vec![1.0, 3.0], vec![2.0, 2.0], vec![3.0, 3.0]]).unwrap();
    assert_eq!(grad_of(&graph, a), *ones.dot(&b_transposed).unwrap().data());
    assert_eq!(grad_of(&graph, b), *a_transposed.dot(&ones).unwrap().data());
}

#[test]
fn backward_changes_no_entry_and_no_operation() {
    let mut graph: Graph<f64> = Graph::new();
    let a = graph.leaf(Tensor::new(&vec![vec![1.0, 2.0], vec![3.0, 4.0]]).unwrap());
    let b = graph.leaf(Tensor::new(&vec![vec![5.0], vec![6.0]]).unwrap());
    let c = graph.dot(a, b).unwrap();
    graph.backward(c).unwrap();
    assert_eq!(graph.len(), 3);
    assert_eq!(*graph.tensor(a).unwrap().data(), [[1.0, 2.0], [3.0, 4.0]]);
    assert_eq!(*graph.tensor(b).unwrap().data(), [[5.0], [6.0]]);
    assert_eq!(*graph.tensor(c).unwrap().data(), [[17.0], [39.0]]);
    assert_eq!(graph.op(a), Some(Op::Leaf));
    assert_eq!(graph.op(b), Some(Op::Leaf));
    assert_eq!(graph.op(c), Some(Op::Dot { left: a, right: b }));
}

#[test]
fn backward_gives_constants_no_gradient() {
    let mut graph: Graph<f64> = Graph::new();
    let a = graph.leaf(Tensor::new(&vec![vec![1.0, 2.0, 3.0], vec![3.0, 2.0, 3.0]]).unwrap());
    let b = graph.leaf(Tensor::ones((3, 2)).unwrap());
    let c = graph.dot(a, b).unwrap();
    graph.backward(c).unwrap();
    assert!(graph.tensor(b).unwrap().grad().is_none());
    assert_eq!(grad_of(&graph, a), [[2.0, 2.0, 2.0], [2.0, 2.0, 2.0]]);
    assert_eq!(grad_of(&graph, c), [[1.0, 1.0], [1.0, 1.0]]);

    let mut graph: Graph<f64> = Graph::new();
    let a = graph.leaf(Tensor::ones((2, 3)).unwrap());
    let b = graph.leaf(Tensor::new(&vec![vec![1.0], vec![2.0], vec![3.0]]).unwrap());
    let c = graph.dot(a, b).unwrap();
    graph.backward(c).unwrap();
    assert!(graph.tensor(a).unwrap().grad().is_none());
    assert_eq!(grad_of(&graph, b), [[2.0], [2.0], [2.0]]);
}

#[test]
fn backward_passes_gradients_through_a_chain_of_products() {
    let mut graph: Graph<f64> = Graph::new();
    let a = graph.leaf(Tensor::new(&vec![vec![1.0, 2.0]]).unwrap());
    let b = graph.leaf(Tensor::new(&vec![vec![1.0, 2.0], vec![3.0, 4.0]]).unwrap());
    let e = graph.leaf(Tensor::new(&vec![vec![5.0], vec![6.0]]).unwrap());
    let c = graph.dot(a, b).unwrap();
    let d = graph.dot(c, e).unwrap();
    assert_eq!(*graph.tensor(c).unwrap().data(), [[7.0, 10.0]]);
    assert_eq!(*graph.tensor(d).unwrap().data(), [[95.0]]);

    graph.backward(d).unwrap();
    assert_eq!(grad_of(&graph, d), [[1.0]]);
    assert_eq!(grad_of(&graph, c), [[5.0, 6.0]]);
    assert_eq!(grad_of(&graph, e), [[7.0], [10.0]]);
    assert_eq!(grad_of(&graph, a), [[17.0, 39.0]]);
    assert_eq!(grad_of(&graph, b), [[5.0, 6.0], [10.0, 12.0]]);
}

#[test]
fn backward_from_a_leaf_only_seeds_it() {
    let mut graph: Graph<f64> = Graph::new();
    let a = graph.leaf(Tensor::new(&vec![vec![1.0, 2.0], vec![3.0, 4.0]]).unwrap());
    let b = graph.leaf(Tensor::new(&vec![vec![5.0], vec![6.0]]).unwrap());
    let c = graph.dot(a, b).unwrap();
    graph.backward(a).unwrap();
    assert_eq!(grad_of(&graph, a), [[1.0, 1.0], [1.0, 1.0]]);
    assert_eq!(grad_of(&graph, b), [[0.0], [0.0]]);
    assert_eq!(grad_of(&graph, c), [[0.0], [0.0]]);
}

#[test]
fn backward_leaves_nodes_alone_that_the_root_does_not_depend_on() {
    let mut graph: Graph<f64> = Graph::new();
    let a = graph.leaf(Tensor::new(&vec![vec![1.0, 2.0]]).unwrap());
    let b = graph.leaf(Tensor::new(&vec![vec![3.0], vec![4.0]]).unwrap());
    let x = graph.leaf(Tensor::new(&vec![vec![2.0]]).unwrap());
    let c = graph.dot(a, b).unwrap();
    let d = graph.dot(c, x).unwrap();
    let e = graph.dot(a, b).unwrap();

    // d depends on c, x, a and b, but not on e, which comes after it.
    graph.backward(d).unwrap();
    assert_eq!(grad_of(&graph, e), [[0.0]]);
    assert_eq!(grad_of(&graph, d), [[1.0]]);
    assert_eq!(grad_of(&graph, c), [[2.0]]);
    assert_eq!(grad_of(&graph, x), [[11.0]]);
    assert_eq!(grad_of(&graph, a), [[6.0, 8.0]]);
    assert_eq!(grad_of(&graph, b), [[2.0], [4.0]]);

    // e depends on a and b only: c keeps the gradient it has and hands nothing on.
    graph.backward(e).unwrap();
    assert_eq!(grad_of(&graph, e), [[1.0]]);
    assert_eq!(grad_of(&graph, d), [[1.0]]);
    assert_eq!(grad_of(&graph, c), [[2.0]]);
    assert_eq!(grad_of(&graph, x), [[11.0]]);
    assert_eq!(grad_of(&graph, a), [[9.0, 12.0]]);
    assert_eq!(grad_of(&graph, b), [[3.0], [6.0]]);
}

#[test]
fn backward_adds_to_the_gradients_that_are_there() {
    let mut graph: Graph<f64> = Graph::new();
    let a = graph.leaf(Tensor::new(&vec![vec![1.0, 2.0, 3.0], vec![3.0, 2.0, 3.0]]).unwrap());
    let b = graph.leaf(Tensor::new(&vec![vec![1.0, 2.0], vec![3.0, 4.0], vec![5.0, 6.0]]).unwrap());
    let c = graph.dot(a, b).unwrap();
    graph.backward(c).unwrap();
    graph.backward(c).unwrap();
    assert_eq!(grad_of(&graph, c), [[1.0, 1.0], [1.0, 1.0]]);
    assert_eq!(grad_of(&graph, a), [[6.0, 14.0, 22.0], [6.0, 14.0, 22.0]]);
    assert_eq!(grad_of(&graph, b), [[8.0, 8.0], [8.0, 8.0], [12.0, 12.0]]);
}

#[test]
fn backward_through_the_product_of_a_node_with_itself() {
    let mut graph: Graph<f64> = Graph::new();
    let a = graph.leaf(Tensor::new(&vec![vec![1.0, 2.0], vec![3.0, 4.0]]).unwrap());
    let c = graph.dot(a, a).unwrap();
    assert_eq!(*graph.tensor(c).unwrap().data(), [[7.0, 10.0], [15.0, 22.0]]);
    graph.backward(c).unwrap();
    // ones * transposed(a) = [[3, 7], [3, 7]], transposed(a) * ones = [[4, 4], [6, 6]].
    assert_eq!(grad_of(&graph, a), [[7.0, 11.0], [9.0, 13.0]]);
}

#[test]
fn backward_refuses_an_unknown_root() {
    let mut graph: Graph<f64> = Graph::new();
    assert_eq!(graph.backward(0), Err(TensorError::UnknownNode));
    let a = graph.leaf(Tensor::new(&vec![vec![1.0]]).unwrap());
    assert_eq!(graph.backward(a + 1), Err(TensorError::UnknownNode));
    assert_eq!(grad_of(&graph, a), [[0.0]]);
}

#[test]
fn backward_refuses_a_root_without_a_gradient() {
    let mut graph: Graph<f64> = Graph::new();
    let a = graph.leaf(Tensor::new(&vec![vec![1.0, 2.0]]).unwrap());
    let k = graph.leaf(Tensor::ones((2, 2)).unwrap());
    let c = graph.dot(a, k).unwrap();
    assert_eq!(graph.backward(k), Err(TensorError::NoGradient));
    assert!(graph.tensor(k).unwrap().grad().is_none());
    assert_eq!(grad_of(&graph, a), [[0.0, 0.0]]);
    assert_eq!(grad_of(&graph, c), [[0.0, 0.0]]);
}

#[test]
fn backward_on_integers() {
    let mut graph: Graph<i32> = Graph::new();
    let a = graph.leaf(Tensor::new(&vec![vec![1, -2], vec![3, 4]]).unwrap());
    let b = graph.leaf(Tensor::new(&vec![vec![5, 6], vec![-7, 8]]).unwrap());
    let c = graph.dot(a, b).unwrap();
    assert_eq!(*graph.tensor(c).unwrap().data(), [[19, -10], [-13, 50]]);
    graph.backward(c).unwrap();
    assert_eq!(*graph.tensor(a).unwrap().grad().unwrap().data(), [[11, 1], [11, 1]]);
    assert_eq!(*graph.tensor(b).unwrap().grad().unwrap().data(), [[4, 4], [2, 2]]);
}
