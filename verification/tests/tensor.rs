use simple_nn::Tensor;
use simple_nn::TensorError;

#[test]
fn test_create_new() {
    let mut data = Vec::new();
    data.push(vec![1.0, 2.0]);

    let tensor = Tensor::new(&data).unwrap();

    assert_eq!(tensor.shape(), (1, 2));
    assert_eq!(*tensor.data(), [[1.0, 2.0]]);
    assert_eq!(*tensor.grad().unwrap().data(), [[0.0, 0.0]]);
}

#[test]
fn test_create_ones() {
    let tensor: Tensor<f64> = Tensor::ones((2, 3)).unwrap();

    assert_eq!(tensor.shape(), (2, 3));
    assert_eq!(*tensor.data(), [[1.0, 1.0, 1.0], [1.0, 1.0, 1.0]]);
}

#[test]
fn test_create_zeros() {
    let tensor: Tensor<f64> = Tensor::zeros((2, 3)).unwrap();

    assert_eq!(tensor.shape(), (2, 3));
    assert_eq!(*tensor.data(), [[0.0, 0.0, 0.0], [0.0, 0.0, 0.0]]);
}

#[test]
fn test_dot_tensors() {
    let data = vec![vec![1.0, 2.0, 3.0], vec![3.0, 2.0, 3.0]];

    let tensor1 = Tensor::new(&data).unwrap();
    let tensor2 = Tensor::ones((3, 2)).unwrap();
    let tensor3 = tensor1.dot(&tensor2).unwrap();

    assert_eq!(tensor3.shape(), (2, 2));
    assert_eq!(*tensor3.data(), vec![vec![6.0, 6.0], vec![8.0, 8.0]]);
}

#[test]
fn new_copies_the_rows_and_leaves_the_input_alone() {
    let data = vec![vec![1.5, -2.0], vec![0.25, 4.0], vec![7.0, 8.0]];
    let tensor = Tensor::new(&data).unwrap();
    assert_eq!(tensor.shape(), (3, 2));
    assert_eq!(*tensor.data(), data);
    assert_eq!(data, vec![vec![1.5, -2.0], vec![0.25, 4.0], vec![7.0, 8.0]]);
}

#[test]
fn new_gives_a_gradient_of_zeros_without_a_gradient_of_its_own() {
    let data = vec![vec![1.0, 2.0, 3.0], vec![4.0, 5.0, 6.0]];
    let tensor = Tensor::new(&data).unwrap();
    let grad = tensor.grad().unwrap();
    assert_eq!(grad.shape(), (2, 3));
    assert_eq!(*grad.data(), [[0.0, 0.0, 0.0], [0.0, 0.0, 0.0]]);
    assert!(grad.grad().is_none());
}

#[test]
fn new_refuses_no_rows() {
    let data: Vec<Vec<f64>> = Vec::new();
    assert_eq!(Tensor::new(&data).unwrap_err(), TensorError::EmptyInput);
}

#[test]
fn new_refuses_an_empty_first_row() {
    let data: Vec<Vec<f64>> = vec![vec![]];
    assert_eq!(Tensor::new(&data).unwrap_err(), TensorError::EmptyInput);
    let data: Vec<Vec<f64>> = vec![vec![], vec![1.0]];
    assert_eq!(Tensor::new(&data).unwrap_err(), TensorError::EmptyInput);
}

#[test]
fn new_refuses_rows_of_unequal_length() {
    let data = vec![vec![1.0, 2.0], vec![3.0]];
    assert_eq!(Tensor::new(&data).unwrap_err(), TensorError::IrregularRows);
    let data = vec![vec![1.0], vec![2.0], vec![3.0, 4.0]];
    assert_eq!(Tensor::new(&data).unwrap_err(), TensorError::IrregularRows);
    let data = vec![vec![1.0, 2.0], vec![]];
    assert_eq!(Tensor::new(&data).unwrap_err(), TensorError::IrregularRows);
}

#[test]
fn ones_and_zeros_refuse_an_empty_shape() {
    assert_eq!(Tensor::<f64>::ones((0, 3)).unwrap_err(), TensorError::EmptyInput);
    assert_eq!(Tensor::<f64>::ones((3, 0)).unwrap_err(), TensorError::EmptyInput);
    assert_eq!(Tensor::<f64>::ones((0, 0)).unwrap_err(), TensorError::EmptyInput);
    assert_eq!(Tensor::<f64>::zeros((0, 3)).unwrap_err(), TensorError::EmptyInput);
    assert_eq!(Tensor::<f64>::zeros((3, 0)).unwrap_err(), TensorError::EmptyInput);
    assert_eq!(Tensor::<f64>::zeros((0, 0)).unwrap_err(), TensorError::EmptyInput);
}

#[test]
fn ones_and_zeros_hold_no_gradient() {
    assert!(Tensor::<f64>::ones((2, 2)).unwrap().grad().is_none());
    assert!(Tensor::<f64>::zeros((2, 2)).unwrap().grad().is_none());
}

#[test]
fn zeros_and_ones_fill_every_shape() {
    for rows in 1..6usize {
        for cols in 1..6usize {
            let zeros: Tensor<f64> = Tensor::zeros((rows, cols)).unwrap();
            let ones: Tensor<f64> = Tensor::ones((rows, cols)).unwrap();
            assert_eq!(zeros.shape(), (rows, cols));
            assert_eq!(ones.shape(), (rows, cols));
            assert_eq!(zeros.data().len(), rows);
            assert_eq!(ones.data().len(), rows);
            for r in 0..rows {
                assert_eq!(zeros.data()[r].len(), cols);
                assert_eq!(ones.data()[r].len(), cols);
                for c in 0..cols {
                    assert_eq!(zeros.data()[r][c].to_bits(), 0.0f64.to_bits());
                    assert_eq!(ones.data()[r][c].to_bits(), 1.0f64.to_bits());
                }
            }
        }
    }
}

#[test]
fn dot_gives_a_gradient_of_zeros_in_the_shape_of_the_product() {
    let a = Tensor::new(&vec![vec![1.0, 2.0, 3.0], vec![3.0, 2.0, 3.0]]).unwrap();
    let b = Tensor::ones((3, 4)).unwrap();
    let c = a.dot(&b).unwrap();
    assert_eq!(c.shape(), (2, 4));
    let grad = c.grad().unwrap();
    assert_eq!(grad.shape(), (2, 4));
    assert_eq!(*grad.data(), [[0.0, 0.0, 0.0, 0.0], [0.0, 0.0, 0.0, 0.0]]);
    assert!(grad.grad().is_none());
}

#[test]
fn dot_multiplies_rows_by_columns() {
    let a = Tensor::new(&vec![vec![1.0, 2.0], vec![3.0, 4.0], vec![5.0, 6.0]]).unwrap();
    let b = Tensor::new(&vec![vec![7.0, 8.0, 9.0], vec![10.0, 11.0, 12.0]]).unwrap();
    let c = a.dot(&b).unwrap();
    assert_eq!(c.shape(), (3, 3));
    assert_eq!(
        *c.data(),
        [[27.0, 30.0, 33.0], [61.0, 68.0, 75.0], [95.0, 106.0, 117.0]]
    );
}

#[test]
fn dot_of_single_entries() {
    let a = Tensor::new(&vec![vec![3.0]]).unwrap();
    let b = Tensor::new(&vec![vec![-4.5]]).unwrap();
    let c = a.dot(&b).unwrap();
    assert_eq!(c.shape(), (1, 1));
    assert_eq!(*c.data(), [[-13.5]]);
}

#[test]
fn dot_adds_the_products_in_the_order_of_the_inner_index() {
    // Added from the left, the 1.0 is lost in 1e16 before 1e16 is taken away again.
    let a: Tensor<f64> = Tensor::new(&vec![vec![1e16, 1.0, -1e16]]).unwrap();
    let b: Tensor<f64> = Tensor::ones((3, 1)).unwrap();
    let c = a.dot(&b).unwrap();
    assert_eq!(c.data()[0][0].to_bits(), 0.0f64.to_bits());

    let a: Tensor<f64> = Tensor::new(&vec![vec![1e16, -1e16, 1.0]]).unwrap();
    let c = a.dot(&b).unwrap();
    assert_eq!(c.data()[0][0].to_bits(), 1.0f64.to_bits());
}

#[test]
fn dot_starts_every_entry_from_zero() {
    // 0.0 + (-0.0) is 0.0: the sign of the product does not survive the first sum.
    let a: Tensor<f64> = Tensor::new(&vec![vec![-0.0]]).unwrap();
    let b: Tensor<f64> = Tensor::new(&vec![vec![1.0]]).unwrap();
    let c = a.dot(&b).unwrap();
    assert_eq!(c.data()[0][0].to_bits(), 0.0f64.to_bits());
}

#[test]
fn dot_refuses_mismatched_inner_dimensions() {
    let a: Tensor<f64> = Tensor::ones((2, 3)).unwrap();
    let b: Tensor<f64> = Tensor::ones((2, 3)).unwrap();
    assert_eq!(
        a.dot(&b).unwrap_err(),
        TensorError::ShapeMismatch { left_cols: 3, right_rows: 2 }
    );
    let c: Tensor<f64> = Tensor::ones((4, 1)).unwrap();
    assert_eq!(
        c.dot(&a).unwrap_err(),
        TensorError::ShapeMismatch { left_cols: 1, right_rows: 2 }
    );
}

#[test]
fn dot_leaves_both_operands_as_they_were() {
    let a = Tensor::new(&vec![vec![1.0, 2.0, 3.0], vec![3.0, 2.0, 3.0]]).unwrap();
    let b = Tensor::new(&vec![vec![1.0, 2.0, 3.0], vec![3.0, 2.0, 3.0]]).unwrap();
    assert!(a.dot(&b).is_err());
    assert_eq!(a.shape(), (2, 3));
    assert_eq!(*a.data(), [[1.0, 2.0, 3.0], [3.0, 2.0, 3.0]]);
    assert_eq!(*a.grad().unwrap().data(), [[0.0, 0.0, 0.0], [0.0, 0.0, 0.0]]);
    assert_eq!(b.shape(), (2, 3));
    assert_eq!(*b.data(), [[1.0, 2.0, 3.0], [3.0, 2.0, 3.0]]);

    let c = Tensor::ones((3, 2)).unwrap();
    assert!(a.dot(&c).is_ok());
    assert_eq!(*a.data(), [[1.0, 2.0, 3.0], [3.0, 2.0, 3.0]]);
    assert_eq!(*c.data(), [[1.0, 1.0], [1.0, 1.0], [1.0, 1.0]]);
    assert!(c.grad().is_none());
}

#[test]
fn dot_gives_the_same_bits_every_time() {
    let a: Tensor<f64> =
        Tensor::new(&vec![vec![0.1, 0.2, 0.3], vec![1e-300, 1e300, -7.25]]).unwrap();
    let b: Tensor<f64> =
        Tensor::new(&vec![vec![0.7, -1.1], vec![3.3, 1e10], vec![2.0e-5, 9.9]]).unwrap();
    let first = a.dot(&b).unwrap();
    for _ in 0..10 {
        let again = a.dot(&b).unwrap();
        assert_eq!(again.shape(), first.shape());
        for r in 0..2 {
            for c in 0..2 {
                assert_eq!(again.data()[r][c].to_bits(), first.data()[r][c].to_bits());
            }
        }
    }
}

#[test]
fn tensors_of_single_precision_and_of_integers() {
    let a: Tensor<f32> = Tensor::new(&vec![vec![1.0f32, 2.0], vec![3.0, 4.0]]).unwrap();
    let b: Tensor<f32> = Tensor::ones((2, 1)).unwrap();
    assert_eq!(*a.dot(&b).unwrap().data(), [[3.0f32], [7.0]]);

    let a: Tensor<i64> = Tensor::new(&vec![vec![1, -2, 3], vec![3, 2, -3]]).unwrap();
    let b: Tensor<i64> = Tensor::ones((3, 2)).unwrap();
    let c = a.dot(&b).unwrap();
    assert_eq!(*c.data(), [[2i64, 2], [2, 2]]);
    assert_eq!(*c.grad().unwrap().data(), [[0i64, 0], [0, 0]]);
}
