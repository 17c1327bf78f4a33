//! RMS normalisation with a gate.
use candle_core::scalar::Scalar;
use candle_core::{DType, Device, Tensor};
use qwen35::error::ModelError;
use qwen35::norm::RmsNormGated;

fn tensor(values: Vec<f32>, dims: &[usize]) -> Tensor {
    Tensor::from_vec(values, dims, &Device::Cpu).unwrap()
}

fn norm() -> RmsNormGated {
    RmsNormGated { weight: tensor(vec![1.0, 2.0], &[2]), eps: Scalar::from(0.5f64) }
}

fn silu(x: f32) -> f32 {
    x / (1.0 + (-x).exp())
}

#[test]
fn rows_are_normalised_one_by_one() {
    let x = tensor(vec![3.0, 4.0, 1.0, -1.0], &[2, 2]);
    let gate = tensor(vec![1.0, -2.0, 0.5, 0.0], &[2, 2]);
    let o = norm().forward(&x, &gate).unwrap();
    assert_eq!(o.dims(), &[2, 2]);
    let got = o.flatten_all().unwrap().to_vec1::<f32>().unwrap();
    let first = (12.5f32 + 0.5).sqrt();
    let second = (1.0f32 + 0.5).sqrt();
    let want = [
        3.0 / first * silu(1.0),
        4.0 / first * 2.0 * silu(-2.0),
        1.0 / second * silu(0.5),
        0.0,
    ];
    for (g, w) in got.iter().zip(want) {
        assert!((g - w).abs() < 1e-6, "{g} is not {w}");
    }
}

#[test]
fn the_result_has_the_type_of_the_input() {
    let x = tensor(vec![3.0, 4.0], &[1, 2]).to_dtype(DType::F16).unwrap();
    let gate = tensor(vec![1.0, 1.0], &[1, 2]);
    let o = norm().forward(&x, &gate).unwrap();
    assert_eq!(o.dtype(), DType::F16);
    let got = o.to_dtype(DType::F32).unwrap().flatten_all().unwrap().to_vec1::<f32>().unwrap();
    assert!((got[0] - 3.0 / 13.0f32.sqrt() * silu(1.0)).abs() < 1e-3);
}

#[test]
fn shapes_must_go_together() {
    let x = tensor(vec![1.0; 6], &[2, 3]);
    let gate = tensor(vec![1.0; 6], &[2, 3]);
    assert!(matches!(norm().forward(&x, &gate), Err(ModelError::Tensor(_))));
}

#[test]
fn one_row_of_gates_serves_all_rows() {
    let x = tensor(vec![3.0, 4.0, 3.0, 4.0], &[2, 2]);
    let one = tensor(vec![1.0, -1.0], &[1, 2]);
    let o = norm().forward(&x, &one).unwrap().to_vec2::<f32>().unwrap();
    assert_eq!(o[0], o[1]);
}

#[test]
fn a_scalar_has_no_rows() {
    let x = tensor(vec![1.0], &[]);
    assert!(norm().forward(&x, &x).is_err());
}

#[test]
fn no_rows_are_normalised_to_none() {
    // Nothing, from beyond the end of what is stored.
    let x = tensor(vec![], &[0, 4]).narrow(1, 2, 2).unwrap();
    let gate = tensor(vec![], &[0, 2]);
    assert_eq!(norm().forward(&x, &gate).unwrap().dims(), &[0, 2]);
    let half = x.to_dtype(DType::F32).unwrap();
    assert_eq!(norm().forward(&half, &x).unwrap().dims(), &[0, 2]);
    let x = tensor(vec![], &[0, 4]);
    let x = x.to_dtype(DType::F16).unwrap().narrow(1, 2, 2).unwrap();
    let o = norm().forward(&x, &gate).unwrap();
    assert_eq!(o.dims(), &[0, 2]);
    assert_eq!(o.dtype(), DType::F16);
}
