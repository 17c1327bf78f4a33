//! Linear maps and the feed-forward block.
use candle_core::quantized::{GgmlDType, QStorage, QTensor};
use candle_core::{DType, Device, Tensor};
use qwen35::error::ModelError;
use qwen35::linear::{is_dequantizable, qmethod};
use qwen35::load::MlpTensors;
use qwen35::mlp::{gate_and_multiply, Mlp};
use qwen35::ops::addressable;

fn tensor(values: Vec<f32>, dims: &[usize]) -> Tensor {
    Tensor::from_vec(values, dims, &Device::Cpu).unwrap()
}

fn quantized(values: Vec<f32>, dims: &[usize]) -> QTensor {
    QTensor::quantize(&tensor(values, dims), GgmlDType::F32).unwrap()
}

fn flat(t: &Tensor) -> Vec<f32> {
    t.flatten_all().unwrap().to_vec1::<f32>().unwrap()
}

fn silu(x: f32) -> f32 {
    x / (1.0 + (-x).exp())
}

#[test]
fn a_linear_map_multiplies_by_the_transposed_weight() {
    let m = qmethod(quantized(vec![1.0, 2.0, 3.0, 4.0, 5.0, 6.0], &[3, 2])).unwrap();
    let x = tensor(vec![1.0, -1.0, 2.0, 0.5], &[1, 2, 2]);
    let o = m.forward(&x).unwrap();
    assert_eq!(o.dims(), &[1, 2, 3]);
    assert_eq!(flat(&o), vec![-1.0, -1.0, -1.0, 3.0, 8.0, 13.0]);
}

#[test]
fn a_quantized_linear_map_is_close_to_the_plain_one() {
    let w: Vec<f32> = (0..64).map(|i| (i % 7) as f32 - 3.0).collect();
    let plain = qmethod(quantized(w.clone(), &[2, 32])).unwrap();
    let coarse =
        qmethod(QTensor::quantize(&tensor(w, &[2, 32]), GgmlDType::Q8_0).unwrap()).unwrap();
    let x = tensor((0..64).map(|i| (i % 5) as f32 * 0.5).collect(), &[1, 2, 32]);
    let a = flat(&plain.forward(&x).unwrap());
    let b = flat(&coarse.forward(&x).unwrap());
    assert_eq!(a.len(), 4);
    for (p, q) in a.iter().zip(b) {
        assert!((p - q).abs() < 1.0, "{q} is far from {p}");
    }
}

#[test]
fn rows_of_another_length_are_refused() {
    let m = qmethod(quantized(vec![1.0; 6], &[3, 2])).unwrap();
    let x = tensor(vec![1.0; 3], &[1, 1, 3]);
    let e = m.forward(&x).err().unwrap();
    assert!(matches!(e, ModelError::Shapes));
    assert_eq!(e.message(), "The shapes of two tensors do not go together.");
}

#[test]
fn weights_that_cannot_be_multiplied_by_are_loaded_all_the_same() {
    let q = quantized(vec![1.0; 6], &[3, 2]);
    assert!(is_dequantizable(&q));
    assert!(qmethod(q).unwrap().is_runnable());
    let q = QTensor::quantize(&tensor(vec![1.0; 64], &[2, 32]), GgmlDType::Q8_1).unwrap();
    assert!(!is_dequantizable(&q));
    assert!(!qmethod(q).unwrap().is_runnable());
    let none = quantized(vec![], &[0, 2]);
    assert!(is_dequantizable(&none));
    assert!(!qmethod(none).unwrap().is_runnable());
}

#[test]
fn the_numbers_of_all_forms_but_one_can_be_had() {
    let w = tensor((0..512).map(|i| (i % 9) as f32 - 4.0).collect(), &[2, 256]);
    for form in [
        GgmlDType::F32,
        GgmlDType::F16,
        GgmlDType::BF16,
        GgmlDType::Q4_0,
        GgmlDType::Q4_1,
        GgmlDType::Q5_0,
        GgmlDType::Q5_1,
        GgmlDType::Q8_0,
        GgmlDType::Q2K,
        GgmlDType::Q3K,
        GgmlDType::Q4K,
        GgmlDType::Q5K,
        GgmlDType::Q6K,
        GgmlDType::Q8K,
    ] {
        let q = QTensor::quantize(&w, form).unwrap();
        assert!(is_dequantizable(&q), "{form:?}");
        let m = qmethod(q).unwrap();
        assert!(m.is_runnable(), "{form:?}");
        assert_eq!(m.forward(&tensor(vec![1.0; 256], &[1, 1, 256])).unwrap().dims(), &[1, 1, 2]);
    }
}

#[test]
fn a_tensor_whose_storage_has_another_size_is_not_multiplied_by() {
    for (form, stored, dims) in [
        (GgmlDType::F32, 1, vec![2]),
        (GgmlDType::F32, 7, vec![2, 3]),
        (GgmlDType::Q8_0, 32, vec![2, 32]),
        (GgmlDType::Q4K, 0, vec![1, 256]),
    ] {
        let q = QTensor::new(QStorage::Cpu(form.cpu_zeros(stored)), dims).unwrap();
        assert!(!is_dequantizable(&q));
        assert!(!qmethod(q).unwrap().is_runnable());
    }
}

#[test]
fn a_plain_weight_takes_single_precision_only() {
    let m = qmethod(quantized(vec![1.0; 4], &[2, 2])).unwrap();
    let x = tensor(vec![1.0, 2.0], &[1, 1, 2]).to_dtype(DType::BF16).unwrap();
    assert!(matches!(m.forward(&x), Err(ModelError::Tensor(_))));
    let whole = Tensor::new(&[[[1u32, 2]]], &Device::Cpu).unwrap();
    assert!(matches!(m.forward(&whole), Err(ModelError::NotFloating)));
}

#[test]
fn some_forms_need_an_even_number_of_blocks() {
    for form in [GgmlDType::Q4_1, GgmlDType::Q5_0, GgmlDType::Q5_1] {
        let map = |cols: usize| {
            let w = tensor(vec![1.0; 2 * cols], &[2, cols]);
            qmethod(QTensor::quantize(&w, form).unwrap()).unwrap()
        };
        assert!(!map(32).is_runnable());
        assert!(!map(96).is_runnable());
        let m = map(64);
        assert!(m.is_runnable());
        let o = m.forward(&tensor(vec![0.5; 64], &[1, 1, 64])).unwrap();
        for v in flat(&o) {
            assert!((v - 32.0).abs() < 1.0, "{v} is far from 32");
        }
    }
}

#[test]
fn rows_are_mapped_whatever_their_arrangement() {
    let m = qmethod(quantized(vec![1.0, 2.0, 3.0, 4.0, 5.0, 6.0], &[3, 2])).unwrap();
    let want = vec![-1.0, -1.0, -1.0, 3.0, 8.0, 13.0];
    let x = tensor(vec![1.0, -1.0, 2.0, 0.5], &[2, 2]);
    let o = m.forward(&x).unwrap();
    assert_eq!(o.dims(), &[2, 3]);
    assert_eq!(flat(&o), want);
    // Several sequences of one row each, the rows of one sequence turned.
    let turned = x.reshape((1, 2, 2)).unwrap().transpose(0, 1).unwrap();
    let o = m.forward(&turned).unwrap();
    assert_eq!(o.dims(), &[2, 1, 3]);
    assert_eq!(flat(&o), want);
    let o = m.forward(&x.reshape((1, 2, 1, 2)).unwrap()).unwrap();
    assert_eq!(o.dims(), &[1, 2, 1, 3]);
    assert_eq!(flat(&o), want);
    assert!(matches!(m.forward(&tensor(vec![1.0, 2.0], &[2])), Err(ModelError::Rank)));
}

#[test]
fn no_rows_are_mapped_to_none() {
    let m = qmethod(quantized(vec![1.0; 6], &[3, 2])).unwrap();
    let o = m.forward(&tensor(vec![], &[1, 0, 2])).unwrap();
    assert_eq!(o.dims(), &[1, 0, 3]);
    // Nothing, from beyond the end of what is stored.
    let beyond = tensor(vec![], &[0, 1, 4]).narrow(2, 2, 2).unwrap();
    assert_eq!(m.forward(&beyond).unwrap().dims(), &[0, 1, 3]);
}

#[test]
fn a_weight_in_blocks_takes_packed_rows() {
    let w: Vec<f32> = (0..64).map(|i| (i % 3) as f32).collect();
    let m = qmethod(QTensor::quantize(&tensor(w, &[2, 32]), GgmlDType::Q8_0).unwrap()).unwrap();
    let x = tensor(vec![1.0; 64], &[1, 32, 2]).transpose(1, 2).unwrap();
    let e = m.forward(&x).err().unwrap();
    assert!(matches!(e, ModelError::NotPacked));
    assert_eq!(e.message(), "A tensor is not contiguous.");
    assert_eq!(m.forward(&x.contiguous().unwrap()).unwrap().dims(), &[1, 2, 2]);
}

#[test]
fn the_block_takes_rows_of_any_arrangement() {
    let m = Mlp::load(MlpTensors {
        gate: quantized(vec![1.0, 0.0, 0.0, 1.0], &[2, 2]),
        down: quantized(vec![1.0, 1.0], &[1, 2]),
        up: quantized(vec![1.0, 0.0, 0.0, 1.0], &[2, 2]),
    })
    .unwrap();
    let x = tensor(vec![1.0, 2.0, -1.0, 3.0], &[2, 2]);
    let o = m.forward(&x).unwrap();
    assert_eq!(o.dims(), &[2, 1]);
    let want = [silu(1.0) + 2.0 * silu(2.0), -silu(-1.0) + 3.0 * silu(3.0)];
    for (g, w) in flat(&o).iter().zip(want) {
        assert!((g - w).abs() < 1e-5);
    }
}

#[test]
fn values_are_gated() {
    let gate = tensor(vec![0.0, 1.0, -2.0], &[1, 1, 3]);
    let up = tensor(vec![5.0, 2.0, 4.0], &[1, 1, 3]);
    let o = flat(&gate_and_multiply(&gate, &up).unwrap());
    let want = [0.0, 2.0 * silu(1.0), 4.0 * silu(-2.0)];
    for (x, y) in o.iter().zip(want) {
        assert!((x - y).abs() < 1e-6);
    }
}

#[test]
fn gate_and_values_have_one_shape() {
    let gate = tensor(vec![1.0; 3], &[1, 1, 3]);
    let up = tensor(vec![1.0; 6], &[1, 2, 3]);
    assert!(matches!(gate_and_multiply(&gate, &up), Err(ModelError::Tensor(_))));
    let whole = Tensor::new(&[1u32, 2, 3], &Device::Cpu).unwrap();
    assert!(matches!(gate_and_multiply(&whole, &whole), Err(ModelError::NotFloating)));
}

#[test]
fn the_block_is_swiglu() {
    let m = Mlp::load(MlpTensors {
        gate: quantized(vec![1.0, 0.0, 0.0, 1.0, 1.0, 1.0], &[3, 2]),
        down: quantized(vec![1.0, 1.0, 1.0, 0.0, 0.0, 2.0], &[2, 3]),
        up: quantized(vec![2.0, 0.0, 0.0, 2.0, 1.0, -1.0], &[3, 2]),
    })
    .unwrap();
    let x = tensor(vec![1.0, 2.0], &[1, 1, 2]);
    let o = flat(&m.forward(&x).unwrap());
    let inner = [silu(1.0) * 2.0, silu(2.0) * 4.0, silu(3.0) * -1.0];
    assert!((o[0] - (inner[0] + inner[1] + inner[2])).abs() < 1e-5);
    assert!((o[1] - 2.0 * inner[2]).abs() < 1e-5);
}

#[test]
fn gate_and_values_of_different_widths_are_refused() {
    let m = Mlp::load(MlpTensors {
        gate: quantized(vec![1.0; 6], &[3, 2]),
        down: quantized(vec![1.0; 6], &[2, 3]),
        up: quantized(vec![1.0; 4], &[2, 2]),
    })
    .unwrap();
    let x = tensor(vec![1.0, 2.0], &[1, 1, 2]);
    assert!(matches!(m.forward(&x), Err(ModelError::Tensor(_))));
}

#[test]
fn broadcast_tensors_may_be_too_large() {
    let one = tensor(vec![1.0], &[1, 1]);
    assert!(addressable(&one));
    let huge = one.broadcast_as((1usize << 31, 1usize << 31)).unwrap();
    assert!(!addressable(&huge));
    let half = tensor(vec![1.0], &[1]).to_dtype(DType::F16).unwrap();
    assert!(addressable(&half));
}
