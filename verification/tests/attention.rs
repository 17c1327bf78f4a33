//! Full attention around the attention itself.
use candle_core::quantized::{GgmlDType, QTensor};
use candle_core::{DType, Device, Tensor};
use qwen35::attention::{apply_gate, FullAttention};
use qwen35::error::ModelError;
use qwen35::linear::{qmethod, Linear};
use qwen35::view::Dtype;

fn tensor(values: Vec<f32>, dims: &[usize]) -> Tensor {
    Tensor::from_vec(values, dims, &Device::Cpu).unwrap()
}

fn ramp(n: usize) -> Vec<f32> {
    (0..n).map(|i| i as f32).collect()
}

fn linear(w: Vec<f32>, rows: usize, cols: usize) -> Linear {
    qmethod(QTensor::quantize(&tensor(w, &[rows, cols]), GgmlDType::F32).unwrap()).unwrap()
}

/// A matrix that repeats the input: row `i` picks element `i % cols`, times `i + 1`.
fn picks(rows: usize, cols: usize) -> Vec<f32> {
    let mut w = vec![0.0; rows * cols];
    for i in 0..rows {
        w[i * cols + i % cols] = (i + 1) as f32;
    }
    w
}

/// Two query heads of two numbers, one key head.
fn layer() -> FullAttention {
    FullAttention {
        q: linear(picks(8, 3), 8, 3),
        k: linear(picks(2, 3), 2, 3),
        v: linear(picks(2, 3), 2, 3),
        o: linear(picks(3, 4), 3, 4),
        n_head: 2,
        n_kv_head: 1,
        head_dim: 2,
        n_kv_groups: 2,
        dtype: Dtype::F32,
    }
}

fn flat(t: &Tensor) -> Vec<f32> {
    t.flatten_all().unwrap().to_dtype(DType::F32).unwrap().to_vec1::<f32>().unwrap()
}

fn sigmoid(x: f32) -> f32 {
    1.0 / (1.0 + (-x).exp())
}

fn close(a: &[f32], b: &[f32]) {
    assert_eq!(a.len(), b.len());
    for (x, y) in a.iter().zip(b) {
        assert!((x - y).abs() < 1e-5, "{x} is not {y}");
    }
}

#[test]
fn queries_and_gates_are_dealt_out() {
    for seq in [1, 3] {
        let q_gate = tensor(ramp(seq * 8), &[1, seq, 8]);
        let k = tensor(ramp(seq * 2), &[1, seq, 2]);
        let v = tensor(ramp(seq * 2), &[1, seq, 2]);
        let h = layer().split(&q_gate, &k, &v).unwrap();
        assert_eq!(h.q.dims(), &[1, 2, seq, 2]);
        assert_eq!(h.k.dims(), &[1, 1, seq, 2]);
        assert_eq!(h.v.dims(), &[1, 1, seq, 2]);
        assert_eq!(h.gate.dims(), &[1, seq, 4]);
        let q = flat(&h.q);
        let gate = flat(&h.gate);
        for head in 0..2 {
            for t in 0..seq {
                for d in 0..2 {
                    assert_eq!(q[(head * seq + t) * 2 + d], (t * 8 + head * 4 + d) as f32);
                    assert_eq!(gate[t * 4 + head * 2 + d], (t * 8 + head * 4 + 2 + d) as f32);
                }
            }
        }
        assert_eq!(flat(&h.k), ramp(seq * 2));
    }
}

#[test]
fn the_fused_projection_is_dealt_out_without_loss() {
    let q_gate = tensor(ramp(2 * 8), &[1, 2, 8]);
    let kv = tensor(ramp(4), &[1, 2, 2]);
    let h = layer().split(&q_gate, &kv, &kv).unwrap();
    let mut all = [flat(&h.q), flat(&h.gate)].concat();
    all.sort_by(f32::total_cmp);
    assert_eq!(all, ramp(16));
}

#[test]
fn the_input_is_projected() {
    let x = tensor(vec![1.0, 2.0, 3.0, -1.0, 0.5, 4.0], &[1, 2, 3]);
    let h = layer().project(&x).unwrap();
    // Row `i` of the query map picks element `i % 3`, times `i + 1`.
    let row = |t: usize, i: usize| {
        let v = [[1.0, 2.0, 3.0], [-1.0, 0.5, 4.0]];
        v[t][i % 3] * (i + 1) as f32
    };
    let q = flat(&h.q);
    let gate = flat(&h.gate);
    for head in 0..2 {
        for t in 0..2 {
            for d in 0..2 {
                assert_eq!(q[(head * 2 + t) * 2 + d], row(t, head * 4 + d));
                assert_eq!(gate[t * 4 + head * 2 + d], row(t, head * 4 + 2 + d));
            }
        }
    }
    assert_eq!(flat(&h.v), vec![1.0, 4.0, -1.0, 1.0]);
}

#[test]
fn an_input_of_another_rank_is_refused() {
    let x = tensor(ramp(3), &[1, 3]);
    assert!(matches!(layer().project(&x), Err(ModelError::Rank)));
}

#[test]
fn an_input_of_another_width_is_refused() {
    let x = tensor(ramp(8), &[1, 2, 4]);
    assert!(matches!(layer().project(&x), Err(ModelError::Shapes)));
}

#[test]
fn maps_of_another_size_are_refused() {
    let x = tensor(ramp(6), &[1, 2, 3]);
    let mut l = layer();
    l.q = linear(picks(7, 3), 7, 3);
    assert!(matches!(l.project(&x), Err(ModelError::Tensor(_))));
    let mut l = layer();
    l.v = linear(picks(3, 3), 3, 3);
    assert!(matches!(l.project(&x), Err(ModelError::Tensor(_))));
}

#[test]
fn no_tokens_have_no_heads() {
    let h = layer().project(&tensor(vec![], &[1, 0, 3])).unwrap();
    assert_eq!(h.q.dims(), &[1, 2, 0, 2]);
    assert_eq!(h.k.dims(), &[1, 1, 0, 2]);
    assert_eq!(h.gate.dims(), &[1, 0, 4]);
}

#[test]
fn several_sequences_of_one_token_each_get_their_heads() {
    let x = tensor(ramp(6), &[1, 2, 3]);
    let rows = layer().project(&x).unwrap();
    let turned = layer().project(&x.transpose(0, 1).unwrap()).unwrap();
    assert_eq!(turned.q.dims(), &[2, 2, 1, 2]);
    assert_eq!(flat(&turned.q), flat(&rows.q.transpose(1, 2).unwrap()));
    assert_eq!(flat(&turned.gate), flat(&rows.gate));
}

#[test]
fn outputs_are_gated_head_by_head() {
    let gate = tensor(ramp(12).iter().map(|v| v - 6.0).collect(), &[1, 3, 4]);
    let g = flat(&gate);
    // Two heads before three tokens, as a custom mask has it.
    let y = tensor(ramp(12), &[1, 2, 3, 2]);
    let o = flat(&apply_gate(&y, &gate, true, Dtype::F32).unwrap());
    let mut want = Vec::new();
    for t in 0..3 {
        for head in 0..2 {
            for d in 0..2 {
                let v = (head * 3 + t) * 2 + d;
                want.push(v as f32 * sigmoid(g[t * 4 + head * 2 + d]));
            }
        }
    }
    close(&o, &want);
    // Three tokens before two heads otherwise.
    let y = tensor(ramp(12), &[1, 3, 2, 2]);
    let o = flat(&apply_gate(&y, &gate, false, Dtype::F32).unwrap());
    let want: Vec<f32> = (0..12).map(|i| i as f32 * sigmoid(g[i])).collect();
    close(&o, &want);
}

#[test]
fn the_gated_output_gets_the_type_asked_for() {
    let gate = tensor(ramp(4), &[1, 1, 4]);
    let y = tensor(ramp(4), &[1, 1, 2, 2]).to_dtype(DType::BF16).unwrap();
    let o = apply_gate(&y, &gate, false, Dtype::F16).unwrap();
    assert_eq!(o.dtype(), DType::F16);
    assert_eq!(o.dims(), &[1, 1, 4]);
}

#[test]
fn an_output_must_make_up_rows() {
    let gate = tensor(ramp(12), &[1, 3, 4]);
    let y = tensor(ramp(8), &[1, 2, 2, 2]);
    assert!(matches!(
        apply_gate(&y, &gate, false, Dtype::F32),
        Err(ModelError::RowLength)
    ));
    let none = tensor(vec![], &[1, 0, 4]);
    assert!(matches!(
        apply_gate(&y, &none, false, Dtype::F32),
        Err(ModelError::RowLength)
    ));
}

#[test]
fn the_gated_output_is_mapped() {
    let gate = tensor(vec![0.0; 4], &[1, 1, 4]);
    let y = tensor(vec![2.0, 4.0, 6.0, 8.0], &[1, 1, 2, 2]);
    let o = layer().finish(&y, &gate, false, Dtype::F32).unwrap();
    assert_eq!(o.dims(), &[1, 1, 3]);
    close(&flat(&o), &[1.0, 4.0, 9.0]);
}
