//! Linear attention around the recurrence.
use candle_core::quantized::{GgmlDType, QTensor};
use candle_core::scalar::Scalar;
use candle_core::{DType, Device, Tensor};
use qwen35::error::ModelError;
use qwen35::linear::{qmethod, Linear};
use qwen35::linear_attention::{GdnLayerCache, LinearAttention};
use qwen35::norm::RmsNormGated;
use qwen35::view::Dtype;

const EMBED: usize = 3;

fn tensor(values: Vec<f32>, dims: &[usize]) -> Tensor {
    Tensor::from_vec(values, dims, &Device::Cpu).unwrap()
}

fn ramp(n: usize) -> Vec<f32> {
    (0..n).map(|i| i as f32).collect()
}

/// A linear map whose row `i` picks element `i % EMBED`, times `i + 1`.
fn picks(rows: usize, cols: usize) -> Linear {
    let mut w = vec![0.0; rows * cols];
    for i in 0..rows {
        w[i * cols + i % cols] = (i + 1) as f32;
    }
    qmethod(QTensor::quantize(&tensor(w, &[rows, cols]), GgmlDType::F32).unwrap()).unwrap()
}

/// Two key heads of one number, four value heads of two.
fn layer() -> LinearAttention {
    LinearAttention {
        qkv: picks(12, EMBED),
        z: picks(8, EMBED),
        beta: picks(4, EMBED),
        alpha: picks(4, EMBED),
        // The last place of each window alone.
        conv1d_weight: tensor([[0.0, 1.0]; 12].concat(), &[12, 2]),
        dt_bias: tensor(vec![0.5, 1.0, 1.5, 2.0], &[4]),
        a: tensor(vec![-1.0, -2.0, -3.0, -4.0], &[4]),
        norm: RmsNormGated { weight: tensor(vec![1.0, 3.0], &[2]), eps: Scalar::from(0.0f64) },
        out: picks(3, 8),
        num_k_heads: 2,
        num_v_heads: 4,
        head_k_dim: 1,
        head_v_dim: 2,
        conv_kernel_size: 2,
        key_dim: 2,
        value_dim: 8,
    }
}

fn cache(offset: usize) -> GdnLayerCache {
    GdnLayerCache {
        conv_state: tensor(vec![0.0; 24], &[1, 12, 2]),
        recurrent_state: tensor(vec![0.0; 8], &[1, 4, 1, 2]),
        seqlen_offset: offset,
    }
}

fn flat(t: &Tensor) -> Vec<f32> {
    t.flatten_all().unwrap().to_dtype(DType::F32).unwrap().to_vec1::<f32>().unwrap()
}

fn silu(x: f32) -> f32 {
    x / (1.0 + (-x).exp())
}

fn sigmoid(x: f32) -> f32 {
    1.0 / (1.0 + (-x).exp())
}

fn close(a: &[f32], b: &[f32]) {
    assert_eq!(a.len(), b.len());
    for (x, y) in a.iter().zip(b) {
        assert!((x - y).abs() < 1e-4 * (1.0 + y.abs()), "{x} is not {y}");
    }
}

#[test]
fn the_input_is_projected_to_heads() {
    let x = tensor(vec![1.0, 2.0, 3.0, 4.0, 5.0, 6.0], &[1, 2, EMBED]);
    let p = layer().project(&x).unwrap();
    assert_eq!(p.mixed.dims(), &[1, 2, 12]);
    assert_eq!(p.z.dims(), &[1, 2, 4, 2]);
    assert_eq!(p.b.dims(), &[1, 2, 4]);
    assert_eq!(p.a.dims(), &[1, 2, 4]);
    assert_eq!(flat(&p.b), vec![1.0, 4.0, 9.0, 4.0, 4.0, 10.0, 18.0, 16.0]);
    let one = vec![1.0, 2.0, 3.0];
    let want: Vec<f32> = (0..8).map(|i| one[i % 3] * (i + 1) as f32).collect();
    assert_eq!(flat(&p.z)[..8], want);
}

#[test]
fn projections_of_another_size_are_refused() {
    let x = tensor(ramp(6), &[1, 2, EMBED]);
    let mut l = layer();
    l.z = picks(7, EMBED);
    assert!(matches!(l.project(&x), Err(ModelError::Tensor(_))));
    assert!(matches!(layer().project(&tensor(ramp(6), &[2, EMBED])), Err(ModelError::Rank)));
}

#[test]
fn key_heads_are_tiled_over_value_heads() {
    let x = tensor(ramp(24), &[1, 2, 12]);
    let h = layer().heads(&x).unwrap();
    assert_eq!(h.q.dims(), &[1, 2, 4, 1]);
    assert_eq!(h.k.dims(), &[1, 2, 4, 1]);
    assert_eq!(h.v.dims(), &[1, 2, 4, 2]);
    // Value head `i` takes key head `i % 2`.
    assert_eq!(flat(&h.q), vec![0.0, 1.0, 0.0, 1.0, 12.0, 13.0, 12.0, 13.0]);
    assert_eq!(flat(&h.k), vec![2.0, 3.0, 2.0, 3.0, 14.0, 15.0, 14.0, 15.0]);
    assert_eq!(flat(&h.v)[..8], ramp(12)[4..]);
}

#[test]
fn as_many_key_heads_as_value_heads_need_no_tiling() {
    let mut l = layer();
    l.num_k_heads = 4;
    l.key_dim = 4;
    let x = tensor(ramp(16), &[1, 1, 16]);
    let h = l.heads(&x).unwrap();
    assert_eq!(flat(&h.q), vec![0.0, 1.0, 2.0, 3.0]);
    assert_eq!(flat(&h.k), vec![4.0, 5.0, 6.0, 7.0]);
    assert_eq!(flat(&h.v), ramp(16)[8..]);
}

#[test]
fn value_heads_must_share_key_heads_evenly() {
    let mut l = layer();
    l.num_v_heads = 5;
    l.value_dim = 10;
    let x = tensor(ramp(14), &[1, 1, 14]);
    assert!(matches!(l.heads(&x), Err(ModelError::Tensor(_))));
}

#[test]
fn gates_are_computed() {
    let l = layer();
    let a = tensor(vec![1.0, 2.0, 3.0, 4.0], &[1, 1, 4]);
    let biased = l.softplus_input(&a).unwrap();
    assert_eq!(flat(&biased), vec![1.5, 3.0, 4.5, 6.0]);
    let softplus = tensor(vec![0.5, 0.25, 2.0, 3.0], &[1, 1, 4]);
    let b = tensor(vec![0.0, 1.0, -1.0, 2.0], &[1, 1, 4]);
    let (beta, g) = l.compute_beta_g_cpu(&b, &softplus, Dtype::F32).unwrap();
    close(&flat(&beta), &[0.5, sigmoid(1.0), sigmoid(-1.0), sigmoid(2.0)]);
    assert_eq!(flat(&g), vec![-0.5, -0.5, -6.0, -12.0]);
    let (_, g) = l.compute_beta_g_cpu(&b, &softplus, Dtype::F64).unwrap();
    assert_eq!(g.dtype(), DType::F64);
}

#[test]
fn gates_need_a_factor_for_each_head() {
    let l = layer();
    let three = tensor(vec![1.0; 3], &[1, 1, 3]);
    assert!(matches!(l.softplus_input(&three), Err(ModelError::Tensor(_))));
    assert!(l.compute_beta_g_cpu(&three, &three, Dtype::F32).is_err());
}

#[test]
fn heads_are_normalised_and_put_side_by_side() {
    let l = layer();
    let y = tensor(vec![3.0, 4.0, 1.0, 1.0, 0.0, 2.0, -1.0, 1.0], &[1, 1, 4, 2]);
    let z = tensor(vec![1.0; 8], &[1, 1, 4, 2]);
    let o = l.norm_rows(&y, &z).unwrap();
    assert_eq!(o.dims(), &[1, 1, 8]);
    let s = silu(1.0);
    let r = 12.5f32.sqrt();
    let h = 2.0f32.sqrt();
    close(
        &flat(&o),
        &[3.0 / r * s, 12.0 / r * s, s, 3.0 * s, 0.0, 6.0 / h * s, -s, 3.0 * s],
    );
}

#[test]
fn outputs_must_make_up_heads() {
    let l = layer();
    let z = tensor(vec![1.0; 8], &[1, 1, 4, 2]);
    let odd = tensor(vec![1.0; 7], &[7]);
    assert!(matches!(l.norm_rows(&odd, &z), Err(ModelError::RowLength)));
    let six = tensor(vec![1.0; 6], &[6]);
    assert!(l.norm_rows(&six, &z).is_err());
}

#[test]
fn the_output_is_mapped() {
    let l = layer();
    let y = tensor(vec![1.0; 8], &[1, 1, 4, 2]);
    let z = tensor(vec![1.0; 8], &[1, 1, 4, 2]);
    let o = l.finish(&y, &z).unwrap();
    let s = silu(1.0);
    close(&flat(&o), &[s, 6.0 * s, 3.0 * s]);
}

#[test]
fn a_layer_runs_up_to_the_recurrence() {
    let l = layer();
    let x = tensor(vec![1.0, 2.0, 3.0, 4.0, 5.0, 6.0], &[1, 2, EMBED]);
    let mut c = cache(0);
    let s = l.forward(&x, &mut c).unwrap();
    // The kernel takes the current token alone.
    let rows = [[1.0f32, 2.0, 3.0], [4.0, 5.0, 6.0]];
    let mixed = |t: usize, i: usize| silu(rows[t][i % 3] * (i + 1) as f32);
    let mut q = Vec::new();
    let mut v = Vec::new();
    for t in 0..2 {
        for h in 0..4 {
            q.push(mixed(t, h % 2));
            v.push(mixed(t, 4 + h * 2));
            v.push(mixed(t, 5 + h * 2));
        }
    }
    close(&flat(&s.heads.q), &q);
    close(&flat(&s.heads.v), &v);
    assert_eq!(flat(&s.biased)[..4], [1.5, 5.0, 10.5, 6.0]);
    assert_eq!(s.z.dims(), &[1, 2, 4, 2]);
    assert_eq!(c.conv_state.dims(), &[1, 12, 2]);
    assert_eq!(flat(&c.conv_state)[..2], [1.0, 4.0]);
    assert_eq!(c.seqlen_offset, 0);
}

#[test]
fn a_single_token_goes_on_and_several_start_anew() {
    let mut l = layer();
    // The place before the last of each window alone.
    l.conv1d_weight = tensor([[1.0, 0.0]; 12].concat(), &[12, 2]);
    let one = tensor(vec![1.0, 1.0, 1.0], &[1, 1, EMBED]);
    let mut c = cache(1);
    c.conv_state = tensor(vec![7.0; 24], &[1, 12, 2]);
    let s = l.forward(&one, &mut c).unwrap();
    close(&flat(&s.heads.q), &[silu(7.0); 4]);
    // Nothing came before: the state counts for nothing.
    let mut c = cache(0);
    c.conv_state = tensor(vec![7.0; 24], &[1, 12, 2]);
    let s = l.forward(&one, &mut c).unwrap();
    close(&flat(&s.heads.q), &[0.0; 4]);
    // Several tokens start anew, whatever came before.
    let two = tensor(vec![1.0; 6], &[1, 2, EMBED]);
    let mut c = cache(1);
    c.conv_state = tensor(vec![7.0; 24], &[1, 12, 2]);
    let s = l.forward(&two, &mut c).unwrap();
    close(&flat(&s.heads.q)[..4], &[0.0; 4]);
}

#[test]
fn heads_are_laid_out_in_lines() {
    let l = layer();
    for seq in [1usize, 3, 64] {
        let q = tensor(ramp(seq * 4), &[1, seq, 4, 1]);
        let v = tensor(ramp(seq * 8), &[1, seq, 4, 2]);
        let g = tensor(ramp(seq * 4), &[1, seq, 4]);
        let state = tensor(ramp(8), &[1, 4, 1, 2]);
        let f = l
            .recurrence_inputs(&q, &q, &v, &g, &g, &state, 1, seq, &Scalar::from(0.5f64))
            .unwrap();
        assert_eq!(f.q.dims(), &[4, seq, 1]);
        assert_eq!(f.v.dims(), &[4, seq, 2]);
        assert_eq!(f.g.dims(), &[4, seq]);
        assert_eq!(f.state.dims(), &[4, 1, 2]);
        assert_eq!(f.chunked, seq >= 64);
        let (fq, fk, fv, fg) = (flat(&f.q), flat(&f.k), flat(&f.v), flat(&f.beta));
        for h in 0..4 {
            for t in 0..seq {
                let n = (t * 4 + h) as f32;
                assert_eq!(fq[h * seq + t], n * 0.5);
                assert_eq!(fk[h * seq + t], n);
                assert_eq!(fg[h * seq + t], n);
                assert_eq!(fv[(h * seq + t) * 2 + 1], n * 2.0 + 1.0);
            }
        }
        assert_eq!(flat(&f.state), ramp(8));
        // What is laid out in lines comes back where it was.
        let (y, s) = l
            .recurrence_outputs(&f.v, &f.state, 1, seq, Dtype::F32, Dtype::F64)
            .unwrap();
        assert_eq!(y.dims(), &[1, seq, 4, 2]);
        assert_eq!(flat(&y), ramp(seq * 8));
        assert_eq!(s.dims(), &[1, 4, 1, 2]);
        assert_eq!(s.dtype(), DType::F64);
        assert_eq!(flat(&s), ramp(8));
    }
}

#[test]
fn several_sequences_are_laid_out_one_behind_the_other() {
    let l = layer();
    let q = tensor(ramp(16), &[2, 2, 4, 1]);
    let v = tensor(ramp(32), &[2, 2, 4, 2]);
    let g = tensor(ramp(16), &[2, 2, 4]);
    let state = tensor(ramp(16), &[2, 4, 1, 2]);
    let f = l
        .recurrence_inputs(&q, &q, &v, &g, &g, &state, 2, 2, &Scalar::from(1.0f64))
        .unwrap();
    assert_eq!(f.k.dims(), &[8, 2, 1]);
    // Sequence 1, head 2, token 1.
    assert_eq!(flat(&f.k)[(4 + 2) * 2 + 1], (8 + 4 + 2) as f32);
    assert!(!f.chunked);
}

#[test]
fn lines_of_another_size_are_refused() {
    let l = layer();
    let q = tensor(ramp(3), &[1, 1, 3, 1]);
    let v = tensor(ramp(8), &[1, 1, 4, 2]);
    let g = tensor(ramp(4), &[1, 1, 4]);
    let state = tensor(ramp(8), &[1, 4, 1, 2]);
    assert!(l
        .recurrence_inputs(&q, &q, &v, &g, &g, &state, 1, 1, &Scalar::from(1.0f64))
        .is_err());
    assert!(l.recurrence_outputs(&g, &state, 1, 1, Dtype::F32, Dtype::F32).is_err());
}

#[test]
fn sequences_of_a_batch_run_apart() {
    let l = layer();
    let x = tensor(ramp(12), &[2, 2, EMBED]);
    let mut both = cache(0);
    both.conv_state = tensor(vec![0.0; 48], &[2, 12, 2]);
    let s = l.forward(&x, &mut both).unwrap();
    assert_eq!(s.heads.q.dims(), &[2, 2, 4, 1]);
    assert_eq!(s.heads.v.dims(), &[2, 2, 4, 2]);
    assert_eq!(both.conv_state.dims(), &[2, 12, 2]);
    for b in 0..2 {
        let mut one = cache(0);
        let t = l.forward(&x.narrow(0, b, 1).unwrap(), &mut one).unwrap();
        let part = |t: &Tensor| flat(&t.narrow(0, b, 1).unwrap());
        close(&part(&s.heads.k), &flat(&t.heads.k));
        close(&part(&s.heads.v), &flat(&t.heads.v));
        close(&part(&s.biased), &flat(&t.biased));
        assert_eq!(part(&both.conv_state), flat(&one.conv_state));
    }
}

#[test]
fn several_sequences_of_one_token_each_are_projected() {
    let l = layer();
    let x = tensor(ramp(6), &[1, 2, EMBED]);
    let rows = l.project(&x).unwrap();
    let turned = l.project(&x.transpose(0, 1).unwrap()).unwrap();
    assert_eq!(turned.mixed.dims(), &[2, 1, 12]);
    assert_eq!(flat(&turned.mixed), flat(&rows.mixed));
    assert_eq!(flat(&turned.z), flat(&rows.z));
}

#[test]
fn a_fresh_start_forgets_the_state() {
    let l = layer();
    for (offset, len) in [(0, 1), (0, 3), (9, 3)] {
        let x = tensor(ramp(len * EMBED), &[1, len, EMBED]);
        let mut a = cache(offset);
        let mut b = cache(offset);
        b.conv_state = tensor(vec![5.0; 12], &[1, 12, 1]);
        let s = l.forward(&x, &mut a).unwrap();
        let t = l.forward(&x, &mut b).unwrap();
        assert_eq!(flat(&s.heads.q), flat(&t.heads.q));
        assert_eq!(flat(&s.heads.v), flat(&t.heads.v));
        assert_eq!(b.conv_state.dims(), &[1, 12, 2]);
        assert_eq!(flat(&a.conv_state), flat(&b.conv_state));
    }
}

#[test]
fn a_refused_input_leaves_the_cache_alone() {
    let l = layer();
    let mut c = cache(3);
    c.conv_state = tensor(ramp(24), &[1, 12, 2]);
    assert!(l.forward(&tensor(ramp(6), &[2, EMBED]), &mut c).is_err());
    assert!(l.forward(&tensor(ramp(8), &[1, 2, 4]), &mut c).is_err());
    assert_eq!(flat(&c.conv_state), ramp(24));
    assert_eq!(c.seqlen_offset, 3);
    // The convolution has run when the heads are found not to make up the keys.
    let mut l = layer();
    l.head_k_dim = 3;
    assert!(l.forward(&tensor(ramp(6), &[1, 2, EMBED]), &mut c).is_err());
    assert_eq!(flat(&c.conv_state)[..2], [0.0, 3.0]);
}

#[test]
fn the_cache_moves_on_even_if_the_output_cannot_be_computed() {
    let y = tensor(vec![1.0; 16], &[1, 2, 4, 2]);
    let z = tensor(vec![1.0; 16], &[1, 2, 4, 2]);
    let state = tensor(ramp(8), &[1, 4, 1, 2]);
    let mut c = cache(5);
    let o = layer().conclude(&y, state.clone(), &z, &mut c).unwrap();
    assert_eq!(o.dims(), &[1, 2, 3]);
    assert_eq!(c.seqlen_offset, 7);
    assert_eq!(c.conv_state.dims(), &[1, 12, 2]);
    assert_eq!(flat(&c.recurrent_state), ramp(8));
    let mut l = layer();
    l.out = picks(3, 7);
    let mut c = cache(5);
    assert!(matches!(l.conclude(&y, state, &z, &mut c), Err(ModelError::Shapes)));
    assert_eq!(c.seqlen_offset, 7);
    assert_eq!(flat(&c.recurrent_state), ramp(8));
}

#[test]
fn an_empty_batch_runs_through() {
    let l = layer();
    let mut c = cache(0);
    let s = l.forward(&tensor(vec![], &[0, 2, EMBED]), &mut c).unwrap();
    assert_eq!(s.heads.q.dims(), &[0, 2, 4, 1]);
    assert_eq!(s.z.dims(), &[0, 2, 4, 2]);
    assert_eq!(c.conv_state.dims(), &[0, 12, 2]);
}

#[test]
fn a_layer_runs_with_a_half_precision_cache() {
    let l = layer();
    let x = tensor(vec![1.0, 2.0, 3.0, 4.0, 5.0, 6.0], &[1, 2, EMBED]);
    let want = l.forward(&x, &mut cache(0)).unwrap();
    for dtype in [DType::F16, DType::BF16] {
        let mut c = cache(0);
        c.conv_state = c.conv_state.to_dtype(dtype).unwrap();
        let s = l.forward(&x, &mut c).unwrap();
        assert_eq!(s.heads.q.dtype(), dtype);
        assert_eq!(c.conv_state.dtype(), dtype);
        for (g, w) in flat(&s.heads.v).iter().zip(flat(&want.heads.v)) {
            assert!((g - w).abs() < 0.02 * (1.0 + w.abs()), "{g} is far from {w}");
        }
        // The output is mapped in single precision, and comes in the type of the recurrence's.
        let y = tensor(vec![1.0; 16], &[1, 2, 4, 2]).to_dtype(dtype).unwrap();
        let o = l.finish(&y, &want.z).unwrap();
        assert_eq!(o.dtype(), dtype);
        let single = l.finish(&y.to_dtype(DType::F32).unwrap(), &want.z).unwrap();
        for (g, w) in flat(&o).iter().zip(flat(&single)) {
            assert!((g - w).abs() < 0.02 * (1.0 + w.abs()), "{g} is far from {w}");
        }
    }
}

#[test]
fn rows_that_a_map_refuses_leave_the_cache_alone() {
    // One map has its weight in blocks and takes packed rows only.
    let mut l = layer();
    let w = tensor(ramp(128), &[4, 32]);
    l.qkv = picks(12, 32);
    l.z = picks(8, 32);
    l.beta = picks(4, 32);
    l.alpha = qmethod(QTensor::quantize(&w, GgmlDType::Q8_0).unwrap()).unwrap();
    let x = tensor(ramp(64), &[1, 32, 2]).transpose(1, 2).unwrap();
    let mut c = cache(0);
    c.conv_state = tensor(ramp(24), &[1, 12, 2]);
    assert!(matches!(l.forward(&x, &mut c), Err(ModelError::NotPacked)));
    assert_eq!(flat(&c.conv_state), ramp(24));
    assert!(l.forward(&x.contiguous().unwrap(), &mut c).is_ok());
    // Nor do rows of a type that the maps do not take change it.
    let l = layer();
    let half = tensor(ramp(6), &[1, 2, EMBED]).to_dtype(DType::BF16).unwrap();
    let mut c = cache(0);
    c.conv_state = tensor(ramp(24), &[1, 12, 2]);
    assert!(l.forward(&half, &mut c).is_err());
    assert_eq!(flat(&c.conv_state), ramp(24));
}

#[test]
fn success_from_the_start_does_not_depend_on_the_state() {
    let l = layer();
    let x = tensor(ramp(6), &[1, 2, EMBED]);
    for dims in [vec![1usize, 12, 2], vec![3, 1, 1], vec![2], vec![1, 12, 0]] {
        let n = dims.iter().product();
        let mut c = cache(4);
        c.conv_state = tensor(vec![1.0; n], &dims);
        assert!(l.forward(&x, &mut c).is_ok());
    }
}
