//! The causal convolution.
use candle_core::quantized::{GgmlDType, QTensor};
use candle_core::scalar::Scalar;
use candle_core::{DType, Device, Tensor};
use qwen35::error::ModelError;
use qwen35::linear::{qmethod, Linear};
use qwen35::linear_attention::{GdnLayerCache, LinearAttention};
use qwen35::norm::RmsNormGated;

const CHANNELS: usize = 3;
const KERNEL: usize = 3;

fn tensor(values: Vec<f32>, dims: &[usize]) -> Tensor {
    Tensor::from_vec(values, dims, &Device::Cpu).unwrap()
}

fn linear() -> Linear {
    let w = tensor(vec![1.0; 4], &[2, 2]);
    qmethod(QTensor::quantize(&w, GgmlDType::F32).unwrap()).unwrap()
}

fn weight() -> Vec<f32> {
    vec![0.5, -1.0, 2.0, 1.5, 0.25, -0.75, 3.0, 1.0, 0.125]
}

fn layer() -> LinearAttention {
    LinearAttention {
        qkv: linear(),
        z: linear(),
        beta: linear(),
        alpha: linear(),
        conv1d_weight: tensor(weight(), &[CHANNELS, KERNEL]),
        dt_bias: tensor(vec![0.0], &[1]),
        a: tensor(vec![0.0], &[1]),
        norm: RmsNormGated { weight: tensor(vec![1.0], &[1]), eps: Scalar::from(1e-6f64) },
        out: linear(),
        num_k_heads: 1,
        num_v_heads: 1,
        head_k_dim: 1,
        head_v_dim: 1,
        conv_kernel_size: KERNEL,
        key_dim: 1,
        value_dim: 1,
    }
}

fn cache() -> GdnLayerCache {
    GdnLayerCache {
        conv_state: tensor(vec![9.0; CHANNELS * KERNEL], &[1, CHANNELS, KERNEL]),
        recurrent_state: tensor(vec![4.0], &[1, 1, 1, 1]),
        seqlen_offset: 5,
    }
}

fn input(len: usize) -> Vec<f32> {
    (0..len * CHANNELS).map(|i| ((i * 7 + 3) % 11) as f32 * 0.25 - 1.0).collect()
}

fn silu(x: f32) -> f32 {
    x / (1.0 + (-x).exp())
}

/// The convolution by definition, with `before` in front of the input.
fn expected(before: &[[f32; CHANNELS]], x: &[f32], len: usize) -> Vec<f32> {
    let at = |n: isize, c: usize| -> f32 {
        if n >= 0 {
            x[n as usize * CHANNELS + c]
        } else {
            let i = before.len() as isize + n;
            if i < 0 { 0.0 } else { before[i as usize][c] }
        }
    };
    let w = weight();
    let mut out = Vec::new();
    for t in 0..len as isize {
        for c in 0..CHANNELS {
            let mut s = 0.0f32;
            for j in 0..KERNEL {
                s += at(t + j as isize + 1 - KERNEL as isize, c) * w[c * KERNEL + j];
            }
            out.push(silu(s));
        }
    }
    out
}

fn flat(t: &Tensor) -> Vec<f32> {
    t.flatten_all().unwrap().to_dtype(DType::F32).unwrap().to_vec1::<f32>().unwrap()
}

fn close(a: &[f32], b: &[f32]) {
    assert_eq!(a.len(), b.len());
    for (x, y) in a.iter().zip(b) {
        assert!((x - y).abs() < 1e-5, "{x} is not {y}");
    }
}

#[test]
fn a_sequence_is_convolved_from_its_start() {
    for len in [1, 2, 3, 4, 7] {
        let x = tensor(input(len), &[1, len, CHANNELS]);
        let mut c = cache();
        let o = layer().causal_conv1d_full(&x, &mut c).unwrap();
        assert_eq!(o.dims(), &[1, len, CHANNELS]);
        close(&flat(&o), &expected(&[], &input(len), len));
    }
}

#[test]
fn the_state_holds_the_last_inputs_with_zeros_in_front() {
    let x = tensor(input(2), &[1, 2, CHANNELS]);
    let mut c = cache();
    layer().causal_conv1d_full(&x, &mut c).unwrap();
    assert_eq!(c.conv_state.dims(), &[1, CHANNELS, KERNEL]);
    let i = input(2);
    assert_eq!(
        flat(&c.conv_state),
        vec![0.0, i[0], i[3], 0.0, i[1], i[4], 0.0, i[2], i[5]]
    );
    assert_eq!(flat(&c.recurrent_state), vec![4.0]);
    assert_eq!(c.seqlen_offset, 5);

    let x = tensor(input(5), &[1, 5, CHANNELS]);
    layer().causal_conv1d_full(&x, &mut c).unwrap();
    let i = input(5);
    assert_eq!(
        flat(&c.conv_state),
        vec![i[6], i[9], i[12], i[7], i[10], i[13], i[8], i[11], i[14]]
    );
}

#[test]
fn a_sequence_goes_on_from_the_state() {
    let x = tensor(input(2), &[1, 2, CHANNELS]);
    let state = [[1.0, 2.0, 3.0], [-1.0, 0.5, 0.25], [2.0, -2.0, 1.0]];
    let mut columns = Vec::new();
    for c in 0..CHANNELS {
        for s in &state {
            columns.push(s[c]);
        }
    }
    let mut c = cache();
    c.conv_state = tensor(columns, &[1, CHANNELS, KERNEL]);
    let o = layer().causal_conv1d_update(&x, &mut c).unwrap();
    close(&flat(&o), &expected(&state, &input(2), 2));
    let i = input(2);
    assert_eq!(
        flat(&c.conv_state),
        vec![2.0, i[0], i[3], -2.0, i[1], i[4], 1.0, i[2], i[5]]
    );
}

#[test]
fn decoding_after_a_prefill_is_one_long_prefill() {
    let l = layer();
    let len = 9;
    let all = input(len);
    let mut whole = cache();
    let x = tensor(all.clone(), &[1, len, CHANNELS]);
    let long = flat(&l.causal_conv1d_full(&x, &mut whole).unwrap());
    for first in 1..len {
        let mut c = cache();
        let head = tensor(all[..first * CHANNELS].to_vec(), &[1, first, CHANNELS]);
        let mut out = flat(&l.causal_conv1d_full(&head, &mut c).unwrap());
        for t in first..len {
            let one = tensor(all[t * CHANNELS..(t + 1) * CHANNELS].to_vec(), &[1, 1, CHANNELS]);
            out.extend(flat(&l.causal_conv1d_update(&one, &mut c).unwrap()));
        }
        assert_eq!(out, long);
        assert_eq!(flat(&c.conv_state), flat(&whole.conv_state));
    }
}

#[test]
fn going_on_twice_is_going_on_once() {
    let l = layer();
    let all = input(4);
    let mut once = cache();
    let o = flat(&l.causal_conv1d_update(&tensor(all.clone(), &[1, 4, CHANNELS]), &mut once).unwrap());
    let mut twice = cache();
    let head = tensor(all[..CHANNELS].to_vec(), &[1, 1, CHANNELS]);
    let tail = tensor(all[CHANNELS..].to_vec(), &[1, 3, CHANNELS]);
    let mut p = flat(&l.causal_conv1d_update(&head, &mut twice).unwrap());
    p.extend(flat(&l.causal_conv1d_update(&tail, &mut twice).unwrap()));
    assert_eq!(o, p);
    assert_eq!(flat(&once.conv_state), flat(&twice.conv_state));
}

#[test]
fn later_inputs_do_not_matter() {
    let l = layer();
    let mut a = input(5);
    let x = flat(&l.causal_conv1d_full(&tensor(a.clone(), &[1, 5, CHANNELS]), &mut cache()).unwrap());
    for v in &mut a[3 * CHANNELS..] {
        *v += 100.0;
    }
    let y = flat(&l.causal_conv1d_full(&tensor(a, &[1, 5, CHANNELS]), &mut cache()).unwrap());
    assert_eq!(x[..3 * CHANNELS], y[..3 * CHANNELS]);
    assert_ne!(x[3 * CHANNELS..], y[3 * CHANNELS..]);
}

#[test]
fn the_state_decides_the_type() {
    let l = layer();
    let mut c = cache();
    c.conv_state = c.conv_state.to_dtype(DType::F64).unwrap();
    let x = tensor(input(3), &[1, 3, CHANNELS]);
    let o = l.causal_conv1d_full(&x, &mut c).unwrap();
    assert_eq!(o.dtype(), DType::F64);
    assert_eq!(c.conv_state.dtype(), DType::F64);
    close(&flat(&o), &expected(&[], &input(3), 3));
}

#[test]
fn sequences_of_a_batch_do_not_mix() {
    let l = layer();
    for len in [1usize, 2, 5] {
        let other: Vec<f32> = input(len).iter().map(|v| v * -2.0 + 0.5).collect();
        let x = tensor([input(len), other].concat(), &[2, len, CHANNELS]);
        let before: Vec<f32> = (0..2 * CHANNELS * KERNEL).map(|i| i as f32 * 0.125).collect();
        let state = tensor(before, &[2, CHANNELS, KERNEL]);
        for fresh in [true, false] {
            let run = |x: &Tensor, c: &mut GdnLayerCache| {
                if fresh { l.causal_conv1d_full(x, c) } else { l.causal_conv1d_update(x, c) }
            };
            let mut both = cache();
            both.conv_state = state.clone();
            let o = run(&x, &mut both).unwrap();
            assert_eq!(o.dims(), &[2, len, CHANNELS]);
            assert_eq!(both.conv_state.dims(), &[2, CHANNELS, KERNEL]);
            for b in 0..2 {
                let mut one = cache();
                one.conv_state = state.narrow(0, b, 1).unwrap();
                let y = run(&x.narrow(0, b, 1).unwrap(), &mut one).unwrap();
                assert_eq!(flat(&o.narrow(0, b, 1).unwrap()), flat(&y));
                assert_eq!(
                    flat(&both.conv_state.narrow(0, b, 1).unwrap()),
                    flat(&one.conv_state)
                );
            }
        }
    }
}

#[test]
fn no_channels_give_no_values() {
    let mut l = layer();
    l.conv1d_weight = tensor(vec![], &[0, KERNEL]);
    let mut c = cache();
    c.conv_state = tensor(vec![], &[1, 0, KERNEL]);
    let x = tensor(vec![], &[1, 3, 0]);
    assert_eq!(l.causal_conv1d_full(&x, &mut c).unwrap().dims(), &[1, 3, 0]);
    assert_eq!(c.conv_state.dims(), &[1, 0, KERNEL]);
    assert_eq!(l.causal_conv1d_update(&x, &mut c).unwrap().dims(), &[1, 3, 0]);
    assert_eq!(c.conv_state.dims(), &[1, 0, KERNEL]);
}

#[test]
fn a_batch_without_sequences_gives_none() {
    let l = layer();
    let mut c = cache();
    let x = tensor(vec![], &[0, 2, CHANNELS]);
    assert_eq!(l.causal_conv1d_full(&x, &mut c).unwrap().dims(), &[0, 2, CHANNELS]);
    assert_eq!(l.causal_conv1d_update(&x, &mut c).unwrap().dims(), &[0, 2, CHANNELS]);
}

#[test]
fn a_kernel_of_one_place_needs_no_padding() {
    let mut l = layer();
    l.conv_kernel_size = 1;
    l.conv1d_weight = tensor(vec![2.0, -1.0, 0.5], &[CHANNELS, 1]);
    let mut c = cache();
    let x = tensor(vec![1.0, 2.0, 3.0, 4.0, 5.0, 6.0], &[1, 2, CHANNELS]);
    let o = l.causal_conv1d_full(&x, &mut c).unwrap();
    close(&flat(&o), &[2.0, -2.0, 1.5, 8.0, -5.0, 3.0].map(silu));
    assert_eq!(flat(&c.conv_state), vec![4.0, 5.0, 6.0]);
}

#[test]
fn a_state_of_eight_bit_numbers_is_convolved() {
    let l = layer();
    let mut c = cache();
    c.conv_state = c.conv_state.to_dtype(DType::F8E4M3).unwrap();
    let x = tensor(vec![1.0; CHANNELS], &[1, 1, CHANNELS]);
    let o = l.causal_conv1d_full(&x, &mut c).unwrap();
    assert_eq!(o.dtype(), DType::F8E4M3);
    // The last weights: 2, -0.75 and 0.125.
    for (g, w) in flat(&o).iter().zip([2.0, -0.75, 0.125]) {
        assert!((g - silu(w)).abs() < 0.1, "{g} is far from {}", silu(w));
    }
}

#[test]
fn an_empty_sequence_is_refused() {
    let x = tensor(vec![], &[1, 0, CHANNELS]);
    assert!(layer().causal_conv1d_full(&x, &mut cache()).is_err());
    assert!(layer().causal_conv1d_update(&x, &mut cache()).is_err());
}

#[test]
fn the_input_has_three_dimensions() {
    let x = tensor(input(2), &[2, CHANNELS]);
    assert!(matches!(
        layer().causal_conv1d_full(&x, &mut cache()),
        Err(ModelError::Rank)
    ));
    assert!(matches!(
        layer().causal_conv1d_update(&x, &mut cache()),
        Err(ModelError::Rank)
    ));
}

#[test]
fn the_channels_must_be_those_of_the_state() {
    let x = tensor(vec![0.0; 4], &[1, 2, 2]);
    let mut c = cache();
    assert!(matches!(
        layer().causal_conv1d_update(&x, &mut c),
        Err(ModelError::Shapes)
    ));
    assert_eq!(flat(&c.conv_state), vec![9.0; CHANNELS * KERNEL]);
    // From the start, the state is set before the weight is found not to fit.
    assert!(matches!(
        layer().causal_conv1d_full(&x, &mut c),
        Err(ModelError::Shapes)
    ));
    assert_eq!(c.conv_state.dims(), &[1, 2, KERNEL]);
}
