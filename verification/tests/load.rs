//! Layers made from tensors.
use candle_core::quantized::{GgmlDType, QTensor};
use candle_core::scalar::Scalar;
use candle_core::{DType, Device, Tensor};
use qwen35::attention::FullAttention;
use qwen35::error::ModelError;
use qwen35::linear_attention::LinearAttention;
use qwen35::load::{FullTensors, LinearTensors, MlpTensors};
use qwen35::mlp::Mlp;
use qwen35::model::{LayerImpl, LayerWeights, ModelWeights};
use qwen35::plan::LoadPlan;
use qwen35::props::PropsGGUF;
use qwen35::view::Dtype;

fn quantized(values: Vec<f32>, dims: &[usize]) -> QTensor {
    let t = Tensor::from_vec(values, dims, &Device::Cpu).unwrap();
    QTensor::quantize(&t, GgmlDType::F32).unwrap()
}

fn ones(dims: &[usize]) -> QTensor {
    quantized(vec![1.0; dims.iter().product()], dims)
}

fn props() -> PropsGGUF {
    PropsGGUF {
        head_count: 6,
        head_count_kv: 2,
        block_count: 2,
        embedding_length: 4,
        rms_norm_eps: Scalar::from(1e-5f32),
        max_seq_len: 77,
        rope_freq_base: 0,
        rope_dimension_count: 2,
        rope_dimension_sections: vec![1, 0, 0, 0],
        key_length: 2,
        full_attention_interval: 2,
        conv_kernel: 3,
        linear_key_head_dim: 1,
        linear_value_head_dim: 2,
        linear_num_key_heads: 1,
        linear_num_value_heads: 2,
    }
}

fn full() -> FullAttention {
    FullAttention::load(
        &props(),
        FullTensors { q: ones(&[24, 4]), k: ones(&[4, 4]), v: ones(&[4, 4]), o: ones(&[4, 12]) },
        Dtype::BF16,
    )
    .unwrap()
}

fn linear_tensors(conv1d: QTensor) -> LinearTensors {
    LinearTensors {
        qkv: ones(&[6, 4]),
        z: ones(&[4, 4]),
        beta: ones(&[2, 4]),
        alpha: ones(&[2, 4]),
        conv1d,
        dt_bias: quantized(vec![0.5, 1.5], &[2]),
        a: quantized(vec![-1.0, -2.0], &[2]),
        norm: quantized(vec![3.0, 4.0], &[2]),
        out: ones(&[4, 4]),
    }
}

fn linear() -> LinearAttention {
    let conv = quantized((0..18).map(|i| i as f32).collect(), &[6, 1, 3]);
    LinearAttention::load(&props(), linear_tensors(conv), Dtype::F16).unwrap()
}

fn mlp() -> Mlp {
    Mlp::load(MlpTensors { gate: ones(&[8, 4]), down: ones(&[4, 8]), up: ones(&[8, 4]) }).unwrap()
}

#[test]
fn a_layer_with_full_attention_is_loaded() {
    let l = full();
    assert_eq!(l.n_head, 6);
    assert_eq!(l.n_kv_head, 2);
    assert_eq!(l.head_dim, 2);
    assert_eq!(l.n_kv_groups, 3);
    assert_eq!(l.dtype, Dtype::BF16);
}

#[test]
fn a_layer_with_linear_attention_is_loaded() {
    let l = linear();
    assert_eq!(l.conv1d_weight.dims(), &[6, 3]);
    assert_eq!(l.conv1d_weight.dtype(), DType::F16);
    let w = l.conv1d_weight.to_dtype(DType::F32).unwrap().to_vec2::<f32>().unwrap();
    assert_eq!(w[2], vec![6.0, 7.0, 8.0]);
    assert_eq!(l.dt_bias.to_vec1::<f32>().unwrap(), vec![0.5, 1.5]);
    assert_eq!(l.a.to_vec1::<f32>().unwrap(), vec![-1.0, -2.0]);
    assert_eq!(l.norm.weight.to_vec1::<f32>().unwrap(), vec![3.0, 4.0]);
    assert_eq!(l.norm.eps.to_f64(), f64::from(1e-5f32));
    assert_eq!((l.num_k_heads, l.num_v_heads), (1, 2));
    assert_eq!((l.head_k_dim, l.head_v_dim), (1, 2));
    assert_eq!(l.conv_kernel_size, 3);
    assert_eq!((l.key_dim, l.value_dim), (1, 4));
}

#[test]
fn the_planned_caches_fit_the_layer() {
    let l = linear();
    let plan = LoadPlan::new(props());
    assert_eq!(plan.cache.recurrent.conv_dim, l.key_dim * 2 + l.value_dim);
    assert_eq!(plan.cache.recurrent.conv_width, l.conv_kernel_size);
    assert_eq!(
        plan.cache.recurrent.state_dims,
        vec![l.num_v_heads, l.head_k_dim, l.head_v_dim]
    );
}

#[test]
fn a_convolution_weight_of_another_size_is_refused() {
    let r = LinearAttention::load(&props(), linear_tensors(ones(&[6, 2])), Dtype::F32);
    assert!(matches!(r, Err(ModelError::Tensor(_))));
}

#[test]
fn a_model_is_made_of_the_planned_layers() {
    let plan = LoadPlan::new(props());
    let layers = vec![
        LayerWeights { layer: LayerImpl::Linear(linear()), mlp: mlp() },
        LayerWeights { layer: LayerImpl::Full(full()), mlp: mlp() },
    ];
    let m = ModelWeights::from_gguf(&plan, &ones(&[10, 4]), ones(&[10, 4]), layers, Dtype::F32)
        .unwrap();
    assert!(m.is_runnable());
    assert_eq!(m.embedding_length, 4);
    assert_eq!(m.max_seq_len, 77);
    assert_eq!(m.dtype, Dtype::F32);
    assert_eq!(m.layers.len(), 2);
}

#[test]
fn layers_of_other_kinds_are_refused() {
    let plan = LoadPlan::new(props());
    let layers = vec![
        LayerWeights { layer: LayerImpl::Full(full()), mlp: mlp() },
        LayerWeights { layer: LayerImpl::Full(full()), mlp: mlp() },
    ];
    let r = ModelWeights::from_gguf(&plan, &ones(&[10, 4]), ones(&[10, 4]), layers, Dtype::F32);
    assert!(matches!(r, Err(ModelError::WrongLayers)));
    let one = vec![LayerWeights { layer: LayerImpl::Linear(linear()), mlp: mlp() }];
    let r = ModelWeights::from_gguf(&plan, &ones(&[10, 4]), ones(&[10, 4]), one, Dtype::F32);
    let e = r.err().unwrap();
    assert_eq!(e.message(), "The layers are not those of the model.");
}

#[test]
fn a_layer_without_key_heads_or_kernel_cannot_be_run() {
    let mut l = linear();
    l.num_k_heads = 0;
    assert!(!LayerWeights { layer: LayerImpl::Linear(l), mlp: mlp() }.is_runnable());
    let mut l = linear();
    l.conv_kernel_size = 0;
    assert!(!LayerWeights { layer: LayerImpl::Linear(l), mlp: mlp() }.is_runnable());
    let mut f = full();
    f.head_dim = usize::MAX;
    assert!(!LayerWeights { layer: LayerImpl::Full(f), mlp: mlp() }.is_runnable());
    assert!(LayerWeights { layer: LayerImpl::Full(full()), mlp: mlp() }.is_runnable());
}
