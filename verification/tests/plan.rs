//! Layer kinds and cache layout.
use candle_core::scalar::Scalar;
use qwen35::plan::{layer_types, HybridLayerType, LayerType, LoadPlan};
use qwen35::props::PropsGGUF;

fn props(block_count: usize, interval: usize) -> PropsGGUF {
    PropsGGUF {
        head_count: 16,
        head_count_kv: 4,
        block_count,
        embedding_length: 2560,
        rms_norm_eps: Scalar::from(1e-6f32),
        max_seq_len: 8192,
        rope_freq_base: 0,
        rope_dimension_count: 64,
        rope_dimension_sections: vec![11, 11, 10, 0],
        key_length: 256,
        full_attention_interval: interval,
        conv_kernel: 4,
        linear_key_head_dim: 128,
        linear_value_head_dim: 64,
        linear_num_key_heads: 16,
        linear_num_value_heads: 32,
    }
}

#[test]
fn every_fourth_of_28_layers_has_full_attention() {
    let types = layer_types(28, 4);
    let full: Vec<usize> = (0..28).filter(|i| types[*i] == LayerType::FullAttention).collect();
    assert_eq!(full, vec![3, 7, 11, 15, 19, 23, 27]);
    assert_eq!(types.iter().filter(|t| **t == LayerType::LinearAttention).count(), 21);
}

#[test]
fn one_layer_in_interval_has_full_attention() {
    for n in 0..40 {
        for interval in 1..9 {
            let full = layer_types(n, interval)
                .iter()
                .filter(|t| **t == LayerType::FullAttention)
                .count();
            assert_eq!(full, n / interval);
        }
    }
}

#[test]
fn no_layers_need_no_interval() {
    assert!(layer_types(0, 0).is_empty());
    assert!(props(0, 0).is_plannable());
    assert!(!props(1, 0).is_plannable());
}

#[test]
fn the_plan_lays_out_the_caches() {
    let plan = LoadPlan::new(props(28, 4));
    assert_eq!(plan.cache.layer_types.len(), 28);
    for i in 0..28 {
        let kind = if (i + 1) % 4 == 0 {
            HybridLayerType::Attention
        } else {
            HybridLayerType::Recurrent
        };
        assert_eq!(plan.cache.layer_types[i], kind);
    }
    assert_eq!(plan.cache.max_seq_len, 8192);
    assert_eq!(plan.cache.recurrent.conv_dim, 2 * 128 * 16 + 64 * 32);
    assert_eq!(plan.cache.recurrent.conv_width, 4);
    assert_eq!(plan.cache.recurrent.state_dims, vec![32, 128, 64]);
}

#[test]
fn too_many_channels_cannot_be_planned() {
    let mut p = props(4, 4);
    p.linear_key_head_dim = usize::MAX / 4;
    p.linear_num_key_heads = 3;
    assert!(!p.is_plannable());
    p.linear_num_key_heads = 2;
    p.linear_value_head_dim = 0;
    assert!(p.is_plannable());
    p.linear_value_head_dim = 1;
    p.linear_num_value_heads = 8;
    assert!(!p.is_plannable());
}
