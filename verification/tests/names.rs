//! The names of tensors.
use qwen35::names::{common_names, full_names, layer_tensor_name, linear_names, output_name};

#[test]
fn names_of_layers() {
    assert_eq!(layer_tensor_name(0, "attn_q.weight"), "blk.0.attn_q.weight");
    assert_eq!(layer_tensor_name(27, "ssm_a"), "blk.27.ssm_a");
    assert_eq!(layer_tensor_name(1080, "ssm_dt.bias"), "blk.1080.ssm_dt.bias");
}

#[test]
fn names_of_full_attention() {
    let n = full_names(3);
    assert_eq!(n.q, "blk.3.attn_q.weight");
    assert_eq!(n.k, "blk.3.attn_k.weight");
    assert_eq!(n.v, "blk.3.attn_v.weight");
    assert_eq!(n.o, "blk.3.attn_output.weight");
    assert_eq!(n.q_norm, "blk.3.attn_q_norm.weight");
    assert_eq!(n.k_norm, "blk.3.attn_k_norm.weight");
}

#[test]
fn names_of_linear_attention() {
    let n = linear_names(10);
    assert_eq!(n.qkv, "blk.10.attn_qkv.weight");
    assert_eq!(n.z, "blk.10.attn_gate.weight");
    assert_eq!(n.beta, "blk.10.ssm_beta.weight");
    assert_eq!(n.alpha, "blk.10.ssm_alpha.weight");
    assert_eq!(n.conv1d, "blk.10.ssm_conv1d.weight");
    assert_eq!(n.dt_bias, "blk.10.ssm_dt.bias");
    assert_eq!(n.a, "blk.10.ssm_a");
    assert_eq!(n.norm, "blk.10.ssm_norm.weight");
    assert_eq!(n.out, "blk.10.ssm_out.weight");
}

#[test]
fn names_common_to_all_layers() {
    let n = common_names(0);
    assert_eq!(n.attn_norm, "blk.0.attn_norm.weight");
    assert_eq!(n.ffn_norm, "blk.0.post_attention_norm.weight");
    assert_eq!(n.ffn_gate, "blk.0.ffn_gate.weight");
    assert_eq!(n.ffn_down, "blk.0.ffn_down.weight");
    assert_eq!(n.ffn_up, "blk.0.ffn_up.weight");
}

#[test]
fn output_falls_back_to_the_embedding_table() {
    assert_eq!(output_name(true), "output.weight");
    assert_eq!(output_name(false), "token_embd.weight");
}

#[test]
fn names_are_distinct() {
    let mut all: Vec<String> = Vec::new();
    for layer in 0..120 {
        for suffix in ["ssm_a", "ssm_norm.weight", "attn_norm.weight", "0.ssm_a"] {
            all.push(layer_tensor_name(layer, suffix));
        }
    }
    let n = all.len();
    all.sort();
    all.dedup();
    assert_eq!(all.len(), n);
}
