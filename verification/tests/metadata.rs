//! Metadata and the properties read from it.
use candle_core::quantized::gguf_file::Value;
use qwen35::error::ModelError;
use qwen35::metadata::{verify_qwen35_arch, Metadata};
use qwen35::plan::read_props;
use qwen35::props::{ContentMetadata, PropsGGUF, DEFAULT_ROPE_FREQ_BASE_BITS};

fn required() -> Vec<(&'static str, Value)> {
    vec![
        ("qwen35.attention.head_count", Value::U32(16)),
        ("qwen35.attention.head_count_kv", Value::U32(4)),
        ("qwen35.block_count", Value::U32(28)),
        ("qwen35.embedding_length", Value::U32(2560)),
        ("qwen35.feed_forward_length", Value::U32(9216)),
        ("qwen35.attention.layer_norm_rms_epsilon", Value::F32(1e-6)),
        ("qwen35.ssm.conv_kernel", Value::U32(4)),
        ("qwen35.ssm.state_size", Value::U32(128)),
        ("qwen35.ssm.group_count", Value::U32(16)),
        ("qwen35.ssm.time_step_rank", Value::U32(32)),
        ("qwen35.ssm.inner_size", Value::U32(4096)),
    ]
}

fn metadata(arch: Option<Value>, fields: Vec<(&str, Value)>) -> Metadata {
    let mut m = Metadata::new();
    if let Some(a) = arch {
        m.insert("general.architecture".to_string(), a);
    }
    for (k, v) in fields {
        m.insert(k.to_string(), v);
    }
    m
}

fn qwen35() -> Option<Value> {
    Some(Value::String("qwen35".to_string()))
}

fn props(m: &Metadata) -> Result<PropsGGUF, ModelError> {
    let c = ContentMetadata { path_prefix: "qwen35", metadata: m };
    assert!(c.is_divisible());
    PropsGGUF::try_from(ContentMetadata { path_prefix: "qwen35", metadata: m })
}

fn without(key: &str) -> Vec<(&'static str, Value)> {
    required().into_iter().filter(|(k, _)| *k != key).collect()
}

fn with(key: &'static str, value: Value) -> Vec<(&'static str, Value)> {
    let mut f = without(key);
    f.push((key, value));
    f
}

#[test]
fn architecture_is_verified() {
    assert_eq!(verify_qwen35_arch(&metadata(qwen35(), vec![])).unwrap(), "qwen35");
}

#[test]
fn other_architecture_is_named() {
    let m = metadata(Some(Value::String("llama".to_string())), required());
    let e = verify_qwen35_arch(&m).unwrap_err();
    assert!(matches!(&e, ModelError::WrongArchitecture(a) if a == "llama"));
    assert_eq!(e.message(), "Expected `qwen35` architecture, got `llama`.");
    assert!(matches!(props(&m), Err(ModelError::WrongArchitecture(_))));
}

#[test]
fn architecture_must_be_text() {
    assert!(matches!(
        verify_qwen35_arch(&metadata(None, required())),
        Err(ModelError::MissingArchitecture)
    ));
    assert!(matches!(
        verify_qwen35_arch(&metadata(Some(Value::U32(35)), required())),
        Err(ModelError::MissingArchitecture)
    ));
}

#[test]
fn properties_with_defaults() {
    let p = props(&metadata(qwen35(), required())).unwrap();
    assert_eq!(p.head_count, 16);
    assert_eq!(p.head_count_kv, 4);
    assert_eq!(p.block_count, 28);
    assert_eq!(p.embedding_length, 2560);
    assert_eq!(p.rms_norm_eps.to_f64(), f64::from(1e-6f32));
    assert_eq!(p.max_seq_len, 4096);
    assert_eq!(f32::from_bits(p.rope_freq_base), 10_000_000.0);
    assert_eq!(p.rope_dimension_count, 40);
    assert_eq!(p.rope_dimension_sections, vec![11, 11, 10, 0]);
    assert_eq!(p.key_length, 160);
    assert_eq!(p.full_attention_interval, 4);
    assert_eq!(p.conv_kernel, 4);
    assert_eq!(p.linear_key_head_dim, 128);
    assert_eq!(p.linear_value_head_dim, 128);
    assert_eq!(p.linear_num_key_heads, 16);
    assert_eq!(p.linear_num_value_heads, 32);
}

#[test]
fn default_frequency_base_has_the_bits_of_ten_million() {
    assert_eq!(DEFAULT_ROPE_FREQ_BASE_BITS, 10_000_000.0f32.to_bits());
}

#[test]
fn optional_properties_are_read() {
    let mut f = required();
    f.push(("qwen35.context_length", Value::U32(262144)));
    f.push(("qwen35.rope.freq_base", Value::F32(5e6)));
    f.push(("qwen35.rope.dimension_count", Value::U32(64)));
    f.push((
        "qwen35.rope.dimension_sections",
        Value::Array(vec![Value::U32(24), Value::U32(20), Value::U32(20)]),
    ));
    f.push(("qwen35.attention.key_length", Value::U32(256)));
    f.push(("qwen35.full_attention_interval", Value::U32(3)));
    let p = props(&metadata(qwen35(), f)).unwrap();
    assert_eq!(p.max_seq_len, 262144);
    assert_eq!(f32::from_bits(p.rope_freq_base), 5e6);
    assert_eq!(p.rope_dimension_count, 64);
    assert_eq!(p.rope_dimension_sections, vec![24, 20, 20]);
    assert_eq!(p.key_length, 256);
    assert_eq!(p.full_attention_interval, 3);
}

#[test]
fn context_length_takes_what_converts_without_loss() {
    for (v, n) in [
        (Value::U64(100_000), 100_000),
        (Value::U8(7), 7),
        (Value::U16(8192), 8192),
        (Value::Bool(true), 1),
        (Value::I32(5), 4096),
        (Value::String("5".to_string()), 4096),
    ] {
        let p = props(&metadata(qwen35(), with("qwen35.context_length", v))).unwrap();
        assert_eq!(p.max_seq_len, n);
    }
}

#[test]
fn optional_properties_of_the_wrong_type_are_ignored() {
    let mut f = required();
    f.push(("qwen35.rope.freq_base", Value::F64(5e6)));
    f.push(("qwen35.rope.dimension_count", Value::U64(64)));
    f.push((
        "qwen35.rope.dimension_sections",
        Value::Array(vec![Value::U32(24), Value::I32(20)]),
    ));
    f.push(("qwen35.attention.key_length", Value::I32(256)));
    f.push(("qwen35.full_attention_interval", Value::U8(3)));
    let p = props(&metadata(qwen35(), f)).unwrap();
    assert_eq!(f32::from_bits(p.rope_freq_base), 10_000_000.0);
    assert_eq!(p.rope_dimension_count, 40);
    assert_eq!(p.rope_dimension_sections, vec![11, 11, 10, 0]);
    assert_eq!(p.key_length, 160);
    assert_eq!(p.full_attention_interval, 4);
}

#[test]
fn an_empty_list_of_sections_is_a_list() {
    let p = props(&metadata(
        qwen35(),
        with("qwen35.rope.dimension_sections", Value::Array(vec![])),
    ))
    .unwrap();
    assert!(p.rope_dimension_sections.is_empty());
}

#[test]
fn default_rotary_dimensions_are_computed_in_single_precision() {
    for e in [
        4u32, 7, 160, 1000, 16_777_215, 16_777_216, 16_777_217, 16_777_219, 33_554_433, 33_554_435,
        33_554_438, 0x7fff_ffff, 0xffff_ff7f, 0xffff_ff80, 0xffff_ffff,
    ] {
        let mut f = without("qwen35.embedding_length");
        f.retain(|(k, _)| *k != "qwen35.attention.head_count");
        f.push(("qwen35.embedding_length", Value::U32(e)));
        f.push(("qwen35.attention.head_count", Value::U32(1)));
        let p = props(&metadata(qwen35(), f)).unwrap();
        assert_eq!(p.rope_dimension_count, (e as f32 * 0.25) as usize, "for {e}");
    }
}

#[test]
fn every_required_key_is_required() {
    for (k, _) in required() {
        assert!(matches!(
            props(&metadata(qwen35(), without(k))),
            Err(ModelError::MissingKeys)
        ));
    }
}

#[test]
fn values_of_the_wrong_type_are_named_in_reading_order() {
    let order = [
        "qwen35.embedding_length",
        "qwen35.attention.head_count",
        "qwen35.ssm.time_step_rank",
        "qwen35.ssm.inner_size",
        "qwen35.attention.head_count_kv",
        "qwen35.block_count",
        "qwen35.attention.layer_norm_rms_epsilon",
        "qwen35.ssm.conv_kernel",
        "qwen35.ssm.state_size",
        "qwen35.ssm.group_count",
    ];
    for i in 0..order.len() {
        // From the `i`-th key on, all values are of the wrong type.
        let f = required()
            .into_iter()
            .map(|(k, v)| {
                let late = order.iter().position(|o| *o == k).is_some_and(|p| p >= i);
                (k, if late { Value::I64(1) } else { v })
            })
            .collect();
        match props(&metadata(qwen35(), f)) {
            Err(ModelError::InvalidValue(k)) => assert_eq!(k, order[i]),
            _ => panic!("expected an invalid value"),
        }
    }
}

#[test]
fn the_feed_forward_length_may_have_any_type() {
    let f = with("qwen35.feed_forward_length", Value::String("many".to_string()));
    assert!(props(&metadata(qwen35(), f)).is_ok());
}

#[test]
fn divisions_by_zero_are_foreseen() {
    let zero_heads = metadata(qwen35(), with("qwen35.attention.head_count", Value::U32(0)));
    let zero_values = metadata(qwen35(), with("qwen35.ssm.time_step_rank", Value::U32(0)));
    for m in [zero_heads, zero_values] {
        assert!(!ContentMetadata { path_prefix: "qwen35", metadata: &m }.is_divisible());
    }
    // A value that is read earlier is wrong, so the division does not come up.
    let mut f = with("qwen35.attention.head_count", Value::U32(0));
    f.retain(|(k, _)| *k != "qwen35.block_count");
    f.push(("qwen35.block_count", Value::F32(1.0)));
    let m = metadata(qwen35(), f);
    match props(&m) {
        Err(ModelError::InvalidValue(k)) => assert_eq!(k, "qwen35.block_count"),
        _ => panic!("expected an invalid value"),
    }
}

#[test]
fn paged_attention_is_refused_first() {
    let m = metadata(None, vec![]);
    let e = read_props(&m, true).err().unwrap();
    assert!(matches!(e, ModelError::PagedAttention));
    assert_eq!(e.message(), "Qwen3.5 GGUF does not support PagedAttention yet.");
    assert!(matches!(read_props(&m, false), Err(ModelError::MissingArchitecture)));
    let good = metadata(qwen35(), required());
    assert_eq!(read_props(&good, false).unwrap().block_count, 28);
}

#[test]
fn metadata_is_a_map() {
    let mut m = Metadata::new();
    assert!(!m.contains_key("a"));
    m.insert("a".to_string(), Value::U32(1));
    m.insert("a".to_string(), Value::U32(2));
    m.insert("t".to_string(), Value::String("text".to_string()));
    assert_eq!(m.get_u32("a"), Some(2));
    assert_eq!(m.get_u64("a"), Some(2));
    assert_eq!(m.get_u32("b"), None);
    assert_eq!(m.get_text("t"), Some("text".to_string()));
    assert_eq!(m.get_text("a"), None);
    assert_eq!(m.get_single("a"), None);
    assert_eq!(m.get_u32s("a"), None);
}
