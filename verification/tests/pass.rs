//! Forward passes, with simple stand-ins for what is computed outside.
use candle_core::quantized::{GgmlDType, QTensor};
use candle_core::scalar::Scalar;
use candle_core::{DType, Device, Tensor, D};
use qwen35::attention::FullAttention;
use qwen35::error::{ModelError, PassError};
use qwen35::linear_attention::{GdnLayerCache, LinearAttention};
use qwen35::load::{FullTensors, LinearTensors, MlpTensors};
use qwen35::mlp::Mlp;
use qwen35::model::{LayerImpl, LayerWeights, ModelWeights};
use qwen35::pass::{add_residual, Pass, Reply, Slot, Step};
use qwen35::plan::LoadPlan;
use qwen35::props::PropsGGUF;
use qwen35::view::Dtype;

const EMBED: usize = 4;
const VOCAB: usize = 6;

fn props(block_count: usize) -> PropsGGUF {
    PropsGGUF {
        head_count: 2,
        head_count_kv: 1,
        block_count,
        embedding_length: EMBED,
        rms_norm_eps: Scalar::from(1e-5f32),
        max_seq_len: 64,
        rope_freq_base: 0,
        rope_dimension_count: 2,
        rope_dimension_sections: vec![1, 0, 0, 0],
        key_length: 2,
        full_attention_interval: 2,
        conv_kernel: 3,
        linear_key_head_dim: 2,
        linear_value_head_dim: 2,
        linear_num_key_heads: 1,
        linear_num_value_heads: 2,
    }
}

/// A matrix of small numbers that depend on `seed`.
fn matrix(seed: usize, dims: &[usize]) -> Tensor {
    let n: usize = dims.iter().product();
    let v = (0..n).map(|i| ((i * 5 + seed * 7) % 13) as f32 * 0.125 - 0.75).collect::<Vec<_>>();
    Tensor::from_vec(v, dims, &Device::Cpu).unwrap()
}

fn quantized(t: &Tensor) -> QTensor {
    QTensor::quantize(t, GgmlDType::F32).unwrap()
}

fn q(seed: usize, dims: &[usize]) -> QTensor {
    quantized(&matrix(seed, dims))
}

fn layer(i: usize) -> LayerWeights {
    let layer = if (i + 1) % 2 == 0 {
        LayerImpl::Full(
            FullAttention::load(
                &props(2),
                FullTensors {
                    q: q(1, &[8, EMBED]),
                    k: q(2, &[2, EMBED]),
                    v: q(3, &[2, EMBED]),
                    o: q(4, &[EMBED, 4]),
                },
                Dtype::F32,
            )
            .unwrap(),
        )
    } else {
        LayerImpl::Linear(
            LinearAttention::load(
                &props(2),
                LinearTensors {
                    qkv: q(5, &[8, EMBED]),
                    z: q(6, &[4, EMBED]),
                    beta: q(7, &[2, EMBED]),
                    alpha: q(8, &[2, EMBED]),
                    conv1d: q(9, &[8, 1, 3]),
                    dt_bias: q(10, &[2]),
                    a: q(11, &[2]),
                    norm: q(12, &[2]),
                    out: q(13, &[EMBED, 4]),
                },
                Dtype::F32,
            )
            .unwrap(),
        )
    };
    let mlp = Mlp::load(MlpTensors {
        gate: q(14, &[5, EMBED]),
        down: q(15, &[EMBED, 5]),
        up: q(16, &[5, EMBED]),
    })
    .unwrap();
    LayerWeights { layer, mlp }
}

fn model(layers: usize) -> ModelWeights {
    let plan = LoadPlan::new(props(layers));
    let m = ModelWeights::from_gguf(
        &plan,
        &q(17, &[VOCAB, EMBED]),
        q(18, &[VOCAB, EMBED]),
        (0..layers).map(layer).collect(),
        Dtype::F32,
    )
    .unwrap();
    assert!(m.is_runnable());
    m
}

fn tokens(ids: &[u32]) -> Tensor {
    Tensor::from_vec(ids.to_vec(), (1, ids.len()), &Device::Cpu).unwrap()
}

fn norm(x: &Tensor, by: f64) -> Tensor {
    (x * by).unwrap()
}

fn rotate(x: &Tensor) -> Tensor {
    (x + 0.25).unwrap()
}

/// Each token's attention output is the sum of its query and the mean of all values.
fn attend(q: &Tensor, v: &Tensor) -> Tensor {
    let mean = v.mean_keepdim(2).unwrap();
    q.broadcast_add(&mean).unwrap().transpose(1, 2).unwrap().contiguous().unwrap()
}

fn softplus(x: &Tensor) -> Tensor {
    (x.exp().unwrap() + 1.0).unwrap().log().unwrap()
}

/// The recurrence's stand-in: `v * beta + g`, and a state that grows by one.
fn recur(q: &Tensor, k: &Tensor, v: &Tensor, g: &Tensor, beta: &Tensor) -> Tensor {
    let qk = (q * k).unwrap().sum_keepdim(D::Minus1).unwrap();
    let y = v.broadcast_mul(&beta.unsqueeze(D::Minus1).unwrap()).unwrap();
    let y = y.broadcast_add(&g.unsqueeze(D::Minus1).unwrap()).unwrap();
    y.broadcast_add(&qk).unwrap()
}

struct Caches {
    keys: Vec<Option<(Tensor, Tensor)>>,
    states: Vec<GdnLayerCache>,
}

fn caches(layers: usize) -> Caches {
    let mut keys = Vec::new();
    let mut states = Vec::new();
    for _ in 0..layers {
        keys.push(None);
        states.push(GdnLayerCache {
            conv_state: Tensor::zeros((1, 8, 3), DType::F32, &Device::Cpu).unwrap(),
            recurrent_state: Tensor::zeros((1, 2, 2, 2), DType::F32, &Device::Cpu).unwrap(),
            seqlen_offset: 0,
        });
    }
    Caches { keys, states }
}

fn copy(c: &GdnLayerCache) -> GdnLayerCache {
    GdnLayerCache {
        conv_state: c.conv_state.clone(),
        recurrent_state: c.recurrent_state.clone(),
        seqlen_offset: c.seqlen_offset,
    }
}

fn answer(step: &Step, m: &ModelWeights, caches: &mut Caches) -> Reply {
    match step {
        Step::Prepare { .. } => Reply::Ready,
        Step::Place { hidden, .. } => Reply::Placed(hidden.clone()),
        Step::AttnNorm { hidden, .. } => Reply::Normed(norm(hidden, 0.5)),
        Step::OpenCache { layer, .. } => Reply::Opened(match m.layers[*layer].layer {
            LayerImpl::Full(_) => Slot::Attention,
            LayerImpl::Linear(_) => Slot::Recurrent(copy(&caches.states[*layer])),
        }),
        Step::Rotate { heads, .. } => {
            Reply::Rotated { q: rotate(&heads.q), k: rotate(&heads.k) }
        }
        Step::Append { layer, k, v, .. } => {
            let (k, v) = match &caches.keys[*layer] {
                None => (k.clone(), v.clone()),
                Some((a, b)) => {
                    (Tensor::cat(&[a, k], 2).unwrap(), Tensor::cat(&[b, v], 2).unwrap())
                }
            };
            caches.keys[*layer] = Some((k.clone(), v.clone()));
            Reply::Appended { k, v }
        }
        Step::Attend { q, v, .. } => Reply::Attended { y: attend(q, v), custom_mask: false },
        Step::Activate { inputs, .. } => Reply::Activated {
            q: norm(&inputs.heads.q, 0.5),
            k: norm(&inputs.heads.k, 0.5),
            softplus: softplus(&inputs.biased),
        },
        Step::Recur { q, k, v, g, beta, cache, .. } => Reply::Recurred {
            y: recur(q, k, v, g, beta),
            state: (&cache.recurrent_state + 1.0).unwrap(),
        },
        Step::Store { layer, cache, .. } => {
            caches.states[*layer] = copy(cache);
            Reply::Stored
        }
        Step::FfnNorm { hidden, .. } => Reply::Normed(norm(hidden, 2.0)),
        Step::OutputNorm { hidden } => Reply::Normed(norm(hidden, 3.0)),
        Step::ExtractLogits { hidden } => Reply::Logits(hidden.clone()),
        Step::Done { .. } => panic!("nothing is asked for"),
    }
}

/// Runs a pass to its end: the logits, and how many replies it took.
fn run(m: &ModelWeights, ids: &[u32], offset: usize, caches: &mut Caches) -> (Tensor, usize) {
    let mut pass = m.forward(&tokens(ids), &[offset], vec![(0, ids.len())], false).unwrap();
    let mut replies = 0;
    loop {
        if let Step::Done { logits } = &pass.step {
            return (logits.clone(), replies);
        }
        let reply = answer(&pass.step, m, caches);
        pass = m.advance(pass, reply).unwrap();
        replies += 1;
    }
}

fn times(x: &Tensor, w: &Tensor) -> Tensor {
    x.broadcast_matmul(&w.t().unwrap()).unwrap()
}

/// The same computation, written down directly, for a pass over a whole sequence.
fn computed_directly(layers: usize, ids: &[u32]) -> Tensor {
    let s = ids.len();
    let table = matrix(17, &[VOCAB, EMBED]);
    let mut x = table.index_select(&tokens(ids).flatten_all().unwrap(), 0).unwrap();
    x = x.unsqueeze(0).unwrap();
    for i in 0..layers {
        let n = norm(&x, 0.5);
        let attn = if (i + 1) % 2 == 0 {
            let qg = times(&n, &matrix(1, &[8, EMBED])).reshape((1, s, 2, 4)).unwrap();
            let q = qg.narrow(3, 0, 2).unwrap().transpose(1, 2).unwrap();
            let gate = qg.narrow(3, 2, 2).unwrap().reshape((1, s, 4)).unwrap();
            let v = times(&n, &matrix(3, &[2, EMBED])).reshape((1, s, 1, 2)).unwrap();
            let y = attend(&rotate(&q), &v.transpose(1, 2).unwrap());
            let y = y.reshape((1, s, 4)).unwrap();
            let y = (y * candle_nn::ops::sigmoid(&gate).unwrap()).unwrap();
            times(&y, &matrix(4, &[EMBED, 4]))
        } else {
            let mixed = times(&n, &matrix(5, &[8, EMBED]));
            let z = times(&n, &matrix(6, &[4, EMBED])).reshape(((), 2)).unwrap();
            let b = times(&n, &matrix(7, &[2, EMBED]));
            let a = times(&n, &matrix(8, &[2, EMBED]));
            let w = matrix(9, &[8, 3]);
            let zeros = Tensor::zeros((1, 2, 8), DType::F32, &Device::Cpu).unwrap();
            let padded = Tensor::cat(&[&zeros, &mixed], 1).unwrap();
            let mut conv = Tensor::zeros((1, s, 8), DType::F32, &Device::Cpu).unwrap();
            for j in 0..3 {
                let part = padded.narrow(1, j, s).unwrap();
                let weight = w.narrow(1, j, 1).unwrap().reshape((1, 1, 8)).unwrap();
                conv = (conv + part.broadcast_mul(&weight).unwrap()).unwrap();
            }
            let conv = candle_nn::ops::silu(&conv).unwrap();
            let head = |start: usize| {
                let h = conv.narrow(2, start, 2).unwrap().reshape((1, s, 1, 2)).unwrap();
                norm(&Tensor::cat(&[&h, &h], 2).unwrap(), 0.5)
            };
            let v = conv.narrow(2, 4, 4).unwrap().reshape((1, s, 2, 2)).unwrap();
            let beta = candle_nn::ops::sigmoid(&b).unwrap();
            let biased = a.broadcast_add(&matrix(10, &[2])).unwrap();
            let g = softplus(&biased).broadcast_mul(&matrix(11, &[2])).unwrap();
            let y = recur(&head(0), &head(2), &v, &g, &beta).reshape(((), 2)).unwrap();
            let rms = (y.sqr().unwrap().mean_keepdim(1).unwrap() + f64::from(1e-5f32)).unwrap();
            let y = y.broadcast_div(&rms.sqrt().unwrap()).unwrap();
            let y = y.broadcast_mul(&matrix(12, &[2])).unwrap();
            let y = (y * candle_nn::ops::silu(&z).unwrap()).unwrap();
            times(&y.reshape((1, s, 4)).unwrap(), &matrix(13, &[EMBED, 4]))
        };
        x = (attn + x).unwrap();
        let n = norm(&x, 2.0);
        let gate = candle_nn::ops::silu(&times(&n, &matrix(14, &[5, EMBED]))).unwrap();
        let inner = (gate * times(&n, &matrix(16, &[5, EMBED]))).unwrap();
        x = (times(&inner, &matrix(15, &[EMBED, 5])) + x).unwrap();
    }
    times(&norm(&x, 3.0), &matrix(18, &[VOCAB, EMBED]))
}

fn close(a: &Tensor, b: &Tensor) {
    assert_eq!(a.dims(), b.dims());
    let a = a.flatten_all().unwrap().to_vec1::<f32>().unwrap();
    let b = b.flatten_all().unwrap().to_vec1::<f32>().unwrap();
    for (x, y) in a.iter().zip(b) {
        assert!((x - y).abs() < 1e-3 * (1.0 + y.abs()), "{x} is not {y}");
    }
}

#[test]
fn a_pass_computes_the_model() {
    for layers in [0, 1, 2, 4] {
        for ids in [vec![3u32], vec![1, 5, 0, 2]] {
            let m = model(layers);
            let (logits, _) = run(&m, &ids, 0, &mut caches(layers));
            assert_eq!(logits.dims(), &[1, ids.len(), VOCAB]);
            close(&logits, &computed_directly(layers, &ids));
        }
    }
}

#[test]
fn a_pass_takes_seven_replies_for_each_layer_and_three_more() {
    for layers in [0, 1, 2, 5] {
        let (_, replies) = run(&model(layers), &[1, 2], 0, &mut caches(layers));
        assert_eq!(replies, 7 * layers + 3);
    }
}

#[test]
fn layers_are_entered_in_order_and_keep_the_form_of_the_stream() {
    let layers = 4;
    let m = model(layers);
    let mut c = caches(layers);
    let mut pass = m.forward(&tokens(&[1, 2, 3]), &[0], vec![], false).unwrap();
    let mut entered = Vec::new();
    let mut replies = 0;
    while !matches!(pass.step, Step::Done { .. }) {
        if let Step::Place { layer, hidden } | Step::FfnNorm { layer, hidden } = &pass.step {
            assert_eq!(hidden.dims(), &[1, 3, EMBED]);
            assert_eq!(hidden.dtype(), DType::F32);
            if matches!(pass.step, Step::Place { .. }) {
                entered.push((*layer, replies));
            }
        }
        let reply = answer(&pass.step, &m, &mut c);
        pass = m.advance(pass, reply).unwrap();
        replies += 1;
    }
    assert_eq!(entered, vec![(0, 1), (1, 8), (2, 15), (3, 22)]);
}

#[test]
fn tokens_are_counted_and_states_are_stored() {
    let m = model(2);
    let mut c = caches(2);
    run(&m, &[1, 2, 3, 4], 0, &mut c);
    assert_eq!(c.states[0].seqlen_offset, 4);
    assert_eq!(c.states[0].conv_state.dims(), &[1, 8, 3]);
    run(&m, &[5], 4, &mut c);
    assert_eq!(c.states[0].seqlen_offset, 5);
    let state = c.states[0].recurrent_state.flatten_all().unwrap().to_vec1::<f32>().unwrap();
    assert_eq!(state, vec![2.0; 8]);
    assert_eq!(c.keys[1].as_ref().unwrap().0.dims(), &[1, 1, 5, 2]);
}

#[test]
fn decoding_goes_on_where_the_prefill_ended() {
    // One layer with linear attention: its only memory here is the convolution.
    let m = model(1);
    let ids = [1u32, 5, 0, 2, 4];
    let (whole, _) = run(&m, &ids, 0, &mut caches(1));
    let mut c = caches(1);
    run(&m, &ids[..2], 0, &mut c);
    for t in 2..ids.len() {
        let (one, _) = run(&m, &ids[t..=t], t, &mut c);
        close(&one, &whole.narrow(1, t, 1).unwrap());
    }
}

#[test]
fn positions_follow_the_offsets_on_all_axes() {
    let m = model(0);
    let x = Tensor::from_vec(vec![1u32, 2, 3, 4, 5, 0], (2, 3), &Device::Cpu).unwrap();
    let pass = m.forward(&x, &[7, 100], vec![], false).unwrap();
    match pass.step {
        Step::Prepare { position_ids, hidden } => {
            let one = vec![vec![7u32, 8, 9], vec![100, 101, 102]];
            assert_eq!(
                position_ids.to_vec3::<u32>().unwrap(),
                vec![one.clone(), one.clone(), one]
            );
            assert_eq!(hidden.dims(), &[2, 3, EMBED]);
        }
        _ => panic!("a pass begins with its preparation"),
    }
}

#[test]
fn positions_are_taken_modulo_32_bits() {
    let m = model(0);
    let pass = m.forward(&tokens(&[1, 2]), &[u32::MAX as usize], vec![], false).unwrap();
    match pass.step {
        Step::Prepare { position_ids, .. } => assert_eq!(
            position_ids.to_vec3::<u32>().unwrap()[0][0],
            vec![u32::MAX, 0]
        ),
        _ => panic!("a pass begins with its preparation"),
    }
}

#[test]
fn tokens_are_embedded() {
    let m = model(0);
    let pass = m.forward(&tokens(&[4, u32::MAX, 0]), &[0], vec![], false).unwrap();
    match pass.step {
        Step::Prepare { hidden, .. } => {
            let h = hidden.to_vec3::<f32>().unwrap();
            let table = matrix(17, &[VOCAB, EMBED]).to_vec2::<f32>().unwrap();
            assert_eq!(h[0][0], table[4]);
            assert_eq!(h[0][1], vec![0.0; EMBED]);
            assert_eq!(h[0][2], table[0]);
        }
        _ => panic!("a pass begins with its preparation"),
    }
}

#[test]
fn unknown_tokens_are_refused() {
    let m = model(0);
    let r = m.forward(&tokens(&[VOCAB as u32]), &[0], vec![], false);
    assert!(matches!(r, Err(ModelError::Tensor(_))));
}

#[test]
fn tokens_come_in_rows() {
    let m = model(0);
    let x = Tensor::new(&[1u32, 2], &Device::Cpu).unwrap();
    let r = m.forward(&x, &[0], vec![], false);
    let e = r.err().unwrap();
    assert!(matches!(e, ModelError::Rank));
    assert_eq!(e.message(), "A tensor has an unexpected number of dimensions.");
}

#[test]
fn paged_attention_is_refused() {
    let m = model(0);
    let r = m.forward(&tokens(&[1]), &[0], vec![], true);
    let e = r.err().unwrap();
    assert!(matches!(e, ModelError::PagedAttention));
    assert_eq!(e.message(), "Qwen3.5 GGUF does not support PagedAttention yet.");
}

#[test]
fn the_wanted_tokens_are_carried_along() {
    let m = model(1);
    let mut c = caches(1);
    let mut pass = m.forward(&tokens(&[1, 2]), &[0], vec![(1, 1)], false).unwrap();
    while !matches!(pass.step, Step::Done { .. }) {
        assert_eq!(pass.context_lens, vec![(1, 1)]);
        let reply = answer(&pass.step, &m, &mut c);
        pass = m.advance(pass, reply).unwrap();
    }
    assert_eq!(pass.context_lens, vec![(1, 1)]);
}

/// The pass of a model at the first step that opens the cache of `layer`.
fn opening(m: &ModelWeights, layer: usize, caches: &mut Caches) -> Pass {
    let mut pass = m.forward(&tokens(&[1, 2]), &[0], vec![], false).unwrap();
    loop {
        if let Step::OpenCache { layer: l, .. } = &pass.step {
            if *l == layer {
                return pass;
            }
        }
        let reply = answer(&pass.step, m, caches);
        pass = m.advance(pass, reply).unwrap();
    }
}

#[test]
fn a_cache_of_another_kind_is_refused() {
    let m = model(2);
    let mut c = caches(2);
    let state = copy(&c.states[0]);
    for (layer, slot) in [
        (0, Slot::Attention),
        (0, Slot::Missing),
        (1, Slot::Missing),
        (1, Slot::Recurrent(state)),
    ] {
        let pass = opening(&m, layer, &mut c);
        let e = m.advance(pass, Reply::Opened(slot)).err().unwrap();
        assert!(matches!(e, PassError::LayerCacheMismatch(l) if l == layer));
        assert_eq!(
            e.message(),
            format!("Qwen3.5 GGUF layer/cache type mismatch at layer {layer}")
        );
    }
}

#[test]
fn a_planned_cache_is_accepted() {
    let m = model(2);
    let mut c = caches(2);
    let pass = opening(&m, 0, &mut c);
    let slot = Slot::Recurrent(copy(&c.states[0]));
    assert!(matches!(
        m.advance(pass, Reply::Opened(slot)).unwrap().step,
        Step::Activate { layer: 0, .. }
    ));
    let pass = opening(&m, 1, &mut c);
    assert!(matches!(
        m.advance(pass, Reply::Opened(Slot::Attention)).unwrap().step,
        Step::Rotate { layer: 1, .. }
    ));
}

#[test]
fn a_state_that_is_too_short_is_refused() {
    let m = model(1);
    let mut c = caches(1);
    let short = |offset: usize| GdnLayerCache {
        conv_state: Tensor::zeros((1, 8, 1), DType::F32, &Device::Cpu).unwrap(),
        recurrent_state: Tensor::zeros((1, 2, 2, 2), DType::F32, &Device::Cpu).unwrap(),
        seqlen_offset: offset,
    };
    let at_cache = |ids: &[u32], c: &mut Caches| {
        let mut pass = m.forward(&tokens(ids), &[0], vec![], false).unwrap();
        while !matches!(pass.step, Step::OpenCache { .. }) {
            let reply = answer(&pass.step, &m, c);
            pass = m.advance(pass, reply).unwrap();
        }
        pass
    };
    let pass = at_cache(&[1], &mut c);
    let e = m.advance(pass, Reply::Opened(Slot::Recurrent(short(1)))).err().unwrap();
    assert!(matches!(e, PassError::Failed(ModelError::ShortConvState)));
    assert_eq!(e.message(), "The convolution state is shorter than the kernel.");
    // From the start, and with several tokens, its length does not matter.
    for (ids, offset) in [(vec![1u32], 0), (vec![1, 2], 0), (vec![1, 2], 5)] {
        let pass = at_cache(&ids, &mut c);
        let pass = m.advance(pass, Reply::Opened(Slot::Recurrent(short(offset)))).unwrap();
        match pass.step {
            Step::Activate { cache, .. } => assert_eq!(cache.conv_state.dims(), &[1, 8, 3]),
            _ => panic!("the recurrence's inputs are to be activated"),
        }
    }
}

#[test]
fn each_sequence_needs_an_offset() {
    let m = model(0);
    let x = Tensor::from_vec(vec![1u32, 2, 3, 4], (2, 2), &Device::Cpu).unwrap();
    for offsets in [vec![], vec![0], vec![0, 0, 0]] {
        let e = m.forward(&x, &offsets, vec![], false).err().unwrap();
        assert!(matches!(e, ModelError::Offsets));
        assert_eq!(e.message(), "There is not one offset for each sequence.");
    }
    assert!(m.forward(&x, &[3, 4], vec![], false).is_ok());
}

#[test]
fn no_tokens_have_no_embeddings() {
    let m = model(0);
    let x = Tensor::zeros((1, 0), DType::U32, &Device::Cpu).unwrap();
    match m.forward(&x, &[], vec![], false).unwrap().step {
        Step::Prepare { hidden, position_ids } => {
            assert_eq!(hidden.dims(), &[1, 0, EMBED]);
            assert_eq!(position_ids.dims(), &[3, 1, 0]);
        }
        _ => panic!("a pass begins with its preparation"),
    }
    let x = Tensor::zeros((1, 0), DType::F32, &Device::Cpu).unwrap();
    assert!(matches!(m.forward(&x, &[], vec![], false), Err(ModelError::Shapes)));
}

/// A model without layers, with this embedding table.
fn bare(table: &[usize], width: usize) -> ModelWeights {
    let mut p = props(0);
    p.embedding_length = width;
    let plan = LoadPlan::new(p);
    let output = q(18, &[VOCAB, EMBED]);
    ModelWeights::from_gguf(&plan, &q(17, table), output, vec![], Dtype::F32).unwrap()
}

fn embeddings(m: &ModelWeights, x: &Tensor) -> Result<Tensor, ModelError> {
    match m.forward(x, &[0], vec![], false)?.step {
        Step::Prepare { hidden, .. } => Ok(hidden),
        _ => panic!("a pass begins with its preparation"),
    }
}

#[test]
fn a_table_without_rows_knows_no_tokens() {
    let m = bare(&[0, EMBED], EMBED);
    assert!(matches!(embeddings(&m, &tokens(&[1])), Err(ModelError::Tensor(_))));
    let none = embeddings(&m, &tokens(&[u32::MAX])).unwrap();
    assert_eq!(none.to_vec3::<f32>().unwrap(), vec![vec![vec![0.0; EMBED]]]);
}

#[test]
fn embeddings_may_have_no_numbers() {
    let m = bare(&[VOCAB, 0], 0);
    assert_eq!(embeddings(&m, &tokens(&[1, 2])).unwrap().dims(), &[1, 2, 0]);
    assert!(matches!(embeddings(&m, &tokens(&[VOCAB as u32])), Err(ModelError::Tensor(_))));
}

#[test]
fn rows_of_the_table_have_the_width_of_an_embedding() {
    let m = bare(&[VOCAB, EMBED + 1], EMBED);
    assert!(matches!(embeddings(&m, &tokens(&[1])), Err(ModelError::Shapes)));
    let m = bare(&[VOCAB, 2, 2], EMBED);
    let h = embeddings(&m, &tokens(&[3])).unwrap();
    let want = matrix(17, &[VOCAB, EMBED]).to_vec2::<f32>().unwrap();
    assert_eq!(h.to_vec3::<f32>().unwrap()[0][0], want[3]);
}

#[test]
fn tokens_come_in_three_types() {
    let m = model(0);
    let table = matrix(17, &[VOCAB, EMBED]).to_vec2::<f32>().unwrap();
    let row = |x: Tensor| embeddings(&m, &x).map(|h| h.to_vec3::<f32>().unwrap()[0].clone());
    let bytes = Tensor::from_vec(vec![2u8, u8::MAX], (1, 2), &Device::Cpu).unwrap();
    assert_eq!(row(bytes).unwrap(), vec![table[2].clone(), vec![0.0; EMBED]]);
    let long = Tensor::from_vec(vec![5i64, i64::MAX], (1, 2), &Device::Cpu).unwrap();
    assert_eq!(row(long).unwrap(), vec![table[5].clone(), vec![0.0; EMBED]]);
    let negative = Tensor::from_vec(vec![-1i64], (1, 1), &Device::Cpu).unwrap();
    assert!(row(negative).is_err());
    let far = Tensor::from_vec(vec![u32::MAX as i64], (1, 1), &Device::Cpu).unwrap();
    assert!(row(far).is_err());
    let fractions = Tensor::from_vec(vec![1.0f32], (1, 1), &Device::Cpu).unwrap();
    assert!(row(fractions).is_err());
    // The logits do not depend on the type.
    let m = model(2);
    let want = run(&m, &[1, 5, 0], 0, &mut caches(2)).0;
    let long = tokens(&[1, 5, 0]).to_dtype(DType::I64).unwrap();
    let mut c = caches(2);
    let mut pass = m.forward(&long, &[0], vec![], false).unwrap();
    while !matches!(pass.step, Step::Done { .. }) {
        let reply = answer(&pass.step, &m, &mut c);
        pass = m.advance(pass, reply).unwrap();
    }
    let Step::Done { logits } = pass.step else { panic!("the pass is done") };
    close(&logits, &want);
}

#[test]
fn caches_may_be_kept_in_half_precision() {
    let m = model(2);
    let ids = [1u32, 5, 0, 2];
    let (want, _) = run(&m, &ids, 0, &mut caches(2));
    for dtype in [DType::F16, DType::BF16] {
        let mut c = caches(2);
        for s in &mut c.states {
            s.conv_state = s.conv_state.to_dtype(dtype).unwrap();
            s.recurrent_state = s.recurrent_state.to_dtype(dtype).unwrap();
        }
        let mut pass = m.forward(&tokens(&ids), &[0], vec![], false).unwrap();
        while !matches!(pass.step, Step::Done { .. }) {
            let reply = match &pass.step {
                Step::Recur { q, k, v, g, beta, cache, .. } => {
                    assert_eq!(v.dtype(), dtype);
                    assert_eq!(g.dtype(), dtype);
                    let beta = beta.to_dtype(dtype).unwrap();
                    Reply::Recurred {
                        y: recur(q, k, v, g, &beta),
                        state: (&cache.recurrent_state + 1.0).unwrap(),
                    }
                }
                step => answer(step, &m, &mut c),
            };
            pass = m.advance(pass, reply).unwrap();
        }
        assert_eq!(c.states[0].conv_state.dtype(), dtype);
        assert_eq!(c.states[0].recurrent_state.dtype(), dtype);
        assert_eq!(c.states[0].seqlen_offset, 4);
        let Step::Done { logits } = pass.step else { panic!("the pass is done") };
        let got = logits.flatten_all().unwrap().to_vec1::<f32>().unwrap();
        let want = want.flatten_all().unwrap().to_vec1::<f32>().unwrap();
        for (x, y) in got.iter().zip(want) {
            assert!((x - y).abs() < 0.2 * (1.0 + y.abs()), "{x} is far from {y}");
        }
    }
}

#[test]
fn appended_values_are_those_of_the_tokens() {
    let m = model(4);
    let mut c = caches(4);
    for (ids, offset) in [(vec![1u32, 2, 3], 0), (vec![4], 3)] {
        let mut pass = m.forward(&tokens(&ids), &[offset], vec![], false).unwrap();
        let mut seen = 0;
        while !matches!(pass.step, Step::Done { .. }) {
            if let Step::Append { v, .. } = &pass.step {
                assert_eq!(v.dims(), &[1, 1, ids.len(), 2]);
                seen += 1;
            }
            let reply = answer(&pass.step, &m, &mut c);
            pass = m.advance(pass, reply).unwrap();
        }
        assert_eq!(seen, 2);
    }
}

#[test]
fn several_sequences_run_apart() {
    let layers = 2;
    let m = model(layers);
    let ids = [[1u32, 5, 0], [4, 2, 3]];
    let mut c = caches(layers);
    for s in &mut c.states {
        s.conv_state = Tensor::zeros((2, 8, 3), DType::F32, &Device::Cpu).unwrap();
        s.recurrent_state = Tensor::zeros((2, 2, 2, 2), DType::F32, &Device::Cpu).unwrap();
    }
    let x = Tensor::from_vec(ids.concat(), (2, 3), &Device::Cpu).unwrap();
    let mut pass = m.forward(&x, &[0, 0], vec![], false).unwrap();
    while !matches!(pass.step, Step::Done { .. }) {
        let reply = answer(&pass.step, &m, &mut c);
        pass = m.advance(pass, reply).unwrap();
    }
    let Step::Done { logits } = pass.step else { panic!("the pass is done") };
    for (b, row) in ids.iter().enumerate() {
        let (one, _) = run(&m, row, 0, &mut caches(layers));
        close(&logits.narrow(0, b, 1).unwrap(), &one);
    }
    assert_eq!(c.states[0].seqlen_offset, 3);
}

#[test]
fn too_many_tokens_are_refused() {
    let m = model(1);
    let mut c = caches(1);
    c.states[0].seqlen_offset = usize::MAX - 1;
    let mut pass = m.forward(&tokens(&[1, 2]), &[0], vec![], false).unwrap();
    loop {
        let last = matches!(pass.step, Step::Recur { .. });
        let reply = answer(&pass.step, &m, &mut c);
        match m.advance(pass, reply) {
            Ok(p) => {
                assert!(!last);
                pass = p;
            }
            Err(e) => {
                assert!(last);
                assert!(matches!(e, PassError::Failed(ModelError::TooLarge)));
                return;
            }
        }
    }
}

#[test]
fn a_reply_to_something_else_is_refused() {
    let m = model(1);
    let pass = m.forward(&tokens(&[1]), &[0], vec![], false).unwrap();
    let e = m.advance(pass, Reply::Stored).err().unwrap();
    assert!(matches!(e, PassError::UnexpectedReply));
    assert_eq!(e.message(), "The reply does not answer the request.");
}

#[test]
fn a_normed_tensor_of_another_rank_is_refused() {
    let m = model(0);
    let pass = m.forward(&tokens(&[1]), &[0], vec![], false).unwrap();
    let pass = m.advance(pass, Reply::Ready).unwrap();
    let flat = matrix(1, &[EMBED]);
    let pass = m.advance(pass, Reply::Normed(flat.clone())).unwrap();
    let e = m.advance(pass, Reply::Logits(flat)).err().unwrap();
    assert!(matches!(e, PassError::Failed(ModelError::Rank)));
}

#[test]
fn extracted_tokens_are_packed_before_they_are_mapped() {
    let mut p = props(0);
    p.embedding_length = 32;
    let w = matrix(3, &[2, 32]);
    let coarse = QTensor::quantize(&w, GgmlDType::Q8_0).unwrap();
    let plan = LoadPlan::new(p);
    let m = ModelWeights::from_gguf(&plan, &q(4, &[5, 32]), coarse, vec![], Dtype::F32).unwrap();
    let pass = m.forward(&tokens(&[1, 2]), &[0], vec![], false).unwrap();
    let pass = m.advance(pass, Reply::Ready).unwrap();
    let x = matrix(5, &[1, 32, 2]).transpose(1, 2).unwrap();
    assert!(!x.is_contiguous());
    let pass = m.advance(pass, Reply::Normed(x.clone())).unwrap();
    match m.advance(pass, Reply::Logits(x.clone())).unwrap().step {
        Step::Done { logits } => {
            let got = logits.flatten_all().unwrap().to_vec1::<f32>().unwrap();
            let want = times(&x.contiguous().unwrap(), &w);
            let want = want.flatten_all().unwrap().to_vec1::<f32>().unwrap();
            for (g, w) in got.iter().zip(want) {
                assert!((g - w).abs() < 0.1, "{g} is far from {w}");
            }
        }
        _ => panic!("the pass is done"),
    }
}

#[test]
fn a_residual_is_added_in_its_own_type() {
    let x = matrix(1, &[2, 3]);
    let r = matrix(2, &[2, 3]).to_dtype(DType::F64).unwrap();
    let o = add_residual(&x, &r).unwrap();
    assert_eq!(o.dtype(), DType::F64);
    let want = (x.to_dtype(DType::F64).unwrap() + r).unwrap();
    assert_eq!(o.to_vec2::<f64>().unwrap(), want.to_vec2::<f64>().unwrap());
    assert!(add_residual(&x, &matrix(1, &[3, 2])).is_err());
}
