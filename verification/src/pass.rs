//! A forward pass as a sequence of steps.
//!
//! What a pass needs from outside (normalisation, rotary embedding, attention, the recurrence, the
//! caches) it asks for: each [`Step`] says what is asked, and holds the tensors that it is asked of;
//! [`ModelWeights::advance`] takes the [`Reply`] and gives the next step.
use vstd::prelude::*;
use vstd::arithmetic::div_mod::lemma_fundamental_div_mod_converse;
use candle_core::Tensor;
use crate::attention::{
    gateable, gated, lemma_gated_rows, lemma_gated_tokens, lemma_projected_at, AttnHeads, FullAttention,
};
use crate::candle;
use crate::candle::{
    added, converted, embedded, embedding_table, is, over, packed, plus, root, rounded, row_mean, row_sum,
    shifted, sigmoid_of, silu_of, squared, tensor_view, times, token_type, tokens_known,
};
use crate::coords::{
    lemma_at1, lemma_at2, lemma_at3, lemma_in_range2, lemma_zipped_elems, lemma_zipped_same, rounded_elem,
};
use crate::error::{ModelError, PassError};
use crate::gating::{law_decay, per_head};
use crate::linear::lemma_mapped3;
use crate::linear_attention::{
    lemma_forwarded_at, lemma_layer_takes, lemma_single_rows, GdnInputs, GdnLayerCache, LinearAttention,
};
use crate::mlp::lemma_fed;
use crate::model::{LayerImpl, ModelWeights};
use crate::ops;
use crate::ops::{addressable, broadcasts, sigmoids, within_limit};
use crate::plan::{cache_type, layer_type, HybridLayerType, LoadPlan};
use crate::positions::{law_positions, position_ids, positions_view, token_position, AXES};
use crate::shape::{extent, lemma_position2, lemma_position_bounds, product, shape, MAX_ELEMENTS};
use crate::view::{Dtype, TensorView};

verus! {

/// What a pass waits for. The layer's input is `hidden` throughout, until what the layer computes is
/// added to it.
pub enum Step {
    /// The cosines and sines of the positions, and the mask, are to be prepared.
    Prepare { hidden: Tensor, position_ids: Tensor },
    /// `hidden` is to be brought to the device of the layer.
    Place { layer: usize, hidden: Tensor },
    /// `hidden` is to be normalised by the layer's first norm.
    AttnNorm { layer: usize, hidden: Tensor },
    /// The layer's cache is to be opened.
    OpenCache { layer: usize, hidden: Tensor, normed: Tensor },
    /// The queries and keys of `heads` are to be normalised and rotated.
    Rotate { layer: usize, hidden: Tensor, heads: AttnHeads, dtype: Dtype },
    /// `k` and `v` are to be appended to the layer's cache.
    Append {
        layer: usize,
        hidden: Tensor,
        q: Tensor,
        k: Tensor,
        v: Tensor,
        gate: Tensor,
        dtype: Dtype,
    },
    /// The attention of `q` to `k` and `v` is to be computed.
    Attend {
        layer: usize,
        hidden: Tensor,
        q: Tensor,
        k: Tensor,
        v: Tensor,
        gate: Tensor,
        dtype: Dtype,
    },
    /// The softplus of `inputs.biased` is to be taken, and the queries and keys of `inputs.heads`
    /// are to be normalised.
    Activate {
        layer: usize,
        hidden: Tensor,
        inputs: GdnInputs,
        cache: GdnLayerCache,
        conv_dtype: Dtype,
        recurrent_dtype: Dtype,
    },
    /// The recurrence is to be run from `cache.recurrent_state`.
    Recur {
        layer: usize,
        hidden: Tensor,
        q: Tensor,
        k: Tensor,
        v: Tensor,
        g: Tensor,
        beta: Tensor,
        z: Tensor,
        cache: GdnLayerCache,
        conv_dtype: Dtype,
        recurrent_dtype: Dtype,
    },
    /// `cache` is to be stored as the layer's cache.
    Store { layer: usize, hidden: Tensor, attn: Tensor, cache: GdnLayerCache },
    /// `hidden` is to be normalised by the layer's second norm.
    FfnNorm { layer: usize, hidden: Tensor },
    /// `hidden` is to be normalised by the last norm.
    OutputNorm { hidden: Tensor },
    /// The tokens of which logits are wanted are to be extracted.
    ExtractLogits { hidden: Tensor },
    /// The logits.
    Done { logits: Tensor },
}

/// What is found where a layer's cache should be.
pub enum Slot {
    Missing,
    Attention,
    Recurrent(GdnLayerCache),
}

/// What comes back.
pub enum Reply {
    Ready,
    Placed(Tensor),
    Normed(Tensor),
    Opened(Slot),
    Rotated { q: Tensor, k: Tensor },
    Appended { k: Tensor, v: Tensor },
    Attended { y: Tensor, custom_mask: bool },
    Activated { q: Tensor, k: Tensor, softplus: Tensor },
    Recurred { y: Tensor, state: Tensor },
    Stored,
    Logits(Tensor),
}

/// A forward pass under way.
pub struct Pass {
    pub step: Step,
    /// For each sequence, the tokens of which logits are wanted.
    pub context_lens: Vec<(usize, usize)>,
}

impl Reply {
    /// All tensors are of a size that fits in memory.
    pub open spec fn fits(self) -> bool {
        match self {
            Reply::Ready => true,
            Reply::Placed(t) => tensor_view(t).fits(),
            Reply::Normed(t) => tensor_view(t).fits(),
            Reply::Opened(Slot::Recurrent(c)) => c.wf(),
            Reply::Opened(_) => true,
            Reply::Rotated { q, k } => tensor_view(q).fits() && tensor_view(k).fits(),
            Reply::Appended { k, v } => tensor_view(k).fits() && tensor_view(v).fits(),
            Reply::Attended { y, .. } => tensor_view(y).fits(),
            Reply::Activated { q, k, softplus } => tensor_view(q).fits() && tensor_view(k).fits()
                && tensor_view(softplus).fits(),
            Reply::Recurred { y, state } => tensor_view(y).fits() && tensor_view(state).fits(),
            Reply::Stored => true,
            Reply::Logits(t) => tensor_view(t).fits(),
        }
    }

    /// Whether all tensors are of a size that fits in memory.
    fn is_addressable(&self) -> (r: bool)
        ensures
            r == self.fits(),
    {
        match self {
            Reply::Ready => true,
            Reply::Placed(t) => addressable(t),
            Reply::Normed(t) => addressable(t),
            Reply::Opened(slot) => match slot {
                Slot::Recurrent(c) => addressable(&c.conv_state) && addressable(
                    &c.recurrent_state,
                ),
                _ => true,
            },
            Reply::Rotated { q, k } => addressable(q) && addressable(k),
            Reply::Appended { k, v } => addressable(k) && addressable(v),
            Reply::Attended { y, custom_mask: _ } => addressable(y),
            Reply::Activated { q, k, softplus } => addressable(q) && addressable(k) && addressable(
                softplus,
            ),
            Reply::Recurred { y, state } => addressable(y) && addressable(state),
            Reply::Stored => true,
            Reply::Logits(t) => addressable(t),
        }
    }
}

impl Step {
    /// The tensors fit in memory, and the step belongs to a layer of its kind.
    pub open spec fn wf(self, m: ModelWeights) -> bool {
        match self {
            Step::Prepare { hidden, .. } => tensor_view(hidden).fits(),
            Step::Place { layer, hidden } => layer < m.layers.len() && tensor_view(hidden).fits(),
            Step::AttnNorm { layer, hidden } => layer < m.layers.len() && tensor_view(
                hidden,
            ).fits(),
            Step::OpenCache { layer, hidden, normed } => layer < m.layers.len() && tensor_view(
                hidden,
            ).fits() && tensor_view(normed).fits(),
            Step::Rotate { layer, hidden, heads, .. } => {
                &&& layer < m.layers.len()
                &&& m.layers[layer as int].layer is Full
                &&& tensor_view(hidden).fits()
                &&& heads.fits()
                &&& tensor_view(heads.gate).dims.len() == 3
            },
            Step::Append { layer, hidden, q, gate, .. } => {
                &&& layer < m.layers.len()
                &&& m.layers[layer as int].layer is Full
                &&& tensor_view(hidden).fits()
                &&& tensor_view(q).fits()
                &&& tensor_view(gate).fits()
                &&& tensor_view(gate).dims.len() == 3
            },
            Step::Attend { layer, hidden, gate, .. } => {
                &&& layer < m.layers.len()
                &&& m.layers[layer as int].layer is Full
                &&& tensor_view(hidden).fits()
                &&& tensor_view(gate).fits()
                &&& tensor_view(gate).dims.len() == 3
            },
            Step::Activate { layer, hidden, inputs, cache, .. } => {
                &&& layer < m.layers.len()
                &&& m.layers[layer as int].layer is Linear
                &&& tensor_view(hidden).fits()
                &&& inputs.fits()
                &&& tensor_view(inputs.z).dims.len() == 4
                &&& cache.wf()
            },
            Step::Recur { layer, hidden, z, cache, .. } => {
                &&& layer < m.layers.len()
                &&& m.layers[layer as int].layer is Linear
                &&& tensor_view(hidden).fits()
                &&& tensor_view(z).fits()
                &&& tensor_view(z).dims.len() == 4
                &&& cache.wf()
            },
            Step::Store { layer, hidden, attn, .. } => {
                &&& layer < m.layers.len()
                &&& m.layers[layer as int].layer is Linear
                &&& tensor_view(hidden).fits()
                &&& tensor_view(attn).fits()
            },
            Step::FfnNorm { layer, hidden } => layer < m.layers.len() && tensor_view(hidden).fits(),
            Step::OutputNorm { hidden } => tensor_view(hidden).fits(),
            Step::ExtractLogits { hidden } => tensor_view(hidden).fits(),
            Step::Done { .. } => true,
        }
    }

    /// The stream of numbers that goes through the layers; at the end, the logits.
    pub open spec fn stream(self) -> Tensor {
        match self {
            Step::Prepare { hidden, .. } => hidden,
            Step::Place { hidden, .. } => hidden,
            Step::AttnNorm { hidden, .. } => hidden,
            Step::OpenCache { hidden, .. } => hidden,
            Step::Rotate { hidden, .. } => hidden,
            Step::Append { hidden, .. } => hidden,
            Step::Attend { hidden, .. } => hidden,
            Step::Activate { hidden, .. } => hidden,
            Step::Recur { hidden, .. } => hidden,
            Step::Store { hidden, .. } => hidden,
            Step::FfnNorm { hidden, .. } => hidden,
            Step::OutputNorm { hidden } => hidden,
            Step::ExtractLogits { hidden } => hidden,
            Step::Done { logits } => logits,
        }
    }

    /// How many replies are still to come, in a model of `layers` layers.
    pub open spec fn replies_left(self, layers: int) -> int {
        match self {
            Step::Prepare { .. } => 7 * layers + 3,
            Step::Place { layer, .. } => 7 * (layers - layer) + 2,
            Step::AttnNorm { layer, .. } => 7 * (layers - layer) + 1,
            Step::OpenCache { layer, .. } => 7 * (layers - layer),
            Step::Rotate { layer, .. } => 7 * (layers - layer) - 1,
            Step::Activate { layer, .. } => 7 * (layers - layer) - 1,
            Step::Append { layer, .. } => 7 * (layers - layer) - 2,
            Step::Recur { layer, .. } => 7 * (layers - layer) - 2,
            Step::Attend { layer, .. } => 7 * (layers - layer) - 3,
            Step::Store { layer, .. } => 7 * (layers - layer) - 3,
            Step::FfnNorm { layer, .. } => 7 * (layers - layer) - 4,
            Step::OutputNorm { .. } => 2,
            Step::ExtractLogits { .. } => 1,
            Step::Done { .. } => 0,
        }
    }
}

/// `x` has the shape and the type of `y`, and fits in memory.
pub open spec fn same_form(x: Tensor, y: Tensor) -> bool {
    &&& tensor_view(x).fits()
    &&& tensor_view(x).dims == tensor_view(y).dims
    &&& tensor_view(x).dtype == tensor_view(y).dtype
}

/// What a layer computed, added to what went in.
pub open spec fn with_residual(x: TensorView, residual: TensorView) -> TensorView {
    added(converted(x, residual.dtype), residual)
}

/// `x` in the type of `residual`, plus `residual`.
pub fn add_residual(x: &Tensor, residual: &Tensor) -> (r: Result<Tensor, ModelError>)
    requires
        tensor_view(*x).fits(),
        tensor_view(*residual).fits(),
    ensures
        match r {
            Ok(o) => {
                &&& tensor_view(*x).dims == tensor_view(*residual).dims
                &&& is(o, with_residual(tensor_view(*x), tensor_view(*residual)))
                &&& tensor_view(o).dims == tensor_view(*residual).dims
                &&& tensor_view(o).dtype == tensor_view(*residual).dtype
            },
            Err(_) => !(tensor_view(*x).dims == tensor_view(*residual).dims && tensor_view(
                *x,
            ).dtype.floating() && tensor_view(*residual).dtype.floating()),
        },
{
    let cast = ops::to_dtype(x, candle::dtype(residual))?;
    proof {
        let c = tensor_view(cast);
        if c.dims == tensor_view(*residual).dims {
            lemma_zipped_same(
                c,
                tensor_view(*residual),
                |a: int, b: int| plus(c.device, c.dtype, a, b),
            );
        }
    }
    ops::plus_same(&cast, residual)
}

impl ModelWeights {
    /// The step with which the layer numbered `layer` begins, or the pass ends.
    pub open spec fn entry(self, layer: int, hidden: Tensor) -> Step {
        if layer < self.layers.len() {
            Step::Place { layer: layer as usize, hidden }
        } else {
            Step::OutputNorm { hidden }
        }
    }

    /// The tokens can be embedded: they have one of their types, the rows of the table have the width of
    /// an embedding, and every token names one of them, or none.
    pub open spec fn embeddable(self, x: TensorView) -> bool {
        let table = embedding_table(self.tok_embeddings);
        &&& token_type(x.dtype)
        &&& table.dims.len() > 0
        &&& x.elems.len() > 0 ==> product(table.dims.drop_first()) == self.embedding_length
        &&& tokens_known(x, table.dims[0])
    }

    /// The tokens' embeddings.
    fn embed(&self, x: &Tensor) -> (r: Result<Tensor, ModelError>)
        requires
            self.sound(),
            tensor_view(*x).fits(),
        ensures
            match r {
                Ok(o) => self.embeddable(tensor_view(*x)) && is(
                    o,
                    embedded(
                        embedding_table(self.tok_embeddings),
                        self.embedding_length as nat,
                        tensor_view(*x),
                    ),
                ),
                Err(e) => !(self.embeddable(tensor_view(*x)) && extent(
                    tensor_view(*x).dims.push(self.embedding_length as nat),
                ) <= MAX_ELEMENTS) && !(e is PagedAttention) && !(e is Offsets),
            },
    {
        let ghost v = tensor_view(*x);
        let mut wide = candle::dims(x);
        wide.push(self.embedding_length);
        proof {
            assert(shape(wide@) =~= v.dims.push(self.embedding_length as nat));
        }
        if !within_limit(&wide) {
            return Err(ModelError::TooLarge);
        }
        let table = candle::table(&self.tok_embeddings);
        let rows = candle::dims(table);
        if rows.len() == 0 {
            return Err(ModelError::Rank);
        }
        if ops::count(x) == 0 {
            if !matches!(candle::dtype(x), Dtype::U8 | Dtype::U32 | Dtype::I64) {
                return Err(ModelError::Shapes);
            }
            proof {
                let whole = v.dims.push(self.embedding_length as nat);
                assert(whole.drop_last() =~= v.dims);
                assert(product(whole) == 0) by (nonlinear_arith)
                    requires
                        product(whole) == product(v.dims) * (self.embedding_length as nat),
                        product(v.dims) == 0,
                ;
            }
            let o = ops::zeros(wide, table)?;
            proof {
                let e = embedded(
                    embedding_table(self.tok_embeddings),
                    self.embedding_length as nat,
                    v,
                );
                assert(e.elems.len() == 0) by (nonlinear_arith)
                    requires
                        e.elems.len() == v.elems.len() * (self.embedding_length as nat),
                        v.elems.len() == 0,
                ;
                assert(tensor_view(o) =~= e);
            }
            return Ok(o);
        }
        if ops::slice_size(table) != self.embedding_length {
            return Err(ModelError::Shapes);
        }
        match candle::apply_embedding(&self.tok_embeddings, x) {
            Ok(t) => Ok(t),
            Err(e) => Err(ModelError::Tensor(e)),
        }
    }

    /// Begins a forward pass over the tokens `x`, of which `start_offsets` says how many came before
    /// in each sequence. Paged attention, which `paged` asks for, is not supported.
    pub fn forward(
        &self,
        x: &Tensor,
        start_offsets: &[usize],
        context_lens: Vec<(usize, usize)>,
        paged: bool,
    ) -> (r: Result<Pass, ModelError>)
        requires
            self.sound(),
            !paged ==> tensor_view(*x).fits(),
            !paged && tensor_view(*x).dims.len() == 2 ==> forall|i: int|
                0 <= i < start_offsets.len() ==> #[trigger] start_offsets[i] + tensor_view(
                    *x,
                ).dims[1] <= usize::MAX,
        ensures
            match r {
                Ok(p) => {
                    let v = tensor_view(*x);
                    &&& !paged
                    &&& v.dims.len() == 2
                    &&& v.dims[1] > 0 ==> start_offsets.len() == v.dims[0]
                    &&& p.context_lens == context_lens
                    &&& p.step.wf(*self)
                    &&& match p.step {
                        Step::Prepare { hidden, position_ids } => {
                            &&& self.embeddable(v)
                            &&& is(
                                hidden,
                                embedded(
                                    embedding_table(self.tok_embeddings),
                                    self.embedding_length as nat,
                                    v,
                                ),
                            )
                            &&& is(
                                position_ids,
                                positions_view(start_offsets@, v.dims[0], v.dims[1], v.device),
                            )
                        },
                        _ => false,
                    }
                },
                Err(ModelError::PagedAttention) => paged,
                Err(ModelError::Offsets) => {
                    let v = tensor_view(*x);
                    &&& !paged
                    &&& v.dims.len() == 2
                    &&& v.dims[1] > 0
                    &&& start_offsets.len() != v.dims[0]
                },
                Err(_) => {
                    let v = tensor_view(*x);
                    &&& !paged
                    &&& !(self.embeddable(v) && v.dims.len() == 2 && extent(
                        v.dims.push(self.embedding_length as nat),
                    ) <= MAX_ELEMENTS && extent(seq![AXES as nat, v.dims[0], v.dims[1]])
                        <= MAX_ELEMENTS)
                },
            },
    {
        let ghost v = tensor_view(*x);
        if paged {
            return Err(ModelError::PagedAttention);
        }
        let d = candle::dims(x);
        let hidden = self.embed(x)?;
        candle::synchronize(&hidden);
        if d.len() != 2 {
            return Err(ModelError::Rank);
        }
        proof {
            assert(v.dims =~= seq![d[0] as nat, d[1] as nat]);
        }
        let position_ids = position_ids(start_offsets, d[0], d[1], x)?;
        Ok(Pass { step: Step::Prepare { hidden, position_ids }, context_lens })
    }
}

/// What follows when the cache of a layer with full attention has been opened: its heads are to be
/// rotated.
pub open spec fn opens_full(
    a: FullAttention,
    layer: usize,
    hidden: Tensor,
    normed: Tensor,
    r: Result<Step, ModelError>,
) -> bool {
    match r {
        Ok(Step::Rotate { layer: l, hidden: h, heads, dtype }) => {
            let x = tensor_view(normed);
            &&& l == layer
            &&& h == hidden
            &&& dtype == x.dtype
            &&& a.maps_ready(normed)
            &&& a.projects(x, heads)
        },
        Ok(_) => false,
        Err(_) => !a.projectable(normed),
    }
}

fn open_full(a: &FullAttention, layer: usize, hidden: Tensor, normed: Tensor) -> (r: Result<
    Step,
    ModelError,
>)
    requires
        a.wf(),
        tensor_view(hidden).fits(),
        tensor_view(normed).fits(),
    ensures
        opens_full(*a, layer, hidden, normed, r),
        match r {
            Ok(Step::Rotate { heads, .. }) => heads.fits() && tensor_view(heads.gate).dims.len()
                == 3,
            _ => true,
        },
{
    let dtype = candle::dtype(&normed);
    let heads = a.project(&normed)?;
    Ok(Step::Rotate { layer, hidden, heads, dtype })
}

/// What follows when the cache of a layer with linear attention has been opened: what it hands to
/// the recurrence is to be activated and normalised.
pub open spec fn opens_linear(
    a: LinearAttention,
    layer: usize,
    hidden: Tensor,
    normed: Tensor,
    c: GdnLayerCache,
    r: Result<Step, ModelError>,
) -> bool {
    match r {
        Ok(
            Step::Activate { layer: l, hidden: h, inputs, cache, conv_dtype, recurrent_dtype },
        ) => {
            &&& l == layer
            &&& h == hidden
            &&& c.opens(a, tensor_view(normed))
            &&& a.maps_ready(normed)
            &&& a.forwarded(tensor_view(normed), c, cache, inputs)
            &&& cache.recurrent_state == c.recurrent_state
            &&& cache.seqlen_offset == c.seqlen_offset
            &&& conv_dtype == tensor_view(c.conv_state).dtype
            &&& recurrent_dtype == tensor_view(c.recurrent_state).dtype
        },
        Ok(_) => false,
        Err(e) => {
            &&& !(a.forwardable(normed, c) && c.opens(a, tensor_view(normed)))
            &&& !c.opens(a, tensor_view(normed)) ==> e is ShortConvState
        },
    }
}

impl GdnLayerCache {
    /// If `x` goes on from the convolution state, that reaches back far enough.
    pub open spec fn opens(self, a: LinearAttention, x: TensorView) -> bool {
        x.dims.len() == 3 && self.continues(x.dims[1]) ==> self.reaches(a.conv_kernel_size as nat)
    }
}

fn open_linear(
    a: &LinearAttention,
    layer: usize,
    hidden: Tensor,
    normed: Tensor,
    c: GdnLayerCache,
) -> (r: Result<Step, ModelError>)
    requires
        a.wf(),
        tensor_view(hidden).fits(),
        tensor_view(normed).fits(),
        c.wf(),
    ensures
        opens_linear(*a, layer, hidden, normed, c, r),
        match r {
            Ok(Step::Activate { inputs, cache, .. }) => inputs.fits() && cache.wf() && tensor_view(
                inputs.z,
            ).dims.len() == 4,
            _ => true,
        },
{
    let x = candle::dims(&normed);
    let d = candle::dims(&c.conv_state);
    if x.len() == 3 && d.len() >= 3 {
        assert(tensor_view(normed).dims[1] == x[1] as nat);
        assert(tensor_view(c.conv_state).dims[2] == d[2] as nat);
        if c.seqlen_offset > 0 && x[1] == 1 && d[2] < a.conv_kernel_size - 1 {
            return Err(ModelError::ShortConvState);
        }
    }
    let conv_dtype = candle::dtype(&c.conv_state);
    let recurrent_dtype = candle::dtype(&c.recurrent_state);
    let mut cache = c;
    let inputs = a.forward(&normed, &mut cache)?;
    Ok(Step::Activate { layer, hidden, inputs, cache, conv_dtype, recurrent_dtype })
}

/// What follows when queries and keys have been rotated: keys and values, in the type of the cache,
/// are to be appended.
pub open spec fn rotates(
    a: FullAttention,
    layer: usize,
    hidden: Tensor,
    heads: AttnHeads,
    dtype: Dtype,
    q: Tensor,
    k: Tensor,
    r: Result<Step, ModelError>,
) -> bool {
    match r {
        Ok(Step::Append { layer: l, hidden: h, q: q2, k: k2, v: v2, gate, dtype: d }) => {
            &&& l == layer
            &&& h == hidden
            &&& d == dtype
            &&& q2 == q
            &&& gate == heads.gate
            &&& is(k2, converted(tensor_view(k), a.dtype))
            &&& is(v2, converted(tensor_view(heads.v), a.dtype))
        },
        Ok(_) => false,
        Err(_) => !(tensor_view(k).dtype.floating() && tensor_view(heads.v).dtype.floating()
            && a.dtype.floating()),
    }
}

fn rotated(
    a: &FullAttention,
    layer: usize,
    hidden: Tensor,
    heads: AttnHeads,
    dtype: Dtype,
    q: Tensor,
    k: Tensor,
) -> (r: Result<Step, ModelError>)
    requires
        tensor_view(hidden).fits(),
        heads.fits(),
        tensor_view(q).fits(),
        tensor_view(k).fits(),
    ensures
        rotates(*a, layer, hidden, heads, dtype, q, k, r),
{
    let k_cast = ops::to_dtype(&k, a.dtype)?;
    let v_cast = ops::to_dtype(&heads.v, a.dtype)?;
    Ok(Step::Append { layer, hidden, q, k: k_cast, v: v_cast, gate: heads.gate, dtype })
}

/// What follows when keys and values have been appended: the attention to all of them is to be
/// computed.
pub open spec fn appends(
    a: FullAttention,
    layer: usize,
    hidden: Tensor,
    q: Tensor,
    gate: Tensor,
    dtype: Dtype,
    k: Tensor,
    v: Tensor,
    r: Result<Step, ModelError>,
) -> bool {
    match r {
        Ok(Step::Attend { layer: l, hidden: h, q: q2, k: k2, v: v2, gate: g, dtype: d }) => {
            &&& l == layer
            &&& h == hidden
            &&& d == dtype
            &&& g == gate
            &&& k2 == k
            &&& v2 == v
            &&& is(q2, converted(tensor_view(q), a.dtype))
        },
        Ok(_) => false,
        Err(_) => !(tensor_view(q).dtype.floating() && a.dtype.floating()),
    }
}

fn appended(
    a: &FullAttention,
    layer: usize,
    hidden: Tensor,
    q: Tensor,
    gate: Tensor,
    dtype: Dtype,
    k: Tensor,
    v: Tensor,
) -> (r: Result<Step, ModelError>)
    requires
        tensor_view(q).fits(),
    ensures
        appends(*a, layer, hidden, q, gate, dtype, k, v, r),
{
    let q_cast = ops::to_dtype(&q, a.dtype)?;
    Ok(Step::Attend { layer, hidden, q: q_cast, k, v, gate, dtype })
}

/// What follows when attention has been computed: its output, gated and mapped, is added to the
/// layer's input, which is to be normalised again.
pub open spec fn attends(
    a: FullAttention,
    layer: usize,
    hidden: Tensor,
    gate: Tensor,
    dtype: Dtype,
    y: Tensor,
    custom_mask: bool,
    r: Result<Step, ModelError>,
) -> bool {
    let out = a.finished(tensor_view(y), tensor_view(gate), custom_mask, dtype);
    match r {
        Ok(Step::FfnNorm { layer: l, hidden: x }) => {
            &&& l == layer
            &&& gateable(tensor_view(y), tensor_view(gate), custom_mask)
            &&& out.fits()
            &&& out.dims == tensor_view(hidden).dims
            &&& same_form(x, hidden)
            &&& is(x, with_residual(out, tensor_view(hidden)))
        },
        Ok(_) => false,
        Err(_) => !(a.finishable(tensor_view(y), tensor_view(gate), custom_mask, dtype) && out.dims
            == tensor_view(hidden).dims && tensor_view(hidden).dtype.floating()),
    }
}

fn attended(
    a: &FullAttention,
    layer: usize,
    hidden: Tensor,
    gate: Tensor,
    dtype: Dtype,
    y: Tensor,
    custom_mask: bool,
) -> (r: Result<Step, ModelError>)
    requires
        a.wf(),
        tensor_view(hidden).fits(),
        tensor_view(gate).fits(),
        tensor_view(gate).dims.len() == 3,
        tensor_view(y).fits(),
    ensures
        attends(*a, layer, hidden, gate, dtype, y, custom_mask, r),
{
    let out = a.finish(&y, &gate, custom_mask, dtype)?;
    let x = add_residual(&out, &hidden)?;
    Ok(Step::FfnNorm { layer, hidden: x })
}

/// What follows when the softplus has been taken, and queries and keys have been normalised: the
/// recurrence is to be run.
pub open spec fn activates(
    a: LinearAttention,
    layer: usize,
    hidden: Tensor,
    inputs: GdnInputs,
    cache: GdnLayerCache,
    conv_dtype: Dtype,
    recurrent_dtype: Dtype,
    q: Tensor,
    k: Tensor,
    softplus: Tensor,
    r: Result<Step, ModelError>,
) -> bool {
    match r {
        Ok(
            Step::Recur {
                layer: l,
                hidden: h,
                q: q2,
                k: k2,
                v,
                g,
                beta,
                z,
                cache: c,
                conv_dtype: cd,
                recurrent_dtype: rd,
            },
        ) => {
            &&& l == layer
            &&& h == hidden
            &&& q2 == q
            &&& k2 == k
            &&& v == inputs.heads.v
            &&& z == inputs.z
            &&& c == cache
            &&& cd == conv_dtype
            &&& rd == recurrent_dtype
            &&& is(beta, sigmoids(tensor_view(inputs.b)))
            &&& is(g, a.decay(tensor_view(softplus), conv_dtype))
        },
        Ok(_) => false,
        Err(_) => !(broadcasts(per_head(tensor_view(a.a)).dims, tensor_view(softplus).dims)
            && tensor_view(inputs.b).dtype.sigmoidal() && tensor_view(softplus).dtype == Dtype::F32
            && tensor_view(a.a).dtype.floating() && conv_dtype.floating()),
    }
}

fn activated(
    a: &LinearAttention,
    layer: usize,
    hidden: Tensor,
    inputs: GdnInputs,
    cache: GdnLayerCache,
    conv_dtype: Dtype,
    recurrent_dtype: Dtype,
    q: Tensor,
    k: Tensor,
    softplus: Tensor,
) -> (r: Result<Step, ModelError>)
    requires
        a.wf(),
        inputs.fits(),
        tensor_view(softplus).fits(),
    ensures
        activates(
            *a,
            layer,
            hidden,
            inputs,
            cache,
            conv_dtype,
            recurrent_dtype,
            q,
            k,
            softplus,
            r,
        ),
{
    let (beta, g) = a.compute_beta_g_cpu(&inputs.b, &softplus, conv_dtype)?;
    Ok(
        Step::Recur {
            layer,
            hidden,
            q,
            k,
            v: inputs.heads.v,
            g,
            beta,
            z: inputs.z,
            cache,
            conv_dtype,
            recurrent_dtype,
        },
    )
}

/// What follows when the recurrence has been run: the layer's output is computed, and the cache is
/// to be stored, in its own types, with the new tokens counted.
pub open spec fn recurs(
    a: LinearAttention,
    layer: usize,
    hidden: Tensor,
    z: Tensor,
    cache: GdnLayerCache,
    conv_dtype: Dtype,
    recurrent_dtype: Dtype,
    y: Tensor,
    state: Tensor,
    r: Result<Step, ModelError>,
) -> bool {
    let tokens = tensor_view(z).dims[1];
    match r {
        Ok(Step::Store { layer: l, hidden: h, attn, cache: c }) => {
            &&& l == layer
            &&& h == hidden
            &&& a.normable(tensor_view(y), tensor_view(z))
            &&& is(attn, a.finished(tensor_view(y), tensor_view(z)))
            &&& tensor_view(attn).dims == seq![
                tensor_view(z).dims[0],
                tokens,
                a.out.weight().dims[0],
            ]
            &&& c.seqlen_offset == cache.seqlen_offset + tokens
            &&& is(c.conv_state, converted(tensor_view(cache.conv_state), conv_dtype))
            &&& is(c.recurrent_state, converted(tensor_view(state), recurrent_dtype))
        },
        Ok(_) => false,
        Err(_) => !(a.finishable(tensor_view(y), tensor_view(z)) && cache.seqlen_offset + tokens
            <= usize::MAX && tensor_view(cache.conv_state).dtype.floating() && conv_dtype.floating()
            && tensor_view(state).dtype.floating() && recurrent_dtype.floating()),
    }
}

fn recurred(
    a: &LinearAttention,
    layer: usize,
    hidden: Tensor,
    z: Tensor,
    cache: GdnLayerCache,
    conv_dtype: Dtype,
    recurrent_dtype: Dtype,
    y: Tensor,
    state: Tensor,
) -> (r: Result<Step, ModelError>)
    requires
        a.wf(),
        tensor_view(z).fits(),
        tensor_view(z).dims.len() == 4,
        cache.wf(),
        tensor_view(y).fits(),
        tensor_view(state).fits(),
    ensures
        recurs(*a, layer, hidden, z, cache, conv_dtype, recurrent_dtype, y, state, r),
{
    let d = candle::dims(&z);
    assert(tensor_view(z).dims[1] == d[1] as nat);
    if cache.seqlen_offset > usize::MAX - d[1] {
        return Err(ModelError::TooLarge);
    }
    let mut cache = cache;
    let attn = a.conclude(&y, state, &z, &mut cache)?;
    proof {
        lemma_mapped3(a.out.weight(), a.single_rows(tensor_view(y), tensor_view(z)));
    }
    let conv_state = ops::to_dtype(&cache.conv_state, conv_dtype)?;
    let recurrent_state = ops::to_dtype(&cache.recurrent_state, recurrent_dtype)?;
    let seqlen_offset: usize = cache.seqlen_offset;
    Ok(
        Step::Store {
            layer,
            hidden,
            attn,
            cache: GdnLayerCache { conv_state, recurrent_state, seqlen_offset },
        },
    )
}

/// What follows when the cache has been stored: the layer's output is added to its input, which is
/// to be normalised again.
pub open spec fn stores(
    layer: usize,
    hidden: Tensor,
    attn: Tensor,
    r: Result<Step, ModelError>,
) -> bool {
    match r {
        Ok(Step::FfnNorm { layer: l, hidden: x }) => {
            &&& l == layer
            &&& tensor_view(attn).dims == tensor_view(hidden).dims
            &&& same_form(x, hidden)
            &&& is(x, with_residual(tensor_view(attn), tensor_view(hidden)))
        },
        Ok(_) => false,
        Err(_) => !(tensor_view(attn).dims == tensor_view(hidden).dims && tensor_view(
            attn,
        ).dtype.floating() && tensor_view(hidden).dtype.floating()),
    }
}

fn stored(layer: usize, hidden: Tensor, attn: Tensor) -> (r: Result<Step, ModelError>)
    requires
        tensor_view(hidden).fits(),
        tensor_view(attn).fits(),
    ensures
        stores(layer, hidden, attn, r),
{
    let x = add_residual(&attn, &hidden)?;
    Ok(Step::FfnNorm { layer, hidden: x })
}

/// What follows when the input of the feed-forward block has been normalised: the block's output is
/// added, and the next layer begins.
pub open spec fn feeds(
    m: ModelWeights,
    layer: usize,
    hidden: Tensor,
    normed: Tensor,
    r: Result<Step, ModelError>,
) -> bool {
    let mlp = m.layers[layer as int].mlp;
    let out = mlp.fed(tensor_view(normed));
    match r {
        Ok(s) => {
            &&& mlp.ready(normed)
            &&& mlp.gate.applied(tensor_view(normed)).fits()
            &&& mlp.up.applied(tensor_view(normed)).fits()
            &&& out.fits()
            &&& out.dims == tensor_view(hidden).dims
            &&& exists|x: Tensor| {
                &&& s == #[trigger] m.entry(layer + 1, x)
                &&& same_form(x, hidden)
                &&& is(x, with_residual(out, tensor_view(hidden)))
            }
        },
        Err(_) => !(mlp.ready(normed) && out.dims == tensor_view(hidden).dims && tensor_view(
            hidden,
        ).dtype.floating()),
    }
}

fn fed(m: &ModelWeights, layer: usize, hidden: Tensor, normed: Tensor) -> (r: Result<
    Step,
    ModelError,
>)
    requires
        m.wf(),
        layer < m.layers.len(),
        tensor_view(hidden).fits(),
        tensor_view(normed).fits(),
    ensures
        feeds(*m, layer, hidden, normed, r),
        match r {
            Ok(s) => s.wf(*m),
            Err(_) => true,
        },
{
    let mlp = &m.layers[layer].mlp;
    assert(m.layers[layer as int].wf());
    let out = mlp.forward(&normed)?;
    let x = add_residual(&out, &hidden)?;
    let s = enter(m, layer + 1, x);
    proof {
        assert(s == m.entry(layer + 1, x));
    }
    Ok(s)
}

fn enter(m: &ModelWeights, layer: usize, hidden: Tensor) -> (s: Step)
    requires
        tensor_view(hidden).fits(),
    ensures
        s == m.entry(layer as int, hidden),
        s.wf(*m),
{
    if layer < m.layers.len() {
        Step::Place { layer, hidden }
    } else {
        Step::OutputNorm { hidden }
    }
}

/// What follows when the tokens of which logits are wanted have been extracted: their logits.
pub open spec fn extracts(m: ModelWeights, x: Tensor, r: Result<Step, ModelError>) -> bool {
    match r {
        Ok(Step::Done { logits }) => {
            &&& m.output.takes(tensor_view(x))
            &&& is(logits, m.output.applied(tensor_view(x)))
        },
        Ok(_) => false,
        Err(_) => !m.output.takes(tensor_view(x)),
    }
}

fn extracted(m: &ModelWeights, x: Tensor) -> (r: Result<Step, ModelError>)
    requires
        m.output.wf(),
        tensor_view(x).fits(),
    ensures
        extracts(*m, x, r),
{
    let solid = ops::contiguous(&x)?;
    let logits = m.output.forward(&solid)?;
    Ok(Step::Done { logits })
}

/// The outcome of a step that can only fail as such.
pub open spec fn outcome(
    r: Result<Step, PassError>,
    holds: spec_fn(Result<Step, ModelError>) -> bool,
) -> bool {
    match r {
        Ok(s) => holds(Ok(s)),
        Err(PassError::Failed(e)) => holds(Err(e)),
        Err(_) => false,
    }
}

impl ModelWeights {
    /// What follows when a layer's cache has been opened: a cache of another kind is an error.
    pub open spec fn opens(
        self,
        layer: usize,
        hidden: Tensor,
        normed: Tensor,
        slot: Slot,
        r: Result<Step, PassError>,
    ) -> bool {
        match (self.layers[layer as int].layer, slot) {
            (LayerImpl::Full(a), Slot::Attention) => outcome(
                r,
                |s: Result<Step, ModelError>| opens_full(a, layer, hidden, normed, s),
            ),
            (LayerImpl::Linear(a), Slot::Recurrent(c)) => outcome(
                r,
                |s: Result<Step, ModelError>| opens_linear(a, layer, hidden, normed, c, s),
            ),
            _ => match r {
                Err(PassError::LayerCacheMismatch(i)) => i == layer,
                _ => false,
            },
        }
    }

    /// `r` is what follows `step` on `reply`.
    pub open spec fn follows(self, step: Step, reply: Reply, r: Result<Step, PassError>) -> bool {
        if !reply.fits() {
            match r {
                Err(PassError::Failed(e)) => e is TooLarge,
                _ => false,
            }
        } else {
            match (step, reply) {
                (Step::Prepare { hidden, .. }, Reply::Ready) => outcome(
                    r,
                    |s: Result<Step, ModelError>| s is Ok && s->Ok_0 == self.entry(0, hidden),
                ),
                (Step::Place { layer, .. }, Reply::Placed(t)) => outcome(
                    r,
                    |s: Result<Step, ModelError>|
                        s is Ok && s->Ok_0 == (Step::AttnNorm { layer, hidden: t }),
                ),
                (Step::AttnNorm { layer, hidden }, Reply::Normed(normed)) => outcome(
                    r,
                    |s: Result<Step, ModelError>|
                        s is Ok && s->Ok_0 == (Step::OpenCache { layer, hidden, normed }),
                ),
                (Step::OpenCache { layer, hidden, normed }, Reply::Opened(slot)) => self.opens(
                    layer,
                    hidden,
                    normed,
                    slot,
                    r,
                ),
                (Step::Rotate { layer, hidden, heads, dtype }, Reply::Rotated { q, k }) => outcome(
                    r,
                    |s: Result<Step, ModelError>|
                        rotates(
                            self.layers[layer as int].layer->Full_0,
                            layer,
                            hidden,
                            heads,
                            dtype,
                            q,
                            k,
                            s,
                        ),
                ),
                (
                    Step::Append { layer, hidden, q, gate, dtype, .. },
                    Reply::Appended { k, v },
                ) => outcome(
                    r,
                    |s: Result<Step, ModelError>|
                        appends(
                            self.layers[layer as int].layer->Full_0,
                            layer,
                            hidden,
                            q,
                            gate,
                            dtype,
                            k,
                            v,
                            s,
                        ),
                ),
                (
                    Step::Attend { layer, hidden, gate, dtype, .. },
                    Reply::Attended { y, custom_mask },
                ) => outcome(
                    r,
                    |s: Result<Step, ModelError>|
                        attends(
                            self.layers[layer as int].layer->Full_0,
                            layer,
                            hidden,
                            gate,
                            dtype,
                            y,
                            custom_mask,
                            s,
                        ),
                ),
                (
                    Step::Activate { layer, hidden, inputs, cache, conv_dtype, recurrent_dtype },
                    Reply::Activated { q, k, softplus },
                ) => outcome(
                    r,
                    |s: Result<Step, ModelError>|
                        activates(
                            self.layers[layer as int].layer->Linear_0,
                            layer,
                            hidden,
                            inputs,
                            cache,
                            conv_dtype,
                            recurrent_dtype,
                            q,
                            k,
                            softplus,
                            s,
                        ),
                ),
                (
                    Step::Recur { layer, hidden, z, cache, conv_dtype, recurrent_dtype, .. },
                    Reply::Recurred { y, state },
                ) => outcome(
                    r,
                    |s: Result<Step, ModelError>|
                        recurs(
                            self.layers[layer as int].layer->Linear_0,
                            layer,
                            hidden,
                            z,
                            cache,
                            conv_dtype,
                            recurrent_dtype,
                            y,
                            state,
                            s,
                        ),
                ),
                (Step::Store { layer, hidden, attn, .. }, Reply::Stored) => outcome(
                    r,
                    |s: Result<Step, ModelError>| stores(layer, hidden, attn, s),
                ),
                (Step::FfnNorm { layer, hidden }, Reply::Normed(normed)) => outcome(
                    r,
                    |s: Result<Step, ModelError>| feeds(self, layer, hidden, normed, s),
                ),
                (Step::OutputNorm { .. }, Reply::Normed(normed)) => outcome(
                    r,
                    |s: Result<Step, ModelError>|
                        s is Ok && s->Ok_0 == (Step::ExtractLogits { hidden: normed }),
                ),
                (Step::ExtractLogits { .. }, Reply::Logits(x)) => outcome(
                    r,
                    |s: Result<Step, ModelError>| extracts(self, x, s),
                ),
                _ => match r {
                    Err(PassError::UnexpectedReply) => true,
                    _ => false,
                },
            }
        }
    }

    /// What follows `step` on `reply`.
    fn next(&self, step: Step, reply: Reply) -> (r: Result<Step, PassError>)
        requires
            self.wf(),
            step.wf(*self),
        ensures
            self.follows(step, reply, r),
            match r {
                Ok(s) => s.wf(*self),
                Err(_) => true,
            },
    {
        if !reply.is_addressable() {
            return Err(PassError::Failed(ModelError::TooLarge));
        }
        let r = match (step, reply) {
            (Step::Prepare { hidden, position_ids: _ }, Reply::Ready) => Ok(
                enter(self, 0, hidden),
            ),
            (Step::Place { layer, hidden: _ }, Reply::Placed(t)) => Ok(
                Step::AttnNorm { layer, hidden: t },
            ),
            (Step::AttnNorm { layer, hidden }, Reply::Normed(normed)) => Ok(
                Step::OpenCache { layer, hidden, normed },
            ),
            (Step::OpenCache { layer, hidden, normed }, Reply::Opened(slot)) => {
                assert(self.layers[layer as int].wf());
                match (&self.layers[layer].layer, slot) {
                    (LayerImpl::Full(a), Slot::Attention) => open_full(a, layer, hidden, normed),
                    (LayerImpl::Linear(a), Slot::Recurrent(c)) => open_linear(
                        a,
                        layer,
                        hidden,
                        normed,
                        c,
                    ),
                    _ => {
                        return Err(PassError::LayerCacheMismatch(layer));
                    },
                }
            },
            (Step::Rotate { layer, hidden, heads, dtype }, Reply::Rotated { q, k }) => {
                match &self.layers[layer].layer {
                    LayerImpl::Full(a) => rotated(a, layer, hidden, heads, dtype, q, k),
                    LayerImpl::Linear(_) => {
                        return Err(PassError::UnexpectedReply);
                    },
                }
            },
            (
                Step::Append { layer, hidden, q, k: _, v: _, gate, dtype },
                Reply::Appended { k, v },
            ) => {
                match &self.layers[layer].layer {
                    LayerImpl::Full(a) => appended(a, layer, hidden, q, gate, dtype, k, v),
                    LayerImpl::Linear(_) => {
                        return Err(PassError::UnexpectedReply);
                    },
                }
            },
            (
                Step::Attend { layer, hidden, q: _, k: _, v: _, gate, dtype },
                Reply::Attended { y, custom_mask },
            ) => {
                assert(self.layers[layer as int].wf());
                match &self.layers[layer].layer {
                    LayerImpl::Full(a) => attended(a, layer, hidden, gate, dtype, y, custom_mask),
                    LayerImpl::Linear(_) => {
                        return Err(PassError::UnexpectedReply);
                    },
                }
            },
            (
                Step::Activate { layer, hidden, inputs, cache, conv_dtype, recurrent_dtype },
                Reply::Activated { q, k, softplus },
            ) => {
                assert(self.layers[layer as int].wf());
                match &self.layers[layer].layer {
                    LayerImpl::Linear(a) => activated(
                        a,
                        layer,
                        hidden,
                        inputs,
                        cache,
                        conv_dtype,
                        recurrent_dtype,
                        q,
                        k,
                        softplus,
                    ),
                    LayerImpl::Full(_) => {
                        return Err(PassError::UnexpectedReply);
                    },
                }
            },
            (
                Step::Recur {
                    layer,
                    hidden,
                    q: _,
                    k: _,
                    v: _,
                    g: _,
                    beta: _,
                    z,
                    cache,
                    conv_dtype,
                    recurrent_dtype,
                },
                Reply::Recurred { y, state },
            ) => {
                assert(self.layers[layer as int].wf());
                match &self.layers[layer].layer {
                    LayerImpl::Linear(a) => recurred(
                        a,
                        layer,
                        hidden,
                        z,
                        cache,
                        conv_dtype,
                        recurrent_dtype,
                        y,
                        state,
                    ),
                    LayerImpl::Full(_) => {
                        return Err(PassError::UnexpectedReply);
                    },
                }
            },
            (Step::Store { layer, hidden, attn, cache: _ }, Reply::Stored) => stored(
                layer,
                hidden,
                attn,
            ),
            (Step::FfnNorm { layer, hidden }, Reply::Normed(normed)) => fed(
                self,
                layer,
                hidden,
                normed,
            ),
            (Step::OutputNorm { hidden: _ }, Reply::Normed(normed)) => Ok(
                Step::ExtractLogits { hidden: normed },
            ),
            (Step::ExtractLogits { hidden: _ }, Reply::Logits(x)) => extracted(self, x),
            _ => {
                return Err(PassError::UnexpectedReply);
            },
        };
        match r {
            Ok(s) => Ok(s),
            Err(e) => Err(PassError::Failed(e)),
        }
    }
}

impl ModelWeights {
    /// Takes the reply to what `pass` asked for, and goes on to what it asks for next.
    pub fn advance(&self, pass: Pass, reply: Reply) -> (r: Result<Pass, PassError>)
        requires
            self.wf(),
            pass.step.wf(*self),
        ensures
            match r {
                Ok(p) => {
                    &&& self.follows(pass.step, reply, Ok(p.step))
                    &&& p.step.wf(*self)
                    &&& p.context_lens == pass.context_lens
                },
                Err(e) => self.follows(pass.step, reply, Err(e)),
            },
    {
        let context_lens = pass.context_lens;
        match self.next(pass.step, reply) {
            Ok(step) => Ok(Pass { step, context_lens }),
            Err(e) => Err(e),
        }
    }
}

/// Each reply brings the pass one step closer to its end.
pub proof fn law_one_reply_closer(m: ModelWeights, step: Step, reply: Reply, next: Step)
    requires
        step.wf(m),
        m.follows(step, reply, Ok(next)),
    ensures
        next.replies_left(m.layers.len() as int) + 1 == step.replies_left(m.layers.len() as int),
        next.replies_left(m.layers.len() as int) >= 0,
{
    if step is FfnNorm {
        let (layer, hidden, normed) = (step->FfnNorm_layer, step->FfnNorm_hidden, reply->Normed_0);
        assert(feeds(m, layer, hidden, normed, Ok(next)));
        let x = choose|x: Tensor| next == #[trigger] m.entry(layer + 1, x);
    }
}

/// A pass from its beginning to the logits takes exactly seven replies for each layer and three
/// more.
pub proof fn law_pass_length(m: ModelWeights, steps: Seq<Step>, replies: Seq<Reply>)
    requires
        steps.len() == replies.len() + 1,
        steps[0] is Prepare,
        forall|i: int|
            0 <= i < replies.len() ==> #[trigger] steps[i].wf(m) && m.follows(
                steps[i],
                replies[i],
                Ok(steps[i + 1]),
            ),
    ensures
        steps.last().replies_left(m.layers.len() as int) == 7 * m.layers.len() + 3 - replies.len(),
        steps.last() is Done ==> replies.len() == 7 * m.layers.len() + 3,
    decreases replies.len(),
{
    if replies.len() > 0 {
        let n = replies.len() - 1;
        let before = steps.drop_last();
        let said = replies.drop_last();
        assert forall|i: int| 0 <= i < said.len() implies #[trigger] before[i].wf(m) && m.follows(
            before[i],
            said[i],
            Ok(before[i + 1]),
        ) by {
            assert(steps[i].wf(m));
        }
        law_pass_length(m, before, said);
        assert(steps[n].wf(m));
        law_one_reply_closer(m, steps[n], replies[n], steps[n + 1]);
    }
}

/// The layers are entered one after the other, each after seven replies to the one before.
pub proof fn law_layers_in_order(m: ModelWeights, steps: Seq<Step>, replies: Seq<Reply>, i: int)
    requires
        steps.len() == replies.len() + 1,
        steps[0] is Prepare,
        forall|i: int|
            0 <= i < replies.len() ==> #[trigger] steps[i].wf(m) && m.follows(
                steps[i],
                replies[i],
                Ok(steps[i + 1]),
            ),
        0 <= i < steps.len(),
        steps[i] is Place,
    ensures
        i == 7 * steps[i]->Place_layer + 1,
{
    let first = steps.take(i + 1);
    let said = replies.take(i);
    assert forall|j: int| 0 <= j < said.len() implies #[trigger] first[j].wf(m) && m.follows(
        first[j],
        said[j],
        Ok(first[j + 1]),
    ) by {
        assert(steps[j].wf(m));
    }
    law_pass_length(m, first, said);
}

/// The layers keep the shape and the type of the stream: only to place it on a device, to normalise
/// it at the end and to extract from it may change them.
pub proof fn law_stream_keeps_form(m: ModelWeights, step: Step, reply: Reply, next: Step)
    requires
        step.wf(m),
        m.follows(step, reply, Ok(next)),
        !(step is Place),
        !(step is OutputNorm),
        !(step is ExtractLogits),
    ensures
        same_form(next.stream(), step.stream()),
{
    if step is FfnNorm {
        let (layer, hidden, normed) = (step->FfnNorm_layer, step->FfnNorm_hidden, reply->Normed_0);
        assert(feeds(m, layer, hidden, normed, Ok(next)));
    }
}

/// `replies` lead through `steps`, and a stream that is placed on a device keeps its shape.
pub open spec fn leads(m: ModelWeights, steps: Seq<Step>, replies: Seq<Reply>) -> bool {
    &&& steps.len() == replies.len() + 1
    &&& steps[0] is Prepare
    &&& forall|i: int|
        0 <= i < replies.len() ==> #[trigger] steps[i].wf(m) && m.follows(
            steps[i],
            replies[i],
            Ok(steps[i + 1]),
        ) && (steps[i] is Place ==> tensor_view(replies[i]->Placed_0).dims == tensor_view(
            steps[i].stream(),
        ).dims)
}

/// Up to the end of the layers, the stream has the shape that it began with.
pub proof fn law_stream_keeps_shape(
    m: ModelWeights,
    steps: Seq<Step>,
    replies: Seq<Reply>,
    i: int,
)
    requires
        leads(m, steps, replies),
        0 <= i < steps.len(),
        !(steps[i] is ExtractLogits),
        !(steps[i] is Done),
    ensures
        tensor_view(steps[i].stream()).dims == tensor_view(steps[0].stream()).dims,
    decreases i,
{
    if i > 0 {
        let step = steps[i - 1];
        let next = steps[i - 1 + 1];
        assert(step.wf(m));
        if step is FfnNorm {
            let (layer, hidden, normed) = (
                step->FfnNorm_layer,
                step->FfnNorm_hidden,
                replies[i - 1]->Normed_0,
            );
            assert(feeds(m, layer, hidden, normed, Ok(next)));
        }
        assert(!(step is OutputNorm) && !(step is ExtractLogits) && !(step is Done));
        law_stream_keeps_shape(m, steps, replies, i - 1);
        if !(step is Place) {
            law_stream_keeps_form(m, step, replies[i - 1], next);
        }
    }
}

/// Over a pass, the offset of each layer with linear attention grows by the number of tokens: what is
/// stored, and taken on, is what was opened three replies before plus the tokens of the stream.
pub proof fn law_offsets_grow(m: ModelWeights, steps: Seq<Step>, replies: Seq<Reply>, i: int)
    requires
        leads(m, steps, replies),
        0 <= i < replies.len(),
        steps[i] is Store,
        tensor_view(steps[0].stream()).dims.len() == 3,
    ensures
        i >= 3,
        steps[i - 3] is OpenCache,
        steps[i - 3]->OpenCache_layer == steps[i]->Store_layer,
        replies[i - 3] is Opened,
        replies[i - 3]->Opened_0 is Recurrent,
        steps[i]->Store_cache.seqlen_offset == replies[i - 3]->Opened_0->Recurrent_0.seqlen_offset
            + tensor_view(steps[0].stream()).dims[1],
{
    assert(steps[i].wf(m));
    law_stream_keeps_shape(m, steps, replies, i);
    law_precedes(m, steps, replies, i);
    law_precedes(m, steps, replies, i - 1);
    law_precedes(m, steps, replies, i - 2);
    assert(steps[i - 1].wf(m));
    assert(steps[i - 2].wf(m));
    assert(steps[i - 3].wf(m));
    assert(steps[i - 1 + 1] == steps[i]);
    assert(steps[i - 2 + 1] == steps[i - 1]);
    assert(steps[i - 3 + 1] == steps[i - 2]);
}

/// And the keys and values of each layer with full attention grow by as many: in a pass that goes on past
/// the attention, the values that are appended are those of as many positions as the stream has tokens.
pub proof fn law_appended_values(m: ModelWeights, steps: Seq<Step>, replies: Seq<Reply>, i: int)
    requires
        leads(m, steps, replies),
        0 <= i,
        i + 1 < replies.len(),
        steps[i] is Append,
        tensor_view(steps[0].stream()).dims.len() == 3,
    ensures
        tensor_view(steps[i]->Append_v).dims.len() == 4,
        tensor_view(steps[i]->Append_v).dims[2] == tensor_view(steps[0].stream()).dims[1],
{
    assert(steps[i].wf(m));
    assert(steps[i + 1].wf(m));
    law_stream_keeps_shape(m, steps, replies, i + 1);
    law_precedes(m, steps, replies, i);
    law_precedes(m, steps, replies, i - 1);
    assert(steps[i - 1].wf(m));
    assert(steps[i - 2].wf(m));
    assert(steps[i - 1 + 1] == steps[i]);
    assert(steps[i - 2 + 1] == steps[i - 1]);
    let (y, mask) = (replies[i + 1]->Attended_y, replies[i + 1]->Attended_custom_mask);
    let gate = tensor_view(steps[i + 1]->Attend_gate);
    let rows = gated(tensor_view(y), gate, mask, steps[i + 1]->Attend_dtype);
    let a = m.layers[steps[i + 1]->Attend_layer as int].layer->Full_0;
    lemma_gated_tokens(tensor_view(y), gate, mask, steps[i + 1]->Attend_dtype);
    lemma_mapped3(a.o.weight(), rows);
}

/// A cache is stored after the recurrence, which is run after the activation, and keys and values are
/// appended after the rotation; activation and rotation follow the opening of a cache.
pub proof fn law_precedes(m: ModelWeights, steps: Seq<Step>, replies: Seq<Reply>, i: int)
    requires
        leads(m, steps, replies),
        0 <= i < steps.len(),
    ensures
        steps[i] is Store ==> i >= 1 && steps[i - 1] is Recur,
        steps[i] is Recur ==> i >= 1 && steps[i - 1] is Activate,
        steps[i] is Activate ==> i >= 1 && steps[i - 1] is OpenCache,
        steps[i] is Append ==> i >= 1 && steps[i - 1] is Rotate,
        steps[i] is Rotate ==> i >= 1 && steps[i - 1] is OpenCache,
{
    if i > 0 {
        let step = steps[i - 1];
        let next = steps[i - 1 + 1];
        assert(step.wf(m));
        if step is FfnNorm {
            let (layer, hidden, normed) = (
                step->FfnNorm_layer,
                step->FfnNorm_hidden,
                replies[i - 1]->Normed_0,
            );
            assert(feeds(m, layer, hidden, normed, Ok(next)));
        }
    }
}

/// A pass never fails for want of the right cache, if the cache of each layer is of the kind that the
/// plan lays out for it.
pub proof fn law_planned_caches_match(
    m: ModelWeights,
    plan: LoadPlan,
    step: Step,
    slot: Slot,
    r: Result<Step, PassError>,
)
    requires
        plan.wf(),
        plan.has_layers(m.layers@),
        step.wf(m),
        step is OpenCache,
        m.follows(step, Reply::Opened(slot), r),
        slot is Attention <==> plan.cache.layer_types[step->OpenCache_layer as int]
            == HybridLayerType::Attention,
        slot is Recurrent <==> plan.cache.layer_types[step->OpenCache_layer as int]
            == HybridLayerType::Recurrent,
    ensures
        r is Ok || r->Err_0 is Failed,
{
    let layer = step->OpenCache_layer as int;
    assert(m.layers@[layer].layer.layer_type() == plan.layer_types[layer]);
    assert(plan.cache.layer_types[layer] == cache_type(
        layer_type(layer, plan.props.full_attention_interval as int),
    ));
}

/// What a pass begins with. Token `t` of sequence `b` stands, on every axis, at the position that is the
/// number of tokens before it: those that came before the sequence, and the `t` before it in the sequence.
/// Positions are 32-bit numbers and wrap around. Its embedding is its token's row of the table, or zeros
/// for the greatest token of its type. The tokens of which logits are wanted are kept. If there is an
/// offset for each sequence, every token is known and the results keep within memory, it succeeds; paged
/// attention never does.
pub proof fn law_pass_begins(
    m: ModelWeights,
    x: Tensor,
    start_offsets: &[usize],
    context_lens: Vec<(usize, usize)>,
    paged: bool,
    r: Result<Pass, ModelError>,
    rows: nat,
    axis: int,
    b: int,
    t: int,
    d: int,
)
    requires
        m.sound(),
        tensor_view(x).fits(),
        tensor_view(x).dims.len() == 2,
        embedding_table(m.tok_embeddings).dims == seq![rows, m.embedding_length as nat],
        forall|i: int|
            0 <= i < start_offsets@.len() ==> #[trigger] start_offsets@[i] + tensor_view(x).dims[1]
                <= usize::MAX,
        call_ensures(ModelWeights::forward, (&m, &x, start_offsets, context_lens, paged), r),
        0 <= axis < 3,
        0 <= b < tensor_view(x).dims[0],
        0 <= t < tensor_view(x).dims[1],
    ensures
        call_requires(ModelWeights::forward, (&m, &x, start_offsets, context_lens, paged)),
        paged ==> r is Err && r->Err_0 is PagedAttention,
        ({
            let v = tensor_view(x);
            &&& !paged
            &&& v.dtype == Dtype::U8 || v.dtype == Dtype::U32 || v.dtype == Dtype::I64
            &&& start_offsets@.len() == v.dims[0]
            &&& forall|i: int|
                0 <= i < v.elems.len() ==> 0 <= #[trigger] v.elems[i] < rows || v.elems[i] == (
                match v.dtype {
                    Dtype::U8 => 0xffint,
                    Dtype::U32 => 0xffff_ffffint,
                    _ => 0x7fff_ffff_ffff_ffffint,
                })
            &&& extent(seq![v.dims[0], v.dims[1], m.embedding_length as nat]) <= MAX_ELEMENTS
            &&& extent(seq![3, v.dims[0], v.dims[1]]) <= MAX_ELEMENTS
        }) ==> r is Ok,
        r is Ok ==> {
            let v = tensor_view(x);
            let token = v.at2(b, t);
            let table = embedding_table(m.tok_embeddings);
            let ids = tensor_view(r->Ok_0.step->Prepare_position_ids);
            let hidden = tensor_view(r->Ok_0.step->Prepare_hidden);
            let position = start_offsets@[b] + t;
            let none = match v.dtype {
                Dtype::U8 => 0xffint,
                Dtype::U32 => 0xffff_ffffint,
                _ => 0x7fff_ffff_ffff_ffffint,
            };
            &&& r->Ok_0.step is Prepare
            &&& r->Ok_0.context_lens == context_lens
            &&& start_offsets@.len() == v.dims[0]
            &&& ids.dims == seq![3, v.dims[0], v.dims[1]]
            &&& ids.dtype == Dtype::U32
            &&& ids.device == v.device
            &&& position < 0x1_0000_0000 ==> ids.at3(axis, b, t) == position
            &&& ids.at3(axis, b, t) == position % 0x1_0000_0000
            &&& hidden.dims == seq![v.dims[0], v.dims[1], m.embedding_length as nat]
            &&& hidden.dtype == table.dtype
            &&& hidden.device == table.device
            &&& token == none || 0 <= token < rows
            &&& 0 <= d < m.embedding_length ==> hidden.at3(b, t, d) == if token == none {
                0
            } else {
                table.at2(token, d)
            }
        },
{
    let v = tensor_view(x);
    let width = m.embedding_length as nat;
    let table = embedding_table(m.tok_embeddings);
    assert(v.dims.push(width) =~= seq![v.dims[0], v.dims[1], width]);
    assert(table.dims.drop_first() =~= seq![width]);
    lemma_at1(TensorView { dims: seq![width], ..table }, 0);
    lemma_in_range2(v.dims, b, t);
    lemma_position_bounds(v.dims, seq![b, t]);
    assert(v.dims =~= seq![v.dims[0], v.dims[1]]);
    lemma_position2(v.dims[0], v.dims[1], b, t);
    if r is Ok {
        let hidden = tensor_view(r->Ok_0.step->Prepare_hidden);
        law_positions(start_offsets@, v.dims[1], v.device, axis, b, t);
        let n = (start_offsets@[b] + t) as u64;
        assert(n as u32 == n % 0x1_0000_0000u64) by (bit_vector);
        assert(token_position(start_offsets@[b], t) == n as u32);
        lemma_at2(v, b, t);
        let at = b * v.dims[1] + t;
        if 0 <= d < width {
            let w = width as int;
            lemma_at3(hidden, b, t, d);
            lemma_at2(table, v.at2(b, t), d);
            let p = at * w + d;
            lemma_fundamental_div_mod_converse(p, w, at, d);
            assert(0 <= p < v.elems.len() * width) by (nonlinear_arith)
                requires
                    p == at * w + d,
                    0 <= at < v.elems.len(),
                    0 <= d < w,
                    w == width,
            ;
        }
    }
}

/// What a layer computed is added to what went in place by place, in the type of what went in.
pub proof fn law_residual_values(x: Tensor, residual: Tensor, r: Result<Tensor, ModelError>, p: int)
    requires
        tensor_view(x).fits(),
        tensor_view(residual).fits(),
        call_ensures(add_residual, (&x, &residual), r),
        0 <= p < tensor_view(residual).elems.len(),
    ensures
        call_requires(add_residual, (&x, &residual)),
        tensor_view(x).dims == tensor_view(residual).dims && tensor_view(x).dtype.floating()
            && tensor_view(residual).dtype.floating() ==> r is Ok,
        r is Ok ==> {
            let (v, w, o) = (tensor_view(x), tensor_view(residual), tensor_view(r->Ok_0));
            &&& v.dims == w.dims
            &&& o.dims == w.dims
            &&& o.dtype == w.dtype
            &&& o.elems[p] == plus(
                v.device,
                w.dtype,
                rounded_elem(v, w.dtype, v.elems[p]),
                w.elems[p],
            )
        },
{
    if r is Ok {
        lemma_residual(tensor_view(x), tensor_view(residual), p);
    }
}

proof fn lemma_residual(v: TensorView, w: TensorView, p: int)
    requires
        v.fits(),
        w.fits(),
        v.dims == w.dims,
        0 <= p < w.elems.len(),
    ensures
        with_residual(v, w).elems[p] == plus(
            v.device,
            w.dtype,
            rounded_elem(v, w.dtype, v.elems[p]),
            w.elems[p],
        ),
{
    let c = converted(v, w.dtype);
    lemma_zipped_elems(c, w, |a: int, b: int| plus(c.device, c.dtype, a, b));
}

/// The steps that ask for something and keep it as it comes: the first layer is entered with the embeddings,
/// a layer goes on with what was brought to its device, and opens its cache with what was normalised; after
/// the last norm, tokens are extracted, and the logits are what the output map makes of them. The tokens of
/// which logits are wanted stay the same.
pub proof fn law_plain_steps(m: ModelWeights, pass: Pass, reply: Reply, r: Result<Pass, PassError>)
    requires
        m.wf(),
        pass.step.wf(m),
        match reply {
            Reply::Ready | Reply::Stored => true,
            Reply::Placed(t) | Reply::Normed(t) | Reply::Logits(t) => tensor_view(t).fits(),
            Reply::Opened(Slot::Recurrent(c)) => tensor_view(c.conv_state).fits() && tensor_view(
                c.recurrent_state,
            ).fits(),
            Reply::Opened(_) => true,
            Reply::Rotated { q, k } => tensor_view(q).fits() && tensor_view(k).fits(),
            Reply::Appended { k, v } => tensor_view(k).fits() && tensor_view(v).fits(),
            Reply::Attended { y, .. } => tensor_view(y).fits(),
            Reply::Activated { q, k, softplus } => tensor_view(q).fits() && tensor_view(k).fits()
                && tensor_view(softplus).fits(),
            Reply::Recurred { y, state } => tensor_view(y).fits() && tensor_view(state).fits(),
        },
        call_ensures(ModelWeights::advance, (&m, pass, reply), r),
    ensures
        call_requires(ModelWeights::advance, (&m, pass, reply)),
        r is Ok ==> r->Ok_0.context_lens == pass.context_lens && r->Ok_0.step.wf(m),
        match (pass.step, reply) {
            (Step::Prepare { hidden, .. }, Reply::Ready) => r is Ok && r->Ok_0.step == if m.layers.len()
                > 0 {
                Step::Place { layer: 0, hidden }
            } else {
                Step::OutputNorm { hidden }
            },
            (Step::Place { layer, .. }, Reply::Placed(t)) => r is Ok && r->Ok_0.step == (
            Step::AttnNorm { layer, hidden: t }),
            (Step::AttnNorm { layer, hidden }, Reply::Normed(normed)) => r is Ok && r->Ok_0.step == (
            Step::OpenCache { layer, hidden, normed }),
            (Step::OutputNorm { .. }, Reply::Normed(normed)) => r is Ok && r->Ok_0.step == (
            Step::ExtractLogits { hidden: normed }),
            (Step::ExtractLogits { .. }, Reply::Logits(x)) => {
                &&& m.output.takes(tensor_view(x)) ==> r is Ok
                &&& r is Ok ==> r->Ok_0.step is Done && tensor_view(r->Ok_0.step->Done_logits)
                    == m.output.applied(tensor_view(x))
            },
            _ => true,
        },
{
}

/// A layer's cache has to be of the layer's kind: a missing one, or one of the other kind, is an error that
/// names the layer. And only the reply that a step asks for is taken; one whose tensors exceed memory is
/// refused.
pub proof fn law_refused_replies(
    m: ModelWeights,
    pass: Pass,
    reply: Reply,
    r: Result<Pass, PassError>,
    fitting: bool,
)
    requires
        fitting == match reply {
            Reply::Ready | Reply::Stored => true,
            Reply::Placed(t) | Reply::Normed(t) | Reply::Logits(t) => tensor_view(t).fits(),
            Reply::Opened(Slot::Recurrent(c)) => tensor_view(c.conv_state).fits() && tensor_view(
                c.recurrent_state,
            ).fits(),
            Reply::Opened(_) => true,
            Reply::Rotated { q, k } => tensor_view(q).fits() && tensor_view(k).fits(),
            Reply::Appended { k, v } => tensor_view(k).fits() && tensor_view(v).fits(),
            Reply::Attended { y, .. } => tensor_view(y).fits(),
            Reply::Activated { q, k, softplus } => tensor_view(q).fits() && tensor_view(k).fits()
                && tensor_view(softplus).fits(),
            Reply::Recurred { y, state } => tensor_view(y).fits() && tensor_view(state).fits(),
        },
        m.wf(),
        pass.step.wf(m),
        call_ensures(ModelWeights::advance, (&m, pass, reply), r),
    ensures
        !fitting ==> r is Err && r->Err_0 is Failed && r->Err_0->Failed_0 is TooLarge,
        fitting && pass.step is OpenCache && reply is Opened && (match m.layers@[
            pass.step->OpenCache_layer as int
        ].layer {
            LayerImpl::Full(_) => !(reply->Opened_0 is Attention),
            LayerImpl::Linear(_) => !(reply->Opened_0 is Recurrent),
        }) ==> r is Err && r->Err_0 is LayerCacheMismatch && r->Err_0->LayerCacheMismatch_0
            == pass.step->OpenCache_layer,
        fitting && !(match pass.step {
            Step::Prepare { .. } => reply is Ready,
            Step::Place { .. } => reply is Placed,
            Step::AttnNorm { .. } => reply is Normed,
            Step::OpenCache { .. } => reply is Opened,
            Step::Rotate { .. } => reply is Rotated,
            Step::Append { .. } => reply is Appended,
            Step::Attend { .. } => reply is Attended,
            Step::Activate { .. } => reply is Activated,
            Step::Recur { .. } => reply is Recurred,
            Step::Store { .. } => reply is Stored,
            Step::FfnNorm { .. } => reply is Normed,
            Step::OutputNorm { .. } => reply is Normed,
            Step::ExtractLogits { .. } => reply is Logits,
            Step::Done { .. } => false,
        }) ==> r is Err && r->Err_0 is UnexpectedReply,
{
}

/// What is appended after the rotation: the rotated keys, and the values, each number rounded to the layer's
/// type; the rotated queries and `gate` go on as they are.
pub proof fn law_rotated_step(
    m: ModelWeights,
    pass: Pass,
    q: Tensor,
    k: Tensor,
    r: Result<Pass, PassError>,
    p: int,
)
    requires
        m.wf(),
        pass.step.wf(m),
        pass.step is Rotate,
        tensor_view(q).fits(),
        tensor_view(k).fits(),
        call_ensures(ModelWeights::advance, (&m, pass, Reply::Rotated { q, k }), r),
    ensures
        ({
            let a = m.layers@[pass.step->Rotate_layer as int].layer->Full_0;
            let heads = pass.step->Rotate_heads;
            let (kv, vv) = (tensor_view(k), tensor_view(heads.v));
            &&& kv.dtype.floating() && vv.dtype.floating() && a.dtype.floating() ==> r is Ok
            &&& r is Ok ==> {
                let next = r->Ok_0.step;
                let (ak, av) = (tensor_view(next->Append_k), tensor_view(next->Append_v));
                &&& next is Append
                &&& next->Append_layer == pass.step->Rotate_layer
                &&& next->Append_hidden == pass.step->Rotate_hidden
                &&& next->Append_dtype == pass.step->Rotate_dtype
                &&& next->Append_q == q
                &&& next->Append_gate == heads.gate
                &&& ak.dims == kv.dims && ak.dtype == a.dtype && ak.elems.len() == kv.elems.len()
                &&& av.dims == vv.dims && av.dtype == a.dtype && av.elems.len() == vv.elems.len()
                &&& 0 <= p < kv.elems.len() ==> ak.elems[p] == rounded_elem(
                    kv,
                    a.dtype,
                    kv.elems[p],
                )
                &&& 0 <= p < vv.elems.len() ==> av.elems[p] == rounded_elem(
                    vv,
                    a.dtype,
                    vv.elems[p],
                )
            }
        }),
{
}

/// In a pass, the keys that a layer with full attention appends are those that came back rotated, and the
/// values those that were projected, each number rounded to the layer's type.
pub proof fn law_appended_keys(
    m: ModelWeights,
    steps: Seq<Step>,
    replies: Seq<Reply>,
    i: int,
    p: int,
)
    requires
        leads(m, steps, replies),
        0 <= i < steps.len(),
        steps[i] is Append,
    ensures
        i >= 1,
        steps[i - 1] is Rotate,
        replies[i - 1] is Rotated,
        steps[i]->Append_q == replies[i - 1]->Rotated_q,
        ({
            let a = m.layers@[steps[i]->Append_layer as int].layer->Full_0;
            let k = tensor_view(replies[i - 1]->Rotated_k);
            let v = tensor_view(steps[i - 1]->Rotate_heads.v);
            let (ak, av) = (tensor_view(steps[i]->Append_k), tensor_view(steps[i]->Append_v));
            &&& ak.dims == k.dims
            &&& av.dims == v.dims
            &&& 0 <= p < k.elems.len() ==> ak.elems[p] == rounded_elem(k, a.dtype, k.elems[p])
            &&& 0 <= p < v.elems.len() ==> av.elems[p] == rounded_elem(v, a.dtype, v.elems[p])
        }),
{
    law_precedes(m, steps, replies, i);
    assert(steps[i - 1].wf(m));
    assert(steps[i - 1 + 1] == steps[i]);
}

/// What is attended to after keys and values were appended: those that came back, with the queries rounded
/// to the layer's type.
pub proof fn law_appended_step(
    m: ModelWeights,
    pass: Pass,
    k: Tensor,
    v: Tensor,
    r: Result<Pass, PassError>,
    p: int,
)
    requires
        m.wf(),
        pass.step.wf(m),
        pass.step is Append,
        tensor_view(k).fits(),
        tensor_view(v).fits(),
        call_ensures(ModelWeights::advance, (&m, pass, Reply::Appended { k, v }), r),
    ensures
        ({
            let a = m.layers@[pass.step->Append_layer as int].layer->Full_0;
            let q = tensor_view(pass.step->Append_q);
            &&& q.dtype.floating() && a.dtype.floating() ==> r is Ok
            &&& r is Ok ==> {
                let next = r->Ok_0.step;
                let aq = tensor_view(next->Attend_q);
                &&& next is Attend
                &&& next->Attend_layer == pass.step->Append_layer
                &&& next->Attend_hidden == pass.step->Append_hidden
                &&& next->Attend_dtype == pass.step->Append_dtype
                &&& next->Attend_gate == pass.step->Append_gate
                &&& next->Attend_k == k
                &&& next->Attend_v == v
                &&& aq.dims == q.dims && aq.dtype == a.dtype && aq.elems.len() == q.elems.len()
                &&& 0 <= p < q.elems.len() ==> aq.elems[p] == rounded_elem(q, a.dtype, q.elems[p])
            }
        }),
{
}

/// What follows the attention: with `rows` its output times the sigmoid of `gate`, head by head, what `o`
/// makes of them is added to the layer's input place by place, and normalised next.
pub proof fn law_attended_step(
    m: ModelWeights,
    pass: Pass,
    y: Tensor,
    custom_mask: bool,
    r: Result<Pass, PassError>,
    rows: TensorView,
    p: int,
)
    requires
        m.wf(),
        pass.step.wf(m),
        pass.step is Attend,
        tensor_view(y).fits(),
        tensor_view(y).dims.len() == 4,
        product(tensor_view(y).dims) > 0,
        tensor_view(y).device == tensor_view(pass.step->Attend_gate).device,
        tensor_view(pass.step->Attend_gate).dims == (if custom_mask {
            seq![
                tensor_view(y).dims[0],
                tensor_view(y).dims[2],
                tensor_view(y).dims[1] * tensor_view(y).dims[3],
            ]
        } else {
            seq![
                tensor_view(y).dims[0],
                tensor_view(y).dims[1],
                tensor_view(y).dims[2] * tensor_view(y).dims[3],
            ]
        }),
        call_ensures(ModelWeights::advance, (&m, pass, Reply::Attended { y, custom_mask }), r),
        rows.dims == tensor_view(pass.step->Attend_gate).dims,
        rows.dtype == pass.step->Attend_dtype,
        rows.device == tensor_view(y).device,
        rows.elems.len() == product(rows.dims),
        forall|b: int, t: int, c: int|
            0 <= b < rows.dims[0] && 0 <= t < rows.dims[1] && 0 <= c < rows.dims[2]
                ==> #[trigger] rows.at3(b, t, c) == {
                let (v, g) = (tensor_view(y), tensor_view(pass.step->Attend_gate));
                let dtype = pass.step->Attend_dtype;
                let (h, d) = (c / v.dims[3] as int, c % v.dims[3] as int);
                let out = if custom_mask {
                    v.at4(b, h, t, d)
                } else {
                    v.at4(b, t, h, d)
                };
                let s = rounded_elem(g, v.dtype, g.at3(b, t, c));
                let p = times(v.device, v.dtype, out, sigmoid_of(v.device, v.dtype, s));
                if dtype == v.dtype {
                    p
                } else {
                    rounded(v.device, v.dtype, dtype, p)
                }
            },
    ensures
        ({
            let a = m.layers@[pass.step->Attend_layer as int].layer->Full_0;
            let hidden = tensor_view(pass.step->Attend_hidden);
            let mapped = a.o.applied(rows);
            &&& tensor_view(y).dtype.sigmoidal() && tensor_view(
                pass.step->Attend_gate,
            ).dtype.floating() && a.o.takes(rows) && mapped.dims == hidden.dims
                && hidden.dtype.floating() ==> r is Ok
            &&& r is Ok ==> {
                let next = r->Ok_0.step;
                let x = tensor_view(next->FfnNorm_hidden);
                &&& next is FfnNorm
                &&& next->FfnNorm_layer == pass.step->Attend_layer
                &&& mapped.dims == hidden.dims
                &&& x.dims == hidden.dims && x.dtype == hidden.dtype
                &&& 0 <= p < hidden.elems.len() ==> x.elems[p] == plus(
                    mapped.device,
                    hidden.dtype,
                    rounded_elem(mapped, hidden.dtype, mapped.elems[p]),
                    hidden.elems[p],
                )
            }
        }),
{
    let a = m.layers@[pass.step->Attend_layer as int].layer->Full_0;
    let hidden = tensor_view(pass.step->Attend_hidden);
    let gate = tensor_view(pass.step->Attend_gate);
    lemma_gated_rows(tensor_view(y), gate, custom_mask, pass.step->Attend_dtype, rows);
    if r is Ok && 0 <= p < hidden.elems.len() {
        lemma_residual(a.o.applied(rows), hidden, p);
    }
}

/// What the recurrence is run with: the normalised queries and keys that came back, the values, the strength
/// of each update as the sigmoid of what it is computed from, and the decay as the factor of each head
/// times the softplus that came back; gate and cache go on as they are.
pub proof fn law_activated_step(
    m: ModelWeights,
    pass: Pass,
    q: Tensor,
    k: Tensor,
    softplus: Tensor,
    r: Result<Pass, PassError>,
    b: int,
    t: int,
    h: int,
    p: int,
)
    requires
        m.wf(),
        pass.step.wf(m),
        pass.step is Activate,
        tensor_view(q).fits(),
        tensor_view(k).fits(),
        tensor_view(softplus).fits(),
        tensor_view(softplus).dims.len() == 3,
        tensor_view(m.layers@[pass.step->Activate_layer as int].layer->Linear_0.a).dims == seq![
            tensor_view(softplus).dims[2],
        ],
        call_ensures(
            ModelWeights::advance,
            (&m, pass, Reply::Activated { q, k, softplus }),
            r,
        ),
        0 <= b < tensor_view(softplus).dims[0],
        0 <= t < tensor_view(softplus).dims[1],
        0 <= h < tensor_view(softplus).dims[2],
    ensures
        ({
            let a = tensor_view(m.layers@[pass.step->Activate_layer as int].layer->Linear_0.a);
            let inputs = pass.step->Activate_inputs;
            let (bv, sv) = (tensor_view(inputs.b), tensor_view(softplus));
            let dtype = pass.step->Activate_conv_dtype;
            &&& bv.dtype.sigmoidal() && sv.dtype == Dtype::F32 && a.dtype.floating()
                && dtype.floating() ==> r is Ok
            &&& r is Ok ==> {
                let next = r->Ok_0.step;
                let (beta, g) = (tensor_view(next->Recur_beta), tensor_view(next->Recur_g));
                let factor = rounded_elem(a, Dtype::F32, a.elems[h]);
                let product = times(a.device, Dtype::F32, factor, sv.at3(b, t, h));
                &&& next is Recur
                &&& next->Recur_layer == pass.step->Activate_layer
                &&& next->Recur_hidden == pass.step->Activate_hidden
                &&& next->Recur_q == q
                &&& next->Recur_k == k
                &&& next->Recur_v == inputs.heads.v
                &&& next->Recur_z == inputs.z
                &&& next->Recur_cache == pass.step->Activate_cache
                &&& next->Recur_conv_dtype == dtype
                &&& next->Recur_recurrent_dtype == pass.step->Activate_recurrent_dtype
                &&& beta.dims == bv.dims && beta.dtype == bv.dtype && beta.elems.len()
                    == bv.elems.len()
                &&& 0 <= p < bv.elems.len() ==> beta.elems[p] == sigmoid_of(
                    bv.device,
                    bv.dtype,
                    bv.elems[p],
                )
                &&& g.dims == sv.dims && g.dtype == dtype
                &&& g.at3(b, t, h) == if dtype == Dtype::F32 {
                    product
                } else {
                    rounded(a.device, Dtype::F32, dtype, product)
                }
            }
        }),
{
    let layer = m.layers@[pass.step->Activate_layer as int].layer->Linear_0;
    assert(m.layers[pass.step->Activate_layer as int].wf());
    law_decay(layer, tensor_view(softplus), pass.step->Activate_conv_dtype, b, t, h);
    lemma_at1(tensor_view(layer.a), h);
}

/// What follows when the cache was stored: the layer's output is added to its input place by place, and
/// normalised next.
pub proof fn law_stored_step(m: ModelWeights, pass: Pass, r: Result<Pass, PassError>, p: int)
    requires
        m.wf(),
        pass.step.wf(m),
        pass.step is Store,
        call_ensures(ModelWeights::advance, (&m, pass, Reply::Stored), r),
    ensures
        ({
            let hidden = tensor_view(pass.step->Store_hidden);
            let attn = tensor_view(pass.step->Store_attn);
            &&& attn.dims == hidden.dims && attn.dtype.floating() && hidden.dtype.floating()
                ==> r is Ok
            &&& r is Ok ==> {
                let next = r->Ok_0.step;
                let x = tensor_view(next->FfnNorm_hidden);
                &&& next is FfnNorm
                &&& next->FfnNorm_layer == pass.step->Store_layer
                &&& x.dims == hidden.dims && x.dtype == hidden.dtype
                &&& 0 <= p < hidden.elems.len() ==> x.elems[p] == plus(
                    attn.device,
                    hidden.dtype,
                    rounded_elem(attn, hidden.dtype, attn.elems[p]),
                    hidden.elems[p],
                )
            }
        }),
{
    let hidden = tensor_view(pass.step->Store_hidden);
    if r is Ok && 0 <= p < hidden.elems.len() {
        lemma_residual(tensor_view(pass.step->Store_attn), hidden, p);
    }
}

/// What follows the second norm: with `inner` the SiLU of what `gate` makes of the normalised input times
/// what `up` makes of it, place by place, what `down` makes of that is added to the layer's input, and the
/// next layer is entered with the sum, or, after the last, it is normalised.
pub proof fn law_fed_step(
    m: ModelWeights,
    pass: Pass,
    normed: Tensor,
    r: Result<Pass, PassError>,
    inner: TensorView,
    p: int,
)
    requires
        m.wf(),
        pass.step.wf(m),
        pass.step is FfnNorm,
        tensor_view(normed).fits(),
        call_ensures(ModelWeights::advance, (&m, pass, Reply::Normed(normed)), r),
        ({
            let mlp = m.layers@[pass.step->FfnNorm_layer as int].mlp;
            let (g, u) = (
                mlp.gate.applied(tensor_view(normed)),
                mlp.up.applied(tensor_view(normed)),
            );
            &&& inner.dims == g.dims
            &&& inner.dtype == g.dtype
            &&& inner.device == g.device
            &&& inner.elems.len() == g.elems.len()
            &&& forall|p: int|
                0 <= p < g.elems.len() ==> #[trigger] inner.elems[p] == times(
                    g.device,
                    g.dtype,
                    silu_of(g.device, g.dtype, g.elems[p]),
                    u.elems[p],
                )
        }),
    ensures
        ({
            let mlp = m.layers@[pass.step->FfnNorm_layer as int].mlp;
            let layer = pass.step->FfnNorm_layer;
            let hidden = tensor_view(pass.step->FfnNorm_hidden);
            let mapped = mlp.down.applied(inner);
            &&& mlp.gate.ready(normed) && mlp.up.ready(normed) && mlp.gate.weight().dims[0]
                == mlp.up.weight().dims[0] && mlp.gate.applied(tensor_view(normed)).fits()
                && mlp.up.applied(tensor_view(normed)).fits() && mlp.down.takes(inner)
                && mapped.dims == hidden.dims && hidden.dtype.floating() ==> r is Ok
            &&& r is Ok ==> {
                let next = r->Ok_0.step;
                let x = tensor_view(next.stream());
                &&& if layer + 1 < m.layers@.len() {
                    next is Place && next->Place_layer == layer + 1
                } else {
                    next is OutputNorm
                }
                &&& mapped.dims == hidden.dims
                &&& x.dims == hidden.dims && x.dtype == hidden.dtype
                &&& 0 <= p < hidden.elems.len() ==> x.elems[p] == plus(
                    mapped.device,
                    hidden.dtype,
                    rounded_elem(mapped, hidden.dtype, mapped.elems[p]),
                    hidden.elems[p],
                )
            }
        }),
{
    let layer = pass.step->FfnNorm_layer;
    let mlp = m.layers@[layer as int].mlp;
    let hidden = tensor_view(pass.step->FfnNorm_hidden);
    lemma_fed(mlp, tensor_view(normed), inner);
    if r is Ok {
        assert(feeds(m, layer, pass.step->FfnNorm_hidden, normed, Ok(r->Ok_0.step)));
        assert(inner == mlp.inner(tensor_view(normed)));
        if 0 <= p < hidden.elems.len() {
            lemma_residual(mlp.down.applied(inner), hidden, p);
        }
    }
}

/// What follows when the cache of a layer with full attention was opened: queries, keys, values and gates, as
/// the layer's maps and heads make them of the normalised input, are to be rotated.
pub proof fn law_opened_full_step(
    m: ModelWeights,
    pass: Pass,
    r: Result<Pass, PassError>,
    b: int,
    t: int,
    h: int,
    g: int,
    d: int,
)
    requires
        m.wf(),
        pass.step.wf(m),
        pass.step is OpenCache,
        m.layers@[pass.step->OpenCache_layer as int].layer is Full,
        tensor_view(pass.step->OpenCache_normed).dims.len() == 3,
        call_ensures(ModelWeights::advance, (&m, pass, Reply::Opened(Slot::Attention)), r),
        0 <= b < tensor_view(pass.step->OpenCache_normed).dims[0],
        0 <= t < tensor_view(pass.step->OpenCache_normed).dims[1],
        0 <= h < m.layers@[pass.step->OpenCache_layer as int].layer->Full_0.n_head,
        0 <= g < m.layers@[pass.step->OpenCache_layer as int].layer->Full_0.n_kv_head,
        0 <= d < m.layers@[pass.step->OpenCache_layer as int].layer->Full_0.head_dim,
    ensures
        ({
            let a = m.layers@[pass.step->OpenCache_layer as int].layer->Full_0;
            let normed = pass.step->OpenCache_normed;
            let v = tensor_view(normed);
            let dim = a.head_dim as nat;
            let (heads, kv) = (a.n_head as nat, a.n_kv_head as nat);
            &&& v.dtype == Dtype::F32 && packed(normed) && a.q.weight().dims == seq![
                heads * (2 * dim),
                v.dims[2],
            ] && a.k.weight().dims == seq![kv * dim, v.dims[2]] && a.v.weight().dims == seq![
                kv * dim,
                v.dims[2],
            ] && extent(seq![v.dims[0], v.dims[1], heads * (2 * dim)]) <= MAX_ELEMENTS && extent(
                seq![v.dims[0], v.dims[1], kv * dim],
            ) <= MAX_ELEMENTS ==> r is Ok
            &&& r is Ok ==> {
                let next = r->Ok_0.step;
                let made = next->Rotate_heads;
                let (fused, ks, vs) = (a.q.applied(v), a.k.applied(v), a.v.applied(v));
                let (q, gate) = (tensor_view(made.q), tensor_view(made.gate));
                let (kh, vh) = (tensor_view(made.k), tensor_view(made.v));
                &&& next is Rotate
                &&& next->Rotate_layer == pass.step->OpenCache_layer
                &&& next->Rotate_hidden == pass.step->OpenCache_hidden
                &&& next->Rotate_dtype == v.dtype
                &&& q.dims == seq![v.dims[0], heads, v.dims[1], dim]
                &&& kh.dims == seq![v.dims[0], kv, v.dims[1], dim]
                &&& vh.dims == kh.dims
                &&& gate.dims == seq![v.dims[0], v.dims[1], heads * dim]
                &&& q.at4(b, h, t, d) == fused.at3(b, t, h * (2 * dim) + d)
                &&& gate.at3(b, t, h * dim + d) == fused.at3(b, t, h * (2 * dim) + dim + d)
                &&& kh.at4(b, g, t, d) == ks.at3(b, t, g * dim + d)
                &&& vh.at4(b, g, t, d) == vs.at3(b, t, g * dim + d)
            }
        }),
{
    let a = m.layers@[pass.step->OpenCache_layer as int].layer->Full_0;
    let v = tensor_view(pass.step->OpenCache_normed);
    let dim = a.head_dim as nat;
    lemma_mapped3(a.q.weight(), v);
    lemma_mapped3(a.k.weight(), v);
    lemma_mapped3(a.v.weight(), v);
    a.q.law_accepts_single();
    a.k.law_accepts_single();
    a.v.law_accepts_single();
    assert(a.n_head as nat * (2 * dim) == a.n_head * (a.head_dim * 2));
    if r is Ok {
        lemma_projected_at(a, v, r->Ok_0.step->Rotate_heads, b, t, h, g, d);
    }
}

/// What follows when the cache of a layer with linear attention was opened: the softplus is to be taken, and
/// queries and keys normalised, of what the layer makes of the normalised input and the cache. With
/// `products` the products of a channel's last inputs and the weights, which the convolution sums and
/// activates, that is the channel's number; queries come first among the channels, then keys and values.
pub proof fn law_opened_linear_step(
    m: ModelWeights,
    pass: Pass,
    c0: GdnLayerCache,
    r: Result<Pass, PassError>,
    layer: LinearAttention,
    x: TensorView,
    products: Seq<int>,
    b: int,
    t: int,
    h: int,
    d: int,
    e: int,
    c: int,
    i: int,
)
    requires
        m.wf(),
        pass.step.wf(m),
        pass.step is OpenCache,
        m.layers@[pass.step->OpenCache_layer as int].layer == LayerImpl::Linear(layer),
        x == tensor_view(pass.step->OpenCache_normed),
        x.dims.len() == 3,
        tensor_view(c0.conv_state).fits(),
        tensor_view(c0.recurrent_state).fits(),
        call_ensures(ModelWeights::advance, (&m, pass, Reply::Opened(Slot::Recurrent(c0))), r),
        layer.key_dim == layer.num_k_heads * layer.head_k_dim,
        layer.value_dim == layer.num_v_heads * layer.head_v_dim,
        layer.num_v_heads as int % layer.num_k_heads as int == 0,
        c0.seqlen_offset > 0 && x.dims[1] == 1 ==> {
            let held = tensor_view(c0.conv_state);
            &&& held.device == x.device
            &&& held.dims == seq![x.dims[0], (layer.key_dim * 2 + layer.value_dim) as nat, held.dims[2]]
            &&& held.dims[2] + 1 >= layer.conv_kernel_size
        },
        tensor_view(layer.dt_bias).fits(),
        tensor_view(layer.dt_bias).dims == seq![layer.num_v_heads as nat],
        0 <= b < x.dims[0],
        0 <= t < x.dims[1],
        0 <= h < layer.num_v_heads,
        0 <= d < layer.head_k_dim,
        0 <= e < layer.head_v_dim,
        0 <= c < layer.key_dim * 2 + layer.value_dim,
        products.len() == layer.conv_kernel_size,
        forall|j: int|
            0 <= j < products.len() ==> #[trigger] products[j] == {
                let mixed = layer.qkv.applied(x);
                let (w, held) = (tensor_view(layer.conv1d_weight), tensor_view(c0.conv_state));
                let k = layer.conv_kernel_size as int;
                let n = t - k + 1 + j;
                times(
                    mixed.device,
                    held.dtype,
                    if n >= 0 {
                        rounded_elem(mixed, held.dtype, mixed.at3(b, n, c))
                    } else if c0.seqlen_offset > 0 && mixed.dims[1] == 1 {
                        held.at3(b, c, held.dims[2] + n)
                    } else {
                        0
                    },
                    rounded_elem(w, held.dtype, w.at2(c, j)),
                )
            },
    ensures
        ({
            let n = layer.num_v_heads as nat;
            let channels = (layer.key_dim * 2 + layer.value_dim) as nat;
            let k = layer.conv_kernel_size as nat;
            let (w, bias) = (tensor_view(layer.conv1d_weight), tensor_view(layer.dt_bias));
            let width = if c0.seqlen_offset > 0 && x.dims[1] == 1 {
                tensor_view(c0.conv_state).dims[2]
            } else {
                (k - 1) as nat
            };
            &&& x.dtype == Dtype::F32
            &&& packed(pass.step->OpenCache_normed)
            &&& layer.qkv.weight().dims == seq![channels, x.dims[2]]
            &&& layer.z.weight().dims == seq![layer.value_dim as nat, x.dims[2]]
            &&& layer.beta.weight().dims == seq![n, x.dims[2]]
            &&& layer.alpha.weight().dims == seq![n, x.dims[2]]
            &&& w.dims == seq![channels, k] && w.dtype.floating()
            &&& bias.dtype.floating()
            &&& tensor_view(c0.conv_state).dtype.floating()
            &&& extent(seq![x.dims[0], x.dims[1], channels]) <= MAX_ELEMENTS
            &&& extent(seq![x.dims[0], channels, width + x.dims[1]]) <= MAX_ELEMENTS
            &&& extent(seq![x.dims[0], x.dims[1], n]) <= MAX_ELEMENTS
            &&& extent(seq![x.dims[0], x.dims[1], n, layer.head_k_dim as nat]) <= MAX_ELEMENTS
        }) ==> r is Ok,
        r is Ok ==> {
            let next = r->Ok_0.step;
            &&& next is Activate
            &&& next->Activate_layer == pass.step->OpenCache_layer
            &&& next->Activate_hidden == pass.step->OpenCache_hidden
            &&& next->Activate_cache.recurrent_state == c0.recurrent_state
            &&& next->Activate_cache.seqlen_offset == c0.seqlen_offset
            &&& next->Activate_conv_dtype == tensor_view(c0.conv_state).dtype
            &&& next->Activate_recurrent_dtype == tensor_view(c0.recurrent_state).dtype
            &&& {
                let mixed = layer.qkv.applied(x);
                let held = tensor_view(c0.conv_state);
                let after = tensor_view(next->Activate_cache.conv_state);
                let k = layer.conv_kernel_size as int;
                let value = silu_of(mixed.device, held.dtype, row_sum(mixed.device, held.dtype, products));
                let (q, key, v) = (
                    tensor_view(next->Activate_inputs.heads.q),
                    tensor_view(next->Activate_inputs.heads.k),
                    tensor_view(next->Activate_inputs.heads.v),
                );
                let (z, beta, biased) = (
                    tensor_view(next->Activate_inputs.z),
                    tensor_view(next->Activate_inputs.b),
                    tensor_view(next->Activate_inputs.biased),
                );
                let (dk, dv) = (layer.head_k_dim as nat, layer.head_v_dim as nat);
                let (batch, tokens, n) = (x.dims[0], x.dims[1], layer.num_v_heads as nat);
                let g = h % layer.num_k_heads as int;
                let (alpha, bias) = (layer.alpha.applied(x), tensor_view(layer.dt_bias));
                let goes_on = c0.seqlen_offset > 0 && tokens == 1;
                let width = if goes_on {
                    held.dims[2] as int
                } else {
                    k
                };
                let last = tokens - width + i;
                &&& q.dims == seq![batch, tokens, n, dk]
                &&& key.dims == seq![batch, tokens, n, dk]
                &&& v.dims == seq![batch, tokens, n, dv]
                &&& z.dims == seq![batch, tokens, n, dv]
                &&& beta.dims == seq![batch, tokens, n]
                &&& biased.dims == seq![batch, tokens, n]
                &&& q.dtype == held.dtype && key.dtype == held.dtype && v.dtype == held.dtype
                &&& biased.dtype == Dtype::F32
                &&& z.dtype == x.dtype && beta.dtype == x.dtype
                &&& c == g * dk + d ==> q.at4(b, t, h, d) == value
                &&& c == layer.key_dim + g * dk + d ==> key.at4(b, t, h, d) == value
                &&& c == layer.key_dim * 2 + h * dv + e ==> v.at4(b, t, h, e) == value
                &&& z.at4(b, t, h, e) == layer.z.applied(x).at3(b, t, h * dv + e)
                &&& beta.at3(b, t, h) == layer.beta.applied(x).at3(b, t, h)
                &&& biased.at3(b, t, h) == plus(
                    alpha.device,
                    Dtype::F32,
                    rounded_elem(alpha, Dtype::F32, alpha.at3(b, t, h)),
                    rounded_elem(bias, Dtype::F32, bias.elems[h]),
                )
                &&& after.dims == seq![
                    batch,
                    (layer.key_dim * 2 + layer.value_dim) as nat,
                    width as nat,
                ]
                &&& after.dtype == held.dtype
                &&& 0 <= i < width ==> after.at3(b, c, i) == if last >= 0 {
                    rounded_elem(mixed, held.dtype, mixed.at3(b, last, c))
                } else if goes_on {
                    held.at3(b, c, held.dims[2] + last)
                } else {
                    0
                }
            }
        },
{
    assert(m.layers[pass.step->OpenCache_layer as int].wf());
    let (nk, dk) = (layer.num_k_heads as int, layer.head_k_dim as int);
    let (nv, dv) = (layer.num_v_heads as int, layer.head_v_dim as int);
    assert(nk * dk > 0 && nv * dv > 0) by (nonlinear_arith)
        requires
            nk > 0,
            dk > 0,
            nv > 0,
            dv > 0,
    ;
    let w = tensor_view(layer.conv1d_weight);
    let channels = (layer.key_dim * 2 + layer.value_dim) as nat;
    let width = if c0.seqlen_offset > 0 && x.dims[1] == 1 {
        tensor_view(c0.conv_state).dims[2]
    } else {
        (layer.conv_kernel_size - 1) as nat
    };
    let normed = pass.step->OpenCache_normed;
    if x.dtype == Dtype::F32 && packed(normed) && layer.qkv.weight().dims == seq![
        channels,
        x.dims[2],
    ] && layer.z.weight().dims == seq![layer.value_dim as nat, x.dims[2]]
        && layer.beta.weight().dims == seq![layer.num_v_heads as nat, x.dims[2]]
        && layer.alpha.weight().dims == seq![layer.num_v_heads as nat, x.dims[2]] && w.dims == seq![
        channels,
        layer.conv_kernel_size as nat,
    ] && w.dtype.floating() && tensor_view(layer.dt_bias).dtype.floating() && tensor_view(
        c0.conv_state,
    ).dtype.floating() && extent(seq![x.dims[0], x.dims[1], channels]) <= MAX_ELEMENTS && extent(
        seq![x.dims[0], channels, width + x.dims[1]],
    ) <= MAX_ELEMENTS && extent(seq![x.dims[0], x.dims[1], layer.num_v_heads as nat])
        <= MAX_ELEMENTS && extent(
        seq![x.dims[0], x.dims[1], layer.num_v_heads as nat, layer.head_k_dim as nat],
    ) <= MAX_ELEMENTS {
        lemma_layer_takes(layer, normed, c0);
    }
    if r is Ok {
        let next = r->Ok_0.step;
        lemma_forwarded_at(
            layer,
            x,
            c0,
            next->Activate_cache,
            next->Activate_inputs,
            products,
            b,
            t,
            h,
            d,
            e,
            c,
            i,
        );
    }
}

/// What follows the recurrence: with `rows` the heads' outputs, normalised and gated, in single precision,
/// what `out` makes of them is the layer's output, in the type of the recurrence's; and the cache that is
/// stored holds the new state and the convolution state in their own types, and counts the tokens.
pub proof fn law_recurred_step(
    m: ModelWeights,
    pass: Pass,
    y: Tensor,
    state: Tensor,
    r: Result<Pass, PassError>,
    layer: LinearAttention,
    z: TensorView,
    rows: TensorView,
    p: int,
)
    requires
        m.wf(),
        pass.step.wf(m),
        pass.step is Recur,
        m.layers@[pass.step->Recur_layer as int].layer == LayerImpl::Linear(layer),
        z == tensor_view(pass.step->Recur_z),
        tensor_view(y).fits(),
        tensor_view(state).fits(),
        tensor_view(y).dims.len() == 4,
        z.dims == tensor_view(y).dims,
        tensor_view(y).dims[2] == layer.num_v_heads,
        tensor_view(y).dims[3] == layer.head_v_dim,
        layer.value_dim == layer.num_v_heads * layer.head_v_dim,
        tensor_view(layer.norm.weight).fits(),
        tensor_view(layer.norm.weight).dims == seq![layer.head_v_dim as nat],
        tensor_view(y).device == z.device == tensor_view(layer.norm.weight).device,
        product(tensor_view(y).dims) > 0,
        call_ensures(ModelWeights::advance, (&m, pass, Reply::Recurred { y, state }), r),
        rows.dims == seq![
            tensor_view(y).dims[0],
            tensor_view(y).dims[1],
            layer.value_dim as nat,
        ],
        rows.dtype == Dtype::F32,
        rows.device == tensor_view(y).device,
        rows.elems.len() == product(rows.dims),
        forall|b: int, t: int, c: int|
            0 <= b < rows.dims[0] && 0 <= t < rows.dims[1] && 0 <= c < rows.dims[2]
                ==> #[trigger] rows.at3(b, t, c) == {
                let (h, d) = (
                    c / tensor_view(y).dims[3] as int,
                    c % tensor_view(y).dims[3] as int,
                );
                let v = {
            let weight = tensor_view(layer.norm.weight);
            let single = Dtype::F32;
            let squares = Seq::new(
                tensor_view(y).dims[3],
                |j: int|
                    squared(
                        tensor_view(y).device,
                        single,
                        rounded_elem(tensor_view(y), single, tensor_view(y).at4(b, t, h, j)),
                    ),
            );
            let rms = root(
                tensor_view(y).device,
                single,
                shifted(
                    tensor_view(y).device,
                    single,
                    row_mean(tensor_view(y).device, single, squares),
                    layer.norm.eps,
                ),
            );
            let n = times(
                tensor_view(y).device,
                single,
                times(
                    tensor_view(y).device,
                    single,
                    over(
                        tensor_view(y).device,
                        single,
                        rounded_elem(tensor_view(y), single, tensor_view(y).at4(b, t, h, d)),
                        rms,
                    ),
                    rounded_elem(weight, single, weight.elems[d]),
                ),
                silu_of(tensor_view(y).device, single, rounded_elem(z, single, z.at4(b, t, h, d))),
            );
            if tensor_view(y).dtype == single {
                n
            } else {
                rounded(tensor_view(y).device, single, tensor_view(y).dtype, n)
            }
        };
                if tensor_view(y).dtype == Dtype::F32 {
                    v
                } else {
                    rounded(tensor_view(y).device, tensor_view(y).dtype, Dtype::F32, v)
                }
            },
    ensures
        ({
            let cache = pass.step->Recur_cache;
            let (conv, cd) = (tensor_view(cache.conv_state), pass.step->Recur_conv_dtype);
            let (new, rd) = (tensor_view(state), pass.step->Recur_recurrent_dtype);
            let mapped = layer.out.applied(rows);
            &&& tensor_view(y).dtype.floating() && z.dtype.floating() && tensor_view(
                layer.norm.weight,
            ).dtype.floating() && layer.out.takes(rows) && cache.seqlen_offset + z.dims[1]
                <= usize::MAX && conv.dtype.floating() && cd.floating() && new.dtype.floating()
                && rd.floating() ==> r is Ok
            &&& r is Ok ==> {
                let next = r->Ok_0.step;
                let attn = tensor_view(next->Store_attn);
                let kept = next->Store_cache;
                let (kc, ks) = (tensor_view(kept.conv_state), tensor_view(kept.recurrent_state));
                &&& next is Store
                &&& next->Store_layer == pass.step->Recur_layer
                &&& next->Store_hidden == pass.step->Recur_hidden
                &&& attn.dims == mapped.dims && attn.dtype == tensor_view(y).dtype
                &&& 0 <= p < mapped.elems.len() ==> attn.elems[p] == rounded_elem(
                    mapped,
                    tensor_view(y).dtype,
                    mapped.elems[p],
                )
                &&& kept.seqlen_offset == cache.seqlen_offset + z.dims[1]
                &&& kc.dims == conv.dims && kc.dtype == cd
                &&& 0 <= p < conv.elems.len() ==> kc.elems[p] == rounded_elem(
                    conv,
                    cd,
                    conv.elems[p],
                )
                &&& ks.dims == new.dims && ks.dtype == rd
                &&& 0 <= p < new.elems.len() ==> ks.elems[p] == rounded_elem(new, rd, new.elems[p])
            }
        }),
{
    lemma_single_rows(layer, tensor_view(y), z, rows);
}

} // verus!
