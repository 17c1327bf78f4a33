//! The model: its weights, made from the tensors of its file.
use vstd::prelude::*;
use candle_core::quantized::QTensor;
use candle_nn::Embedding;
use crate::attention::FullAttention;
use crate::candle;
use crate::candle::{
    embedding_offset, embedding_packed, embedding_table, embedding_width, loadable, qtensor_view,
};
use crate::error::ModelError;
use crate::linear::{dequantize, qmethod, Linear};
use crate::linear_attention::LinearAttention;
use crate::mlp::Mlp;
use crate::plan::{LayerType, LoadPlan};
use crate::view::Dtype;

verus! {

/// The attention of a layer.
pub enum LayerImpl {
    Full(FullAttention),
    Linear(LinearAttention),
}

/// The weights of a layer, but for its norms.
pub struct LayerWeights {
    pub layer: LayerImpl,
    pub mlp: Mlp,
}

impl LayerImpl {
    /// The kind of the layer.
    pub open spec fn layer_type(self) -> LayerType {
        match self {
            LayerImpl::Full(_) => LayerType::FullAttention,
            LayerImpl::Linear(_) => LayerType::LinearAttention,
        }
    }
}

impl LayerWeights {
    /// The weights are sound.
    pub open spec fn sound(self) -> bool {
        &&& self.mlp.sound()
        &&& match self.layer {
            LayerImpl::Full(a) => a.sound(),
            LayerImpl::Linear(a) => a.sound(),
        }
    }

    /// The weights are sound, and the layer can be run.
    pub open spec fn wf(self) -> bool {
        &&& self.mlp.wf()
        &&& match self.layer {
            LayerImpl::Full(a) => a.wf(),
            LayerImpl::Linear(a) => a.wf(),
        }
    }

    /// Whether a layer with sound weights can be run.
    pub fn is_runnable(&self) -> (r: bool)
        requires
            self.sound(),
        ensures
            r == self.wf(),
    {
        self.mlp.is_runnable() && match &self.layer {
            LayerImpl::Full(a) => a.is_runnable(),
            LayerImpl::Linear(a) => a.is_runnable(),
        }
    }
}

/// The weights of a model, but for its norms.
pub struct ModelWeights {
    pub tok_embeddings: Embedding,
    /// The numbers that a token is embedded as.
    pub embedding_length: usize,
    pub layers: Vec<LayerWeights>,
    pub output: Linear,
    pub max_seq_len: usize,
    /// The type in which attention is computed and caches are kept.
    pub dtype: Dtype,
}

impl ModelWeights {
    /// The weights are sound.
    pub open spec fn sound(self) -> bool {
        &&& embedding_table(self.tok_embeddings).fits()
        &&& embedding_table(self.tok_embeddings).dtype.floating()
        &&& embedding_packed(self.tok_embeddings)
        &&& embedding_offset(self.tok_embeddings) == 0
        &&& embedding_width(self.tok_embeddings) == self.embedding_length
        &&& self.output.sound()
        &&& forall|i: int| 0 <= i < self.layers.len() ==> (#[trigger] self.layers[i]).sound()
    }

    /// The weights are sound, and the model can be run.
    pub open spec fn wf(self) -> bool {
        &&& self.sound()
        &&& self.output.wf()
        &&& forall|i: int| 0 <= i < self.layers.len() ==> (#[trigger] self.layers[i]).wf()
    }

    /// Whether a model with sound weights can be run.
    pub fn is_runnable(&self) -> (r: bool)
        requires
            self.sound(),
        ensures
            r == self.wf(),
    {
        if !self.output.is_runnable() {
            return false;
        }
        let mut i: usize = 0;
        while i < self.layers.len()
            invariant
                i <= self.layers.len(),
                self.sound(),
                forall|j: int| 0 <= j < i ==> (#[trigger] self.layers[j]).wf(),
            decreases self.layers.len() - i,
        {
            assert(self.layers[i as int].sound());
            if !self.layers[i].is_runnable() {
                return false;
            }
            i = i + 1;
        }
        true
    }

    /// The model that a plan describes, made from its layers, its embedding table and the tensor of
    /// its output map.
    pub fn from_gguf(
        plan: &LoadPlan,
        embeddings: &QTensor,
        output: QTensor,
        layers: Vec<LayerWeights>,
        dtype: Dtype,
    ) -> (r: Result<ModelWeights, ModelError>)
        requires
            loadable(*embeddings),
            forall|i: int| 0 <= i < layers.len() ==> (#[trigger] layers[i]).sound(),
        ensures
            match r {
                Ok(m) => {
                    &&& plan.has_layers(layers@)
                    &&& m.sound()
                    &&& m.layers == layers
                    &&& embedding_table(m.tok_embeddings) == qtensor_view(*embeddings)
                    &&& m.embedding_length == plan.props.embedding_length
                    &&& m.output.made_from(output)
                    &&& m.max_seq_len == plan.props.max_seq_len
                    &&& m.dtype == dtype
                },
                Err(e) => !plan.has_layers(layers@) && e is WrongLayers,
            },
    {
        if layers.len() != plan.layer_types.len() {
            return Err(ModelError::WrongLayers);
        }
        let mut i: usize = 0;
        while i < layers.len()
            invariant
                i <= layers.len(),
                layers.len() == plan.layer_types.len(),
                forall|j: int|
                    0 <= j < i ==> (#[trigger] layers[j]).layer.layer_type()
                        == plan.layer_types[j],
            decreases layers.len() - i,
        {
            let same = match (&layers[i].layer, plan.layer_types[i]) {
                (LayerImpl::Full(_), LayerType::FullAttention) => true,
                (LayerImpl::Linear(_), LayerType::LinearAttention) => true,
                _ => false,
            };
            if !same {
                assert(layers@[i as int].layer.layer_type() != plan.layer_types[i as int]);
                return Err(ModelError::WrongLayers);
            }
            i = i + 1;
        }
        let table = dequantize(embeddings)?;
        let output = qmethod(output)?;
        Ok(
            ModelWeights {
                tok_embeddings: candle::new_embedding(table, plan.props.embedding_length),
                embedding_length: plan.props.embedding_length,
                layers,
                output,
                max_seq_len: plan.props.max_seq_len,
                dtype,
            },
        )
    }
}

impl LoadPlan {
    /// The layers are those of the plan, kind by kind.
    pub open spec fn has_layers(self, layers: Seq<LayerWeights>) -> bool {
        &&& layers.len() == self.layer_types.len()
        &&& forall|i: int|
            0 <= i < layers.len() ==> (#[trigger] layers[i]).layer.layer_type()
                == self.layer_types[i]
    }
}

/// A model is made if there are as many layers as the plan has, each of its kind; then it has those layers in
/// order, the numbers of its own tensor as the embedding table, the other as the weight of its output map,
/// and its sizes from the plan.
pub proof fn law_model_made(
    plan: &LoadPlan,
    embeddings: &QTensor,
    output: QTensor,
    layers: Vec<LayerWeights>,
    dtype: Dtype,
    r: Result<ModelWeights, ModelError>,
)
    requires
        loadable(*embeddings),
        forall|i: int| 0 <= i < layers@.len() ==> (#[trigger] layers@[i]).sound(),
        call_ensures(ModelWeights::from_gguf, (plan, embeddings, output, layers, dtype), r),
    ensures
        call_requires(ModelWeights::from_gguf, (plan, embeddings, output, layers, dtype)),
        r is Ok == (layers@.len() == plan.layer_types@.len() && forall|i: int|
            0 <= i < layers@.len() ==> (#[trigger] layers@[i].layer is Full) == (
            plan.layer_types@[i] == LayerType::FullAttention)),
        r is Err ==> r->Err_0 is WrongLayers,
        r is Ok ==> {
            let m = r->Ok_0;
            &&& m.sound()
            &&& m.layers == layers
            &&& embedding_table(m.tok_embeddings) == qtensor_view(*embeddings)
            &&& embedding_width(m.tok_embeddings) == plan.props.embedding_length
            &&& m.embedding_length == plan.props.embedding_length
            &&& m.output.weight() == qtensor_view(output)
            &&& m.max_seq_len == plan.props.max_seq_len
            &&& m.dtype == dtype
        },
{
    let fit = layers@.len() == plan.layer_types@.len() && forall|i: int|
        0 <= i < layers@.len() ==> (#[trigger] layers@[i].layer is Full) == (plan.layer_types@[i]
            == LayerType::FullAttention);
    if plan.has_layers(layers@) {
        assert forall|i: int| 0 <= i < layers@.len() implies (#[trigger] layers@[i].layer is Full)
            == (plan.layer_types@[i] == LayerType::FullAttention) by {
            assert(layers@[i].layer.layer_type() == plan.layer_types@[i]);
        }
    }
    if fit {
        assert forall|i: int| 0 <= i < layers@.len() implies (
        #[trigger] layers@[i]).layer.layer_type() == plan.layer_types@[i] by {
            assert((layers@[i].layer is Full) == (plan.layer_types@[i]
                == LayerType::FullAttention));
        }
    }
}

/// A model can be run if its output map and all its layers can be, and a layer if all its maps can be, the
/// numbers of its heads can be counted, and, with linear attention, there are key heads and the kernel is
/// not empty.
pub proof fn law_runnable(m: ModelWeights, r: bool)
    requires
        m.sound(),
        call_ensures(ModelWeights::is_runnable, (&m,), r),
    ensures
        call_requires(ModelWeights::is_runnable, (&m,)),
        r == (m.output.wf() && forall|i: int|
            0 <= i < m.layers@.len() ==> {
                let (w, mlp) = ((#[trigger] m.layers@[i]).layer, m.layers@[i].mlp);
                &&& mlp.gate.wf() && mlp.down.wf() && mlp.up.wf()
                &&& match w {
                    LayerImpl::Full(a) => a.q.wf() && a.k.wf() && a.v.wf() && a.o.wf() && 2
                        * a.head_dim <= usize::MAX && a.n_head * a.head_dim <= usize::MAX,
                    LayerImpl::Linear(a) => a.qkv.wf() && a.z.wf() && a.beta.wf() && a.alpha.wf()
                        && a.out.wf() && a.num_k_heads >= 1 && a.conv_kernel_size >= 1,
                }
            }),
{
    if r {
        assert forall|i: int| 0 <= i < m.layers@.len() implies {
            let (w, mlp) = ((#[trigger] m.layers@[i]).layer, m.layers@[i].mlp);
            &&& mlp.gate.wf() && mlp.down.wf() && mlp.up.wf()
            &&& match w {
                LayerImpl::Full(a) => a.q.wf() && a.k.wf() && a.v.wf() && a.o.wf() && 2
                    * a.head_dim <= usize::MAX && a.n_head * a.head_dim <= usize::MAX,
                LayerImpl::Linear(a) => a.qkv.wf() && a.z.wf() && a.beta.wf() && a.alpha.wf()
                    && a.out.wf() && a.num_k_heads >= 1 && a.conv_kernel_size >= 1,
            }
        } by {
            assert(m.layers[i].wf());
        }
    } else if m.output.wf() {
        let i = choose|i: int| 0 <= i < m.layers.len() && !(#[trigger] m.layers[i]).wf();
        assert(m.layers[i].sound());
        assert(m.layers@[i] == m.layers[i]);
    }
}

/// A block can be run if all its maps can be; an attention layer if besides the numbers of a head and of
/// all heads can be counted; a layer of linear attention if besides its maps it has key heads and a kernel;
/// and a layer as a whole if its block and its attention can be.
pub proof fn law_runnable_parts(
    mlp: Mlp,
    full: FullAttention,
    linear: LinearAttention,
    layer: LayerWeights,
    block_runs: bool,
    full_runs: bool,
    linear_runs: bool,
    layer_runs: bool,
)
    requires
        layer.mlp == mlp,
        layer.layer == LayerImpl::Full(full) || layer.layer == LayerImpl::Linear(linear),
        mlp.sound(),
        full.sound(),
        linear.sound(),
        call_ensures(Mlp::is_runnable, (&mlp,), block_runs),
        call_ensures(FullAttention::is_runnable, (&full,), full_runs),
        call_ensures(LinearAttention::is_runnable, (&linear,), linear_runs),
        call_ensures(LayerWeights::is_runnable, (&layer,), layer_runs),
    ensures
        call_requires(Mlp::is_runnable, (&mlp,)),
        call_requires(FullAttention::is_runnable, (&full,)),
        call_requires(LinearAttention::is_runnable, (&linear,)),
        call_requires(LayerWeights::is_runnable, (&layer,)),
        block_runs == (mlp.gate.wf() && mlp.down.wf() && mlp.up.wf()),
        full_runs == (full.q.wf() && full.k.wf() && full.v.wf() && full.o.wf() && 2 * full.head_dim
            <= usize::MAX && full.n_head * full.head_dim <= usize::MAX),
        linear_runs == (linear.qkv.wf() && linear.z.wf() && linear.beta.wf() && linear.alpha.wf()
            && linear.out.wf() && linear.num_k_heads >= 1 && linear.conv_kernel_size >= 1),
        layer_runs == (block_runs && if layer.layer is Full {
            full_runs
        } else {
            linear_runs
        }),
{
}

} // verus!
