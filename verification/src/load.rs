//! The layers of a model, made from the tensors of its file.
use vstd::prelude::*;
use candle_core::quantized::QTensor;
use crate::attention::FullAttention;
use crate::candle::{converted, is, loadable, qtensor_view, rounded, tensor_packed, tensor_view};
use crate::error::ModelError;
use crate::linear::{dequantize, qmethod};
use crate::linear_attention::LinearAttention;
use crate::mlp::Mlp;
use crate::norm::RmsNormGated;
use crate::ops;
use crate::ops::reshapable;
use crate::plan::{lemma_channels, LoadPlan};
use crate::props::{lemma_quotient, PropsGGUF};
use crate::shape::{extent, lemma_position2, shape, MAX_ELEMENTS};
use crate::view::{Dtype, TensorView};

verus! {

/// The tensors of a layer with full attention, but for its norms.
pub struct FullTensors {
    pub q: QTensor,
    pub k: QTensor,
    pub v: QTensor,
    pub o: QTensor,
}

/// The tensors of a layer with linear attention.
pub struct LinearTensors {
    pub qkv: QTensor,
    pub z: QTensor,
    pub beta: QTensor,
    pub alpha: QTensor,
    pub conv1d: QTensor,
    pub dt_bias: QTensor,
    pub a: QTensor,
    pub norm: QTensor,
    pub out: QTensor,
}

/// The tensors of a feed-forward block.
pub struct MlpTensors {
    pub gate: QTensor,
    pub down: QTensor,
    pub up: QTensor,
}

impl LinearTensors {
    /// The numbers of the tensors that are not multiplied by can be had.
    pub open spec fn wf(self) -> bool {
        &&& loadable(self.conv1d)
        &&& loadable(self.dt_bias)
        &&& loadable(self.a)
        &&& loadable(self.norm)
    }
}

impl FullAttention {
    /// A layer with full attention; `dtype` is the type in which it keeps keys and values.
    pub fn load(props: &PropsGGUF, tensors: FullTensors, dtype: Dtype) -> (r: Result<
        FullAttention,
        ModelError,
    >)
        requires
            props.head_count_kv > 0,
        ensures
            match r {
                Ok(l) => {
                    &&& l.sound()
                    &&& l.q.made_from(tensors.q)
                    &&& l.k.made_from(tensors.k)
                    &&& l.v.made_from(tensors.v)
                    &&& l.o.made_from(tensors.o)
                    &&& l.n_head == props.head_count
                    &&& l.n_kv_head == props.head_count_kv
                    &&& l.head_dim == props.key_length
                    &&& l.n_kv_groups == props.head_count / props.head_count_kv
                    &&& l.dtype == dtype
                },
                Err(_) => false,
            },
    {
        let q = qmethod(tensors.q)?;
        let k = qmethod(tensors.k)?;
        let v = qmethod(tensors.v)?;
        let o = qmethod(tensors.o)?;
        Ok(
            FullAttention {
                q,
                k,
                v,
                o,
                n_head: props.head_count,
                n_kv_head: props.head_count_kv,
                head_dim: props.key_length,
                n_kv_groups: props.head_count / props.head_count_kv,
                dtype,
            },
        )
    }
}

/// The weight of the convolution: one row for each channel.
pub open spec fn conv_weight(props: PropsGGUF, conv1d: TensorView, dtype: Dtype) -> TensorView {
    converted(conv1d.reshaped(seq![props.conv_dim() as nat, props.conv_kernel as nat]), dtype)
}

impl LinearAttention {
    /// A layer with linear attention; `dtype` is the type in which it keeps the weight of the
    /// convolution.
    pub fn load(props: &PropsGGUF, tensors: LinearTensors, dtype: Dtype) -> (r: Result<
        LinearAttention,
        ModelError,
    >)
        requires
            tensors.wf(),
            props.plannable(),
        ensures
            ({
                let rows = seq![props.conv_dim() as nat, props.conv_kernel as nat];
                match r {
                    Ok(l) => {
                        &&& l.sound()
                        &&& reshapable(qtensor_view(tensors.conv1d), rows)
                        &&& l.qkv.made_from(tensors.qkv)
                        &&& l.z.made_from(tensors.z)
                        &&& l.beta.made_from(tensors.beta)
                        &&& l.alpha.made_from(tensors.alpha)
                        &&& l.out.made_from(tensors.out)
                        &&& is(
                            l.conv1d_weight,
                            conv_weight(*props, qtensor_view(tensors.conv1d), dtype),
                        )
                        &&& tensor_packed(l.conv1d_weight)
                        &&& is(l.dt_bias, qtensor_view(tensors.dt_bias))
                        &&& is(l.a, qtensor_view(tensors.a))
                        &&& is(l.norm.weight, qtensor_view(tensors.norm))
                        &&& l.norm.eps == props.rms_norm_eps
                        &&& l.num_k_heads == props.linear_num_key_heads
                        &&& l.num_v_heads == props.linear_num_value_heads
                        &&& l.head_k_dim == props.linear_key_head_dim
                        &&& l.head_v_dim == props.linear_value_head_dim
                        &&& l.conv_kernel_size == props.conv_kernel
                        &&& l.key_dim == props.key_dim()
                        &&& l.value_dim == props.value_dim()
                    },
                    Err(_) => !(reshapable(qtensor_view(tensors.conv1d), rows)
                        && dtype.floating()),
                }
            }),
    {
        proof {
            assert(props.key_dim() >= 0 && props.value_dim() >= 0) by (nonlinear_arith);
        }
        let key_dim: usize = props.linear_key_head_dim * props.linear_num_key_heads;
        let value_dim: usize = props.linear_value_head_dim * props.linear_num_value_heads;
        let conv_dim: usize = key_dim * 2 + value_dim;
        let qkv = qmethod(tensors.qkv)?;
        let z = qmethod(tensors.z)?;
        let beta = qmethod(tensors.beta)?;
        let alpha = qmethod(tensors.alpha)?;
        let raw = dequantize(&tensors.conv1d)?;
        let rows = vec![conv_dim, props.conv_kernel];
        proof {
            assert(shape(rows@) =~= seq![props.conv_dim() as nat, props.conv_kernel as nat]);
        }
        let shaped = ops::reshape(&raw, rows)?;
        let cast = ops::to_dtype(&shaped, dtype)?;
        let conv1d_weight = ops::contiguous(&cast)?;
        let dt_bias = dequantize(&tensors.dt_bias)?;
        let a = dequantize(&tensors.a)?;
        let weight = dequantize(&tensors.norm)?;
        let out = qmethod(tensors.out)?;
        Ok(
            LinearAttention {
                qkv,
                z,
                beta,
                alpha,
                conv1d_weight,
                dt_bias,
                a,
                norm: RmsNormGated { weight, eps: props.rms_norm_eps },
                out,
                num_k_heads: props.linear_num_key_heads,
                num_v_heads: props.linear_num_value_heads,
                head_k_dim: props.linear_key_head_dim,
                head_v_dim: props.linear_value_head_dim,
                conv_kernel_size: props.conv_kernel,
                key_dim,
                value_dim,
            },
        )
    }
}

impl Mlp {
    /// A feed-forward block.
    pub fn load(tensors: MlpTensors) -> (r: Result<Mlp, ModelError>)
        ensures
            match r {
                Ok(m) => {
                    &&& m.sound()
                    &&& m.gate.made_from(tensors.gate)
                    &&& m.down.made_from(tensors.down)
                    &&& m.up.made_from(tensors.up)
                },
                Err(_) => false,
            },
    {
        let gate = qmethod(tensors.gate)?;
        let down = qmethod(tensors.down)?;
        let up = qmethod(tensors.up)?;
        Ok(Mlp { gate, down, up })
    }
}

/// The caches that a plan lays out fit its layers with linear attention: the convolution state has
/// the layer's channels and as many columns as its kernel has places, and the recurrent state is one
/// matrix for each value head.
pub proof fn law_cache_fits_layer(plan: LoadPlan, layer: LinearAttention)
    requires
        plan.wf(),
        layer.key_dim == plan.props.key_dim(),
        layer.value_dim == plan.props.value_dim(),
        layer.conv_kernel_size == plan.props.conv_kernel,
        layer.num_v_heads == plan.props.linear_num_value_heads,
        layer.head_k_dim == plan.props.linear_key_head_dim,
        layer.head_v_dim == plan.props.linear_value_head_dim,
    ensures
        plan.cache.recurrent.conv_dim == layer.channels(),
        plan.cache.recurrent.conv_width == layer.conv_kernel_size,
        plan.cache.recurrent.state_dims@ == seq![
            layer.num_v_heads,
            layer.head_k_dim,
            layer.head_v_dim,
        ],
{
}

/// A layer with full attention has each map from its own tensor, and its heads from the properties; each key
/// head serves as many heads as there are for it, rounded down.
pub proof fn law_full_loaded(
    props: &PropsGGUF,
    tensors: FullTensors,
    dtype: Dtype,
    r: Result<FullAttention, ModelError>,
)
    requires
        props.head_count_kv > 0,
        call_ensures(FullAttention::load, (props, tensors, dtype), r),
    ensures
        call_requires(FullAttention::load, (props, tensors, dtype)),
        r is Ok,
        ({
            let l = r->Ok_0;
            &&& l.q.weight() == qtensor_view(tensors.q)
            &&& l.k.weight() == qtensor_view(tensors.k)
            &&& l.v.weight() == qtensor_view(tensors.v)
            &&& l.o.weight() == qtensor_view(tensors.o)
            &&& l.n_head == props.head_count
            &&& l.n_kv_head == props.head_count_kv
            &&& l.head_dim == props.key_length
            &&& l.n_kv_groups * props.head_count_kv <= props.head_count < (l.n_kv_groups + 1)
                * props.head_count_kv
            &&& l.dtype == dtype
        }),
{
    lemma_quotient(props.head_count as int, props.head_count_kv as int);
}

/// A layer with linear attention has each map and each vector from its own tensor, the weight of the
/// convolution as one row of the kernel's length for each channel, and its heads from the properties. It
/// can be made if that tensor has as many numbers as those rows.
pub proof fn law_linear_loaded(
    props: &PropsGGUF,
    tensors: LinearTensors,
    dtype: Dtype,
    r: Result<LinearAttention, ModelError>,
    p: int,
)
    requires
        loadable(tensors.conv1d),
        loadable(tensors.dt_bias),
        loadable(tensors.a),
        loadable(tensors.norm),
        props.block_count > 0 ==> props.full_attention_interval > 0,
        2 * (props.linear_num_key_heads * props.linear_key_head_dim) + props.linear_num_value_heads
            * props.linear_value_head_dim <= usize::MAX,
        call_ensures(LinearAttention::load, (props, tensors, dtype), r),
    ensures
        call_requires(LinearAttention::load, (props, tensors, dtype)),
        ({
            let channels = 2 * (props.linear_num_key_heads * props.linear_key_head_dim)
                + props.linear_num_value_heads * props.linear_value_head_dim;
            let rows = seq![channels as nat, props.conv_kernel as nat];
            let raw = qtensor_view(tensors.conv1d);
            &&& raw.elems.len() == channels * props.conv_kernel && extent(rows) <= MAX_ELEMENTS
                && dtype.floating() ==> r is Ok
            &&& r is Ok ==> {
                let l = r->Ok_0;
                let w = tensor_view(l.conv1d_weight);
                &&& l.qkv.weight() == qtensor_view(tensors.qkv)
                &&& l.z.weight() == qtensor_view(tensors.z)
                &&& l.beta.weight() == qtensor_view(tensors.beta)
                &&& l.alpha.weight() == qtensor_view(tensors.alpha)
                &&& l.out.weight() == qtensor_view(tensors.out)
                &&& tensor_view(l.dt_bias) == qtensor_view(tensors.dt_bias)
                &&& tensor_view(l.a) == qtensor_view(tensors.a)
                &&& tensor_view(l.norm.weight) == qtensor_view(tensors.norm)
                &&& w.dims == rows
                &&& w.dtype == dtype
                &&& w.device == raw.device
                &&& raw.elems.len() == channels * props.conv_kernel
                &&& 0 <= p < raw.elems.len() ==> w.elems[p] == if raw.dtype == dtype {
                    raw.elems[p]
                } else {
                    rounded(raw.device, raw.dtype, dtype, raw.elems[p])
                }
                &&& l.norm.eps == props.rms_norm_eps
                &&& l.num_k_heads == props.linear_num_key_heads
                &&& l.num_v_heads == props.linear_num_value_heads
                &&& l.head_k_dim == props.linear_key_head_dim
                &&& l.head_v_dim == props.linear_value_head_dim
                &&& l.conv_kernel_size == props.conv_kernel
                &&& l.key_dim == props.linear_num_key_heads * props.linear_key_head_dim
                &&& l.value_dim == props.linear_num_value_heads * props.linear_value_head_dim
            }
        }),
{
    lemma_channels(*props);
    let channels = props.conv_dim() as nat;
    assert(props.linear_num_key_heads * props.linear_key_head_dim == props.key_dim())
        by (nonlinear_arith)
        requires
            props.key_dim() == props.linear_key_head_dim * props.linear_num_key_heads,
    ;
    assert(props.linear_num_value_heads * props.linear_value_head_dim == props.value_dim())
        by (nonlinear_arith)
        requires
            props.value_dim() == props.linear_value_head_dim * props.linear_num_value_heads,
    ;
    lemma_position2(channels, props.conv_kernel as nat, 0, 0);
}

/// A feed-forward block has each map from its own tensor.
pub proof fn law_block_loaded(tensors: MlpTensors, r: Result<Mlp, ModelError>)
    requires
        call_ensures(Mlp::load, (tensors,), r),
    ensures
        call_requires(Mlp::load, (tensors,)),
        r is Ok,
        r->Ok_0.gate.weight() == qtensor_view(tensors.gate),
        r->Ok_0.down.weight() == qtensor_view(tensors.down),
        r->Ok_0.up.weight() == qtensor_view(tensors.up),
{
}

} // verus!
