//! What a model file has to hold, and how the caches are laid out.
use vstd::prelude::*;
use crate::error::ModelError;
use crate::metadata::{architecture, scalar_bits, verify_qwen35_arch, MetaValue, Metadata};
use crate::props::{
    law_default_rotary, lemma_quotient, nearest_single, read_fields, required_fields, ContentMetadata,
    PropsGGUF,
};

verus! {

/// The kinds of layers.
#[derive(Clone, Copy, Debug, PartialEq, Eq, Structural)]
pub enum LayerType {
    FullAttention,
    LinearAttention,
}

/// The kinds of layer caches.
#[derive(Clone, Copy, Debug, PartialEq, Eq, Structural)]
pub enum HybridLayerType {
    Attention,
    Recurrent,
}

/// The kind of layer `i`: every `interval`-th layer has full attention.
pub open spec fn layer_type(i: int, interval: int) -> LayerType {
    if (i + 1) % interval == 0 {
        LayerType::FullAttention
    } else {
        LayerType::LinearAttention
    }
}

/// The kind of cache that a layer works on.
pub open spec fn cache_type(t: LayerType) -> HybridLayerType {
    match t {
        LayerType::FullAttention => HybridLayerType::Attention,
        LayerType::LinearAttention => HybridLayerType::Recurrent,
    }
}

/// The kinds of all layers.
pub fn layer_types(block_count: usize, interval: usize) -> (r: Vec<LayerType>)
    requires
        block_count > 0 ==> interval > 0,
    ensures
        r.len() == block_count,
        forall|i: int|
            0 <= i < block_count ==> #[trigger] r[i] == layer_type(i, interval as int),
{
    let mut types: Vec<LayerType> = Vec::new();
    let mut i: usize = 0;
    while i < block_count
        invariant
            i <= block_count,
            block_count > 0 ==> interval > 0,
            types.len() == i,
            forall|j: int| 0 <= j < i ==> #[trigger] types[j] == layer_type(j, interval as int),
        decreases block_count - i,
    {
        types.push(
            if (i + 1) % interval == 0 {
                LayerType::FullAttention
            } else {
                LayerType::LinearAttention
            },
        );
        i = i + 1;
    }
    types
}

/// How many of the first `n` layers have full attention.
pub open spec fn full_layers(n: nat, interval: int) -> nat
    decreases n,
{
    if n == 0 {
        0
    } else {
        full_layers((n - 1) as nat, interval) + if layer_type(n - 1, interval)
            == LayerType::FullAttention {
            1nat
        } else {
            0
        }
    }
}

/// One layer in `interval` has full attention.
pub proof fn law_full_layers(n: nat, interval: int)
    requires
        interval > 0,
    ensures
        full_layers(n, interval) == n as int / interval,
    decreases n,
{
    if n == 0 {
        assert(0int / interval == 0) by (nonlinear_arith)
            requires
                interval > 0,
        ;
    } else {
        law_full_layers((n - 1) as nat, interval);
        let m = n as int;
        if m % interval == 0 {
            assert(m / interval == (m - 1) / interval + 1) by (nonlinear_arith)
                requires
                    interval > 0,
                    m % interval == 0,
            ;
        } else {
            assert(m / interval == (m - 1) / interval) by (nonlinear_arith)
                requires
                    interval > 0,
                    m % interval != 0,
            ;
        }
    }
}

/// The layers with full attention are the last of each run of `interval` layers.
pub proof fn law_full_layer_places(i: int, interval: int)
    requires
        interval > 0,
        i >= 0,
    ensures
        layer_type(i, interval) == LayerType::FullAttention <==> i == (i / interval) * interval
            + interval - 1,
{
    assert((i + 1) % interval == 0 <==> i == (i / interval) * interval + interval - 1)
        by (nonlinear_arith)
        requires
            interval > 0,
            i >= 0,
    ;
}

/// The properties of a model, unless paged attention is asked for, which it does not support.
pub fn read_props(metadata: &Metadata, paged_attention: bool) -> (r: Result<PropsGGUF, ModelError>)
    requires
        paged_attention || (ContentMetadata { path_prefix: "qwen35", metadata }).divisible(),
    ensures
        ({
            let c = ContentMetadata { path_prefix: "qwen35", metadata };
            match r {
                Ok(p) => {
                    &&& !paged_attention
                    &&& architecture(metadata@) == Some("qwen35"@)
                    &&& c.complete()
                    &&& c.readable_up_to(read_fields().len() as int)
                    &&& c.describes(p)
                },
                Err(ModelError::PagedAttention) => paged_attention,
                Err(ModelError::WrongArchitecture(arch)) => {
                    &&& !paged_attention
                    &&& architecture(metadata@) == Some(arch@)
                    &&& arch@ != "qwen35"@
                },
                Err(ModelError::MissingArchitecture) => {
                    &&& !paged_attention
                    &&& architecture(metadata@) is None
                },
                Err(ModelError::MissingKeys) => {
                    &&& !paged_attention
                    &&& architecture(metadata@) == Some("qwen35"@)
                    &&& !c.complete()
                },
                Err(ModelError::InvalidValue(k)) => {
                    &&& !paged_attention
                    &&& architecture(metadata@) == Some("qwen35"@)
                    &&& c.complete()
                    &&& exists|i: int|
                        0 <= i < read_fields().len() && c.readable_up_to(i) && !(
                        #[trigger] c.readable(i)) && k@ == c.key_of(read_fields()[i])
                },
                Err(_) => false,
            }
        }),
{
    if paged_attention {
        return Err(ModelError::PagedAttention);
    }
    let _arch = verify_qwen35_arch(metadata)?;
    PropsGGUF::try_from(ContentMetadata { path_prefix: "qwen35", metadata })
}

/// How the state of a linear attention layer is laid out.
pub struct RecurrentLayerConfig {
    pub conv_dim: usize,
    pub conv_width: usize,
    pub state_dims: Vec<usize>,
}

/// How the caches of all layers are laid out.
pub struct HybridCacheConfig {
    pub layer_types: Vec<HybridLayerType>,
    pub max_seq_len: usize,
    pub recurrent: RecurrentLayerConfig,
}

impl PropsGGUF {
    /// The numbers of all key heads.
    pub open spec fn key_dim(self) -> int {
        self.linear_key_head_dim * self.linear_num_key_heads
    }

    /// The numbers of all value heads.
    pub open spec fn value_dim(self) -> int {
        self.linear_value_head_dim * self.linear_num_value_heads
    }

    /// The channels of the convolution: queries, keys and values.
    pub open spec fn conv_dim(self) -> int {
        self.key_dim() * 2 + self.value_dim()
    }

    /// The layers can be told apart and the channels of the convolution can be counted.
    pub open spec fn plannable(self) -> bool {
        &&& self.block_count > 0 ==> self.full_attention_interval > 0
        &&& self.conv_dim() <= usize::MAX
    }

    /// Whether the layers can be told apart and the channels of the convolution can be counted.
    pub fn is_plannable(&self) -> (r: bool)
        ensures
            r == self.plannable(),
    {
        if self.block_count > 0 && self.full_attention_interval == 0 {
            return false;
        }
        let key = self.linear_key_head_dim.checked_mul(self.linear_num_key_heads);
        let value = self.linear_value_head_dim.checked_mul(self.linear_num_value_heads);
        proof {
            assert(self.key_dim() >= 0 && self.value_dim() >= 0) by (nonlinear_arith);
        }
        match (key, value) {
            (Some(k), Some(v)) => k <= usize::MAX / 2 && v <= usize::MAX - k * 2,
            _ => false,
        }
    }
}

/// The cache layout of a model.
pub open spec fn lays_out(c: HybridCacheConfig, p: PropsGGUF) -> bool {
    &&& c.layer_types.len() == p.block_count
    &&& forall|i: int|
        0 <= i < p.block_count ==> #[trigger] c.layer_types[i] == cache_type(
            layer_type(i, p.full_attention_interval as int),
        )
    &&& c.max_seq_len == p.max_seq_len
    &&& c.recurrent.conv_dim == p.conv_dim()
    &&& c.recurrent.conv_width == p.conv_kernel
    &&& c.recurrent.state_dims@ == seq![
        p.linear_num_value_heads,
        p.linear_key_head_dim,
        p.linear_value_head_dim,
    ]
}

/// What is to be loaded, and how the caches are to be laid out.
pub struct LoadPlan {
    pub props: PropsGGUF,
    pub layer_types: Vec<LayerType>,
    pub cache: HybridCacheConfig,
}

impl LoadPlan {
    /// The plan fits the properties in it.
    pub open spec fn wf(self) -> bool {
        &&& self.props.plannable()
        &&& self.layer_types.len() == self.props.block_count
        &&& forall|i: int|
            0 <= i < self.props.block_count ==> #[trigger] self.layer_types[i] == layer_type(
                i,
                self.props.full_attention_interval as int,
            )
        &&& lays_out(self.cache, self.props)
    }

    /// The plan for a model with the given properties.
    pub fn new(props: PropsGGUF) -> (r: LoadPlan)
        requires
            props.plannable(),
        ensures
            r.wf(),
            r.props == props,
    {
        let types = layer_types(props.block_count, props.full_attention_interval);
        let mut kinds: Vec<HybridLayerType> = Vec::new();
        let mut i: usize = 0;
        while i < types.len()
            invariant
                i <= types.len(),
                kinds.len() == i,
                forall|j: int| 0 <= j < i ==> #[trigger] kinds[j] == cache_type(types[j]),
            decreases types.len() - i,
        {
            kinds.push(
                match types[i] {
                    LayerType::FullAttention => HybridLayerType::Attention,
                    LayerType::LinearAttention => HybridLayerType::Recurrent,
                },
            );
            i = i + 1;
        }
        proof {
            assert(props.key_dim() >= 0 && props.value_dim() >= 0) by (nonlinear_arith);
        }
        let conv_dim: usize = props.linear_key_head_dim * props.linear_num_key_heads * 2
            + props.linear_value_head_dim * props.linear_num_value_heads;
        let cache = HybridCacheConfig {
            layer_types: kinds,
            max_seq_len: props.max_seq_len,
            recurrent: RecurrentLayerConfig {
                conv_dim,
                conv_width: props.conv_kernel,
                state_dims: vec![
                    props.linear_num_value_heads,
                    props.linear_key_head_dim,
                    props.linear_value_head_dim,
                ],
            },
        };
        LoadPlan { props, layer_types: types, cache }
    }
}

/// What the properties of a model are: each is the value under its own key, or its default, as those of any
/// metadata are; and paged attention is refused.
pub proof fn law_model_properties(
    metadata: &Metadata,
    paged_attention: bool,
    r: Result<PropsGGUF, ModelError>,
)
    requires
        call_ensures(read_props, (metadata, paged_attention), r),
    ensures
        paged_attention ==> r is Err && r->Err_0 is PagedAttention,
        ({
            let whole = |field: Seq<char>|
                metadata@.contains_key("qwen35"@ + "."@ + field) && metadata@["qwen35"@ + "."@
                    + field] is U32;
            let eps = "qwen35"@ + "."@ + "attention.layer_norm_rms_epsilon"@;
            &&& !paged_attention
            &&& metadata@.contains_key("general.architecture"@)
            &&& metadata@["general.architecture"@] == MetaValue::Text("qwen35"@)
            &&& metadata@.contains_key("qwen35"@ + "."@ + "feed_forward_length"@)
            &&& metadata@.contains_key(eps)
            &&& metadata@[eps] is Single
            &&& whole("embedding_length"@)
            &&& whole("attention.head_count"@)
            &&& whole("attention.head_count_kv"@)
            &&& whole("block_count"@)
            &&& whole("ssm.conv_kernel"@)
            &&& whole("ssm.state_size"@)
            &&& whole("ssm.group_count"@)
            &&& whole("ssm.time_step_rank"@)
            &&& whole("ssm.inner_size"@)
        }) ==> r is Ok,
        r is Ok ==> {
            let p = r->Ok_0;
            let at = |field: Seq<char>|
                if metadata@.contains_key("qwen35"@ + "."@ + field) {
                    Some(metadata@["qwen35"@ + "."@ + field])
                } else {
                    None
                };
            &&& metadata@.contains_key("general.architecture"@)
            &&& metadata@["general.architecture"@] == MetaValue::Text("qwen35"@)
            &&& at("embedding_length"@) matches Some(MetaValue::U32(n)) && p.embedding_length == n
            &&& at("attention.head_count"@) matches Some(MetaValue::U32(n)) && p.head_count == n
            &&& at("attention.head_count_kv"@) matches Some(MetaValue::U32(n)) && p.head_count_kv
                == n
            &&& at("block_count"@) matches Some(MetaValue::U32(n)) && p.block_count == n
            &&& at("attention.layer_norm_rms_epsilon"@) matches Some(MetaValue::Single(bits))
                && scalar_bits(p.rms_norm_eps) == bits
            &&& at("ssm.conv_kernel"@) matches Some(MetaValue::U32(n)) && p.conv_kernel == n
            &&& at("ssm.state_size"@) matches Some(MetaValue::U32(n)) && p.linear_key_head_dim == n
            &&& at("ssm.group_count"@) matches Some(MetaValue::U32(n)) && p.linear_num_key_heads
                == n
            &&& at("ssm.time_step_rank"@) matches Some(MetaValue::U32(n))
                && p.linear_num_value_heads == n
            &&& at("ssm.inner_size"@) matches Some(MetaValue::U32(n)) && (p.linear_num_value_heads > 0
                ==> p.linear_value_head_dim * p.linear_num_value_heads <= n < (
            p.linear_value_head_dim + 1) * p.linear_num_value_heads)
            &&& at("feed_forward_length"@) is Some
            &&& match at("context_length"@) {
                Some(MetaValue::U64(n)) => n <= usize::MAX ==> p.max_seq_len == n,
                Some(MetaValue::U32(n)) => p.max_seq_len == n,
                Some(MetaValue::U16(n)) => p.max_seq_len == n,
                Some(MetaValue::U8(n)) => p.max_seq_len == n,
                Some(MetaValue::Bool(b)) => p.max_seq_len == if b {
                    1int
                } else {
                    0
                },
                _ => p.max_seq_len == 4096,
            }
            &&& match at("rope.freq_base"@) {
                Some(MetaValue::Single(bits)) => p.rope_freq_base == bits,
                _ => p.rope_freq_base == 0x4B18_9680,
            }
            &&& match at("attention.key_length"@) {
                Some(MetaValue::U32(n)) => p.key_length == n,
                _ => p.head_count > 0 ==> p.key_length * p.head_count <= p.embedding_length < (
                p.key_length + 1) * p.head_count,
            }
            &&& match at("rope.dimension_count"@) {
                Some(MetaValue::U32(n)) => p.rope_dimension_count == n,
                _ => p.head_count > 0 ==> {
                    let each = p.embedding_length as int / p.head_count as int;
                    &&& each < 0x100_0000 ==> p.rope_dimension_count == each / 4
                    &&& p.rope_dimension_count == nearest_single(each as nat) as int / 4
                },
            }
            &&& match at("full_attention_interval"@) {
                Some(MetaValue::U32(n)) => p.full_attention_interval == n,
                _ => p.full_attention_interval == 4,
            }
            &&& match at("rope.dimension_sections"@) {
                Some(MetaValue::Items(items)) => if forall|i: int|
                    0 <= i < items.len() ==> #[trigger] items[i] is U32 {
                    &&& p.rope_dimension_sections@.len() == items.len()
                    &&& forall|i: int|
                        0 <= i < items.len() ==> #[trigger] items[i] == MetaValue::U32(
                            p.rope_dimension_sections@[i] as u32,
                        ) && p.rope_dimension_sections@[i] <= u32::MAX
                } else {
                    p.rope_dimension_sections@ == seq![11usize, 11, 10, 0]
                },
                _ => p.rope_dimension_sections@ == seq![11usize, 11, 10, 0],
            }
        },
{
    let c = ContentMetadata { path_prefix: "qwen35", metadata };
    if r is Err && r->Err_0 is InvalidValue {
        let e = choose|e: int|
            0 <= e < read_fields().len() && c.readable_up_to(e) && !(#[trigger] c.readable(e))
                && r->Err_0->InvalidValue_0@ == c.key_of(read_fields()[e]);
        assert(!c.readable(e));
    }
    if r is Ok {
        let p = r->Ok_0;
        assert(c.complete());
        assert(required_fields()[4] == "feed_forward_length"@);
        assert forall|i: int| 0 <= i < 10 implies #[trigger] c.readable(i) by {}
        assert(c.readable(0) && c.readable(1) && c.readable(2) && c.readable(3) && c.readable(4)
            && c.readable(5) && c.readable(6) && c.readable(7) && c.readable(8) && c.readable(9));
        if p.linear_num_value_heads > 0 {
            lemma_quotient(c.number("ssm.inner_size"@)->0 as int, p.linear_num_value_heads as int);
        }
        if p.head_count > 0 {
            lemma_quotient(p.embedding_length as int, p.head_count as int);
            let hd = p.embedding_length as int / p.head_count as int;
            if hd < 0x100_0000 {
                law_default_rotary(hd as nat);
            }
        }
        let key = c.key_of("rope.dimension_sections"@);
        if c.metadata@.contains_key(key) && c.metadata@[key] is Items {
            let items = c.metadata@[key]->Items_0;
            if forall|i: int| 0 <= i < items.len() ==> #[trigger] items[i] is U32 {
                assert forall|i: int| 0 <= i < items.len() implies (#[trigger] items[i]).as_u32() is Some by {
                    assert(items[i] is U32);
                }
                assert forall|i: int| 0 <= i < items.len() implies #[trigger] items[i] == MetaValue::U32(
                    p.rope_dimension_sections@[i] as u32,
                ) && p.rope_dimension_sections@[i] <= u32::MAX by {
                    assert(items[i] is U32);
                }
            } else {
                let i = choose|i: int| 0 <= i < items.len() && !(#[trigger] items[i] is U32);
                assert(items[i].as_u32() is None);
            }
        }
    }
}

/// The layers with full attention are those whose number, counted from one, is a multiple of the interval;
/// there are as many kinds as layers.
pub proof fn law_layer_kinds(block_count: usize, interval: usize, r: Vec<LayerType>, i: int)
    requires
        interval > 0,
        call_ensures(layer_types, (block_count, interval), r),
    ensures
        call_requires(layer_types, (block_count, interval)),
        r@.len() == block_count,
        0 <= i < block_count ==> r@[i] == (if (i + 1) % interval as int == 0 {
            LayerType::FullAttention
        } else {
            LayerType::LinearAttention
        }),
{
}

/// A plan keeps the properties; its layers are of the kinds that the interval gives, each with a cache of
/// its kind; and the states of the layers with linear attention have two channels for each number of a key
/// and one for each of a value, as many columns as the kernel has places, and a matrix of a key by a value
/// for each value head.
pub proof fn law_plan(props: PropsGGUF, r: LoadPlan, i: int)
    requires
        props.block_count > 0 ==> props.full_attention_interval > 0,
        2 * (props.linear_num_key_heads * props.linear_key_head_dim) + props.linear_num_value_heads
            * props.linear_value_head_dim <= usize::MAX,
        call_ensures(LoadPlan::new, (props,), r),
    ensures
        call_requires(LoadPlan::new, (props,)),
        r.props == props,
        r.layer_types@.len() == props.block_count,
        r.cache.layer_types@.len() == props.block_count,
        0 <= i < props.block_count && (i + 1) % props.full_attention_interval as int == 0
            ==> r.layer_types@[i]
            == LayerType::FullAttention && r.cache.layer_types@[i] == HybridLayerType::Attention,
        0 <= i < props.block_count && (i + 1) % props.full_attention_interval as int != 0
            ==> r.layer_types@[i]
            == LayerType::LinearAttention && r.cache.layer_types@[i] == HybridLayerType::Recurrent,
        r.cache.max_seq_len == props.max_seq_len,
        r.cache.recurrent.conv_dim == 2 * (props.linear_num_key_heads * props.linear_key_head_dim)
            + props.linear_num_value_heads * props.linear_value_head_dim,
        r.cache.recurrent.conv_width == props.conv_kernel,
        r.cache.recurrent.state_dims@ == seq![
            props.linear_num_value_heads,
            props.linear_key_head_dim,
            props.linear_value_head_dim,
        ],
{
    lemma_channels(props);
    if 0 <= i < props.block_count {
        assert(r.layer_types@[i] == layer_type(i, props.full_attention_interval as int));
        assert(r.cache.layer_types@[i] == cache_type(r.layer_types@[i]));
    }
}

/// The channels of the convolution, counted by heads.
pub proof fn lemma_channels(props: PropsGGUF)
    ensures
        props.conv_dim() == 2 * (props.linear_num_key_heads * props.linear_key_head_dim)
            + props.linear_num_value_heads * props.linear_value_head_dim,
{
    assert(props.linear_num_key_heads * props.linear_key_head_dim == props.linear_key_head_dim
        * props.linear_num_key_heads) by (nonlinear_arith);
    assert(props.linear_num_value_heads * props.linear_value_head_dim == props.linear_value_head_dim
        * props.linear_num_value_heads) by (nonlinear_arith);
}

/// A model can be planned if, where it has layers, the interval is not zero, and the channels of the
/// convolution can be counted.
pub proof fn law_plannable(props: PropsGGUF, r: bool)
    requires
        call_ensures(PropsGGUF::is_plannable, (&props,), r),
    ensures
        call_requires(PropsGGUF::is_plannable, (&props,)),
        r == ((props.block_count > 0 ==> props.full_attention_interval > 0) && 2 * (
        props.linear_num_key_heads * props.linear_key_head_dim) + props.linear_num_value_heads
            * props.linear_value_head_dim <= usize::MAX),
{
    lemma_channels(props);
}

} // verus!
