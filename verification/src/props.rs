//! The properties of a model, read from its metadata.
use vstd::prelude::*;
use vstd::arithmetic::div_mod::lemma_fundamental_div_mod;
use vstd::arithmetic::div_mod::lemma_fundamental_div_mod_converse;
use vstd::arithmetic::power2::{lemma2_to64, lemma_pow2_unfold, pow2};
use candle_core::scalar::Scalar;
use crate::error::ModelError;
use crate::metadata::{
    architecture, scalar_bits, single_at, u32_at, u32s_at, u64_at, verify_qwen35_arch, MetaValue, Metadata,
};

verus! {

pub const DEFAULT_MAX_SEQ_LEN: u64 = 4096;

pub const DEFAULT_FULL_ATTENTION_INTERVAL: usize = 4;

/// The bits of the single-precision number ten million.
pub const DEFAULT_ROPE_FREQ_BASE_BITS: u32 = 0x4B189680;

/// The sections of the rotary embedding, where the metadata gives none.
pub open spec fn default_sections() -> Seq<usize> {
    seq![11usize, 11usize, 10usize, 0usize]
}

/// The metadata of one architecture.
pub struct ContentMetadata<'a> {
    pub path_prefix: &'a str,
    pub metadata: &'a Metadata,
}

/// The key of a field of an architecture.
pub open spec fn key(prefix: Seq<char>, field: Seq<char>) -> Seq<char> {
    prefix + "."@ + field
}

impl<'a> ContentMetadata<'a> {
    /// The key of a field.
    pub open spec fn key_of(&self, field: Seq<char>) -> Seq<char> {
        key(self.path_prefix@, field)
    }

    /// The key of a field.
    fn full_key(&self, field: &str) -> (r: String)
        ensures
            r@ == self.key_of(field@),
    {
        let mut k = self.path_prefix.to_owned();
        k.append(".");
        k.append(field);
        k
    }

    /// That all fields are there, with values of whatever type.
    pub open spec fn has_fields(self, fields: Seq<&str>) -> bool {
        forall|i: int|
            0 <= i < fields.len() ==> self.metadata@.contains_key(
                self.key_of((#[trigger] fields[i])@),
            )
    }

    /// Whether all fields are there, with values of whatever type.
    pub fn has_required_keys(&self, fields: &Vec<&str>) -> (r: bool)
        ensures
            r == self.has_fields(fields@),
    {
        let mut i: usize = 0;
        while i < fields.len()
            invariant
                i <= fields.len(),
                forall|j: int|
                    0 <= j < i ==> self.metadata@.contains_key(
                        self.key_of((#[trigger] fields@[j])@),
                    ),
            decreases fields.len() - i,
        {
            let k = self.full_key(fields[i]);
            if !self.metadata.contains_key(k.as_str()) {
                assert(!self.metadata@.contains_key(self.key_of(fields@[i as int]@)));
                return false;
            }
            i = i + 1;
        }
        true
    }

    /// A 32-bit number that has to be there.
    pub fn get_u32(&self, field: &str) -> (r: Result<u32, ModelError>)
        ensures
            match r {
                Ok(n) => u32_at(self.metadata@, self.key_of(field@)) == Some(n),
                Err(ModelError::InvalidValue(k)) => k@ == self.key_of(field@) && u32_at(
                    self.metadata@,
                    k@,
                ) is None,
                Err(_) => false,
            },
    {
        let k = self.full_key(field);
        match self.metadata.get_u32(k.as_str()) {
            Some(n) => Ok(n),
            None => Err(ModelError::InvalidValue(k)),
        }
    }

    /// A single-precision number that has to be there.
    pub fn get_scalar(&self, field: &str) -> (r: Result<Scalar, ModelError>)
        ensures
            match r {
                Ok(s) => single_at(self.metadata@, self.key_of(field@)) == Some(scalar_bits(s)),
                Err(ModelError::InvalidValue(k)) => k@ == self.key_of(field@) && single_at(
                    self.metadata@,
                    k@,
                ) is None,
                Err(_) => false,
            },
    {
        let k = self.full_key(field);
        match self.metadata.get_scalar(k.as_str()) {
            Some(s) => Ok(s),
            None => Err(ModelError::InvalidValue(k)),
        }
    }
}

/// The distance of neighbouring single-precision numbers around `n`: the least power of two that
/// leaves a quotient of at most 24 bits.
pub open spec fn single_unit(n: nat) -> nat
    decreases n,
{
    if n < 0x100_0000 {
        1
    } else {
        2 * single_unit(n / 2)
    }
}

/// The single-precision number nearest to `n`; of two that are equally near, the one with an even
/// quotient.
pub open spec fn nearest_single(n: nat) -> nat {
    let unit = single_unit(n);
    let q = n / unit;
    let rest = n % unit;
    if 2 * rest > unit || (2 * rest == unit && q % 2 == 1) {
        (q + 1) * unit
    } else {
        q * unit
    }
}

/// The number of dimensions that are rotated, where the metadata gives none: a quarter of a head's,
/// computed in single precision and rounded down.
pub open spec fn default_rotary(head_dim: nat) -> nat {
    nearest_single(head_dim) / 4
}

/// For heads of less than 2 to the 24 dimensions, the default is a quarter of them, rounded down.
pub proof fn law_default_rotary(head_dim: nat)
    requires
        head_dim < 0x100_0000,
    ensures
        default_rotary(head_dim) == head_dim / 4,
{
    let unit = single_unit(head_dim);
    assert(head_dim / unit == head_dim && head_dim % unit == 0 && head_dim * unit == head_dim)
        by (nonlinear_arith)
        requires
            unit == 1,
    ;
}

proof fn lemma_unit(n: nat)
    ensures
        single_unit(n) >= 1,
        n < 0x100_0000 * single_unit(n),
        n >= 0x100_0000 ==> n >= 0x80_0000 * single_unit(n),
    decreases n,
{
    if n >= 0x100_0000 {
        lemma_unit(n / 2);
    }
}

/// The single-precision number nearest to `n`.
fn round_to_single(n: u32) -> (r: u64)
    ensures
        r == nearest_single(n as nat),
{
    let mut unit: u64 = 1;
    let mut m: u64 = n as u64;
    while m >= 0x100_0000
        invariant
            1 <= unit <= 0x1_0000_0000,
            m <= 0xffff_ffff,
            unit * single_unit(m as nat) == single_unit(n as nat),
            unit * m <= 0xffff_ffff,
        decreases m,
    {
        proof {
            let u = unit as int;
            let s = single_unit((m / 2) as nat) as int;
            assert(u * (2 * s) == (u * 2) * s) by (nonlinear_arith);
            assert((u * 2) * (m / 2) <= u * m) by (nonlinear_arith)
                requires
                    2 * (m / 2) <= m,
                    u >= 1,
            ;
            assert(u * 2 <= 0x1_0000_0000) by (nonlinear_arith)
                requires
                    u * m <= 0xffff_ffff,
                    m >= 0x100_0000,
                    u >= 1,
            ;
        }
        unit = unit * 2;
        m = m / 2;
    }
    proof {
        lemma_unit(n as nat);
        assert(single_unit(m as nat) == 1);
        assert(unit * single_unit(m as nat) == unit) by (nonlinear_arith)
            requires
                single_unit(m as nat) == 1,
        ;
    }
    let q: u64 = n as u64 / unit;
    let rest: u64 = n as u64 % unit;
    proof {
        let u = unit as int;
        assert(q * u <= n) by (nonlinear_arith)
            requires
                q == (n as int) / u,
                u >= 1,
        ;
        assert((q + 1) * u == q * u + u) by (nonlinear_arith);
    }
    if 2 * rest > unit || (2 * rest == unit && q % 2 == 1) {
        (q + 1) * unit
    } else {
        q * unit
    }
}

/// The properties of a model.
pub struct PropsGGUF {
    pub head_count: usize,
    pub head_count_kv: usize,
    pub block_count: usize,
    pub embedding_length: usize,
    pub rms_norm_eps: Scalar,
    pub max_seq_len: usize,
    /// The bits of a single-precision number.
    pub rope_freq_base: u32,
    pub rope_dimension_count: usize,
    pub rope_dimension_sections: Vec<usize>,
    pub key_length: usize,
    pub full_attention_interval: usize,
    pub conv_kernel: usize,
    pub linear_key_head_dim: usize,
    pub linear_value_head_dim: usize,
    pub linear_num_key_heads: usize,
    pub linear_num_value_heads: usize,
}

/// The fields that have to be there.
pub open spec fn required_fields() -> Seq<Seq<char>> {
    seq![
        "attention.head_count"@,
        "attention.head_count_kv"@,
        "block_count"@,
        "embedding_length"@,
        "feed_forward_length"@,
        "attention.layer_norm_rms_epsilon"@,
        "ssm.conv_kernel"@,
        "ssm.state_size"@,
        "ssm.group_count"@,
        "ssm.time_step_rank"@,
        "ssm.inner_size"@,
    ]
}

/// The fields whose values have to be right, in the order in which they are read.
pub open spec fn read_fields() -> Seq<Seq<char>> {
    seq![
        "embedding_length"@,
        "attention.head_count"@,
        "ssm.time_step_rank"@,
        "ssm.inner_size"@,
        "attention.head_count_kv"@,
        "block_count"@,
        "attention.layer_norm_rms_epsilon"@,
        "ssm.conv_kernel"@,
        "ssm.state_size"@,
        "ssm.group_count"@,
    ]
}

/// The place of the one field in that order that is not a 32-bit number but a single-precision one.
pub open spec fn epsilon_place() -> int {
    6
}

impl<'a> ContentMetadata<'a> {
    /// All required fields are there.
    pub open spec fn complete(&self) -> bool {
        forall|i: int|
            0 <= i < required_fields().len() ==> self.metadata@.contains_key(
                self.key_of(#[trigger] required_fields()[i]),
            )
    }

    /// The 32-bit number of a field, if it has one.
    pub open spec fn number(&self, field: Seq<char>) -> Option<u32> {
        u32_at(self.metadata@, self.key_of(field))
    }

    /// The `i`-th field that is read has a value of the right type.
    pub open spec fn readable(&self, i: int) -> bool {
        if i == epsilon_place() {
            single_at(self.metadata@, self.key_of(read_fields()[i])) is Some
        } else {
            self.number(read_fields()[i]) is Some
        }
    }

    /// The first `n` fields that are read have values of the right types.
    pub open spec fn readable_up_to(&self, n: int) -> bool {
        forall|i: int| 0 <= i < n ==> #[trigger] self.readable(i)
    }

    /// No division by zero comes up: where the value heads or the heads are divided by, there are
    /// some.
    pub open spec fn divisible(&self) -> bool {
        architecture(self.metadata@) == Some("qwen35"@) && self.complete() ==> {
            &&& self.readable_up_to(4) ==> self.number("ssm.time_step_rank"@) != Some(0u32)
            &&& self.readable_up_to(7) ==> self.number("attention.head_count"@) != Some(0u32)
        }
    }

    /// `p` holds the properties.
    pub open spec fn describes(&self, p: PropsGGUF) -> bool {
        let embed = self.number("embedding_length"@)->0 as int;
        let heads = self.number("attention.head_count"@)->0 as int;
        let values = self.number("ssm.time_step_rank"@)->0 as int;
        &&& p.embedding_length == embed
        &&& p.head_count == heads
        &&& p.linear_num_value_heads == values
        &&& p.linear_value_head_dim == self.number("ssm.inner_size"@)->0 as int / values
        &&& p.head_count_kv == self.number("attention.head_count_kv"@)->0
        &&& p.block_count == self.number("block_count"@)->0
        &&& Some(scalar_bits(p.rms_norm_eps)) == single_at(
            self.metadata@,
            self.key_of("attention.layer_norm_rms_epsilon"@),
        )
        &&& p.max_seq_len == match u64_at(self.metadata@, self.key_of("context_length"@)) {
            Some(n) => n as usize,
            None => DEFAULT_MAX_SEQ_LEN as usize,
        }
        &&& p.rope_freq_base == match single_at(self.metadata@, self.key_of("rope.freq_base"@)) {
            Some(bits) => bits,
            None => DEFAULT_ROPE_FREQ_BASE_BITS,
        }
        &&& p.rope_dimension_count == match self.number("rope.dimension_count"@) {
            Some(n) => n as int,
            None => default_rotary((embed / heads) as nat) as int,
        }
        &&& p.rope_dimension_sections@ == match u32s_at(
            self.metadata@,
            self.key_of("rope.dimension_sections"@),
        ) {
            Some(ns) => ns.map_values(|n: u32| n as usize),
            None => default_sections(),
        }
        &&& p.key_length == match self.number("attention.key_length"@) {
            Some(n) => n as int,
            None => embed / heads,
        }
        &&& p.full_attention_interval == match self.number("full_attention_interval"@) {
            Some(n) => n as int,
            None => DEFAULT_FULL_ATTENTION_INTERVAL as int,
        }
        &&& p.conv_kernel == self.number("ssm.conv_kernel"@)->0
        &&& p.linear_key_head_dim == self.number("ssm.state_size"@)->0
        &&& p.linear_num_key_heads == self.number("ssm.group_count"@)->0
    }
}

impl<'a> ContentMetadata<'a> {
    /// Whether all required fields are there.
    pub fn is_complete(&self) -> (r: bool)
        ensures
            r == self.complete(),
    {
        let fields: Vec<&str> = vec![
            "attention.head_count",
            "attention.head_count_kv",
            "block_count",
            "embedding_length",
            "feed_forward_length",
            "attention.layer_norm_rms_epsilon",
            "ssm.conv_kernel",
            "ssm.state_size",
            "ssm.group_count",
            "ssm.time_step_rank",
            "ssm.inner_size",
        ];
        let present = self.has_required_keys(&fields);
        proof {
            assert forall|i: int| 0 <= i < fields.len() implies (#[trigger] fields@[i])@
                == required_fields()[i] by {}
            if present {
                assert forall|i: int|
                    0 <= i < required_fields().len() implies self.metadata@.contains_key(
                    self.key_of(#[trigger] required_fields()[i]),
                ) by {
                    assert(fields@[i]@ == required_fields()[i]);
                }
            } else {
                let i = choose|i: int|
                    0 <= i < fields.len() && !self.metadata@.contains_key(
                        self.key_of((#[trigger] fields@[i])@),
                    );
                assert(!self.metadata@.contains_key(self.key_of(required_fields()[i])));
            }
        }
        present
    }

    /// Whether no division by zero comes up when the properties are read.
    pub fn is_divisible(&self) -> (r: bool)
        ensures
            r == self.divisible(),
    {
        if verify_qwen35_arch(self.metadata).is_err() || !self.is_complete() {
            return true;
        }
        let embed = self.get_u32("embedding_length");
        let heads = self.get_u32("attention.head_count");
        let values = self.get_u32("ssm.time_step_rank");
        let inner = self.get_u32("ssm.inner_size");
        let kv = self.get_u32("attention.head_count_kv");
        let blocks = self.get_u32("block_count");
        let eps = self.get_scalar("attention.layer_norm_rms_epsilon");
        let four = embed.is_ok() && heads.is_ok() && values.is_ok() && inner.is_ok();
        let seven = four && kv.is_ok() && blocks.is_ok() && eps.is_ok();
        proof {
            assert(self.readable(0) == (embed is Ok));
            assert(self.readable(1) == (heads is Ok));
            assert(self.readable(2) == (values is Ok));
            assert(self.readable(3) == (inner is Ok));
            assert(self.readable(4) == (kv is Ok));
            assert(self.readable(5) == (blocks is Ok));
            assert(self.readable(6) == (eps is Ok));
        }
        !(four && matches!(values, Ok(0))) && !(seven && matches!(heads, Ok(0)))
    }
}

/// A 32-bit number as a size.
fn size(n: u32) -> (r: usize)
    ensures
        r == n,
{
    n as usize
}

/// 32-bit numbers as sizes.
fn sizes(ns: &Vec<u32>) -> (r: Vec<usize>)
    ensures
        r@ == ns@.map_values(|n: u32| n as usize),
{
    let mut out: Vec<usize> = Vec::new();
    let mut i: usize = 0;
    while i < ns.len()
        invariant
            i <= ns.len(),
            out.len() == i,
            forall|j: int| 0 <= j < i ==> out[j] == ns[j] as usize,
        decreases ns.len() - i,
    {
        out.push(ns[i] as usize);
        i = i + 1;
    }
    proof {
        assert(out@ =~= ns@.map_values(|n: u32| n as usize));
    }
    out
}

impl PropsGGUF {
    /// The properties that the metadata gives. The architecture has to be right, the required
    /// fields have to be there, and those that are read need values of the right types; the others
    /// have defaults.
    pub fn try_from(c: ContentMetadata) -> (r: Result<PropsGGUF, ModelError>)
        requires
            c.divisible(),
        ensures
            match r {
                Ok(p) => {
                    &&& architecture(c.metadata@) == Some("qwen35"@)
                    &&& c.complete()
                    &&& c.readable_up_to(read_fields().len() as int)
                    &&& c.describes(p)
                },
                Err(ModelError::WrongArchitecture(arch)) => architecture(c.metadata@) == Some(arch@)
                    && arch@ != "qwen35"@,
                Err(ModelError::MissingArchitecture) => architecture(c.metadata@) is None,
                Err(ModelError::MissingKeys) => {
                    &&& architecture(c.metadata@) == Some("qwen35"@)
                    &&& !c.complete()
                },
                Err(ModelError::InvalidValue(k)) => {
                    &&& architecture(c.metadata@) == Some("qwen35"@)
                    &&& c.complete()
                    &&& exists|i: int|
                        0 <= i < read_fields().len() && c.readable_up_to(i) && !(
                        #[trigger] c.readable(i)) && k@ == c.key_of(read_fields()[i])
                },
                Err(_) => false,
            },
    {
        let _ = verify_qwen35_arch(c.metadata)?;
        if !c.is_complete() {
            return Err(ModelError::MissingKeys);
        }
        assert(c.readable(0) == (c.number("embedding_length"@) is Some));
        let embed_len = c.get_u32("embedding_length")?;
        assert(c.readable(1) == (c.number("attention.head_count"@) is Some));
        let head_count = c.get_u32("attention.head_count")?;
        assert(c.readable(2) == (c.number("ssm.time_step_rank"@) is Some));
        let value_heads = c.get_u32("ssm.time_step_rank")?;
        assert(c.readable(3) == (c.number("ssm.inner_size"@) is Some));
        let inner_size = c.get_u32("ssm.inner_size")?;
        let value_dim: u32 = inner_size / value_heads;
        assert(c.readable(4) == (c.number("attention.head_count_kv"@) is Some));
        let head_count_kv = c.get_u32("attention.head_count_kv")?;
        assert(c.readable(5) == (c.number("block_count"@) is Some));
        let block_count = c.get_u32("block_count")?;
        assert(c.readable(6) == (single_at(
            c.metadata@,
            c.key_of("attention.layer_norm_rms_epsilon"@),
        ) is Some));
        let rms_norm_eps = c.get_scalar("attention.layer_norm_rms_epsilon")?;
        let max_seq_len: u64 = match c.metadata.get_u64(c.full_key("context_length").as_str()) {
            Some(n) => n,
            None => DEFAULT_MAX_SEQ_LEN,
        };
        let rope_freq_base: u32 = match c.metadata.get_single(
            c.full_key("rope.freq_base").as_str(),
        ) {
            Some(bits) => bits,
            None => DEFAULT_ROPE_FREQ_BASE_BITS,
        };
        let head_dim: u32 = embed_len / head_count;
        let rope_dimension_count: usize = match c.get_u32("rope.dimension_count") {
            Ok(n) => size(n),
            Err(_) => quarter(head_dim),
        };
        let rope_dimension_sections: Vec<usize> = match c.metadata.get_u32s(
            c.full_key("rope.dimension_sections").as_str(),
        ) {
            Some(ns) => sizes(&ns),
            None => vec![11usize, 11usize, 10usize, 0usize],
        };
        let key_length: usize = match c.get_u32("attention.key_length") {
            Ok(n) => size(n),
            Err(_) => size(head_dim),
        };
        let full_attention_interval: usize = match c.get_u32("full_attention_interval") {
            Ok(n) => size(n),
            Err(_) => DEFAULT_FULL_ATTENTION_INTERVAL,
        };
        assert(c.readable(7) == (c.number("ssm.conv_kernel"@) is Some));
        let conv_kernel = c.get_u32("ssm.conv_kernel")?;
        assert(c.readable(8) == (c.number("ssm.state_size"@) is Some));
        let state_size = c.get_u32("ssm.state_size")?;
        assert(c.readable(9) == (c.number("ssm.group_count"@) is Some));
        let group_count = c.get_u32("ssm.group_count")?;
        proof {
            assert(rope_dimension_sections@ =~= match u32s_at(
                c.metadata@,
                c.key_of("rope.dimension_sections"@),
            ) {
                Some(ns) => ns.map_values(|n: u32| n as usize),
                None => default_sections(),
            });
        }
        Ok(
            PropsGGUF {
                head_count: size(head_count),
                head_count_kv: size(head_count_kv),
                block_count: size(block_count),
                embedding_length: size(embed_len),
                rms_norm_eps,
                max_seq_len: max_seq_len as usize,
                rope_freq_base,
                rope_dimension_count,
                rope_dimension_sections,
                key_length,
                full_attention_interval,
                conv_kernel: size(conv_kernel),
                linear_key_head_dim: size(state_size),
                linear_value_head_dim: size(value_dim),
                linear_num_key_heads: size(group_count),
                linear_num_value_heads: size(value_heads),
            },
        )
    }
}

/// A quarter of `n`, computed in single precision and rounded down.
fn quarter(n: u32) -> (r: usize)
    ensures
        r == default_rotary(n as nat),
{
    let rounded = round_to_single(n);
    proof {
        lemma_single_bound(n);
    }
    (rounded / 4) as usize
}

proof fn lemma_single_bound(n: u32)
    ensures
        nearest_single(n as nat) <= 0x2_0000_0000,
{
    let u = single_unit(n as nat);
    let q = n as nat / u;
    lemma_unit(n as nat);
    assert(q * u <= n && (q + 1) * u == q * u + u) by (nonlinear_arith)
        requires
            q == n as nat / u,
            u >= 1,
    ;
}

/// What the properties are: each is the value under its own key, and those that may be left out have their
/// defaults: 4096 tokens, a base of ten million, full attention in every fourth layer, the sections 11, 11,
/// 10 and 0, heads of as many numbers as the embedding has for each, and a quarter of them rotated.
pub proof fn law_properties(c: ContentMetadata, r: Result<PropsGGUF, ModelError>)
    requires
        call_ensures(PropsGGUF::try_from, (c,), r),
        r is Ok,
    ensures
        ({
            let p = r->Ok_0;
            let at = |field: Seq<char>|
                if c.metadata@.contains_key(c.path_prefix@ + "."@ + field) {
                    Some(c.metadata@[c.path_prefix@ + "."@ + field])
                } else {
                    None
                };
            &&& c.metadata@.contains_key("general.architecture"@)
            &&& c.metadata@["general.architecture"@] == MetaValue::Text("qwen35"@)
            &&& at("embedding_length"@) matches Some(MetaValue::U32(n)) && p.embedding_length == n
            &&& at("attention.head_count"@) matches Some(MetaValue::U32(n)) && p.head_count == n
            &&& at("attention.head_count_kv"@) matches Some(MetaValue::U32(n)) && p.head_count_kv
                == n
            &&& at("block_count"@) matches Some(MetaValue::U32(n)) && p.block_count == n
            &&& at("attention.layer_norm_rms_epsilon"@) matches Some(MetaValue::Single(bits))
                && scalar_bits(p.rms_norm_eps) == bits
            &&& at("ssm.conv_kernel"@) matches Some(MetaValue::U32(n)) && p.conv_kernel == n
            &&& at("ssm.state_size"@) matches Some(MetaValue::U32(n)) && p.linear_key_head_dim == n
            &&& at("ssm.group_count"@) matches Some(MetaValue::U32(n)) && p.linear_num_key_heads
                == n
            &&& at("ssm.time_step_rank"@) matches Some(MetaValue::U32(n))
                && p.linear_num_value_heads == n
            &&& at("ssm.inner_size"@) matches Some(MetaValue::U32(n)) && (p.linear_num_value_heads > 0
                ==> p.linear_value_head_dim * p.linear_num_value_heads <= n < (
            p.linear_value_head_dim + 1) * p.linear_num_value_heads)
            &&& at("feed_forward_length"@) is Some
            &&& match at("context_length"@) {
                Some(MetaValue::U64(n)) => n <= usize::MAX ==> p.max_seq_len == n,
                Some(MetaValue::U32(n)) => p.max_seq_len == n,
                Some(MetaValue::U16(n)) => p.max_seq_len == n,
                Some(MetaValue::U8(n)) => p.max_seq_len == n,
                Some(MetaValue::Bool(b)) => p.max_seq_len == if b {
                    1int
                } else {
                    0
                },
                _ => p.max_seq_len == 4096,
            }
            &&& match at("rope.freq_base"@) {
                Some(MetaValue::Single(bits)) => p.rope_freq_base == bits,
                _ => p.rope_freq_base == 0x4B18_9680,
            }
            &&& match at("attention.key_length"@) {
                Some(MetaValue::U32(n)) => p.key_length == n,
                _ => p.head_count > 0 ==> p.key_length * p.head_count <= p.embedding_length < (
                p.key_length + 1) * p.head_count,
            }
            &&& match at("rope.dimension_count"@) {
                Some(MetaValue::U32(n)) => p.rope_dimension_count == n,
                _ => p.head_count > 0 ==> {
                    let each = p.embedding_length as int / p.head_count as int;
                    &&& each < 0x100_0000 ==> p.rope_dimension_count == each / 4
                    &&& p.rope_dimension_count == nearest_single(each as nat) as int / 4
                },
            }
            &&& match at("full_attention_interval"@) {
                Some(MetaValue::U32(n)) => p.full_attention_interval == n,
                _ => p.full_attention_interval == 4,
            }
            &&& match at("rope.dimension_sections"@) {
                Some(MetaValue::Items(items)) => if forall|i: int|
                    0 <= i < items.len() ==> #[trigger] items[i] is U32 {
                    &&& p.rope_dimension_sections@.len() == items.len()
                    &&& forall|i: int|
                        0 <= i < items.len() ==> #[trigger] items[i] == MetaValue::U32(
                            p.rope_dimension_sections@[i] as u32,
                        ) && p.rope_dimension_sections@[i] <= u32::MAX
                } else {
                    p.rope_dimension_sections@ == seq![11usize, 11, 10, 0]
                },
                _ => p.rope_dimension_sections@ == seq![11usize, 11, 10, 0],
            }
        }),
{
    let p = r->Ok_0;
    assert(c.complete());
    assert(required_fields()[4] == "feed_forward_length"@);
    assert forall|i: int| 0 <= i < 10 implies #[trigger] c.readable(i) by {}
    assert(c.readable(0) && c.readable(1) && c.readable(2) && c.readable(3) && c.readable(4)
        && c.readable(5) && c.readable(6) && c.readable(7) && c.readable(8) && c.readable(9));
    if p.linear_num_value_heads > 0 {
        lemma_quotient(c.number("ssm.inner_size"@)->0 as int, p.linear_num_value_heads as int);
    }
    if p.head_count > 0 {
        lemma_quotient(p.embedding_length as int, p.head_count as int);
        let hd = p.embedding_length as int / p.head_count as int;
        if hd < 0x100_0000 {
            law_default_rotary(hd as nat);
        }
    }
    let key = c.key_of("rope.dimension_sections"@);
    if c.metadata@.contains_key(key) && c.metadata@[key] is Items {
        let items = c.metadata@[key]->Items_0;
        if forall|i: int| 0 <= i < items.len() ==> #[trigger] items[i] is U32 {
            assert forall|i: int| 0 <= i < items.len() implies (#[trigger] items[i]).as_u32() is Some by {
                assert(items[i] is U32);
            }
            assert forall|i: int| 0 <= i < items.len() implies #[trigger] items[i] == MetaValue::U32(
                p.rope_dimension_sections@[i] as u32,
            ) && p.rope_dimension_sections@[i] <= u32::MAX by {
                assert(items[i] is U32);
            }
        } else {
            let i = choose|i: int| 0 <= i < items.len() && !(#[trigger] items[i] is U32);
            assert(items[i].as_u32() is None);
        }
    }
}

/// When the properties can be had: the architecture is the one expected, all required keys are there, and
/// each key that is read has a value of its type; with no heads of either kind, there is nothing to divide
/// by. And what is wrong otherwise.
pub proof fn law_property_errors(c: ContentMetadata, r: Result<PropsGGUF, ModelError>, i: int)
    requires
        call_ensures(PropsGGUF::try_from, (c,), r),
        0 <= i <= 10,
    ensures
        ({
            let m = c.metadata@;
            let key = |field: Seq<char>| c.path_prefix@ + "."@ + field;
            let whole = |field: Seq<char>| m.contains_key(key(field)) && m[key(field)] is U32;
            let architecture = "general.architecture"@;
            let named = m.contains_key(architecture) && m[architecture] is Text;
            let right = named && m[architecture]->Text_0 == "qwen35"@;
            let present = m.contains_key(key("attention.head_count"@)) && m.contains_key(
                key("attention.head_count_kv"@),
            ) && m.contains_key(key("block_count"@)) && m.contains_key(key("embedding_length"@))
                && m.contains_key(key("feed_forward_length"@)) && m.contains_key(
                key("attention.layer_norm_rms_epsilon"@),
            ) && m.contains_key(key("ssm.conv_kernel"@)) && m.contains_key(key("ssm.state_size"@))
                && m.contains_key(key("ssm.group_count"@)) && m.contains_key(
                key("ssm.time_step_rank"@),
            ) && m.contains_key(key("ssm.inner_size"@));
            let in_order = seq![
                "embedding_length"@,
                "attention.head_count"@,
                "ssm.time_step_rank"@,
                "ssm.inner_size"@,
                "attention.head_count_kv"@,
                "block_count"@,
                "attention.layer_norm_rms_epsilon"@,
                "ssm.conv_kernel"@,
                "ssm.state_size"@,
                "ssm.group_count"@,
            ];
            &&& !named ==> r is Err && r->Err_0 is MissingArchitecture
            &&& named && !right ==> r is Err && r->Err_0 is WrongArchitecture
                && r->Err_0->WrongArchitecture_0@ == m[architecture]->Text_0
            &&& right && !present ==> r is Err && r->Err_0 is MissingKeys
            &&& right && present && (forall|j: int|
                0 <= j < i ==> if j == 6 {
                    m[key(#[trigger] in_order[j])] is Single
                } else {
                    m[key(in_order[j])] is U32
                }) ==> if i == 10 {
                r is Ok
            } else if i == 6 {
                m[key(in_order[i])] is Single || (r is Err && r->Err_0 is InvalidValue
                    && r->Err_0->InvalidValue_0@ == key(in_order[i]))
            } else {
                m[key(in_order[i])] is U32 || (r is Err && r->Err_0 is InvalidValue
                    && r->Err_0->InvalidValue_0@ == key(in_order[i]))
            }
            &&& (whole("ssm.time_step_rank"@) ==> m[key("ssm.time_step_rank"@)] != MetaValue::U32(0))
                && (whole("attention.head_count"@) ==> m[key("attention.head_count"@)]
                != MetaValue::U32(0)) ==> call_requires(PropsGGUF::try_from, (c,))
        }),
{
    let m = c.metadata@;
    let f = required_fields();
    let present = m.contains_key(c.key_of(f[0])) && m.contains_key(c.key_of(f[1])) && m.contains_key(
        c.key_of(f[2]),
    ) && m.contains_key(c.key_of(f[3])) && m.contains_key(c.key_of(f[4])) && m.contains_key(
        c.key_of(f[5]),
    ) && m.contains_key(c.key_of(f[6])) && m.contains_key(c.key_of(f[7])) && m.contains_key(
        c.key_of(f[8]),
    ) && m.contains_key(c.key_of(f[9])) && m.contains_key(c.key_of(f[10]));
    assert(present == c.complete());
    let in_order = read_fields();
    if c.complete() {
        assert forall|j: int| 0 <= j < 10 implies #[trigger] c.readable(j) == if j == 6 {
            m[c.key_of(in_order[j])] is Single
        } else {
            m[c.key_of(in_order[j])] is U32
        } by {
            assert(m.contains_key(c.key_of(in_order[j])));
        }
    }
    if r is Err && r->Err_0 is InvalidValue {
        let e = choose|e: int|
            0 <= e < read_fields().len() && c.readable_up_to(e) && !(#[trigger] c.readable(e))
                && r->Err_0->InvalidValue_0@ == c.key_of(read_fields()[e]);
        assert(c.readable_up_to(e) && !c.readable(e));
        assert(in_order[e] == read_fields()[e]);
        if i < e {
            assert(c.readable(i));
        }
    }
    if r is Ok && i < 10 {
        assert(c.readable(i));
    }
    if c.complete() {
        assert(c.readable_up_to(4) ==> c.readable(2));
        assert(c.readable_up_to(7) ==> c.readable(1));
    }
}

/// The quotient, rounded down, in terms of products.
pub proof fn lemma_quotient(n: int, d: int)
    requires
        n >= 0,
        d > 0,
    ensures
        (n / d) * d <= n < (n / d + 1) * d,
{
    assert((n / d) * d <= n < (n / d + 1) * d) by (nonlinear_arith)
        requires
            n >= 0,
            d > 0,
    ;
}

/// Two models whose metadata agree on the groups of the state space have as many key heads, whatever else
/// the metadata say.
pub proof fn law_key_heads_are_groups(
    c: ContentMetadata,
    other: ContentMetadata,
    p: PropsGGUF,
    q: PropsGGUF,
)
    requires
        call_ensures(PropsGGUF::try_from, (c,), Ok(p)),
        call_ensures(PropsGGUF::try_from, (other,), Ok(q)),
        c.metadata@[c.path_prefix@ + "."@ + "ssm.group_count"@] == other.metadata@[other.path_prefix@
            + "."@ + "ssm.group_count"@],
    ensures
        p.linear_num_key_heads == q.linear_num_key_heads,
{
    law_properties(c, Ok(p));
    law_properties(other, Ok(q));
}

/// What reading a field gives: the value under the field's key, if that has one of the type asked for, and
/// otherwise an error that names the key.
pub proof fn law_fields_read(
    c: &ContentMetadata,
    field: &str,
    number: Result<u32, ModelError>,
    scalar: Result<Scalar, ModelError>,
)
    requires
        call_ensures(ContentMetadata::get_u32, (c, field), number),
        call_ensures(ContentMetadata::get_scalar, (c, field), scalar),
    ensures
        ({
            let m = c.metadata@;
            let key = c.path_prefix@ + "."@ + field@;
            &&& if m.contains_key(key) && m[key] is U32 {
                number is Ok && number->Ok_0 == m[key]->U32_0
            } else {
                number is Err && number->Err_0 is InvalidValue && number->Err_0->InvalidValue_0@ == key
            }
            &&& if m.contains_key(key) && m[key] is Single {
                scalar is Ok && scalar_bits(scalar->Ok_0) == m[key]->Single_0
            } else {
                scalar is Err && scalar->Err_0 is InvalidValue && scalar->Err_0->InvalidValue_0@ == key
            }
        }),
{
}

/// The properties cannot be read without a division by zero only if all that comes before the division is
/// there and what is divided by is zero.
pub proof fn law_divisible(c: &ContentMetadata, complete: bool, r: bool)
    requires
        call_ensures(ContentMetadata::is_complete, (c,), complete),
        call_ensures(ContentMetadata::is_divisible, (c,), r),
    ensures
        ({
            let m = c.metadata@;
            let key = |field: Seq<char>| c.path_prefix@ + "."@ + field;
            let whole = |field: Seq<char>| m.contains_key(key(field)) && m[key(field)] is U32;
            let eps = key("attention.layer_norm_rms_epsilon"@);
            let right = m.contains_key("general.architecture"@) && m["general.architecture"@]
                == MetaValue::Text("qwen35"@);
            let four = whole("embedding_length"@) && whole("attention.head_count"@) && whole(
                "ssm.time_step_rank"@,
            ) && whole("ssm.inner_size"@);
            let seven = four && whole("attention.head_count_kv"@) && whole("block_count"@)
                && m.contains_key(eps) && m[eps] is Single;
            &&& complete == (m.contains_key(key("attention.head_count"@)) && m.contains_key(
                key("attention.head_count_kv"@),
            ) && m.contains_key(key("block_count"@)) && m.contains_key(key("embedding_length"@))
                && m.contains_key(key("feed_forward_length"@)) && m.contains_key(eps)
                && m.contains_key(key("ssm.conv_kernel"@)) && m.contains_key(key("ssm.state_size"@))
                && m.contains_key(key("ssm.group_count"@)) && m.contains_key(
                key("ssm.time_step_rank"@),
            ) && m.contains_key(key("ssm.inner_size"@)))
            &&& r == !(right && complete && (four && m[key("ssm.time_step_rank"@)] == MetaValue::U32(
                0,
            ) || seven && m[key("attention.head_count"@)] == MetaValue::U32(0)))
        }),
{
    let m = c.metadata@;
    let f = required_fields();
    let present = m.contains_key(c.key_of(f[0])) && m.contains_key(c.key_of(f[1])) && m.contains_key(
        c.key_of(f[2]),
    ) && m.contains_key(c.key_of(f[3])) && m.contains_key(c.key_of(f[4])) && m.contains_key(
        c.key_of(f[5]),
    ) && m.contains_key(c.key_of(f[6])) && m.contains_key(c.key_of(f[7])) && m.contains_key(
        c.key_of(f[8]),
    ) && m.contains_key(c.key_of(f[9])) && m.contains_key(c.key_of(f[10]));
    assert(present == c.complete());
    let four = c.readable(0) && c.readable(1) && c.readable(2) && c.readable(3);
    let seven = four && c.readable(4) && c.readable(5) && c.readable(6);
    assert(four == c.readable_up_to(4));
    assert(seven == c.readable_up_to(7));
}

/// The single-precision number nearest to `n`: a multiple of a power of two that leaves at most 24 bits, at
/// most half of that power away, and an even multiple where two are as near.
pub proof fn law_nearest_single(n: nat)
    ensures
        ({
            let (u, x) = (single_unit(n), nearest_single(n));
            &&& exists|k: nat| u == #[trigger] pow2(k)
            &&& n < 0x100_0000 ==> u == 1
            &&& n >= 0x100_0000 ==> 0x80_0000 * u <= n < 0x100_0000 * u
            &&& x % u == 0
            &&& 2 * (x - n) <= u && 2 * (n - x) <= u
            &&& 2 * (x - n) == u || 2 * (n - x) == u ==> (x / u) % 2 == 0
        }),
    decreases n,
{
    lemma_unit(n);
    lemma_unit_power(n);
    let u = single_unit(n) as int;
    let (q, rest) = (n as int / u, n as int % u);
    lemma_fundamental_div_mod(n as int, u);
    assert(u * q == q * u) by (nonlinear_arith);
    assert((q + 1) * u == q * u + u) by (nonlinear_arith);
    lemma_fundamental_div_mod_converse(q * u, u, q, 0);
    lemma_fundamental_div_mod_converse((q + 1) * u, u, q + 1, 0);
}

proof fn lemma_unit_power(n: nat)
    ensures
        exists|k: nat| single_unit(n) == #[trigger] pow2(k),
    decreases n,
{
    if n < 0x100_0000 {
        lemma2_to64();
        assert(single_unit(n) == pow2(0));
    } else {
        lemma_unit_power(n / 2);
        let k = choose|k: nat| single_unit(n / 2) == #[trigger] pow2(k);
        lemma_pow2_unfold(k + 1);
        assert(single_unit(n) == pow2(k + 1));
    }
}

/// The required keys are there when the metadata hold each field, under its name behind the prefix and a
/// dot, and only then.
pub proof fn law_required_keys(c: &ContentMetadata, fields: &Vec<&str>, there: bool)
    requires
        call_ensures(ContentMetadata::has_required_keys, (c, fields), there),
    ensures
        call_requires(ContentMetadata::has_required_keys, (c, fields)),
        there <==> forall|i: int|
            0 <= i < fields.len() ==> c.metadata@.contains_key(
                c.path_prefix@ + "."@ + (#[trigger] fields@[i])@,
            ),
{
}

} // verus!
