//! The names of tensors in a model file.
use vstd::prelude::*;

verus! {

/// The text of a decimal digit.
pub open spec fn digit(d: int) -> Seq<char> {
    if d == 0 {
        "0"@
    } else if d == 1 {
        "1"@
    } else if d == 2 {
        "2"@
    } else if d == 3 {
        "3"@
    } else if d == 4 {
        "4"@
    } else if d == 5 {
        "5"@
    } else if d == 6 {
        "6"@
    } else if d == 7 {
        "7"@
    } else if d == 8 {
        "8"@
    } else {
        "9"@
    }
}

/// A number in decimal.
pub open spec fn decimal(n: nat) -> Seq<char>
    decreases n,
{
    if n < 10 {
        digit(n as int)
    } else {
        decimal(n / 10) + digit((n % 10) as int)
    }
}

fn digit_text(d: usize) -> (r: &'static str)
    requires
        d < 10,
    ensures
        r@ == digit(d as int),
{
    if d == 0 {
        "0"
    } else if d == 1 {
        "1"
    } else if d == 2 {
        "2"
    } else if d == 3 {
        "3"
    } else if d == 4 {
        "4"
    } else if d == 5 {
        "5"
    } else if d == 6 {
        "6"
    } else if d == 7 {
        "7"
    } else if d == 8 {
        "8"
    } else {
        "9"
    }
}

/// A number in decimal.
pub(crate) fn decimal_text(n: usize) -> (r: String)
    ensures
        r@ == decimal(n as nat),
    decreases n,
{
    if n < 10 {
        digit_text(n).to_owned()
    } else {
        let mut s = decimal_text(n / 10);
        s.append(digit_text(n % 10));
        s
    }
}

/// The name of a tensor of a layer.
pub open spec fn layer_tensor(layer: nat, suffix: Seq<char>) -> Seq<char> {
    "blk."@ + decimal(layer) + "."@ + suffix
}

/// The name of a tensor of a layer.
pub fn layer_tensor_name(layer: usize, suffix: &str) -> (r: String)
    ensures
        r@ == layer_tensor(layer as nat, suffix@),
{
    let mut s = "blk.".to_owned();
    let number = decimal_text(layer);
    s.append(number.as_str());
    s.append(".");
    s.append(suffix);
    s
}

proof fn lemma_digit(d: int)
    requires
        0 <= d < 10,
    ensures
        digit(d).len() == 1,
        digit(d)[0] as int == '0' as int + d,
{
    reveal_strlit("0");
    reveal_strlit("1");
    reveal_strlit("2");
    reveal_strlit("3");
    reveal_strlit("4");
    reveal_strlit("5");
    reveal_strlit("6");
    reveal_strlit("7");
    reveal_strlit("8");
    reveal_strlit("9");
}

/// Decimal texts are made of digits, and are not empty.
proof fn lemma_decimal_digits(n: nat, i: int)
    requires
        0 <= i < decimal(n).len(),
    ensures
        '0' as int <= decimal(n)[i] as int <= '9' as int,
    decreases n,
{
    if n < 10 {
        lemma_digit(n as int);
    } else {
        lemma_digit((n % 10) as int);
        if i < decimal(n / 10).len() {
            lemma_decimal_digits(n / 10, i);
        }
    }
}

proof fn lemma_decimal_len(n: nat)
    ensures
        decimal(n).len() >= 1,
    decreases n,
{
    if n < 10 {
        lemma_digit(n as int);
    } else {
        lemma_digit((n % 10) as int);
        lemma_decimal_len(n / 10);
    }
}

/// Different numbers have different decimal texts.
pub proof fn law_decimal_injective(m: nat, n: nat)
    requires
        decimal(m) == decimal(n),
    ensures
        m == n,
    decreases m,
{
    lemma_decimal_len(m / 10);
    lemma_decimal_len(n / 10);
    lemma_digit((m % 10) as int);
    lemma_digit((n % 10) as int);
    let last = decimal(m).len() - 1;
    if m < 10 {
        lemma_digit(m as int);
        if n < 10 {
            lemma_digit(n as int);
        }
    } else if n < 10 {
        lemma_digit(n as int);
    } else {
        assert(decimal(m)[last] == digit((m % 10) as int)[0]);
        assert(decimal(n)[last] == digit((n % 10) as int)[0]);
        assert(decimal(m).take(last) =~= decimal(m / 10));
        assert(decimal(n).take(last) =~= decimal(n / 10));
        law_decimal_injective(m / 10, n / 10);
    }
}

/// Tensors of different layers, or different tensors of one layer, have different names.
pub proof fn law_names_injective(i: nat, s: Seq<char>, j: nat, t: Seq<char>)
    requires
        layer_tensor(i, s) == layer_tensor(j, t),
    ensures
        i == j,
        s == t,
{
    reveal_strlit("blk.");
    reveal_strlit(".");
    let a = layer_tensor(i, s);
    let b = layer_tensor(j, t);
    let m = decimal(i).len() as int;
    let n = decimal(j).len() as int;
    if m < n {
        assert(a[4 + m] == '.');
        assert(b[4 + m] == decimal(j)[m]);
        lemma_decimal_digits(j, m);
    } else if n < m {
        assert(b[4 + n] == '.');
        assert(a[4 + n] == decimal(i)[n]);
        lemma_decimal_digits(i, n);
    }
    assert(decimal(i) =~= a.subrange(4, 4 + m));
    assert(decimal(j) =~= b.subrange(4, 4 + n));
    law_decimal_injective(i, j);
    assert(s =~= a.subrange(5 + m, a.len() as int));
    assert(t =~= b.subrange(5 + n, b.len() as int));
}

/// The names of the tensors that every layer has.
pub struct CommonNames {
    pub attn_norm: String,
    pub ffn_norm: String,
    pub ffn_gate: String,
    pub ffn_down: String,
    pub ffn_up: String,
}

/// The names of the tensors of a layer with full attention.
pub struct FullNames {
    pub q: String,
    pub k: String,
    pub v: String,
    pub o: String,
    pub q_norm: String,
    pub k_norm: String,
}

/// The names of the tensors of a layer with linear attention.
pub struct LinearNames {
    pub qkv: String,
    pub z: String,
    pub beta: String,
    pub alpha: String,
    pub conv1d: String,
    pub dt_bias: String,
    pub a: String,
    pub norm: String,
    pub out: String,
}

pub fn common_names(layer: usize) -> (r: CommonNames)
    ensures
        r.attn_norm@ == layer_tensor(layer as nat, "attn_norm.weight"@),
        r.ffn_norm@ == layer_tensor(layer as nat, "post_attention_norm.weight"@),
        r.ffn_gate@ == layer_tensor(layer as nat, "ffn_gate.weight"@),
        r.ffn_down@ == layer_tensor(layer as nat, "ffn_down.weight"@),
        r.ffn_up@ == layer_tensor(layer as nat, "ffn_up.weight"@),
{
    CommonNames {
        attn_norm: layer_tensor_name(layer, "attn_norm.weight"),
        ffn_norm: layer_tensor_name(layer, "post_attention_norm.weight"),
        ffn_gate: layer_tensor_name(layer, "ffn_gate.weight"),
        ffn_down: layer_tensor_name(layer, "ffn_down.weight"),
        ffn_up: layer_tensor_name(layer, "ffn_up.weight"),
    }
}

pub fn full_names(layer: usize) -> (r: FullNames)
    ensures
        r.q@ == layer_tensor(layer as nat, "attn_q.weight"@),
        r.k@ == layer_tensor(layer as nat, "attn_k.weight"@),
        r.v@ == layer_tensor(layer as nat, "attn_v.weight"@),
        r.o@ == layer_tensor(layer as nat, "attn_output.weight"@),
        r.q_norm@ == layer_tensor(layer as nat, "attn_q_norm.weight"@),
        r.k_norm@ == layer_tensor(layer as nat, "attn_k_norm.weight"@),
{
    FullNames {
        q: layer_tensor_name(layer, "attn_q.weight"),
        k: layer_tensor_name(layer, "attn_k.weight"),
        v: layer_tensor_name(layer, "attn_v.weight"),
        o: layer_tensor_name(layer, "attn_output.weight"),
        q_norm: layer_tensor_name(layer, "attn_q_norm.weight"),
        k_norm: layer_tensor_name(layer, "attn_k_norm.weight"),
    }
}

pub fn linear_names(layer: usize) -> (r: LinearNames)
    ensures
        r.qkv@ == layer_tensor(layer as nat, "attn_qkv.weight"@),
        r.z@ == layer_tensor(layer as nat, "attn_gate.weight"@),
        r.beta@ == layer_tensor(layer as nat, "ssm_beta.weight"@),
        r.alpha@ == layer_tensor(layer as nat, "ssm_alpha.weight"@),
        r.conv1d@ == layer_tensor(layer as nat, "ssm_conv1d.weight"@),
        r.dt_bias@ == layer_tensor(layer as nat, "ssm_dt.bias"@),
        r.a@ == layer_tensor(layer as nat, "ssm_a"@),
        r.norm@ == layer_tensor(layer as nat, "ssm_norm.weight"@),
        r.out@ == layer_tensor(layer as nat, "ssm_out.weight"@),
{
    LinearNames {
        qkv: layer_tensor_name(layer, "attn_qkv.weight"),
        z: layer_tensor_name(layer, "attn_gate.weight"),
        beta: layer_tensor_name(layer, "ssm_beta.weight"),
        alpha: layer_tensor_name(layer, "ssm_alpha.weight"),
        conv1d: layer_tensor_name(layer, "ssm_conv1d.weight"),
        dt_bias: layer_tensor_name(layer, "ssm_dt.bias"),
        a: layer_tensor_name(layer, "ssm_a"),
        norm: layer_tensor_name(layer, "ssm_norm.weight"),
        out: layer_tensor_name(layer, "ssm_out.weight"),
    }
}

/// The name of the tensor that the output map is made from: a model without one of its own uses the
/// embedding table.
pub fn output_name(has_output: bool) -> (r: String)
    ensures
        r@ == if has_output {
            "output.weight"@
        } else {
            "token_embd.weight"@
        },
{
    if has_output {
        "output.weight".to_owned()
    } else {
        "token_embd.weight".to_owned()
    }
}

/// The number that a text of digits stands for, read from left to right.
pub open spec fn number_read(s: Seq<char>) -> int
    decreases s.len(),
{
    if s.len() == 0 {
        0
    } else {
        number_read(s.drop_last()) * 10 + (s.last() as int - '0' as int)
    }
}

/// The decimal text of a number is made of digits, does not begin with a zero unless it is that, and reads
/// as the number.
pub proof fn law_decimal_reads_back(n: nat)
    ensures
        decimal(n).len() >= 1,
        forall|i: int|
            0 <= i < decimal(n).len() ==> '0' as int <= #[trigger] decimal(n)[i] as int
                <= '9' as int,
        decimal(n)[0] == '0' ==> n == 0 && decimal(n).len() == 1,
        number_read(decimal(n)) == n,
    decreases n,
{
    let s = decimal(n);
    lemma_decimal_len(n);
    assert forall|i: int| 0 <= i < s.len() implies '0' as int <= #[trigger] s[i] as int
        <= '9' as int by {
        lemma_decimal_digits(n, i);
    }
    if n < 10 {
        lemma_digit(n as int);
        assert(s.drop_last() =~= Seq::<char>::empty());
        assert(number_read(s.drop_last()) == 0);
    } else {
        law_decimal_reads_back(n / 10);
        lemma_digit((n % 10) as int);
        assert(s.drop_last() =~= decimal(n / 10));
        assert(s[0] == decimal(n / 10)[0]);
    }
}

/// The name of a tensor of a layer: `blk.`, the layer's number in decimal, a dot, and what the tensor is.
pub proof fn law_layer_tensor_name(layer: usize, suffix: &str, r: String)
    requires
        call_ensures(layer_tensor_name, (layer, suffix), r),
    ensures
        call_requires(layer_tensor_name, (layer, suffix)),
        r@ == "blk."@ + decimal(layer as nat) + "."@ + suffix@,
{
}

/// The names of the tensors of layer `i`.
pub proof fn law_tensor_names(
    i: usize,
    common: CommonNames,
    full: FullNames,
    linear: LinearNames,
)
    requires
        call_ensures(common_names, (i,), common),
        call_ensures(full_names, (i,), full),
        call_ensures(linear_names, (i,), linear),
    ensures
        call_requires(common_names, (i,)),
        call_requires(full_names, (i,)),
        call_requires(linear_names, (i,)),
        ({
            let name = |tensor: Seq<char>| "blk."@ + decimal(i as nat) + "."@ + tensor;
            &&& common.attn_norm@ == name("attn_norm.weight"@)
            &&& common.ffn_norm@ == name("post_attention_norm.weight"@)
            &&& common.ffn_gate@ == name("ffn_gate.weight"@)
            &&& common.ffn_down@ == name("ffn_down.weight"@)
            &&& common.ffn_up@ == name("ffn_up.weight"@)
            &&& full.q@ == name("attn_q.weight"@)
            &&& full.k@ == name("attn_k.weight"@)
            &&& full.v@ == name("attn_v.weight"@)
            &&& full.o@ == name("attn_output.weight"@)
            &&& full.q_norm@ == name("attn_q_norm.weight"@)
            &&& full.k_norm@ == name("attn_k_norm.weight"@)
            &&& linear.qkv@ == name("attn_qkv.weight"@)
            &&& linear.z@ == name("attn_gate.weight"@)
            &&& linear.beta@ == name("ssm_beta.weight"@)
            &&& linear.alpha@ == name("ssm_alpha.weight"@)
            &&& linear.conv1d@ == name("ssm_conv1d.weight"@)
            &&& linear.dt_bias@ == name("ssm_dt.bias"@)
            &&& linear.a@ == name("ssm_a"@)
            &&& linear.norm@ == name("ssm_norm.weight"@)
            &&& linear.out@ == name("ssm_out.weight"@)
        }),
{
}

/// A model without an output tensor of its own uses the embedding table.
pub proof fn law_output_name(has_output: bool, r: String)
    requires
        call_ensures(output_name, (has_output,), r),
    ensures
        call_requires(output_name, (has_output,)),
        has_output ==> r@ == "output.weight"@,
        !has_output ==> r@ == "token_embd.weight"@,
{
}

} // verus!
