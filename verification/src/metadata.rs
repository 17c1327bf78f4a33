//! The metadata of a model file.
use vstd::prelude::*;
use vstd::hash_map::StringHashMap;
use candle_core::quantized::gguf_file::Value;
use candle_core::scalar::Scalar;
use candle_core::Error;
use crate::error::ModelError;

verus! {

/// A metadata value as the file format's library reads it: [`value_content`] says what it is.
#[verifier::external_type_specification]
#[verifier::external_body]
pub struct ExValue(candle_core::quantized::gguf_file::Value);

/// A metadata value. Floating-point numbers are given by their bits.
pub enum MetaValue {
    U8(u8),
    I8(i8),
    U16(u16),
    I16(i16),
    U32(u32),
    I32(i32),
    U64(u64),
    I64(i64),
    Single(u32),
    Double(u64),
    Bool(bool),
    Text(Seq<char>),
    Items(Seq<MetaValue>),
}

/// What a metadata value is.
pub uninterp spec fn value_content(v: Value) -> MetaValue;

/// The bits of the single-precision number that a scalar holds.
pub uninterp spec fn scalar_bits(s: Scalar) -> u32;

impl MetaValue {
    pub open spec fn as_u32(self) -> Option<u32> {
        match self {
            MetaValue::U32(n) => Some(n),
            _ => None,
        }
    }

    /// Unsigned integers and booleans count as 64-bit numbers.
    pub open spec fn as_u64(self) -> Option<u64> {
        match self {
            MetaValue::U64(n) => Some(n),
            MetaValue::U8(n) => Some(n as u64),
            MetaValue::U16(n) => Some(n as u64),
            MetaValue::U32(n) => Some(n as u64),
            MetaValue::Bool(b) => Some(
                if b {
                    1
                } else {
                    0
                },
            ),
            _ => None,
        }
    }

    pub open spec fn as_single(self) -> Option<u32> {
        match self {
            MetaValue::Single(bits) => Some(bits),
            _ => None,
        }
    }

    pub open spec fn as_text(self) -> Option<Seq<char>> {
        match self {
            MetaValue::Text(t) => Some(t),
            _ => None,
        }
    }

    /// A list counts as a list of 32-bit numbers if all its items are 32-bit numbers.
    pub open spec fn as_u32s(self) -> Option<Seq<u32>> {
        match self {
            MetaValue::Items(items) => if forall|i: int|
                0 <= i < items.len() ==> (#[trigger] items[i]).as_u32() is Some {
                Some(items.map_values(|v: MetaValue| v.as_u32()->0))
            } else {
                None
            },
            _ => None,
        }
    }
}

/// `Value::to_u32`: a 32-bit number, of a value that is one.
#[verifier::external_body]
fn to_u32(v: &Value) -> (r: Result<u32, Error>)
    ensures
        match r {
            Ok(n) => value_content(*v).as_u32() == Some(n),
            Err(_) => value_content(*v).as_u32() is None,
        },
{
    v.to_u32()
}

/// `Value::to_u64`: a 64-bit number, of a value that is one or converts to one without loss.
#[verifier::external_body]
fn to_u64(v: &Value) -> (r: Result<u64, Error>)
    ensures
        match r {
            Ok(n) => value_content(*v).as_u64() == Some(n),
            Err(_) => value_content(*v).as_u64() is None,
        },
{
    v.to_u64()
}

/// `Value::to_f32`: the bits of a single-precision number, of a value that is one.
#[verifier::external_body]
fn to_single(v: &Value) -> (r: Result<u32, Error>)
    ensures
        match r {
            Ok(bits) => value_content(*v).as_single() == Some(bits),
            Err(_) => value_content(*v).as_single() is None,
        },
{
    match v.to_f32() {
        Ok(x) => Ok(x.to_bits()),
        Err(e) => Err(e),
    }
}

/// `Scalar::from`, of the single-precision number that `Value::to_f32` gives.
#[verifier::external_body]
fn to_scalar(v: &Value) -> (r: Result<Scalar, Error>)
    ensures
        match r {
            Ok(s) => value_content(*v).as_single() == Some(scalar_bits(s)),
            Err(_) => value_content(*v).as_single() is None,
        },
{
    match v.to_f32() {
        Ok(x) => Ok(Scalar::from(x)),
        Err(e) => Err(e),
    }
}

/// `Value::to_string`: the text, of a value that is one.
#[verifier::external_body]
fn to_text(v: &Value) -> (r: Result<&String, Error>)
    ensures
        match r {
            Ok(t) => value_content(*v).as_text() == Some(t@),
            Err(_) => value_content(*v).as_text() is None,
        },
{
    v.to_string()
}

/// `Value::to_vec`: the items, of a value that is a list.
#[verifier::external_body]
fn to_items(v: &Value) -> (r: Result<&Vec<Value>, Error>)
    ensures
        match r {
            Ok(items) => value_content(*v) == MetaValue::Items(
                items@.map_values(|i: Value| value_content(i)),
            ),
            Err(_) => !(value_content(*v) is Items),
        },
{
    v.to_vec()
}

/// The metadata of a model file: values by key.
pub struct Metadata {
    map: StringHashMap<Value>,
}

impl View for Metadata {
    type V = Map<Seq<char>, MetaValue>;

    closed spec fn view(&self) -> Map<Seq<char>, MetaValue> {
        self.map@.map_values(|v: Value| value_content(v))
    }
}

/// The 32-bit number under a key, if there is one.
pub open spec fn u32_at(m: Map<Seq<char>, MetaValue>, key: Seq<char>) -> Option<u32> {
    if m.contains_key(key) {
        m[key].as_u32()
    } else {
        None
    }
}

/// The number that counts as a 64-bit number under a key, if there is one.
pub open spec fn u64_at(m: Map<Seq<char>, MetaValue>, key: Seq<char>) -> Option<u64> {
    if m.contains_key(key) {
        m[key].as_u64()
    } else {
        None
    }
}

/// The bits of the single-precision number under a key, if there is one.
pub open spec fn single_at(m: Map<Seq<char>, MetaValue>, key: Seq<char>) -> Option<u32> {
    if m.contains_key(key) {
        m[key].as_single()
    } else {
        None
    }
}

/// The text under a key, if there is one.
pub open spec fn text_at(m: Map<Seq<char>, MetaValue>, key: Seq<char>) -> Option<Seq<char>> {
    if m.contains_key(key) {
        m[key].as_text()
    } else {
        None
    }
}

/// The list of 32-bit numbers under a key, if there is one.
pub open spec fn u32s_at(m: Map<Seq<char>, MetaValue>, key: Seq<char>) -> Option<Seq<u32>> {
    if m.contains_key(key) {
        m[key].as_u32s()
    } else {
        None
    }
}

impl Metadata {
    pub fn new() -> (r: Metadata)
        ensures
            r@ == Map::<Seq<char>, MetaValue>::empty(),
    {
        let r = Metadata { map: StringHashMap::new() };
        proof {
            assert(r@ =~= Map::<Seq<char>, MetaValue>::empty());
        }
        r
    }

    /// Sets the value of a key.
    pub fn insert(&mut self, key: String, value: Value)
        ensures
            final(self)@ == old(self)@.insert(key@, value_content(value)),
    {
        self.map.insert(key, value);
        proof {
            assert(self@ =~= old(self)@.insert(key@, value_content(value)));
        }
    }

    pub fn contains_key(&self, key: &str) -> (r: bool)
        ensures
            r == self@.contains_key(key@),
    {
        self.map.contains_key(key)
    }

    pub fn get_text(&self, key: &str) -> (r: Option<String>)
        ensures
            match r {
                Some(t) => text_at(self@, key@) == Some(t@),
                None => text_at(self@, key@) is None,
            },
    {
        match self.map.get(key) {
            Some(v) => match to_text(v) {
                Ok(t) => Some(t.clone()),
                Err(_) => None,
            },
            None => None,
        }
    }

    pub fn get_u32(&self, key: &str) -> (r: Option<u32>)
        ensures
            r == u32_at(self@, key@),
    {
        match self.map.get(key) {
            Some(v) => match to_u32(v) {
                Ok(n) => Some(n),
                Err(_) => None,
            },
            None => None,
        }
    }

    pub fn get_u64(&self, key: &str) -> (r: Option<u64>)
        ensures
            r == u64_at(self@, key@),
    {
        match self.map.get(key) {
            Some(v) => match to_u64(v) {
                Ok(n) => Some(n),
                Err(_) => None,
            },
            None => None,
        }
    }

    /// The bits of a single-precision number.
    pub fn get_single(&self, key: &str) -> (r: Option<u32>)
        ensures
            r == single_at(self@, key@),
    {
        match self.map.get(key) {
            Some(v) => match to_single(v) {
                Ok(bits) => Some(bits),
                Err(_) => None,
            },
            None => None,
        }
    }

    /// A single-precision number as a scalar.
    pub fn get_scalar(&self, key: &str) -> (r: Option<Scalar>)
        ensures
            match r {
                Some(s) => single_at(self@, key@) == Some(scalar_bits(s)),
                None => single_at(self@, key@) is None,
            },
    {
        match self.map.get(key) {
            Some(v) => match to_scalar(v) {
                Ok(s) => Some(s),
                Err(_) => None,
            },
            None => None,
        }
    }

    /// A list of 32-bit numbers.
    pub fn get_u32s(&self, key: &str) -> (r: Option<Vec<u32>>)
        ensures
            match r {
                Some(ns) => u32s_at(self@, key@) == Some(ns@),
                None => u32s_at(self@, key@) is None,
            },
    {
        let items = match self.map.get(key) {
            Some(v) => match to_items(v) {
                Ok(items) => items,
                Err(_) => {
                    return None;
                },
            },
            None => {
                return None;
            },
        };
        let ghost all = self@[key@]->Items_0;
        let mut ns: Vec<u32> = Vec::new();
        let mut i: usize = 0;
        while i < items.len()
            invariant
                i <= items.len(),
                ns.len() == i,
                self@.contains_key(key@),
                self@[key@] == MetaValue::Items(all),
                all == items@.map_values(|i: Value| value_content(i)),
                forall|j: int| 0 <= j < i ==> (#[trigger] all[j]).as_u32() == Some(ns[j]),
            decreases items.len() - i,
        {
            match to_u32(&items[i]) {
                Ok(n) => {
                    assert(all[i as int] == value_content(items@[i as int]));
                    ns.push(n);
                },
                Err(_) => {
                    assert(all[i as int] == value_content(items@[i as int]));
                    return None;
                },
            }
            i = i + 1;
        }
        proof {
            assert(ns@ =~= all.map_values(|v: MetaValue| v.as_u32()->0));
        }
        Some(ns)
    }
}

/// The architecture that the metadata names, if any.
pub open spec fn architecture(m: Map<Seq<char>, MetaValue>) -> Option<Seq<char>> {
    text_at(m, "general.architecture"@)
}

/// The name of the architecture, which must be `qwen35`.
pub fn verify_qwen35_arch(metadata: &Metadata) -> (r: Result<String, ModelError>)
    ensures
        match r {
            Ok(arch) => architecture(metadata@) == Some(arch@) && arch@ == "qwen35"@,
            Err(ModelError::WrongArchitecture(arch)) => architecture(metadata@) == Some(arch@)
                && arch@ != "qwen35"@,
            Err(ModelError::MissingArchitecture) => architecture(metadata@) is None,
            Err(_) => false,
        },
{
    match metadata.get_text("general.architecture") {
        Some(arch) => {
            let expected = "qwen35".to_owned();
            if arch == expected {
                Ok(arch)
            } else {
                Err(ModelError::WrongArchitecture(arch))
            }
        },
        None => Err(ModelError::MissingArchitecture),
    }
}

/// What each way of reading a key gives: the value, if the key is there and has one of that type.
pub proof fn law_values_read(
    m: &Metadata,
    key: &str,
    there: bool,
    text: Option<String>,
    number: Option<u32>,
    long: Option<u64>,
    single: Option<u32>,
    scalar: Option<Scalar>,
    list: Option<Vec<u32>>,
)
    requires
        call_ensures(Metadata::contains_key, (m, key), there),
        call_ensures(Metadata::get_text, (m, key), text),
        call_ensures(Metadata::get_u32, (m, key), number),
        call_ensures(Metadata::get_u64, (m, key), long),
        call_ensures(Metadata::get_single, (m, key), single),
        call_ensures(Metadata::get_scalar, (m, key), scalar),
        call_ensures(Metadata::get_u32s, (m, key), list),
    ensures
        ({
            let value = if m@.contains_key(key@) {
                Some(m@[key@])
            } else {
                None
            };
            &&& there == (value is Some)
            &&& match value {
                Some(MetaValue::Text(t)) => text is Some && text->0@ == t,
                _ => text is None,
            }
            &&& match value {
                Some(MetaValue::U32(n)) => number == Some(n),
                _ => number is None,
            }
            &&& match value {
                Some(MetaValue::U64(n)) => long == Some(n),
                Some(MetaValue::U32(n)) => long is Some && long->0 == n,
                Some(MetaValue::U16(n)) => long is Some && long->0 == n,
                Some(MetaValue::U8(n)) => long is Some && long->0 == n,
                Some(MetaValue::Bool(b)) => long == Some(
                    if b {
                        1u64
                    } else {
                        0
                    },
                ),
                _ => long is None,
            }
            &&& match value {
                Some(MetaValue::Single(bits)) => single == Some(bits) && scalar is Some
                    && scalar_bits(scalar->0) == bits,
                _ => single is None && scalar is None,
            }
        }),
        list is Some ==> m@.contains_key(key@) && m@[key@] is Items && list->0@.len()
            == m@[key@]->Items_0.len() && forall|i: int|
            0 <= i < list->0@.len() ==> #[trigger] m@[key@]->Items_0[i] == MetaValue::U32(
                list->0@[i],
            ),
        list is None && m@.contains_key(key@) && m@[key@] is Items ==> exists|i: int|
            0 <= i < m@[key@]->Items_0.len() && !(#[trigger] m@[key@]->Items_0[i] is U32),
{
    if m@.contains_key(key@) && m@[key@] is Items {
        let items = m@[key@]->Items_0;
        match list {
            Some(ns) => {
                assert forall|i: int| 0 <= i < items.len() implies #[trigger] items[i]
                    == MetaValue::U32(ns@[i]) by {
                    assert(items[i].as_u32() is Some);
                }
            },
            None => {
                let i = choose|i: int|
                    0 <= i < items.len() && !((#[trigger] items[i]).as_u32() is Some);
                assert(!(items[i] is U32));
            },
        }
    }
}

/// What is put in is read back under its key, and nothing else changes; at first there is nothing.
pub proof fn law_insert_reads_back(m: &mut Metadata, fresh: Metadata, key: String, value: Value)
    requires
        call_ensures(Metadata::insert, (m, key, value), ()),
        call_ensures(Metadata::new, (), fresh),
    ensures
        final(m)@.contains_key(key@),
        final(m)@[key@] == value_content(value),
        forall|other: Seq<char>|
            other != key@ ==> (#[trigger] final(m)@.contains_key(other) == old(m)@.contains_key(
                other,
            ) && final(m)@[other] == old(m)@[other]),
        forall|any: Seq<char>| !(#[trigger] fresh@.contains_key(any)),
{
}

/// The architecture is accepted if it is a text that says `qwen35`; otherwise the error says what it is, or
/// that there is none.
pub proof fn law_architecture(m: &Metadata, r: Result<String, ModelError>)
    requires
        call_ensures(verify_qwen35_arch, (m,), r),
    ensures
        ({
            let key = "general.architecture"@;
            let named = m@.contains_key(key) && m@[key] is Text;
            &&& named && m@[key]->Text_0 == "qwen35"@ ==> r is Ok && r->Ok_0@ == "qwen35"@
            &&& named && m@[key]->Text_0 != "qwen35"@ ==> r is Err && r->Err_0 is WrongArchitecture
                && r->Err_0->WrongArchitecture_0@ == m@[key]->Text_0
            &&& !named ==> r is Err && r->Err_0 is MissingArchitecture
        }),
{
}

} // verus!
