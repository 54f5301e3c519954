//! The data model: numbers, JSON values, the recursive type system, the contract,
//! the deployment endpoints and the derived descriptor. Keyed collections are entry lists
//! in ascending key order, as the contract's maps are.
use vstd::prelude::*;

use crate::strs::chars_eq;

verus! {

// ---------------------------------------------------------------- numbers

/// An IEEE-754 binary64 number, carried by its bit pattern and its `Display` rendering.
#[derive(Debug, PartialEq)]
pub struct Float {
    pub bits: u64,
    /// the number as `Display` prints it (e.g. `0.5`, `1`, `-3`)
    pub text: String,
}

pub open spec fn exponent_bits(b: u64) -> u64 {
    (b >> 52u64) & 0x7ffu64
}

pub open spec fn mantissa_bits(b: u64) -> u64 {
    b & 0xf_ffff_ffff_ffffu64
}

/// NaN: all exponent bits set and a non-zero mantissa.
pub open spec fn float_is_nan(b: u64) -> bool {
    exponent_bits(b) == 0x7ffu64 && mantissa_bits(b) != 0
}

/// Finite: not all exponent bits set.
pub open spec fn float_is_finite(b: u64) -> bool {
    exponent_bits(b) != 0x7ffu64
}

pub open spec fn magnitude_bits(b: u64) -> u64 {
    b & 0x7fff_ffff_ffff_ffffu64
}

/// The ordering key of a non-NaN binary64: the magnitude bits read as an unsigned integer grow
/// with the magnitude (the format's exponent-then-mantissa layout), negated for negative numbers,
/// so both zeros share the key 0.
pub open spec fn float_key(b: u64) -> int {
    if b >> 63u64 == 1 {
        -(magnitude_bits(b) as int)
    } else {
        magnitude_bits(b) as int
    }
}

/// IEEE `<` on binary64 values: false whenever a NaN is involved.
pub open spec fn float_lt(a: u64, b: u64) -> bool {
    !float_is_nan(a) && !float_is_nan(b) && float_key(a) < float_key(b)
}

/// IEEE `==` on binary64 values: false whenever a NaN is involved, `-0 == +0`.
pub open spec fn float_eq(a: u64, b: u64) -> bool {
    !float_is_nan(a) && !float_is_nan(b) && float_key(a) == float_key(b)
}

pub fn is_nan(b: u64) -> (r: bool)
    ensures
        r == float_is_nan(b),
{
    ((b >> 52u64) & 0x7ffu64) == 0x7ffu64 && (b & 0xf_ffff_ffff_ffffu64) != 0
}

pub fn is_finite(b: u64) -> (r: bool)
    ensures
        r == float_is_finite(b),
{
    ((b >> 52u64) & 0x7ffu64) != 0x7ffu64
}

fn key_of(b: u64) -> (r: i64)
    ensures
        r as int == float_key(b),
{
    let m: u64 = b & 0x7fff_ffff_ffff_ffffu64;
    assert(m <= 0x7fff_ffff_ffff_ffffu64) by (bit_vector)
        requires
            m == b & 0x7fff_ffff_ffff_ffffu64,
    ;
    let mi: i64 = m as i64;
    if (b >> 63u64) == 1 {
        -mi
    } else {
        mi
    }
}

/// `a < b` on binary64 bit patterns.
pub fn lt(a: u64, b: u64) -> (r: bool)
    ensures
        r == float_lt(a, b),
{
    !is_nan(a) && !is_nan(b) && key_of(a) < key_of(b)
}

/// `a == b` on binary64 bit patterns.
pub fn eq(a: u64, b: u64) -> (r: bool)
    ensures
        r == float_eq(a, b),
{
    !is_nan(a) && !is_nan(b) && key_of(a) == key_of(b)
}

/// A JSON number: its integer readings (when it is one), its binary64 reading and its text.
#[derive(Debug, PartialEq)]
pub struct Number {
    /// the number as an `i64`, when it is an integer in range
    pub int: Option<i64>,
    /// the number as a `u64`, when it is a non-negative integer in range
    pub uint: Option<u64>,
    /// the number as a binary64 value
    pub real: Float,
    /// the number as JSON writes it
    pub text: String,
    /// the binary64 reading as JSON writes a floating-point number (e.g. `1.0`)
    pub real_json: String,
}

/// A JSON value. Object entries are kept in ascending key order.
#[derive(Debug, PartialEq)]
pub enum Json {
    Null,
    Bool(bool),
    Number(Number),
    Str(String),
    Array(Vec<Json>),
    Object(Vec<(String, Json)>),
}

pub open spec fn json_kind_name(v: Json) -> Seq<char> {
    match v {
        Json::Null => "null"@,
        Json::Bool(_) => "bool"@,
        Json::Number(_) => "number"@,
        Json::Str(_) => "string"@,
        Json::Array(_) => "array"@,
        Json::Object(_) => "object"@,
    }
}

pub fn kind_name(v: &Json) -> (r: &'static str)
    ensures
        r@ == json_kind_name(*v),
{
    match v {
        Json::Null => "null",
        Json::Bool(_) => "bool",
        Json::Number(_) => "number",
        Json::Str(_) => "string",
        Json::Array(_) => "array",
        Json::Object(_) => "object",
    }
}

// ---------------------------------------------------------------- keyed entries

/// The well-formedness of a keyed entry list (the map it stands for): keys strictly ascending,
/// so each key occurs once and entries come in key order.
pub open spec fn keys_ascending<V>(entries: Seq<(String, V)>) -> bool {
    forall|i: int, j: int| 0 <= i < j < entries.len() ==> crate::strs::lex_lt(entries[i].0@, entries[j].0@)
}

/// Index of the first entry keyed `k` at or after `i`, or -1.
pub open spec fn find_key_from<V>(entries: Seq<(String, V)>, k: Seq<char>, i: int) -> int
    decreases entries.len() - i,
{
    if i < 0 || i >= entries.len() {
        -1
    } else if entries[i].0@ == k {
        i
    } else {
        find_key_from(entries, k, i + 1)
    }
}

/// Index of the first entry keyed `k`, or -1.
pub open spec fn find_key<V>(entries: Seq<(String, V)>, k: Seq<char>) -> int {
    find_key_from(entries, k, 0)
}

pub open spec fn has_key<V>(entries: Seq<(String, V)>, k: Seq<char>) -> bool {
    find_key(entries, k) >= 0
}

pub proof fn lemma_find_key_from<V>(entries: Seq<(String, V)>, k: Seq<char>, i: int)
    requires
        0 <= i,
    ensures
        find_key_from(entries, k, i) >= 0 ==> i <= find_key_from(entries, k, i) < entries.len()
            && entries[find_key_from(entries, k, i)].0@ == k,
        find_key_from(entries, k, i) >= -1,
        find_key_from(entries, k, i) == -1 ==> forall|j: int|
            i <= j < entries.len() ==> entries[j].0@ != k,
    decreases entries.len() - i,
{
    if i < entries.len() && entries[i].0@ != k {
        lemma_find_key_from(entries, k, i + 1);
    }
}

pub proof fn lemma_find_key<V>(entries: Seq<(String, V)>, k: Seq<char>)
    ensures
        find_key(entries, k) >= 0 ==> find_key(entries, k) < entries.len()
            && entries[find_key(entries, k)].0@ == k,
        find_key(entries, k) >= -1,
        find_key(entries, k) == -1 ==> forall|j: int|
            0 <= j < entries.len() ==> entries[j].0@ != k,
        (exists|j: int| 0 <= j < entries.len() && entries[j].0@ == k) ==> find_key(entries, k)
            >= 0,
{
    lemma_find_key_from(entries, k, 0);
}

/// The index of the first entry keyed `k`.
pub fn lookup<V>(entries: &Vec<(String, V)>, k: &str) -> (r: Option<usize>)
    ensures
        match r {
            Some(i) => find_key(entries@, k@) == i as int && i < entries@.len()
                && entries@[i as int].0@ == k@,
            None => find_key(entries@, k@) == -1,
        },
{
    proof {
        lemma_find_key(entries@, k@);
    }
    let kc = crate::strs::chars_of(k);
    let mut i: usize = 0;
    while i < entries.len()
        invariant
            i <= entries@.len(),
            kc@ == k@,
            find_key(entries@, k@) == find_key_from(entries@, k@, i as int),
        decreases entries@.len() - i,
    {
        let e = crate::strs::chars_of(entries[i].0.as_str());
        if chars_eq(&e, &kc) {
            return Some(i);
        }
        i = i + 1;
    }
    None
}

/// Whether any of `v` equals `s`.
pub open spec fn seq_has(v: Seq<String>, s: Seq<char>) -> bool {
    exists|i: int| 0 <= i < v.len() && v[i]@ == s
}

pub fn any_equals(v: &Vec<String>, s: &str) -> (r: bool)
    ensures
        r == seq_has(v@, s@),
{
    let sc = crate::strs::chars_of(s);
    let mut i: usize = 0;
    while i < v.len()
        invariant
            i <= v@.len(),
            sc@ == s@,
            forall|j: int| 0 <= j < i ==> v@[j]@ != s@,
        decreases v@.len() - i,
    {
        let e = crate::strs::chars_of(v[i].as_str());
        if chars_eq(&e, &sc) {
            return true;
        }
        i = i + 1;
    }
    false
}

// ---------------------------------------------------------------- types

/// The recursive type system.
#[derive(Debug, Clone, Copy, PartialEq, Eq, Structural)]
pub enum TypeName {
    Int,
    Float,
    Bool,
    String,
    /// base64 string on the JSON wire
    Bytes,
    /// integer epoch milliseconds
    Timestamp,
    Enum,
    Array,
    Dict,
    /// anonymous inline hierarchy
    Group,
    Union,
}

/// Type specification usable in items / any_of: the shorthand or the detailed form.
#[derive(Debug, PartialEq)]
pub enum TypeSpec {
    Name(TypeName),
    Detailed(Box<DetailedType>),
}

#[derive(Debug, PartialEq)]
pub struct DetailedType {
    pub ty: TypeName,
    /// element type of array / value type of map
    pub items: Option<TypeSpec>,
    /// enum values
    pub values: Vec<String>,
    /// union candidates
    pub any_of: Vec<TypeSpec>,
    /// group members
    pub fields: Vec<Field>,
    pub min: Option<Float>,
    pub max: Option<Float>,
    pub max_len: Option<u64>,
}

#[derive(Debug, PartialEq)]
pub struct Field {
    pub name: String,
    pub ty: TypeName,
    pub required: bool,
    pub default: Option<Json>,
    pub min: Option<Float>,
    pub max: Option<Float>,
    pub max_len: Option<u64>,
    /// enum values
    pub values: Vec<String>,
    /// array / map element type
    pub items: Option<TypeSpec>,
    /// union candidates
    pub any_of: Vec<TypeSpec>,
    /// group members
    pub fields: Vec<Field>,
}

// ---------------------------------------------------------------- contract

#[derive(Debug, Clone, Copy, PartialEq, Eq, Structural)]
pub enum NodeKind {
    Sahou,
    External,
}

/// A node is an identifier only (capabilities are derived from the wiring).
#[derive(Debug, Clone, Copy, PartialEq, Eq, Structural)]
pub struct Node {
    pub kind: NodeKind,
}

#[derive(Debug, Clone, Copy, PartialEq, Eq, Structural)]
pub enum Pattern {
    PubSub,
    Query,
}

#[derive(Debug, Clone, Copy, PartialEq, Eq, Structural)]
pub enum Reliability {
    BestEffort,
    Reliable,
}

#[derive(Debug, Clone, Copy, PartialEq, Eq, Structural)]
pub enum Congestion {
    Drop,
    Block,
}

#[derive(Debug, Clone, Copy, PartialEq, Eq, Structural)]
pub enum Priority {
    RealTime,
    InteractiveHigh,
    InteractiveLow,
    DataHigh,
    Data,
    DataLow,
    Background,
}

#[derive(Debug, Clone, Copy, PartialEq, Eq, Structural)]
pub enum Encoding {
    Json,
}

#[derive(Debug, Clone, Copy, PartialEq, Eq, Structural)]
pub enum ValidateLevel {
    Full,
    Sampled,
    Off,
}

#[derive(Debug, Clone, Copy, PartialEq, Eq, Structural)]
pub enum Typing {
    Any,
    Typed,
}

#[derive(Debug, Clone, Copy, PartialEq, Eq, Structural)]
pub enum SlotKind {
    Record,
    Opaque,
}

/// A shape slot (typing any = unvalidated / typed = validated).
#[derive(Debug, PartialEq)]
pub struct Slot {
    pub typing: Typing,
    pub kind: SlotKind,
    pub fields: Vec<Field>,
    /// encoding tag for opaque slots (e.g. "video/raw")
    pub encoding: Option<String>,
}

#[derive(Debug, PartialEq)]
pub struct Connection {
    pub pattern: Pattern,
    pub from: String,
    pub to: Vec<String>,
    /// keyexpr override (when omitted, derived from namespace + connection id)
    pub key: Option<String>,
    /// selector argument for a query (query pattern only)
    pub selector: Option<String>,
    pub reliability: Reliability,
    pub congestion: Congestion,
    pub priority: Priority,
    pub express: bool,
    pub encoding: Encoding,
    pub validate: ValidateLevel,
    pub payload: Option<Slot>,
    pub request: Option<Slot>,
    pub response: Option<Slot>,
}

/// The whole contract: the single editable source.
#[derive(Debug, PartialEq)]
pub struct Contract {
    pub schema: String,
    pub version: String,
    pub nodes: Vec<(String, Node)>,
    pub connections: Vec<(String, Connection)>,
}

/// A contract whose node and connection maps are well formed.
pub open spec fn contract_wf(c: Contract) -> bool {
    keys_ascending(c.nodes@) && keys_ascending(c.connections@)
}

// ---------------------------------------------------------------- descriptor

/// A connection as the derived descriptor carries it: with its resolved key and its hash.
#[derive(Debug, PartialEq)]
pub struct DescriptorConnection {
    pub pattern: Pattern,
    pub from: String,
    pub to: Vec<String>,
    /// resolved keyexpr
    pub key: String,
    /// per-connection hash (for the handshake attachment)
    pub hash: String,
    pub selector: Option<String>,
    pub reliability: Reliability,
    pub congestion: Congestion,
    pub priority: Priority,
    pub express: bool,
    pub encoding: Encoding,
    pub validate: ValidateLevel,
    pub payload: Option<Slot>,
    pub request: Option<Slot>,
    pub response: Option<Slot>,
}

/// The whole IR: a read-only derivation shared by every node.
#[derive(Debug, PartialEq)]
pub struct Descriptor {
    pub schema: String,
    pub version: String,
    pub namespace: String,
    pub nodes: Vec<(String, Node)>,
    pub connections: Vec<(String, DescriptorConnection)>,
}

/// A descriptor whose node and connection maps are well formed.
pub open spec fn descriptor_wf(d: Descriptor) -> bool {
    keys_ascending(d.nodes@) && keys_ascending(d.connections@)
}

} // verus!

verus! {

// ---------------------------------------------------------------- structural equality

pub open spec fn opt_str_eq(a: Option<String>, b: Option<String>) -> bool {
    match (a, b) {
        (Some(x), Some(y)) => x@ == y@,
        (None, None) => true,
        _ => false,
    }
}

pub open spec fn strs_eq(a: Seq<String>, b: Seq<String>) -> bool {
    a.len() == b.len() && forall|i: int| 0 <= i < a.len() ==> a[i]@ == b[i]@
}

pub open spec fn opt_float_eq(a: Option<Float>, b: Option<Float>) -> bool {
    match (a, b) {
        (Some(x), Some(y)) => float_eq(x.bits, y.bits),
        (None, None) => true,
        _ => false,
    }
}

/// Equality of JSON numbers: unsigned integers equal as integers, negative integers as integers,
/// other numbers by IEEE equality of their binary64 reading; numbers of different kinds differ.
pub open spec fn number_eq(a: Number, b: Number) -> bool {
    if a.uint is Some || b.uint is Some {
        a.uint == b.uint && a.uint is Some
    } else if a.int is Some || b.int is Some {
        a.int == b.int && a.int is Some
    } else {
        float_eq(a.real.bits, b.real.bits)
    }
}

/// Structural equality of JSON values (objects compare entry by entry, in key order).
pub open spec fn json_eq(a: Json, b: Json) -> bool
    decreases a,
{
    match (a, b) {
        (Json::Null, Json::Null) => true,
        (Json::Bool(x), Json::Bool(y)) => x == y,
        (Json::Number(x), Json::Number(y)) => number_eq(x, y),
        (Json::Str(x), Json::Str(y)) => x@ == y@,
        (Json::Array(x), Json::Array(y)) => jsons_eq(x@, y@),
        (Json::Object(x), Json::Object(y)) => entries_eq(x@, y@),
        _ => false,
    }
}

pub open spec fn jsons_eq(a: Seq<Json>, b: Seq<Json>) -> bool
    decreases a,
{
    if a.len() != b.len() {
        false
    } else if a.len() == 0 {
        true
    } else {
        jsons_eq(a.drop_last(), b.drop_last()) && json_eq(a.last(), b.last())
    }
}

pub open spec fn entries_eq(a: Seq<(String, Json)>, b: Seq<(String, Json)>) -> bool
    decreases a,
{
    if a.len() != b.len() {
        false
    } else if a.len() == 0 {
        true
    } else {
        entries_eq(a.drop_last(), b.drop_last()) && a.last().0@ == b.last().0@ && json_eq(
            a.last().1,
            b.last().1,
        )
    }
}

pub open spec fn opt_json_eq(a: Option<Json>, b: Option<Json>) -> bool {
    match (a, b) {
        (Some(x), Some(y)) => json_eq(x, y),
        (None, None) => true,
        _ => false,
    }
}

/// Structural equality of type specifications (bounds compare by IEEE equality).
pub open spec fn spec_eq(a: TypeSpec, b: TypeSpec) -> bool
    decreases a,
{
    match (a, b) {
        (TypeSpec::Name(x), TypeSpec::Name(y)) => x == y,
        (TypeSpec::Detailed(x), TypeSpec::Detailed(y)) => x.ty == y.ty && opt_spec_eq(
            x.items,
            y.items,
        ) && strs_eq(x.values@, y.values@) && specs_eq(x.any_of@, y.any_of@) && fields_eq(
            x.fields@,
            y.fields@,
        ) && opt_float_eq(x.min, y.min) && opt_float_eq(x.max, y.max) && x.max_len == y.max_len,
        _ => false,
    }
}

pub open spec fn opt_spec_eq(a: Option<TypeSpec>, b: Option<TypeSpec>) -> bool
    decreases a,
{
    match (a, b) {
        (Some(x), Some(y)) => spec_eq(x, y),
        (None, None) => true,
        _ => false,
    }
}

pub open spec fn specs_eq(a: Seq<TypeSpec>, b: Seq<TypeSpec>) -> bool
    decreases a,
{
    if a.len() != b.len() {
        false
    } else if a.len() == 0 {
        true
    } else {
        specs_eq(a.drop_last(), b.drop_last()) && spec_eq(a.last(), b.last())
    }
}

pub open spec fn field_eq(a: Field, b: Field) -> bool
    decreases a,
{
    a.name@ == b.name@ && a.ty == b.ty && a.required == b.required && opt_json_eq(
        a.default,
        b.default,
    ) && opt_float_eq(a.min, b.min) && opt_float_eq(a.max, b.max) && a.max_len == b.max_len
        && strs_eq(a.values@, b.values@) && opt_spec_eq(a.items, b.items) && specs_eq(
        a.any_of@,
        b.any_of@,
    ) && fields_eq(a.fields@, b.fields@)
}

pub open spec fn fields_eq(a: Seq<Field>, b: Seq<Field>) -> bool
    decreases a,
{
    if a.len() != b.len() {
        false
    } else if a.len() == 0 {
        true
    } else {
        fields_eq(a.drop_last(), b.drop_last()) && field_eq(a.last(), b.last())
    }
}

} // verus!

verus! {

pub fn opt_str_equal(a: &Option<String>, b: &Option<String>) -> (r: bool)
    ensures
        r == opt_str_eq(*a, *b),
{
    match (a, b) {
        (Some(x), Some(y)) => crate::strs::string_eq(x.as_str(), y.as_str()),
        (None, None) => true,
        _ => false,
    }
}

pub fn strs_equal(a: &Vec<String>, b: &Vec<String>) -> (r: bool)
    ensures
        r == strs_eq(a@, b@),
{
    if a.len() != b.len() {
        return false;
    }
    let mut i: usize = 0;
    while i < a.len()
        invariant
            a@.len() == b@.len(),
            i <= a@.len(),
            forall|j: int| 0 <= j < i ==> a@[j]@ == b@[j]@,
        decreases a@.len() - i,
    {
        if !crate::strs::string_eq(a[i].as_str(), b[i].as_str()) {
            return false;
        }
        i = i + 1;
    }
    true
}

pub fn opt_float_equal(a: &Option<Float>, b: &Option<Float>) -> (r: bool)
    ensures
        r == opt_float_eq(*a, *b),
{
    match (a, b) {
        (Some(x), Some(y)) => eq(x.bits, y.bits),
        (None, None) => true,
        _ => false,
    }
}

pub fn number_equal(a: &Number, b: &Number) -> (r: bool)
    ensures
        r == number_eq(*a, *b),
{
    if a.uint.is_some() || b.uint.is_some() {
        match (a.uint, b.uint) {
            (Some(x), Some(y)) => x == y,
            _ => false,
        }
    } else if a.int.is_some() || b.int.is_some() {
        match (a.int, b.int) {
            (Some(x), Some(y)) => x == y,
            _ => false,
        }
    } else {
        eq(a.real.bits, b.real.bits)
    }
}

pub fn json_equal(a: &Json, b: &Json) -> (r: bool)
    ensures
        r == json_eq(*a, *b),
    decreases *a,
{
    match (a, b) {
        (Json::Null, Json::Null) => true,
        (Json::Bool(x), Json::Bool(y)) => *x == *y,
        (Json::Number(x), Json::Number(y)) => number_equal(x, y),
        (Json::Str(x), Json::Str(y)) => crate::strs::string_eq(x.as_str(), y.as_str()),
        (Json::Array(x), Json::Array(y)) => jsons_equal(x, y),
        (Json::Object(x), Json::Object(y)) => entries_equal(x, y),
        _ => false,
    }
}

pub fn jsons_equal(a: &Vec<Json>, b: &Vec<Json>) -> (r: bool)
    ensures
        r == jsons_eq(a@, b@),
    decreases a@,
{
    if a.len() != b.len() {
        return false;
    }
    let mut i: usize = 0;
    assert(jsons_eq(a@.take(0), b@.take(0)));
    while i < a.len()
        invariant
            a@.len() == b@.len(),
            i <= a@.len(),
            jsons_eq(a@.take(i as int), b@.take(i as int)),
        decreases a@.len() - i,
    {
        let e = json_equal(&a[i], &b[i]);
        proof {
            assert(a@.take(i + 1).drop_last() =~= a@.take(i as int));
            assert(b@.take(i + 1).drop_last() =~= b@.take(i as int));
        }
        if !e {
            proof { lemma_jsons_prefix(a@, b@, i + 1); }
            return false;
        }
        i = i + 1;
    }
    assert(a@.take(a@.len() as int) =~= a@);
    assert(b@.take(b@.len() as int) =~= b@);
    true
}

proof fn lemma_jsons_prefix(a: Seq<Json>, b: Seq<Json>, k: int)
    requires
        a.len() == b.len(),
        0 <= k <= a.len(),
        !jsons_eq(a.take(k), b.take(k)),
    ensures
        !jsons_eq(a, b),
    decreases a.len() - k,
{
    if k < a.len() {
        assert(a.take(k + 1).drop_last() =~= a.take(k));
        assert(b.take(k + 1).drop_last() =~= b.take(k));
        lemma_jsons_prefix(a, b, k + 1);
    } else {
        assert(a.take(k) =~= a);
        assert(b.take(k) =~= b);
    }
}

pub fn entries_equal(a: &Vec<(String, Json)>, b: &Vec<(String, Json)>) -> (r: bool)
    ensures
        r == entries_eq(a@, b@),
    decreases a@,
{
    if a.len() != b.len() {
        return false;
    }
    let mut i: usize = 0;
    assert(entries_eq(a@.take(0), b@.take(0)));
    while i < a.len()
        invariant
            a@.len() == b@.len(),
            i <= a@.len(),
            entries_eq(a@.take(i as int), b@.take(i as int)),
        decreases a@.len() - i,
    {
        let e = crate::strs::string_eq(a[i].0.as_str(), b[i].0.as_str()) && json_equal(
            &a[i].1,
            &b[i].1,
        );
        proof {
            assert(a@.take(i + 1).drop_last() =~= a@.take(i as int));
            assert(b@.take(i + 1).drop_last() =~= b@.take(i as int));
        }
        if !e {
            proof { lemma_entries_prefix(a@, b@, i + 1); }
            return false;
        }
        i = i + 1;
    }
    assert(a@.take(a@.len() as int) =~= a@);
    assert(b@.take(b@.len() as int) =~= b@);
    true
}

proof fn lemma_entries_prefix(a: Seq<(String, Json)>, b: Seq<(String, Json)>, k: int)
    requires
        a.len() == b.len(),
        0 <= k <= a.len(),
        !entries_eq(a.take(k), b.take(k)),
    ensures
        !entries_eq(a, b),
    decreases a.len() - k,
{
    if k < a.len() {
        assert(a.take(k + 1).drop_last() =~= a.take(k));
        assert(b.take(k + 1).drop_last() =~= b.take(k));
        lemma_entries_prefix(a, b, k + 1);
    } else {
        assert(a.take(k) =~= a);
        assert(b.take(k) =~= b);
    }
}

pub fn opt_json_equal(a: &Option<Json>, b: &Option<Json>) -> (r: bool)
    ensures
        r == opt_json_eq(*a, *b),
{
    match (a, b) {
        (Some(x), Some(y)) => json_equal(x, y),
        (None, None) => true,
        _ => false,
    }
}

pub fn spec_equal(a: &TypeSpec, b: &TypeSpec) -> (r: bool)
    ensures
        r == spec_eq(*a, *b),
    decreases *a,
{
    match (a, b) {
        (TypeSpec::Name(x), TypeSpec::Name(y)) => *x == *y,
        (TypeSpec::Detailed(x), TypeSpec::Detailed(y)) => {
            x.ty == y.ty && opt_spec_equal(&x.items, &y.items) && strs_equal(&x.values, &y.values)
                && specs_equal(&x.any_of, &y.any_of) && fields_equal(&x.fields, &y.fields)
                && opt_float_equal(&x.min, &y.min) && opt_float_equal(&x.max, &y.max)
                && x.max_len == y.max_len
        },
        _ => false,
    }
}

pub fn opt_spec_equal(a: &Option<TypeSpec>, b: &Option<TypeSpec>) -> (r: bool)
    ensures
        r == opt_spec_eq(*a, *b),
    decreases *a,
{
    match (a, b) {
        (Some(x), Some(y)) => spec_equal(x, y),
        (None, None) => true,
        _ => false,
    }
}

pub fn specs_equal(a: &Vec<TypeSpec>, b: &Vec<TypeSpec>) -> (r: bool)
    ensures
        r == specs_eq(a@, b@),
    decreases a@,
{
    if a.len() != b.len() {
        return false;
    }
    let mut i: usize = 0;
    assert(specs_eq(a@.take(0), b@.take(0)));
    while i < a.len()
        invariant
            a@.len() == b@.len(),
            i <= a@.len(),
            specs_eq(a@.take(i as int), b@.take(i as int)),
        decreases a@.len() - i,
    {
        let e = spec_equal(&a[i], &b[i]);
        proof {
            assert(a@.take(i + 1).drop_last() =~= a@.take(i as int));
            assert(b@.take(i + 1).drop_last() =~= b@.take(i as int));
        }
        if !e {
            proof { lemma_specs_prefix(a@, b@, i + 1); }
            return false;
        }
        i = i + 1;
    }
    assert(a@.take(a@.len() as int) =~= a@);
    assert(b@.take(b@.len() as int) =~= b@);
    true
}

proof fn lemma_specs_prefix(a: Seq<TypeSpec>, b: Seq<TypeSpec>, k: int)
    requires
        a.len() == b.len(),
        0 <= k <= a.len(),
        !specs_eq(a.take(k), b.take(k)),
    ensures
        !specs_eq(a, b),
    decreases a.len() - k,
{
    if k < a.len() {
        assert(a.take(k + 1).drop_last() =~= a.take(k));
        assert(b.take(k + 1).drop_last() =~= b.take(k));
        lemma_specs_prefix(a, b, k + 1);
    } else {
        assert(a.take(k) =~= a);
        assert(b.take(k) =~= b);
    }
}

pub fn field_equal(a: &Field, b: &Field) -> (r: bool)
    ensures
        r == field_eq(*a, *b),
    decreases *a,
{
    crate::strs::string_eq(a.name.as_str(), b.name.as_str()) && a.ty == b.ty && a.required
        == b.required && opt_json_equal(&a.default, &b.default) && opt_float_equal(&a.min, &b.min)
        && opt_float_equal(&a.max, &b.max) && a.max_len == b.max_len && strs_equal(
        &a.values,
        &b.values,
    ) && opt_spec_equal(&a.items, &b.items) && specs_equal(&a.any_of, &b.any_of) && fields_equal(
        &a.fields,
        &b.fields,
    )
}

pub fn fields_equal(a: &Vec<Field>, b: &Vec<Field>) -> (r: bool)
    ensures
        r == fields_eq(a@, b@),
    decreases a@,
{
    if a.len() != b.len() {
        return false;
    }
    let mut i: usize = 0;
    assert(fields_eq(a@.take(0), b@.take(0)));
    while i < a.len()
        invariant
            a@.len() == b@.len(),
            i <= a@.len(),
            fields_eq(a@.take(i as int), b@.take(i as int)),
        decreases a@.len() - i,
    {
        let e = field_equal(&a[i], &b[i]);
        proof {
            assert(a@.take(i + 1).drop_last() =~= a@.take(i as int));
            assert(b@.take(i + 1).drop_last() =~= b@.take(i as int));
        }
        if !e {
            proof { lemma_fields_prefix(a@, b@, i + 1); }
            return false;
        }
        i = i + 1;
    }
    assert(a@.take(a@.len() as int) =~= a@);
    assert(b@.take(b@.len() as int) =~= b@);
    true
}

proof fn lemma_fields_prefix(a: Seq<Field>, b: Seq<Field>, k: int)
    requires
        a.len() == b.len(),
        0 <= k <= a.len(),
        !fields_eq(a.take(k), b.take(k)),
    ensures
        !fields_eq(a, b),
    decreases a.len() - k,
{
    if k < a.len() {
        assert(a.take(k + 1).drop_last() =~= a.take(k));
        assert(b.take(k + 1).drop_last() =~= b.take(k));
        lemma_fields_prefix(a, b, k + 1);
    } else {
        assert(a.take(k) =~= a);
        assert(b.take(k) =~= b);
    }
}

} // verus!

verus! {

// ---------------------------------------------------------------- copies

pub fn copy_float(f: &Float) -> (r: Float)
    ensures
        r == *f,
{
    Float { bits: f.bits, text: f.text.clone() }
}

pub fn copy_opt_float(f: &Option<Float>) -> (r: Option<Float>)
    ensures
        r == *f,
{
    match f {
        Some(x) => Some(copy_float(x)),
        None => None,
    }
}

pub fn copy_strings(v: &Vec<String>) -> (r: Vec<String>)
    ensures
        r@ == v@,
{
    let mut r: Vec<String> = Vec::new();
    let mut i: usize = 0;
    while i < v.len()
        invariant
            i <= v@.len(),
            r@ == v@.take(i as int),
        decreases v@.len() - i,
    {
        r.push(v[i].clone());
        i = i + 1;
        assert(r@ =~= v@.take(i as int));
    }
    assert(v@.take(v@.len() as int) =~= v@);
    r
}

} // verus!

verus! {

// ---------------------------------------------------------------- reflexivity of the equalities

/// No number in the value is a NaN binary64 (a NaN equals nothing, itself included).
pub open spec fn json_nan_free(j: Json) -> bool
    decreases j,
{
    match j {
        Json::Number(n) => n.uint is Some || n.int is Some || !float_is_nan(n.real.bits),
        Json::Array(x) => jsons_nan_free(x@),
        Json::Object(x) => entries_nan_free(x@),
        _ => true,
    }
}

pub open spec fn jsons_nan_free(a: Seq<Json>) -> bool
    decreases a,
{
    if a.len() == 0 {
        true
    } else {
        jsons_nan_free(a.drop_last()) && json_nan_free(a.last())
    }
}

pub open spec fn entries_nan_free(a: Seq<(String, Json)>) -> bool
    decreases a,
{
    if a.len() == 0 {
        true
    } else {
        entries_nan_free(a.drop_last()) && json_nan_free(a.last().1)
    }
}

pub open spec fn opt_float_nan_free(f: Option<Float>) -> bool {
    match f {
        Some(x) => !float_is_nan(x.bits),
        None => true,
    }
}

/// No bound and no default number of the type is NaN.
pub open spec fn spec_nan_free(a: TypeSpec) -> bool
    decreases a,
{
    match a {
        TypeSpec::Name(_) => true,
        TypeSpec::Detailed(x) => opt_spec_nan_free(x.items) && specs_nan_free(x.any_of@) && fields_nan_free(
            x.fields@,
        ) && opt_float_nan_free(x.min) && opt_float_nan_free(x.max),
    }
}

pub open spec fn opt_spec_nan_free(a: Option<TypeSpec>) -> bool
    decreases a,
{
    match a {
        Some(x) => spec_nan_free(x),
        None => true,
    }
}

pub open spec fn specs_nan_free(a: Seq<TypeSpec>) -> bool
    decreases a,
{
    if a.len() == 0 {
        true
    } else {
        specs_nan_free(a.drop_last()) && spec_nan_free(a.last())
    }
}

pub open spec fn field_nan_free(a: Field) -> bool
    decreases a,
{
    (match a.default {
        Some(j) => json_nan_free(j),
        None => true,
    }) && opt_float_nan_free(a.min) && opt_float_nan_free(a.max) && opt_spec_nan_free(a.items)
        && specs_nan_free(a.any_of@) && fields_nan_free(a.fields@)
}

pub open spec fn fields_nan_free(a: Seq<Field>) -> bool
    decreases a,
{
    if a.len() == 0 {
        true
    } else {
        fields_nan_free(a.drop_last()) && field_nan_free(a.last())
    }
}

/// A JSON value without NaN equals itself.
pub proof fn lemma_json_eq_refl(a: Json)
    requires
        json_nan_free(a),
    ensures
        json_eq(a, a),
    decreases a,
{
    match a {
        Json::Array(x) => lemma_jsons_eq_refl(x@),
        Json::Object(x) => lemma_entries_eq_refl(x@),
        _ => {},
    }
}

pub proof fn lemma_jsons_eq_refl(a: Seq<Json>)
    requires
        jsons_nan_free(a),
    ensures
        jsons_eq(a, a),
    decreases a,
{
    if a.len() > 0 {
        lemma_jsons_eq_refl(a.drop_last());
        lemma_json_eq_refl(a.last());
    }
}

pub proof fn lemma_entries_eq_refl(a: Seq<(String, Json)>)
    requires
        entries_nan_free(a),
    ensures
        entries_eq(a, a),
    decreases a,
{
    if a.len() > 0 {
        lemma_entries_eq_refl(a.drop_last());
        lemma_json_eq_refl(a.last().1);
    }
}

/// A type without NaN bounds equals itself.
pub proof fn lemma_spec_eq_refl(a: TypeSpec)
    requires
        spec_nan_free(a),
    ensures
        spec_eq(a, a),
    decreases a,
{
    match a {
        TypeSpec::Name(_) => {},
        TypeSpec::Detailed(x) => {
            lemma_opt_spec_eq_refl(x.items);
            lemma_specs_eq_refl(x.any_of@);
            lemma_fields_eq_refl(x.fields@);
            assert(strs_eq(x.values@, x.values@));
        },
    }
}

pub proof fn lemma_opt_spec_eq_refl(a: Option<TypeSpec>)
    requires
        opt_spec_nan_free(a),
    ensures
        opt_spec_eq(a, a),
    decreases a,
{
    if let Some(x) = a {
        lemma_spec_eq_refl(x);
    }
}

pub proof fn lemma_specs_eq_refl(a: Seq<TypeSpec>)
    requires
        specs_nan_free(a),
    ensures
        specs_eq(a, a),
    decreases a,
{
    if a.len() > 0 {
        lemma_specs_eq_refl(a.drop_last());
        lemma_spec_eq_refl(a.last());
    }
}

pub proof fn lemma_field_eq_refl(a: Field)
    requires
        field_nan_free(a),
    ensures
        field_eq(a, a),
    decreases a,
{
    if let Some(j) = a.default {
        lemma_json_eq_refl(j);
    }
    lemma_opt_spec_eq_refl(a.items);
    lemma_specs_eq_refl(a.any_of@);
    lemma_fields_eq_refl(a.fields@);
    assert(strs_eq(a.values@, a.values@));
}

pub proof fn lemma_fields_eq_refl(a: Seq<Field>)
    requires
        fields_nan_free(a),
    ensures
        fields_eq(a, a),
    decreases a,
{
    if a.len() > 0 {
        lemma_fields_eq_refl(a.drop_last());
        lemma_field_eq_refl(a.last());
    }
}

pub proof fn lemma_fields_nan_free_elem(a: Seq<Field>, i: int)
    requires
        fields_nan_free(a),
        0 <= i < a.len(),
    ensures
        field_nan_free(a[i]),
    decreases a.len(),
{
    if i < a.len() - 1 {
        lemma_fields_nan_free_elem(a.drop_last(), i);
    }
}

} // verus!
