//! Payload validation: a JSON value checked against a slot's fields, producing positional
//! diagnostics (`$.a.b[2]`). Unknown fields are ignored (forward compatibility); only the
//! defined fields are checked.
use vstd::prelude::*;

use crate::diag::{dv, Diag, DiagView, diag_views};
use crate::model::{
    any_equals, find_key, has_key, json_kind_name, kind_name, lookup, lt, float_lt, seq_has, Field,
    Float, Json, Slot, SlotKind, TypeName, TypeSpec, Typing,
};
use base64::Engine;
use crate::strs::{
    contains, debug_list, debug_string_list, decimal, push_decimal, views,
};

verus! {

// ---------------------------------------------------------------- type views

/// What a field or a type specification says about a value, in one shape.
pub struct TV {
    pub ty: TypeName,
    pub min: Option<Float>,
    pub max: Option<Float>,
    pub max_len: Option<u64>,
    pub values: Seq<String>,
    pub items: Option<TypeSpec>,
    pub any_of: Seq<TypeSpec>,
    pub fields: Seq<Field>,
}

pub open spec fn tv_field(f: Field) -> TV {
    TV {
        ty: f.ty,
        min: f.min,
        max: f.max,
        max_len: f.max_len,
        values: f.values@,
        items: f.items,
        any_of: f.any_of@,
        fields: f.fields@,
    }
}

pub open spec fn tv_spec(s: TypeSpec) -> TV {
    match s {
        TypeSpec::Name(ty) => TV {
            ty,
            min: None,
            max: None,
            max_len: None,
            values: seq![],
            items: None,
            any_of: seq![],
            fields: seq![],
        },
        TypeSpec::Detailed(d) => TV {
            ty: d.ty,
            min: d.min,
            max: d.max,
            max_len: d.max_len,
            values: d.values@,
            items: d.items,
            any_of: d.any_of@,
            fields: d.fields@,
        },
    }
}

// ---------------------------------------------------------------- sizes (termination)

pub open spec fn h_spec(s: TypeSpec) -> nat
    decreases s,
{
    match s {
        TypeSpec::Name(_) => 1,
        TypeSpec::Detailed(d) => 1 + h_opt(d.items) + h_specs(d.any_of@) + h_fields(d.fields@),
    }
}

pub open spec fn h_opt(s: Option<TypeSpec>) -> nat
    decreases s,
{
    match s {
        Some(x) => h_spec(x),
        None => 0,
    }
}

pub open spec fn h_specs(v: Seq<TypeSpec>) -> nat
    decreases v,
{
    if v.len() == 0 {
        0
    } else {
        h_spec(v.last()) + h_specs(v.drop_last())
    }
}

pub open spec fn h_field(f: Field) -> nat
    decreases f,
{
    1 + h_opt(f.items) + h_specs(f.any_of@) + h_fields(f.fields@)
}

pub open spec fn h_fields(v: Seq<Field>) -> nat
    decreases v,
{
    if v.len() == 0 {
        0
    } else {
        h_field(v.last()) + h_fields(v.drop_last())
    }
}

pub open spec fn h_tv(t: TV) -> nat {
    1 + h_opt(t.items) + h_specs(t.any_of) + h_fields(t.fields)
}

pub proof fn lemma_h_spec_pos(s: TypeSpec)
    ensures
        h_spec(s) >= 1,
        h_tv(tv_spec(s)) == h_spec(s),
{
}

pub proof fn lemma_h_field(f: Field)
    ensures
        h_field(f) >= 1,
        h_tv(tv_field(f)) == h_field(f),
{
}

pub proof fn lemma_h_specs_elem(v: Seq<TypeSpec>, i: int)
    requires
        0 <= i < v.len(),
    ensures
        h_spec(v[i]) <= h_specs(v),
        h_specs(v.take(i)) + h_spec(v[i]) <= h_specs(v),
    decreases v.len(),
{
    if i < v.len() - 1 {
        lemma_h_specs_elem(v.drop_last(), i);
        assert(v.drop_last().take(i) =~= v.take(i));
    } else {
        assert(v.drop_last() =~= v.take(i));
    }
}

pub proof fn lemma_h_fields_elem(v: Seq<Field>, i: int)
    requires
        0 <= i < v.len(),
    ensures
        h_field(v[i]) <= h_fields(v),
    decreases v.len(),
{
    if i < v.len() - 1 {
        lemma_h_fields_elem(v.drop_last(), i);
    }
}

// ---------------------------------------------------------------- the judgement

pub open spec fn key_path(path: Seq<char>, k: Seq<char>) -> Seq<char> {
    path + seq!['.'] + k
}

pub open spec fn idx_path(path: Seq<char>, i: nat) -> Seq<char> {
    path + seq!['['] + decimal(i) + seq![']']
}

pub open spec fn mismatch(path: Seq<char>, what: Seq<char>, v: Json) -> Seq<DiagView> {
    seq![dv("type_mismatch"@, path, "expected "@ + what + " but got "@ + json_kind_name(v))]
}

/// The value stored under `k` in an object's entries, if any.
pub open spec fn obj_get(entries: Seq<(String, Json)>, k: Seq<char>) -> Option<Json> {
    if has_key(entries, k) {
        Some(entries[find_key(entries, k)].1)
    } else {
        None
    }
}

/// The range judgement of a number `n` (its binary64 reading): below `min` first, then above `max`.
pub open spec fn range_diags(t: TV, n: Float, path: Seq<char>) -> Seq<DiagView> {
    let below = match t.min {
        Some(lo) => float_lt(n.bits, lo.bits),
        None => false,
    };
    let above = match t.max {
        Some(hi) => float_lt(hi.bits, n.bits),
        None => false,
    };
    if below {
        seq![dv("out_of_range"@, path, n.text@ + " < min("@ + t.min->0.text@ + ")"@)]
    } else if above {
        seq![dv("out_of_range"@, path, n.text@ + " > max("@ + t.max->0.text@ + ")"@)]
    } else {
        seq![]
    }
}

/// The value of a character of the standard base64 alphabet (`A-Z a-z 0-9 + /`), or -1.
pub open spec fn b64_value(c: char) -> int {
    if 'A' <= c && c <= 'Z' {
        (c as int) - ('A' as int)
    } else if 'a' <= c && c <= 'z' {
        (c as int) - ('a' as int) + 26
    } else if '0' <= c && c <= '9' {
        (c as int) - ('0' as int) + 52
    } else if c == '+' {
        62
    } else if c == '/' {
        63
    } else {
        -1
    }
}

/// Whether text is canonical standard base64, as the standard padded engine requires: whole
/// groups of four, alphabet characters only but for one or two final `=`, and the bits that
/// the padding leaves over in the last character all zero.
pub open spec fn base64_accepts(s: Seq<char>) -> bool {
    let n = s.len() as int;
    let pads: int = if n >= 1 && s[n - 1] == '=' {
        if n >= 2 && s[n - 2] == '=' {
            2
        } else {
            1
        }
    } else {
        0
    };
    &&& n % 4 == 0
    &&& forall|i: int| 0 <= i < n - pads ==> #[trigger] b64_value(s[i]) >= 0
    &&& (pads == 1 ==> b64_value(s[n - 2]) % 4 == 0)
    &&& (pads == 2 ==> b64_value(s[n - 3]) % 16 == 0)
}

/// Decoding with the standard padded base64 engine (`base64::engine::general_purpose::STANDARD`,
/// which requires canonical padding and no trailing bits): it succeeds exactly on the texts
/// `base64_accepts` describes.
#[verifier::external_body]
pub(crate) fn base64_decodes(s: &str) -> (r: bool)
    ensures
        r == base64_accepts(s@),
{
    base64::engine::general_purpose::STANDARD.decode(s).is_ok()
}

/// The diagnostics of `v` against the type view `t`, at `path`.
pub open spec fn value_diags(t: TV, v: Json, path: Seq<char>) -> Seq<DiagView>
    decreases h_tv(t), 0nat, 0nat,
{
    match t.ty {
        TypeName::Int => match v {
            Json::Number(n) if n.int is Some => range_diags(t, n.real, path),
            _ => mismatch(path, "int"@, v),
        },
        TypeName::Float => match v {
            Json::Number(n) => range_diags(t, n.real, path),
            _ => mismatch(path, "float"@, v),
        },
        TypeName::Bool => match v {
            Json::Bool(_) => seq![],
            _ => mismatch(path, "bool"@, v),
        },
        TypeName::String => match v {
            Json::Str(s) => match t.max_len {
                Some(m) => if s@.len() > m {
                    seq![
                        dv(
                            "too_long"@,
                            path,
                            "string length "@ + decimal(s@.len()) + " exceeds max_len "@
                                + decimal(m as nat),
                        ),
                    ]
                } else {
                    seq![]
                },
                None => seq![],
            },
            _ => mismatch(path, "string"@, v),
        },
        TypeName::Bytes => match v {
            Json::Str(s) => if base64_accepts(s@) {
                seq![]
            } else {
                seq![dv("bad_base64"@, path, "bytes must be a base64 string"@)]
            },
            _ => mismatch(path, "bytes (base64 string)"@, v),
        },
        TypeName::Timestamp => match v {
            Json::Number(n) if n.int is Some => seq![],
            _ => mismatch(path, "timestamp (epoch ms integer)"@, v),
        },
        TypeName::Enum => match v {
            Json::Str(s) => if seq_has(t.values, s@) {
                seq![]
            } else {
                seq![
                    dv(
                        "enum_mismatch"@,
                        path,
                        "'"@ + s@ + "' is not among the allowed values "@ + debug_list(
                            views(t.values),
                        ),
                    ),
                ]
            },
            _ => mismatch(path, "enum (string)"@, v),
        },
        TypeName::Array => match v {
            Json::Array(items) => match t.items {
                Some(s) => {
                    proof {
                        lemma_h_spec_pos(s);
                    }
                    elems_diags(tv_spec(s), items@, path)
                },
                None => seq![],
            },
            _ => mismatch(path, "array"@, v),
        },
        TypeName::Dict => match v {
            Json::Object(entries) => match t.items {
                Some(s) => {
                    proof {
                        lemma_h_spec_pos(s);
                    }
                    entries_diags(tv_spec(s), entries@, path)
                },
                None => seq![],
            },
            _ => mismatch(path, "map"@, v),
        },
        TypeName::Group => record_diags(t.fields, v, path),
        TypeName::Union => if union_matches(t.any_of, v) {
            seq![]
        } else {
            seq![
                dv(
                    "no_union_match"@,
                    path,
                    json_kind_name(v) + " matches none of the candidate types"@,
                ),
            ]
        },
    }
}

/// The diagnostics of each element of an array, at `path[i]`.
pub open spec fn elems_diags(t: TV, items: Seq<Json>, path: Seq<char>) -> Seq<DiagView>
    decreases h_tv(t), 1nat, items.len(),
{
    if items.len() == 0 {
        seq![]
    } else {
        elems_diags(t, items.drop_last(), path) + value_diags(
            t,
            items.last(),
            idx_path(path, (items.len() - 1) as nat),
        )
    }
}

/// The diagnostics of each value of a map, at `path.key`.
pub open spec fn entries_diags(t: TV, entries: Seq<(String, Json)>, path: Seq<char>) -> Seq<
    DiagView,
>
    decreases h_tv(t), 1nat, entries.len(),
{
    if entries.len() == 0 {
        seq![]
    } else {
        entries_diags(t, entries.drop_last(), path) + value_diags(
            t,
            entries.last().1,
            key_path(path, entries.last().0@),
        )
    }
}

/// Whether some candidate of a union accepts `v` with no diagnostic.
pub open spec fn union_matches(any_of: Seq<TypeSpec>, v: Json) -> bool
    decreases h_specs(any_of), 1nat, 0nat,
{
    if any_of.len() == 0 {
        false
    } else {
        proof {
            lemma_h_spec_pos(any_of.last());
        }
        union_matches(any_of.drop_last(), v) || value_diags(
            tv_spec(any_of.last()),
            v,
            "$"@,
        ).len() == 0
    }
}

/// The diagnostics of one defined field of a record.
pub open spec fn field_diags(f: Field, entries: Seq<(String, Json)>, path: Seq<char>) -> Seq<
    DiagView,
>
    decreases h_field(f), 0nat, 1nat,
{
    match obj_get(entries, f.name@) {
        None => if f.required {
            seq![
                dv(
                    "required"@,
                    key_path(path, f.name@),
                    "missing required field '"@ + f.name@ + "'"@,
                ),
            ]
        } else {
            seq![]
        },
        Some(Json::Null) => if f.required {
            seq![
                dv(
                    "required"@,
                    key_path(path, f.name@),
                    "missing required field '"@ + f.name@ + "'"@,
                ),
            ]
        } else {
            seq![]
        },
        Some(x) => {
            proof {
                lemma_h_field(f);
            }
            value_diags(tv_field(f), x, key_path(path, f.name@))
        },
    }
}

/// The diagnostics of each defined field, in order.
pub open spec fn fields_diags(fields: Seq<Field>, entries: Seq<(String, Json)>, path: Seq<char>) -> Seq<
    DiagView,
>
    decreases h_fields(fields), 1nat, 0nat,
{
    if fields.len() == 0 {
        seq![]
    } else {
        proof {
            lemma_h_field(fields.last());
        }
        fields_diags(fields.drop_last(), entries, path) + field_diags(fields.last(), entries, path)
    }
}

/// The diagnostics of a record: it must be an object; then each defined field is judged.
pub open spec fn record_diags(fields: Seq<Field>, v: Json, path: Seq<char>) -> Seq<DiagView>
    decreases h_fields(fields), 2nat, 0nat,
{
    match v {
        Json::Object(entries) => fields_diags(fields, entries@, path),
        _ => mismatch(path, "record"@, v),
    }
}

/// Whether a slot is exempt from validation (untyped, or opaque bytes).
pub open spec fn unvalidated(slot: Slot) -> bool {
    slot.typing == Typing::Any || slot.kind == SlotKind::Opaque
}

/// The diagnostics of a payload against a slot.
pub open spec fn payload_diags(slot: Slot, v: Json) -> Seq<DiagView> {
    if unvalidated(slot) {
        seq![]
    } else {
        record_diags(slot.fields@, v, "$"@)
    }
}

// ---------------------------------------------------------------- exec

/// The type view being validated, borrowed from a field or a type specification.
pub struct TypeView<'a> {
    pub ty: TypeName,
    pub min: &'a Option<Float>,
    pub max: &'a Option<Float>,
    pub max_len: Option<u64>,
    pub values: &'a Vec<String>,
    pub items: &'a Option<TypeSpec>,
    pub any_of: &'a Vec<TypeSpec>,
    pub fields: &'a Vec<Field>,
}

pub open spec fn tv_of(t: TypeView) -> TV {
    TV {
        ty: t.ty,
        min: *t.min,
        max: *t.max,
        max_len: t.max_len,
        values: t.values@,
        items: *t.items,
        any_of: t.any_of@,
        fields: t.fields@,
    }
}

pub fn view_field<'a>(f: &'a Field) -> (r: TypeView<'a>)
    ensures
        tv_of(r) == tv_field(*f),
{
    TypeView {
        ty: f.ty,
        min: &f.min,
        max: &f.max,
        max_len: f.max_len,
        values: &f.values,
        items: &f.items,
        any_of: &f.any_of,
        fields: &f.fields,
    }
}

/// A type view of a shorthand spec borrows from these empty lists.
pub struct Empty {
    pub floats: Option<Float>,
    pub strings: Vec<String>,
    pub item: Option<TypeSpec>,
    pub specs: Vec<TypeSpec>,
    pub fields: Vec<Field>,
}

pub fn empty() -> (e: Empty)
    ensures
        e.floats is None,
        e.strings@.len() == 0,
        e.item is None,
        e.specs@.len() == 0,
        e.fields@.len() == 0,
{
    Empty {
        floats: None,
        strings: Vec::new(),
        item: None,
        specs: Vec::new(),
        fields: Vec::new(),
    }
}

pub fn view_spec<'a>(s: &'a TypeSpec, e: &'a Empty) -> (r: TypeView<'a>)
    requires
        e.floats is None,
        e.strings@.len() == 0,
        e.item is None,
        e.specs@.len() == 0,
        e.fields@.len() == 0,
    ensures
        tv_of(r) == tv_spec(*s),
{
    match s {
        TypeSpec::Name(ty) => {
            let r = TypeView {
                ty: *ty,
                min: &e.floats,
                max: &e.floats,
                max_len: None,
                values: &e.strings,
                items: &e.item,
                any_of: &e.specs,
                fields: &e.fields,
            };
            assert(tv_of(r).values =~= Seq::<String>::empty());
            assert(tv_of(r).any_of =~= Seq::<TypeSpec>::empty());
            assert(tv_of(r).fields =~= Seq::<Field>::empty());
            r
        },
        TypeSpec::Detailed(d) => TypeView {
            ty: d.ty,
            min: &d.min,
            max: &d.max,
            max_len: d.max_len,
            values: &d.values,
            items: &d.items,
            any_of: &d.any_of,
            fields: &d.fields,
        },
    }
}

pub fn key_child(path: &String, k: &str) -> (r: String)
    ensures
        r@ == key_path(path@, k@),
{
    let mut r = path.clone();
    r.append(".");
    r.append(k);
    proof {
        reveal_strlit(".");
    }
    r
}

pub fn idx_child(path: &String, i: usize) -> (r: String)
    ensures
        r@ == idx_path(path@, i as nat),
{
    let mut r = path.clone();
    r.append("[");
    push_decimal(&mut r, i as u64);
    r.append("]");
    proof {
        reveal_strlit("[");
        reveal_strlit("]");
    }
    r
}

fn push_mismatch(diags: &mut Vec<Diag>, path: &String, what: &str, v: &Json)
    ensures
        diag_views(final(diags)@) == diag_views(old(diags)@) + mismatch(path@, what@, *v),
{
    let mut m = String::from_str("expected ");
    m.append(what);
    m.append(" but got ");
    m.append(kind_name(v));
    push_diag(diags, Diag::new("type_mismatch", path.clone(), m));
}

pub fn push_diag(diags: &mut Vec<Diag>, d: Diag)
    ensures
        diag_views(final(diags)@) == diag_views(old(diags)@) + seq![d@],
{
    diags.push(d);
    assert(diag_views(final(diags)@) =~= diag_views(old(diags)@) + seq![d@]);
}

fn check_range(t: &TypeView, n: &Float, path: &String, diags: &mut Vec<Diag>)
    ensures
        diag_views(final(diags)@) == diag_views(old(diags)@) + range_diags(tv_of(*t), *n, path@),
{
    match t.min {
        Some(lo) => {
            if lt(n.bits, lo.bits) {
                let mut m = n.text.clone();
                m.append(" < min(");
                m.append(lo.text.as_str());
                m.append(")");
                push_diag(diags, Diag::new("out_of_range", path.clone(), m));
                return;
            }
        },
        None => {},
    }
    match t.max {
        Some(hi) => {
            if lt(hi.bits, n.bits) {
                let mut m = n.text.clone();
                m.append(" > max(");
                m.append(hi.text.as_str());
                m.append(")");
                push_diag(diags, Diag::new("out_of_range", path.clone(), m));
                return;
            }
        },
        None => {},
    }
    assert(diag_views(final(diags)@) =~= diag_views(old(diags)@) + range_diags(
        tv_of(*t),
        *n,
        path@,
    ));
}

proof fn lemma_add_empty(a: Seq<DiagView>)
    ensures
        a + Seq::<DiagView>::empty() == a,
{
    assert(a + Seq::<DiagView>::empty() =~= a);
}

/// Validate `v` against the type view `t`, appending the diagnostics.
pub fn validate_value(t: &TypeView, v: &Json, path: &String, diags: &mut Vec<Diag>)
    ensures
        diag_views(final(diags)@) == diag_views(old(diags)@) + value_diags(tv_of(*t), *v, path@),
    decreases h_tv(tv_of(*t)), 0nat, 0nat,
{
    let ghost tv = tv_of(*t);
    proof {
        lemma_add_empty(diag_views(old(diags)@));
    }
    match t.ty {
        TypeName::Int => match v {
            Json::Number(n) => {
                if n.int.is_some() {
                    check_range(t, &n.real, path, diags);
                } else {
                    push_mismatch(diags, path, "int", v);
                }
            },
            _ => push_mismatch(diags, path, "int", v),
        },
        TypeName::Float => match v {
            Json::Number(n) => check_range(t, &n.real, path, diags),
            _ => push_mismatch(diags, path, "float", v),
        },
        TypeName::Bool => match v {
            Json::Bool(_) => {},
            _ => push_mismatch(diags, path, "bool", v),
        },
        TypeName::String => match v {
            Json::Str(s) => {
                match t.max_len {
                    Some(max) => {
                        let count = s.as_str().unicode_len();
                        if count as u64 > max {
                            let mut m = String::from_str("string length ");
                            push_decimal(&mut m, count as u64);
                            m.append(" exceeds max_len ");
                            push_decimal(&mut m, max);
                            push_diag(diags, Diag::new("too_long", path.clone(), m));
                        }
                    },
                    None => {},
                }
            },
            _ => push_mismatch(diags, path, "string", v),
        },
        TypeName::Bytes => match v {
            Json::Str(s) => {
                if !base64_decodes(s.as_str()) {
                    push_diag(
                        diags,
                        Diag::new(
                            "bad_base64",
                            path.clone(),
                            String::from_str("bytes must be a base64 string"),
                        ),
                    );
                }
            },
            _ => push_mismatch(diags, path, "bytes (base64 string)", v),
        },
        TypeName::Timestamp => match v {
            Json::Number(n) => {
                if n.int.is_none() {
                    push_mismatch(diags, path, "timestamp (epoch ms integer)", v);
                }
            },
            _ => push_mismatch(diags, path, "timestamp (epoch ms integer)", v),
        },
        TypeName::Enum => match v {
            Json::Str(s) => {
                if !any_equals(t.values, s.as_str()) {
                    let mut m = String::from_str("'");
                    m.append(s.as_str());
                    m.append("' is not among the allowed values ");
                    let l = debug_string_list(t.values);
                    m.append(l.as_str());
                    push_diag(diags, Diag::new("enum_mismatch", path.clone(), m));
                }
            },
            _ => push_mismatch(diags, path, "enum (string)", v),
        },
        TypeName::Array => match v {
            Json::Array(items) => {
                match t.items {
                    Some(spec) => {
                        let e = empty();
                        let iv = view_spec(spec, &e);
                        proof {
                            lemma_h_spec_pos(*spec);
                        }
                        validate_elems(&iv, items, path, diags);
                    },
                    None => {},
                }
            },
            _ => push_mismatch(diags, path, "array", v),
        },
        TypeName::Dict => match v {
            Json::Object(entries) => {
                match t.items {
                    Some(spec) => {
                        let e = empty();
                        let iv = view_spec(spec, &e);
                        proof {
                            lemma_h_spec_pos(*spec);
                        }
                        validate_entries(&iv, entries, path, diags);
                    },
                    None => {},
                }
            },
            _ => push_mismatch(diags, path, "map", v),
        },
        TypeName::Group => validate_record(t.fields, v, path, diags),
        TypeName::Union => {
            let ok = union_ok(t.any_of, v);
            if !ok {
                let mut m = String::from_str(kind_name(v));
                m.append(" matches none of the candidate types");
                push_diag(diags, Diag::new("no_union_match", path.clone(), m));
            }
        },
    }
}

fn validate_elems(t: &TypeView, items: &Vec<Json>, path: &String, diags: &mut Vec<Diag>)
    ensures
        diag_views(final(diags)@) == diag_views(old(diags)@) + elems_diags(tv_of(*t), items@, path@),
    decreases h_tv(tv_of(*t)), 1nat, items@.len(),
{
    let mut i: usize = 0;
    assert(items@.take(0) =~= Seq::<Json>::empty());
    proof {
        lemma_add_empty(diag_views(diags@));
    }
    while i < items.len()
        invariant
            i <= items@.len(),
            diag_views(diags@) == diag_views(old(diags)@) + elems_diags(
                tv_of(*t),
                items@.take(i as int),
                path@,
            ),
        decreases items@.len() - i,
    {
        let p = idx_child(path, i);
        let ghost before = diag_views(diags@);
        validate_value(t, &items[i], &p, diags);
        proof {
            let pre = items@.take(i + 1);
            assert(pre.drop_last() =~= items@.take(i as int));
            assert(pre.last() == items@[i as int]);
        }
        i = i + 1;
    }
    assert(items@.take(items@.len() as int) =~= items@);
}

fn validate_entries(
    t: &TypeView,
    entries: &Vec<(String, Json)>,
    path: &String,
    diags: &mut Vec<Diag>,
)
    ensures
        diag_views(final(diags)@) == diag_views(old(diags)@) + entries_diags(
            tv_of(*t),
            entries@,
            path@,
        ),
    decreases h_tv(tv_of(*t)), 1nat, entries@.len(),
{
    let mut i: usize = 0;
    assert(entries@.take(0) =~= Seq::<(String, Json)>::empty());
    proof {
        lemma_add_empty(diag_views(diags@));
    }
    while i < entries.len()
        invariant
            i <= entries@.len(),
            diag_views(diags@) == diag_views(old(diags)@) + entries_diags(
                tv_of(*t),
                entries@.take(i as int),
                path@,
            ),
        decreases entries@.len() - i,
    {
        let p = key_child(path, entries[i].0.as_str());
        validate_value(t, &entries[i].1, &p, diags);
        proof {
            let pre = entries@.take(i + 1);
            assert(pre.drop_last() =~= entries@.take(i as int));
            assert(pre.last() == entries@[i as int]);
        }
        i = i + 1;
    }
    assert(entries@.take(entries@.len() as int) =~= entries@);
}

/// Whether some candidate accepts `v` with no diagnostic.
fn union_ok(any_of: &Vec<TypeSpec>, v: &Json) -> (r: bool)
    ensures
        r == union_matches(any_of@, *v),
    decreases h_specs(any_of@), 1nat, 0nat,
{
    let mut i: usize = 0;
    while i < any_of.len()
        invariant
            i <= any_of@.len(),
            !union_matches(any_of@.take(i as int), *v),
        decreases any_of@.len() - i,
    {
        let e = empty();
        let sv = view_spec(&any_of[i], &e);
        let mut sub: Vec<Diag> = Vec::new();
        let root = String::from_str("$");
        proof {
            lemma_h_specs_elem(any_of@, i as int);
            lemma_h_spec_pos(any_of@[i as int]);
        }
        validate_value(&sv, v, &root, &mut sub);
        let pre = Ghost(any_of@.take(i + 1));
        proof {
            assert(pre@.drop_last() =~= any_of@.take(i as int));
            assert(pre@.last() == any_of@[i as int]);
            assert(diag_views(sub@).len() == sub@.len());
        }
        if sub.len() == 0 {
            proof {
                assert(diag_views(sub@) =~= Seq::<DiagView>::empty());
                assert(union_matches(any_of@.take(i + 1), *v));
                lemma_union_prefix(any_of@, *v, i + 1);
            }
            return true;
        }
        i = i + 1;
    }
    assert(any_of@.take(any_of@.len() as int) =~= any_of@);
    false
}

proof fn lemma_union_prefix(any_of: Seq<TypeSpec>, v: Json, k: int)
    requires
        0 <= k <= any_of.len(),
        union_matches(any_of.take(k), v),
    ensures
        union_matches(any_of, v),
    decreases any_of.len() - k,
{
    if k < any_of.len() {
        let pre = any_of.take(k + 1);
        assert(pre.drop_last() =~= any_of.take(k));
        lemma_union_prefix(any_of, v, k + 1);
    } else {
        assert(any_of.take(k) =~= any_of);
    }
}

fn get_entry<'a>(entries: &'a Vec<(String, Json)>, k: &str) -> (r: Option<&'a Json>)
    ensures
        match r {
            Some(x) => obj_get(entries@, k@) == Some(*x),
            None => obj_get(entries@, k@) is None,
        },
{
    match lookup(entries, k) {
        Some(i) => Some(&entries[i].1),
        None => None,
    }
}

/// Validate a record: `v` must be an object; each defined field is judged in order.
fn validate_record(fields: &Vec<Field>, v: &Json, path: &String, diags: &mut Vec<Diag>)
    ensures
        diag_views(final(diags)@) == diag_views(old(diags)@) + record_diags(fields@, *v, path@),
    decreases h_fields(fields@), 2nat, 0nat,
{
    let entries = match v {
        Json::Object(entries) => entries,
        _ => {
            push_mismatch(diags, path, "record", v);
            return;
        },
    };
    let mut i: usize = 0;
    assert(fields@.take(0) =~= Seq::<Field>::empty());
    proof {
        lemma_add_empty(diag_views(diags@));
    }
    while i < fields.len()
        invariant
            i <= fields@.len(),
            *v == Json::Object(*entries),
            diag_views(diags@) == diag_views(old(diags)@) + fields_diags(
                fields@.take(i as int),
                entries@,
                path@,
            ),
        decreases fields@.len() - i,
    {
        let f = &fields[i];
        proof {
            lemma_h_fields_elem(fields@, i as int);
            lemma_h_field(*f);
            lemma_add_empty(diag_views(diags@));
        }
        let ghost before = diag_views(diags@);
        match get_entry(entries, f.name.as_str()) {
            None => {
                if f.required {
                    let p = key_child(path, f.name.as_str());
                    let mut m = String::from_str("missing required field '");
                    m.append(f.name.as_str());
                    m.append("'");
                    push_diag(diags, Diag::new("required", p, m));
                }
            },
            Some(x) => {
                match x {
                    Json::Null => {
                        if f.required {
                            let p = key_child(path, f.name.as_str());
                            let mut m = String::from_str("missing required field '");
                            m.append(f.name.as_str());
                            m.append("'");
                            push_diag(diags, Diag::new("required", p, m));
                        }
                    },
                    _ => {
                        let p = key_child(path, f.name.as_str());
                        let fv = view_field(f);
                        validate_value(&fv, x, &p, diags);
                    },
                }
            },
        }
        proof {
            let pre = fields@.take(i + 1);
            assert(pre.drop_last() =~= fields@.take(i as int));
            assert(pre.last() == fields@[i as int]);
            assert(diag_views(diags@) == before + field_diags(*f, entries@, path@));
        }
        i = i + 1;
    }
    assert(fields@.take(fields@.len() as int) =~= fields@);
}

/// Validate a slot against a JSON value. typing=any / kind=opaque is skipped (returns []).
pub fn validate_payload(slot: &Slot, value: &Json) -> (r: Vec<Diag>)
    ensures
        diag_views(r@) == payload_diags(*slot, *value),
{
    let mut diags: Vec<Diag> = Vec::new();
    if slot.typing == Typing::Any || slot.kind == SlotKind::Opaque {
        assert(diag_views(diags@) =~= Seq::<DiagView>::empty());
        return diags;
    }
    let root = String::from_str("$");
    validate_record(&slot.fields, value, &root, &mut diags);
    assert(diag_views(Seq::<Diag>::empty()) =~= Seq::<DiagView>::empty());
    proof {
        reveal_strlit("$");
        assert(Seq::<DiagView>::empty() + record_diags(slot.fields@, *value, "$"@) =~= record_diags(
            slot.fields@,
            *value,
            "$"@,
        ));
    }
    diags
}

/// The judgement of a payload text: a text that is not JSON is one `decode_error` at `$`
/// (`parsed` is the parse of the text, or the parser's message).
pub open spec fn json_text_diags(slot: Slot, parsed: Result<Json, Seq<char>>) -> Seq<DiagView> {
    match parsed {
        Ok(v) => payload_diags(slot, v),
        Err(e) => seq![dv("decode_error"@, "$"@, "cannot be parsed as JSON: "@ + e)],
    }
}

/// Validate a payload text against a slot, given the text's JSON parse.
pub fn validate_json(slot: &Slot, parsed: &Result<Json, String>) -> (r: Vec<Diag>)
    ensures
        diag_views(r@) == json_text_diags(
            *slot,
            match parsed {
                Ok(v) => Ok(*v),
                Err(e) => Err(e@),
            },
        ),
{
    match parsed {
        Ok(v) => validate_payload(slot, v),
        Err(e) => {
            let mut m = String::from_str("cannot be parsed as JSON: ");
            m.append(e.as_str());
            let mut r: Vec<Diag> = Vec::new();
            push_diag(&mut r, Diag::new("decode_error", String::from_str("$"), m));
            assert(diag_views(Seq::<Diag>::empty()) =~= Seq::<DiagView>::empty());
            r
        },
    }
}

} // verus!

verus! {

/// The codes payload validation can produce.
pub open spec fn payload_code(c: Seq<char>) -> bool {
    c == "type_mismatch"@ || c == "required"@ || c == "enum_mismatch"@ || c == "out_of_range"@
        || c == "too_long"@ || c == "bad_base64"@ || c == "no_union_match"@
}

pub open spec fn all_payload_codes(d: Seq<DiagView>) -> bool {
    forall|i: int| 0 <= i < d.len() ==> payload_code(#[trigger] d[i].code)
}

proof fn lemma_codes_cat(a: Seq<DiagView>, b: Seq<DiagView>)
    requires
        all_payload_codes(a),
        all_payload_codes(b),
    ensures
        all_payload_codes(a + b),
{
    assert forall|i: int| 0 <= i < (a + b).len() implies payload_code(#[trigger] (a + b)[i].code) by {
        if i < a.len() {
            assert((a + b)[i] == a[i]);
        } else {
            assert((a + b)[i] == b[i - a.len()]);
        }
    }
}

pub proof fn lemma_value_codes(t: TV, v: Json, path: Seq<char>)
    ensures
        all_payload_codes(value_diags(t, v, path)),
    decreases h_tv(t), 0nat, 0nat,
{
    match t.ty {
        TypeName::Array => match v {
            Json::Array(items) => match t.items {
                Some(s) => {
                    lemma_h_spec_pos(s);
                    lemma_elems_codes(tv_spec(s), items@, path);
                },
                None => {},
            },
            _ => {},
        },
        TypeName::Dict => match v {
            Json::Object(entries) => match t.items {
                Some(s) => {
                    lemma_h_spec_pos(s);
                    lemma_entries_codes(tv_spec(s), entries@, path);
                },
                None => {},
            },
            _ => {},
        },
        TypeName::Group => lemma_record_codes(t.fields, v, path),
        _ => {},
    }
}

proof fn lemma_elems_codes(t: TV, items: Seq<Json>, path: Seq<char>)
    ensures
        all_payload_codes(elems_diags(t, items, path)),
    decreases h_tv(t), 1nat, items.len(),
{
    if items.len() > 0 {
        lemma_elems_codes(t, items.drop_last(), path);
        lemma_value_codes(t, items.last(), idx_path(path, (items.len() - 1) as nat));
        lemma_codes_cat(
            elems_diags(t, items.drop_last(), path),
            value_diags(t, items.last(), idx_path(path, (items.len() - 1) as nat)),
        );
    }
}

proof fn lemma_entries_codes(t: TV, entries: Seq<(String, Json)>, path: Seq<char>)
    ensures
        all_payload_codes(entries_diags(t, entries, path)),
    decreases h_tv(t), 1nat, entries.len(),
{
    if entries.len() > 0 {
        lemma_entries_codes(t, entries.drop_last(), path);
        lemma_value_codes(t, entries.last().1, key_path(path, entries.last().0@));
        lemma_codes_cat(
            entries_diags(t, entries.drop_last(), path),
            value_diags(t, entries.last().1, key_path(path, entries.last().0@)),
        );
    }
}

proof fn lemma_field_codes(f: Field, entries: Seq<(String, Json)>, path: Seq<char>)
    ensures
        all_payload_codes(field_diags(f, entries, path)),
    decreases h_field(f), 0nat, 1nat,
{
    match obj_get(entries, f.name@) {
        Some(x) => {
            if x != Json::Null {
                lemma_h_field(f);
                lemma_value_codes(tv_field(f), x, key_path(path, f.name@));
            }
        },
        None => {},
    }
}

proof fn lemma_fields_codes(fields: Seq<Field>, entries: Seq<(String, Json)>, path: Seq<char>)
    ensures
        all_payload_codes(fields_diags(fields, entries, path)),
    decreases h_fields(fields), 1nat, 0nat,
{
    if fields.len() > 0 {
        lemma_h_field(fields.last());
        lemma_fields_codes(fields.drop_last(), entries, path);
        lemma_field_codes(fields.last(), entries, path);
        lemma_codes_cat(
            fields_diags(fields.drop_last(), entries, path),
            field_diags(fields.last(), entries, path),
        );
    }
}

proof fn lemma_record_codes(fields: Seq<Field>, v: Json, path: Seq<char>)
    ensures
        all_payload_codes(record_diags(fields, v, path)),
    decreases h_fields(fields), 2nat, 0nat,
{
    match v {
        Json::Object(entries) => lemma_fields_codes(fields, entries@, path),
        _ => {},
    }
}

/// Every diagnostic of payload validation carries one of the payload codes.
pub proof fn payload_codes(slot: Slot, v: Json)
    ensures
        all_payload_codes(payload_diags(slot, v)),
{
    if !unvalidated(slot) {
        lemma_record_codes(slot.fields@, v, "$"@);
    }
}

// ---------------------------------------------------------------- where diagnostics point

/// `p` is the beginning of `s`.
pub open spec fn starts_with(s: Seq<char>, p: Seq<char>) -> bool {
    p.len() <= s.len() && s.take(p.len() as int) == p
}

/// Every diagnostic points at `path` or below it.
pub open spec fn under_path(d: Seq<DiagView>, path: Seq<char>) -> bool {
    forall|i: int| 0 <= i < d.len() ==> starts_with(#[trigger] d[i].path, path)
}

proof fn lemma_under_cat(a: Seq<DiagView>, b: Seq<DiagView>, p: Seq<char>)
    requires
        under_path(a, p),
        under_path(b, p),
    ensures
        under_path(a + b, p),
{
    assert forall|i: int| 0 <= i < (a + b).len() implies starts_with(#[trigger] (a + b)[i].path, p) by {
        if i < a.len() {
            assert((a + b)[i] == a[i]);
        } else {
            assert((a + b)[i] == b[i - a.len()]);
        }
    }
}

/// Below a child path is below its parent.
proof fn lemma_under_child(d: Seq<DiagView>, p: Seq<char>, q: Seq<char>)
    requires
        under_path(d, q),
        starts_with(q, p),
    ensures
        under_path(d, p),
{
    assert forall|i: int| 0 <= i < d.len() implies starts_with(#[trigger] d[i].path, p) by {
        let s = d[i].path;
        assert(starts_with(s, q));
        assert(s.take(p.len() as int) =~= s.take(q.len() as int).take(p.len() as int));
    }
}

proof fn lemma_key_child(path: Seq<char>, k: Seq<char>)
    ensures
        starts_with(key_path(path, k), path),
{
    assert(key_path(path, k).take(path.len() as int) =~= path);
}

proof fn lemma_idx_child(path: Seq<char>, i: nat)
    ensures
        starts_with(idx_path(path, i), path),
{
    assert(idx_path(path, i).take(path.len() as int) =~= path);
}

proof fn lemma_at_path(d: Seq<DiagView>, path: Seq<char>)
    requires
        forall|i: int| 0 <= i < d.len() ==> #[trigger] d[i].path == path,
    ensures
        under_path(d, path),
{
    assert forall|i: int| 0 <= i < d.len() implies starts_with(#[trigger] d[i].path, path) by {
        assert(path.take(path.len() as int) =~= path);
    }
}

/// Validation reports every diagnostic at the path it was given or below it: `validate_value`
/// only appends diagnostics under its path.
pub proof fn value_diags_under_path(t: TV, v: Json, path: Seq<char>)
    ensures
        under_path(value_diags(t, v, path), path),
    decreases h_tv(t), 0nat, 0nat,
{
    let d = value_diags(t, v, path);
    match t.ty {
        TypeName::Array => match v {
            Json::Array(items) => match t.items {
                Some(s) => {
                    lemma_h_spec_pos(s);
                    lemma_elems_paths(tv_spec(s), items@, path);
                },
                None => {},
            },
            _ => lemma_at_path(d, path),
        },
        TypeName::Dict => match v {
            Json::Object(entries) => match t.items {
                Some(s) => {
                    lemma_h_spec_pos(s);
                    lemma_entries_paths(tv_spec(s), entries@, path);
                },
                None => {},
            },
            _ => lemma_at_path(d, path),
        },
        TypeName::Group => lemma_record_paths(t.fields, v, path),
        _ => lemma_at_path(d, path),
    }
}

proof fn lemma_elems_paths(t: TV, items: Seq<Json>, path: Seq<char>)
    ensures
        under_path(elems_diags(t, items, path), path),
    decreases h_tv(t), 1nat, items.len(),
{
    if items.len() > 0 {
        let q = idx_path(path, (items.len() - 1) as nat);
        lemma_elems_paths(t, items.drop_last(), path);
        value_diags_under_path(t, items.last(), q);
        lemma_idx_child(path, (items.len() - 1) as nat);
        lemma_under_child(value_diags(t, items.last(), q), path, q);
        lemma_under_cat(elems_diags(t, items.drop_last(), path), value_diags(t, items.last(), q), path);
    }
}

proof fn lemma_entries_paths(t: TV, entries: Seq<(String, Json)>, path: Seq<char>)
    ensures
        under_path(entries_diags(t, entries, path), path),
    decreases h_tv(t), 1nat, entries.len(),
{
    if entries.len() > 0 {
        let q = key_path(path, entries.last().0@);
        lemma_entries_paths(t, entries.drop_last(), path);
        value_diags_under_path(t, entries.last().1, q);
        lemma_key_child(path, entries.last().0@);
        lemma_under_child(value_diags(t, entries.last().1, q), path, q);
        lemma_under_cat(entries_diags(t, entries.drop_last(), path), value_diags(t, entries.last().1, q), path);
    }
}

proof fn lemma_field_paths(f: Field, entries: Seq<(String, Json)>, path: Seq<char>)
    ensures
        under_path(field_diags(f, entries, path), path),
    decreases h_field(f), 0nat, 1nat,
{
    let q = key_path(path, f.name@);
    lemma_key_child(path, f.name@);
    let d = field_diags(f, entries, path);
    match obj_get(entries, f.name@) {
        Some(x) => {
            if x != Json::Null {
                lemma_h_field(f);
                value_diags_under_path(tv_field(f), x, q);
            } else {
                lemma_at_path(d, q);
            }
        },
        None => lemma_at_path(d, q),
    }
    lemma_under_child(d, path, q);
}

proof fn lemma_fields_paths(fields: Seq<Field>, entries: Seq<(String, Json)>, path: Seq<char>)
    ensures
        under_path(fields_diags(fields, entries, path), path),
    decreases h_fields(fields), 1nat, 0nat,
{
    if fields.len() > 0 {
        lemma_h_field(fields.last());
        lemma_fields_paths(fields.drop_last(), entries, path);
        lemma_field_paths(fields.last(), entries, path);
        lemma_under_cat(fields_diags(fields.drop_last(), entries, path), field_diags(fields.last(), entries, path), path);
    }
}

proof fn lemma_record_paths(fields: Seq<Field>, v: Json, path: Seq<char>)
    ensures
        under_path(record_diags(fields, v, path), path),
    decreases h_fields(fields), 2nat, 0nat,
{
    match v {
        Json::Object(entries) => lemma_fields_paths(fields, entries@, path),
        _ => lemma_at_path(record_diags(fields, v, path), path),
    }
}

// ---------------------------------------------------------------- what a record judgement reads

/// Two readings of a field that validation treats alike: the same value, or each absent or null.
pub open spec fn same_reading(a: Option<Json>, b: Option<Json>) -> bool {
    a == b || ((a is None || a == Some(Json::Null)) && (b is None || b == Some(Json::Null)))
}

proof fn lemma_fields_same(fields: Seq<Field>, e1: Seq<(String, Json)>, e2: Seq<(String, Json)>, path: Seq<char>)
    requires
        forall|k: int| 0 <= k < fields.len() ==> same_reading(obj_get(e1, #[trigger] fields[k].name@), obj_get(e2, fields[k].name@)),
    ensures
        fields_diags(fields, e1, path) == fields_diags(fields, e2, path),
    decreases fields.len(),
{
    if fields.len() > 0 {
        let f2 = fields.drop_last();
        assert forall|k: int| 0 <= k < f2.len() implies same_reading(obj_get(e1, #[trigger] f2[k].name@), obj_get(e2, f2[k].name@)) by {
            assert(f2[k] == fields[k]);
        }
        lemma_fields_same(f2, e1, e2, path);
        let f = fields.last();
        assert(same_reading(obj_get(e1, fields[fields.len() - 1].name@), obj_get(e2, fields[fields.len() - 1].name@)));
        assert(field_diags(f, e1, path) == field_diags(f, e2, path));
    }
}

/// A record payload is judged by its declared fields alone: two objects that read the same for
/// every declared field get the same diagnostics, so undeclared fields are dropped rather than
/// rejected, and a field set to null is judged as if it were absent.
pub proof fn payload_reads_declared_fields(slot: Slot, v1: Json, v2: Json)
    requires
        v1 is Object,
        v2 is Object,
        forall|k: int| 0 <= k < slot.fields@.len() ==> same_reading(
            obj_get(v1->Object_0@, #[trigger] slot.fields@[k].name@),
            obj_get(v2->Object_0@, slot.fields@[k].name@),
        ),
    ensures
        payload_diags(slot, v1) == payload_diags(slot, v2),
{
    if !unvalidated(slot) {
        lemma_fields_same(slot.fields@, v1->Object_0@, v2->Object_0@, "$"@);
    }
}

} // verus!

verus! {

use crate::diag::lemma_in_cat;
use crate::model::Number;

proof fn lemma_fields_hold(fields: Seq<Field>, entries: Seq<(String, Json)>, path: Seq<char>, i: int, d: DiagView)
    requires
        0 <= i < fields.len(),
        field_diags(fields[i], entries, path).contains(d),
    ensures
        fields_diags(fields, entries, path).contains(d),
    decreases fields.len(),
{
    if i < fields.len() - 1 {
        lemma_fields_hold(fields.drop_last(), entries, path, i, d);
    }
    lemma_in_cat(fields_diags(fields.drop_last(), entries, path), field_diags(fields.last(), entries, path), d);
}

proof fn lemma_range_below(t: TV, n: Float, path: Seq<char>)
    requires
        t.min is Some,
        float_lt(n.bits, t.min->0.bits),
    ensures
        range_diags(t, n, path) == seq![dv("out_of_range"@, path, n.text@ + " < min("@ + t.min->0.text@ + ")"@)],
{
}

proof fn lemma_range_above(t: TV, n: Float, path: Seq<char>)
    requires
        t.max is Some,
        float_lt(t.max->0.bits, n.bits),
        !(t.min matches Some(lo) && float_lt(n.bits, lo.bits)),
    ensures
        range_diags(t, n, path) == seq![dv("out_of_range"@, path, n.text@ + " > max("@ + t.max->0.text@ + ")"@)],
{
}

/// The range diagnostic of the number a payload holds for field `i` of a validated slot,
/// when the field is numeric and the number is of its kind.
proof fn lemma_field_range(slot: Slot, i: int, v: Json, n: Number)
    requires
        !unvalidated(slot),
        0 <= i < slot.fields@.len(),
        slot.fields@[i].ty == TypeName::Float || (slot.fields@[i].ty == TypeName::Int && n.int is Some),
        v matches Json::Object(es) && obj_get(es@, slot.fields@[i].name@) == Some(Json::Number(n)),
    ensures
        range_diags(tv_field(slot.fields@[i]), n.real, key_path("$"@, slot.fields@[i].name@)).len() > 0
            ==> payload_diags(slot, v).contains(
            range_diags(tv_field(slot.fields@[i]), n.real, key_path("$"@, slot.fields@[i].name@))[0],
        ),
{
    let f = slot.fields@[i];
    let es = v->Object_0;
    let r = range_diags(tv_field(f), n.real, key_path("$"@, f.name@));
    assert(field_diags(f, es@, "$"@) == value_diags(tv_field(f), Json::Number(n), key_path("$"@, f.name@)));
    assert(value_diags(tv_field(f), Json::Number(n), key_path("$"@, f.name@)) == r);
    if r.len() > 0 {
        assert(r.contains(r[0]));
        lemma_fields_hold(slot.fields@, es@, "$"@, i, r[0]);
    }
}

/// A number below a numeric field's lower bound (in binary64 order) is rejected: validation
/// reports it out of range at that field's path.
pub proof fn below_min_is_out_of_range(slot: Slot, i: int, v: Json, n: Number)
    requires
        !unvalidated(slot),
        0 <= i < slot.fields@.len(),
        slot.fields@[i].ty == TypeName::Float || (slot.fields@[i].ty == TypeName::Int && n.int is Some),
        slot.fields@[i].min is Some,
        float_lt(n.real.bits, slot.fields@[i].min->0.bits),
        v matches Json::Object(es) && obj_get(es@, slot.fields@[i].name@) == Some(Json::Number(n)),
    ensures
        payload_diags(slot, v).contains(
            dv(
                "out_of_range"@,
                "$."@ + slot.fields@[i].name@,
                n.real.text@ + " < min("@ + slot.fields@[i].min->0.text@ + ")"@,
            ),
        ),
{
    lemma_field_range(slot, i, v, n);
    reveal_strlit("$");
    reveal_strlit("$.");
    let f = slot.fields@[i];
    let p = key_path("$"@, f.name@);
    assert(p =~= "$."@ + f.name@);
    let r = range_diags(tv_field(f), n.real, p);
    lemma_range_below(tv_field(f), n.real, p);
    assert(r == seq![dv("out_of_range"@, p, n.real.text@ + " < min("@ + f.min->0.text@ + ")"@)]);
    assert(r[0] == dv("out_of_range"@, "$."@ + f.name@, n.real.text@ + " < min("@ + f.min->0.text@ + ")"@));
}

/// A number above a numeric field's upper bound (in binary64 order), and not below its lower
/// bound, is rejected: validation reports it out of range at that field's path.
pub proof fn above_max_is_out_of_range(slot: Slot, i: int, v: Json, n: Number)
    requires
        !unvalidated(slot),
        0 <= i < slot.fields@.len(),
        slot.fields@[i].ty == TypeName::Float || (slot.fields@[i].ty == TypeName::Int && n.int is Some),
        slot.fields@[i].max is Some,
        float_lt(slot.fields@[i].max->0.bits, n.real.bits),
        !(slot.fields@[i].min matches Some(lo) && float_lt(n.real.bits, lo.bits)),
        v matches Json::Object(es) && obj_get(es@, slot.fields@[i].name@) == Some(Json::Number(n)),
    ensures
        payload_diags(slot, v).contains(
            dv(
                "out_of_range"@,
                "$."@ + slot.fields@[i].name@,
                n.real.text@ + " > max("@ + slot.fields@[i].max->0.text@ + ")"@,
            ),
        ),
{
    lemma_field_range(slot, i, v, n);
    reveal_strlit("$");
    reveal_strlit("$.");
    let f = slot.fields@[i];
    let p = key_path("$"@, f.name@);
    assert(p =~= "$."@ + f.name@);
    let r = range_diags(tv_field(f), n.real, p);
    lemma_range_above(tv_field(f), n.real, p);
    assert(r == seq![dv("out_of_range"@, p, n.real.text@ + " > max("@ + f.max->0.text@ + ")"@)]);
    assert(r[0] == dv("out_of_range"@, "$."@ + f.name@, n.real.text@ + " > max("@ + f.max->0.text@ + ")"@));
}

/// A number within a numeric field's bounds draws no diagnostic from that field.
pub proof fn within_bounds_is_accepted(f: Field, entries: Seq<(String, Json)>, path: Seq<char>, n: Number)
    requires
        f.ty == TypeName::Float || (f.ty == TypeName::Int && n.int is Some),
        obj_get(entries, f.name@) == Some(Json::Number(n)),
        !(f.min matches Some(lo) && float_lt(n.real.bits, lo.bits)),
        !(f.max matches Some(hi) && float_lt(hi.bits, n.real.bits)),
    ensures
        field_diags(f, entries, path) == Seq::<DiagView>::empty(),
{
}

/// Wherever a numeric type is checked (a field, an array element, a map value, a union
/// candidate), a number of its kind below the lower bound in binary64 order is out of range.
pub proof fn number_below_min_is_out_of_range(t: TV, n: Number, path: Seq<char>)
    requires
        t.ty == TypeName::Float || (t.ty == TypeName::Int && n.int is Some),
        t.min is Some,
        float_lt(n.real.bits, t.min->0.bits),
    ensures
        value_diags(t, Json::Number(n), path) == seq![
            dv("out_of_range"@, path, n.real.text@ + " < min("@ + t.min->0.text@ + ")"@),
        ],
{
    lemma_range_below(t, n.real, path);
}

} // verus!
