//! Type stub generation: from a descriptor, the static typing layer for one node (or for the
//! whole descriptor) in Python or TypeScript. Only text: the runtime never reads a stub, and
//! writing the files stays with the caller.
use vstd::prelude::*;

use crate::diag::{diag_views, dv, Diag, DiagView};
use crate::model::{Field, Slot, SlotKind, TypeName, TypeSpec, Typing};
use crate::payload::{
    empty, h_fields, h_field, h_opt, h_spec, h_specs, h_tv, lemma_h_field, lemma_h_fields_elem,
    lemma_h_spec_pos, lemma_h_specs_elem, tv_field, tv_of, tv_spec, view_field, view_spec, Empty,
    TypeView, TV,
};
use crate::model::lookup;
use crate::strs::{
    cat, chars_of, debug_quoted, debug_str, decimal, decimal_string, join, join_strings, push_char,
    views,
};
use crate::stub::{get_entry, get_pair, ins_pair, insert_entry, keys_sorted, pair_views};

verus! {

/// The language a stub is written in.
#[derive(Debug, Clone, Copy, PartialEq, Eq, Structural)]
pub enum StubLang {
    Python,
    Ts,
}

/// The transport a whole-descriptor TypeScript stub binds to (ignored for Python).
#[derive(Debug, Clone, Copy, PartialEq, Eq, Structural)]
pub enum TsTarget {
    Node,
    Browser,
}

/// One generated file; `rel_path` is relative to the node's output directory.
#[derive(Debug, Clone, PartialEq)]
pub struct StubFile {
    pub rel_path: String,
    pub content: String,
}

pub open spec fn file_views(v: Seq<StubFile>) -> Seq<(Seq<char>, Seq<char>)> {
    v.map_values(|f: StubFile| (f.rel_path@, f.content@))
}

/// Named type definitions collected so far, in name order (name, text).
pub type Defs = Seq<(Seq<char>, Seq<char>)>;

// ---------------------------------------------------------------- names

pub open spec fn ident_start(c: char) -> bool {
    c == '_' || ('a' <= c && c <= 'z') || ('A' <= c && c <= 'Z')
}

pub open spec fn ident_rest(c: char) -> bool {
    ident_start(c) || ('0' <= c && c <= '9')
}

/// `^[A-Za-z_][A-Za-z0-9_]*$`: an identifier in both Python and TypeScript.
pub open spec fn valid_ident(s: Seq<char>) -> bool {
    s.len() > 0 && ident_start(s[0]) && forall|i: int| 1 <= i < s.len() ==> ident_rest(#[trigger] s[i])
}

pub fn is_valid_ident(s: &str) -> (r: bool)
    ensures
        r == valid_ident(s@),
{
    let v = chars_of(s);
    if v.len() == 0 {
        return false;
    }
    let c0 = v[0];
    if !(c0 == '_' || ('a' <= c0 && c0 <= 'z') || ('A' <= c0 && c0 <= 'Z')) {
        return false;
    }
    let mut i: usize = 1;
    while i < v.len()
        invariant
            v@ == s@,
            1 <= i <= v@.len(),
            forall|k: int| 1 <= k < i ==> ident_rest(#[trigger] v@[k]),
        decreases v@.len() - i,
    {
        let c = v[i];
        if !(c == '_' || ('a' <= c && c <= 'z') || ('A' <= c && c <= 'Z') || ('0' <= c && c <= '9')) {
            return false;
        }
        i = i + 1;
    }
    true
}

/// A control character: general category `Cc`, U+0000..=U+001F and U+007F..=U+009F.
pub open spec fn control_char(c: char) -> bool {
    c <= '\u{1f}' || ('\u{7f}' <= c && c <= '\u{9f}')
}

/// Text that can stand inside a string literal of the stub: no control character.
pub open spec fn safe_literal(s: Seq<char>) -> bool {
    forall|i: int| 0 <= i < s.len() ==> !control_char(#[trigger] s[i])
}

pub fn is_safe_literal(s: &str) -> (r: bool)
    ensures
        r == safe_literal(s@),
{
    let v = chars_of(s);
    let mut i: usize = 0;
    while i < v.len()
        invariant
            v@ == s@,
            i <= v@.len(),
            forall|k: int| 0 <= k < i ==> !control_char(#[trigger] v@[k]),
        decreases v@.len() - i,
    {
        let c = v[i];
        if c <= '\u{1f}' || ('\u{7f}' <= c && c <= '\u{9f}') {
            return false;
        }
        i = i + 1;
    }
    true
}

/// Index of the first of `vs` that is not a safe literal, or -1.
pub open spec fn first_unsafe(vs: Seq<Seq<char>>) -> int
    decreases vs.len(),
{
    if vs.len() == 0 {
        -1
    } else if !safe_literal(vs[0]) {
        0
    } else {
        let r = first_unsafe(vs.drop_first());
        if r < 0 {
            -1
        } else {
            r + 1
        }
    }
}

proof fn lemma_first_unsafe(vs: Seq<Seq<char>>)
    ensures
        -1 <= first_unsafe(vs) < vs.len(),
        first_unsafe(vs) >= 0 ==> !safe_literal(vs[first_unsafe(vs)]) && forall|k: int|
            0 <= k < first_unsafe(vs) ==> safe_literal(#[trigger] vs[k]),
        first_unsafe(vs) < 0 ==> forall|k: int| 0 <= k < vs.len() ==> safe_literal(#[trigger] vs[k]),
    decreases vs.len(),
{
    if vs.len() > 0 && safe_literal(vs[0]) {
        let t = vs.drop_first();
        lemma_first_unsafe(t);
        assert forall|k: int| 1 <= k < vs.len() implies vs[k] == t[k - 1] by {}
    }
}

/// The index of the first unsafe text of `v`, if any.
fn find_unsafe(v: &Vec<String>) -> (r: Option<usize>)
    ensures
        match r {
            Some(i) => first_unsafe(views(v@)) == i as int && i < v@.len(),
            None => first_unsafe(views(v@)) == -1,
        },
{
    let ghost vs = views(v@);
    proof {
        lemma_first_unsafe(vs);
    }
    let mut i: usize = 0;
    while i < v.len()
        invariant
            vs == views(v@),
            i <= v@.len(),
            forall|k: int| 0 <= k < i ==> safe_literal(#[trigger] vs[k]),
            -1 <= first_unsafe(vs) < vs.len(),
            first_unsafe(vs) >= 0 ==> !safe_literal(vs[first_unsafe(vs)]) && forall|k: int|
                0 <= k < first_unsafe(vs) ==> safe_literal(#[trigger] vs[k]),
            first_unsafe(vs) < 0 ==> forall|k: int| 0 <= k < vs.len() ==> safe_literal(#[trigger] vs[k]),
        decreases v@.len() - i,
    {
        if !is_safe_literal(v[i].as_str()) {
            assert(vs[i as int] == v@[i as int]@);
            return Some(i);
        }
        assert(vs[i as int] == v@[i as int]@);
        i = i + 1;
    }
    None
}

/// What `char::to_uppercase` yields for `c` (one or more characters).
pub uninterp spec fn upper_of(c: char) -> Seq<char>;

/// `char::to_uppercase`, collected; the result is named `upper_of`.
#[verifier::external_body]
fn to_upper(c: char) -> (r: String)
    ensures
        r@ == upper_of(c),
{
    c.to_uppercase().collect::<String>()
}

/// PascalCase of `s` from position on: `-` and `_` separate words; the first character of
/// each word is upper-cased, the rest kept.
pub open spec fn pascal_from(s: Seq<char>, at_start: bool) -> Seq<char>
    decreases s.len(),
{
    if s.len() == 0 {
        seq![]
    } else if s[0] == '-' || s[0] == '_' {
        pascal_from(s.drop_first(), true)
    } else if at_start {
        upper_of(s[0]) + pascal_from(s.drop_first(), false)
    } else {
        seq![s[0]] + pascal_from(s.drop_first(), false)
    }
}

pub open spec fn pascal(s: Seq<char>) -> Seq<char> {
    pascal_from(s, true)
}

pub fn pascal_exec(s: &str) -> (r: String)
    ensures
        r@ == pascal(s@),
{
    let v = chars_of(s);
    let mut out = String::new();
    let mut at_start = true;
    let mut i: usize = 0;
    assert(v@.skip(0) =~= v@);
    assert(out@ + pascal_from(v@.skip(0), true) =~= pascal(s@));
    while i < v.len()
        invariant
            v@ == s@,
            i <= v@.len(),
            out@ + pascal_from(v@.skip(i as int), at_start) == pascal(s@),
        decreases v@.len() - i,
    {
        let c = v[i];
        let ghost rest = v@.skip(i as int);
        let ghost o = out@;
        let ghost st = at_start;
        assert(rest[0] == c);
        assert(rest.drop_first() =~= v@.skip(i + 1));
        if c == '-' || c == '_' {
            at_start = true;
        } else if at_start {
            let u = to_upper(c);
            out.append(u.as_str());
            at_start = false;
            assert((o + u@) + pascal_from(v@.skip(i + 1), false) =~= o + (u@ + pascal_from(v@.skip(i + 1), false)));
        } else {
            push_char(&mut out, c);
            at_start = false;
            assert((o + seq![c]) + pascal_from(v@.skip(i + 1), false) =~= o + (seq![c] + pascal_from(v@.skip(i + 1), false)));
        }
        i = i + 1;
    }
    assert(v@.skip(v@.len() as int) =~= Seq::<char>::empty());
    assert(out@ + Seq::<char>::empty() =~= out@);
    out
}

// ---------------------------------------------------------------- type text

pub open spec fn lang_name(lang: StubLang) -> Seq<char> {
    match lang {
        StubLang::Python => "Python"@,
        StubLang::Ts => "TypeScript"@,
    }
}

pub open spec fn bad_literal_diag(path: Seq<char>, what: Seq<char>, value: Seq<char>) -> DiagView {
    dv(
        "stub_unrepresentable_name"@,
        path,
        what + " '"@ + value
            + "' contains a control character and cannot be emitted safely as a string literal (it would break the target language's string-literal syntax). Cannot generate the stub"@,
    )
}

pub open spec fn bad_ident_diag(lang: StubLang, path: Seq<char>, what: Seq<char>, name: Seq<char>) -> DiagView {
    dv(
        "stub_unrepresentable_name"@,
        path,
        what + " '"@ + name + "' is not usable as a "@ + lang_name(lang)
            + " identifier (safe only: first char is a letter/`_`, the rest are alphanumeric/`_`). Cannot generate the stub"@,
    )
}

pub open spec fn collision_diag(name: Seq<char>) -> DiagView {
    dv(
        "stub_name_collision"@,
        name,
        "generated type name '"@ + name
            + "' collides (review the combination of connection/field names)"@,
    )
}

pub open spec fn items_missing_diag(path: Seq<char>) -> DiagView {
    dv(
        "stub_error"@,
        path,
        "items missing (cannot happen for a validated contract; the descriptor is broken)"@,
    )
}

/// The text of a scalar type.
pub open spec fn scalar_text(lang: StubLang, ty: TypeName) -> Seq<char> {
    match lang {
        StubLang::Python => match ty {
            TypeName::Int | TypeName::Timestamp => "int"@,
            TypeName::Float => "float"@,
            TypeName::Bool => "bool"@,
            _ => "str"@,
        },
        StubLang::Ts => match ty {
            TypeName::Int | TypeName::Float | TypeName::Timestamp => "number"@,
            TypeName::Bool => "boolean"@,
            _ => "string"@,
        },
    }
}

/// `path.what[i]`.
pub open spec fn idx(path: Seq<char>, what: Seq<char>, i: int) -> Seq<char> {
    path + "."@ + what + "["@ + decimal(i as nat) + "]"@
}

pub open spec fn enum_text(lang: StubLang, values: Seq<Seq<char>>) -> Seq<char> {
    let qs = values.map_values(|v: Seq<char>| debug_quoted(v));
    match lang {
        StubLang::Python => "Literal["@ + join(qs, ", "@) + "]"@,
        StubLang::Ts => join(qs, " | "@),
    }
}

pub open spec fn wrap_items(lang: StubLang, ty: TypeName, inner: Seq<char>) -> Seq<char> {
    match (lang, ty) {
        (StubLang::Python, TypeName::Array) => "list["@ + inner + "]"@,
        (StubLang::Ts, TypeName::Array) => "Array<"@ + inner + ">"@,
        (StubLang::Python, _) => "dict[str, "@ + inner + "]"@,
        (StubLang::Ts, _) => "Record<string, "@ + inner + ">"@,
    }
}

pub open spec fn field_line(lang: StubLang, name: Seq<char>, required: bool, t: Seq<char>) -> Seq<char> {
    match lang {
        StubLang::Python => if required {
            "    "@ + name + ": "@ + t
        } else {
            "    "@ + name + ": NotRequired["@ + t + "]"@
        },
        StubLang::Ts => if required {
            "  "@ + name + ": "@ + t + ";"@
        } else {
            "  "@ + name + "?: "@ + t + ";"@
        },
    }
}

pub open spec fn record_body(lang: StubLang, name: Seq<char>, lines: Seq<Seq<char>>) -> Seq<char> {
    match lang {
        StubLang::Python => "class "@ + name + "(TypedDict):\n"@ + if lines.len() == 0 {
            "    pass"@
        } else {
            join(lines, "\n"@)
        },
        StubLang::Ts => "export interface "@ + name + " {\n"@ + join(lines, "\n"@) + "\n}"@,
    }
}

/// The text of a type, named after `owner` where it needs a definition of its own, together
/// with the definitions collected so far; a name that cannot be written, a colliding
/// definition or missing items is the diagnostic.
pub open spec fn type_text_of(lang: StubLang, owner: Seq<char>, path: Seq<char>, t: TV, defs: Defs) -> Result<(Seq<char>, Defs), DiagView>
    decreases h_tv(t), 0nat,
{
    match t.ty {
        TypeName::Enum => {
            let vs = views(t.values);
            let u = first_unsafe(vs);
            if u >= 0 {
                Err(bad_literal_diag(idx(path, "values"@, u), "enum value"@, vs[u]))
            } else {
                Ok((enum_text(lang, vs), defs))
            }
        },
        TypeName::Array | TypeName::Dict => match t.items {
            None => Err(items_missing_diag(path + ".items"@)),
            Some(s) => {
                proof {
                    lemma_h_spec_pos(s);
                }
                let sub = if t.ty == TypeName::Array { "Item"@ } else { "Value"@ };
                match type_text_of(lang, owner + sub, path + ".items"@, tv_spec(s), defs) {
                    Err(d) => Err(d),
                    Ok(r) => Ok((wrap_items(lang, t.ty, r.0), r.1)),
                }
            },
        },
        TypeName::Group => match record_of(lang, owner, path, t.fields, defs) {
            Err(d) => Err(d),
            Ok(d2) => Ok((owner, d2)),
        },
        TypeName::Union => match union_of(lang, owner, path, t.any_of, defs) {
            Err(d) => Err(d),
            Ok(r) => Ok((join(r.0, " | "@), r.1)),
        },
        _ => Ok((scalar_text(lang, t.ty), defs)),
    }
}

/// The texts of the union candidates `specs`, in order.
pub open spec fn union_of(lang: StubLang, owner: Seq<char>, path: Seq<char>, specs: Seq<TypeSpec>, defs: Defs) -> Result<(Seq<Seq<char>>, Defs), DiagView>
    decreases h_specs(specs), 1nat,
{
    if specs.len() == 0 {
        Ok((seq![], defs))
    } else {
        let i = specs.len() - 1;
        proof {
            lemma_h_spec_pos(specs.last());
        }
        match union_of(lang, owner, path, specs.drop_last(), defs) {
            Err(d) => Err(d),
            Ok(r) => match type_text_of(
                lang,
                owner + "V"@ + decimal(i as nat),
                idx(path, "any_of"@, i),
                tv_spec(specs.last()),
                r.1,
            ) {
                Err(d) => Err(d),
                Ok(x) => Ok((r.0.push(x.0), x.1)),
            },
        }
    }
}

/// The definition of the record type `name` with members `fields`, added to the definitions
/// (its name is reserved before the members are written, so a member cannot take it).
pub open spec fn record_of(lang: StubLang, name: Seq<char>, path: Seq<char>, fields: Seq<Field>, defs: Defs) -> Result<Defs, DiagView>
    decreases h_fields(fields), 2nat,
{
    if get_pair(defs, name) is Some {
        Err(collision_diag(name))
    } else if !valid_ident(name) {
        Err(bad_ident_diag(lang, path, "generated type name"@, name))
    } else {
        match lines_of(lang, name, path, fields, ins_pair(defs, name, seq![])) {
            Err(d) => Err(d),
            Ok(r) => Ok(ins_pair(r.1, name, record_body(lang, name, r.0))),
        }
    }
}

/// The member lines of record `name`.
pub open spec fn lines_of(lang: StubLang, name: Seq<char>, path: Seq<char>, fields: Seq<Field>, defs: Defs) -> Result<(Seq<Seq<char>>, Defs), DiagView>
    decreases h_fields(fields), 1nat,
{
    if fields.len() == 0 {
        Ok((seq![], defs))
    } else {
        let i = fields.len() - 1;
        let f = fields.last();
        proof {
            lemma_h_field(f);
        }
        match lines_of(lang, name, path, fields.drop_last(), defs) {
            Err(d) => Err(d),
            Ok(r) => if !valid_ident(f.name@) {
                Err(bad_ident_diag(lang, idx(path, "fields"@, i) + ".name"@, "field name"@, f.name@))
            } else {
                match type_text_of(lang, name + pascal(f.name@), idx(path, "fields"@, i), tv_field(f), r.1) {
                    Err(d) => Err(d),
                    Ok(x) => Ok((r.0.push(field_line(lang, f.name@, f.required, x.0)), x.1)),
                }
            },
        }
    }
}

proof fn lemma_ins_pair_update(s: Defs, k: Seq<char>, v: Seq<char>, q: int)
    requires
        keys_sorted(s),
        0 <= q < s.len(),
        s[q].0 == k,
    ensures
        ins_pair(s, k, v) == s.update(q, (k, v)),
        keys_sorted(s.update(q, (k, v))),
    decreases q,
{
    let ks = crate::stub::pair_keys(s);
    assert(crate::stub::pair_keys(s.update(q, (k, v))) =~= ks);
    if q > 0 {
        let t = s.drop_first();
        assert(ks[0] == s[0].0 && ks[q] == s[q].0);
        assert(crate::strs::lex_lt(s[0].0, k));
        crate::strs::lemma_lex_irreflexive(k);
        if crate::strs::lex_lt(k, s[0].0) {
            crate::strs::lemma_lex_transitive(k, s[0].0, k);
        }
        assert(crate::stub::pair_keys(t) =~= ks.drop_first());
        lemma_ins_pair_update(t, k, v, q - 1);
        assert(seq![s[0]] + t.update(q - 1, (k, v)) =~= s.update(q, (k, v)));
    }
}

proof fn lemma_union_err(lang: StubLang, owner: Seq<char>, path: Seq<char>, specs: Seq<TypeSpec>, defs: Defs, n: int)
    requires
        0 <= n <= specs.len(),
        union_of(lang, owner, path, specs.take(n), defs) is Err,
    ensures
        union_of(lang, owner, path, specs, defs) == union_of(lang, owner, path, specs.take(n), defs),
    decreases specs.len() - n,
{
    if n == specs.len() {
        assert(specs.take(n) =~= specs);
    } else {
        let t = specs.take(n + 1);
        assert(t.drop_last() =~= specs.take(n));
        lemma_union_err(lang, owner, path, specs, defs, n + 1);
    }
}

proof fn lemma_lines_err(lang: StubLang, name: Seq<char>, path: Seq<char>, fields: Seq<Field>, defs: Defs, n: int)
    requires
        0 <= n <= fields.len(),
        lines_of(lang, name, path, fields.take(n), defs) is Err,
    ensures
        lines_of(lang, name, path, fields, defs) == lines_of(lang, name, path, fields.take(n), defs),
    decreases fields.len() - n,
{
    if n == fields.len() {
        assert(fields.take(n) =~= fields);
    } else {
        let t = fields.take(n + 1);
        assert(t.drop_last() =~= fields.take(n));
        lemma_lines_err(lang, name, path, fields, defs, n + 1);
    }
}

fn idx_exec(path: &str, what: &str, i: usize) -> (r: String)
    ensures
        r@ == idx(path@, what@, i as int),
{
    let mut s = String::from_str(path);
    s.append(".");
    s.append(what);
    s.append("[");
    let n = decimal_string(i as u64);
    s.append(n.as_str());
    s.append("]");
    s
}

fn lang_name_exec(lang: StubLang) -> (r: &'static str)
    ensures
        r@ == lang_name(lang),
{
    match lang {
        StubLang::Python => "Python",
        StubLang::Ts => "TypeScript",
    }
}

fn bad_literal(path: String, what: &str, value: &str) -> (d: Diag)
    ensures
        d@ == bad_literal_diag(path@, what@, value@),
{
    let mut m = String::from_str(what);
    m.append(" '");
    m.append(value);
    m.append(
        "' contains a control character and cannot be emitted safely as a string literal (it would break the target language's string-literal syntax). Cannot generate the stub",
    );
    Diag::new("stub_unrepresentable_name", path, m)
}

fn bad_ident(lang: StubLang, path: String, what: &str, name: &str) -> (d: Diag)
    ensures
        d@ == bad_ident_diag(lang, path@, what@, name@),
{
    let mut m = String::from_str(what);
    m.append(" '");
    m.append(name);
    m.append("' is not usable as a ");
    m.append(lang_name_exec(lang));
    m.append(
        " identifier (safe only: first char is a letter/`_`, the rest are alphanumeric/`_`). Cannot generate the stub",
    );
    Diag::new("stub_unrepresentable_name", path, m)
}

fn scalar_exec(lang: StubLang, ty: TypeName) -> (r: &'static str)
    ensures
        r@ == scalar_text(lang, ty),
{
    match lang {
        StubLang::Python => match ty {
            TypeName::Int | TypeName::Timestamp => "int",
            TypeName::Float => "float",
            TypeName::Bool => "bool",
            _ => "str",
        },
        StubLang::Ts => match ty {
            TypeName::Int | TypeName::Float | TypeName::Timestamp => "number",
            TypeName::Bool => "boolean",
            _ => "string",
        },
    }
}

fn enum_text_exec(lang: StubLang, values: &Vec<String>) -> (r: String)
    ensures
        r@ == enum_text(lang, views(values@)),
{
    let mut qs: Vec<String> = Vec::new();
    let mut i: usize = 0;
    while i < values.len()
        invariant
            i <= values@.len(),
            qs@.len() == i,
            forall|k: int| 0 <= k < i ==> #[trigger] qs@[k]@ == debug_quoted(values@[k]@),
        decreases values@.len() - i,
    {
        qs.push(debug_str(values[i].as_str()));
        i = i + 1;
    }
    assert(views(qs@) =~= views(values@).map_values(|v: Seq<char>| debug_quoted(v)));
    match lang {
        StubLang::Python => {
            let mut s = String::from_str("Literal[");
            s.append(join_strings(&qs, ", ").as_str());
            s.append("]");
            s
        },
        StubLang::Ts => join_strings(&qs, " | "),
    }
}

fn wrap_items_exec(lang: StubLang, ty: TypeName, inner: &str) -> (r: String)
    ensures
        r@ == wrap_items(lang, ty, inner@),
{
    let (a, b) = match (lang, ty) {
        (StubLang::Python, TypeName::Array) => ("list[", "]"),
        (StubLang::Ts, TypeName::Array) => ("Array<", ">"),
        (StubLang::Python, _) => ("dict[str, ", "]"),
        (StubLang::Ts, _) => ("Record<string, ", ">"),
    };
    let mut s = String::from_str(a);
    s.append(inner);
    s.append(b);
    s
}

fn field_line_exec(lang: StubLang, name: &str, required: bool, t: &str) -> (r: String)
    ensures
        r@ == field_line(lang, name@, required, t@),
{
    let mut s = String::from_str(match lang {
        StubLang::Python => "    ",
        StubLang::Ts => "  ",
    });
    s.append(name);
    match lang {
        StubLang::Python => {
            if required {
                s.append(": ");
                s.append(t);
            } else {
                s.append(": NotRequired[");
                s.append(t);
                s.append("]");
            }
        },
        StubLang::Ts => {
            if required {
                s.append(": ");
            } else {
                s.append("?: ");
            }
            s.append(t);
            s.append(";");
        },
    }
    s
}

fn record_body_exec(lang: StubLang, name: &str, lines: &Vec<String>) -> (r: String)
    ensures
        r@ == record_body(lang, name@, views(lines@)),
{
    match lang {
        StubLang::Python => {
            let mut s = String::from_str("class ");
            s.append(name);
            s.append("(TypedDict):\n");
            if lines.len() == 0 {
                s.append("    pass");
            } else {
                s.append(join_strings(lines, "\n").as_str());
            }
            s
        },
        StubLang::Ts => {
            let mut s = String::from_str("export interface ");
            s.append(name);
            s.append(" {\n");
            s.append(join_strings(lines, "\n").as_str());
            s.append("\n}");
            s
        },
    }
}

fn type_text(lang: StubLang, owner: &String, path: &String, t: &TypeView, defs: &mut Vec<(String, String)>) -> (r: Result<String, Diag>)
    requires
        keys_sorted(pair_views(old(defs)@)),
    ensures
        keys_sorted(pair_views(final(defs)@)),
        match (r, type_text_of(lang, owner@, path@, tv_of(*t), pair_views(old(defs)@))) {
            (Ok(s), Ok(x)) => s@ == x.0 && pair_views(final(defs)@) == x.1,
            (Err(d), Err(e)) => d@ == e,
            _ => false,
        },
    decreases h_tv(tv_of(*t)), 0nat,
{
    match t.ty {
        TypeName::Enum => {
            match find_unsafe(t.values) {
                Some(i) => {
                    let p = idx_exec(path.as_str(), "values", i);
                    return Err(bad_literal(p, "enum value", t.values[i].as_str()));
                },
                None => {},
            }
            Ok(enum_text_exec(lang, t.values))
        },
        TypeName::Array | TypeName::Dict => {
            match t.items {
                None => Err(
                    Diag::new(
                        "stub_error",
                        cat(path.as_str(), ".items"),
                        String::from_str(
                            "items missing (cannot happen for a validated contract; the descriptor is broken)",
                        ),
                    ),
                ),
                Some(s) => {
                    let e = empty();
                    let sv = view_spec(s, &e);
                    proof {
                        lemma_h_spec_pos(*s);
                    }
                    let sub = if t.ty == TypeName::Array {
                        "Item"
                    } else {
                        "Value"
                    };
                    let o2 = cat(owner.as_str(), sub);
                    let p2 = cat(path.as_str(), ".items");
                    match type_text(lang, &o2, &p2, &sv, defs) {
                        Err(d) => Err(d),
                        Ok(inner) => Ok(wrap_items_exec(lang, t.ty, inner.as_str())),
                    }
                },
            }
        },
        TypeName::Group => match record(lang, owner, path, t.fields, defs) {
            Err(d) => Err(d),
            Ok(()) => Ok(owner.clone()),
        },
        TypeName::Union => {
            let ghost d0 = pair_views(defs@);
            let mut parts: Vec<String> = Vec::new();
            let mut i: usize = 0;
            assert(t.any_of@.take(0) =~= Seq::<TypeSpec>::empty());
            assert(views(parts@) =~= Seq::<Seq<char>>::empty());
            while i < t.any_of.len()
                invariant
                    i <= t.any_of@.len(),
                    keys_sorted(pair_views(defs@)),
                    h_specs(t.any_of@) < h_tv(tv_of(*t)),
                    t.ty == TypeName::Union,
                    d0 == pair_views(old(defs)@),
                    union_of(lang, owner@, path@, t.any_of@.take(i as int), d0) == Ok::<(Seq<Seq<char>>, Defs), DiagView>(
                        (views(parts@), pair_views(defs@)),
                    ),
                decreases t.any_of@.len() - i,
            {
                proof {
                    lemma_h_specs_elem(t.any_of@, i as int);
                    lemma_h_spec_pos(t.any_of@[i as int]);
                    let pre = t.any_of@.take(i + 1);
                    assert(pre.drop_last() =~= t.any_of@.take(i as int));
                    assert(pre.last() == t.any_of@[i as int]);
                }
                let e = empty();
                let sv = view_spec(&t.any_of[i], &e);
                let mut o2 = cat(owner.as_str(), "V");
                let n = decimal_string(i as u64);
                o2.append(n.as_str());
                let p2 = idx_exec(path.as_str(), "any_of", i);
                match type_text(lang, &o2, &p2, &sv, defs) {
                    Err(d) => {
                        proof {
                            let pre = t.any_of@.take(i + 1);
                            assert(tv_of(sv) == tv_spec(pre.last()));
                            assert(o2@ == owner@ + "V"@ + decimal(i as nat));
                            assert(union_of(lang, owner@, path@, pre, d0) == Err::<(Seq<Seq<char>>, Defs), DiagView>(d@));
                            lemma_union_err(lang, owner@, path@, t.any_of@, d0, i + 1);
                        }
                        return Err(d);
                    },
                    Ok(x) => {
                        let ghost before = parts@;
                        parts.push(x);
                        assert(views(parts@) =~= views(before).push(x@));
                    },
                }
                i = i + 1;
            }
            assert(t.any_of@.take(t.any_of@.len() as int) =~= t.any_of@);
            Ok(join_strings(&parts, " | "))
        },
        _ => Ok(String::from_str(scalar_exec(lang, t.ty))),
    }
}

fn record(lang: StubLang, name: &String, path: &String, fields: &Vec<Field>, defs: &mut Vec<(String, String)>) -> (r: Result<(), Diag>)
    requires
        keys_sorted(pair_views(old(defs)@)),
    ensures
        keys_sorted(pair_views(final(defs)@)),
        match (r, record_of(lang, name@, path@, fields@, pair_views(old(defs)@))) {
            (Ok(_), Ok(d)) => pair_views(final(defs)@) == d,
            (Err(d), Err(e)) => d@ == e,
            _ => false,
        },
    decreases h_fields(fields@), 2nat,
{
    if get_entry(defs, name.as_str()).is_some() {
        let mut m = String::from_str("generated type name '");
        m.append(name.as_str());
        m.append("' collides (review the combination of connection/field names)");
        return Err(Diag::new("stub_name_collision", name.clone(), m));
    }
    if !is_valid_ident(name.as_str()) {
        return Err(bad_ident(lang, path.clone(), "generated type name", name.as_str()));
    }
    insert_entry(defs, name.clone(), String::new());
    let ghost d1 = pair_views(defs@);
    assert(d1 == ins_pair(pair_views(old(defs)@), name@, seq![]));
    let mut lines: Vec<String> = Vec::new();
    let mut i: usize = 0;
    assert(fields@.take(0) =~= Seq::<Field>::empty());
    assert(views(lines@) =~= Seq::<Seq<char>>::empty());
    while i < fields.len()
        invariant
            i <= fields@.len(),
            keys_sorted(pair_views(defs@)),
            d1 == ins_pair(pair_views(old(defs)@), name@, seq![]),
            get_pair(pair_views(old(defs)@), name@) is None,
            valid_ident(name@),
            lines_of(lang, name@, path@, fields@.take(i as int), d1) == Ok::<(Seq<Seq<char>>, Defs), DiagView>(
                (views(lines@), pair_views(defs@)),
            ),
        decreases fields@.len() - i,
    {
        let f = &fields[i];
        proof {
            lemma_h_fields_elem(fields@, i as int);
            lemma_h_field(*f);
            let pre = fields@.take(i + 1);
            assert(pre.drop_last() =~= fields@.take(i as int));
            assert(pre.last() == *f);
        }
        if !is_valid_ident(f.name.as_str()) {
            let mut p = idx_exec(path.as_str(), "fields", i);
            p.append(".name");
            let d = bad_ident(lang, p, "field name", f.name.as_str());
            proof {
                let pre = fields@.take(i + 1);
                assert(lines_of(lang, name@, path@, pre, d1) == Err::<(Seq<Seq<char>>, Defs), DiagView>(d@));
                lemma_lines_err(lang, name@, path@, fields@, d1, i + 1);
            }
            return Err(d);
        }
        let pf = pascal_exec(f.name.as_str());
        let o2 = cat(name.as_str(), pf.as_str());
        let p2 = idx_exec(path.as_str(), "fields", i);
        let fv = view_field(f);
        match type_text(lang, &o2, &p2, &fv, defs) {
            Err(d) => {
                proof {
                    lemma_lines_err(lang, name@, path@, fields@, d1, i + 1);
                }
                return Err(d);
            },
            Ok(t) => {
                let line = field_line_exec(lang, f.name.as_str(), f.required, t.as_str());
                let ghost before = lines@;
                lines.push(line);
                assert(views(lines@) =~= views(before).push(line@));
            },
        }
        i = i + 1;
    }
    assert(fields@.take(fields@.len() as int) =~= fields@);
    let body = record_body_exec(lang, name.as_str(), &lines);
    match get_entry(defs, name.as_str()) {
        Some(q) => {
            proof {
                lemma_ins_pair_update(pair_views(defs@), name@, body@, q as int);
            }
            let ghost before = defs@;
            defs.set(q, (name.clone(), body));
            assert(pair_views(defs@) =~= pair_views(before).update(q as int, (name@, body@)));
        },
        None => {
            insert_entry(defs, name.clone(), body);
        },
    }
    Ok(())
}

// ---------------------------------------------------------------- stub text

pub open spec fn facade_of(node: Seq<char>) -> Seq<char> {
    pascal(node) + "Node"@
}

fn facade_name(node: &str) -> (r: String)
    ensures
        r@ == facade_of(node@),
{
    let mut s = pascal_exec(node);
    s.append("Node");
    s
}

/// One hash marker line per connection, in order.
pub open spec fn marker_lines(comment: Seq<char>, hashes: Defs) -> Seq<char>
    decreases hashes.len(),
{
    if hashes.len() == 0 {
        seq![]
    } else {
        marker_lines(comment, hashes.drop_last()) + marker_line(comment, hashes.last().0, hashes.last().1)
    }
}

/// The marker header of a stub file: its identity, then its per-connection hashes.
pub open spec fn markers(comment: Seq<char>, kind: Seq<char>, name: Seq<char>, hashes: Defs) -> Seq<char> {
    comment + " sahou:stub "@ + kind + "="@ + name + "\n"@ + marker_lines(comment, hashes)
}

fn markers_exec(comment: &str, kind: &str, name: &str, hashes: &Vec<(String, String)>) -> (r: String)
    ensures
        r@ == markers(comment@, kind@, name@, pair_views(hashes@)),
{
    let mut r = String::from_str(comment);
    r.append(" sahou:stub ");
    r.append(kind);
    r.append("=");
    r.append(name);
    r.append("\n");
    let ghost head = r@;
    let ghost hv = pair_views(hashes@);
    let mut i: usize = 0;
    assert(hv.take(0) =~= Seq::<(Seq<char>, Seq<char>)>::empty());
    assert(head + marker_lines(comment@, hv.take(0)) =~= head);
    while i < hashes.len()
        invariant
            i <= hashes@.len(),
            hv == pair_views(hashes@),
            r@ == head + marker_lines(comment@, hv.take(i as int)),
        decreases hashes@.len() - i,
    {
        proof {
            let pre = hv.take(i + 1);
            assert(pre.drop_last() =~= hv.take(i as int));
            assert(pre.last() == (hashes@[i as int].0@, hashes@[i as int].1@));
        }
        let line = marker_line_exec(comment, hashes[i].0.as_str(), hashes[i].1.as_str());
        r.append(line.as_str());
        i = i + 1;
    }
    assert(hv.take(hv.len() as int) =~= hv);
    r
}

/// The entries of `SCHEMA_HASHES`, one per line.
pub open spec fn hash_entries(indent: Seq<char>, hashes: Defs) -> Seq<char> {
    join(hashes.map_values(|e: (Seq<char>, Seq<char>)| hash_entry(indent, e.0, e.1)), "\n"@)
}

fn hash_entries_exec(indent: &str, hashes: &Vec<(String, String)>) -> (r: String)
    ensures
        r@ == hash_entries(indent@, pair_views(hashes@)),
{
    let mut parts: Vec<String> = Vec::new();
    let mut i: usize = 0;
    while i < hashes.len()
        invariant
            i <= hashes@.len(),
            parts@.len() == i,
            forall|k: int| 0 <= k < i ==> #[trigger] parts@[k]@ == hash_entry(indent@, hashes@[k].0@, hashes@[k].1@),
        decreases hashes@.len() - i,
    {
        parts.push(hash_entry_exec(indent, hashes[i].0.as_str(), hashes[i].1.as_str()));
        i = i + 1;
    }
    assert(views(parts@) =~= pair_views(hashes@).map_values(|e: (Seq<char>, Seq<char>)| hash_entry(indent@, e.0, e.1)));
    join_strings(&parts, "\n")
}

/// The type definitions, in name order, separated by blank lines.
pub open spec fn defs_text(defs: Defs) -> Seq<char> {
    join(defs.map_values(|e: (Seq<char>, Seq<char>)| e.1), "\n\n"@)
}

fn defs_text_exec(defs: &Vec<(String, String)>) -> (r: String)
    ensures
        r@ == defs_text(pair_views(defs@)),
{
    let mut parts: Vec<String> = Vec::new();
    let mut i: usize = 0;
    while i < defs.len()
        invariant
            i <= defs@.len(),
            parts@.len() == i,
            forall|k: int| 0 <= k < i ==> #[trigger] parts@[k]@ == defs@[k].1@,
        decreases defs@.len() - i,
    {
        parts.push(crate::strs::copy_string(&defs[i].1));
        i = i + 1;
    }
    assert(views(parts@) =~= pair_views(defs@).map_values(|e: (Seq<char>, Seq<char>)| e.1));
    join_strings(&parts, "\n\n")
}

pub open spec fn import_src(t: TsTarget) -> Seq<char> {
    match t {
        TsTarget::Node => "sahou"@,
        TsTarget::Browser => "sahou/browser"@,
    }
}

fn import_src_exec(t: TsTarget) -> (r: &'static str)
    ensures
        r@ == import_src(t),
{
    match t {
        TsTarget::Node => "sahou",
        TsTarget::Browser => "sahou/browser",
    }
}

/// The rest of a `connect` options type after the node name: the browser has no port and
/// spawns no link.
pub open spec fn connect_opts_tail(t: TsTarget) -> Seq<char> {
    match t {
        TsTarget::Node => "; locator?: string; port?: number; spawnLink?: boolean }"@,
        TsTarget::Browser => "; locator?: string }"@,
    }
}

fn connect_opts_tail_exec(t: TsTarget) -> (r: &'static str)
    ensures
        r@ == connect_opts_tail(t),
{
    match t {
        TsTarget::Node => "; locator?: string; port?: number; spawnLink?: boolean }",
        TsTarget::Browser => "; locator?: string }",
    }
}

/// Python overloads: a plain definition when there is one variant, each marked `@overload`
/// otherwise (a lone `@overload` is an error to type checkers).
pub open spec fn py_method(sigs: Seq<Seq<char>>) -> Seq<char> {
    if sigs.len() == 1 {
        sigs[0]
    } else {
        join(sigs.map_values(|s: Seq<char>| "    @overload\n"@ + s), "\n"@)
    }
}

fn py_method_exec(sigs: &Vec<String>) -> (r: String)
    ensures
        r@ == py_method(views(sigs@)),
{
    if sigs.len() == 1 {
        return crate::strs::copy_string(&sigs[0]);
    }
    let mut parts: Vec<String> = Vec::new();
    let mut i: usize = 0;
    while i < sigs.len()
        invariant
            i <= sigs@.len(),
            parts@.len() == i,
            forall|k: int| 0 <= k < i ==> #[trigger] parts@[k]@ == "    @overload\n"@ + sigs@[k]@,
        decreases sigs@.len() - i,
    {
        parts.push(cat("    @overload\n", sigs[i].as_str()));
        i = i + 1;
    }
    assert(views(parts@) =~= views(sigs@).map_values(|s: Seq<char>| "    @overload\n"@ + s));
    join_strings(&parts, "\n")
}

/// The connection-dependent type names of one node's facade.
pub struct Sigs {
    /// (connection, payload type)
    pub publishes: Vec<(String, String)>,
    pub subscribes: Vec<(String, String)>,
    /// (connection, request type, response type)
    pub queries: Vec<(String, String, String)>,
    pub answers: Vec<(String, String, String)>,
}

pub open spec fn trip_views(v: Seq<(String, String, String)>) -> Seq<(Seq<char>, Seq<char>, Seq<char>)> {
    v.map_values(|e: (String, String, String)| (e.0@, e.1@, e.2@))
}

pub struct SigsView {
    pub publishes: Defs,
    pub subscribes: Defs,
    pub queries: Seq<(Seq<char>, Seq<char>, Seq<char>)>,
    pub answers: Seq<(Seq<char>, Seq<char>, Seq<char>)>,
}

pub open spec fn sig_view(s: Sigs) -> SigsView {
    SigsView {
        publishes: pair_views(s.publishes@),
        subscribes: pair_views(s.subscribes@),
        queries: trip_views(s.queries@),
        answers: trip_views(s.answers@),
    }
}

pub open spec fn py_sub_sigs(ps: Defs) -> Seq<Seq<char>>
    decreases ps.len(),
{
    if ps.len() == 0 {
        seq![]
    } else {
        py_sub_sigs(ps.drop_last()) + seq![
            py_sub_sig_a(ps.last().0, ps.last().1),
            py_sub_sig_b(ps.last().0, ps.last().1),
        ]
    }
}

pub open spec fn ts_query_lines(qs: Seq<(Seq<char>, Seq<char>, Seq<char>)>) -> Seq<Seq<char>>
    decreases qs.len(),
{
    if qs.len() == 0 {
        seq![]
    } else {
        ts_query_lines(qs.drop_last()) + seq![
            ts_query_line(qs.last().0, qs.last().1, qs.last().2),
            ts_qc_line(qs.last().0, qs.last().1, qs.last().2),
        ]
    }
}

pub open spec fn py_tail() -> Seq<Seq<char>> {
    seq![
        "    def on_reject(self, cb: _OnReject) -> None: ..."@,
        "    def connection_info(self, conn: str) -> dict[str, str]: ..."@,
        "    def close(self) -> None: ..."@,
    ]
}

pub open spec fn ts_tail() -> Seq<Seq<char>> {
    seq![
        "  onReject(cb: OnReject): void;"@,
        "  connectionInfo(conn: string): { key: string; hash: string };"@,
        "  close(): Promise<void>;"@,
    ]
}

/// The methods of a Python facade: an overload group per operation that the node has,
/// then the connection-independent methods.
pub open spec fn py_methods(s: SigsView) -> Seq<Seq<char>> {
    (if s.publishes.len() > 0 {
        seq![py_method(s.publishes.map_values(|e: (Seq<char>, Seq<char>)| py_pub_sig(e.0, e.1)))]
    } else {
        seq![]
    }) + (if s.subscribes.len() > 0 {
        seq![py_method(py_sub_sigs(s.subscribes))]
    } else {
        seq![]
    }) + (if s.queries.len() > 0 {
        seq![
            py_method(s.queries.map_values(|e: (Seq<char>, Seq<char>, Seq<char>)| py_query_sig(e.0, e.1))),
            py_method(s.queries.map_values(|e: (Seq<char>, Seq<char>, Seq<char>)| py_qc_sig(e.0, e.1, e.2))),
        ]
    } else {
        seq![]
    }) + (if s.answers.len() > 0 {
        seq![py_method(s.answers.map_values(|e: (Seq<char>, Seq<char>, Seq<char>)| py_answer_sig(e.0, e.1, e.2)))]
    } else {
        seq![]
    }) + py_tail()
}

/// The methods of a TypeScript facade.
pub open spec fn ts_methods(s: SigsView) -> Seq<Seq<char>> {
    s.publishes.map_values(|e: (Seq<char>, Seq<char>)| ts_pub_line(e.0, e.1))
        + s.subscribes.map_values(|e: (Seq<char>, Seq<char>)| ts_sub_line(e.0, e.1))
        + ts_query_lines(s.queries)
        + s.answers.map_values(|e: (Seq<char>, Seq<char>, Seq<char>)| ts_answer_line(e.0, e.1, e.2))
        + ts_tail()
}

pub open spec fn py_facade(name: Seq<char>, s: SigsView) -> Seq<char> {
    "class "@ + name + "(Protocol):\n"@ + join(py_methods(s), "\n"@)
}

pub open spec fn ts_facade(name: Seq<char>, s: SigsView) -> Seq<char> {
    "export interface "@ + name + " {\n"@ + join(ts_methods(s), "\n"@) + "\n}"@
}

fn pair_lines(lang_py: bool, kind: u8, ps: &Vec<(String, String)>) -> (r: Vec<String>)
    requires
        kind < 2,
    ensures
        views(r@) == if lang_py {
            if kind == 0 {
                pair_views(ps@).map_values(|e: (Seq<char>, Seq<char>)| py_pub_sig(e.0, e.1))
            } else {
                py_sub_sigs(pair_views(ps@))
            }
        } else {
            if kind == 0 {
                pair_views(ps@).map_values(|e: (Seq<char>, Seq<char>)| ts_pub_line(e.0, e.1))
            } else {
                pair_views(ps@).map_values(|e: (Seq<char>, Seq<char>)| ts_sub_line(e.0, e.1))
            }
        },
{
    let ghost pv = pair_views(ps@);
    let ghost target = if lang_py {
        if kind == 0 {
            pv.map_values(|e: (Seq<char>, Seq<char>)| py_pub_sig(e.0, e.1))
        } else {
            py_sub_sigs(pv)
        }
    } else {
        if kind == 0 {
            pv.map_values(|e: (Seq<char>, Seq<char>)| ts_pub_line(e.0, e.1))
        } else {
            pv.map_values(|e: (Seq<char>, Seq<char>)| ts_sub_line(e.0, e.1))
        }
    };
    let mut out: Vec<String> = Vec::new();
    let mut i: usize = 0;
    assert(views(out@) =~= Seq::<Seq<char>>::empty());
    assert(pv.take(0) =~= Seq::<(Seq<char>, Seq<char>)>::empty());
    while i < ps.len()
        invariant
            i <= ps@.len(),
            pv == pair_views(ps@),
            kind < 2,
            views(out@) == if lang_py {
                if kind == 0 {
                    pv.take(i as int).map_values(|e: (Seq<char>, Seq<char>)| py_pub_sig(e.0, e.1))
                } else {
                    py_sub_sigs(pv.take(i as int))
                }
            } else {
                if kind == 0 {
                    pv.take(i as int).map_values(|e: (Seq<char>, Seq<char>)| ts_pub_line(e.0, e.1))
                } else {
                    pv.take(i as int).map_values(|e: (Seq<char>, Seq<char>)| ts_sub_line(e.0, e.1))
                }
            },
        decreases ps@.len() - i,
    {
        let c = ps[i].0.as_str();
        let t = ps[i].1.as_str();
        let ghost before = views(out@);
        proof {
            let pre = pv.take(i + 1);
            assert(pre.drop_last() =~= pv.take(i as int));
            assert(pre.last() == (c@, t@));
        }
        if lang_py {
            if kind == 0 {
                out.push(py_pub_sig_exec(c, t));
            } else {
                out.push(py_sub_sig_a_exec(c, t));
                out.push(py_sub_sig_b_exec(c, t));
            }
        } else {
            if kind == 0 {
                out.push(ts_pub_line_exec(c, t));
            } else {
                out.push(ts_sub_line_exec(c, t));
            }
        }
        proof {
            let pre = pv.take(i + 1);
            if lang_py && kind == 1 {
                assert(views(out@) =~= before + seq![py_sub_sig_a(c@, t@), py_sub_sig_b(c@, t@)]);
            } else if lang_py {
                assert(views(out@) =~= before + seq![py_pub_sig(c@, t@)]);
                assert(pre.map_values(|e: (Seq<char>, Seq<char>)| py_pub_sig(e.0, e.1)) =~= pv.take(i as int).map_values(|e: (Seq<char>, Seq<char>)| py_pub_sig(e.0, e.1)) + seq![py_pub_sig(c@, t@)]);
            } else if kind == 0 {
                assert(views(out@) =~= before + seq![ts_pub_line(c@, t@)]);
                assert(pre.map_values(|e: (Seq<char>, Seq<char>)| ts_pub_line(e.0, e.1)) =~= pv.take(i as int).map_values(|e: (Seq<char>, Seq<char>)| ts_pub_line(e.0, e.1)) + seq![ts_pub_line(c@, t@)]);
            } else {
                assert(views(out@) =~= before + seq![ts_sub_line(c@, t@)]);
                assert(pre.map_values(|e: (Seq<char>, Seq<char>)| ts_sub_line(e.0, e.1)) =~= pv.take(i as int).map_values(|e: (Seq<char>, Seq<char>)| ts_sub_line(e.0, e.1)) + seq![ts_sub_line(c@, t@)]);
            }
        }
        i = i + 1;
    }
    assert(pv.take(pv.len() as int) =~= pv);
    out
}

/// kind 0: Python `query`, 1: Python `query_confirmed`, 2: Python `answer`,
/// 3: TypeScript `query` + `queryConfirmed`, 4: TypeScript `answer`.
pub open spec fn trip_target(kind: u8, qs: Seq<(Seq<char>, Seq<char>, Seq<char>)>) -> Seq<Seq<char>> {
    if kind == 0 {
        qs.map_values(|e: (Seq<char>, Seq<char>, Seq<char>)| py_query_sig(e.0, e.1))
    } else if kind == 1 {
        qs.map_values(|e: (Seq<char>, Seq<char>, Seq<char>)| py_qc_sig(e.0, e.1, e.2))
    } else if kind == 2 {
        qs.map_values(|e: (Seq<char>, Seq<char>, Seq<char>)| py_answer_sig(e.0, e.1, e.2))
    } else if kind == 3 {
        ts_query_lines(qs)
    } else {
        qs.map_values(|e: (Seq<char>, Seq<char>, Seq<char>)| ts_answer_line(e.0, e.1, e.2))
    }
}

fn trip_lines(kind: u8, qs: &Vec<(String, String, String)>) -> (r: Vec<String>)
    requires
        kind < 5,
    ensures
        views(r@) == trip_target(kind, trip_views(qs@)),
{
    let ghost tv = trip_views(qs@);
    let mut out: Vec<String> = Vec::new();
    let mut i: usize = 0;
    assert(views(out@) =~= Seq::<Seq<char>>::empty());
    assert(tv.take(0) =~= Seq::<(Seq<char>, Seq<char>, Seq<char>)>::empty());
    assert(trip_target(kind, tv.take(0)) =~= Seq::<Seq<char>>::empty());
    while i < qs.len()
        invariant
            i <= qs@.len(),
            tv == trip_views(qs@),
            kind < 5,
            views(out@) == trip_target(kind, tv.take(i as int)),
        decreases qs@.len() - i,
    {
        let c = qs[i].0.as_str();
        let a = qs[i].1.as_str();
        let b = qs[i].2.as_str();
        let ghost before = views(out@);
        proof {
            let pre = tv.take(i + 1);
            assert(pre.drop_last() =~= tv.take(i as int));
            assert(pre.last() == (c@, a@, b@));
        }
        if kind == 0 {
            out.push(py_query_sig_exec(c, a));
        } else if kind == 1 {
            out.push(py_qc_sig_exec(c, a, b));
        } else if kind == 2 {
            out.push(py_answer_sig_exec(c, a, b));
        } else if kind == 3 {
            out.push(ts_query_line_exec(c, a, b));
            out.push(ts_qc_line_exec(c, a, b));
        } else {
            out.push(ts_answer_line_exec(c, a, b));
        }
        proof {
            let pre = tv.take(i + 1);
            if kind == 3 {
                assert(views(out@) =~= before + seq![ts_query_line(c@, a@, b@), ts_qc_line(c@, a@, b@)]);
            } else if kind == 0 {
                assert(views(out@) =~= before + seq![py_query_sig(c@, a@)]);
                assert(trip_target(kind, pre) =~= trip_target(kind, tv.take(i as int)) + seq![py_query_sig(c@, a@)]);
            } else if kind == 1 {
                assert(views(out@) =~= before + seq![py_qc_sig(c@, a@, b@)]);
                assert(trip_target(kind, pre) =~= trip_target(kind, tv.take(i as int)) + seq![py_qc_sig(c@, a@, b@)]);
            } else if kind == 2 {
                assert(views(out@) =~= before + seq![py_answer_sig(c@, a@, b@)]);
                assert(trip_target(kind, pre) =~= trip_target(kind, tv.take(i as int)) + seq![py_answer_sig(c@, a@, b@)]);
            } else {
                assert(views(out@) =~= before + seq![ts_answer_line(c@, a@, b@)]);
                assert(trip_target(kind, pre) =~= trip_target(kind, tv.take(i as int)) + seq![ts_answer_line(c@, a@, b@)]);
            }
        }
        i = i + 1;
    }
    assert(tv.take(tv.len() as int) =~= tv);
    out
}

fn push_all(dst: &mut Vec<String>, src: Vec<String>)
    ensures
        views(final(dst)@) == views(old(dst)@) + views(src@),
{
    let mut src = src;
    let ghost a = dst@;
    let ghost b = src@;
    dst.append(&mut src);
    assert(views(final(dst)@) =~= views(a) + views(b));
}

fn py_methods_exec(s: &Sigs) -> (r: Vec<String>)
    ensures
        views(r@) == py_methods(sig_view(*s)),
{
    let ghost sv = sig_view(*s);
    let mut m: Vec<String> = Vec::new();
    let ghost p0: Seq<Seq<char>> = if sv.publishes.len() > 0 {
        seq![py_method(sv.publishes.map_values(|e: (Seq<char>, Seq<char>)| py_pub_sig(e.0, e.1)))]
    } else {
        seq![]
    };
    let ghost p1: Seq<Seq<char>> = if sv.subscribes.len() > 0 {
        seq![py_method(py_sub_sigs(sv.subscribes))]
    } else {
        seq![]
    };
    let ghost p2: Seq<Seq<char>> = if sv.queries.len() > 0 {
        seq![
            py_method(sv.queries.map_values(|e: (Seq<char>, Seq<char>, Seq<char>)| py_query_sig(e.0, e.1))),
            py_method(sv.queries.map_values(|e: (Seq<char>, Seq<char>, Seq<char>)| py_qc_sig(e.0, e.1, e.2))),
        ]
    } else {
        seq![]
    };
    let ghost p3: Seq<Seq<char>> = if sv.answers.len() > 0 {
        seq![py_method(sv.answers.map_values(|e: (Seq<char>, Seq<char>, Seq<char>)| py_answer_sig(e.0, e.1, e.2)))]
    } else {
        seq![]
    };
    assert(views(m@) =~= Seq::<Seq<char>>::empty());
    if s.publishes.len() > 0 {
        let v = pair_lines(true, 0, &s.publishes);
        m.push(py_method_exec(&v));
    }
    assert(views(m@) =~= p0);
    if s.subscribes.len() > 0 {
        let v = pair_lines(true, 1, &s.subscribes);
        m.push(py_method_exec(&v));
    }
    assert(views(m@) =~= p0 + p1);
    if s.queries.len() > 0 {
        let v = trip_lines(0, &s.queries);
        m.push(py_method_exec(&v));
        let w = trip_lines(1, &s.queries);
        m.push(py_method_exec(&w));
    }
    assert(views(m@) =~= p0 + p1 + p2);
    if s.answers.len() > 0 {
        let v = trip_lines(2, &s.answers);
        m.push(py_method_exec(&v));
    }
    assert(views(m@) =~= p0 + p1 + p2 + p3);
    m.push(String::from_str("    def on_reject(self, cb: _OnReject) -> None: ..."));
    m.push(String::from_str("    def connection_info(self, conn: str) -> dict[str, str]: ..."));
    m.push(String::from_str("    def close(self) -> None: ..."));
    assert(views(m@) =~= p0 + p1 + p2 + p3 + py_tail());
    m
}

fn ts_methods_exec(s: &Sigs) -> (r: Vec<String>)
    ensures
        views(r@) == ts_methods(sig_view(*s)),
{
    let mut m = pair_lines(false, 0, &s.publishes);
    push_all(&mut m, pair_lines(false, 1, &s.subscribes));
    push_all(&mut m, trip_lines(3, &s.queries));
    push_all(&mut m, trip_lines(4, &s.answers));
    let ghost before = views(m@);
    m.push(String::from_str("  onReject(cb: OnReject): void;"));
    m.push(String::from_str("  connectionInfo(conn: string): { key: string; hash: string };"));
    m.push(String::from_str("  close(): Promise<void>;"));
    assert(views(m@) =~= before + ts_tail());
    m
}

fn py_facade_exec(name: &str, s: &Sigs) -> (r: String)
    ensures
        r@ == py_facade(name@, sig_view(*s)),
{
    let mut r = String::from_str("class ");
    r.append(name);
    r.append("(Protocol):\n");
    r.append(join_strings(&py_methods_exec(s), "\n").as_str());
    r
}

fn ts_facade_exec(name: &str, s: &Sigs) -> (r: String)
    ensures
        r@ == ts_facade(name@, sig_view(*s)),
{
    let mut r = String::from_str("export interface ");
    r.append(name);
    r.append(" {\n");
    r.append(join_strings(&ts_methods_exec(s), "\n").as_str());
    r.append("\n}");
    r
}


/// The runtime module of a per-node Python stub: markers, hashes, record types and the identity `typed_node`.
pub open spec fn py_node_text(node: Seq<char>, hashes: Defs, defs: Defs) -> Seq<char> {
    markers("#"@, "node"@, node, hashes)
        + "\"\"\"AUTO-GENERATED by `sahou gen --lang python --node "@
        + node
        + "`. Do not edit by hand (it will be regenerated).\n\nStatic layer only: the engine does not read this file. The runtime behaves identically without the stub.\ndrift detection is `sahou check` (CLI/CI responsibility).\n\nUsage (app code): pip install sahou, then use its connect():\n    node = typed_node(sahou.connect(\"gen/descriptor.json\", node=\""@
        + node
        + "\"))\n    node.publish(...) / node.subscribe(...) / node.query_confirmed(...) / node.answer(...)\n\"\"\"\nfrom __future__ import annotations\n\nfrom typing import Any, Literal, NotRequired, TypedDict\n\nSCHEMA_HASHES: dict[str, str] = {\n"@
        + hash_entries("    "@, hashes)
        + "\n}\n\n\n"@
        + defs_text(defs)
        + "\n\n\ndef typed_node(node):\n    \"\"\"Identity (zero runtime cost). The .pyi declares it returns "@
        + facade_of(node)
        + ", so IDE completion works.\"\"\"\n    return node\n"@
}

fn py_node_text_exec(node: &str, hashes: &Vec<(String, String)>, defs: &Vec<(String, String)>) -> (r: String)
    ensures
        r@ == py_node_text(node@, pair_views(hashes@), pair_views(defs@)),
{
    let facade = facade_name(node);
    let mut r = String::from_str(markers_exec("#", "node", node, hashes).as_str());
    r.append("\"\"\"AUTO-GENERATED by `sahou gen --lang python --node ");
    r.append(node);
    r.append("`. Do not edit by hand (it will be regenerated).\n\nStatic layer only: the engine does not read this file. The runtime behaves identically without the stub.\ndrift detection is `sahou check` (CLI/CI responsibility).\n\nUsage (app code): pip install sahou, then use its connect():\n    node = typed_node(sahou.connect(\"gen/descriptor.json\", node=\"");
    r.append(node);
    r.append("\"))\n    node.publish(...) / node.subscribe(...) / node.query_confirmed(...) / node.answer(...)\n\"\"\"\nfrom __future__ import annotations\n\nfrom typing import Any, Literal, NotRequired, TypedDict\n\nSCHEMA_HASHES: dict[str, str] = {\n");
    r.append(hash_entries_exec("    ", hashes).as_str());
    r.append("\n}\n\n\n");
    r.append(defs_text_exec(defs).as_str());
    r.append("\n\n\ndef typed_node(node):\n    \"\"\"Identity (zero runtime cost). The .pyi declares it returns ");
    r.append(facade.as_str());
    r.append(", so IDE completion works.\"\"\"\n    return node\n");
    r
}

/// The typing module of a per-node Python stub: the record types, the facade protocol and `typed_node`.
pub open spec fn pyi_node_text(node: Seq<char>, hashes: Defs, defs: Defs, facade_block: Seq<char>) -> Seq<char> {
    markers("#"@, "node"@, node, hashes)
        + "# AUTO-GENERATED by `sahou gen --lang python --node "@
        + node
        + "`. Do not edit by hand (it will be regenerated).\nfrom typing import Any, Callable, Final, Literal, NotRequired, Protocol, TypedDict, overload\n\nSCHEMA_HASHES: Final[dict[str, str]]\n\n_OnReject = Callable[[str, list[dict[str, str]]], object]\n\n"@
        + defs_text(defs)
        + "\n\n"@
        + facade_block
        + "\n\ndef typed_node(node: object) -> "@
        + facade_of(node)
        + ": ...\n"@
}

fn pyi_node_text_exec(node: &str, hashes: &Vec<(String, String)>, defs: &Vec<(String, String)>, facade_block: &str) -> (r: String)
    ensures
        r@ == pyi_node_text(node@, pair_views(hashes@), pair_views(defs@), facade_block@),
{
    let facade = facade_name(node);
    let mut r = String::from_str(markers_exec("#", "node", node, hashes).as_str());
    r.append("# AUTO-GENERATED by `sahou gen --lang python --node ");
    r.append(node);
    r.append("`. Do not edit by hand (it will be regenerated).\nfrom typing import Any, Callable, Final, Literal, NotRequired, Protocol, TypedDict, overload\n\nSCHEMA_HASHES: Final[dict[str, str]]\n\n_OnReject = Callable[[str, list[dict[str, str]]], object]\n\n");
    r.append(defs_text_exec(defs).as_str());
    r.append("\n\n");
    r.append(facade_block);
    r.append("\n\ndef typed_node(node: object) -> ");
    r.append(facade.as_str());
    r.append(": ...\n");
    r
}

/// The runtime module of a per-node TypeScript stub: markers, hashes and the identity `typedNode`.
pub open spec fn mjs_node_text(node: Seq<char>, hashes: Defs) -> Seq<char> {
    markers("//"@, "node"@, node, hashes)
        + "// AUTO-GENERATED by `sahou gen --lang ts --node "@
        + node
        + "`. Do not edit by hand (it will be regenerated).\n// Static layer only: the engine does not read this file. The runtime behaves identically without the stub.\n//\n// Usage (app code): npm i sahou, then use its connect():\n//   const node = typedNode(await connect(\"gen/descriptor.json\", { node: \""@
        + node
        + "\" }));\n//   await node.publish(...) / node.subscribe(...) / node.queryConfirmed(...) / node.answer(...)\nexport const SCHEMA_HASHES = Object.freeze({\n"@
        + hash_entries("  "@, hashes)
        + "\n});\n\n/** Identity (zero runtime cost). The .d.mts declares it returns "@
        + facade_of(node)
        + ", so IDE completion works. */\nexport const typedNode = (node) => node;\n"@
}

fn mjs_node_text_exec(node: &str, hashes: &Vec<(String, String)>) -> (r: String)
    ensures
        r@ == mjs_node_text(node@, pair_views(hashes@)),
{
    let facade = facade_name(node);
    let mut r = String::from_str(markers_exec("//", "node", node, hashes).as_str());
    r.append("// AUTO-GENERATED by `sahou gen --lang ts --node ");
    r.append(node);
    r.append("`. Do not edit by hand (it will be regenerated).\n// Static layer only: the engine does not read this file. The runtime behaves identically without the stub.\n//\n// Usage (app code): npm i sahou, then use its connect():\n//   const node = typedNode(await connect(\"gen/descriptor.json\", { node: \"");
    r.append(node);
    r.append("\" }));\n//   await node.publish(...) / node.subscribe(...) / node.queryConfirmed(...) / node.answer(...)\nexport const SCHEMA_HASHES = Object.freeze({\n");
    r.append(hash_entries_exec("  ", hashes).as_str());
    r.append("\n});\n\n/** Identity (zero runtime cost). The .d.mts declares it returns ");
    r.append(facade.as_str());
    r.append(", so IDE completion works. */\nexport const typedNode = (node) => node;\n");
    r
}

/// The typing module of a per-node TypeScript stub: the record types, the facade interface and `typedNode`.
pub open spec fn dts_node_text(node: Seq<char>, hashes: Defs, defs: Defs, facade_block: Seq<char>) -> Seq<char> {
    markers("//"@, "node"@, node, hashes)
        + "// AUTO-GENERATED by `sahou gen --lang ts --node "@
        + node
        + "`. Do not edit by hand (it will be regenerated).\nexport interface SahouDiag {\n  code: string;\n  path: string;\n  message: string;\n}\n\nexport type OnReject = (conn: string, diags: SahouDiag[]) => void | Promise<void>;\n\n"@
        + defs_text(defs)
        + "\n\n"@
        + facade_block
        + "\n\nexport declare const SCHEMA_HASHES: Readonly<Record<string, string>>;\n\nexport declare function typedNode(node: unknown): "@
        + facade_of(node)
        + ";\n"@
}

fn dts_node_text_exec(node: &str, hashes: &Vec<(String, String)>, defs: &Vec<(String, String)>, facade_block: &str) -> (r: String)
    ensures
        r@ == dts_node_text(node@, pair_views(hashes@), pair_views(defs@), facade_block@),
{
    let facade = facade_name(node);
    let mut r = String::from_str(markers_exec("//", "node", node, hashes).as_str());
    r.append("// AUTO-GENERATED by `sahou gen --lang ts --node ");
    r.append(node);
    r.append("`. Do not edit by hand (it will be regenerated).\nexport interface SahouDiag {\n  code: string;\n  path: string;\n  message: string;\n}\n\nexport type OnReject = (conn: string, diags: SahouDiag[]) => void | Promise<void>;\n\n");
    r.append(defs_text_exec(defs).as_str());
    r.append("\n\n");
    r.append(facade_block);
    r.append("\n\nexport declare const SCHEMA_HASHES: Readonly<Record<string, string>>;\n\nexport declare function typedNode(node: unknown): ");
    r.append(facade.as_str());
    r.append(";\n");
    r
}

/// The runtime module of a whole-descriptor TypeScript stub: it re-exports `connect` and carries the hashes.
pub open spec fn mjs_all_text(schema: Seq<char>, hashes: Defs, target: TsTarget) -> Seq<char> {
    markers("//"@, "schema"@, schema, hashes)
        + "// AUTO-GENERATED by `sahou gen --lang ts`. Do not edit by hand (it will be regenerated).\n// Static layer only: the engine does not read this file. The runtime behaves identically without it.\n//\n// Usage (app code): npm i sahou, then import the typed connect from here:\n//   import { connect } from \"./sahou.gen.mjs\";\n//   const node = await connect(\"gen/descriptor.json\", { node: \"<node>\" });\nexport { connect } from \""@
        + import_src(target)
        + "\";\nexport const SCHEMA_HASHES = Object.freeze({\n"@
        + hash_entries("  "@, hashes)
        + "\n});\n"@
}

fn mjs_all_text_exec(schema: &str, hashes: &Vec<(String, String)>, target: TsTarget) -> (r: String)
    ensures
        r@ == mjs_all_text(schema@, pair_views(hashes@), target),
{
    let mut r = String::from_str(markers_exec("//", "schema", schema, hashes).as_str());
    r.append("// AUTO-GENERATED by `sahou gen --lang ts`. Do not edit by hand (it will be regenerated).\n// Static layer only: the engine does not read this file. The runtime behaves identically without it.\n//\n// Usage (app code): npm i sahou, then import the typed connect from here:\n//   import { connect } from \"./sahou.gen.mjs\";\n//   const node = await connect(\"gen/descriptor.json\", { node: \"<node>\" });\nexport { connect } from \"");
    r.append(import_src_exec(target));
    r.append("\";\nexport const SCHEMA_HASHES = Object.freeze({\n");
    r.append(hash_entries_exec("  ", hashes).as_str());
    r.append("\n});\n");
    r
}

/// The typing module of a whole-descriptor TypeScript stub: all record types, a facade per node and a typed `connect` per node.
pub open spec fn dts_all_text(schema: Seq<char>, hashes: Defs, defs: Defs, facades: Seq<char>, overloads: Seq<char>) -> Seq<char> {
    markers("//"@, "schema"@, schema, hashes)
        + "// AUTO-GENERATED by `sahou gen --lang ts`. Do not edit by hand (it will be regenerated).\nexport interface SahouDiag {\n  code: string;\n  path: string;\n  message: string;\n}\n\nexport type OnReject = (conn: string, diags: SahouDiag[]) => void | Promise<void>;\n\n"@
        + defs_text(defs)
        + "\n\n"@
        + facades
        + "\n\n"@
        + overloads
        + "\n\nexport declare const SCHEMA_HASHES: Readonly<Record<string, string>>;\n"@
}

fn dts_all_text_exec(schema: &str, hashes: &Vec<(String, String)>, defs: &Vec<(String, String)>, facades: &str, overloads: &str) -> (r: String)
    ensures
        r@ == dts_all_text(schema@, pair_views(hashes@), pair_views(defs@), facades@, overloads@),
{
    let mut r = String::from_str(markers_exec("//", "schema", schema, hashes).as_str());
    r.append("// AUTO-GENERATED by `sahou gen --lang ts`. Do not edit by hand (it will be regenerated).\nexport interface SahouDiag {\n  code: string;\n  path: string;\n  message: string;\n}\n\nexport type OnReject = (conn: string, diags: SahouDiag[]) => void | Promise<void>;\n\n");
    r.append(defs_text_exec(defs).as_str());
    r.append("\n\n");
    r.append(facades);
    r.append("\n\n");
    r.append(overloads);
    r.append("\n\nexport declare const SCHEMA_HASHES: Readonly<Record<string, string>>;\n");
    r
}

/// The runtime module of a whole-descriptor Python stub: it re-exports `connect` and carries the hashes.
pub open spec fn py_all_text(schema: Seq<char>, hashes: Defs) -> Seq<char> {
    markers("#"@, "schema"@, schema, hashes)
        + "\"\"\"AUTO-GENERATED by `sahou gen --lang python`. Do not edit by hand (it will be regenerated).\n\nStatic layer: the .pyi drives type checking; this module only re-exports the real connect.\ndrift detection is `sahou check` (CLI/CI responsibility).\n\nUsage (app code): pip install sahou, then import the typed connect from here:\n    from sahou_gen import connect\n    node = connect(\"gen/descriptor.json\", \"<node>\")\n\"\"\"\nfrom __future__ import annotations\n\nfrom sahou import connect\n\nSCHEMA_HASHES: dict[str, str] = {\n"@
        + hash_entries("    "@, hashes)
        + "\n}\n"@
}

fn py_all_text_exec(schema: &str, hashes: &Vec<(String, String)>) -> (r: String)
    ensures
        r@ == py_all_text(schema@, pair_views(hashes@)),
{
    let mut r = String::from_str(markers_exec("#", "schema", schema, hashes).as_str());
    r.append("\"\"\"AUTO-GENERATED by `sahou gen --lang python`. Do not edit by hand (it will be regenerated).\n\nStatic layer: the .pyi drives type checking; this module only re-exports the real connect.\ndrift detection is `sahou check` (CLI/CI responsibility).\n\nUsage (app code): pip install sahou, then import the typed connect from here:\n    from sahou_gen import connect\n    node = connect(\"gen/descriptor.json\", \"<node>\")\n\"\"\"\nfrom __future__ import annotations\n\nfrom sahou import connect\n\nSCHEMA_HASHES: dict[str, str] = {\n");
    r.append(hash_entries_exec("    ", hashes).as_str());
    r.append("\n}\n");
    r
}

/// The typing module of a whole-descriptor Python stub: all record types, a facade protocol per node and a `connect` overload per node.
pub open spec fn pyi_all_text(schema: Seq<char>, hashes: Defs, defs: Defs, facades: Seq<char>, overloads: Seq<char>) -> Seq<char> {
    markers("#"@, "schema"@, schema, hashes)
        + "# AUTO-GENERATED by `sahou gen --lang python`. Do not edit by hand (it will be regenerated).\nfrom typing import Any, Callable, Final, Literal, NotRequired, Protocol, TypedDict, overload\n\nSCHEMA_HASHES: Final[dict[str, str]]\n\n_OnReject = Callable[[str, list[dict[str, str]]], object]\n\n"@
        + defs_text(defs)
        + "\n\n"@
        + facades
        + "\n\n"@
        + overloads
        + "\n"@
}

fn pyi_all_text_exec(schema: &str, hashes: &Vec<(String, String)>, defs: &Vec<(String, String)>, facades: &str, overloads: &str) -> (r: String)
    ensures
        r@ == pyi_all_text(schema@, pair_views(hashes@), pair_views(defs@), facades@, overloads@),
{
    let mut r = String::from_str(markers_exec("#", "schema", schema, hashes).as_str());
    r.append("# AUTO-GENERATED by `sahou gen --lang python`. Do not edit by hand (it will be regenerated).\nfrom typing import Any, Callable, Final, Literal, NotRequired, Protocol, TypedDict, overload\n\nSCHEMA_HASHES: Final[dict[str, str]]\n\n_OnReject = Callable[[str, list[dict[str, str]]], object]\n\n");
    r.append(defs_text_exec(defs).as_str());
    r.append("\n\n");
    r.append(facades);
    r.append("\n\n");
    r.append(overloads);
    r.append("\n");
    r
}

/// A `publish` overload.
pub open spec fn py_pub_sig(c: Seq<char>, t: Seq<char>) -> Seq<char> {
    "    def publish(self, conn: Literal["@
        + debug_quoted(c)
        + "], payload: "@
        + t
        + ") -> None: ..."@
}

fn py_pub_sig_exec(c: &str, t: &str) -> (r: String)
    ensures
        r@ == py_pub_sig(c@, t@),
{
    let mut r = String::from_str("    def publish(self, conn: Literal[");
    r.append(debug_str(c).as_str());
    r.append("], payload: ");
    r.append(t);
    r.append(") -> None: ...");
    r
}

/// A `subscribe` overload with a handler.
pub open spec fn py_sub_sig_a(c: Seq<char>, t: Seq<char>) -> Seq<char> {
    "    def subscribe(self, conn: Literal["@
        + debug_quoted(c)
        + "], handler: Callable[["@
        + t
        + "], object], *, on_reject: _OnReject | None = ...) -> Callable[["@
        + t
        + "], object]: ..."@
}

fn py_sub_sig_a_exec(c: &str, t: &str) -> (r: String)
    ensures
        r@ == py_sub_sig_a(c@, t@),
{
    let mut r = String::from_str("    def subscribe(self, conn: Literal[");
    r.append(debug_str(c).as_str());
    r.append("], handler: Callable[[");
    r.append(t);
    r.append("], object], *, on_reject: _OnReject | None = ...) -> Callable[[");
    r.append(t);
    r.append("], object]: ...");
    r
}

/// A `subscribe` overload used as a decorator.
pub open spec fn py_sub_sig_b(c: Seq<char>, t: Seq<char>) -> Seq<char> {
    "    def subscribe(self, conn: Literal["@
        + debug_quoted(c)
        + "], handler: None = ..., *, on_reject: _OnReject | None = ...) -> Callable[[Callable[["@
        + t
        + "], object]], Callable[["@
        + t
        + "], object]]: ..."@
}

fn py_sub_sig_b_exec(c: &str, t: &str) -> (r: String)
    ensures
        r@ == py_sub_sig_b(c@, t@),
{
    let mut r = String::from_str("    def subscribe(self, conn: Literal[");
    r.append(debug_str(c).as_str());
    r.append("], handler: None = ..., *, on_reject: _OnReject | None = ...) -> Callable[[Callable[[");
    r.append(t);
    r.append("], object]], Callable[[");
    r.append(t);
    r.append("], object]]: ...");
    r
}

/// A `query` overload.
pub open spec fn py_query_sig(c: Seq<char>, req: Seq<char>) -> Seq<char> {
    "    def query(self, conn: Literal["@
        + debug_quoted(c)
        + "], payload: "@
        + req
        + ", timeout: float = ...) -> dict[str, object]: ..."@
}

fn py_query_sig_exec(c: &str, req: &str) -> (r: String)
    ensures
        r@ == py_query_sig(c@, req@),
{
    let mut r = String::from_str("    def query(self, conn: Literal[");
    r.append(debug_str(c).as_str());
    r.append("], payload: ");
    r.append(req);
    r.append(", timeout: float = ...) -> dict[str, object]: ...");
    r
}

/// A `query_confirmed` overload.
pub open spec fn py_qc_sig(c: Seq<char>, req: Seq<char>, resp: Seq<char>) -> Seq<char> {
    "    def query_confirmed(self, conn: Literal["@
        + debug_quoted(c)
        + "], payload: "@
        + req
        + ", *, timeout: float = ..., retries: int = ..., backoff: float = ...) -> "@
        + resp
        + ": ..."@
}

fn py_qc_sig_exec(c: &str, req: &str, resp: &str) -> (r: String)
    ensures
        r@ == py_qc_sig(c@, req@, resp@),
{
    let mut r = String::from_str("    def query_confirmed(self, conn: Literal[");
    r.append(debug_str(c).as_str());
    r.append("], payload: ");
    r.append(req);
    r.append(", *, timeout: float = ..., retries: int = ..., backoff: float = ...) -> ");
    r.append(resp);
    r.append(": ...");
    r
}

/// An `answer` overload.
pub open spec fn py_answer_sig(c: Seq<char>, req: Seq<char>, resp: Seq<char>) -> Seq<char> {
    "    def answer(self, conn: Literal["@
        + debug_quoted(c)
        + "], fn: Callable[["@
        + req
        + "], "@
        + resp
        + "]) -> Callable[["@
        + req
        + "], "@
        + resp
        + "]: ..."@
}

fn py_answer_sig_exec(c: &str, req: &str, resp: &str) -> (r: String)
    ensures
        r@ == py_answer_sig(c@, req@, resp@),
{
    let mut r = String::from_str("    def answer(self, conn: Literal[");
    r.append(debug_str(c).as_str());
    r.append("], fn: Callable[[");
    r.append(req);
    r.append("], ");
    r.append(resp);
    r.append("]) -> Callable[[");
    r.append(req);
    r.append("], ");
    r.append(resp);
    r.append("]: ...");
    r
}

/// A `publish` method.
pub open spec fn ts_pub_line(c: Seq<char>, t: Seq<char>) -> Seq<char> {
    "  publish(conn: "@
        + debug_quoted(c)
        + ", payload: "@
        + t
        + "): Promise<void>;"@
}

fn ts_pub_line_exec(c: &str, t: &str) -> (r: String)
    ensures
        r@ == ts_pub_line(c@, t@),
{
    let mut r = String::from_str("  publish(conn: ");
    r.append(debug_str(c).as_str());
    r.append(", payload: ");
    r.append(t);
    r.append("): Promise<void>;");
    r
}

/// A `subscribe` method.
pub open spec fn ts_sub_line(c: Seq<char>, t: Seq<char>) -> Seq<char> {
    "  subscribe(conn: "@
        + debug_quoted(c)
        + ", handler: (payload: "@
        + t
        + ") => void | Promise<void>, opts?: { onReject?: OnReject }): Promise<void>;"@
}

fn ts_sub_line_exec(c: &str, t: &str) -> (r: String)
    ensures
        r@ == ts_sub_line(c@, t@),
{
    let mut r = String::from_str("  subscribe(conn: ");
    r.append(debug_str(c).as_str());
    r.append(", handler: (payload: ");
    r.append(t);
    r.append(") => void | Promise<void>, opts?: { onReject?: OnReject }): Promise<void>;");
    r
}

/// A `query` method.
pub open spec fn ts_query_line(c: Seq<char>, req: Seq<char>, resp: Seq<char>) -> Seq<char> {
    "  query(conn: "@
        + debug_quoted(c)
        + ", payload: "@
        + req
        + ", opts?: { timeoutMs?: number }): Promise<{ delivered: boolean; response: "@
        + resp
        + " | null; diags: SahouDiag[]; timedOut: boolean }>;"@
}

fn ts_query_line_exec(c: &str, req: &str, resp: &str) -> (r: String)
    ensures
        r@ == ts_query_line(c@, req@, resp@),
{
    let mut r = String::from_str("  query(conn: ");
    r.append(debug_str(c).as_str());
    r.append(", payload: ");
    r.append(req);
    r.append(", opts?: { timeoutMs?: number }): Promise<{ delivered: boolean; response: ");
    r.append(resp);
    r.append(" | null; diags: SahouDiag[]; timedOut: boolean }>;");
    r
}

/// A `queryConfirmed` method.
pub open spec fn ts_qc_line(c: Seq<char>, req: Seq<char>, resp: Seq<char>) -> Seq<char> {
    "  queryConfirmed(conn: "@
        + debug_quoted(c)
        + ", payload: "@
        + req
        + ", opts?: { timeoutMs?: number; retries?: number; backoffMs?: number }): Promise<"@
        + resp
        + ">;"@
}

fn ts_qc_line_exec(c: &str, req: &str, resp: &str) -> (r: String)
    ensures
        r@ == ts_qc_line(c@, req@, resp@),
{
    let mut r = String::from_str("  queryConfirmed(conn: ");
    r.append(debug_str(c).as_str());
    r.append(", payload: ");
    r.append(req);
    r.append(", opts?: { timeoutMs?: number; retries?: number; backoffMs?: number }): Promise<");
    r.append(resp);
    r.append(">;");
    r
}

/// An `answer` method.
pub open spec fn ts_answer_line(c: Seq<char>, req: Seq<char>, resp: Seq<char>) -> Seq<char> {
    "  answer(conn: "@
        + debug_quoted(c)
        + ", fn: (req: "@
        + req
        + ") => "@
        + resp
        + " | Promise<"@
        + resp
        + ">): Promise<void>;"@
}

fn ts_answer_line_exec(c: &str, req: &str, resp: &str) -> (r: String)
    ensures
        r@ == ts_answer_line(c@, req@, resp@),
{
    let mut r = String::from_str("  answer(conn: ");
    r.append(debug_str(c).as_str());
    r.append(", fn: (req: ");
    r.append(req);
    r.append(") => ");
    r.append(resp);
    r.append(" | Promise<");
    r.append(resp);
    r.append(">): Promise<void>;");
    r
}

/// The typed `connect` of one node.
pub open spec fn ts_connect_line(node: Seq<char>, facade: Seq<char>, target: TsTarget) -> Seq<char> {
    "export declare function connect(descriptor: string | object, opts: { node: "@
        + debug_quoted(node)
        + connect_opts_tail(target)
        + "): Promise<"@
        + facade
        + ">;"@
}

fn ts_connect_line_exec(node: &str, facade: &str, target: TsTarget) -> (r: String)
    ensures
        r@ == ts_connect_line(node@, facade@, target),
{
    let mut r = String::from_str("export declare function connect(descriptor: string | object, opts: { node: ");
    r.append(debug_str(node).as_str());
    r.append(connect_opts_tail_exec(target));
    r.append("): Promise<");
    r.append(facade);
    r.append(">;");
    r
}

/// The `connect` overload of one node.
pub open spec fn py_connect_sig(node: Seq<char>, facade: Seq<char>) -> Seq<char> {
    "def connect(descriptor, node: Literal["@
        + debug_quoted(node)
        + "], *, connect: list[str] | None = ..., listen: list[str] | None = ..., multicast: bool = ...) -> "@
        + facade
        + ": ..."@
}

fn py_connect_sig_exec(node: &str, facade: &str) -> (r: String)
    ensures
        r@ == py_connect_sig(node@, facade@),
{
    let mut r = String::from_str("def connect(descriptor, node: Literal[");
    r.append(debug_str(node).as_str());
    r.append("], *, connect: list[str] | None = ..., listen: list[str] | None = ..., multicast: bool = ...) -> ");
    r.append(facade);
    r.append(": ...");
    r
}

/// One entry of `SCHEMA_HASHES`.
pub open spec fn hash_entry(indent: Seq<char>, c: Seq<char>, h: Seq<char>) -> Seq<char> {
    indent
        + debug_quoted(c)
        + ": "@
        + debug_quoted(h)
        + ","@
}

fn hash_entry_exec(indent: &str, c: &str, h: &str) -> (r: String)
    ensures
        r@ == hash_entry(indent@, c@, h@),
{
    let mut r = String::from_str(indent);
    r.append(debug_str(c).as_str());
    r.append(": ");
    r.append(debug_str(h).as_str());
    r.append(",");
    r
}

/// One hash marker line.
pub open spec fn marker_line(comment: Seq<char>, c: Seq<char>, h: Seq<char>) -> Seq<char> {
    comment
        + " sahou:hash "@
        + c
        + "="@
        + h
        + "\n"@
}

fn marker_line_exec(comment: &str, c: &str, h: &str) -> (r: String)
    ensures
        r@ == marker_line(comment@, c@, h@),
{
    let mut r = String::from_str(comment);
    r.append(" sahou:hash ");
    r.append(c);
    r.append("=");
    r.append(h);
    r.append("\n");
    r
}

// ---------------------------------------------------------------- per-node generation

pub open spec fn any_text(lang: StubLang) -> Seq<char> {
    match lang {
        StubLang::Python => "Any"@,
        StubLang::Ts => "unknown"@,
    }
}

/// The type of one slot: dynamically typed when untyped or opaque, else a record named after
/// the connection (with `suffix`).
pub open spec fn slot_type_of(lang: StubLang, conn: Seq<char>, suffix: Seq<char>, slot: Slot, path: Seq<char>, defs: Defs) -> Result<(Seq<char>, Defs), DiagView> {
    if slot.typing == Typing::Any || slot.kind == SlotKind::Opaque {
        Ok((any_text(lang), defs))
    } else {
        let name = pascal(conn) + suffix;
        match record_of(lang, name, path, slot.fields@, defs) {
            Err(d) => Err(d),
            Ok(d2) => Ok((name, d2)),
        }
    }
}

fn slot_type(lang: StubLang, conn: &str, suffix: &str, slot: &Slot, path: &String, defs: &mut Vec<(String, String)>) -> (r: Result<String, Diag>)
    requires
        keys_sorted(pair_views(old(defs)@)),
    ensures
        keys_sorted(pair_views(final(defs)@)),
        match (r, slot_type_of(lang, conn@, suffix@, *slot, path@, pair_views(old(defs)@))) {
            (Ok(s), Ok(x)) => s@ == x.0 && pair_views(final(defs)@) == x.1,
            (Err(d), Err(e)) => d@ == e,
            _ => false,
        },
{
    if slot.typing == Typing::Any || slot.kind == SlotKind::Opaque {
        return Ok(String::from_str(match lang {
            StubLang::Python => "Any",
            StubLang::Ts => "unknown",
        }));
    }
    let mut name = pascal_exec(conn);
    name.append(suffix);
    match record(lang, &name, path, &slot.fields, defs) {
        Err(d) => Err(d),
        Ok(()) => Ok(name),
    }
}

/// The connection's slot of the given kind (0 payload, 1 request, 2 response), if it has one.
pub open spec fn slot_of(desc: crate::model::Descriptor, conn: Seq<char>, which: u8) -> Option<Slot> {
    match crate::stub::conn_entry(desc, conn) {
        None => None,
        Some(c) => if which == 0 {
            c.payload
        } else if which == 1 {
            c.request
        } else {
            c.response
        },
    }
}

pub open spec fn slot_name(which: u8) -> Seq<char> {
    if which == 0 {
        "payload"@
    } else if which == 1 {
        "request"@
    } else {
        "response"@
    }
}

pub open spec fn slot_path(conn: Seq<char>, which: u8) -> Seq<char> {
    "connections."@ + conn + "."@ + slot_name(which)
}

/// The payload types of the pub_sub connections `conns`, in order.
pub open spec fn payload_types(lang: StubLang, desc: crate::model::Descriptor, conns: Seq<Seq<char>>, defs: Defs) -> Result<(Defs, Defs), DiagView>
    decreases conns.len(),
{
    if conns.len() == 0 {
        Ok((seq![], defs))
    } else {
        let conn = conns.last();
        match payload_types(lang, desc, conns.drop_last(), defs) {
            Err(d) => Err(d),
            Ok(r) => match slot_of(desc, conn, 0) {
                None => Err(crate::runtime::missing_slot_diag(conn, "payload"@)),
                Some(slot) => match slot_type_of(lang, conn, ""@, slot, slot_path(conn, 0), r.1) {
                    Err(d) => Err(d),
                    Ok(x) => Ok((r.0.push((conn, x.0)), x.1)),
                },
            },
        }
    }
}

/// The request and response types of the query connections `conns`, in order.
pub open spec fn query_types(lang: StubLang, desc: crate::model::Descriptor, conns: Seq<Seq<char>>, defs: Defs) -> Result<(Seq<(Seq<char>, Seq<char>, Seq<char>)>, Defs), DiagView>
    decreases conns.len(),
{
    if conns.len() == 0 {
        Ok((seq![], defs))
    } else {
        let conn = conns.last();
        match query_types(lang, desc, conns.drop_last(), defs) {
            Err(d) => Err(d),
            Ok(r) => match (slot_of(desc, conn, 1), slot_of(desc, conn, 2)) {
                (None, _) => Err(crate::runtime::missing_slot_diag(conn, "request"@)),
                (_, None) => Err(crate::runtime::missing_slot_diag(conn, "response"@)),
                (Some(rq), Some(rs)) => match slot_type_of(lang, conn, "Request"@, rq, slot_path(conn, 1), r.1) {
                    Err(d) => Err(d),
                    Ok(x) => match slot_type_of(lang, conn, "Response"@, rs, slot_path(conn, 2), x.1) {
                        Err(d) => Err(d),
                        Ok(y) => Ok((r.0.push((conn, x.0, y.0)), y.1)),
                    },
                },
            },
        }
    }
}

proof fn lemma_payload_err(lang: StubLang, desc: crate::model::Descriptor, conns: Seq<Seq<char>>, defs: Defs, n: int)
    requires
        0 <= n <= conns.len(),
        payload_types(lang, desc, conns.take(n), defs) is Err,
    ensures
        payload_types(lang, desc, conns, defs) == payload_types(lang, desc, conns.take(n), defs),
    decreases conns.len() - n,
{
    if n == conns.len() {
        assert(conns.take(n) =~= conns);
    } else {
        assert(conns.take(n + 1).drop_last() =~= conns.take(n));
        lemma_payload_err(lang, desc, conns, defs, n + 1);
    }
}

proof fn lemma_query_err(lang: StubLang, desc: crate::model::Descriptor, conns: Seq<Seq<char>>, defs: Defs, n: int)
    requires
        0 <= n <= conns.len(),
        query_types(lang, desc, conns.take(n), defs) is Err,
    ensures
        query_types(lang, desc, conns, defs) == query_types(lang, desc, conns.take(n), defs),
    decreases conns.len() - n,
{
    if n == conns.len() {
        assert(conns.take(n) =~= conns);
    } else {
        assert(conns.take(n + 1).drop_last() =~= conns.take(n));
        lemma_query_err(lang, desc, conns, defs, n + 1);
    }
}

fn missing_slot(conn: &str, name: &str) -> (d: Diag)
    ensures
        d@ == crate::runtime::missing_slot_diag(conn@, name@),
{
    let mut p = cat("connections.", conn);
    p.append(".");
    p.append(name);
    let mut m = String::from_str("descriptor has no ");
    m.append(name);
    m.append(" slot (the gen output is broken)");
    Diag::new("descriptor_error", p, m)
}

fn slot_path_exec(conn: &str, which: u8) -> (r: String)
    requires
        which < 3,
    ensures
        r@ == slot_path(conn@, which),
{
    let mut p = cat("connections.", conn);
    p.append(".");
    p.append(if which == 0 {
        "payload"
    } else if which == 1 {
        "request"
    } else {
        "response"
    });
    p
}

fn payload_types_exec(lang: StubLang, desc: &crate::model::Descriptor, conns: &Vec<String>, defs: &mut Vec<(String, String)>) -> (r: Result<Vec<(String, String)>, Diag>)
    requires
        keys_sorted(pair_views(old(defs)@)),
    ensures
        keys_sorted(pair_views(final(defs)@)),
        match (r, payload_types(lang, *desc, views(conns@), pair_views(old(defs)@))) {
            (Ok(v), Ok(x)) => pair_views(v@) == x.0 && pair_views(final(defs)@) == x.1,
            (Err(d), Err(e)) => d@ == e,
            _ => false,
        },
{
    let ghost cv = views(conns@);
    let ghost d0 = pair_views(defs@);
    let mut out: Vec<(String, String)> = Vec::new();
    let mut i: usize = 0;
    assert(cv.take(0) =~= Seq::<Seq<char>>::empty());
    assert(pair_views(out@) =~= Seq::<(Seq<char>, Seq<char>)>::empty());
    while i < conns.len()
        invariant
            i <= conns@.len(),
            cv == views(conns@),
            d0 == pair_views(old(defs)@),
            keys_sorted(pair_views(defs@)),
            payload_types(lang, *desc, cv.take(i as int), d0) == Ok::<(Defs, Defs), DiagView>((pair_views(out@), pair_views(defs@))),
        decreases conns@.len() - i,
    {
        let conn = conns[i].as_str();
        proof {
            let pre = cv.take(i + 1);
            assert(pre.drop_last() =~= cv.take(i as int));
            assert(pre.last() == conn@);
            crate::model::lemma_find_key(desc.connections@, conn@);
        }
        let slot = match lookup(&desc.connections, conn) {
            None => None,
            Some(k) => desc.connections[k].1.payload.as_ref(),
        };
        match slot {
            None => {
                let d = missing_slot(conn, "payload");
                proof {
                    lemma_payload_err(lang, *desc, cv, d0, i + 1);
                }
                return Err(d);
            },
            Some(sl) => {
                let p = slot_path_exec(conn, 0);
                match slot_type(lang, conn, "", sl, &p, defs) {
                    Err(d) => {
                        proof {
                            lemma_payload_err(lang, *desc, cv, d0, i + 1);
                        }
                        return Err(d);
                    },
                    Ok(t) => {
                        let ghost before = out@;
                        out.push((conns[i].clone(), t));
                        assert(pair_views(out@) =~= pair_views(before).push((conn@, t@)));
                    },
                }
            },
        }
        i = i + 1;
    }
    assert(cv.take(cv.len() as int) =~= cv);
    Ok(out)
}

fn query_types_exec(lang: StubLang, desc: &crate::model::Descriptor, conns: &Vec<String>, defs: &mut Vec<(String, String)>) -> (r: Result<Vec<(String, String, String)>, Diag>)
    requires
        keys_sorted(pair_views(old(defs)@)),
    ensures
        keys_sorted(pair_views(final(defs)@)),
        match (r, query_types(lang, *desc, views(conns@), pair_views(old(defs)@))) {
            (Ok(v), Ok(x)) => trip_views(v@) == x.0 && pair_views(final(defs)@) == x.1,
            (Err(d), Err(e)) => d@ == e,
            _ => false,
        },
{
    let ghost cv = views(conns@);
    let ghost d0 = pair_views(defs@);
    let mut out: Vec<(String, String, String)> = Vec::new();
    let mut i: usize = 0;
    assert(cv.take(0) =~= Seq::<Seq<char>>::empty());
    assert(trip_views(out@) =~= Seq::<(Seq<char>, Seq<char>, Seq<char>)>::empty());
    while i < conns.len()
        invariant
            i <= conns@.len(),
            cv == views(conns@),
            d0 == pair_views(old(defs)@),
            keys_sorted(pair_views(defs@)),
            query_types(lang, *desc, cv.take(i as int), d0) == Ok::<(Seq<(Seq<char>, Seq<char>, Seq<char>)>, Defs), DiagView>((trip_views(out@), pair_views(defs@))),
        decreases conns@.len() - i,
    {
        let conn = conns[i].as_str();
        proof {
            let pre = cv.take(i + 1);
            assert(pre.drop_last() =~= cv.take(i as int));
            assert(pre.last() == conn@);
            crate::model::lemma_find_key(desc.connections@, conn@);
        }
        let (rq, rs) = match lookup(&desc.connections, conn) {
            None => (None, None),
            Some(k) => (desc.connections[k].1.request.as_ref(), desc.connections[k].1.response.as_ref()),
        };
        let rq = match rq {
            None => {
                let d = missing_slot(conn, "request");
                proof {
                    lemma_query_err(lang, *desc, cv, d0, i + 1);
                }
                return Err(d);
            },
            Some(x) => x,
        };
        let rs = match rs {
            None => {
                let d = missing_slot(conn, "response");
                proof {
                    lemma_query_err(lang, *desc, cv, d0, i + 1);
                }
                return Err(d);
            },
            Some(x) => x,
        };
        let p1 = slot_path_exec(conn, 1);
        let t1 = match slot_type(lang, conn, "Request", rq, &p1, defs) {
            Err(d) => {
                proof {
                    lemma_query_err(lang, *desc, cv, d0, i + 1);
                }
                return Err(d);
            },
            Ok(t) => t,
        };
        let p2 = slot_path_exec(conn, 2);
        let t2 = match slot_type(lang, conn, "Response", rs, &p2, defs) {
            Err(d) => {
                proof {
                    lemma_query_err(lang, *desc, cv, d0, i + 1);
                }
                return Err(d);
            },
            Ok(t) => t,
        };
        let ghost before = out@;
        out.push((conns[i].clone(), t1, t2));
        assert(trip_views(out@) =~= trip_views(before).push((conn@, t1@, t2@)));
        i = i + 1;
    }
    assert(cv.take(cv.len() as int) =~= cv);
    Ok(out)
}

/// Each connection of `names` with its descriptor hash.
pub open spec fn hashes_of(desc: crate::model::Descriptor, names: Seq<Seq<char>>) -> Defs {
    names.map_values(|c: Seq<char>| (c, match crate::stub::conn_entry(desc, c) {
        Some(x) => x.hash@,
        None => seq![],
    }))
}

fn hashes_exec(desc: &crate::model::Descriptor, names: &Vec<String>) -> (r: Vec<(String, String)>)
    ensures
        pair_views(r@) == hashes_of(*desc, views(names@)),
{
    let ghost target = hashes_of(*desc, views(names@));
    let mut out: Vec<(String, String)> = Vec::new();
    let mut i: usize = 0;
    assert(pair_views(out@) =~= target.take(0));
    while i < names.len()
        invariant
            i <= names@.len(),
            target == hashes_of(*desc, views(names@)),
            pair_views(out@) == target.take(i as int),
        decreases names@.len() - i,
    {
        proof {
            crate::model::lemma_find_key(desc.connections@, names@[i as int]@);
        }
        let h = match lookup(&desc.connections, names[i].as_str()) {
            Some(k) => desc.connections[k].1.hash.clone(),
            None => String::new(),
        };
        let n = names[i].clone();
        assert(target[i as int] == (n@, h@));
        let ghost before = out@;
        out.push((n, h));
        assert(pair_views(out@) =~= pair_views(before).push(target[i as int]));
        assert(target.take(i + 1) =~= target.take(i as int).push(target[i as int]));
        i = i + 1;
    }
    assert(target.take(target.len() as int) =~= target);
    out
}

/// The files of a per-node stub.
pub open spec fn node_files(lang: StubLang, node: Seq<char>, hashes: Defs, defs: Defs, s: SigsView) -> Seq<(Seq<char>, Seq<char>)> {
    match lang {
        StubLang::Python => seq![
            ("sahou_stub.py"@, py_node_text(node, hashes, defs)),
            ("sahou_stub.pyi"@, pyi_node_text(node, hashes, defs, py_facade(facade_of(node), s))),
        ],
        StubLang::Ts => seq![
            ("sahou_stub.mjs"@, mjs_node_text(node, hashes)),
            ("sahou_stub.d.mts"@, dts_node_text(node, hashes, defs, ts_facade(facade_of(node), s))),
        ],
    }
}

/// The stub of one node: every connection it takes part in, typed. An unknown node, a
/// connection name that cannot stand in a literal, a facade or type name that is not an
/// identifier, a colliding type name or a missing slot is the diagnostic.
pub open spec fn gen_node_of(desc: crate::model::Descriptor, node: Seq<char>, lang: StubLang) -> Result<Seq<(Seq<char>, Seq<char>)>, DiagView> {
    let cs = desc.connections@;
    let part = crate::stub::node_participating(desc, node);
    let u = first_unsafe(part);
    if !crate::model::has_key(desc.nodes@, node) {
        Err(crate::runtime::unknown_node_diag(node))
    } else if u >= 0 {
        Err(bad_literal_diag("connections."@ + part[u], "connection name"@, part[u]))
    } else if !valid_ident(facade_of(node)) {
        Err(bad_ident_diag(lang, "nodes."@ + node, "facade class name"@, facade_of(node)))
    } else {
        match payload_types(lang, desc, crate::runtime::conns_where(cs, node, crate::model::Pattern::PubSub, true), seq![]) {
            Err(d) => Err(d),
            Ok(p) => match payload_types(lang, desc, crate::runtime::conns_where(cs, node, crate::model::Pattern::PubSub, false), p.1) {
                Err(d) => Err(d),
                Ok(s) => match query_types(lang, desc, crate::runtime::conns_where(cs, node, crate::model::Pattern::Query, true), s.1) {
                    Err(d) => Err(d),
                    Ok(q) => match query_types(lang, desc, crate::runtime::conns_where(cs, node, crate::model::Pattern::Query, false), q.1) {
                        Err(d) => Err(d),
                        Ok(a) => Ok(node_files(
                            lang,
                            node,
                            hashes_of(desc, part),
                            a.1,
                            SigsView { publishes: p.0, subscribes: s.0, queries: q.0, answers: a.0 },
                        )),
                    },
                },
            },
        }
    }
}

fn one(d: Diag) -> (r: Vec<Diag>)
    ensures
        diag_views(r@) == seq![d@],
{
    let mut v: Vec<Diag> = Vec::new();
    v.push(d);
    assert(diag_views(v@) =~= seq![v@[0]@]);
    v
}

/// Generates the typed stub of one node: two files (a runtime module and its typing module).
pub fn gen_stub(desc: &crate::model::Descriptor, node: &str, lang: StubLang) -> (r: Result<Vec<StubFile>, Vec<Diag>>)
    ensures
        match (r, gen_node_of(*desc, node@, lang)) {
            (Ok(v), Ok(f)) => file_views(v@) == f,
            (Err(d), Err(e)) => diag_views(d@) == seq![e],
            _ => false,
        },
{
    let plan = match crate::runtime::node_plan(desc, node) {
        Ok(p) => p,
        Err(d) => return Err(d),
    };
    let mut part: Vec<String> = Vec::new();
    assert(views(part@) =~= Seq::<Seq<char>>::empty());
    crate::stub::add_all(&mut part, &plan.publishes);
    crate::stub::add_all(&mut part, &plan.subscribes);
    crate::stub::add_all(&mut part, &plan.queries);
    crate::stub::add_all(&mut part, &plan.answers);
    match find_unsafe(&part) {
        Some(u) => {
            let p = cat("connections.", part[u].as_str());
            return Err(one(bad_literal(p, "connection name", part[u].as_str())));
        },
        None => {},
    }
    let facade = facade_name(node);
    if !is_valid_ident(facade.as_str()) {
        return Err(one(bad_ident(lang, cat("nodes.", node), "facade class name", facade.as_str())));
    }
    let mut defs: Vec<(String, String)> = Vec::new();
    assert(pair_views(defs@) =~= Seq::<(Seq<char>, Seq<char>)>::empty());
    let pubs = match payload_types_exec(lang, desc, &plan.publishes, &mut defs) {
        Ok(v) => v,
        Err(d) => return Err(one(d)),
    };
    let subs = match payload_types_exec(lang, desc, &plan.subscribes, &mut defs) {
        Ok(v) => v,
        Err(d) => return Err(one(d)),
    };
    let qs = match query_types_exec(lang, desc, &plan.queries, &mut defs) {
        Ok(v) => v,
        Err(d) => return Err(one(d)),
    };
    let ans = match query_types_exec(lang, desc, &plan.answers, &mut defs) {
        Ok(v) => v,
        Err(d) => return Err(one(d)),
    };
    let hashes = hashes_exec(desc, &part);
    let sigs = Sigs { publishes: pubs, subscribes: subs, queries: qs, answers: ans };
    Ok(node_files_exec(lang, node, &facade, &hashes, &defs, &sigs))
}

fn node_files_exec(lang: StubLang, node: &str, facade: &String, hashes: &Vec<(String, String)>, defs: &Vec<(String, String)>, sigs: &Sigs) -> (r: Vec<StubFile>)
    requires
        facade@ == facade_of(node@),
    ensures
        file_views(r@) == node_files(lang, node@, pair_views(hashes@), pair_views(defs@), sig_view(*sigs)),
{
    match lang {
        StubLang::Python => {
            let py = py_node_text_exec(node, hashes, defs);
            let block = py_facade_exec(facade.as_str(), sigs);
            let pyi = pyi_node_text_exec(node, hashes, defs, block.as_str());
            let v = vec![
                StubFile { rel_path: String::from_str("sahou_stub.py"), content: py },
                StubFile { rel_path: String::from_str("sahou_stub.pyi"), content: pyi },
            ];
            assert(file_views(v@) =~= node_files(lang, node@, pair_views(hashes@), pair_views(defs@), sig_view(*sigs)));
            v
        },
        StubLang::Ts => {
            let mjs = mjs_node_text_exec(node, hashes);
            let block = ts_facade_exec(facade.as_str(), sigs);
            let dts = dts_node_text_exec(node, hashes, defs, block.as_str());
            let v = vec![
                StubFile { rel_path: String::from_str("sahou_stub.mjs"), content: mjs },
                StubFile { rel_path: String::from_str("sahou_stub.d.mts"), content: dts },
            ];
            assert(file_views(v@) =~= node_files(lang, node@, pair_views(hashes@), pair_views(defs@), sig_view(*sigs)));
            v
        },
    }
}

// ---------------------------------------------------------------- whole-descriptor generation

/// The resolved type names of one connection: payload (pub_sub), request and response (query).
pub struct ConnTypes {
    pub payload: Option<String>,
    pub request: Option<String>,
    pub response: Option<String>,
}

pub type CtView = (Option<Seq<char>>, Option<Seq<char>>, Option<Seq<char>>);

pub open spec fn opt_str(o: Option<String>) -> Option<Seq<char>> {
    match o {
        Some(s) => Some(s@),
        None => None,
    }
}

pub open spec fn ct_view(c: ConnTypes) -> CtView {
    (opt_str(c.payload), opt_str(c.request), opt_str(c.response))
}

pub open spec fn ct_views(v: Seq<(String, ConnTypes)>) -> Seq<(Seq<char>, CtView)> {
    v.map_values(|e: (String, ConnTypes)| (e.0@, ct_view(e.1)))
}

/// The types of one connection, resolved once into the shared definitions.
pub open spec fn conn_types_of(lang: StubLang, desc: crate::model::Descriptor, conn: Seq<char>, defs: Defs) -> Result<(CtView, Defs), DiagView> {
    match crate::stub::conn_entry(desc, conn) {
        None => Ok(((None, None, None), defs)),
        Some(c) => match c.pattern {
            crate::model::Pattern::PubSub => match c.payload {
                None => Err(crate::runtime::missing_slot_diag(conn, "payload"@)),
                Some(slot) => match slot_type_of(lang, conn, ""@, slot, slot_path(conn, 0), defs) {
                    Err(d) => Err(d),
                    Ok(x) => Ok(((Some(x.0), None, None), x.1)),
                },
            },
            crate::model::Pattern::Query => match (c.request, c.response) {
                (None, _) => Err(crate::runtime::missing_slot_diag(conn, "request"@)),
                (_, None) => Err(crate::runtime::missing_slot_diag(conn, "response"@)),
                (Some(rq), Some(rs)) => match slot_type_of(lang, conn, "Request"@, rq, slot_path(conn, 1), defs) {
                    Err(d) => Err(d),
                    Ok(x) => match slot_type_of(lang, conn, "Response"@, rs, slot_path(conn, 2), x.1) {
                        Err(d) => Err(d),
                        Ok(y) => Ok(((None, Some(x.0), Some(y.0)), y.1)),
                    },
                },
            },
        },
    }
}

/// The types of each of `names`, in order.
pub open spec fn all_types(lang: StubLang, desc: crate::model::Descriptor, names: Seq<Seq<char>>, defs: Defs) -> Result<(Seq<(Seq<char>, CtView)>, Defs), DiagView>
    decreases names.len(),
{
    if names.len() == 0 {
        Ok((seq![], defs))
    } else {
        match all_types(lang, desc, names.drop_last(), defs) {
            Err(d) => Err(d),
            Ok(r) => match conn_types_of(lang, desc, names.last(), r.1) {
                Err(d) => Err(d),
                Ok(x) => Ok((r.0.push((names.last(), x.0)), x.1)),
            },
        }
    }
}

proof fn lemma_all_types_err(lang: StubLang, desc: crate::model::Descriptor, names: Seq<Seq<char>>, defs: Defs, n: int)
    requires
        0 <= n <= names.len(),
        all_types(lang, desc, names.take(n), defs) is Err,
    ensures
        all_types(lang, desc, names, defs) == all_types(lang, desc, names.take(n), defs),
    decreases names.len() - n,
{
    if n == names.len() {
        assert(names.take(n) =~= names);
    } else {
        assert(names.take(n + 1).drop_last() =~= names.take(n));
        lemma_all_types_err(lang, desc, names, defs, n + 1);
    }
}

/// The types recorded for `conn`, if any.
pub open spec fn get_ct(types: Seq<(Seq<char>, CtView)>, conn: Seq<char>) -> Option<CtView>
    decreases types.len(),
{
    if types.len() == 0 {
        None
    } else if types[0].0 == conn {
        Some(types[0].1)
    } else {
        get_ct(types.drop_first(), conn)
    }
}

/// (connection, payload type) for each of `conns` that has a payload type.
pub open spec fn sig_pays(types: Seq<(Seq<char>, CtView)>, conns: Seq<Seq<char>>) -> Defs
    decreases conns.len(),
{
    if conns.len() == 0 {
        seq![]
    } else {
        sig_pays(types, conns.drop_last()) + match get_ct(types, conns.last()) {
            Some(ct) => match ct.0 {
                Some(t) => seq![(conns.last(), t)],
                None => seq![],
            },
            None => seq![],
        }
    }
}

/// (connection, request type, response type) for each of `conns` that has both.
pub open spec fn sig_qs(types: Seq<(Seq<char>, CtView)>, conns: Seq<Seq<char>>) -> Seq<(Seq<char>, Seq<char>, Seq<char>)>
    decreases conns.len(),
{
    if conns.len() == 0 {
        seq![]
    } else {
        sig_qs(types, conns.drop_last()) + match get_ct(types, conns.last()) {
            Some(ct) => match (ct.1, ct.2) {
                (Some(a), Some(b)) => seq![(conns.last(), a, b)],
                _ => seq![],
            },
            None => seq![],
        }
    }
}

pub open spec fn node_sigs_of(desc: crate::model::Descriptor, node: Seq<char>, types: Seq<(Seq<char>, CtView)>) -> SigsView {
    let cs = desc.connections@;
    SigsView {
        publishes: sig_pays(types, crate::runtime::conns_where(cs, node, crate::model::Pattern::PubSub, true)),
        subscribes: sig_pays(types, crate::runtime::conns_where(cs, node, crate::model::Pattern::PubSub, false)),
        queries: sig_qs(types, crate::runtime::conns_where(cs, node, crate::model::Pattern::Query, true)),
        answers: sig_qs(types, crate::runtime::conns_where(cs, node, crate::model::Pattern::Query, false)),
    }
}

/// (node, facade, signatures) for each `sahou` node of `ns`, in order.
pub open spec fn node_entries(lang: StubLang, desc: crate::model::Descriptor, ns: Seq<(String, crate::model::Node)>, types: Seq<(Seq<char>, CtView)>) -> Result<Seq<(Seq<char>, Seq<char>, SigsView)>, DiagView>
    decreases ns.len(),
{
    if ns.len() == 0 {
        Ok(seq![])
    } else {
        match node_entries(lang, desc, ns.drop_last(), types) {
            Err(d) => Err(d),
            Ok(acc) => {
                let name = ns.last().0@;
                if ns.last().1.kind != crate::model::NodeKind::Sahou {
                    Ok(acc)
                } else if !valid_ident(facade_of(name)) {
                    Err(bad_ident_diag(lang, "nodes."@ + name, "facade class name"@, facade_of(name)))
                } else {
                    Ok(acc.push((name, facade_of(name), node_sigs_of(desc, name, types))))
                }
            },
        }
    }
}

proof fn lemma_node_entries_err(lang: StubLang, desc: crate::model::Descriptor, ns: Seq<(String, crate::model::Node)>, types: Seq<(Seq<char>, CtView)>, n: int)
    requires
        0 <= n <= ns.len(),
        node_entries(lang, desc, ns.take(n), types) is Err,
    ensures
        node_entries(lang, desc, ns, types) == node_entries(lang, desc, ns.take(n), types),
    decreases ns.len() - n,
{
    if n == ns.len() {
        assert(ns.take(n) =~= ns);
    } else {
        assert(ns.take(n + 1).drop_last() =~= ns.take(n));
        lemma_node_entries_err(lang, desc, ns, types, n + 1);
    }
}

/// The files of a whole-descriptor stub.
pub open spec fn all_files(lang: StubLang, target: TsTarget, schema: Seq<char>, hashes: Defs, defs: Defs, nodes: Seq<(Seq<char>, Seq<char>, SigsView)>) -> Seq<(Seq<char>, Seq<char>)> {
    match lang {
        StubLang::Python => seq![
            ("sahou_gen.py"@, py_all_text(schema, hashes)),
            (
                "sahou_gen.pyi"@,
                pyi_all_text(
                    schema,
                    hashes,
                    defs,
                    join(nodes.map_values(|e: (Seq<char>, Seq<char>, SigsView)| py_facade(e.1, e.2)), "\n\n\n"@),
                    py_method(nodes.map_values(|e: (Seq<char>, Seq<char>, SigsView)| py_connect_sig(e.0, e.1))),
                ),
            ),
        ],
        StubLang::Ts => seq![
            ("sahou.gen.mjs"@, mjs_all_text(schema, hashes, target)),
            (
                "sahou.gen.d.mts"@,
                dts_all_text(
                    schema,
                    hashes,
                    defs,
                    join(nodes.map_values(|e: (Seq<char>, Seq<char>, SigsView)| ts_facade(e.1, e.2)), "\n\n"@),
                    join(nodes.map_values(|e: (Seq<char>, Seq<char>, SigsView)| ts_connect_line(e.0, e.1, target)), "\n"@),
                ),
            ),
        ],
    }
}

/// The whole-descriptor stub: every connection a `sahou` node takes part in, typed once, and a
/// facade and a typed `connect` for each `sahou` node.
pub open spec fn gen_all_of(desc: crate::model::Descriptor, lang: StubLang, target: TsTarget) -> Result<Seq<(Seq<char>, Seq<char>)>, DiagView> {
    let part = crate::stub::sahou_conns(desc, desc.connections@);
    let u = first_unsafe(part);
    if u >= 0 {
        Err(bad_literal_diag("connections."@ + part[u], "connection name"@, part[u]))
    } else {
        match all_types(lang, desc, part, seq![]) {
            Err(d) => Err(d),
            Ok(t) => match node_entries(lang, desc, desc.nodes@, t.0) {
                Err(d) => Err(d),
                Ok(ns) => Ok(all_files(lang, target, desc.schema@, hashes_of(desc, part), t.1, ns)),
            },
        }
    }
}

fn conn_types(lang: StubLang, desc: &crate::model::Descriptor, conn: &str, defs: &mut Vec<(String, String)>) -> (r: Result<ConnTypes, Diag>)
    requires
        keys_sorted(pair_views(old(defs)@)),
    ensures
        keys_sorted(pair_views(final(defs)@)),
        match (r, conn_types_of(lang, *desc, conn@, pair_views(old(defs)@))) {
            (Ok(c), Ok(x)) => ct_view(c) == x.0 && pair_views(final(defs)@) == x.1,
            (Err(d), Err(e)) => d@ == e,
            _ => false,
        },
{
    proof {
        crate::model::lemma_find_key(desc.connections@, conn@);
    }
    let k = match lookup(&desc.connections, conn) {
        None => {
            return Ok(ConnTypes { payload: None, request: None, response: None });
        },
        Some(k) => k,
    };
    let c = &desc.connections[k].1;
    match c.pattern {
        crate::model::Pattern::PubSub => match &c.payload {
            None => Err(missing_slot(conn, "payload")),
            Some(slot) => {
                let p = slot_path_exec(conn, 0);
                match slot_type(lang, conn, "", slot, &p, defs) {
                    Err(d) => Err(d),
                    Ok(t) => Ok(ConnTypes { payload: Some(t), request: None, response: None }),
                }
            },
        },
        crate::model::Pattern::Query => {
            let rq = match &c.request {
                None => {
                    return Err(missing_slot(conn, "request"));
                },
                Some(x) => x,
            };
            let rs = match &c.response {
                None => {
                    return Err(missing_slot(conn, "response"));
                },
                Some(x) => x,
            };
            let p1 = slot_path_exec(conn, 1);
            let t1 = match slot_type(lang, conn, "Request", rq, &p1, defs) {
                Err(d) => {
                    return Err(d);
                },
                Ok(t) => t,
            };
            let p2 = slot_path_exec(conn, 2);
            match slot_type(lang, conn, "Response", rs, &p2, defs) {
                Err(d) => Err(d),
                Ok(t2) => Ok(ConnTypes { payload: None, request: Some(t1), response: Some(t2) }),
            }
        },
    }
}

fn find_ct(types: &Vec<(String, ConnTypes)>, conn: &str) -> (r: Option<usize>)
    ensures
        match r {
            Some(i) => i < types@.len() && get_ct(ct_views(types@), conn@) == Some(ct_view(types@[i as int].1)),
            None => get_ct(ct_views(types@), conn@) is None,
        },
{
    let ghost tv = ct_views(types@);
    let mut i: usize = 0;
    assert(tv.skip(0) =~= tv);
    while i < types.len()
        invariant
            i <= types@.len(),
            tv == ct_views(types@),
            get_ct(tv, conn@) == get_ct(tv.skip(i as int), conn@),
        decreases types@.len() - i,
    {
        let ghost rest = tv.skip(i as int);
        assert(rest[0] == (types@[i as int].0@, ct_view(types@[i as int].1)));
        if crate::strs::string_eq(types[i].0.as_str(), conn) {
            return Some(i);
        }
        assert(rest.drop_first() =~= tv.skip(i + 1));
        i = i + 1;
    }
    None
}

fn sig_pays_exec(types: &Vec<(String, ConnTypes)>, conns: &Vec<String>) -> (r: Vec<(String, String)>)
    ensures
        pair_views(r@) == sig_pays(ct_views(types@), views(conns@)),
{
    let ghost cv = views(conns@);
    let mut out: Vec<(String, String)> = Vec::new();
    let mut i: usize = 0;
    assert(cv.take(0) =~= Seq::<Seq<char>>::empty());
    assert(pair_views(out@) =~= Seq::<(Seq<char>, Seq<char>)>::empty());
    while i < conns.len()
        invariant
            i <= conns@.len(),
            cv == views(conns@),
            pair_views(out@) == sig_pays(ct_views(types@), cv.take(i as int)),
        decreases conns@.len() - i,
    {
        proof {
            let pre = cv.take(i + 1);
            assert(pre.drop_last() =~= cv.take(i as int));
            assert(pre.last() == conns@[i as int]@);
        }
        let ghost before = pair_views(out@);
        match find_ct(types, conns[i].as_str()) {
            Some(k) => match &types[k].1.payload {
                Some(t) => {
                    out.push((conns[i].clone(), t.clone()));
                    assert(pair_views(out@) =~= before + seq![(conns@[i as int]@, t@)]);
                },
                None => {
                    assert(pair_views(out@) =~= before + Seq::<(Seq<char>, Seq<char>)>::empty());
                },
            },
            None => {
                assert(pair_views(out@) =~= before + Seq::<(Seq<char>, Seq<char>)>::empty());
            },
        }
        i = i + 1;
    }
    assert(cv.take(cv.len() as int) =~= cv);
    out
}

fn sig_qs_exec(types: &Vec<(String, ConnTypes)>, conns: &Vec<String>) -> (r: Vec<(String, String, String)>)
    ensures
        trip_views(r@) == sig_qs(ct_views(types@), views(conns@)),
{
    let ghost cv = views(conns@);
    let mut out: Vec<(String, String, String)> = Vec::new();
    let mut i: usize = 0;
    assert(cv.take(0) =~= Seq::<Seq<char>>::empty());
    assert(trip_views(out@) =~= Seq::<(Seq<char>, Seq<char>, Seq<char>)>::empty());
    while i < conns.len()
        invariant
            i <= conns@.len(),
            cv == views(conns@),
            trip_views(out@) == sig_qs(ct_views(types@), cv.take(i as int)),
        decreases conns@.len() - i,
    {
        proof {
            let pre = cv.take(i + 1);
            assert(pre.drop_last() =~= cv.take(i as int));
            assert(pre.last() == conns@[i as int]@);
        }
        let ghost before = trip_views(out@);
        match find_ct(types, conns[i].as_str()) {
            Some(k) => match (&types[k].1.request, &types[k].1.response) {
                (Some(a), Some(b)) => {
                    out.push((conns[i].clone(), a.clone(), b.clone()));
                    assert(trip_views(out@) =~= before + seq![(conns@[i as int]@, a@, b@)]);
                },
                _ => {
                    assert(trip_views(out@) =~= before + Seq::<(Seq<char>, Seq<char>, Seq<char>)>::empty());
                },
            },
            None => {
                assert(trip_views(out@) =~= before + Seq::<(Seq<char>, Seq<char>, Seq<char>)>::empty());
            },
        }
        i = i + 1;
    }
    assert(cv.take(cv.len() as int) =~= cv);
    out
}

pub open spec fn entry_views(v: Seq<(String, String, Sigs)>) -> Seq<(Seq<char>, Seq<char>, SigsView)> {
    v.map_values(|e: (String, String, Sigs)| (e.0@, e.1@, sig_view(e.2)))
}

fn all_files_exec(lang: StubLang, target: TsTarget, schema: &str, hashes: &Vec<(String, String)>, defs: &Vec<(String, String)>, nodes: &Vec<(String, String, Sigs)>) -> (r: Vec<StubFile>)
    ensures
        file_views(r@) == all_files(lang, target, schema@, pair_views(hashes@), pair_views(defs@), entry_views(nodes@)),
{
    let ghost nv = entry_views(nodes@);
    let mut facades: Vec<String> = Vec::new();
    let mut overloads: Vec<String> = Vec::new();
    let mut i: usize = 0;
    while i < nodes.len()
        invariant
            i <= nodes@.len(),
            nv == entry_views(nodes@),
            facades@.len() == i,
            overloads@.len() == i,
            forall|k: int| 0 <= k < i ==> #[trigger] facades@[k]@ == (match lang {
                StubLang::Python => py_facade(nv[k].1, nv[k].2),
                StubLang::Ts => ts_facade(nv[k].1, nv[k].2),
            }),
            forall|k: int| 0 <= k < i ==> #[trigger] overloads@[k]@ == (match lang {
                StubLang::Python => py_connect_sig(nv[k].0, nv[k].1),
                StubLang::Ts => ts_connect_line(nv[k].0, nv[k].1, target),
            }),
        decreases nodes@.len() - i,
    {
        let e = &nodes[i];
        assert(nv[i as int] == (e.0@, e.1@, sig_view(e.2)));
        match lang {
            StubLang::Python => {
                facades.push(py_facade_exec(e.1.as_str(), &e.2));
                overloads.push(py_connect_sig_exec(e.0.as_str(), e.1.as_str()));
            },
            StubLang::Ts => {
                facades.push(ts_facade_exec(e.1.as_str(), &e.2));
                overloads.push(ts_connect_line_exec(e.0.as_str(), e.1.as_str(), target));
            },
        }
        i = i + 1;
    }
    match lang {
        StubLang::Python => {
            assert(views(facades@) =~= nv.map_values(|e: (Seq<char>, Seq<char>, SigsView)| py_facade(e.1, e.2)));
            assert(views(overloads@) =~= nv.map_values(|e: (Seq<char>, Seq<char>, SigsView)| py_connect_sig(e.0, e.1)));
            let f = join_strings(&facades, "\n\n\n");
            let o = py_method_exec(&overloads);
            let py = py_all_text_exec(schema, hashes);
            let pyi = pyi_all_text_exec(schema, hashes, defs, f.as_str(), o.as_str());
            let v = vec![
                StubFile { rel_path: String::from_str("sahou_gen.py"), content: py },
                StubFile { rel_path: String::from_str("sahou_gen.pyi"), content: pyi },
            ];
            assert(file_views(v@) =~= all_files(lang, target, schema@, pair_views(hashes@), pair_views(defs@), nv));
            v
        },
        StubLang::Ts => {
            assert(views(facades@) =~= nv.map_values(|e: (Seq<char>, Seq<char>, SigsView)| ts_facade(e.1, e.2)));
            assert(views(overloads@) =~= nv.map_values(|e: (Seq<char>, Seq<char>, SigsView)| ts_connect_line(e.0, e.1, target)));
            let f = join_strings(&facades, "\n\n");
            let o = join_strings(&overloads, "\n");
            let mjs = mjs_all_text_exec(schema, hashes, target);
            let dts = dts_all_text_exec(schema, hashes, defs, f.as_str(), o.as_str());
            let v = vec![
                StubFile { rel_path: String::from_str("sahou.gen.mjs"), content: mjs },
                StubFile { rel_path: String::from_str("sahou.gen.d.mts"), content: dts },
            ];
            assert(file_views(v@) =~= all_files(lang, target, schema@, pair_views(hashes@), pair_views(defs@), nv));
            v
        },
    }
}

fn node_entries_exec(lang: StubLang, desc: &crate::model::Descriptor, types: &Vec<(String, ConnTypes)>) -> (r: Result<Vec<(String, String, Sigs)>, Diag>)
    ensures
        match (r, node_entries(lang, *desc, desc.nodes@, ct_views(types@))) {
            (Ok(v), Ok(x)) => entry_views(v@) == x,
            (Err(d), Err(e)) => d@ == e,
            _ => false,
        },
{
    let ghost ns = desc.nodes@;
    let ghost tv = ct_views(types@);
    let mut out: Vec<(String, String, Sigs)> = Vec::new();
    let mut i: usize = 0;
    assert(ns.take(0) =~= Seq::<(String, crate::model::Node)>::empty());
    assert(entry_views(out@) =~= Seq::<(Seq<char>, Seq<char>, SigsView)>::empty());
    while i < desc.nodes.len()
        invariant
            i <= ns.len(),
            ns == desc.nodes@,
            tv == ct_views(types@),
            node_entries(lang, *desc, ns.take(i as int), tv) == Ok::<Seq<(Seq<char>, Seq<char>, SigsView)>, DiagView>(entry_views(out@)),
        decreases ns.len() - i,
    {
        let name = &desc.nodes[i].0;
        proof {
            let pre = ns.take(i + 1);
            assert(pre.drop_last() =~= ns.take(i as int));
            assert(pre.last() == ns[i as int]);
            crate::model::lemma_find_key(ns, name@);
            assert(ns[i as int].0@ == name@);
        }
        if desc.nodes[i].1.kind == crate::model::NodeKind::Sahou {
            let facade = facade_name(name.as_str());
            if !is_valid_ident(facade.as_str()) {
                let d = bad_ident(lang, cat("nodes.", name.as_str()), "facade class name", facade.as_str());
                proof {
                    lemma_node_entries_err(lang, *desc, ns, tv, i + 1);
                }
                return Err(d);
            }
            let plan = match crate::runtime::node_plan(desc, name.as_str()) {
                Ok(p) => p,
                Err(_) => {
                    assert(false);
                    return Err(bad_ident(lang, cat("nodes.", name.as_str()), "facade class name", facade.as_str()));
                },
            };
            let pubs = sig_pays_exec(types, &plan.publishes);
            let subs = sig_pays_exec(types, &plan.subscribes);
            let qs = sig_qs_exec(types, &plan.queries);
            let ans = sig_qs_exec(types, &plan.answers);
            let sigs = Sigs { publishes: pubs, subscribes: subs, queries: qs, answers: ans };
            let ghost before = entry_views(out@);
            out.push((name.clone(), facade, sigs));
            assert(entry_views(out@) =~= before.push(entry_views(out@).last()));
        }
        i = i + 1;
    }
    assert(ns.take(ns.len() as int) =~= ns);
    Ok(out)
}

/// Generates the whole-descriptor stub: two files (a runtime module and its typing module);
/// `target` picks the TypeScript transport.
pub fn gen_stub_all(desc: &crate::model::Descriptor, lang: StubLang, target: TsTarget) -> (r: Result<Vec<StubFile>, Vec<Diag>>)
    ensures
        match (r, gen_all_of(*desc, lang, target)) {
            (Ok(v), Ok(f)) => file_views(v@) == f,
            (Err(d), Err(e)) => diag_views(d@) == seq![e],
            _ => false,
        },
{
    let part = crate::stub::participating_conns(desc);
    match find_unsafe(&part) {
        Some(u) => {
            let p = cat("connections.", part[u].as_str());
            return Err(one(bad_literal(p, "connection name", part[u].as_str())));
        },
        None => {},
    }
    let ghost pv = views(part@);
    let mut defs: Vec<(String, String)> = Vec::new();
    let mut types: Vec<(String, ConnTypes)> = Vec::new();
    let mut i: usize = 0;
    assert(pv.take(0) =~= Seq::<Seq<char>>::empty());
    assert(pair_views(defs@) =~= Seq::<(Seq<char>, Seq<char>)>::empty());
    assert(ct_views(types@) =~= Seq::<(Seq<char>, CtView)>::empty());
    while i < part.len()
        invariant
            i <= part@.len(),
            pv == views(part@),
            pv == crate::stub::sahou_conns(*desc, desc.connections@),
            first_unsafe(pv) == -1,
            keys_sorted(pair_views(defs@)),
            all_types(lang, *desc, pv.take(i as int), seq![]) == Ok::<(Seq<(Seq<char>, CtView)>, Defs), DiagView>((ct_views(types@), pair_views(defs@))),
        decreases part@.len() - i,
    {
        proof {
            let pre = pv.take(i + 1);
            assert(pre.drop_last() =~= pv.take(i as int));
            assert(pre.last() == part@[i as int]@);
        }
        match conn_types(lang, desc, part[i].as_str(), &mut defs) {
            Err(d) => {
                proof {
                    lemma_all_types_err(lang, *desc, pv, seq![], i + 1);
                }
                return Err(one(d));
            },
            Ok(ct) => {
                let ghost before = ct_views(types@);
                types.push((part[i].clone(), ct));
                assert(ct_views(types@) =~= before.push(ct_views(types@).last()));
            },
        }
        i = i + 1;
    }
    assert(pv.take(pv.len() as int) =~= pv);
    let nodes = match node_entries_exec(lang, desc, &types) {
        Ok(v) => v,
        Err(d) => return Err(one(d)),
    };
    let hashes = hashes_exec(desc, &part);
    Ok(all_files_exec(lang, target, desc.schema.as_str(), &hashes, &defs, &nodes))
}


} // verus!

verus! {

use crate::model::Json;
use crate::payload::value_diags;

/// The scalar types: those a stub writes as a built-in type.
pub open spec fn scalar_type(t: TypeName) -> bool {
    t == TypeName::Int || t == TypeName::Float || t == TypeName::Bool || t == TypeName::String
        || t == TypeName::Bytes || t == TypeName::Timestamp
}

/// The JSON values a Python annotation admits: `bool` a boolean, `str` a string, `int` an
/// integer (read as a 64-bit signed integer), `float` any number; any other text none.
pub open spec fn py_admits(ty: Seq<char>, v: Json) -> bool {
    if ty == "bool"@ {
        v is Bool
    } else if ty == "str"@ {
        v is Str
    } else if ty == "int"@ {
        v matches Json::Number(n) && n.int is Some
    } else if ty == "float"@ {
        v is Number
    } else {
        false
    }
}

/// The JSON values a TypeScript type admits: `boolean` a boolean, `string` a string, `number`
/// any number; any other text none.
pub open spec fn ts_admits(ty: Seq<char>, v: Json) -> bool {
    if ty == "boolean"@ {
        v is Bool
    } else if ty == "string"@ {
        v is Str
    } else if ty == "number"@ {
        v is Number
    } else {
        false
    }
}

/// Validation finds `v` of the right JSON kind for `t`: none of its diagnostics is a type
/// mismatch.
pub open spec fn kind_accepted(t: TV, v: Json, path: Seq<char>) -> bool {
    forall|i: int| 0 <= i < value_diags(t, v, path).len() ==> #[trigger] value_diags(t, v, path)[i].code != "type_mismatch"@
}

proof fn lemma_scalar_kind(t: TV, v: Json, path: Seq<char>)
    requires
        scalar_type(t.ty),
    ensures
        kind_accepted(t, v, path) <==> match t.ty {
            TypeName::Bool => v is Bool,
            TypeName::String | TypeName::Bytes => v is Str,
            TypeName::Int | TypeName::Timestamp => v matches Json::Number(n) && n.int is Some,
            _ => v is Number,
        },
{
    reveal_strlit("type_mismatch");
    reveal_strlit("out_of_range");
    reveal_strlit("too_long");
    reveal_strlit("bad_base64");
    let d = value_diags(t, v, path);
    assert("type_mismatch"@ != "out_of_range"@ && "type_mismatch"@ != "too_long"@ && "type_mismatch"@ != "bad_base64"@) by {
        assert("type_mismatch"@[0] != "out_of_range"@[0]);
        assert("type_mismatch"@[1] != "too_long"@[1]);
        assert("type_mismatch"@[0] != "bad_base64"@[0]);
    }
    if d.len() > 0 && d[0].code == "type_mismatch"@ {
        assert(!kind_accepted(t, v, path));
    }
}

/// The Python stub type of a scalar field admits exactly the JSON values of the kind payload
/// validation expects for it: a value type-checks against the stub if and only if the
/// boundary finds no type mismatch in it (bounds, lengths and base64 aside).
pub proof fn python_scalar_matches_validation(owner: Seq<char>, path: Seq<char>, t: TV, defs: Defs, v: Json, vpath: Seq<char>)
    requires
        scalar_type(t.ty),
    ensures
        type_text_of(StubLang::Python, owner, path, t, defs) matches Ok((text, d2)) && d2 == defs
            && (py_admits(text, v) <==> kind_accepted(t, v, vpath)),
{
    lemma_scalar_kind(t, v, vpath);
    reveal_strlit("bool");
    reveal_strlit("str");
    reveal_strlit("int");
    reveal_strlit("float");
    assert("bool"@ != "str"@ && "bool"@ != "int"@ && "bool"@ != "float"@ && "str"@ != "int"@ && "str"@ != "float"@
        && "int"@ != "float"@) by {
        assert("bool"@.len() != "str"@.len());
        assert("bool"@[0] != "int"@[0]);
        assert("bool"@.len() != "float"@.len());
        assert("str"@[0] != "int"@[0]);
        assert("str"@.len() != "float"@.len());
        assert("int"@.len() != "float"@.len());
    }
}

/// The TypeScript stub type of a scalar field admits every value payload validation lets
/// through, and only values of the JSON kind validation expects (a `number` for an integer
/// type also admits a fraction, which validation refuses).
pub proof fn typescript_scalar_matches_validation(owner: Seq<char>, path: Seq<char>, t: TV, defs: Defs, v: Json, vpath: Seq<char>)
    requires
        scalar_type(t.ty),
    ensures
        type_text_of(StubLang::Ts, owner, path, t, defs) matches Ok((text, d2)) && d2 == defs
            && (kind_accepted(t, v, vpath) ==> ts_admits(text, v))
            && (ts_admits(text, v) ==> match t.ty {
                TypeName::Bool => v is Bool,
                TypeName::String | TypeName::Bytes => v is Str,
                _ => v is Number,
            }),
{
    lemma_scalar_kind(t, v, vpath);
    reveal_strlit("boolean");
    reveal_strlit("string");
    reveal_strlit("number");
    assert("boolean"@ != "string"@ && "boolean"@ != "number"@ && "string"@ != "number"@) by {
        assert("boolean"@.len() != "string"@.len());
        assert("boolean"@.len() != "number"@.len());
        assert("string"@[0] != "number"@[0]);
    }
}

} // verus!
