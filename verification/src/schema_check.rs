//! Self-validation of a contract: contradictions in the schema itself, with positions.
//! A correct schema yields no diagnostic.
use vstd::prelude::*;

use crate::diag::{dv, diag_views, Diag, DiagView};
use crate::model::{
    float_is_finite, float_lt, has_key, is_finite, lookup, lt, find_key, Connection, Contract,
    Field, Float, Json, Pattern, Slot, TypeName, TypeSpec,
};
use crate::payload::{
    empty, field_diags, h_field, h_fields, h_opt, h_spec, h_specs, h_tv, idx_path, key_child,
    key_path, lemma_h_field, lemma_h_fields_elem, lemma_h_spec_pos, lemma_h_specs_elem,
    obj_get, push_diag, tv_field, tv_of, tv_spec, unvalidated, validate_value, view_field,
    view_spec, TypeView, TV,
};
use crate::strs::{cat, decimal, occurs_at, push_decimal, str_to_string};

verus! {

// ---------------------------------------------------------------- judgement

pub open spec fn conn_path(id: Seq<char>) -> Seq<char> {
    "connections."@ + id
}

/// The wiring judgement of one connection: `from` must name a node; each `to` must name a
/// node other than `from`.
pub open spec fn topology_diags(c: Contract, id: Seq<char>, conn: Connection) -> Seq<DiagView> {
    let from_d = if has_key(c.nodes@, conn.from@) {
        seq![]
    } else {
        seq![
            dv(
                "unknown_node"@,
                conn_path(id) + ".from"@,
                "undefined node '"@ + conn.from@ + "' referenced in from"@,
            ),
        ]
    };
    from_d + to_diags(c, id, conn.from@, conn.to@)
}

pub open spec fn to_diags(c: Contract, id: Seq<char>, from: Seq<char>, to: Seq<String>) -> Seq<
    DiagView,
>
    decreases to.len(),
{
    if to.len() == 0 {
        seq![]
    } else {
        let i = (to.len() - 1) as nat;
        let t = to.last()@;
        let p = conn_path(id) + ".to["@ + decimal(i) + "]"@;
        to_diags(c, id, from, to.drop_last()) + if t == from {
            seq![dv("self_loop"@, p, "from and to are the same node '"@ + t + "' (self loop)"@)]
        } else if !has_key(c.nodes@, t) {
            seq![dv("unknown_node"@, p, "undefined node '"@ + t + "' referenced in to"@)]
        } else {
            seq![]
        }
    }
}

pub open spec fn pattern_name(p: Pattern) -> Seq<char> {
    match p {
        Pattern::PubSub => "PubSub"@,
        Pattern::Query => "Query"@,
    }
}

pub open spec fn missing_slot_diag(id: Seq<char>, p: Pattern, slot: Seq<char>) -> DiagView {
    dv(
        "missing_slot"@,
        conn_path(id) + "."@ + slot,
        "pattern "@ + pattern_name(p) + " requires the "@ + slot + " slot"@,
    )
}

pub open spec fn unexpected_slot_diag(id: Seq<char>, p: Pattern, slot: Seq<char>) -> DiagView {
    dv(
        "unexpected_slot"@,
        conn_path(id) + "."@ + slot,
        "pattern "@ + pattern_name(p) + " cannot have the "@ + slot + " slot"@,
    )
}

pub open spec fn when(b: bool, d: DiagView) -> Seq<DiagView> {
    if b {
        seq![d]
    } else {
        seq![]
    }
}

/// pub_sub carries exactly a payload (and no selector); query carries a request and a response.
pub open spec fn slot_pattern_diags(id: Seq<char>, conn: Connection) -> Seq<DiagView> {
    match conn.pattern {
        Pattern::PubSub => when(
            conn.payload is None,
            missing_slot_diag(id, conn.pattern, "payload"@),
        ) + when(conn.request is Some, unexpected_slot_diag(id, conn.pattern, "request"@))
            + when(conn.response is Some, unexpected_slot_diag(id, conn.pattern, "response"@))
            + when(
            conn.selector is Some,
            dv(
                "unexpected_selector"@,
                conn_path(id) + ".selector"@,
                "selector is for the query pattern only (not usable with pub_sub)"@,
            ),
        ),
        Pattern::Query => when(
            conn.request is None,
            missing_slot_diag(id, conn.pattern, "request"@),
        ) + when(conn.response is None, missing_slot_diag(id, conn.pattern, "response"@))
            + when(conn.payload is Some, unexpected_slot_diag(id, conn.pattern, "payload"@)),
    }
}

pub open spec fn type_debug_name(t: TypeName) -> Seq<char> {
    match t {
        TypeName::Int => "Int"@,
        TypeName::Float => "Float"@,
        TypeName::Bool => "Bool"@,
        TypeName::String => "String"@,
        TypeName::Bytes => "Bytes"@,
        TypeName::Timestamp => "Timestamp"@,
        TypeName::Enum => "Enum"@,
        TypeName::Array => "Array"@,
        TypeName::Dict => "Map"@,
        TypeName::Group => "Group"@,
        TypeName::Union => "Union"@,
    }
}

pub open spec fn bound_diags(path: Seq<char>, name: Seq<char>, b: Option<Float>) -> Seq<DiagView> {
    match b {
        Some(x) => when(
            !float_is_finite(x.bits),
            dv(
                "non_finite_bound"@,
                path,
                "range bound "@ + name + " cannot be a non-finite value (NaN/Inf)"@,
            ),
        ),
        None => seq![],
    }
}

pub open spec fn range_order_diags(path: Seq<char>, min: Option<Float>, max: Option<Float>) -> Seq<
    DiagView,
> {
    match (min, max) {
        (Some(lo), Some(hi)) => when(
            float_lt(hi.bits, lo.bits),
            dv("invalid_range"@, path, "min("@ + lo.text@ + ") > max("@ + hi.text@ + ")"@),
        ),
        _ => seq![],
    }
}

/// The attribute judgement of a type: finite, ordered bounds; non-empty enum values and union
/// candidates; element types present and themselves consistent; group members consistent.
pub open spec fn attrs_diags(path: Seq<char>, t: TV) -> Seq<DiagView>
    decreases h_tv(t), 0nat, 0nat,
{
    let head = bound_diags(path, "min"@, t.min) + bound_diags(path, "max"@, t.max)
        + range_order_diags(path, t.min, t.max);
    head + match t.ty {
        TypeName::Enum => when(
            t.values.len() == 0,
            dv("empty_enum"@, path + ".values"@, "enum field has empty values"@),
        ),
        TypeName::Array | TypeName::Dict => match t.items {
            None => seq![
                dv(
                    "missing_items"@,
                    path + ".items"@,
                    type_debug_name(t.ty) + " requires items (element/value type)"@,
                ),
            ],
            Some(s) => {
                proof {
                    lemma_h_spec_pos(s);
                }
                attrs_diags(path + ".items"@, tv_spec(s))
            },
        },
        TypeName::Union => if t.any_of.len() == 0 {
            seq![dv("empty_union"@, path + ".any_of"@, "union has empty any_of"@)]
        } else {
            specs_attrs_diags(path, t.any_of)
        },
        TypeName::Group => fields_check(path, t.fields),
        _ => seq![],
    }
}

/// The attribute judgement of each union candidate, at `path.any_of[i]`.
pub open spec fn specs_attrs_diags(path: Seq<char>, v: Seq<TypeSpec>) -> Seq<DiagView>
    decreases h_specs(v), 1nat, 0nat,
{
    if v.len() == 0 {
        seq![]
    } else {
        proof {
            lemma_h_spec_pos(v.last());
        }
        specs_attrs_diags(path, v.drop_last()) + attrs_diags(
            path + ".any_of["@ + decimal((v.len() - 1) as nat) + "]"@,
            tv_spec(v.last()),
        )
    }
}

/// Whether `fs` holds a field named `name`.
pub open spec fn names_field(fs: Seq<Field>, name: Seq<char>) -> bool {
    exists|j: int| 0 <= j < fs.len() && fs[j].name@ == name
}

pub open spec fn field_path(path: Seq<char>, i: nat) -> Seq<char> {
    path + ".fields["@ + decimal(i) + "]"@
}

/// Whether a field's type definition is itself broken (left to the earlier diagnostics).
pub open spec fn broken_type(f: Field) -> bool {
    match f.ty {
        TypeName::Array | TypeName::Dict => f.items is None,
        TypeName::Enum => f.values@.len() == 0,
        TypeName::Union => f.any_of@.len() == 0,
        _ => false,
    }
}

/// The judgement of a field's default: it must satisfy the field's own type, judged exactly as
/// the one-field payload `{name: default}` would be.
pub open spec fn default_diags(fpath: Seq<char>, f: Field) -> Seq<DiagView> {
    match f.default {
        Some(d) => if broken_type(f) {
            seq![]
        } else {
            field_diags(f, seq![(f.name, d)], "$"@).map_values(
                |x: DiagView|
                    dv(
                        "invalid_default"@,
                        fpath + ".default"@,
                        "default does not match the type of field '"@ + f.name@ + "': "@
                            + x.message,
                    ),
            )
        },
        None => seq![],
    }
}

/// The judgement of field `i` of a list whose earlier fields are `before`.
pub open spec fn one_field_check(path: Seq<char>, i: nat, f: Field, before: Seq<Field>) -> Seq<
    DiagView,
>
    decreases h_field(f), 0nat, 1nat,
{
    let fpath = field_path(path, i);
    proof {
        lemma_h_field(f);
    }
    when(
        names_field(before, f.name@),
        dv("duplicate_field"@, fpath + ".name"@, "duplicate field name '"@ + f.name@ + "'"@),
    ) + attrs_diags(fpath, tv_field(f)) + default_diags(fpath, f)
}

/// The judgement of a list of fields: unique names, consistent attributes, typed defaults.
pub open spec fn fields_check(path: Seq<char>, fs: Seq<Field>) -> Seq<DiagView>
    decreases h_fields(fs), 1nat, 0nat,
{
    if fs.len() == 0 {
        seq![]
    } else {
        proof {
            lemma_h_field(fs.last());
        }
        fields_check(path, fs.drop_last()) + one_field_check(
            path,
            (fs.len() - 1) as nat,
            fs.last(),
            fs.drop_last(),
        )
    }
}

pub open spec fn slot_check(path: Seq<char>, slot: Slot) -> Seq<DiagView> {
    if unvalidated(slot) {
        seq![]
    } else {
        fields_check(path, slot.fields@)
    }
}

pub open spec fn opt_slot_check(path: Seq<char>, slot: Option<Slot>) -> Seq<DiagView> {
    match slot {
        Some(s) => slot_check(path, s),
        None => seq![],
    }
}

/// The keyexpr chunk that names the sahou admin space (contract and vitals queryables).
pub open spec fn admin_chunk() -> Seq<char> {
    seq!['@', 's', 'a', 'h', 'o', 'u']
}

/// `k` has an `@sahou` chunk starting at `i`: the chunk sits between `/` separators or the ends.
pub open spec fn admin_chunk_at(k: Seq<char>, i: int) -> bool {
    &&& occurs_at(k, admin_chunk(), i)
    &&& (i == 0 || k[i - 1] == '/')
    &&& (i + 6 == k.len() || k[i + 6] == '/')
}

/// A keyexpr with an `@sahou` chunk anywhere collides with the admin space.
pub open spec fn in_admin_space(k: Seq<char>) -> bool {
    exists|i: int| admin_chunk_at(k, i)
}

/// The key a connection is published at must stay out of the admin space: its override, or,
/// without one, its id (the derived key is `<namespace>/<id>`).
pub open spec fn reserved_key_diags(id: Seq<char>, conn: Connection) -> Seq<DiagView> {
    match conn.key {
        Some(k) => when(
            in_admin_space(k@),
            dv(
                "reserved_key"@,
                conn_path(id) + ".key"@,
                "key '"@ + k@ + "' uses the reserved '@sahou' chunk (the sahou admin space); choose another key"@,
            ),
        ),
        None => when(
            in_admin_space(id),
            dv(
                "reserved_key"@,
                conn_path(id),
                "connection id '"@ + id
                    + "' puts its derived key in the reserved '@sahou' chunk (the sahou admin space); rename the connection"@,
            ),
        ),
    }
}

/// All judgements of one connection: wiring, slots for the pattern, then each present slot.
pub open spec fn connection_diags(c: Contract, id: Seq<char>, conn: Connection) -> Seq<DiagView> {
    topology_diags(c, id, conn) + reserved_key_diags(id, conn) + slot_pattern_diags(id, conn) + opt_slot_check(
        conn_path(id) + ".payload"@,
        conn.payload,
    ) + opt_slot_check(conn_path(id) + ".request"@, conn.request) + opt_slot_check(
        conn_path(id) + ".response"@,
        conn.response,
    )
}

pub open spec fn conns_diags(c: Contract, conns: Seq<(String, Connection)>) -> Seq<DiagView>
    decreases conns.len(),
{
    if conns.len() == 0 {
        seq![]
    } else {
        conns_diags(c, conns.drop_last()) + connection_diags(c, conns.last().0@, conns.last().1)
    }
}

/// The diagnostics of a contract, connection by connection in key order.
pub open spec fn schema_diags(c: Contract) -> Seq<DiagView> {
    conns_diags(c, c.connections@)
}

// ---------------------------------------------------------------- exec

proof fn lemma_cat_empty(a: Seq<DiagView>)
    ensures
        a + Seq::<DiagView>::empty() == a,
{
    assert(a + Seq::<DiagView>::empty() =~= a);
}

fn check_topology(c: &Contract, id: &str, conn: &Connection, diags: &mut Vec<Diag>)
    ensures
        diag_views(final(diags)@) == diag_views(old(diags)@) + topology_diags(*c, id@, *conn),
{
    proof {
        lemma_cat_empty(diag_views(old(diags)@));
    }
    if lookup(&c.nodes, conn.from.as_str()).is_none() {
        let p = cat3s("connections.", id, ".from");
        let mut m = String::from_str("undefined node '");
        m.append(conn.from.as_str());
        m.append("' referenced in from");
        push_diag(diags, Diag::new("unknown_node", p, m));
    }
    let ghost mid = diag_views(diags@);
    let mut i: usize = 0;
    assert(conn.to@.take(0) =~= Seq::<String>::empty());
    while i < conn.to.len()
        invariant
            i <= conn.to@.len(),
            diag_views(diags@) == mid + to_diags(*c, id@, conn.from@, conn.to@.take(i as int)),
        decreases conn.to@.len() - i,
    {
        let t = &conn.to[i];
        let ghost before = diag_views(diags@);
        let mut p = cat3s("connections.", id, ".to[");
        push_decimal(&mut p, i as u64);
        p.append("]");
        if crate::strs::string_eq(t.as_str(), conn.from.as_str()) {
            let mut m = String::from_str("from and to are the same node '");
            m.append(t.as_str());
            m.append("' (self loop)");
            push_diag(diags, Diag::new("self_loop", p, m));
        } else if lookup(&c.nodes, t.as_str()).is_none() {
            let mut m = String::from_str("undefined node '");
            m.append(t.as_str());
            m.append("' referenced in to");
            push_diag(diags, Diag::new("unknown_node", p, m));
        }
        proof {
            let pre = conn.to@.take(i + 1);
            assert(pre.drop_last() =~= conn.to@.take(i as int));
            assert(pre.last() == conn.to@[i as int]);
            lemma_cat_empty(before);
        }
        i = i + 1;
    }
    assert(conn.to@.take(conn.to@.len() as int) =~= conn.to@);
}

/// Whether the keyexpr has an `@sahou` chunk.
fn admin_space_key(k: &str) -> (r: bool)
    ensures
        r == in_admin_space(k@),
{
    let s = crate::strs::chars_of(k);
    let n: Vec<char> = vec!['@', 's', 'a', 'h', 'o', 'u'];
    assert(n@ =~= admin_chunk());
    let mut i: usize = 0;
    while i < s.len()
        invariant
            s@ == k@,
            n@ == admin_chunk(),
            i <= s@.len(),
            forall|j: int| 0 <= j < i ==> !#[trigger] admin_chunk_at(k@, j),
        decreases s@.len() - i,
    {
        if crate::strs::occurs_at_exec(s.as_slice(), n.as_slice(), i)
            && (i == 0 || s[i - 1] == '/')
            && (i + 6 == s.len() || s[i + 6] == '/')
        {
            assert(admin_chunk_at(k@, i as int));
            return true;
        }
        i = i + 1;
    }
    assert forall|j: int| !admin_chunk_at(k@, j) by {
        if 0 <= j < i {
        } else {
            assert(!occurs_at(k@, admin_chunk(), j));
        }
    }
    false
}

fn check_reserved_key(id: &str, conn: &Connection, diags: &mut Vec<Diag>)
    ensures
        diag_views(final(diags)@) == diag_views(old(diags)@) + reserved_key_diags(id@, *conn),
{
    proof {
        lemma_cat_empty(diag_views(old(diags)@));
    }
    match &conn.key {
        Some(k) => {
            if admin_space_key(k.as_str()) {
                let mut m = String::from_str("key '");
                m.append(k.as_str());
                m.append("' uses the reserved '@sahou' chunk (the sahou admin space); choose another key");
                push_diag(diags, Diag::new("reserved_key", cat3s("connections.", id, ".key"), m));
            }
        },
        None => {
            if admin_space_key(id) {
                let mut m = String::from_str("connection id '");
                m.append(id);
                m.append("' puts its derived key in the reserved '@sahou' chunk (the sahou admin space); rename the connection");
                push_diag(diags, Diag::new("reserved_key", cat("connections.", id), m));
            }
        },
    }
}

fn cat3s(a: &str, b: &str, c: &str) -> (r: String)
    ensures
        r@ == a@ + b@ + c@,
{
    crate::strs::cat3(a, b, c)
}

fn pattern_debug(p: Pattern) -> (r: &'static str)
    ensures
        r@ == pattern_name(p),
{
    match p {
        Pattern::PubSub => "PubSub",
        Pattern::Query => "Query",
    }
}

fn push_slot_diag(diags: &mut Vec<Diag>, code: &str, id: &str, p: Pattern, slot: &str, verb: &str)
    ensures
        diag_views(final(diags)@) == diag_views(old(diags)@) + seq![
            dv(
                code@,
                conn_path(id@) + "."@ + slot@,
                "pattern "@ + pattern_name(p) + verb@ + slot@ + " slot"@,
            ),
        ],
{
    let mut path = String::from_str("connections.");
    path.append(id);
    path.append(".");
    path.append(slot);
    let mut m = String::from_str("pattern ");
    m.append(pattern_debug(p));
    m.append(verb);
    m.append(slot);
    m.append(" slot");
    push_diag(diags, Diag::new(code, path, m));
}

fn check_slots_for_pattern(id: &str, conn: &Connection, diags: &mut Vec<Diag>)
    ensures
        diag_views(final(diags)@) == diag_views(old(diags)@) + slot_pattern_diags(id@, *conn),
{
    let ghost d0 = diag_views(old(diags)@);
    proof {
        lemma_cat_empty(d0);
    }
    match conn.pattern {
        Pattern::PubSub => {
            if conn.payload.is_none() {
                push_slot_diag(diags, "missing_slot", id, conn.pattern, "payload", " requires the ");
            }
            let ghost d1 = diag_views(diags@);
            proof { lemma_cat_empty(d1); }
            if conn.request.is_some() {
                push_slot_diag(diags, "unexpected_slot", id, conn.pattern, "request", " cannot have the ");
            }
            let ghost d2 = diag_views(diags@);
            proof { lemma_cat_empty(d2); }
            if conn.response.is_some() {
                push_slot_diag(diags, "unexpected_slot", id, conn.pattern, "response", " cannot have the ");
            }
            let ghost d3 = diag_views(diags@);
            proof { lemma_cat_empty(d3); }
            if conn.selector.is_some() {
                push_diag(
                    diags,
                    Diag::new(
                        "unexpected_selector",
                        cat3s("connections.", id, ".selector"),
                        String::from_str(
                            "selector is for the query pattern only (not usable with pub_sub)",
                        ),
                    ),
                );
            }
            assert(diag_views(diags@) =~= d0 + slot_pattern_diags(id@, *conn));
        },
        Pattern::Query => {
            if conn.request.is_none() {
                push_slot_diag(diags, "missing_slot", id, conn.pattern, "request", " requires the ");
            }
            let ghost d1 = diag_views(diags@);
            proof { lemma_cat_empty(d1); }
            if conn.response.is_none() {
                push_slot_diag(diags, "missing_slot", id, conn.pattern, "response", " requires the ");
            }
            let ghost d2 = diag_views(diags@);
            proof { lemma_cat_empty(d2); }
            if conn.payload.is_some() {
                push_slot_diag(diags, "unexpected_slot", id, conn.pattern, "payload", " cannot have the ");
            }
            assert(diag_views(diags@) =~= d0 + slot_pattern_diags(id@, *conn));
        },
    }
}

fn type_debug(t: TypeName) -> (r: &'static str)
    ensures
        r@ == type_debug_name(t),
{
    match t {
        TypeName::Int => "Int",
        TypeName::Float => "Float",
        TypeName::Bool => "Bool",
        TypeName::String => "String",
        TypeName::Bytes => "Bytes",
        TypeName::Timestamp => "Timestamp",
        TypeName::Enum => "Enum",
        TypeName::Array => "Array",
        TypeName::Dict => "Map",
        TypeName::Group => "Group",
        TypeName::Union => "Union",
    }
}

fn check_bound(path: &String, name: &str, b: &Option<Float>, diags: &mut Vec<Diag>)
    ensures
        diag_views(final(diags)@) == diag_views(old(diags)@) + bound_diags(path@, name@, *b),
{
    proof {
        lemma_cat_empty(diag_views(old(diags)@));
    }
    match b {
        Some(x) => {
            if !is_finite(x.bits) {
                let mut m = String::from_str("range bound ");
                m.append(name);
                m.append(" cannot be a non-finite value (NaN/Inf)");
                push_diag(diags, Diag::new("non_finite_bound", path.clone(), m));
            }
        },
        None => {},
    }
}

fn check_type_attrs(path: &String, t: &TypeView, diags: &mut Vec<Diag>)
    ensures
        diag_views(final(diags)@) == diag_views(old(diags)@) + attrs_diags(path@, tv_of(*t)),
    decreases h_tv(tv_of(*t)), 0nat, 0nat,
{
    let ghost d0 = diag_views(old(diags)@);
    check_bound(path, "min", t.min, diags);
    check_bound(path, "max", t.max, diags);
    let ghost d2 = diag_views(diags@);
    proof {
        lemma_cat_empty(d2);
    }
    match (t.min, t.max) {
        (Some(lo), Some(hi)) => {
            if lt(hi.bits, lo.bits) {
                let mut m = String::from_str("min(");
                m.append(lo.text.as_str());
                m.append(") > max(");
                m.append(hi.text.as_str());
                m.append(")");
                push_diag(diags, Diag::new("invalid_range", path.clone(), m));
            }
        },
        _ => {},
    }
    let ghost d3 = diag_views(diags@);
    proof {
        lemma_cat_empty(d3);
    }
    match t.ty {
        TypeName::Enum => {
            if t.values.len() == 0 {
                push_diag(
                    diags,
                    Diag::new(
                        "empty_enum",
                        key_child(path, "values"),
                        String::from_str("enum field has empty values"),
                    ),
                );
            }
        },
        TypeName::Array | TypeName::Dict => {
            match t.items {
                None => {
                    let mut m = String::from_str(type_debug(t.ty));
                    m.append(" requires items (element/value type)");
                    push_diag(diags, Diag::new("missing_items", key_child(path, "items"), m));
                },
                Some(s) => {
                    let e = empty();
                    let sv = view_spec(s, &e);
                    let p = key_child(path, "items");
                    proof {
                        lemma_h_spec_pos(*s);
                    }
                    check_type_attrs(&p, &sv, diags);
                },
            }
        },
        TypeName::Union => {
            if t.any_of.len() == 0 {
                push_diag(
                    diags,
                    Diag::new(
                        "empty_union",
                        key_child(path, "any_of"),
                        String::from_str("union has empty any_of"),
                    ),
                );
            } else {
                check_specs(path, t.any_of, diags);
            }
        },
        TypeName::Group => check_fields(path, t.fields, diags),
        _ => {},
    }
    proof {
        reveal_strlit(".");
        reveal_strlit("values");
        reveal_strlit("items");
        reveal_strlit("any_of");
        reveal_strlit(".values");
        reveal_strlit(".items");
        reveal_strlit(".any_of");
        assert(key_path(path@, "values"@) =~= path@ + ".values"@);
        assert(key_path(path@, "items"@) =~= path@ + ".items"@);
        assert(key_path(path@, "any_of"@) =~= path@ + ".any_of"@);
    }
    assert(diag_views(diags@) =~= d0 + attrs_diags(path@, tv_of(*t)));
}

fn check_specs(path: &String, v: &Vec<TypeSpec>, diags: &mut Vec<Diag>)
    ensures
        diag_views(final(diags)@) == diag_views(old(diags)@) + specs_attrs_diags(path@, v@),
    decreases h_specs(v@), 1nat, 0nat,
{
    let mut i: usize = 0;
    assert(v@.take(0) =~= Seq::<TypeSpec>::empty());
    proof {
        lemma_cat_empty(diag_views(diags@));
    }
    while i < v.len()
        invariant
            i <= v@.len(),
            diag_views(diags@) == diag_views(old(diags)@) + specs_attrs_diags(
                path@,
                v@.take(i as int),
            ),
        decreases v@.len() - i,
    {
        let e = empty();
        let sv = view_spec(&v[i], &e);
        let mut p = path.clone();
        p.append(".any_of[");
        push_decimal(&mut p, i as u64);
        p.append("]");
        proof {
            lemma_h_specs_elem(v@, i as int);
            lemma_h_spec_pos(v@[i as int]);
        }
        check_type_attrs(&p, &sv, diags);
        proof {
            let pre = v@.take(i + 1);
            assert(pre.drop_last() =~= v@.take(i as int));
            assert(pre.last() == v@[i as int]);
        }
        i = i + 1;
    }
    assert(v@.take(v@.len() as int) =~= v@);
}

fn has_name_before(fs: &Vec<Field>, i: usize, name: &str) -> (r: bool)
    requires
        i <= fs@.len(),
    ensures
        r == names_field(fs@.take(i as int), name@),
{
    let mut j: usize = 0;
    while j < i
        invariant
            i <= fs@.len(),
            j <= i,
            forall|k: int| 0 <= k < j ==> fs@[k].name@ != name@,
        decreases i - j,
    {
        if crate::strs::string_eq(fs[j].name.as_str(), name) {
            assert(fs@.take(i as int)[j as int].name@ == name@);
            return true;
        }
        j = j + 1;
    }
    proof {
        assert forall|k: int| 0 <= k < i implies fs@.take(i as int)[k].name@ != name@ by {
            assert(fs@.take(i as int)[k] == fs@[k]);
        }
    }
    false
}

fn check_default(fpath: &String, f: &Field, diags: &mut Vec<Diag>)
    ensures
        diag_views(final(diags)@) == diag_views(old(diags)@) + default_diags(fpath@, *f),
    decreases h_field(*f), 0nat, 2nat,
{
    proof {
        lemma_cat_empty(diag_views(old(diags)@));
    }
    let d = match &f.default {
        Some(d) => d,
        None => {
            return;
        },
    };
    let broken = match f.ty {
        TypeName::Array | TypeName::Dict => f.items.is_none(),
        TypeName::Enum => f.values.len() == 0,
        TypeName::Union => f.any_of.len() == 0,
        _ => false,
    };
    if broken {
        return;
    }
    let ghost entries = seq![(f.name, *d)];
    proof {
        assert(entries[0].0@ == f.name@);
        assert(crate::model::find_key_from(entries, f.name@, 0) == 0);
        assert(obj_get(entries, f.name@) == Some(*d));
    }
    let mut sub: Vec<Diag> = Vec::new();
    let root = String::from_str("$");
    match d {
        Json::Null => {
            if f.required {
                let p = key_child(&root, f.name.as_str());
                let mut m = String::from_str("missing required field '");
                m.append(f.name.as_str());
                m.append("'");
                push_diag(&mut sub, Diag::new("required", p, m));
            }
        },
        _ => {
            let fv = view_field(f);
            let p = key_child(&root, f.name.as_str());
            proof {
                lemma_h_field(*f);
            }
            validate_value(&fv, d, &p, &mut sub);
        },
    }
    proof {
        reveal_strlit("$");
        assert(diag_views(Seq::<Diag>::empty()) =~= Seq::<DiagView>::empty());
        assert(Seq::<DiagView>::empty() + field_diags(*f, entries, "$"@) =~= field_diags(
            *f,
            entries,
            "$"@,
        ));
        assert(Seq::<DiagView>::empty() + Seq::<DiagView>::empty() =~= Seq::<DiagView>::empty());
    }
    let ghost src = diag_views(sub@);
    let ghost d0 = diag_views(diags@);
    let mut k: usize = 0;
    while k < sub.len()
        invariant
            k <= sub@.len(),
            src == diag_views(sub@),
            src == field_diags(*f, entries, "$"@),
            diag_views(diags@) == d0 + src.take(k as int).map_values(
                |x: DiagView|
                    dv(
                        "invalid_default"@,
                        fpath@ + ".default"@,
                        "default does not match the type of field '"@ + f.name@ + "': "@
                            + x.message,
                    ),
            ),
        decreases sub@.len() - k,
    {
        let p = key_child(fpath, "default");
        let mut m = String::from_str("default does not match the type of field '");
        m.append(f.name.as_str());
        m.append("': ");
        m.append(sub[k].message.as_str());
        let ghost before = diag_views(diags@);
        push_diag(diags, Diag::new("invalid_default", p, m));
        proof {
            reveal_strlit(".");
            reveal_strlit("default");
            reveal_strlit(".default");
            assert(key_path(fpath@, "default"@) =~= fpath@ + ".default"@);
            assert(src[k as int] == sub@[k as int]@);
            let f2 = |x: DiagView|
                dv(
                    "invalid_default"@,
                    fpath@ + ".default"@,
                    "default does not match the type of field '"@ + f.name@ + "': "@ + x.message,
                );
            assert(src.take(k + 1).map_values(f2) =~= src.take(k as int).map_values(f2).push(
                f2(src[k as int]),
            ));
        }
        k = k + 1;
    }
    assert(src.take(src.len() as int) =~= src);
}

fn check_fields(path: &String, fs: &Vec<Field>, diags: &mut Vec<Diag>)
    ensures
        diag_views(final(diags)@) == diag_views(old(diags)@) + fields_check(path@, fs@),
    decreases h_fields(fs@), 1nat, 0nat,
{
    let mut i: usize = 0;
    assert(fs@.take(0) =~= Seq::<Field>::empty());
    proof {
        lemma_cat_empty(diag_views(diags@));
    }
    while i < fs.len()
        invariant
            i <= fs@.len(),
            diag_views(diags@) == diag_views(old(diags)@) + fields_check(
                path@,
                fs@.take(i as int),
            ),
        decreases fs@.len() - i,
    {
        let f = &fs[i];
        let ghost before = diag_views(diags@);
        let mut fpath = path.clone();
        fpath.append(".fields[");
        push_decimal(&mut fpath, i as u64);
        fpath.append("]");
        proof {
            lemma_h_fields_elem(fs@, i as int);
            lemma_h_field(*f);
            lemma_cat_empty(before);
        }
        if has_name_before(fs, i, f.name.as_str()) {
            let mut m = String::from_str("duplicate field name '");
            m.append(f.name.as_str());
            m.append("'");
            push_diag(diags, Diag::new("duplicate_field", key_child(&fpath, "name"), m));
        }
        let fv = view_field(f);
        check_type_attrs(&fpath, &fv, diags);
        check_default(&fpath, f, diags);
        proof {
            reveal_strlit(".");
            reveal_strlit("name");
            reveal_strlit(".name");
            assert(key_path(fpath@, "name"@) =~= fpath@ + ".name"@);
            let pre = fs@.take(i + 1);
            assert(pre.drop_last() =~= fs@.take(i as int));
            assert(pre.last() == fs@[i as int]);
            assert(diag_views(diags@) =~= before + one_field_check(
                path@,
                i as nat,
                *f,
                fs@.take(i as int),
            ));
        }
        i = i + 1;
    }
    assert(fs@.take(fs@.len() as int) =~= fs@);
}

fn check_slot(path: &String, slot: &Option<Slot>, diags: &mut Vec<Diag>)
    ensures
        diag_views(final(diags)@) == diag_views(old(diags)@) + opt_slot_check(path@, *slot),
{
    proof {
        lemma_cat_empty(diag_views(old(diags)@));
    }
    match slot {
        Some(s) => {
            if s.typing == crate::model::Typing::Any || s.kind == crate::model::SlotKind::Opaque {
                return;
            }
            check_fields(path, &s.fields, diags);
        },
        None => {},
    }
}

/// Detect contradictions in the schema itself, with positions. Empty for a correct schema.
pub fn validate_schema(c: &Contract) -> (r: Vec<Diag>)
    ensures
        diag_views(r@) == schema_diags(*c),
{
    let mut diags: Vec<Diag> = Vec::new();
    let mut i: usize = 0;
    assert(c.connections@.take(0) =~= Seq::<(String, Connection)>::empty());
    assert(diag_views(diags@) =~= Seq::<DiagView>::empty());
    while i < c.connections.len()
        invariant
            i <= c.connections@.len(),
            diag_views(diags@) == conns_diags(*c, c.connections@.take(i as int)),
        decreases c.connections@.len() - i,
    {
        let id = c.connections[i].0.as_str();
        let conn = &c.connections[i].1;
        let ghost before = diag_views(diags@);
        check_topology(c, id, conn, &mut diags);
        check_reserved_key(id, conn, &mut diags);
        check_slots_for_pattern(id, conn, &mut diags);
        let p1 = cat3s("connections.", id, ".payload");
        check_slot(&p1, &conn.payload, &mut diags);
        let p2 = cat3s("connections.", id, ".request");
        check_slot(&p2, &conn.request, &mut diags);
        let p3 = cat3s("connections.", id, ".response");
        check_slot(&p3, &conn.response, &mut diags);
        proof {
            let pre = c.connections@.take(i + 1);
            assert(pre.drop_last() =~= c.connections@.take(i as int));
            assert(pre.last() == c.connections@[i as int]);
            assert(diag_views(diags@) =~= before + connection_diags(*c, id@, *conn));
        }
        i = i + 1;
    }
    assert(c.connections@.take(c.connections@.len() as int) =~= c.connections@);
    diags
}

} // verus!

verus! {

use crate::diag::lemma_in_cat;

/// The unknown-sender diagnostic of connection `id`.
pub open spec fn unknown_sender_diag(id: Seq<char>, from: Seq<char>) -> DiagView {
    dv("unknown_node"@, "connections."@ + id + ".from"@, "undefined node '"@ + from + "' referenced in from"@)
}

proof fn lemma_conns_hold(c: Contract, conns: Seq<(String, Connection)>, k: int, d: DiagView)
    requires
        0 <= k < conns.len(),
        connection_diags(c, conns[k].0@, conns[k].1).contains(d),
    ensures
        conns_diags(c, conns).contains(d),
    decreases conns.len(),
{
    if k < conns.len() - 1 {
        lemma_conns_hold(c, conns.drop_last(), k, d);
        lemma_in_cat(conns_diags(c, conns.drop_last()), connection_diags(c, conns.last().0@, conns.last().1), d);
    } else {
        lemma_in_cat(conns_diags(c, conns.drop_last()), connection_diags(c, conns.last().0@, conns.last().1), d);
    }
}

/// Every connection whose sender is none of the contract's nodes is reported: the contract's
/// validation holds an `unknown_node` diagnostic at that connection's `from`.
pub proof fn undeclared_sender_is_reported(c: Contract, k: int)
    requires
        0 <= k < c.connections@.len(),
        forall|j: int| 0 <= j < c.nodes@.len() ==> #[trigger] c.nodes@[j].0@ != c.connections@[k].1.from@,
    ensures
        schema_diags(c).contains(unknown_sender_diag(c.connections@[k].0@, c.connections@[k].1.from@)),
{
    let id = c.connections@[k].0@;
    let conn = c.connections@[k].1;
    let d = unknown_sender_diag(id, conn.from@);
    crate::model::lemma_find_key(c.nodes@, conn.from@);
    assert(!has_key(c.nodes@, conn.from@));
    let top = topology_diags(c, id, conn);
    assert(top[0] == d);
    assert(top.contains(d));
    let rest1 = reserved_key_diags(id, conn);
    lemma_in_cat(top, rest1, d);
    let a2 = top + rest1;
    lemma_in_cat(a2, slot_pattern_diags(id, conn), d);
    let a3 = a2 + slot_pattern_diags(id, conn);
    lemma_in_cat(a3, opt_slot_check(conn_path(id) + ".payload"@, conn.payload), d);
    let a4 = a3 + opt_slot_check(conn_path(id) + ".payload"@, conn.payload);
    lemma_in_cat(a4, opt_slot_check(conn_path(id) + ".request"@, conn.request), d);
    let a5 = a4 + opt_slot_check(conn_path(id) + ".request"@, conn.request);
    lemma_in_cat(a5, opt_slot_check(conn_path(id) + ".response"@, conn.response), d);
    assert(connection_diags(c, id, conn) == a5 + opt_slot_check(conn_path(id) + ".response"@, conn.response));
    lemma_conns_hold(c, c.connections@, k, d);
}

/// The unknown-receiver diagnostic of receiver `i` of connection `id`.
pub open spec fn unknown_receiver_diag(id: Seq<char>, i: int, to: Seq<char>) -> DiagView {
    dv("unknown_node"@, "connections."@ + id + ".to["@ + decimal(i as nat) + "]"@, "undefined node '"@ + to + "' referenced in to"@)
}

proof fn lemma_to_holds(c: Contract, id: Seq<char>, from: Seq<char>, to: Seq<String>, i: int)
    requires
        0 <= i < to.len(),
        to[i]@ != from,
        forall|j: int| 0 <= j < c.nodes@.len() ==> #[trigger] c.nodes@[j].0@ != to[i]@,
    ensures
        to_diags(c, id, from, to).contains(unknown_receiver_diag(id, i, to[i]@)),
    decreases to.len(),
{
    let d = unknown_receiver_diag(id, i, to[i]@);
    let n = to.len() - 1;
    let t = to.last()@;
    let p = conn_path(id) + ".to["@ + decimal(n as nat) + "]"@;
    let tail = if t == from {
        seq![dv("self_loop"@, p, "from and to are the same node '"@ + t + "' (self loop)"@)]
    } else if !has_key(c.nodes@, t) {
        seq![dv("unknown_node"@, p, "undefined node '"@ + t + "' referenced in to"@)]
    } else {
        Seq::<DiagView>::empty()
    };
    if i < n {
        lemma_to_holds(c, id, from, to.drop_last(), i);
        assert(to.drop_last()[i] == to[i]);
    } else {
        crate::model::lemma_find_key(c.nodes@, t);
        reveal_strlit("connections.");
        assert(p =~= "connections."@ + id + ".to["@ + decimal(i as nat) + "]"@);
        assert(tail[0] == d);
        assert(tail.contains(d));
    }
    lemma_in_cat(to_diags(c, id, from, to.drop_last()), tail, d);
}

/// Every receiver of a connection that is none of the contract's nodes (and not its sender)
/// is reported: the contract's validation holds an `unknown_node` diagnostic at that `to` entry.
pub proof fn undeclared_receiver_is_reported(c: Contract, k: int, i: int)
    requires
        0 <= k < c.connections@.len(),
        0 <= i < c.connections@[k].1.to@.len(),
        c.connections@[k].1.to@[i]@ != c.connections@[k].1.from@,
        forall|j: int| 0 <= j < c.nodes@.len() ==> #[trigger] c.nodes@[j].0@ != c.connections@[k].1.to@[i]@,
    ensures
        schema_diags(c).contains(unknown_receiver_diag(c.connections@[k].0@, i, c.connections@[k].1.to@[i]@)),
{
    let id = c.connections@[k].0@;
    let conn = c.connections@[k].1;
    let d = unknown_receiver_diag(id, i, conn.to@[i]@);
    lemma_to_holds(c, id, conn.from@, conn.to@, i);
    let sender_known = has_key(c.nodes@, conn.from@);
    let from_d = if !sender_known {
        seq![unknown_sender_diag(id, conn.from@)]
    } else {
        Seq::<DiagView>::empty()
    };
    lemma_in_cat(from_d, to_diags(c, id, conn.from@, conn.to@), d);
    reveal_strlit("connections.");
    reveal_strlit(".from");
    assert(conn_path(id) + ".from"@ =~= "connections."@ + id + ".from"@);
    assert(topology_diags(c, id, conn) == from_d + to_diags(c, id, conn.from@, conn.to@));
    let top = topology_diags(c, id, conn);
    let rest1 = reserved_key_diags(id, conn);
    lemma_in_cat(top, rest1, d);
    let a2 = top + rest1;
    lemma_in_cat(a2, slot_pattern_diags(id, conn), d);
    let a3 = a2 + slot_pattern_diags(id, conn);
    lemma_in_cat(a3, opt_slot_check(conn_path(id) + ".payload"@, conn.payload), d);
    let a4 = a3 + opt_slot_check(conn_path(id) + ".payload"@, conn.payload);
    lemma_in_cat(a4, opt_slot_check(conn_path(id) + ".request"@, conn.request), d);
    let a5 = a4 + opt_slot_check(conn_path(id) + ".request"@, conn.request);
    lemma_in_cat(a5, opt_slot_check(conn_path(id) + ".response"@, conn.response), d);
    assert(connection_diags(c, id, conn) == a5 + opt_slot_check(conn_path(id) + ".response"@, conn.response));
    lemma_conns_hold(c, c.connections@, k, d);
}

} // verus!
