//! Compatibility classification of contract changes: each structural difference between an
//! old and a new contract is additive, a promotion, or breaking; and the delivery-time
//! handshake, which passes only purely additive differences.
use vstd::prelude::*;

use crate::diag::{dv, diag_views, Diag, DiagView};
use crate::model::{
    eq, fields_nan_free, float_eq, float_lt, find_key, has_key, lemma_fields_nan_free_elem, lemma_find_key,
    lemma_spec_eq_refl, lookup, lt, opt_spec_eq, opt_spec_equal,
    opt_str_eq, opt_str_equal, seq_has, any_equals, spec_eq, strs_eq, strs_equal, Connection,
    Contract, DescriptorConnection, Field, Float, Slot, TypeName, TypeSpec,
};
use crate::payload::{
    h_field, h_fields, lemma_h_field, lemma_h_fields_elem, push_diag,
};
use crate::schema_check::type_debug_name;
use crate::ir::{connection_hash, fingerprint};
use crate::strs::{cat, cat3, decimal, ins_all, insert_sorted, push_decimal, sorted_unique, string_eq, views};

verus! {

#[derive(Debug, Clone, Copy, PartialEq, Eq, Structural)]
pub enum ChangeKind {
    Additive,
    Promotion,
    Breaking,
}

/// One classified difference.
#[derive(Debug, PartialEq)]
pub struct Change {
    pub connection: String,
    pub path: String,
    pub kind: ChangeKind,
    pub detail: String,
}

pub struct ChangeView {
    pub connection: Seq<char>,
    pub path: Seq<char>,
    pub kind: ChangeKind,
    pub detail: Seq<char>,
}

impl View for Change {
    type V = ChangeView;

    open spec fn view(&self) -> ChangeView {
        ChangeView {
            connection: self.connection@,
            path: self.path@,
            kind: self.kind,
            detail: self.detail@,
        }
    }
}

pub open spec fn change_views(v: Seq<Change>) -> Seq<ChangeView> {
    v.map_values(|c: Change| c@)
}

pub open spec fn ch(id: Seq<char>, path: Seq<char>, kind: ChangeKind, detail: Seq<char>) -> Seq<
    ChangeView,
> {
    seq![ChangeView { connection: id, path, kind, detail }]
}

pub open spec fn fq(fname: Seq<char>) -> Seq<char> {
    "field '"@ + fname + "'"@
}

// ---------------------------------------------------------------- spec

/// Index of the first field named `name`, or -1.
pub open spec fn find_field_from(fs: Seq<Field>, name: Seq<char>, i: int) -> int
    decreases fs.len() - i,
{
    if i < 0 || i >= fs.len() {
        -1
    } else if fs[i].name@ == name {
        i
    } else {
        find_field_from(fs, name, i + 1)
    }
}

pub open spec fn find_field(fs: Seq<Field>, name: Seq<char>) -> int {
    find_field_from(fs, name, 0)
}

pub proof fn lemma_find_field(fs: Seq<Field>, name: Seq<char>, i: int)
    requires
        0 <= i,
    ensures
        find_field_from(fs, name, i) >= -1,
        find_field_from(fs, name, i) >= 0 ==> i <= find_field_from(fs, name, i) < fs.len()
            && fs[find_field_from(fs, name, i)].name@ == name,
        find_field_from(fs, name, i) == -1 ==> forall|j: int|
            i <= j < fs.len() ==> fs[j].name@ != name,
    decreases fs.len() - i,
{
    if i < fs.len() && fs[i].name@ != name {
        lemma_find_field(fs, name, i + 1);
    }
}

/// A float bound's change: dropping is a relaxation, introducing a tightening; a moved bound is
/// a relaxation when it widens the range (an upper bound rises, a lower bound falls).
pub open spec fn float_bound_changes(
    id: Seq<char>,
    path: Seq<char>,
    fname: Seq<char>,
    name: Seq<char>,
    o: Option<Float>,
    n: Option<Float>,
    upper: bool,
) -> Seq<ChangeView> {
    let p = path + "."@ + name;
    match (o, n) {
        (Some(a), Some(b)) => if float_eq(a.bits, b.bits) {
            seq![]
        } else if (if upper {
            float_lt(a.bits, b.bits)
        } else {
            float_lt(b.bits, a.bits)
        }) {
            ch(id, p, ChangeKind::Additive, fq(fname) + ": "@ + name + " relaxed "@ + a.text@ + "→"@ + b.text@)
        } else {
            ch(id, p, ChangeKind::Breaking, fq(fname) + ": "@ + name + " tightened "@ + a.text@ + "→"@ + b.text@)
        },
        (None, None) => seq![],
        (Some(_), None) => ch(
            id,
            p,
            ChangeKind::Additive,
            fq(fname) + ": "@ + name + " constraint dropped (relaxation)"@,
        ),
        (None, Some(_)) => ch(
            id,
            p,
            ChangeKind::Breaking,
            fq(fname) + ": "@ + name + " constraint introduced (tightening)"@,
        ),
    }
}

/// The same judgement for the string length bound (an upper bound). The bounds are compared,
/// and written, as the exact integers they are: above 2^53, where binary64 numbers are further
/// apart than 1, two different bounds still count as a change and print in full.
pub open spec fn len_bound_changes(
    id: Seq<char>,
    path: Seq<char>,
    fname: Seq<char>,
    o: Option<u64>,
    n: Option<u64>,
) -> Seq<ChangeView> {
    let p = path + ".max_len"@;
    match (o, n) {
        (Some(a), Some(b)) => if a == b {
            seq![]
        } else if a < b {
            ch(id, p, ChangeKind::Additive, fq(fname) + ": max_len relaxed "@ + decimal(a as nat) + "→"@ + decimal(b as nat))
        } else {
            ch(id, p, ChangeKind::Breaking, fq(fname) + ": max_len tightened "@ + decimal(a as nat) + "→"@ + decimal(b as nat))
        },
        (None, None) => seq![],
        (Some(_), None) => ch(
            id,
            p,
            ChangeKind::Additive,
            fq(fname) + ": max_len constraint dropped (relaxation)"@,
        ),
        (None, Some(_)) => ch(
            id,
            p,
            ChangeKind::Breaking,
            fq(fname) + ": max_len constraint introduced (tightening)"@,
        ),
    }
}

/// Enum values of `new` absent from `old` (additive), in order.
pub open spec fn values_added(id: Seq<char>, path: Seq<char>, fname: Seq<char>, old: Seq<String>, new: Seq<String>) -> Seq<ChangeView>
    decreases new.len(),
{
    if new.len() == 0 {
        seq![]
    } else {
        values_added(id, path, fname, old, new.drop_last()) + if seq_has(old, new.last()@) {
            seq![]
        } else {
            ch(id, path + ".values"@, ChangeKind::Additive, fq(fname) + ": enum value added '"@ + new.last()@ + "'"@)
        }
    }
}

/// Enum values of `old` absent from `new` (breaking), in order.
pub open spec fn values_removed(id: Seq<char>, path: Seq<char>, fname: Seq<char>, old: Seq<String>, new: Seq<String>) -> Seq<ChangeView>
    decreases old.len(),
{
    if old.len() == 0 {
        seq![]
    } else {
        values_removed(id, path, fname, old.drop_last(), new) + if seq_has(new, old.last()@) {
            seq![]
        } else {
            ch(id, path + ".values"@, ChangeKind::Breaking, fq(fname) + ": enum value removed '"@ + old.last()@ + "'"@)
        }
    }
}

pub open spec fn is_int_to_float_spec(o: TypeSpec, n: TypeSpec) -> bool {
    o == TypeSpec::Name(TypeName::Int) && n == TypeSpec::Name(TypeName::Float)
}

pub open spec fn items_changes(id: Seq<char>, path: Seq<char>, fname: Seq<char>, o: Option<TypeSpec>, n: Option<TypeSpec>) -> Seq<ChangeView> {
    match (o, n) {
        (Some(a), Some(b)) => if spec_eq(a, b) {
            seq![]
        } else {
            ch(
                id,
                path + ".items"@,
                if is_int_to_float_spec(a, b) {
                    ChangeKind::Promotion
                } else {
                    ChangeKind::Breaking
                },
                fq(fname) + ": element type changed"@,
            )
        },
        _ => seq![],
    }
}

pub open spec fn required_changes(id: Seq<char>, path: Seq<char>, fname: Seq<char>, o: bool, n: bool) -> Seq<ChangeView> {
    if !o && n {
        ch(id, path + ".required"@, ChangeKind::Breaking, fq(fname) + ": optional→required"@)
    } else if o && !n {
        ch(id, path + ".required"@, ChangeKind::Additive, fq(fname) + ": required→optional"@)
    } else {
        seq![]
    }
}

/// The classified differences between an old and a new version of one field.
pub open spec fn field_changes(id: Seq<char>, path: Seq<char>, old: Field, new: Field) -> Seq<ChangeView>
    decreases h_field(old), 0nat, 0nat,
{
    let fname = new.name@;
    if old.ty != new.ty {
        if old.ty == TypeName::Int && new.ty == TypeName::Float {
            ch(id, path + ".type"@, ChangeKind::Promotion, fq(fname) + " type promotion int→float (compatible)"@)
        } else {
            ch(
                id,
                path + ".type"@,
                ChangeKind::Breaking,
                fq(fname) + " type changed "@ + type_debug_name(old.ty) + "→"@ + type_debug_name(new.ty),
            )
        }
    } else {
        attr_changes(id, path, old, new) + if old.ty == TypeName::Group {
            proof {
                lemma_h_field(old);
            }
            fields_changes(id, path + ".fields"@, old.fields@, new.fields@)
        } else {
            seq![]
        }
    }
}

/// The attribute differences of a field whose type is unchanged: requiredness, enum values,
/// bounds and the element type.
pub open spec fn attr_changes(id: Seq<char>, path: Seq<char>, old: Field, new: Field) -> Seq<ChangeView> {
    let fname = new.name@;
    required_changes(id, path, fname, old.required, new.required)
        + values_added(id, path, fname, old.values@, new.values@)
        + values_removed(id, path, fname, old.values@, new.values@)
        + float_bound_changes(id, path, fname, "min"@, old.min, new.min, false)
        + float_bound_changes(id, path, fname, "max"@, old.max, new.max, true)
        + len_bound_changes(id, path, fname, old.max_len, new.max_len)
        + items_changes(id, path, fname, old.items, new.items)
}

/// Fields of `new` (the first `new.len()` of them): an added field is additive when optional
/// and breaking when required; a kept field (matched by name) is compared.
pub open spec fn added_changes(id: Seq<char>, base: Seq<char>, old: Seq<Field>, new: Seq<Field>) -> Seq<ChangeView>
    decreases h_fields(old), 1nat, new.len(),
{
    if new.len() == 0 {
        seq![]
    } else {
        let i = (new.len() - 1) as nat;
        added_changes(id, base, old, new.drop_last()) + new_field_changes(id, base, old, i, new.last())
    }
}

/// The changes of field `nf`, at index `i` of the new list.
pub open spec fn new_field_changes(id: Seq<char>, base: Seq<char>, old: Seq<Field>, i: nat, nf: Field) -> Seq<ChangeView>
    decreases h_fields(old), 0nat, 1nat,
{
    let path = base + "["@ + decimal(i) + "]"@;
    let j = find_field(old, nf.name@);
    if j < 0 {
        if nf.required {
            ch(id, path, ChangeKind::Breaking, "required field '"@ + nf.name@ + "' added (old senders cannot send it)"@)
        } else {
            ch(id, path, ChangeKind::Additive, "optional field '"@ + nf.name@ + "' added"@)
        }
    } else {
        proof {
            lemma_find_field(old, nf.name@, 0);
            lemma_h_fields_elem(old, j);
        }
        field_changes(id, path, old[j], nf)
    }
}

/// Fields of `old` (the first `old.len()` of them) that `new` no longer has: breaking.
pub open spec fn removed_changes(id: Seq<char>, base: Seq<char>, old: Seq<Field>, new: Seq<Field>) -> Seq<ChangeView>
    decreases old.len(),
{
    if old.len() == 0 {
        seq![]
    } else {
        let i = (old.len() - 1) as nat;
        let of = old.last();
        removed_changes(id, base, old.drop_last(), new) + if find_field(new, of.name@) >= 0 {
            seq![]
        } else {
            ch(
                id,
                base + "["@ + decimal(i) + "]"@,
                ChangeKind::Breaking,
                "field '"@ + of.name@ + "' removed (a receiver may require it; conservative call)"@,
            )
        }
    }
}

pub open spec fn fields_changes(id: Seq<char>, base: Seq<char>, old: Seq<Field>, new: Seq<Field>) -> Seq<ChangeView>
    decreases h_fields(old), 2nat, 0nat,
{
    added_changes(id, base, old, new) + removed_changes(id, base, old, new)
}

pub open spec fn slot_changes(id: Seq<char>, name: Seq<char>, o: Option<Slot>, n: Option<Slot>) -> Seq<ChangeView> {
    match (o, n) {
        (Some(a), Some(b)) => fields_changes(id, "connections."@ + id + "."@ + name + ".fields"@, a.fields@, b.fields@),
        _ => seq![],
    }
}

pub open spec fn when_ch(b: bool, c: Seq<ChangeView>) -> Seq<ChangeView> {
    if b {
        c
    } else {
        seq![]
    }
}

/// The classified differences of one connection: topology changes are breaking, then the
/// fields of each slot present on both sides are compared.
pub open spec fn connection_changes(id: Seq<char>, old: Connection, new: Connection) -> Seq<ChangeView> {
    topology_changes(id, old, new)
        + slot_changes(id, "payload"@, old.payload, new.payload)
        + slot_changes(id, "request"@, old.request, new.request)
        + slot_changes(id, "response"@, old.response, new.response)
}

/// Topology changes are breaking: pattern, from, to, key override, selector.
pub open spec fn topology_changes(id: Seq<char>, old: Connection, new: Connection) -> Seq<ChangeView> {
    let p = "connections."@ + id;
    when_ch(old.pattern != new.pattern, ch(id, p + ".pattern"@, ChangeKind::Breaking, "pattern changed (topology)"@))
        + when_ch(old.from@ != new.from@, ch(id, p + ".from"@, ChangeKind::Breaking, "from changed (topology)"@))
        + when_ch(!strs_eq(old.to@, new.to@), ch(id, p + ".to"@, ChangeKind::Breaking, "to changed (topology)"@))
        + when_ch(!opt_str_eq(old.key, new.key), ch(id, p + ".key"@, ChangeKind::Breaking, "keyexpr override changed (the delivery keyexpr changes)"@))
        + when_ch(!opt_str_eq(old.selector, new.selector), ch(id, p + ".selector"@, ChangeKind::Breaking, "selector changed (the query's request condition changes)"@))
}

/// Connections of `new` (the first `conns.len()`): a new one is additive, a kept one compared.
pub open spec fn new_conn_changes(old: Contract, conns: Seq<(String, Connection)>) -> Seq<ChangeView>
    decreases conns.len(),
{
    if conns.len() == 0 {
        seq![]
    } else {
        new_conn_changes(old, conns.drop_last()) + new_conn_piece(old, conns.last().0@, conns.last().1)
    }
}

/// The changes of connection `id` of the new contract.
pub open spec fn new_conn_piece(old: Contract, id: Seq<char>, conn: Connection) -> Seq<ChangeView> {
    let k = find_key(old.connections@, id);
    if k < 0 {
        ch(id, "connections."@ + id, ChangeKind::Additive, "new connection added"@)
    } else {
        connection_changes(id, old.connections@[k].1, conn)
    }
}

/// Connections of `old` (the first `conns.len()`) that `new` no longer has: breaking.
pub open spec fn removed_conn_changes(new: Contract, conns: Seq<(String, Connection)>) -> Seq<ChangeView>
    decreases conns.len(),
{
    if conns.len() == 0 {
        seq![]
    } else {
        let id = conns.last().0@;
        removed_conn_changes(new, conns.drop_last()) + if has_key(new.connections@, id) {
            seq![]
        } else {
            ch(id, "connections."@ + id, ChangeKind::Breaking, "connection removed"@)
        }
    }
}

/// All classified differences from `old` to `new`.
pub open spec fn contract_changes(old: Contract, new: Contract) -> Seq<ChangeView> {
    new_conn_changes(old, new.connections@) + removed_conn_changes(new, old.connections@)
}

pub open spec fn compatible(changes: Seq<ChangeView>) -> bool {
    forall|i: int| 0 <= i < changes.len() ==> changes[i].kind != ChangeKind::Breaking
}

// ---------------------------------------------------------------- exec

fn push_change(changes: &mut Vec<Change>, id: &str, path: String, kind: ChangeKind, detail: String)
    ensures
        change_views(final(changes)@) == change_views(old(changes)@) + ch(id@, path@, kind, detail@),
{
    let c = Change { connection: String::from_str(id), path, kind, detail };
    changes.push(c);
    assert(change_views(final(changes)@) =~= change_views(old(changes)@) + ch(id@, c@.path, kind, c@.detail));
}

proof fn lemma_cat_empty(a: Seq<ChangeView>)
    ensures
        a + Seq::<ChangeView>::empty() == a,
{
    assert(a + Seq::<ChangeView>::empty() =~= a);
}

fn fname_prefix(fname: &str) -> (r: String)
    ensures
        r@ == fq(fname@),
{
    cat3("field '", fname, "'")
}

fn diff_float_bound(
    id: &str,
    path: &String,
    fname: &str,
    name: &str,
    o: &Option<Float>,
    n: &Option<Float>,
    upper: bool,
    changes: &mut Vec<Change>,
)
    ensures
        change_views(final(changes)@) == change_views(old(changes)@) + float_bound_changes(id@, path@, fname@, name@, *o, *n, upper),
{
    proof {
        lemma_cat_empty(change_views(old(changes)@));
    }
    let mut p = path.clone();
    p.append(".");
    p.append(name);
    let mut d = fname_prefix(fname);
    d.append(": ");
    d.append(name);
    match (o, n) {
        (Some(a), Some(b)) => {
            if eq(a.bits, b.bits) {
                return;
            }
            let relaxed = if upper {
                lt(a.bits, b.bits)
            } else {
                lt(b.bits, a.bits)
            };
            if relaxed {
                d.append(" relaxed ");
            } else {
                d.append(" tightened ");
            }
            d.append(a.text.as_str());
            d.append("→");
            d.append(b.text.as_str());
            push_change(changes, id, p, if relaxed { ChangeKind::Additive } else { ChangeKind::Breaking }, d);
        },
        (None, None) => {},
        (Some(_), None) => {
            d.append(" constraint dropped (relaxation)");
            push_change(changes, id, p, ChangeKind::Additive, d);
        },
        (None, Some(_)) => {
            d.append(" constraint introduced (tightening)");
            push_change(changes, id, p, ChangeKind::Breaking, d);
        },
    }
    proof {
        reveal_strlit(".");
        reveal_strlit(": ");
    }
}

fn diff_len_bound(id: &str, path: &String, fname: &str, o: Option<u64>, n: Option<u64>, changes: &mut Vec<Change>)
    ensures
        change_views(final(changes)@) == change_views(old(changes)@) + len_bound_changes(id@, path@, fname@, o, n),
{
    proof {
        lemma_cat_empty(change_views(old(changes)@));
    }
    let mut p = path.clone();
    p.append(".max_len");
    let mut d = fname_prefix(fname);
    match (o, n) {
        (Some(a), Some(b)) => {
            if a == b {
                return;
            }
            if a < b {
                d.append(": max_len relaxed ");
            } else {
                d.append(": max_len tightened ");
            }
            push_decimal(&mut d, a);
            d.append("→");
            push_decimal(&mut d, b);
            push_change(changes, id, p, if a < b { ChangeKind::Additive } else { ChangeKind::Breaking }, d);
        },
        (None, None) => {},
        (Some(_), None) => {
            d.append(": max_len constraint dropped (relaxation)");
            push_change(changes, id, p, ChangeKind::Additive, d);
        },
        (None, Some(_)) => {
            d.append(": max_len constraint introduced (tightening)");
            push_change(changes, id, p, ChangeKind::Breaking, d);
        },
    }
}

fn diff_values(id: &str, path: &String, fname: &str, was: &Vec<String>, now: &Vec<String>, changes: &mut Vec<Change>)
    ensures
        change_views(final(changes)@) == change_views(old(changes)@)
            + values_added(id@, path@, fname@, was@, now@)
            + values_removed(id@, path@, fname@, was@, now@),
{
    let ghost c0 = change_views(old(changes)@);
    let mut i: usize = 0;
    assert(now@.take(0) =~= Seq::<String>::empty());
    proof { lemma_cat_empty(c0); }
    while i < now.len()
        invariant
            i <= now@.len(),
            change_views(changes@) == c0 + values_added(id@, path@, fname@, was@, now@.take(i as int)),
        decreases now@.len() - i,
    {
        let ghost before = change_views(changes@);
        proof { lemma_cat_empty(before); }
        if !any_equals(was, now[i].as_str()) {
            let mut p = path.clone();
            p.append(".values");
            let mut d = fname_prefix(fname);
            d.append(": enum value added '");
            d.append(now[i].as_str());
            d.append("'");
            push_change(changes, id, p, ChangeKind::Additive, d);
        }
        proof {
            let pre = now@.take(i + 1);
            assert(pre.drop_last() =~= now@.take(i as int));
            assert(pre.last() == now@[i as int]);
        }
        i = i + 1;
    }
    assert(now@.take(now@.len() as int) =~= now@);
    let ghost c1 = change_views(changes@);
    let mut j: usize = 0;
    assert(was@.take(0) =~= Seq::<String>::empty());
    proof { lemma_cat_empty(c1); }
    while j < was.len()
        invariant
            j <= was@.len(),
            change_views(changes@) == c1 + values_removed(id@, path@, fname@, was@.take(j as int), now@),
        decreases was@.len() - j,
    {
        let ghost before = change_views(changes@);
        proof { lemma_cat_empty(before); }
        if !any_equals(now, was[j].as_str()) {
            let mut p = path.clone();
            p.append(".values");
            let mut d = fname_prefix(fname);
            d.append(": enum value removed '");
            d.append(was[j].as_str());
            d.append("'");
            push_change(changes, id, p, ChangeKind::Breaking, d);
        }
        proof {
            let pre = was@.take(j + 1);
            assert(pre.drop_last() =~= was@.take(j as int));
            assert(pre.last() == was@[j as int]);
        }
        j = j + 1;
    }
    assert(was@.take(was@.len() as int) =~= was@);
}

fn type_debug(t: TypeName) -> (r: &'static str)
    ensures
        r@ == type_debug_name(t),
{
    match t {
        TypeName::Int => "Int",
        TypeName::Float => "Float",
        TypeName::Bool => "Bool",
        TypeName::String => "String",
        TypeName::Bytes => "Bytes",
        TypeName::Timestamp => "Timestamp",
        TypeName::Enum => "Enum",
        TypeName::Array => "Array",
        TypeName::Dict => "Map",
        TypeName::Group => "Group",
        TypeName::Union => "Union",
    }
}

fn is_int_to_float(o: &TypeSpec, n: &TypeSpec) -> (r: bool)
    ensures
        r == is_int_to_float_spec(*o, *n),
{
    match (o, n) {
        (TypeSpec::Name(TypeName::Int), TypeSpec::Name(TypeName::Float)) => true,
        _ => false,
    }
}

fn diff_attrs(id: &str, path: &String, was: &Field, now: &Field, changes: &mut Vec<Change>)
    ensures
        change_views(final(changes)@) == change_views(old(changes)@) + attr_changes(id@, path@, *was, *now),
{
    let ghost c0 = change_views(old(changes)@);
    let fname = now.name.as_str();
    proof { lemma_cat_empty(c0); }
    if !was.required && now.required {
        let mut p = path.clone();
        p.append(".required");
        let mut d = fname_prefix(fname);
        d.append(": optional→required");
        push_change(changes, id, p, ChangeKind::Breaking, d);
    } else if was.required && !now.required {
        let mut p = path.clone();
        p.append(".required");
        let mut d = fname_prefix(fname);
        d.append(": required→optional");
        push_change(changes, id, p, ChangeKind::Additive, d);
    }
    let ghost a1 = required_changes(id@, path@, fname@, was.required, now.required);
    assert(change_views(changes@) == c0 + a1);
    diff_values(id, path, fname, &was.values, &now.values, changes);
    let ghost a2 = values_added(id@, path@, fname@, was.values@, now.values@)
        + values_removed(id@, path@, fname@, was.values@, now.values@);
    assert(change_views(changes@) =~= c0 + (a1 + a2));
    diff_float_bound(id, path, fname, "min", &was.min, &now.min, false, changes);
    let ghost a3 = float_bound_changes(id@, path@, fname@, "min"@, was.min, now.min, false);
    assert(change_views(changes@) =~= c0 + (a1 + a2 + a3));
    diff_float_bound(id, path, fname, "max", &was.max, &now.max, true, changes);
    let ghost a4 = float_bound_changes(id@, path@, fname@, "max"@, was.max, now.max, true);
    assert(change_views(changes@) =~= c0 + (a1 + a2 + a3 + a4));
    diff_len_bound(id, path, fname, was.max_len, now.max_len, changes);
    let ghost a5 = len_bound_changes(id@, path@, fname@, was.max_len, now.max_len);
    assert(change_views(changes@) =~= c0 + (a1 + a2 + a3 + a4 + a5));
    let ghost c5 = change_views(changes@);
    proof { lemma_cat_empty(c5); }
    match (&was.items, &now.items) {
        (Some(o), Some(n)) => {
            if !crate::model::spec_equal(o, n) {
                let kind = if is_int_to_float(o, n) {
                    ChangeKind::Promotion
                } else {
                    ChangeKind::Breaking
                };
                let mut p = path.clone();
                p.append(".items");
                let mut d = fname_prefix(fname);
                d.append(": element type changed");
                push_change(changes, id, p, kind, d);
            }
        },
        _ => {},
    }
    let ghost a6 = items_changes(id@, path@, fname@, was.items, now.items);
    assert(change_views(changes@) == c5 + a6);
    assert(change_views(changes@) =~= c0 + (a1 + a2 + a3 + a4 + a5 + a6));
    assert(attr_changes(id@, path@, *was, *now) =~= a1 + a2 + a3 + a4 + a5 + a6);
}

#[verifier::spinoff_prover]
fn diff_field(id: &str, path: &String, was: &Field, now: &Field, changes: &mut Vec<Change>)
    ensures
        change_views(final(changes)@) == change_views(old(changes)@) + field_changes(id@, path@, *was, *now),
    decreases h_field(*was), 0nat, 0nat,
{
    let ghost c0 = change_views(old(changes)@);
    let fname = now.name.as_str();
    if was.ty != now.ty {
        let mut p = path.clone();
        p.append(".type");
        let mut d = fname_prefix(fname);
        if was.ty == TypeName::Int && now.ty == TypeName::Float {
            d.append(" type promotion int→float (compatible)");
            push_change(changes, id, p, ChangeKind::Promotion, d);
        } else {
            d.append(" type changed ");
            d.append(type_debug(was.ty));
            d.append("→");
            d.append(type_debug(now.ty));
            push_change(changes, id, p, ChangeKind::Breaking, d);
        }
        return;
    }
    diff_attrs(id, path, was, now, changes);
    let ghost c1 = change_views(changes@);
    proof { lemma_cat_empty(c1); }
    if was.ty == TypeName::Group {
        let mut base = path.clone();
        base.append(".fields");
        proof {
            lemma_h_field(*was);
        }
        diff_fields(id, &base, &was.fields, &now.fields, changes);
    }
    assert(change_views(changes@) =~= c0 + field_changes(id@, path@, *was, *now));
}

fn find_field_exec(fs: &Vec<Field>, name: &str) -> (r: Option<usize>)
    ensures
        match r {
            Some(j) => find_field(fs@, name@) == j as int && j < fs@.len(),
            None => find_field(fs@, name@) == -1,
        },
{
    proof {
        lemma_find_field(fs@, name@, 0);
    }
    let mut j: usize = 0;
    while j < fs.len()
        invariant
            j <= fs@.len(),
            find_field(fs@, name@) == find_field_from(fs@, name@, j as int),
        decreases fs@.len() - j,
    {
        if string_eq(fs[j].name.as_str(), name) {
            return Some(j);
        }
        j = j + 1;
    }
    None
}

fn index_path(base: &String, i: usize) -> (r: String)
    ensures
        r@ == base@ + "["@ + decimal(i as nat) + "]"@,
{
    let mut p = base.clone();
    p.append("[");
    push_decimal(&mut p, i as u64);
    p.append("]");
    p
}

fn diff_fields(id: &str, base: &String, was: &Vec<Field>, now: &Vec<Field>, changes: &mut Vec<Change>)
    ensures
        change_views(final(changes)@) == change_views(old(changes)@) + fields_changes(id@, base@, was@, now@),
    decreases h_fields(was@), 2nat, 0nat,
{
    let ghost c0 = change_views(old(changes)@);
    let mut i: usize = 0;
    assert(now@.take(0) =~= Seq::<Field>::empty());
    proof { lemma_cat_empty(c0); }
    while i < now.len()
        invariant
            i <= now@.len(),
            change_views(changes@) == c0 + added_changes(id@, base@, was@, now@.take(i as int)),
        decreases now@.len() - i,
    {
        let nf = &now[i];
        let path = index_path(base, i);
        let ghost before = change_views(changes@);
        let ghost piece = new_field_changes(id@, base@, was@, i as nat, *nf);
        proof { lemma_cat_empty(before); }
        match find_field_exec(was, nf.name.as_str()) {
            None => {
                if nf.required {
                    let mut d = String::from_str("required field '");
                    d.append(nf.name.as_str());
                    d.append("' added (old senders cannot send it)");
                    push_change(changes, id, path, ChangeKind::Breaking, d);
                } else {
                    let mut d = String::from_str("optional field '");
                    d.append(nf.name.as_str());
                    d.append("' added");
                    push_change(changes, id, path, ChangeKind::Additive, d);
                }
            },
            Some(j) => {
                proof {
                    lemma_h_fields_elem(was@, j as int);
                }
                diff_field(id, &path, &was[j], nf, changes);
            },
        }
        proof {
            let pre = now@.take(i + 1);
            assert(pre.drop_last() =~= now@.take(i as int));
            assert(pre.last() == now@[i as int]);
            assert(change_views(changes@) == before + piece);
            assert(added_changes(id@, base@, was@, pre) == added_changes(id@, base@, was@, now@.take(i as int)) + piece);
            assert(change_views(changes@) =~= c0 + added_changes(id@, base@, was@, pre));
        }
        i = i + 1;
    }
    assert(now@.take(now@.len() as int) =~= now@);
    let ghost c1 = change_views(changes@);
    let mut k: usize = 0;
    assert(was@.take(0) =~= Seq::<Field>::empty());
    proof { lemma_cat_empty(c1); }
    while k < was.len()
        invariant
            k <= was@.len(),
            change_views(changes@) == c1 + removed_changes(id@, base@, was@.take(k as int), now@),
        decreases was@.len() - k,
    {
        let ghost before = change_views(changes@);
        proof { lemma_cat_empty(before); }
        if find_field_exec(now, was[k].name.as_str()).is_none() {
            let mut d = String::from_str("field '");
            d.append(was[k].name.as_str());
            d.append("' removed (a receiver may require it; conservative call)");
            push_change(changes, id, index_path(base, k), ChangeKind::Breaking, d);
        }
        proof {
            let pre = was@.take(k + 1);
            assert(pre.drop_last() =~= was@.take(k as int));
            assert(pre.last() == was@[k as int]);
        }
        k = k + 1;
    }
    assert(was@.take(was@.len() as int) =~= was@);
    assert(change_views(changes@) =~= c0 + fields_changes(id@, base@, was@, now@));
}

fn diff_slot(id: &str, name: &str, o: &Option<Slot>, n: &Option<Slot>, changes: &mut Vec<Change>)
    ensures
        change_views(final(changes)@) == change_views(old(changes)@) + slot_changes(id@, name@, *o, *n),
{
    proof { lemma_cat_empty(change_views(old(changes)@)); }
    match (o, n) {
        (Some(a), Some(b)) => {
            let mut base = String::from_str("connections.");
            base.append(id);
            base.append(".");
            base.append(name);
            base.append(".fields");
            diff_fields(id, &base, &a.fields, &b.fields, changes);
        },
        _ => {},
    }
}

fn conn_field_path(id: &str, suffix: &str) -> (r: String)
    ensures
        r@ == "connections."@ + id@ + suffix@,
{
    cat3("connections.", id, suffix)
}

fn diff_topology(id: &str, was: &Connection, now: &Connection, changes: &mut Vec<Change>)
    ensures
        change_views(final(changes)@) == change_views(old(changes)@) + topology_changes(id@, *was, *now),
{
    let ghost c0 = change_views(old(changes)@);
    proof { lemma_cat_empty(c0); }
    if was.pattern != now.pattern {
        push_change(changes, id, conn_field_path(id, ".pattern"), ChangeKind::Breaking, String::from_str("pattern changed (topology)"));
    }
    let ghost c1 = change_views(changes@);
    proof { lemma_cat_empty(c1); }
    if !string_eq(was.from.as_str(), now.from.as_str()) {
        push_change(changes, id, conn_field_path(id, ".from"), ChangeKind::Breaking, String::from_str("from changed (topology)"));
    }
    let ghost c2 = change_views(changes@);
    proof { lemma_cat_empty(c2); }
    if !strs_equal(&was.to, &now.to) {
        push_change(changes, id, conn_field_path(id, ".to"), ChangeKind::Breaking, String::from_str("to changed (topology)"));
    }
    let ghost c3 = change_views(changes@);
    proof { lemma_cat_empty(c3); }
    if !opt_str_equal(&was.key, &now.key) {
        push_change(changes, id, conn_field_path(id, ".key"), ChangeKind::Breaking, String::from_str("keyexpr override changed (the delivery keyexpr changes)"));
    }
    let ghost c4 = change_views(changes@);
    proof { lemma_cat_empty(c4); }
    if !opt_str_equal(&was.selector, &now.selector) {
        push_change(changes, id, conn_field_path(id, ".selector"), ChangeKind::Breaking, String::from_str("selector changed (the query's request condition changes)"));
    }
    assert(change_views(changes@) =~= c0 + topology_changes(id@, *was, *now));
}

fn classify_connection(id: &str, was: &Connection, now: &Connection, changes: &mut Vec<Change>)
    ensures
        change_views(final(changes)@) == change_views(old(changes)@) + connection_changes(id@, *was, *now),
{
    let ghost c0 = change_views(old(changes)@);
    diff_topology(id, was, now, changes);
    diff_slot(id, "payload", &was.payload, &now.payload, changes);
    diff_slot(id, "request", &was.request, &now.request, changes);
    diff_slot(id, "response", &was.response, &now.response, changes);
    assert(change_views(changes@) =~= c0 + connection_changes(id@, *was, *now));
}

/// Automatically classifies the old→new contract diff into additive / promotion / breaking.
pub fn classify(was: &Contract, now: &Contract) -> (r: Vec<Change>)
    ensures
        change_views(r@) == contract_changes(*was, *now),
{
    let mut changes: Vec<Change> = Vec::new();
    let mut i: usize = 0;
    assert(now.connections@.take(0) =~= Seq::<(String, Connection)>::empty());
    assert(change_views(changes@) =~= Seq::<ChangeView>::empty());
    while i < now.connections.len()
        invariant
            i <= now.connections@.len(),
            change_views(changes@) == new_conn_changes(*was, now.connections@.take(i as int)),
        decreases now.connections@.len() - i,
    {
        let id = now.connections[i].0.as_str();
        let ghost before = change_views(changes@);
        let ghost piece = new_conn_piece(*was, id@, now.connections@[i as int].1);
        match lookup(&was.connections, id) {
            None => {
                push_change(&mut changes, id, conn_field_path(id, ""), ChangeKind::Additive, String::from_str("new connection added"));
                proof {
                    reveal_strlit("");
                    assert(conn_field_path_spec(id@) == "connections."@ + id@);
                }
            },
            Some(k) => {
                classify_connection(id, &was.connections[k].1, &now.connections[i].1, &mut changes);
            },
        }
        proof {
            let pre = now.connections@.take(i + 1);
            assert(pre.drop_last() =~= now.connections@.take(i as int));
            assert(pre.last() == now.connections@[i as int]);
            assert(change_views(changes@) == before + piece);
            assert(change_views(changes@) =~= new_conn_changes(*was, pre));
        }
        i = i + 1;
    }
    assert(now.connections@.take(now.connections@.len() as int) =~= now.connections@);
    let ghost c1 = change_views(changes@);
    let mut j: usize = 0;
    assert(was.connections@.take(0) =~= Seq::<(String, Connection)>::empty());
    proof { lemma_cat_empty(c1); }
    while j < was.connections.len()
        invariant
            j <= was.connections@.len(),
            change_views(changes@) == c1 + removed_conn_changes(*now, was.connections@.take(j as int)),
        decreases was.connections@.len() - j,
    {
        let id = was.connections[j].0.as_str();
        let ghost before = change_views(changes@);
        proof { lemma_cat_empty(before); }
        if lookup(&now.connections, id).is_none() {
            push_change(&mut changes, id, conn_field_path(id, ""), ChangeKind::Breaking, String::from_str("connection removed"));
            proof {
                reveal_strlit("");
                assert(conn_field_path_spec(id@) == "connections."@ + id@);
            }
        }
        proof {
            let pre = was.connections@.take(j + 1);
            assert(pre.drop_last() =~= was.connections@.take(j as int));
            assert(pre.last() == was.connections@[j as int]);
        }
        j = j + 1;
    }
    assert(was.connections@.take(was.connections@.len() as int) =~= was.connections@);
    changes
}

pub open spec fn conn_field_path_spec(id: Seq<char>) -> Seq<char> {
    "connections."@ + id + ""@
}

/// A descriptor connection read as a contract connection: its resolved key becomes the key
/// override (two resolved keys that differ mean the destination differs).
pub open spec fn as_connection(c: DescriptorConnection) -> Connection {
    Connection {
        pattern: c.pattern,
        from: c.from,
        to: c.to,
        key: Some(c.key),
        selector: c.selector,
        reliability: c.reliability,
        congestion: c.congestion,
        priority: c.priority,
        express: c.express,
        encoding: c.encoding,
        validate: c.validate,
        payload: c.payload,
        request: c.request,
        response: c.response,
    }
}

/// Structural classification of two descriptor connections, read as contract connections.
pub fn classify_desc_pair(id: &str, was: &DescriptorConnection, now: &DescriptorConnection) -> (r: Vec<Change>)
    ensures
        change_views(r@) == connection_changes(id@, as_connection(*was), as_connection(*now)),
{
    let mut changes: Vec<Change> = Vec::new();
    let ghost c0 = change_views(changes@);
    assert(c0 =~= Seq::<ChangeView>::empty());
    proof { lemma_cat_empty(c0); }
    if was.pattern != now.pattern {
        push_change(&mut changes, id, conn_field_path(id, ".pattern"), ChangeKind::Breaking, String::from_str("pattern changed (topology)"));
    }
    let ghost c1 = change_views(changes@);
    proof { lemma_cat_empty(c1); }
    if !string_eq(was.from.as_str(), now.from.as_str()) {
        push_change(&mut changes, id, conn_field_path(id, ".from"), ChangeKind::Breaking, String::from_str("from changed (topology)"));
    }
    let ghost c2 = change_views(changes@);
    proof { lemma_cat_empty(c2); }
    if !strs_equal(&was.to, &now.to) {
        push_change(&mut changes, id, conn_field_path(id, ".to"), ChangeKind::Breaking, String::from_str("to changed (topology)"));
    }
    let ghost c3 = change_views(changes@);
    proof { lemma_cat_empty(c3); }
    if !string_eq(was.key.as_str(), now.key.as_str()) {
        push_change(&mut changes, id, conn_field_path(id, ".key"), ChangeKind::Breaking, String::from_str("keyexpr override changed (the delivery keyexpr changes)"));
    }
    let ghost c4 = change_views(changes@);
    proof { lemma_cat_empty(c4); }
    if !opt_str_equal(&was.selector, &now.selector) {
        push_change(&mut changes, id, conn_field_path(id, ".selector"), ChangeKind::Breaking, String::from_str("selector changed (the query's request condition changes)"));
    }
    assert(change_views(changes@) =~= topology_changes(id@, as_connection(*was), as_connection(*now)));
    diff_slot(id, "payload", &was.payload, &now.payload, &mut changes);
    diff_slot(id, "request", &was.request, &now.request, &mut changes);
    diff_slot(id, "response", &was.response, &now.response, &mut changes);
    assert(change_views(changes@) =~= connection_changes(id@, as_connection(*was), as_connection(*now)));
    changes
}

/// Structural classification of a single connection pair.
pub fn classify_pair(id: &str, was: &Connection, now: &Connection) -> (r: Vec<Change>)
    ensures
        change_views(r@) == connection_changes(id@, *was, *now),
{
    let mut changes: Vec<Change> = Vec::new();
    classify_connection(id, was, now, &mut changes);
    assert(change_views(Seq::<Change>::empty()) =~= Seq::<ChangeView>::empty());
    assert(Seq::<ChangeView>::empty() + connection_changes(id@, *was, *now) =~= connection_changes(id@, *was, *now));
    changes
}

/// Compatible = no breaking change.
pub fn is_compatible(changes: &Vec<Change>) -> (r: bool)
    ensures
        r == compatible(change_views(changes@)),
{
    let mut i: usize = 0;
    while i < changes.len()
        invariant
            i <= changes@.len(),
            forall|j: int| 0 <= j < i ==> changes@[j].kind != ChangeKind::Breaking,
        decreases changes@.len() - i,
    {
        if changes[i].kind == ChangeKind::Breaking {
            assert(change_views(changes@)[i as int].kind == ChangeKind::Breaking);
            return false;
        }
        i = i + 1;
    }
    true
}

/// The delivery-boundary judgement of a classification restricted to one connection: every
/// non-additive change of that connection is a `schema_incompatible` diagnostic (a promotion
/// says that the direction is undecided).
pub open spec fn incompatibilities(cs: Seq<ChangeView>, conn_id: Seq<char>, note: Seq<char>) -> Seq<DiagView>
    decreases cs.len(),
{
    if cs.len() == 0 {
        seq![]
    } else {
        let c = cs.last();
        incompatibilities(cs.drop_last(), conn_id, note) + if c.connection == conn_id && c.kind
            != ChangeKind::Additive {
            seq![
                dv(
                    "schema_incompatible"@,
                    c.path,
                    if c.kind == ChangeKind::Promotion {
                        c.detail + note
                    } else {
                        c.detail
                    },
                ),
            ]
        } else {
            seq![]
        }
    }
}

/// The note a promotion carries at the delivery boundary.
pub open spec fn contract_promotion_note() -> Seq<char> {
    " (conservatively NO at the delivery boundary because direction is undecided; fork 5)"@
}

/// The delivery-boundary diagnostics of a classification for one connection.
pub fn blocking_diags(changes: &Vec<Change>, conn_id: &str, note: &str) -> (r: Vec<Diag>)
    ensures
        diag_views(r@) == incompatibilities(change_views(changes@), conn_id@, note@),
{
    let mut out: Vec<Diag> = Vec::new();
    let mut i: usize = 0;
    assert(change_views(changes@).take(0) =~= Seq::<ChangeView>::empty());
    assert(diag_views(out@) =~= Seq::<DiagView>::empty());
    while i < changes.len()
        invariant
            i <= changes@.len(),
            diag_views(out@) == incompatibilities(change_views(changes@).take(i as int), conn_id@, note@),
        decreases changes@.len() - i,
    {
        let c = &changes[i];
        let ghost before = diag_views(out@);
        if string_eq(c.connection.as_str(), conn_id) && c.kind != ChangeKind::Additive {
            let detail = if c.kind == ChangeKind::Promotion {
                cat(c.detail.as_str(), note)
            } else {
                c.detail.clone()
            };
            push_diag(&mut out, Diag::new("schema_incompatible", c.path.clone(), detail));
        } else {
            assert(before + Seq::<DiagView>::empty() =~= before);
        }
        proof {
            let pre = change_views(changes@).take(i + 1);
            assert(pre.drop_last() =~= change_views(changes@).take(i as int));
            assert(pre.last() == c@);
        }
        i = i + 1;
    }
    assert(change_views(changes@).take(changes@.len() as int) =~= change_views(changes@));
    out
}

/// Delivery-time handshake: the receiver judges the sender's contract for one connection and
/// passes only purely additive differences; breaking and promotion are a NO.
pub fn handshake(receiver: &Contract, sender: &Contract, conn_id: &str) -> (r: Result<(), Vec<Diag>>)
    ensures
        match r {
            Ok(()) => incompatibilities(contract_changes(*receiver, *sender), conn_id@, contract_promotion_note()).len() == 0,
            Err(d) => diag_views(d@) == incompatibilities(contract_changes(*receiver, *sender), conn_id@, contract_promotion_note())
                && d@.len() > 0,
        },
{
    let changes = classify(receiver, sender);
    let diags = blocking_diags(&changes, conn_id, " (conservatively NO at the delivery boundary because direction is undecided; fork 5)");
    if diags.len() == 0 {
        Ok(())
    } else {
        Err(diags)
    }
}

// ---------------------------------------------------------------- blast radius

/// Connection `i` of `new` is changed: the old contract lacks it, or its fingerprint moved
/// (`oc` and `nc` are the canonical encodings of the old and new connections).
pub open spec fn is_changed(old: Contract, new: Contract, oc: Seq<Vec<u8>>, nc: Seq<Vec<u8>>, i: int) -> bool {
    let j = find_key(old.connections@, new.connections@[i].0@);
    j < 0 || fingerprint(oc[j]@) != fingerprint(nc[i]@)
}

/// The changed ids among the first `k` connections of `new`, in order.
pub open spec fn changed_ids(old: Contract, new: Contract, oc: Seq<Vec<u8>>, nc: Seq<Vec<u8>>, k: int) -> Seq<Seq<char>>
    decreases k,
{
    if k <= 0 {
        seq![]
    } else {
        changed_ids(old, new, oc, nc, k - 1) + if is_changed(old, new, oc, nc, k - 1) {
            seq![new.connections@[k - 1].0@]
        } else {
            seq![]
        }
    }
}

/// The connections of `new` that are new or whose fingerprint differs from the old one, in
/// ascending order: the blast radius of a contract change.
pub fn changed_connections(old: &Contract, new: &Contract, old_canonical: &Vec<Vec<u8>>, new_canonical: &Vec<Vec<u8>>) -> (r: Vec<String>)
    requires
        old_canonical@.len() == old.connections@.len(),
        new_canonical@.len() == new.connections@.len(),
    ensures
        views(r@) == ins_all(seq![], changed_ids(*old, *new, old_canonical@, new_canonical@, new.connections@.len() as int)),
        sorted_unique(views(r@)),
{
    let mut out: Vec<String> = Vec::new();
    let mut i: usize = 0;
    assert(views(out@) =~= Seq::<Seq<char>>::empty());
    while i < new.connections.len()
        invariant
            i <= new.connections@.len(),
            old_canonical@.len() == old.connections@.len(),
            new_canonical@.len() == new.connections@.len(),
            views(out@) == ins_all(seq![], changed_ids(*old, *new, old_canonical@, new_canonical@, i as int)),
            sorted_unique(views(out@)),
        decreases new.connections@.len() - i,
    {
        let id = &new.connections[i].0;
        proof {
            crate::model::lemma_find_key(old.connections@, id@);
        }
        let changed = match lookup(&old.connections, id.as_str()) {
            None => true,
            Some(j) => {
                let a = connection_hash(old_canonical[j].as_slice());
                let b = connection_hash(new_canonical[i].as_slice());
                !string_eq(a.as_str(), b.as_str())
            },
        };
        let ghost before = changed_ids(*old, *new, old_canonical@, new_canonical@, i as int);
        if changed {
            insert_sorted(&mut out, id.clone());
            proof {
                let after = changed_ids(*old, *new, old_canonical@, new_canonical@, i + 1);
                assert(after =~= before.push(id@));
                assert(after.drop_last() =~= before);
            }
        } else {
            proof {
                assert(changed_ids(*old, *new, old_canonical@, new_canonical@, i + 1) =~= before);
            }
        }
        i = i + 1;
    }
    out
}

// ---------------------------------------------------------------- laws

/// Field names are unique at every level of groups (what the schema check's duplicate_field
/// guards).
pub open spec fn fields_distinct(fs: Seq<Field>) -> bool
    decreases fs,
{
    if fs.len() == 0 {
        true
    } else {
        fields_distinct(fs.drop_last()) && find_field(fs.drop_last(), fs.last().name@) < 0 && field_distinct(
            fs.last(),
        )
    }
}

pub open spec fn field_distinct(f: Field) -> bool
    decreases f,
{
    fields_distinct(f.fields@)
}

/// A slot whose fields a comparison can match up one to one: unique names, no NaN anywhere.
pub open spec fn slot_comparable(s: Option<Slot>) -> bool {
    match s {
        Some(x) => fields_nan_free(x.fields@) && fields_distinct(x.fields@),
        None => true,
    }
}

pub open spec fn connection_comparable(c: Connection) -> bool {
    slot_comparable(c.payload) && slot_comparable(c.request) && slot_comparable(c.response)
}

/// Connection ids are unique and every connection is comparable.
pub open spec fn contract_comparable(c: Contract) -> bool {
    &&& forall|i: int, j: int|
        0 <= i < j < c.connections@.len() ==> c.connections@[i].0@ != c.connections@[j].0@
    &&& forall|i: int| 0 <= i < c.connections@.len() ==> connection_comparable(#[trigger] c.connections@[i].1)
}

proof fn lemma_find_first(fs: Seq<Field>, name: Seq<char>, k: int, i: int)
    requires
        0 <= k <= i < fs.len(),
        fs[i].name@ == name,
        forall|j: int| k <= j < i ==> fs[j].name@ != name,
    ensures
        find_field_from(fs, name, k) == i,
    decreases i - k,
{
    if k < i {
        lemma_find_first(fs, name, k + 1, i);
    }
}

proof fn lemma_distinct_names(fs: Seq<Field>, j: int, i: int)
    requires
        fields_distinct(fs),
        0 <= j < i < fs.len(),
    ensures
        fs[j].name@ != fs[i].name@,
    decreases fs.len(),
{
    if i == fs.len() - 1 {
        lemma_find_field(fs.drop_last(), fs.last().name@, 0);
        assert(fs.drop_last()[j] == fs[j]);
    } else {
        lemma_distinct_names(fs.drop_last(), j, i);
    }
}

proof fn lemma_distinct_elem(fs: Seq<Field>, i: int)
    requires
        fields_distinct(fs),
        0 <= i < fs.len(),
    ensures
        field_distinct(fs[i]),
        find_field(fs, fs[i].name@) == i,
    decreases fs.len(),
{
    if i < fs.len() - 1 {
        lemma_distinct_elem(fs.drop_last(), i);
    }
    assert forall|j: int| 0 <= j < i implies fs[j].name@ != fs[i].name@ by {
        lemma_distinct_names(fs, j, i);
    }
    lemma_find_first(fs, fs[i].name@, 0, i);
}

proof fn lemma_values_added_none(id: Seq<char>, path: Seq<char>, fname: Seq<char>, old: Seq<String>, new: Seq<String>)
    requires
        forall|k: int| 0 <= k < new.len() ==> seq_has(old, #[trigger] new[k]@),
    ensures
        values_added(id, path, fname, old, new) == Seq::<ChangeView>::empty(),
    decreases new.len(),
{
    if new.len() > 0 {
        assert forall|k: int| 0 <= k < new.drop_last().len() implies seq_has(old, #[trigger] new.drop_last()[k]@) by {
            assert(new.drop_last()[k] == new[k]);
        }
        lemma_values_added_none(id, path, fname, old, new.drop_last());
        assert(seq_has(old, new[new.len() - 1]@));
        assert(values_added(id, path, fname, old, new) =~= Seq::<ChangeView>::empty());
    }
}

proof fn lemma_values_removed_none(id: Seq<char>, path: Seq<char>, fname: Seq<char>, old: Seq<String>, new: Seq<String>)
    requires
        forall|k: int| 0 <= k < old.len() ==> seq_has(new, #[trigger] old[k]@),
    ensures
        values_removed(id, path, fname, old, new) == Seq::<ChangeView>::empty(),
    decreases old.len(),
{
    if old.len() > 0 {
        assert forall|k: int| 0 <= k < old.drop_last().len() implies seq_has(new, #[trigger] old.drop_last()[k]@) by {
            assert(old.drop_last()[k] == old[k]);
        }
        lemma_values_removed_none(id, path, fname, old.drop_last(), new);
        assert(seq_has(new, old[old.len() - 1]@));
        assert(values_removed(id, path, fname, old, new) =~= Seq::<ChangeView>::empty());
    }
}

proof fn lemma_field_unchanged(id: Seq<char>, path: Seq<char>, f: Field)
    requires
        crate::model::field_nan_free(f),
        field_distinct(f),
    ensures
        field_changes(id, path, f, f) == Seq::<ChangeView>::empty(),
    decreases h_field(f), 0nat, 0nat,
{
    let fname = f.name@;
    assert forall|k: int| 0 <= k < f.values@.len() implies seq_has(f.values@, #[trigger] f.values@[k]@) by {}
    lemma_values_added_none(id, path, fname, f.values@, f.values@);
    lemma_values_removed_none(id, path, fname, f.values@, f.values@);
    if let Some(t) = f.items {
        lemma_spec_eq_refl(t);
    }
    assert(attr_changes(id, path, f, f) =~= Seq::<ChangeView>::empty());
    if f.ty == TypeName::Group {
        lemma_h_field(f);
        lemma_fields_unchanged(id, path + ".fields"@, f.fields@);
    }
    assert(field_changes(id, path, f, f) =~= Seq::<ChangeView>::empty());
}

proof fn lemma_added_unchanged(id: Seq<char>, base: Seq<char>, fs: Seq<Field>, k: int)
    requires
        0 <= k <= fs.len(),
        fields_nan_free(fs),
        fields_distinct(fs),
    ensures
        added_changes(id, base, fs, fs.take(k)) == Seq::<ChangeView>::empty(),
    decreases h_fields(fs), 1nat, k,
{
    if k > 0 {
        let pre = fs.take(k);
        assert(pre.drop_last() =~= fs.take(k - 1));
        assert(pre.last() == fs[k - 1]);
        lemma_added_unchanged(id, base, fs, k - 1);
        lemma_distinct_elem(fs, k - 1);
        lemma_fields_nan_free_elem(fs, k - 1);
        lemma_h_fields_elem(fs, k - 1);
        lemma_find_field(fs, fs[k - 1].name@, 0);
        let path = base + "["@ + decimal((k - 1) as nat) + "]"@;
        lemma_field_unchanged(id, path, fs[k - 1]);
        assert(new_field_changes(id, base, fs, (k - 1) as nat, fs[k - 1]) == field_changes(id, path, fs[k - 1], fs[k - 1]));
        assert(added_changes(id, base, fs, pre) == added_changes(id, base, fs, pre.drop_last())
            + new_field_changes(id, base, fs, (pre.len() - 1) as nat, pre.last()));
        assert(added_changes(id, base, fs, pre) =~= Seq::<ChangeView>::empty());
    }
}

proof fn lemma_removed_unchanged(id: Seq<char>, base: Seq<char>, fs: Seq<Field>, k: int)
    requires
        0 <= k <= fs.len(),
        fields_distinct(fs),
    ensures
        removed_changes(id, base, fs.take(k), fs) == Seq::<ChangeView>::empty(),
    decreases k,
{
    if k > 0 {
        let pre = fs.take(k);
        assert(pre.drop_last() =~= fs.take(k - 1));
        assert(pre.last() == fs[k - 1]);
        lemma_removed_unchanged(id, base, fs, k - 1);
        lemma_distinct_elem(fs, k - 1);
        assert(removed_changes(id, base, pre, fs) =~= Seq::<ChangeView>::empty());
    }
}

proof fn lemma_fields_unchanged(id: Seq<char>, base: Seq<char>, fs: Seq<Field>)
    requires
        fields_nan_free(fs),
        fields_distinct(fs),
    ensures
        fields_changes(id, base, fs, fs) == Seq::<ChangeView>::empty(),
    decreases h_fields(fs), 2nat, 0nat,
{
    lemma_added_unchanged(id, base, fs, fs.len() as int);
    lemma_removed_unchanged(id, base, fs, fs.len() as int);
    assert(fs.take(fs.len() as int) =~= fs);
    assert(fields_changes(id, base, fs, fs) =~= Seq::<ChangeView>::empty());
}

/// A connection compared with itself has no change.
pub proof fn connection_unchanged_has_no_changes(id: Seq<char>, c: Connection)
    requires
        connection_comparable(c),
    ensures
        connection_changes(id, c, c) == Seq::<ChangeView>::empty(),
{
    assert(strs_eq(c.to@, c.to@));
    assert(opt_str_eq(c.key, c.key));
    assert(opt_str_eq(c.selector, c.selector));
    assert(topology_changes(id, c, c) =~= Seq::<ChangeView>::empty());
    if let Some(s) = c.payload {
        lemma_fields_unchanged(id, "connections."@ + id + "."@ + "payload"@ + ".fields"@, s.fields@);
    }
    if let Some(s) = c.request {
        lemma_fields_unchanged(id, "connections."@ + id + "."@ + "request"@ + ".fields"@, s.fields@);
    }
    if let Some(s) = c.response {
        lemma_fields_unchanged(id, "connections."@ + id + "."@ + "response"@ + ".fields"@, s.fields@);
    }
    assert(connection_changes(id, c, c) =~= Seq::<ChangeView>::empty());
}

proof fn lemma_new_conns_unchanged(c: Contract, k: int)
    requires
        contract_comparable(c),
        0 <= k <= c.connections@.len(),
    ensures
        new_conn_changes(c, c.connections@.take(k)) == Seq::<ChangeView>::empty(),
    decreases k,
{
    if k > 0 {
        let conns = c.connections@;
        let pre = conns.take(k);
        assert(pre.drop_last() =~= conns.take(k - 1));
        assert(pre.last() == conns[k - 1]);
        lemma_new_conns_unchanged(c, k - 1);
        let id = conns[k - 1].0@;
        lemma_find_key(conns, id);
        let f = find_key(conns, id);
        if f != k - 1 {
            if f < k - 1 {
                assert(conns[f].0@ != conns[k - 1].0@);
            } else {
                assert(conns[k - 1].0@ != conns[f].0@);
            }
        }
        connection_unchanged_has_no_changes(id, conns[k - 1].1);
        assert(new_conn_changes(c, pre) =~= Seq::<ChangeView>::empty());
    }
}

proof fn lemma_removed_conns_none(c: Contract, k: int)
    requires
        0 <= k <= c.connections@.len(),
    ensures
        removed_conn_changes(c, c.connections@.take(k)) == Seq::<ChangeView>::empty(),
    decreases k,
{
    if k > 0 {
        let conns = c.connections@;
        let pre = conns.take(k);
        assert(pre.drop_last() =~= conns.take(k - 1));
        assert(pre.last() == conns[k - 1]);
        lemma_removed_conns_none(c, k - 1);
        lemma_find_key(conns, conns[k - 1].0@);
        assert(removed_conn_changes(c, pre) =~= Seq::<ChangeView>::empty());
    }
}

/// A contract classified against itself has no change, so it is compatible with itself and a
/// delivery-time handshake between two nodes running it passes on every connection (for
/// contracts whose connection ids and field names are unique and whose bounds and defaults hold
/// no NaN).
pub proof fn unchanged_contract_has_no_changes(c: Contract, conn_id: Seq<char>)
    requires
        contract_comparable(c),
    ensures
        contract_changes(c, c) == Seq::<ChangeView>::empty(),
        compatible(contract_changes(c, c)),
        incompatibilities(contract_changes(c, c), conn_id, contract_promotion_note()) == Seq::<DiagView>::empty(),
{
    lemma_new_conns_unchanged(c, c.connections@.len() as int);
    lemma_removed_conns_none(c, c.connections@.len() as int);
    assert(c.connections@.take(c.connections@.len() as int) =~= c.connections@);
    assert(contract_changes(c, c) =~= Seq::<ChangeView>::empty());
}

} // verus!

verus! {

use crate::diag::lemma_in_cat;

/// The change that removing enum value `v` from field `fname` at `path` is.
pub open spec fn value_removed_change(id: Seq<char>, path: Seq<char>, fname: Seq<char>, v: Seq<char>) -> ChangeView {
    ChangeView {
        connection: id,
        path: path + ".values"@,
        kind: ChangeKind::Breaking,
        detail: "field '"@ + fname + "': enum value removed '"@ + v + "'"@,
    }
}

proof fn lemma_values_removed_holds(id: Seq<char>, path: Seq<char>, fname: Seq<char>, old: Seq<String>, new: Seq<String>, k: int)
    requires
        0 <= k < old.len(),
        forall|j: int| 0 <= j < new.len() ==> #[trigger] new[j]@ != old[k]@,
    ensures
        values_removed(id, path, fname, old, new).contains(value_removed_change(id, path, fname, old[k]@)),
    decreases old.len(),
{
    let c = value_removed_change(id, path, fname, old[k]@);
    let breaking = ChangeKind::Breaking;
    let removed_detail = fq(fname) + ": enum value removed '"@ + old.last()@ + "'"@;
    let tail = if seq_has(new, old.last()@) {
        Seq::<ChangeView>::empty()
    } else {
        ch(id, path + ".values"@, breaking, removed_detail)
    };
    if k < old.len() - 1 {
        lemma_values_removed_holds(id, path, fname, old.drop_last(), new, k);
        assert(old.drop_last()[k] == old[k]);
    } else {
        assert(!seq_has(new, old.last()@));
        reveal_strlit("field '");
        reveal_strlit("'");
        reveal_strlit(": enum value removed '");
        reveal_strlit("': enum value removed '");
        assert(removed_detail =~= c.detail);
        assert(tail[0] == c);
        assert(tail.contains(c));
    }
    lemma_in_cat(values_removed(id, path, fname, old.drop_last(), new), tail, c);
}

/// Removing an enum value is breaking: when a field keeps its type and an enum value of the old
/// version is none of the new version's values, the field's classification holds a breaking
/// change at its `.values` path naming that value, so the field is not compatible.
pub proof fn removed_enum_value_is_breaking(id: Seq<char>, path: Seq<char>, old: Field, new: Field, k: int)
    requires
        old.ty == new.ty,
        0 <= k < old.values@.len(),
        forall|j: int| 0 <= j < new.values@.len() ==> #[trigger] new.values@[j]@ != old.values@[k]@,
    ensures
        field_changes(id, path, old, new).contains(value_removed_change(id, path, new.name@, old.values@[k]@)),
        !compatible(field_changes(id, path, old, new)),
{
    let fname = new.name@;
    let c = value_removed_change(id, path, fname, old.values@[k]@);
    lemma_values_removed_holds(id, path, fname, old.values@, new.values@, k);
    let a1 = required_changes(id, path, fname, old.required, new.required) + values_added(id, path, fname, old.values@, new.values@);
    let vr = values_removed(id, path, fname, old.values@, new.values@);
    lemma_in_cat(a1, vr, c);
    let a2 = a1 + vr;
    let b1 = float_bound_changes(id, path, fname, "min"@, old.min, new.min, false);
    lemma_in_cat(a2, b1, c);
    let a3 = a2 + b1;
    let b2 = float_bound_changes(id, path, fname, "max"@, old.max, new.max, true);
    lemma_in_cat(a3, b2, c);
    let a4 = a3 + b2;
    let b3 = len_bound_changes(id, path, fname, old.max_len, new.max_len);
    lemma_in_cat(a4, b3, c);
    let a5 = a4 + b3;
    let b4 = items_changes(id, path, fname, old.items, new.items);
    lemma_in_cat(a5, b4, c);
    assert(attr_changes(id, path, old, new) == a5 + b4);
    let rest = if old.ty == TypeName::Group {
        fields_changes(id, path + ".fields"@, old.fields@, new.fields@)
    } else {
        Seq::<ChangeView>::empty()
    };
    lemma_in_cat(attr_changes(id, path, old, new), rest, c);
    assert(field_changes(id, path, old, new) == attr_changes(id, path, old, new) + rest);
}

/// A classification holding a breaking change is not compatible.
pub proof fn breaking_change_is_incompatible(cs: Seq<ChangeView>, c: ChangeView)
    requires
        cs.contains(c),
        c.kind == ChangeKind::Breaking,
    ensures
        !compatible(cs),
{
}

/// A breaking change of a connection blocks its delivery-time handshake: the judgement holds a
/// `schema_incompatible` diagnostic at the change's path with its detail.
pub proof fn breaking_change_blocks_delivery(cs: Seq<ChangeView>, conn_id: Seq<char>, note: Seq<char>, c: ChangeView)
    requires
        cs.contains(c),
        c.kind == ChangeKind::Breaking,
        c.connection == conn_id,
    ensures
        incompatibilities(cs, conn_id, note).contains(dv("schema_incompatible"@, c.path, c.detail)),
    decreases cs.len(),
{
    let d = dv("schema_incompatible"@, c.path, c.detail);
    let last = cs.last();
    let tail = if last.connection == conn_id && last.kind != ChangeKind::Additive {
        seq![
            dv(
                "schema_incompatible"@,
                last.path,
                if last.kind == ChangeKind::Promotion {
                    last.detail + note
                } else {
                    last.detail
                },
            ),
        ]
    } else {
        Seq::<DiagView>::empty()
    };
    if last == c {
        assert(tail[0] == d);
        assert(tail.contains(d));
    } else {
        let i = choose|i: int| 0 <= i < cs.len() && cs[i] == c;
        assert(cs.drop_last()[i] == c);
        breaking_change_blocks_delivery(cs.drop_last(), conn_id, note, c);
    }
    lemma_in_cat(incompatibilities(cs.drop_last(), conn_id, note), tail, d);
}

proof fn lemma_added_holds(id: Seq<char>, base: Seq<char>, old: Seq<Field>, new: Seq<Field>, i: int, c: ChangeView)
    requires
        0 <= i < new.len(),
        new_field_changes(id, base, old, i as nat, new[i]).contains(c),
    ensures
        added_changes(id, base, old, new).contains(c),
    decreases new.len(),
{
    if i < new.len() - 1 {
        lemma_added_holds(id, base, old, new.drop_last(), i, c);
        assert(new.drop_last()[i] == new[i]);
    }
    lemma_in_cat(
        added_changes(id, base, old, new.drop_last()),
        new_field_changes(id, base, old, (new.len() - 1) as nat, new.last()),
        c,
    );
}

proof fn lemma_new_conns_hold(old: Contract, conns: Seq<(String, Connection)>, m: int, c: ChangeView)
    requires
        0 <= m < conns.len(),
        new_conn_piece(old, conns[m].0@, conns[m].1).contains(c),
    ensures
        new_conn_changes(old, conns).contains(c),
    decreases conns.len(),
{
    if m < conns.len() - 1 {
        lemma_new_conns_hold(old, conns.drop_last(), m, c);
        assert(conns.drop_last()[m] == conns[m]);
    }
    lemma_in_cat(new_conn_changes(old, conns.drop_last()), new_conn_piece(old, conns.last().0@, conns.last().1), c);
}

/// The path of field `i` of a connection's payload.
pub open spec fn payload_field_path(id: Seq<char>, i: int) -> Seq<char> {
    "connections."@ + id + ".payload.fields"@ + "["@ + decimal(i as nat) + "]"@
}

/// Removing an enum value from a payload field of a connection both contracts have breaks the
/// contract: the classification holds the breaking change at that field's `.values` path, the
/// contracts are not compatible, and the delivery-time handshake of that connection refuses.
/// The field is matched by name with the old connection's fields, the connection by its id.
pub proof fn removed_enum_value_breaks_contract(old: Contract, new: Contract, m: int, i: int, k: int)
    requires
        0 <= m < new.connections@.len(),
        has_key(old.connections@, new.connections@[m].0@),
        old.connections@[find_key(old.connections@, new.connections@[m].0@)].1.payload is Some,
        new.connections@[m].1.payload is Some,
        0 <= i < new.connections@[m].1.payload->0.fields@.len(),
        ({
            let ofs = old.connections@[find_key(old.connections@, new.connections@[m].0@)].1.payload->0.fields@;
            let nf = new.connections@[m].1.payload->0.fields@[i];
            let j = find_field(ofs, nf.name@);
            &&& j >= 0
            &&& ofs[j].ty == nf.ty
            &&& 0 <= k < ofs[j].values@.len()
            &&& forall|v: int| 0 <= v < nf.values@.len() ==> #[trigger] nf.values@[v]@ != ofs[j].values@[k]@
        }),
    ensures
        ({
            let id = new.connections@[m].0@;
            let ofs = old.connections@[find_key(old.connections@, id)].1.payload->0.fields@;
            let nf = new.connections@[m].1.payload->0.fields@[i];
            let c = value_removed_change(id, payload_field_path(id, i), nf.name@, ofs[find_field(ofs, nf.name@)].values@[k]@);
            &&& contract_changes(old, new).contains(c)
            &&& !compatible(contract_changes(old, new))
            &&& incompatibilities(contract_changes(old, new), id, contract_promotion_note()).len() > 0
        }),
{
    let id = new.connections@[m].0@;
    let nconn = new.connections@[m].1;
    let oconn = old.connections@[find_key(old.connections@, id)].1;
    let ofs = oconn.payload->0.fields@;
    let nfs = nconn.payload->0.fields@;
    let nf = nfs[i];
    let j = find_field(ofs, nf.name@);
    let path = payload_field_path(id, i);
    let base = "connections."@ + id + "."@ + "payload"@ + ".fields"@;
    reveal_strlit("connections.");
    reveal_strlit(".");
    reveal_strlit("payload");
    reveal_strlit(".fields");
    reveal_strlit(".payload.fields");
    reveal_strlit("[");
    reveal_strlit("]");
    assert(base + "["@ + decimal(i as nat) + "]"@ =~= path);
    let c = value_removed_change(id, path, nf.name@, ofs[j].values@[k]@);
    removed_enum_value_is_breaking(id, path, ofs[j], nf, k);
    assert(new_field_changes(id, base, ofs, i as nat, nf) == field_changes(id, path, ofs[j], nf));
    lemma_added_holds(id, base, ofs, nfs, i, c);
    lemma_in_cat(added_changes(id, base, ofs, nfs), removed_changes(id, base, ofs, nfs), c);
    let sp = slot_changes(id, "payload"@, oconn.payload, nconn.payload);
    assert(sp == fields_changes(id, base, ofs, nfs));
    let t = topology_changes(id, oconn, nconn);
    lemma_in_cat(t, sp, c);
    let sr = slot_changes(id, "request"@, oconn.request, nconn.request);
    lemma_in_cat(t + sp, sr, c);
    let ss = slot_changes(id, "response"@, oconn.response, nconn.response);
    lemma_in_cat(t + sp + sr, ss, c);
    assert(connection_changes(id, oconn, nconn) == t + sp + sr + ss);
    assert(new_conn_piece(old, id, nconn) == connection_changes(id, oconn, nconn));
    lemma_new_conns_hold(old, new.connections@, m, c);
    lemma_in_cat(new_conn_changes(old, new.connections@), removed_conn_changes(new, old.connections@), c);
    breaking_change_blocks_delivery(contract_changes(old, new), id, contract_promotion_note(), c);
    assert(incompatibilities(contract_changes(old, new), id, contract_promotion_note()).contains(
        dv("schema_incompatible"@, c.path, c.detail),
    ));
}

/// The change that adding enum value `v` to field `fname` at `path` is.
pub open spec fn value_added_change(id: Seq<char>, path: Seq<char>, fname: Seq<char>, v: Seq<char>) -> ChangeView {
    ChangeView {
        connection: id,
        path: path + ".values"@,
        kind: ChangeKind::Additive,
        detail: "field '"@ + fname + "': enum value added '"@ + v + "'"@,
    }
}

proof fn lemma_values_added_holds(id: Seq<char>, path: Seq<char>, fname: Seq<char>, old: Seq<String>, new: Seq<String>, k: int)
    requires
        0 <= k < new.len(),
        forall|j: int| 0 <= j < old.len() ==> #[trigger] old[j]@ != new[k]@,
    ensures
        values_added(id, path, fname, old, new).contains(value_added_change(id, path, fname, new[k]@)),
    decreases new.len(),
{
    let c = value_added_change(id, path, fname, new[k]@);
    let additive = ChangeKind::Additive;
    let added_detail = fq(fname) + ": enum value added '"@ + new.last()@ + "'"@;
    let tail = if seq_has(old, new.last()@) {
        Seq::<ChangeView>::empty()
    } else {
        ch(id, path + ".values"@, additive, added_detail)
    };
    if k < new.len() - 1 {
        lemma_values_added_holds(id, path, fname, old, new.drop_last(), k);
        assert(new.drop_last()[k] == new[k]);
    } else {
        assert(!seq_has(old, new.last()@));
        reveal_strlit("field '");
        reveal_strlit("'");
        reveal_strlit(": enum value added '");
        reveal_strlit("': enum value added '");
        assert(added_detail =~= c.detail);
        assert(tail[0] == c);
        assert(tail.contains(c));
    }
    lemma_in_cat(values_added(id, path, fname, old, new.drop_last()), tail, c);
}

/// Adding an enum value is additive: when a field keeps its type and gains a value its old
/// version lacked, the classification holds an additive change at its `.values` path naming
/// that value.
pub proof fn added_enum_value_is_additive(id: Seq<char>, path: Seq<char>, old: Field, new: Field, k: int)
    requires
        old.ty == new.ty,
        0 <= k < new.values@.len(),
        forall|j: int| 0 <= j < old.values@.len() ==> #[trigger] old.values@[j]@ != new.values@[k]@,
    ensures
        field_changes(id, path, old, new).contains(value_added_change(id, path, new.name@, new.values@[k]@)),
{
    let fname = new.name@;
    let c = value_added_change(id, path, fname, new.values@[k]@);
    lemma_values_added_holds(id, path, fname, old.values@, new.values@, k);
    let rq = required_changes(id, path, fname, old.required, new.required);
    let va = values_added(id, path, fname, old.values@, new.values@);
    lemma_in_cat(rq, va, c);
    let a2 = rq + va;
    let vr = values_removed(id, path, fname, old.values@, new.values@);
    lemma_in_cat(a2, vr, c);
    let a3 = a2 + vr;
    let b1 = float_bound_changes(id, path, fname, "min"@, old.min, new.min, false);
    lemma_in_cat(a3, b1, c);
    let a4 = a3 + b1;
    let b2 = float_bound_changes(id, path, fname, "max"@, old.max, new.max, true);
    lemma_in_cat(a4, b2, c);
    let a5 = a4 + b2;
    let b3 = len_bound_changes(id, path, fname, old.max_len, new.max_len);
    lemma_in_cat(a5, b3, c);
    let a6 = a5 + b3;
    let b4 = items_changes(id, path, fname, old.items, new.items);
    lemma_in_cat(a6, b4, c);
    assert(attr_changes(id, path, old, new) == a6 + b4);
    let rest = if old.ty == TypeName::Group {
        fields_changes(id, path + ".fields"@, old.fields@, new.fields@)
    } else {
        Seq::<ChangeView>::empty()
    };
    lemma_in_cat(attr_changes(id, path, old, new), rest, c);
    assert(field_changes(id, path, old, new) == attr_changes(id, path, old, new) + rest);
}

} // verus!
