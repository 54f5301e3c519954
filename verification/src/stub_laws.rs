//! Why a generated stub reads back: apart from its marker header, every text that generation
//! writes is anchored (each `:` in it has a neighbour that keeps a hash marker from standing
//! there), so no line past the header can carry a hash marker. The lemmas follow the
//! generation functions piece by piece.
use vstd::prelude::*;

use crate::model::{Field, TypeName, TypeSpec};
use crate::payload::{h_field, h_fields, h_specs, h_tv, lemma_h_field, lemma_h_spec_pos, tv_field, tv_spec, TV};
use crate::strs::{
    colon_safe, contains, debug_quoted, find, join,
    lemma_find_first, lemma_find_from_bound, lemma_find_from_none_before, lemma_find_none, lemma_lex_irreflexive,
    lemma_lex_transitive, lex_lt, lines, occurs_at, strip_cr, views,
    sorted_unique, ins_name, ins_all,
};
use crate::stub::{
    get_pair, hash_marker, id_line, ins_pair, keys_sorted, markable, marker_line_reads_back, marker_segment, marker_step,
    marker_text, marker_texts, markers_of, one_line, pair_keys,
};
use crate::stubgen::{
    defs_text, dts_node_text, facade_of, hash_entries, hash_entry, marker_line, marker_lines, markers,
    mjs_node_text, py_answer_sig, py_facade, py_method, py_methods, py_node_text, py_pub_sig, py_qc_sig,
    py_query_sig, py_sub_sig_a, py_sub_sig_b, py_sub_sigs, py_tail, pyi_node_text, ts_answer_line, ts_facade,
    ts_methods, ts_pub_line, ts_qc_line, ts_query_line, ts_query_lines, ts_sub_line, ts_tail, SigsView,
    payload_types, query_types, slot_of, slot_path, slot_type_of,
};
use crate::stubgen::{
    enum_text, field_line, lines_of, record_body, record_of, scalar_text, type_text_of, union_of, valid_ident,
    wrap_items, Defs, StubLang,
};

verus! {

// ---------------------------------------------------------------- where a hash marker can stand

/// `s` holds no hash marker.
pub open spec fn marker_free(s: Seq<char>) -> bool {
    !contains(s, hash_marker())
}

/// Position `q` of `s` differs from where the marker would have it, were the marker's `:` at `p`.
pub open spec fn mismatch_at(s: Seq<char>, p: int, q: int) -> bool {
    p - 5 <= q < p + 6 && 0 <= q < s.len() && s[q] != hash_marker()[q - p + 5]
}

/// Every `:` of `s` has, within `s`, a character that keeps a marker from standing around it;
/// so `s` holds no marker, and neither does any text made by joining such texts.
pub open spec fn anchored(s: Seq<char>) -> bool {
    forall|p: int| 0 <= p < s.len() && #[trigger] s[p] == ':' ==> exists|q: int| #[trigger] mismatch_at(s, p, q)
}

/// The marker's characters, one by one.
proof fn lemma_marker_chars()
    ensures
        hash_marker().len() == 11,
        hash_marker()[0] == 's',
        hash_marker()[1] == 'a',
        hash_marker()[2] == 'h',
        hash_marker()[3] == 'o',
        hash_marker()[4] == 'u',
        hash_marker()[5] == ':',
        hash_marker()[6] == 'h',
        hash_marker()[7] == 'a',
        hash_marker()[8] == 's',
        hash_marker()[9] == 'h',
        hash_marker()[10] == ' ',
{
    reveal_strlit("sahou:hash ");
}

/// A text whose every `:` is followed within it by something other than `h` is anchored.
pub proof fn lemma_cs_anchored(s: Seq<char>)
    requires
        colon_safe(s),
    ensures
        anchored(s),
{
    lemma_marker_chars();
    assert forall|p: int| 0 <= p < s.len() && #[trigger] s[p] == ':' implies exists|q: int| #[trigger] mismatch_at(s, p, q) by {
        assert(mismatch_at(s, p, p + 1));
    }
}

pub proof fn lemma_an_concat(a: Seq<char>, b: Seq<char>)
    requires
        anchored(a),
        anchored(b),
    ensures
        anchored(a + b),
{
    let c = a + b;
    assert forall|p: int| 0 <= p < c.len() && #[trigger] c[p] == ':' implies exists|q: int| #[trigger] mismatch_at(c, p, q) by {
        if p < a.len() {
            assert(a[p] == ':');
            let q = choose|q: int| #[trigger] mismatch_at(a, p, q);
            assert(c[q] == a[q]);
            assert(mismatch_at(c, p, q));
        } else {
            let pb = p - a.len();
            assert(b[pb] == ':');
            let q = choose|q: int| #[trigger] mismatch_at(b, pb, q);
            assert(c[q + a.len()] == b[q]);
            assert(mismatch_at(c, p, q + a.len()));
        }
    }
}

pub proof fn lemma_an_join(parts: Seq<Seq<char>>, sep: Seq<char>)
    requires
        anchored(sep),
        forall|i: int| 0 <= i < parts.len() ==> anchored(#[trigger] parts[i]),
    ensures
        anchored(join(parts, sep)),
    decreases parts.len(),
{
    if parts.len() > 1 {
        lemma_an_join(parts.drop_last(), sep);
        lemma_an_concat(join(parts.drop_last(), sep), sep);
        lemma_an_concat(join(parts.drop_last(), sep) + sep, parts.last());
    }
}

/// An anchored text holds no marker.
pub proof fn lemma_anchored_free(s: Seq<char>)
    requires
        anchored(s),
    ensures
        marker_free(s),
{
    lemma_marker_chars();
    let m = hash_marker();
    assert forall|k: int| 0 <= k implies !occurs_at(s, m, k) by {
        if occurs_at(s, m, k) {
            let w = s.subrange(k, k + 11);
            assert(w == m);
            assert(s[k + 5] == w[5]);
            let q = choose|q: int| #[trigger] mismatch_at(s, k + 5, q);
            assert(s[q] == w[q - k]);
        }
    }
    lemma_find_none(s, m, 0);
}

/// A part of a text without a marker has none.
pub proof fn lemma_free_subrange(s: Seq<char>, a: int, b: int)
    requires
        marker_free(s),
        0 <= a <= b <= s.len(),
    ensures
        marker_free(s.subrange(a, b)),
{
    let t = s.subrange(a, b);
    let m = hash_marker();
    assert forall|k: int| 0 <= k implies !occurs_at(t, m, k) by {
        if occurs_at(t, m, k) {
            assert(s.subrange(a + k, a + k + m.len()) =~= t.subrange(k, k + m.len()));
            crate::stub::lemma_no_occurrence(s, m, a + k);
        }
    }
    lemma_find_none(t, m, 0);
}

/// Text without a marker, between an end that no marker character ends and a start that no
/// marker continuation starts, is anchored.
pub proof fn lemma_guard(l: Seq<char>, u: Seq<char>, r: Seq<char>)
    requires
        anchored(l),
        anchored(r),
        marker_free(u),
        l.len() > 0,
        r.len() > 0,
        l.last() != 's' && l.last() != 'a' && l.last() != 'h' && l.last() != 'o' && l.last() != 'u',
        r[0] != 'h' && r[0] != 'a' && r[0] != 's' && r[0] != ' ',
    ensures
        anchored(l + u + r),
{
    lemma_marker_chars();
    let m = hash_marker();
    let c = l + u + r;
    let lu: int = (l.len() + u.len()) as int;
    assert forall|p: int| 0 <= p < c.len() && #[trigger] c[p] == ':' implies exists|q: int| #[trigger] mismatch_at(c, p, q) by {
        if p < l.len() {
            assert(l[p] == ':');
            let q = choose|q: int| #[trigger] mismatch_at(l, p, q);
            assert(c[q] == l[q]);
            assert(mismatch_at(c, p, q));
        } else if p >= lu {
            let pr = p - lu;
            assert(r[pr] == ':');
            let q = choose|q: int| #[trigger] mismatch_at(r, pr, q);
            assert(c[q + lu] == r[q]);
            assert(mismatch_at(c, p, q + lu));
        } else if p - 5 < l.len() {
            assert(c[l.len() - 1] == l.last());
            assert(mismatch_at(c, p, l.len() - 1));
        } else if p + 6 > lu {
            assert(c[lu] == r[0]);
            assert(mismatch_at(c, p, lu));
        } else {
            let j = p - 5 - l.len();
            crate::stub::lemma_no_occurrence(u, m, j);
            let w = u.subrange(j, j + 11);
            if forall|i: int| 0 <= i < 11 ==> #[trigger] w[i] == m[i] {
                assert(w =~= m);
            }
            let i = choose|i: int| 0 <= i < 11 && #[trigger] w[i] != m[i];
            assert(w[i] == u[j + i]);
            assert(c[l.len() + j + i] == u[j + i]);
            assert(mismatch_at(c, p, l.len() + j + i));
        }
    }
}

/// The characters of a hexadecimal rendering.
proof fn lemma_hex_chars(n: nat)
    ensures
        forall|k: int| 0 <= k < crate::strs::hex_digits(n).len() ==> {
            let d = #[trigger] crate::strs::hex_digits(n)[k];
            ('0' <= d && d <= '9') || ('a' <= d && d <= 'f')
        },
    decreases n,
{
    let digits = seq!['0', '1', '2', '3', '4', '5', '6', '7', '8', '9', 'a', 'b', 'c', 'd', 'e', 'f'];
    let r: int = (n % 16) as int;
    assert(('0' <= digits[r] && digits[r] <= '9') || ('a' <= digits[r] && digits[r] <= 'f')) by {
        if r == 0 {} else if r == 1 {} else if r == 2 {} else if r == 3 {} else if r == 4 {} else if r == 5 {}
        else if r == 6 {} else if r == 7 {} else if r == 8 {} else if r == 9 {} else if r == 10 {}
        else if r == 11 {} else if r == 12 {} else if r == 13 {} else if r == 14 {} else {}
    }
    if n >= 16 {
        lemma_hex_chars(n / 16);
        let hd = crate::strs::hex_digits(n);
        assert(hd == crate::strs::hex_digits(n / 16).push(digits[r]));
        assert forall|k: int| 0 <= k < hd.len() implies {
            let d = #[trigger] hd[k];
            ('0' <= d && d <= '9') || ('a' <= d && d <= 'f')
        } by {
            if k < hd.len() - 1 {
                assert(hd[k] == crate::strs::hex_digits(n / 16)[k]);
            }
        }
    } else {
        assert(r == n);
    }
}

/// What `Debug` writes for one character: the character itself, or an escape that starts with `\`.
proof fn lemma_debug_char_shape(s: Seq<char>, i: int)
    requires
        0 <= i < s.len(),
    ensures
        crate::strs::debug_char(s, i) == seq![s[i]] || (crate::strs::debug_char(s, i).len() >= 2
            && crate::strs::debug_char(s, i)[0] == '\\' && forall|k: int| 1 <= k < crate::strs::debug_char(s, i).len()
            ==> #[trigger] crate::strs::debug_char(s, i)[k] != 's'),
{
    let d = crate::strs::debug_char(s, i);
    let c = s[i];
    if c != '\0' && c != '\t' && c != '\r' && c != '\n' && c != '\\' && c != '"' && crate::strs::debug_unicode_escaped(s, i) {
        let hx = crate::strs::hex_digits(c as nat);
        lemma_hex_chars(c as nat);
        assert(d =~= seq!['\\', 'u', '{'] + hx + seq!['}']);
        assert forall|k: int| 1 <= k < d.len() implies #[trigger] d[k] != 's' by {
            if 3 <= k < 3 + hx.len() {
                assert(d[k] == hx[k - 3]);
            }
        }
    }
}

/// Where the `Debug` rendering from `i` on starts with text holding no `\`, so does `s` at `i`.
proof fn lemma_debug_prefix(s: Seq<char>, i: int, w: Seq<char>)
    requires
        0 <= i <= s.len(),
        w.len() <= crate::strs::debug_chars(s, i).len(),
        crate::strs::debug_chars(s, i).take(w.len() as int) == w,
        forall|k: int| 0 <= k < w.len() ==> #[trigger] w[k] != '\\',
    ensures
        i + w.len() <= s.len(),
        s.subrange(i, i + w.len()) == w,
    decreases w.len(),
{
    if w.len() > 0 {
        let dd = crate::strs::debug_chars(s, i);
        assert(i < s.len());
        lemma_debug_char_shape(s, i);
        let d = crate::strs::debug_char(s, i);
        let rest = crate::strs::debug_chars(s, i + 1);
        assert(dd == d + rest);
        assert(w[0] == dd[0]);
        assert(d == seq![s[i]]);
        let w2 = w.drop_first();
        assert(rest.take(w2.len() as int) =~= w2) by {
            assert forall|k: int| 0 <= k < w2.len() implies rest[k] == w2[k] by {
                assert(dd[k + 1] == rest[k]);
                assert(w[k + 1] == dd.take(w.len() as int)[k + 1]);
            }
        }
        lemma_debug_prefix(s, i + 1, w2);
        assert(s.subrange(i, i + w.len()) =~= seq![s[i]] + s.subrange(i + 1, i + 1 + w2.len()));
        assert(w =~= seq![w[0]] + w2);
    } else {
        assert(s.subrange(i, i) =~= w);
    }
}

/// A marker in the `Debug` rendering of `s` from `i` on is a marker of `s`.
proof fn lemma_debug_occurrence(s: Seq<char>, i: int, k: int)
    requires
        0 <= i <= s.len(),
        occurs_at(crate::strs::debug_chars(s, i), hash_marker(), k),
    ensures
        contains(s, hash_marker()),
    decreases s.len() - i,
{
    lemma_marker_chars();
    let m = hash_marker();
    let dd = crate::strs::debug_chars(s, i);
    assert(i < s.len());
    lemma_debug_char_shape(s, i);
    let d = crate::strs::debug_char(s, i);
    let rest = crate::strs::debug_chars(s, i + 1);
    assert(dd == d + rest);
    if k < d.len() {
        if k == 0 {
            assert(dd.take(11) =~= dd.subrange(0, 11));
            assert forall|j: int| 0 <= j < m.len() implies #[trigger] m[j] != '\\' by {}
            lemma_debug_prefix(s, i, m);
            assert(occurs_at(s, m, i));
            lemma_find_from_bound(s, m, 0);
            if find(s, m) < 0 {
                lemma_find_from_none_before(s, m, 0, i);
            }
        } else {
            assert(dd.subrange(k, k + 11)[0] == dd[k]);
            assert(dd[k] == d[k]);
        }
    } else {
        assert(rest.subrange(k - d.len(), k - d.len() + 11) =~= dd.subrange(k, k + 11));
        lemma_debug_occurrence(s, i + 1, k - d.len());
    }
}

/// A quoted string is anchored when the string holds no marker: escaping writes none.
pub proof fn lemma_dq_anchored(s: Seq<char>)
    requires
        marker_free(s),
    ensures
        anchored(debug_quoted(s)),
{
    let dd = crate::strs::debug_chars(s, 0);
    let m = hash_marker();
    lemma_find_from_bound(dd, m, 0);
    if find(dd, m) >= 0 {
        lemma_debug_occurrence(s, 0, find(dd, m));
    }
    let q = seq!['"'];
    lemma_cs_anchored(q);
    lemma_guard(q, dd, q);
    assert(debug_quoted(s) =~= q + dd + q);
}

/// An identifier holds no `:`, so it is anchored.
pub proof fn lemma_ident_an(s: Seq<char>)
    requires
        valid_ident(s),
    ensures
        anchored(s),
{
    assert forall|k: int| 0 <= k < s.len() implies s[k] != ':' by {
        if k > 0 {
            assert(crate::stubgen::ident_rest(s[k]));
        }
    }
}

/// Sixteen hexadecimal digits hold no marker.
pub proof fn lemma_hash_free(h: Seq<char>)
    requires
        crate::stub::is_hash16(h),
    ensures
        marker_free(h),
{
    assert forall|k: int| 0 <= k < h.len() implies #[trigger] h[k] != ':' by {
        assert(crate::stub::is_hex(h[k]));
    }
    lemma_anchored_free(h);
}


// ---------------------------------------------------------------- pieces

pub proof fn lemma_cs3(a: Seq<char>, b: Seq<char>, c: Seq<char>)
    requires
        anchored(a),
        anchored(b),
        anchored(c),
    ensures
        anchored(a + b + c),
{
    lemma_an_concat(a, b);
    lemma_an_concat(a + b, c);
}

pub proof fn lemma_cs4(a: Seq<char>, b: Seq<char>, c: Seq<char>, d: Seq<char>)
    requires
        anchored(a),
        anchored(b),
        anchored(c),
        anchored(d),
    ensures
        anchored(a + b + c + d),
{
    lemma_cs3(a, b, c);
    lemma_an_concat(a + b + c, d);
}

pub proof fn lemma_cs5(a: Seq<char>, b: Seq<char>, c: Seq<char>, d: Seq<char>, e: Seq<char>)
    requires
        anchored(a),
        anchored(b),
        anchored(c),
        anchored(d),
        anchored(e),
    ensures
        anchored(a + b + c + d + e),
{
    lemma_cs4(a, b, c, d);
    lemma_an_concat(a + b + c + d, e);
}

/// Every definition text is colon-safe.
pub open spec fn defs_cs(d: Defs) -> bool {
    forall|k: int| 0 <= k < d.len() ==> anchored(#[trigger] d[k].1)
}

pub proof fn lemma_ins_pair_cs(s: Defs, k: Seq<char>, v: Seq<char>)
    requires
        defs_cs(s),
        anchored(v),
    ensures
        defs_cs(ins_pair(s, k, v)),
    decreases s.len(),
{
    if s.len() > 0 && s[0].0 != k && !crate::strs::lex_lt(k, s[0].0) {
        let t = s.drop_first();
        assert forall|j: int| 0 <= j < t.len() implies anchored(#[trigger] t[j].1) by {
            assert(t[j] == s[j + 1]);
        }
        lemma_ins_pair_cs(t, k, v);
        let r = ins_pair(s, k, v);
        assert(r == seq![s[0]] + ins_pair(t, k, v));
        assert forall|j: int| 0 <= j < r.len() implies anchored(#[trigger] r[j].1) by {
            if j > 0 {
                assert(r[j] == ins_pair(t, k, v)[j - 1]);
            }
        }
    } else if s.len() > 0 && s[0].0 != k {
        let r = ins_pair(s, k, v);
        assert forall|j: int| 0 <= j < r.len() implies anchored(#[trigger] r[j].1) by {
            if j > 0 {
                assert(r[j] == s[j - 1]);
            }
        }
    }
}

// ---------------------------------------------------------------- enum values

/// No enum value anywhere in the type holds `:h` (the quoted values then hold none either).
pub open spec fn tv_quotable(t: TV) -> bool
    decreases h_tv(t), 0nat,
{
    &&& forall|k: int| 0 <= k < t.values.len() ==> marker_free(#[trigger] t.values[k]@)
    &&& match t.items {
        Some(s) => {
            proof {
                lemma_h_spec_pos(s);
            }
            tv_quotable(tv_spec(s))
        },
        None => true,
    }
    &&& specs_quotable(t.any_of)
    &&& fields_quotable(t.fields)
}

pub open spec fn specs_quotable(specs: Seq<TypeSpec>) -> bool
    decreases h_specs(specs), 1nat,
{
    if specs.len() == 0 {
        true
    } else {
        proof {
            lemma_h_spec_pos(specs.last());
        }
        specs_quotable(specs.drop_last()) && tv_quotable(tv_spec(specs.last()))
    }
}

pub open spec fn fields_quotable(fields: Seq<Field>) -> bool
    decreases h_fields(fields), 1nat,
{
    if fields.len() == 0 {
        true
    } else {
        proof {
            lemma_h_field(fields.last());
        }
        fields_quotable(fields.drop_last()) && tv_quotable(tv_field(fields.last()))
    }
}

proof fn lemma_enum_cs(lang: StubLang, values: Seq<Seq<char>>)
    requires
        forall|k: int| 0 <= k < values.len() ==> marker_free(#[trigger] values[k]),
    ensures
        anchored(enum_text(lang, values)),
{
    reveal_strlit("Literal[");
    reveal_strlit(", ");
    reveal_strlit("]");
    reveal_strlit(" | ");
    let qs = values.map_values(|v: Seq<char>| debug_quoted(v));
    assert forall|k: int| 0 <= k < qs.len() implies anchored(#[trigger] qs[k]) by {
        lemma_dq_anchored(values[k]);
    }
    lemma_an_join(qs, ", "@);
    lemma_an_join(qs, " | "@);
    lemma_cs3("Literal["@, join(qs, ", "@), "]"@);
}

proof fn lemma_scalar_cs(lang: StubLang, ty: TypeName)
    ensures
        anchored(scalar_text(lang, ty)),
{
    reveal_strlit("int");
    reveal_strlit("float");
    reveal_strlit("bool");
    reveal_strlit("str");
    reveal_strlit("number");
    reveal_strlit("boolean");
    reveal_strlit("string");
}

proof fn lemma_wrap_cs(lang: StubLang, ty: TypeName, inner: Seq<char>)
    requires
        anchored(inner),
    ensures
        anchored(wrap_items(lang, ty, inner)),
{
    reveal_strlit("list[");
    reveal_strlit("]");
    reveal_strlit("Array<");
    reveal_strlit(">");
    reveal_strlit("dict[str, ");
    reveal_strlit("Record<string, ");
    lemma_cs3("list["@, inner, "]"@);
    lemma_cs3("Array<"@, inner, ">"@);
    lemma_cs3("dict[str, "@, inner, "]"@);
    lemma_cs3("Record<string, "@, inner, ">"@);
}

proof fn lemma_field_line_cs(lang: StubLang, name: Seq<char>, required: bool, t: Seq<char>)
    requires
        valid_ident(name),
        anchored(t),
    ensures
        anchored(field_line(lang, name, required, t)),
{
    reveal_strlit("    ");
    reveal_strlit(": ");
    reveal_strlit(": NotRequired[");
    reveal_strlit("]");
    reveal_strlit("  ");
    reveal_strlit(";");
    reveal_strlit("?: ");
    lemma_ident_an(name);
    lemma_cs_anchored(": "@);
    lemma_cs_anchored(": NotRequired["@);
    lemma_cs_anchored("?: "@);
    lemma_cs4("    "@, name, ": "@, t);
    lemma_cs5("    "@, name, ": NotRequired["@, t, "]"@);
    lemma_cs5("  "@, name, ": "@, t, ";"@);
    lemma_cs5("  "@, name, "?: "@, t, ";"@);
}

proof fn lemma_record_body_cs(lang: StubLang, name: Seq<char>, lines: Seq<Seq<char>>)
    requires
        valid_ident(name),
        forall|k: int| 0 <= k < lines.len() ==> anchored(#[trigger] lines[k]),
    ensures
        anchored(record_body(lang, name, lines)),
{
    reveal_strlit("class ");
    reveal_strlit("(TypedDict):\n");
    reveal_strlit("    pass");
    reveal_strlit("\n");
    reveal_strlit("export interface ");
    reveal_strlit(" {\n");
    reveal_strlit("\n}");
    lemma_ident_an(name);
    lemma_an_join(lines, "\n"@);
    lemma_cs_anchored("(TypedDict):\n"@);
    lemma_cs4("class "@, name, "(TypedDict):\n"@, "    pass"@);
    lemma_cs4("class "@, name, "(TypedDict):\n"@, join(lines, "\n"@));
    lemma_cs5("export interface "@, name, " {\n"@, join(lines, "\n"@), "\n}"@);
}

// ---------------------------------------------------------------- type texts

/// A type's text and the definitions it adds hold no `:h` when its enum values hold none.
pub proof fn lemma_type_text_cs(lang: StubLang, owner: Seq<char>, path: Seq<char>, t: TV, defs: Defs)
    requires
        tv_quotable(t),
        defs_cs(defs),
    ensures
        type_text_of(lang, owner, path, t, defs) matches Ok(r) ==> anchored(r.0) && defs_cs(r.1),
    decreases h_tv(t), 0nat,
{
    match t.ty {
        TypeName::Enum => {
            let vs = views(t.values);
            assert forall|k: int| 0 <= k < vs.len() implies marker_free(#[trigger] vs[k]) by {
                assert(vs[k] == t.values[k]@);
            }
            lemma_enum_cs(lang, vs);
        },
        TypeName::Array | TypeName::Dict => {
            if let Some(s) = t.items {
                lemma_h_spec_pos(s);
                let sub = if t.ty == TypeName::Array { "Item"@ } else { "Value"@ };
                lemma_type_text_cs(lang, owner + sub, path + ".items"@, tv_spec(s), defs);
                if let Ok(r) = type_text_of(lang, owner + sub, path + ".items"@, tv_spec(s), defs) {
                    lemma_wrap_cs(lang, t.ty, r.0);
                }
            }
        },
        TypeName::Group => {
            lemma_record_cs(lang, owner, path, t.fields, defs);
            if let Ok(d2) = record_of(lang, owner, path, t.fields, defs) {
                lemma_ident_an(owner);
            }
        },
        TypeName::Union => {
            lemma_union_cs(lang, owner, path, t.any_of, defs);
            reveal_strlit(" | ");
            if let Ok(r) = union_of(lang, owner, path, t.any_of, defs) {
                lemma_an_join(r.0, " | "@);
            }
        },
        _ => {
            lemma_scalar_cs(lang, t.ty);
        },
    }
}

pub proof fn lemma_union_cs(lang: StubLang, owner: Seq<char>, path: Seq<char>, specs: Seq<TypeSpec>, defs: Defs)
    requires
        specs_quotable(specs),
        defs_cs(defs),
    ensures
        union_of(lang, owner, path, specs, defs) matches Ok(r) ==> (forall|k: int| 0 <= k < r.0.len() ==> anchored(#[trigger] r.0[k])) && defs_cs(r.1),
    decreases h_specs(specs), 1nat,
{
    if specs.len() > 0 {
        let i = specs.len() - 1;
        lemma_h_spec_pos(specs.last());
        lemma_union_cs(lang, owner, path, specs.drop_last(), defs);
        if let Ok(r) = union_of(lang, owner, path, specs.drop_last(), defs) {
            lemma_type_text_cs(
                lang,
                owner + "V"@ + crate::strs::decimal(i as nat),
                crate::stubgen::idx(path, "any_of"@, i),
                tv_spec(specs.last()),
                r.1,
            );
        }
    }
}

/// A record definition succeeds only under an identifier, and keeps the definitions colon-safe.
pub proof fn lemma_record_cs(lang: StubLang, name: Seq<char>, path: Seq<char>, fields: Seq<Field>, defs: Defs)
    requires
        fields_quotable(fields),
        defs_cs(defs),
    ensures
        record_of(lang, name, path, fields, defs) matches Ok(d2) ==> defs_cs(d2) && valid_ident(name),
    decreases h_fields(fields), 2nat,
{
    if crate::stub::get_pair(defs, name) is None && valid_ident(name) {
        lemma_ins_pair_cs(defs, name, seq![]);
        lemma_lines_cs(lang, name, path, fields, ins_pair(defs, name, seq![]));
        if let Ok(r) = lines_of(lang, name, path, fields, ins_pair(defs, name, seq![])) {
            lemma_record_body_cs(lang, name, r.0);
            lemma_ins_pair_cs(r.1, name, record_body(lang, name, r.0));
        }
    }
}

pub proof fn lemma_lines_cs(lang: StubLang, name: Seq<char>, path: Seq<char>, fields: Seq<Field>, defs: Defs)
    requires
        fields_quotable(fields),
        defs_cs(defs),
    ensures
        lines_of(lang, name, path, fields, defs) matches Ok(r) ==> (forall|k: int| 0 <= k < r.0.len() ==> anchored(#[trigger] r.0[k])) && defs_cs(r.1),
    decreases h_fields(fields), 1nat,
{
    if fields.len() > 0 {
        let i = fields.len() - 1;
        let f = fields.last();
        lemma_h_field(f);
        lemma_lines_cs(lang, name, path, fields.drop_last(), defs);
        if let Ok(r) = lines_of(lang, name, path, fields.drop_last(), defs) {
            if valid_ident(f.name@) {
                lemma_type_text_cs(lang, name + crate::stubgen::pascal(f.name@), crate::stubgen::idx(path, "fields"@, i), tv_field(f), r.1);
                if let Ok(x) = type_text_of(lang, name + crate::stubgen::pascal(f.name@), crate::stubgen::idx(path, "fields"@, i), tv_field(f), r.1) {
                    lemma_field_line_cs(lang, f.name@, f.required, x.0);
                }
            }
        }
    }
}

// ---------------------------------------------------------------- lines of a text

/// Lines split at a line break that ends the first text are the lines of each text.
pub proof fn lemma_lines_append(a: Seq<char>, b: Seq<char>)
    requires
        a.len() > 0,
        a.last() == '\n',
    ensures
        lines(a + b) == lines(a) + lines(b),
    decreases a.len(),
{
    let nl = seq!['\n'];
    let s = a + b;
    lemma_find_from_bound(a, nl, 0);
    if find(a, nl) < 0 {
        assert(a.subrange(a.len() - 1, a.len() as int) =~= nl);
        lemma_find_from_none_before(a, nl, 0, a.len() - 1);
    }
    let i = find(a, nl);
    assert forall|k: int| 0 <= k < i implies !occurs_at(s, nl, k) by {
        lemma_find_from_none_before(a, nl, 0, k);
        assert(s.subrange(k, k + 1) =~= a.subrange(k, k + 1));
    }
    assert(s.subrange(i, i + 1) =~= a.subrange(i, i + 1));
    lemma_find_first(s, nl, 0, i);
    assert(s.take(i) =~= a.take(i));
    assert(s.skip(i + 1) =~= a.skip(i + 1) + b);
    if i + 1 == a.len() {
        assert(a.skip(i + 1) + b =~= b);
        assert(lines(a.skip(i + 1)) =~= Seq::<Seq<char>>::empty()) by {
            assert(a.skip(i + 1).len() == 0);
        }
    } else {
        let r = a.skip(i + 1);
        assert(r.last() == a.last());
        lemma_lines_append(r, b);
    }
    assert(lines(a) == seq![strip_cr(a.take(i))] + lines(a.skip(i + 1)));
    assert(lines(s) == seq![strip_cr(s.take(i))] + lines(s.skip(i + 1)));
    assert(lines(s) =~= lines(a) + lines(b));
}

/// A line without line breaks, ended by one, is one line.
pub proof fn lemma_lines_one(s: Seq<char>)
    requires
        one_line(s),
    ensures
        lines(s + seq!['\n']) == seq![s],
{
    let nl = seq!['\n'];
    let t = s + nl;
    assert forall|k: int| 0 <= k < s.len() implies !occurs_at(t, nl, k) by {
        if occurs_at(t, nl, k) {
            assert(t.subrange(k, k + 1)[0] == t[k]);
        }
    }
    assert(t.subrange(s.len() as int, s.len() + 1 as int) =~= nl);
    lemma_find_first(t, nl, 0, s.len() as int);
    assert(t.take(s.len() as int) =~= s);
    assert(t.skip(s.len() + 1 as int) =~= Seq::<char>::empty());
    assert(lines(Seq::<char>::empty()) =~= Seq::<Seq<char>>::empty());
    if s.len() > 0 {
        assert(s.last() == s[s.len() - 1]);
    }
    assert(strip_cr(s) == s);
    assert(lines(t) =~= seq![s]);
}

/// A text without a hash marker carries none on any line either: first, the text itself.
pub proof fn lemma_no_marker(l: Seq<char>)
    requires
        marker_free(l),
    ensures
        marker_segment(l, hash_marker()) is None,
{
}

/// No line of a text without a hash marker carries one.
pub proof fn lemma_lines_no_marker(s: Seq<char>)
    requires
        marker_free(s),
    ensures
        forall|k: int| 0 <= k < lines(s).len() ==> marker_segment(#[trigger] lines(s)[k], hash_marker()) is None,
    decreases s.len(),
{
    if s.len() > 0 {
        let nl = seq!['\n'];
        lemma_find_from_bound(s, nl, 0);
        let i = find(s, nl);
        if i < 0 {
            lemma_no_marker(s);
            assert(lines(s) == seq![s]);
        } else {
            let head = s.take(i);
            assert(head =~= s.subrange(0, i));
            lemma_free_subrange(s, 0, i);
            if head.len() > 0 && head.last() == '\r' {
                assert(head.drop_last() =~= s.subrange(0, i - 1));
                lemma_free_subrange(s, 0, i - 1);
            }
            lemma_no_marker(strip_cr(head));
            assert(s.skip(i + 1) =~= s.subrange(i + 1, s.len() as int));
            lemma_free_subrange(s, i + 1, s.len() as int);
            lemma_lines_no_marker(s.skip(i + 1));
            let ls = lines(s);
            assert(ls == seq![strip_cr(head)] + lines(s.skip(i + 1)));
            assert forall|k: int| 0 <= k < ls.len() implies marker_segment(#[trigger] ls[k], hash_marker()) is None by {
                if k > 0 {
                    assert(ls[k] == lines(s.skip(i + 1))[k - 1]);
                }
            }
        }
    }
}

/// Lines without a hash marker, appended, change no marker read.
pub proof fn lemma_markers_of_plain(ls: Seq<Seq<char>>, extra: Seq<Seq<char>>)
    requires
        forall|k: int| 0 <= k < extra.len() ==> marker_segment(#[trigger] extra[k], hash_marker()) is None,
    ensures
        markers_of(ls + extra) == markers_of(ls),
    decreases extra.len(),
{
    if extra.len() == 0 {
        assert(ls + extra =~= ls);
    } else {
        let e2 = extra.drop_last();
        assert forall|k: int| 0 <= k < e2.len() implies marker_segment(#[trigger] e2[k], hash_marker()) is None by {
            assert(e2[k] == extra[k]);
        }
        lemma_markers_of_plain(ls, e2);
        let all = ls + extra;
        assert(all.drop_last() =~= ls + e2);
        assert(all.last() == extra[extra.len() - 1]);
    }
}

// ---------------------------------------------------------------- the marker header

proof fn lemma_marker_lines_end(comment: Seq<char>, hashes: Defs)
    requires
        hashes.len() > 0,
    ensures
        marker_lines(comment, hashes).len() > 0,
        marker_lines(comment, hashes).last() == '\n',
{
    reveal_strlit("\n");
    let e = hashes.last();
    let l = marker_line(comment, e.0, e.1);
    assert(l.last() == '\n');
    assert(marker_lines(comment, hashes) == marker_lines(comment, hashes.drop_last()) + l);
}

/// The hash lines of a header are its entries' marker texts.
pub proof fn lemma_marker_lines_lines(comment: Seq<char>, hashes: Defs)
    requires
        crate::stub::comment_ok(comment),
        forall|k: int| 0 <= k < hashes.len() ==> markable(#[trigger] hashes[k].0, hashes[k].1),
    ensures
        lines(marker_lines(comment, hashes)) == marker_texts(comment, hashes),
    decreases hashes.len(),
{
    if hashes.len() == 0 {
        assert(lines(marker_lines(comment, hashes)) =~= Seq::<Seq<char>>::empty()) by {
            assert(marker_lines(comment, hashes).len() == 0);
        }
        assert(marker_texts(comment, hashes) =~= Seq::<Seq<char>>::empty());
    } else {
        let h2 = hashes.drop_last();
        assert forall|k: int| 0 <= k < h2.len() implies markable(#[trigger] h2[k].0, h2[k].1) by {
            assert(h2[k] == hashes[k]);
        }
        lemma_marker_lines_lines(comment, h2);
        let e = hashes.last();
        assert(markable(hashes[hashes.len() - 1].0, hashes[hashes.len() - 1].1));
        marker_line_reads_back(seq![], comment, e.0, e.1, 0);
        let l = marker_line(comment, e.0, e.1);
        assert(marker_lines(comment, hashes) == marker_lines(comment, h2) + l);
        if h2.len() > 0 {
            lemma_marker_lines_end(comment, h2);
            lemma_lines_append(marker_lines(comment, h2), l);
        } else {
            assert(marker_lines(comment, h2) + l =~= l) by {
                assert(marker_lines(comment, h2).len() == 0);
            }
        }
        assert(marker_texts(comment, hashes) =~= marker_texts(comment, h2).push(marker_text(comment, e.0, e.1)));
    }
}

/// Every key of a list before a larger one: it goes last, as a new key.
proof fn lemma_ins_pair_last(s: Defs, k: Seq<char>, v: Seq<char>)
    requires
        forall|j: int| 0 <= j < s.len() ==> lex_lt(#[trigger] s[j].0, k),
    ensures
        ins_pair(s, k, v) == s.push((k, v)),
        get_pair(s, k) is None,
    decreases s.len(),
{
    if s.len() == 0 {
        assert(seq![(k, v)] =~= s.push((k, v)));
    } else {
        let t = s.drop_first();
        assert forall|j: int| 0 <= j < t.len() implies lex_lt(#[trigger] t[j].0, k) by {
            assert(t[j] == s[j + 1]);
        }
        lemma_ins_pair_last(t, k, v);
        assert(lex_lt(s[0].0, k));
        lemma_lex_irreflexive(k);
        if lex_lt(k, s[0].0) {
            lemma_lex_transitive(k, s[0].0, k);
        }
        assert(seq![s[0]] + t.push((k, v)) =~= s.push((k, v)));
    }
}

/// An identity line without a hash marker followed by the hash lines of ordered entries
/// reads back as exactly those entries.
pub proof fn lemma_header_markers(comment: Seq<char>, id: Seq<char>, hashes: Defs)
    requires
        crate::stub::comment_ok(comment),
        marker_segment(id, hash_marker()) is None,
        keys_sorted(hashes),
        forall|k: int| 0 <= k < hashes.len() ==> markable(#[trigger] hashes[k].0, hashes[k].1),
    ensures
        markers_of(seq![id] + marker_texts(comment, hashes)) == Ok::<Defs, crate::diag::DiagView>(hashes),
    decreases hashes.len(),
{
    let ls = seq![id] + marker_texts(comment, hashes);
    if hashes.len() == 0 {
        assert(ls =~= seq![id]);
        assert(ls.drop_last() =~= Seq::<Seq<char>>::empty());
        assert(hashes =~= Seq::<(Seq<char>, Seq<char>)>::empty());
        assert(markers_of(ls.drop_last()) == Ok::<Defs, crate::diag::DiagView>(seq![]));
        assert(ls.last() == id);
    } else {
        let h2 = hashes.drop_last();
        let ks = pair_keys(hashes);
        assert(pair_keys(h2) =~= ks.drop_last());
        assert forall|i: int, j: int| 0 <= i < j < pair_keys(h2).len() implies lex_lt(pair_keys(h2)[i], pair_keys(h2)[j]) by {
            assert(pair_keys(h2)[i] == ks[i] && pair_keys(h2)[j] == ks[j]);
        }
        assert forall|k: int| 0 <= k < h2.len() implies markable(#[trigger] h2[k].0, h2[k].1) by {
            assert(h2[k] == hashes[k]);
        }
        lemma_header_markers(comment, id, h2);
        assert(ls.drop_last() =~= seq![id] + marker_texts(comment, h2));
        let e = hashes.last();
        assert forall|j: int| 0 <= j < h2.len() implies lex_lt(#[trigger] h2[j].0, e.0) by {
            assert(ks[j] == h2[j].0);
            assert(ks[hashes.len() - 1] == e.0);
        }
        lemma_ins_pair_last(h2, e.0, e.1);
        assert(markable(hashes[hashes.len() - 1].0, hashes[hashes.len() - 1].1));
        marker_line_reads_back(h2, comment, e.0, e.1, ls.len() - 1);
        assert(ls.last() == marker_text(comment, e.0, e.1));
        assert(h2.push((e.0, e.1)) =~= hashes);
        assert(markers_of(ls.drop_last()) == Ok::<Defs, crate::diag::DiagView>(h2));
        assert(markers_of(ls) == marker_step(h2, ls.last(), ls.len() - 1));
    }
}

/// An identity line carries no hash marker when neither its kind nor its name does.
pub proof fn lemma_id_line_no_marker(comment: Seq<char>, kind: Seq<char>, name: Seq<char>)
    requires
        crate::stub::comment_ok(comment),
        !contains(kind, hash_marker()),
        !contains(name, hash_marker()),
    ensures
        marker_segment(id_line(comment, kind, name), hash_marker()) is None,
{
    reveal_strlit("#");
    reveal_strlit("//");
    reveal_strlit(" sahou:stub ");
    reveal_strlit("=");
    reveal_strlit("sahou:hash ");
    let m = hash_marker();
    let l = id_line(comment, kind, name);
    let cl: int = comment.len() as int;
    let p0: int = cl + 12;
    let kl: int = kind.len() as int;
    let lit = " sahou:stub "@;
    reveal_strlit(" ");
    assert(lit.len() == 12);
    assert(l.len() == p0 + kl + 1 + name.len());
    assert forall|q: int| 0 <= q < cl implies l[q] == comment[q] by {}
    assert forall|q: int| cl <= q < p0 implies l[q] == lit[q - cl] by {}
    assert forall|q: int| p0 <= q < p0 + kl implies l[q] == kind[q - p0] by {}
    assert(l[p0 + kl] == '=');
    assert forall|k: int| 0 <= k implies !occurs_at(l, m, k) by {
        if occurs_at(l, m, k) {
            let w = l.subrange(k, k + 11);
            assert(w == m);
            let cs = comment + " "@;
            if k + 11 <= cl + 1 {
                assert(cs.subrange(k, k + 11) =~= w);
                crate::stub::lemma_no_occurrence(cs, m, k);
            } else if k <= cl {
                assert(w[cl - k] == l[cl]);
                assert(l[cl] == lit[0]);
            } else if k + 11 <= p0 {
                assert(w[5] == l[k + 5]);
                assert(w[6] == l[k + 6]);
                assert(l[k + 5] == lit[k + 5 - cl]);
                assert(l[k + 6] == lit[k + 6 - cl]);
            } else if k < p0 {
                assert(w[p0 - 1 - k] == l[p0 - 1]);
                assert(l[p0 - 1] == lit[11]);
            } else if k + 11 <= p0 + kl {
                assert(kind.subrange(k - p0, k - p0 + 11) =~= w);
                crate::stub::lemma_no_occurrence(kind, m, k - p0);
            } else if k <= p0 + kl {
                assert(w[p0 + kl - k] == l[p0 + kl]);
            } else {
                let b = p0 + kl + 1;
                assert(name.subrange(k - b, k - b + 11) =~= w);
                crate::stub::lemma_no_occurrence(name, m, k - b);
            }
        }
    }
    lemma_find_none(l, m, 0);
}

/// An identity line of one-line pieces is one line.
proof fn lemma_id_line_one(comment: Seq<char>, kind: Seq<char>, name: Seq<char>)
    requires
        crate::stub::comment_ok(comment),
        one_line(kind),
        one_line(name),
    ensures
        one_line(id_line(comment, kind, name)),
{
    reveal_strlit("#");
    reveal_strlit("//");
    reveal_strlit(" sahou:stub ");
    reveal_strlit("=");
    let l = id_line(comment, kind, name);
    let cl: int = comment.len() as int;
    let p0: int = cl + 12;
    let kl: int = kind.len() as int;
    let lit = " sahou:stub "@;
    assert forall|q: int| 0 <= q < l.len() implies #[trigger] l[q] != '\n' && l[q] != '\r' by {
        if q < cl {
            assert(l[q] == comment[q]);
        } else if q < p0 {
            assert(l[q] == lit[q - cl]);
        } else if q < p0 + kl {
            assert(l[q] == kind[q - p0]);
        } else if q == p0 + kl {
        } else {
            assert(l[q] == name[q - p0 - kl - 1]);
        }
    }
}

/// The lines and the hash markers of a stub header followed by text without `:h`.
pub proof fn lemma_header_then_plain(comment: Seq<char>, kind: Seq<char>, name: Seq<char>, hashes: Defs, body: Seq<char>)
    requires
        crate::stub::comment_ok(comment),
        one_line(kind),
        one_line(name),
        !contains(kind, hash_marker()),
        !contains(name, hash_marker()),
        keys_sorted(hashes),
        forall|k: int| 0 <= k < hashes.len() ==> markable(#[trigger] hashes[k].0, hashes[k].1),
        marker_free(body),
    ensures
        lines(markers(comment, kind, name, hashes)) == seq![id_line(comment, kind, name)] + marker_texts(comment, hashes),
        lines(markers(comment, kind, name, hashes) + body) == seq![id_line(comment, kind, name)] + marker_texts(comment, hashes) + lines(body),
        markers_of(lines(markers(comment, kind, name, hashes) + body)) == Ok::<Defs, crate::diag::DiagView>(hashes),
{
    reveal_strlit("\n");
    let id = id_line(comment, kind, name);
    let head = id + seq!['\n'];
    let ml = marker_lines(comment, hashes);
    let text = markers(comment, kind, name, hashes);
    assert(text =~= head + ml);
    lemma_id_line_one(comment, kind, name);
    lemma_lines_one(id);
    lemma_lines_append(head, ml);
    lemma_marker_lines_lines(comment, hashes);
    assert(text.last() == '\n') by {
        if hashes.len() > 0 {
            lemma_marker_lines_end(comment, hashes);
            assert(text.last() == ml.last());
        } else {
            assert(ml.len() == 0);
            assert(text =~= head);
        }
    }
    lemma_lines_append(text, body);
    lemma_id_line_no_marker(comment, kind, name);
    lemma_header_markers(comment, id, hashes);
    lemma_lines_no_marker(body);
    lemma_markers_of_plain(lines(text), lines(body));
}

// ---------------------------------------------------------------- the text around the header

/// Every text of the list is colon-safe.
pub open spec fn all_cs(v: Seq<Seq<char>>) -> bool {
    forall|k: int| 0 <= k < v.len() ==> anchored(#[trigger] v[k])
}

proof fn lemma_all_cs_concat(x: Seq<Seq<char>>, y: Seq<Seq<char>>)
    requires
        all_cs(x),
        all_cs(y),
    ensures
        all_cs(x + y),
{
    assert forall|k: int| 0 <= k < (x + y).len() implies anchored(#[trigger] (x + y)[k]) by {
        if k < x.len() {
            assert((x + y)[k] == x[k]);
        } else {
            assert((x + y)[k] == y[k - x.len()]);
        }
    }
}

pub proof fn lemma_hash_entries_cs(indent: Seq<char>, hashes: Defs)
    requires
        anchored(indent),
        forall|k: int| 0 <= k < hashes.len() ==> marker_free(#[trigger] hashes[k].0) && marker_free(hashes[k].1),
    ensures
        anchored(hash_entries(indent, hashes)),
{
    reveal_strlit(": ");
    reveal_strlit(",");
    reveal_strlit("\n");
    let es = hashes.map_values(|e: (Seq<char>, Seq<char>)| hash_entry(indent, e.0, e.1));
    assert forall|k: int| 0 <= k < es.len() implies anchored(#[trigger] es[k]) by {
        let e = hashes[k];
        lemma_dq_anchored(e.0);
        lemma_dq_anchored(e.1);
        lemma_cs_anchored(": "@);
        lemma_cs5(indent, debug_quoted(e.0), ": "@, debug_quoted(e.1), ","@);
    }
    lemma_an_join(es, "\n"@);
}

pub proof fn lemma_defs_text_cs(defs: Defs)
    requires
        defs_cs(defs),
    ensures
        anchored(defs_text(defs)),
{
    reveal_strlit("\n\n");
    let vs = defs.map_values(|e: (Seq<char>, Seq<char>)| e.1);
    assert forall|k: int| 0 <= k < vs.len() implies anchored(#[trigger] vs[k]) by {
        assert(vs[k] == defs[k].1);
    }
    lemma_an_join(vs, "\n\n"@);
}

proof fn lemma_py_method_cs(sigs: Seq<Seq<char>>)
    requires
        all_cs(sigs),
    ensures
        anchored(py_method(sigs)),
{
    reveal_strlit("    @overload\n");
    reveal_strlit("\n");
    let o = "    @overload\n"@;
    lemma_cs_anchored(o);
    if sigs.len() != 1 {
        let ps = sigs.map_values(|s: Seq<char>| "    @overload\n"@ + s);
        assert forall|k: int| 0 <= k < ps.len() implies anchored(#[trigger] ps[k]) by {
            lemma_an_concat(o, sigs[k]);
        }
        lemma_an_join(ps, "\n"@);
    }
}

/// The connection names hold no `:h` and the type texts are colon-safe.
pub open spec fn pairs_cs(ps: Defs) -> bool {
    forall|k: int| 0 <= k < ps.len() ==> marker_free(#[trigger] ps[k].0) && anchored(ps[k].1)
}

pub open spec fn trips_cs(qs: Seq<(Seq<char>, Seq<char>, Seq<char>)>) -> bool {
    forall|k: int| 0 <= k < qs.len() ==> marker_free(#[trigger] qs[k].0) && anchored(qs[k].1) && anchored(qs[k].2)
}

pub open spec fn sigs_cs(s: SigsView) -> bool {
    pairs_cs(s.publishes) && pairs_cs(s.subscribes) && trips_cs(s.queries) && trips_cs(s.answers)
}

proof fn lemma_py_sub_sigs_cs(ps: Defs)
    requires
        pairs_cs(ps),
    ensures
        all_cs(py_sub_sigs(ps)),
    decreases ps.len(),
{
    if ps.len() > 0 {
        let p2 = ps.drop_last();
        assert forall|k: int| 0 <= k < p2.len() implies marker_free(#[trigger] p2[k].0) && anchored(p2[k].1) by {
            assert(p2[k] == ps[k]);
        }
        lemma_py_sub_sigs_cs(p2);
        let e = ps.last();
        assert(marker_free(ps[ps.len() - 1].0));
        lemma_py_sub_sig_a_an(e.0, e.1);
        lemma_py_sub_sig_b_an(e.0, e.1);
        let two = seq![py_sub_sig_a(e.0, e.1), py_sub_sig_b(e.0, e.1)];
        assert(all_cs(two));
        lemma_all_cs_concat(py_sub_sigs(p2), two);
    }
}

proof fn lemma_ts_query_lines_cs(qs: Seq<(Seq<char>, Seq<char>, Seq<char>)>)
    requires
        trips_cs(qs),
    ensures
        all_cs(ts_query_lines(qs)),
    decreases qs.len(),
{
    if qs.len() > 0 {
        let q2 = qs.drop_last();
        assert forall|k: int| 0 <= k < q2.len() implies marker_free(#[trigger] q2[k].0) && anchored(q2[k].1) && anchored(q2[k].2) by {
            assert(q2[k] == qs[k]);
        }
        lemma_ts_query_lines_cs(q2);
        let e = qs.last();
        assert(marker_free(qs[qs.len() - 1].0));
        lemma_ts_query_line_an(e.0, e.1, e.2);
        lemma_ts_qc_line_an(e.0, e.1, e.2);
        let two = seq![ts_query_line(e.0, e.1, e.2), ts_qc_line(e.0, e.1, e.2)];
        assert(all_cs(two));
        lemma_all_cs_concat(ts_query_lines(q2), two);
    }
}

pub proof fn lemma_py_facade_cs(name: Seq<char>, s: SigsView)
    requires
        valid_ident(name),
        sigs_cs(s),
    ensures
        anchored(py_facade(name, s)),
{
    reveal_strlit("class ");
    reveal_strlit("(Protocol):\n");
    reveal_strlit("\n");
    reveal_strlit("    def on_reject(self, cb: _OnReject) -> None: ...");
    reveal_strlit("    def connection_info(self, conn: str) -> dict[str, str]: ...");
    reveal_strlit("    def close(self) -> None: ...");
    let pubs = s.publishes.map_values(|e: (Seq<char>, Seq<char>)| py_pub_sig(e.0, e.1));
    assert forall|k: int| 0 <= k < pubs.len() implies anchored(#[trigger] pubs[k]) by {
        assert(marker_free(s.publishes[k].0));
        lemma_py_pub_sig_an(s.publishes[k].0, s.publishes[k].1);
    }
    let qa = s.queries.map_values(|e: (Seq<char>, Seq<char>, Seq<char>)| py_query_sig(e.0, e.1));
    assert forall|k: int| 0 <= k < qa.len() implies anchored(#[trigger] qa[k]) by {
        assert(marker_free(s.queries[k].0));
        lemma_py_query_sig_an(s.queries[k].0, s.queries[k].1);
    }
    let qb = s.queries.map_values(|e: (Seq<char>, Seq<char>, Seq<char>)| py_qc_sig(e.0, e.1, e.2));
    assert forall|k: int| 0 <= k < qb.len() implies anchored(#[trigger] qb[k]) by {
        assert(marker_free(s.queries[k].0));
        lemma_py_qc_sig_an(s.queries[k].0, s.queries[k].1, s.queries[k].2);
    }
    let ans = s.answers.map_values(|e: (Seq<char>, Seq<char>, Seq<char>)| py_answer_sig(e.0, e.1, e.2));
    assert forall|k: int| 0 <= k < ans.len() implies anchored(#[trigger] ans[k]) by {
        assert(marker_free(s.answers[k].0));
        lemma_py_answer_sig_an(s.answers[k].0, s.answers[k].1, s.answers[k].2);
    }
    lemma_py_method_cs(pubs);
    lemma_py_sub_sigs_cs(s.subscribes);
    lemma_py_method_cs(py_sub_sigs(s.subscribes));
    lemma_py_method_cs(qa);
    lemma_py_method_cs(qb);
    lemma_py_method_cs(ans);
    let x1: Seq<Seq<char>> = if s.publishes.len() > 0 { seq![py_method(pubs)] } else { seq![] };
    let x2: Seq<Seq<char>> = if s.subscribes.len() > 0 { seq![py_method(py_sub_sigs(s.subscribes))] } else { seq![] };
    let x3: Seq<Seq<char>> = if s.queries.len() > 0 { seq![py_method(qa), py_method(qb)] } else { seq![] };
    let x4: Seq<Seq<char>> = if s.answers.len() > 0 { seq![py_method(ans)] } else { seq![] };
    let t = py_tail();
    lemma_cs_anchored(t[0]);
    lemma_cs_anchored(t[1]);
    lemma_cs_anchored(t[2]);
    assert(all_cs(t));
    assert(all_cs(x1) && all_cs(x2) && all_cs(x3) && all_cs(x4));
    lemma_all_cs_concat(x1, x2);
    lemma_all_cs_concat(x1 + x2, x3);
    lemma_all_cs_concat(x1 + x2 + x3, x4);
    lemma_all_cs_concat(x1 + x2 + x3 + x4, t);
    assert(py_methods(s) == x1 + x2 + x3 + x4 + t);
    lemma_an_join(py_methods(s), "\n"@);
    lemma_ident_an(name);
    lemma_cs_anchored("(Protocol):\n"@);
    lemma_cs4("class "@, name, "(Protocol):\n"@, join(py_methods(s), "\n"@));
}

pub proof fn lemma_ts_facade_cs(name: Seq<char>, s: SigsView)
    requires
        valid_ident(name),
        sigs_cs(s),
    ensures
        anchored(ts_facade(name, s)),
{
    reveal_strlit("export interface ");
    reveal_strlit(" {\n");
    reveal_strlit("\n");
    reveal_strlit("\n}");
    reveal_strlit("  onReject(cb: OnReject): void;");
    reveal_strlit("  connectionInfo(conn: string): { key: string; hash: string };");
    reveal_strlit("  close(): Promise<void>;");
    let pubs = s.publishes.map_values(|e: (Seq<char>, Seq<char>)| ts_pub_line(e.0, e.1));
    assert forall|k: int| 0 <= k < pubs.len() implies anchored(#[trigger] pubs[k]) by {
        assert(marker_free(s.publishes[k].0));
        lemma_ts_pub_line_an(s.publishes[k].0, s.publishes[k].1);
    }
    let subs = s.subscribes.map_values(|e: (Seq<char>, Seq<char>)| ts_sub_line(e.0, e.1));
    assert forall|k: int| 0 <= k < subs.len() implies anchored(#[trigger] subs[k]) by {
        assert(marker_free(s.subscribes[k].0));
        lemma_ts_sub_line_an(s.subscribes[k].0, s.subscribes[k].1);
    }
    let ans = s.answers.map_values(|e: (Seq<char>, Seq<char>, Seq<char>)| ts_answer_line(e.0, e.1, e.2));
    assert forall|k: int| 0 <= k < ans.len() implies anchored(#[trigger] ans[k]) by {
        assert(marker_free(s.answers[k].0));
        lemma_ts_answer_line_an(s.answers[k].0, s.answers[k].1, s.answers[k].2);
    }
    lemma_ts_query_lines_cs(s.queries);
    let t = ts_tail();
    lemma_cs_anchored(t[0]);
    lemma_cs_anchored(t[1]);
    lemma_cs_anchored(t[2]);
    assert(all_cs(t));
    assert(all_cs(pubs) && all_cs(subs) && all_cs(ans));
    lemma_all_cs_concat(pubs, subs);
    lemma_all_cs_concat(pubs + subs, ts_query_lines(s.queries));
    lemma_all_cs_concat(pubs + subs + ts_query_lines(s.queries), ans);
    lemma_all_cs_concat(pubs + subs + ts_query_lines(s.queries) + ans, t);
    assert(ts_methods(s) == pubs + subs + ts_query_lines(s.queries) + ans + t);
    lemma_an_join(ts_methods(s), "\n"@);
    lemma_ident_an(name);
    lemma_cs5("export interface "@, name, " {\n"@, join(ts_methods(s), "\n"@), "\n}"@);
}

pub proof fn lemma_py_pub_sig_an(c: Seq<char>, t: Seq<char>)
    requires
        marker_free(c),
        anchored(t),
    ensures
        anchored(py_pub_sig(c, t)),
{
    reveal_strlit("    def publish(self, conn: Literal[");
    let l1 = "    def publish(self, conn: Literal["@;
    lemma_cs_anchored(l1);
    reveal_strlit("], payload: ");
    let l2 = "], payload: "@;
    lemma_cs_anchored(l2);
    reveal_strlit(") -> None: ...");
    let l3 = ") -> None: ..."@;
    lemma_cs_anchored(l3);
    lemma_dq_anchored(c);
    let q = debug_quoted(c);
    lemma_an_concat(l1, q);
    let a1 = l1 + q;
    lemma_an_concat(a1, l2);
    let a2 = a1 + l2;
    lemma_an_concat(a2, t);
    let a3 = a2 + t;
    lemma_an_concat(a3, l3);
    let a4 = a3 + l3;
    assert(py_pub_sig(c, t) =~= a4);
}

pub proof fn lemma_py_sub_sig_a_an(c: Seq<char>, t: Seq<char>)
    requires
        marker_free(c),
        anchored(t),
    ensures
        anchored(py_sub_sig_a(c, t)),
{
    reveal_strlit("    def subscribe(self, conn: Literal[");
    let l1 = "    def subscribe(self, conn: Literal["@;
    lemma_cs_anchored(l1);
    reveal_strlit("], handler: Callable[[");
    let l2 = "], handler: Callable[["@;
    lemma_cs_anchored(l2);
    reveal_strlit("], object], *, on_reject: _OnReject | None = ...) -> Callable[[");
    let l3 = "], object], *, on_reject: _OnReject | None = ...) -> Callable[["@;
    lemma_cs_anchored(l3);
    reveal_strlit("], object]: ...");
    let l4 = "], object]: ..."@;
    lemma_cs_anchored(l4);
    lemma_dq_anchored(c);
    let q = debug_quoted(c);
    lemma_an_concat(l1, q);
    let a1 = l1 + q;
    lemma_an_concat(a1, l2);
    let a2 = a1 + l2;
    lemma_an_concat(a2, t);
    let a3 = a2 + t;
    lemma_an_concat(a3, l3);
    let a4 = a3 + l3;
    lemma_an_concat(a4, t);
    let a5 = a4 + t;
    lemma_an_concat(a5, l4);
    let a6 = a5 + l4;
    assert(py_sub_sig_a(c, t) =~= a6);
}

pub proof fn lemma_py_sub_sig_b_an(c: Seq<char>, t: Seq<char>)
    requires
        marker_free(c),
        anchored(t),
    ensures
        anchored(py_sub_sig_b(c, t)),
{
    reveal_strlit("    def subscribe(self, conn: Literal[");
    let l1 = "    def subscribe(self, conn: Literal["@;
    lemma_cs_anchored(l1);
    reveal_strlit("], handler: None = ..., *, on_reject: _OnReject | None = ...) -> Callable[[Callable[[");
    let l2 = "], handler: None = ..., *, on_reject: _OnReject | None = ...) -> Callable[[Callable[["@;
    lemma_cs_anchored(l2);
    reveal_strlit("], object]], Callable[[");
    let l3 = "], object]], Callable[["@;
    lemma_cs_anchored(l3);
    reveal_strlit("], object]]: ...");
    let l4 = "], object]]: ..."@;
    lemma_cs_anchored(l4);
    lemma_dq_anchored(c);
    let q = debug_quoted(c);
    lemma_an_concat(l1, q);
    let a1 = l1 + q;
    lemma_an_concat(a1, l2);
    let a2 = a1 + l2;
    lemma_an_concat(a2, t);
    let a3 = a2 + t;
    lemma_an_concat(a3, l3);
    let a4 = a3 + l3;
    lemma_an_concat(a4, t);
    let a5 = a4 + t;
    lemma_an_concat(a5, l4);
    let a6 = a5 + l4;
    assert(py_sub_sig_b(c, t) =~= a6);
}

pub proof fn lemma_py_query_sig_an(c: Seq<char>, req: Seq<char>)
    requires
        marker_free(c),
        anchored(req),
    ensures
        anchored(py_query_sig(c, req)),
{
    reveal_strlit("    def query(self, conn: Literal[");
    let l1 = "    def query(self, conn: Literal["@;
    lemma_cs_anchored(l1);
    reveal_strlit("], payload: ");
    let l2 = "], payload: "@;
    lemma_cs_anchored(l2);
    reveal_strlit(", timeout: float = ...) -> dict[str, object]: ...");
    let l3 = ", timeout: float = ...) -> dict[str, object]: ..."@;
    lemma_cs_anchored(l3);
    lemma_dq_anchored(c);
    let q = debug_quoted(c);
    lemma_an_concat(l1, q);
    let a1 = l1 + q;
    lemma_an_concat(a1, l2);
    let a2 = a1 + l2;
    lemma_an_concat(a2, req);
    let a3 = a2 + req;
    lemma_an_concat(a3, l3);
    let a4 = a3 + l3;
    assert(py_query_sig(c, req) =~= a4);
}

pub proof fn lemma_py_qc_sig_an(c: Seq<char>, req: Seq<char>, resp: Seq<char>)
    requires
        marker_free(c),
        anchored(req),
        anchored(resp),
    ensures
        anchored(py_qc_sig(c, req, resp)),
{
    reveal_strlit("    def query_confirmed(self, conn: Literal[");
    let l1 = "    def query_confirmed(self, conn: Literal["@;
    lemma_cs_anchored(l1);
    reveal_strlit("], payload: ");
    let l2 = "], payload: "@;
    lemma_cs_anchored(l2);
    reveal_strlit(", *, timeout: float = ..., retries: int = ..., backoff: float = ...) -> ");
    let l3 = ", *, timeout: float = ..., retries: int = ..., backoff: float = ...) -> "@;
    lemma_cs_anchored(l3);
    reveal_strlit(": ...");
    let l4 = ": ..."@;
    lemma_cs_anchored(l4);
    lemma_dq_anchored(c);
    let q = debug_quoted(c);
    lemma_an_concat(l1, q);
    let a1 = l1 + q;
    lemma_an_concat(a1, l2);
    let a2 = a1 + l2;
    lemma_an_concat(a2, req);
    let a3 = a2 + req;
    lemma_an_concat(a3, l3);
    let a4 = a3 + l3;
    lemma_an_concat(a4, resp);
    let a5 = a4 + resp;
    lemma_an_concat(a5, l4);
    let a6 = a5 + l4;
    assert(py_qc_sig(c, req, resp) =~= a6);
}

pub proof fn lemma_py_answer_sig_an(c: Seq<char>, req: Seq<char>, resp: Seq<char>)
    requires
        marker_free(c),
        anchored(req),
        anchored(resp),
    ensures
        anchored(py_answer_sig(c, req, resp)),
{
    reveal_strlit("    def answer(self, conn: Literal[");
    let l1 = "    def answer(self, conn: Literal["@;
    lemma_cs_anchored(l1);
    reveal_strlit("], fn: Callable[[");
    let l2 = "], fn: Callable[["@;
    lemma_cs_anchored(l2);
    reveal_strlit("], ");
    let l3 = "], "@;
    lemma_cs_anchored(l3);
    reveal_strlit("]) -> Callable[[");
    let l4 = "]) -> Callable[["@;
    lemma_cs_anchored(l4);
    reveal_strlit("]: ...");
    let l5 = "]: ..."@;
    lemma_cs_anchored(l5);
    lemma_dq_anchored(c);
    let q = debug_quoted(c);
    lemma_an_concat(l1, q);
    let a1 = l1 + q;
    lemma_an_concat(a1, l2);
    let a2 = a1 + l2;
    lemma_an_concat(a2, req);
    let a3 = a2 + req;
    lemma_an_concat(a3, l3);
    let a4 = a3 + l3;
    lemma_an_concat(a4, resp);
    let a5 = a4 + resp;
    lemma_an_concat(a5, l4);
    let a6 = a5 + l4;
    lemma_an_concat(a6, req);
    let a7 = a6 + req;
    lemma_an_concat(a7, l3);
    let a8 = a7 + l3;
    lemma_an_concat(a8, resp);
    let a9 = a8 + resp;
    lemma_an_concat(a9, l5);
    let a10 = a9 + l5;
    assert(py_answer_sig(c, req, resp) =~= a10);
}

pub proof fn lemma_ts_pub_line_an(c: Seq<char>, t: Seq<char>)
    requires
        marker_free(c),
        anchored(t),
    ensures
        anchored(ts_pub_line(c, t)),
{
    reveal_strlit("  publish(conn: ");
    let l1 = "  publish(conn: "@;
    lemma_cs_anchored(l1);
    reveal_strlit(", payload: ");
    let l2 = ", payload: "@;
    lemma_cs_anchored(l2);
    reveal_strlit("): Promise<void>;");
    let l3 = "): Promise<void>;"@;
    lemma_cs_anchored(l3);
    lemma_dq_anchored(c);
    let q = debug_quoted(c);
    lemma_an_concat(l1, q);
    let a1 = l1 + q;
    lemma_an_concat(a1, l2);
    let a2 = a1 + l2;
    lemma_an_concat(a2, t);
    let a3 = a2 + t;
    lemma_an_concat(a3, l3);
    let a4 = a3 + l3;
    assert(ts_pub_line(c, t) =~= a4);
}

pub proof fn lemma_ts_sub_line_an(c: Seq<char>, t: Seq<char>)
    requires
        marker_free(c),
        anchored(t),
    ensures
        anchored(ts_sub_line(c, t)),
{
    reveal_strlit("  subscribe(conn: ");
    let l1 = "  subscribe(conn: "@;
    lemma_cs_anchored(l1);
    reveal_strlit(", handler: (payload: ");
    let l2 = ", handler: (payload: "@;
    lemma_cs_anchored(l2);
    reveal_strlit(") => void | Promise<void>, opts?: { onReject?: OnReject }): Promise<void>;");
    let l3 = ") => void | Promise<void>, opts?: { onReject?: OnReject }): Promise<void>;"@;
    lemma_cs_anchored(l3);
    lemma_dq_anchored(c);
    let q = debug_quoted(c);
    lemma_an_concat(l1, q);
    let a1 = l1 + q;
    lemma_an_concat(a1, l2);
    let a2 = a1 + l2;
    lemma_an_concat(a2, t);
    let a3 = a2 + t;
    lemma_an_concat(a3, l3);
    let a4 = a3 + l3;
    assert(ts_sub_line(c, t) =~= a4);
}

pub proof fn lemma_ts_query_line_an(c: Seq<char>, req: Seq<char>, resp: Seq<char>)
    requires
        marker_free(c),
        anchored(req),
        anchored(resp),
    ensures
        anchored(ts_query_line(c, req, resp)),
{
    reveal_strlit("  query(conn: ");
    let l1 = "  query(conn: "@;
    lemma_cs_anchored(l1);
    reveal_strlit(", payload: ");
    let l2 = ", payload: "@;
    lemma_cs_anchored(l2);
    reveal_strlit(", opts?: { timeoutMs?: number }): Promise<{ delivered: boolean; response: ");
    let l3 = ", opts?: { timeoutMs?: number }): Promise<{ delivered: boolean; response: "@;
    lemma_cs_anchored(l3);
    reveal_strlit(" | null; diags: SahouDiag[]; timedOut: boolean }>;");
    let l4 = " | null; diags: SahouDiag[]; timedOut: boolean }>;"@;
    lemma_cs_anchored(l4);
    lemma_dq_anchored(c);
    let q = debug_quoted(c);
    lemma_an_concat(l1, q);
    let a1 = l1 + q;
    lemma_an_concat(a1, l2);
    let a2 = a1 + l2;
    lemma_an_concat(a2, req);
    let a3 = a2 + req;
    lemma_an_concat(a3, l3);
    let a4 = a3 + l3;
    lemma_an_concat(a4, resp);
    let a5 = a4 + resp;
    lemma_an_concat(a5, l4);
    let a6 = a5 + l4;
    assert(ts_query_line(c, req, resp) =~= a6);
}

pub proof fn lemma_ts_qc_line_an(c: Seq<char>, req: Seq<char>, resp: Seq<char>)
    requires
        marker_free(c),
        anchored(req),
        anchored(resp),
    ensures
        anchored(ts_qc_line(c, req, resp)),
{
    reveal_strlit("  queryConfirmed(conn: ");
    let l1 = "  queryConfirmed(conn: "@;
    lemma_cs_anchored(l1);
    reveal_strlit(", payload: ");
    let l2 = ", payload: "@;
    lemma_cs_anchored(l2);
    reveal_strlit(", opts?: { timeoutMs?: number; retries?: number; backoffMs?: number }): Promise<");
    let l3 = ", opts?: { timeoutMs?: number; retries?: number; backoffMs?: number }): Promise<"@;
    lemma_cs_anchored(l3);
    reveal_strlit(">;");
    let l4 = ">;"@;
    lemma_cs_anchored(l4);
    lemma_dq_anchored(c);
    let q = debug_quoted(c);
    lemma_an_concat(l1, q);
    let a1 = l1 + q;
    lemma_an_concat(a1, l2);
    let a2 = a1 + l2;
    lemma_an_concat(a2, req);
    let a3 = a2 + req;
    lemma_an_concat(a3, l3);
    let a4 = a3 + l3;
    lemma_an_concat(a4, resp);
    let a5 = a4 + resp;
    lemma_an_concat(a5, l4);
    let a6 = a5 + l4;
    assert(ts_qc_line(c, req, resp) =~= a6);
}

pub proof fn lemma_ts_answer_line_an(c: Seq<char>, req: Seq<char>, resp: Seq<char>)
    requires
        marker_free(c),
        anchored(req),
        anchored(resp),
    ensures
        anchored(ts_answer_line(c, req, resp)),
{
    reveal_strlit("  answer(conn: ");
    let l1 = "  answer(conn: "@;
    lemma_cs_anchored(l1);
    reveal_strlit(", fn: (req: ");
    let l2 = ", fn: (req: "@;
    lemma_cs_anchored(l2);
    reveal_strlit(") => ");
    let l3 = ") => "@;
    lemma_cs_anchored(l3);
    reveal_strlit(" | Promise<");
    let l4 = " | Promise<"@;
    lemma_cs_anchored(l4);
    reveal_strlit(">): Promise<void>;");
    let l5 = ">): Promise<void>;"@;
    lemma_cs_anchored(l5);
    lemma_dq_anchored(c);
    let q = debug_quoted(c);
    lemma_an_concat(l1, q);
    let a1 = l1 + q;
    lemma_an_concat(a1, l2);
    let a2 = a1 + l2;
    lemma_an_concat(a2, req);
    let a3 = a2 + req;
    lemma_an_concat(a3, l3);
    let a4 = a3 + l3;
    lemma_an_concat(a4, resp);
    let a5 = a4 + resp;
    lemma_an_concat(a5, l4);
    let a6 = a5 + l4;
    lemma_an_concat(a6, resp);
    let a7 = a6 + resp;
    lemma_an_concat(a7, l5);
    let a8 = a7 + l5;
    assert(ts_answer_line(c, req, resp) =~= a8);
}

#[verifier::spinoff_prover]
#[verifier::rlimit(40)]
pub proof fn lemma_py_node_text_body(node: Seq<char>, hashes: Defs, defs: Defs)
    requires
        marker_free(node),
        anchored(facade_of(node)),
        anchored(hash_entries("    "@, hashes)),
        anchored(defs_text(defs)),
    ensures
        py_node_text(node, hashes, defs).len() > 0,
        py_node_text(node, hashes, defs).last() == '\n',
        anchored(py_node_text(node, hashes, defs).skip(markers("#"@, "node"@, node, hashes).len() as int)),
        py_node_text(node, hashes, defs) == markers("#"@, "node"@, node, hashes) + py_node_text(node, hashes, defs).skip(markers("#"@, "node"@, node, hashes).len() as int),
{
    reveal_strlit("\"\"\"AUTO-GENERATED by `sahou gen --lang python --node ");
    let l1 = "\"\"\"AUTO-GENERATED by `sahou gen --lang python --node "@;
    lemma_cs_anchored(l1);
    reveal_strlit("`. Do not edit by hand (it will be regenerated).\n\nStatic layer only: the engine does not read this file. The runtime behaves identically without the stub.\ndrift detection is `sahou check` (CLI/CI responsibility).\n\nUsage (app code): pip install sahou, then use its connect():\n    node = typed_node(sahou.connect(\"gen/descriptor.json\", node=\"");
    let l2 = "`. Do not edit by hand (it will be regenerated).\n\nStatic layer only: the engine does not read this file. The runtime behaves identically without the stub.\ndrift detection is `sahou check` (CLI/CI responsibility).\n\nUsage (app code): pip install sahou, then use its connect():\n    node = typed_node(sahou.connect(\"gen/descriptor.json\", node=\""@;
    lemma_cs_anchored(l2);
    reveal_strlit("\"))\n    node.publish(...) / node.subscribe(...) / node.query_confirmed(...) / node.answer(...)\n\"\"\"\nfrom __future__ import annotations\n\nfrom typing import Any, Literal, NotRequired, TypedDict\n\nSCHEMA_HASHES: dict[str, str] = {\n");
    let l3 = "\"))\n    node.publish(...) / node.subscribe(...) / node.query_confirmed(...) / node.answer(...)\n\"\"\"\nfrom __future__ import annotations\n\nfrom typing import Any, Literal, NotRequired, TypedDict\n\nSCHEMA_HASHES: dict[str, str] = {\n"@;
    lemma_cs_anchored(l3);
    reveal_strlit("\n}\n\n\n");
    let l4 = "\n}\n\n\n"@;
    lemma_cs_anchored(l4);
    reveal_strlit("\n\n\ndef typed_node(node):\n    \"\"\"Identity (zero runtime cost). The .pyi declares it returns ");
    let l5 = "\n\n\ndef typed_node(node):\n    \"\"\"Identity (zero runtime cost). The .pyi declares it returns "@;
    lemma_cs_anchored(l5);
    reveal_strlit(", so IDE completion works.\"\"\"\n    return node\n");
    let l6 = ", so IDE completion works.\"\"\"\n    return node\n"@;
    lemma_cs_anchored(l6);
    let m = markers("#"@, "node"@, node, hashes);
    lemma_guard(l1, node, l2);
    let a1 = l1 + node + l2;
    lemma_guard(a1, node, l3);
    let a2 = a1 + node + l3;
    lemma_an_concat(a2, hash_entries("    "@, hashes));
    let a3 = a2 + hash_entries("    "@, hashes);
    lemma_an_concat(a3, l4);
    let a4 = a3 + l4;
    lemma_an_concat(a4, defs_text(defs));
    let a5 = a4 + defs_text(defs);
    lemma_an_concat(a5, l5);
    let a6 = a5 + l5;
    lemma_an_concat(a6, facade_of(node));
    let a7 = a6 + facade_of(node);
    lemma_an_concat(a7, l6);
    let a8 = a7 + l6;
    assert(py_node_text(node, hashes, defs) =~= m + a8);
    assert(py_node_text(node, hashes, defs).skip(m.len() as int) =~= a8);
    assert(l6.len() > 0 && l6.last() == '\n');
    assert((m + a8).last() == l6.last());
}

#[verifier::spinoff_prover]
#[verifier::rlimit(40)]
pub proof fn lemma_pyi_node_text_body(node: Seq<char>, hashes: Defs, defs: Defs, facade_block: Seq<char>)
    requires
        marker_free(node),
        anchored(facade_of(node)),
        anchored(defs_text(defs)),
        anchored(facade_block),
    ensures
        anchored(pyi_node_text(node, hashes, defs, facade_block).skip(markers("#"@, "node"@, node, hashes).len() as int)),
        pyi_node_text(node, hashes, defs, facade_block) == markers("#"@, "node"@, node, hashes) + pyi_node_text(node, hashes, defs, facade_block).skip(markers("#"@, "node"@, node, hashes).len() as int),
{
    reveal_strlit("# AUTO-GENERATED by `sahou gen --lang python --node ");
    let l1 = "# AUTO-GENERATED by `sahou gen --lang python --node "@;
    lemma_cs_anchored(l1);
    reveal_strlit("`. Do not edit by hand (it will be regenerated).\nfrom typing import Any, Callable, Final, Literal, NotRequired, Protocol, TypedDict, overload\n\nSCHEMA_HASHES: Final[dict[str, str]]\n\n_OnReject = Callable[[str, list[dict[str, str]]], object]\n\n");
    let l2 = "`. Do not edit by hand (it will be regenerated).\nfrom typing import Any, Callable, Final, Literal, NotRequired, Protocol, TypedDict, overload\n\nSCHEMA_HASHES: Final[dict[str, str]]\n\n_OnReject = Callable[[str, list[dict[str, str]]], object]\n\n"@;
    lemma_cs_anchored(l2);
    reveal_strlit("\n\n");
    let l3 = "\n\n"@;
    lemma_cs_anchored(l3);
    reveal_strlit("\n\ndef typed_node(node: object) -> ");
    let l4 = "\n\ndef typed_node(node: object) -> "@;
    lemma_cs_anchored(l4);
    reveal_strlit(": ...\n");
    let l5 = ": ...\n"@;
    lemma_cs_anchored(l5);
    let m = markers("#"@, "node"@, node, hashes);
    lemma_guard(l1, node, l2);
    let a1 = l1 + node + l2;
    lemma_an_concat(a1, defs_text(defs));
    let a2 = a1 + defs_text(defs);
    lemma_an_concat(a2, l3);
    let a3 = a2 + l3;
    lemma_an_concat(a3, facade_block);
    let a4 = a3 + facade_block;
    lemma_an_concat(a4, l4);
    let a5 = a4 + l4;
    lemma_an_concat(a5, facade_of(node));
    let a6 = a5 + facade_of(node);
    lemma_an_concat(a6, l5);
    let a7 = a6 + l5;
    assert(pyi_node_text(node, hashes, defs, facade_block) =~= m + a7);
    assert(pyi_node_text(node, hashes, defs, facade_block).skip(m.len() as int) =~= a7);
}

#[verifier::spinoff_prover]
#[verifier::rlimit(40)]
pub proof fn lemma_mjs_node_text_body(node: Seq<char>, hashes: Defs)
    requires
        marker_free(node),
        anchored(facade_of(node)),
        anchored(hash_entries("  "@, hashes)),
    ensures
        mjs_node_text(node, hashes).len() > 0,
        mjs_node_text(node, hashes).last() == '\n',
        anchored(mjs_node_text(node, hashes).skip(markers("//"@, "node"@, node, hashes).len() as int)),
        mjs_node_text(node, hashes) == markers("//"@, "node"@, node, hashes) + mjs_node_text(node, hashes).skip(markers("//"@, "node"@, node, hashes).len() as int),
{
    reveal_strlit("// AUTO-GENERATED by `sahou gen --lang ts --node ");
    let l1 = "// AUTO-GENERATED by `sahou gen --lang ts --node "@;
    lemma_cs_anchored(l1);
    reveal_strlit("`. Do not edit by hand (it will be regenerated).\n// Static layer only: the engine does not read this file. The runtime behaves identically without the stub.\n//\n// Usage (app code): npm i sahou, then use its connect():\n//   const node = typedNode(await connect(\"gen/descriptor.json\", { node: \"");
    let l2 = "`. Do not edit by hand (it will be regenerated).\n// Static layer only: the engine does not read this file. The runtime behaves identically without the stub.\n//\n// Usage (app code): npm i sahou, then use its connect():\n//   const node = typedNode(await connect(\"gen/descriptor.json\", { node: \""@;
    lemma_cs_anchored(l2);
    reveal_strlit("\" }));\n//   await node.publish(...) / node.subscribe(...) / node.queryConfirmed(...) / node.answer(...)\nexport const SCHEMA_HASHES = Object.freeze({\n");
    let l3 = "\" }));\n//   await node.publish(...) / node.subscribe(...) / node.queryConfirmed(...) / node.answer(...)\nexport const SCHEMA_HASHES = Object.freeze({\n"@;
    lemma_cs_anchored(l3);
    reveal_strlit("\n});\n\n/** Identity (zero runtime cost). The .d.mts declares it returns ");
    let l4 = "\n});\n\n/** Identity (zero runtime cost). The .d.mts declares it returns "@;
    lemma_cs_anchored(l4);
    reveal_strlit(", so IDE completion works. */\nexport const typedNode = (node) => node;\n");
    let l5 = ", so IDE completion works. */\nexport const typedNode = (node) => node;\n"@;
    lemma_cs_anchored(l5);
    let m = markers("//"@, "node"@, node, hashes);
    lemma_guard(l1, node, l2);
    let a1 = l1 + node + l2;
    lemma_guard(a1, node, l3);
    let a2 = a1 + node + l3;
    lemma_an_concat(a2, hash_entries("  "@, hashes));
    let a3 = a2 + hash_entries("  "@, hashes);
    lemma_an_concat(a3, l4);
    let a4 = a3 + l4;
    lemma_an_concat(a4, facade_of(node));
    let a5 = a4 + facade_of(node);
    lemma_an_concat(a5, l5);
    let a6 = a5 + l5;
    assert(mjs_node_text(node, hashes) =~= m + a6);
    assert(mjs_node_text(node, hashes).skip(m.len() as int) =~= a6);
    assert(l5.len() > 0 && l5.last() == '\n');
    assert((m + a6).last() == l5.last());
}

#[verifier::spinoff_prover]
#[verifier::rlimit(40)]
pub proof fn lemma_dts_node_text_body(node: Seq<char>, hashes: Defs, defs: Defs, facade_block: Seq<char>)
    requires
        marker_free(node),
        anchored(facade_of(node)),
        anchored(defs_text(defs)),
        anchored(facade_block),
    ensures
        anchored(dts_node_text(node, hashes, defs, facade_block).skip(markers("//"@, "node"@, node, hashes).len() as int)),
        dts_node_text(node, hashes, defs, facade_block) == markers("//"@, "node"@, node, hashes) + dts_node_text(node, hashes, defs, facade_block).skip(markers("//"@, "node"@, node, hashes).len() as int),
{
    reveal_strlit("// AUTO-GENERATED by `sahou gen --lang ts --node ");
    let l1 = "// AUTO-GENERATED by `sahou gen --lang ts --node "@;
    lemma_cs_anchored(l1);
    reveal_strlit("`. Do not edit by hand (it will be regenerated).\nexport interface SahouDiag {\n  code: string;\n  path: string;\n  message: string;\n}\n\nexport type OnReject = (conn: string, diags: SahouDiag[]) => void | Promise<void>;\n\n");
    let l2 = "`. Do not edit by hand (it will be regenerated).\nexport interface SahouDiag {\n  code: string;\n  path: string;\n  message: string;\n}\n\nexport type OnReject = (conn: string, diags: SahouDiag[]) => void | Promise<void>;\n\n"@;
    lemma_cs_anchored(l2);
    reveal_strlit("\n\n");
    let l3 = "\n\n"@;
    lemma_cs_anchored(l3);
    reveal_strlit("\n\nexport declare const SCHEMA_HASHES: Readonly<Record<string, string>>;\n\nexport declare function typedNode(node: unknown): ");
    let l4 = "\n\nexport declare const SCHEMA_HASHES: Readonly<Record<string, string>>;\n\nexport declare function typedNode(node: unknown): "@;
    lemma_cs_anchored(l4);
    reveal_strlit(";\n");
    let l5 = ";\n"@;
    lemma_cs_anchored(l5);
    let m = markers("//"@, "node"@, node, hashes);
    lemma_guard(l1, node, l2);
    let a1 = l1 + node + l2;
    lemma_an_concat(a1, defs_text(defs));
    let a2 = a1 + defs_text(defs);
    lemma_an_concat(a2, l3);
    let a3 = a2 + l3;
    lemma_an_concat(a3, facade_block);
    let a4 = a3 + facade_block;
    lemma_an_concat(a4, l4);
    let a5 = a4 + l4;
    lemma_an_concat(a5, facade_of(node));
    let a6 = a5 + facade_of(node);
    lemma_an_concat(a6, l5);
    let a7 = a6 + l5;
    assert(dts_node_text(node, hashes, defs, facade_block) =~= m + a7);
    assert(dts_node_text(node, hashes, defs, facade_block).skip(m.len() as int) =~= a7);
}

// ---------------------------------------------------------------- the types of a node's connections

/// The enum values of an optional slot hold no `:h`.
pub open spec fn slot_quotable(o: Option<crate::model::Slot>) -> bool {
    match o {
        Some(sl) => fields_quotable(sl.fields@),
        None => true,
    }
}

proof fn lemma_slot_type_cs(lang: StubLang, conn: Seq<char>, suffix: Seq<char>, slot: crate::model::Slot, path: Seq<char>, defs: Defs)
    requires
        fields_quotable(slot.fields@),
        defs_cs(defs),
    ensures
        slot_type_of(lang, conn, suffix, slot, path, defs) matches Ok(x) ==> anchored(x.0) && defs_cs(x.1),
{
    reveal_strlit("Any");
    reveal_strlit("unknown");
    if slot.typing == crate::model::Typing::Any || slot.kind == crate::model::SlotKind::Opaque {
    } else {
        let name = crate::stubgen::pascal(conn) + suffix;
        lemma_record_cs(lang, name, path, slot.fields@, defs);
        if let Ok(d2) = record_of(lang, name, path, slot.fields@, defs) {
            lemma_ident_an(name);
        }
    }
}

/// The payload types of connections whose enum values hold no `:h`: one per connection, in
/// order, each colon-safe.
#[verifier::spinoff_prover]
pub proof fn lemma_payload_cs(lang: StubLang, desc: crate::model::Descriptor, conns: Seq<Seq<char>>, defs: Defs)
    requires
        defs_cs(defs),
        forall|k: int| 0 <= k < conns.len() ==> slot_quotable(slot_of(desc, #[trigger] conns[k], 0)),
    ensures
        payload_types(lang, desc, conns, defs) matches Ok(r) ==> r.0.len() == conns.len() && (forall|k: int|
            0 <= k < conns.len() ==> #[trigger] r.0[k].0 == conns[k] && anchored(r.0[k].1)) && defs_cs(r.1),
    decreases conns.len(),
{
    if conns.len() > 0 {
        let c2 = conns.drop_last();
        assert forall|k: int| 0 <= k < c2.len() implies slot_quotable(slot_of(desc, #[trigger] c2[k], 0)) by {
            assert(c2[k] == conns[k]);
        }
        lemma_payload_cs(lang, desc, c2, defs);
        if let Ok(r) = payload_types(lang, desc, c2, defs) {
            let conn = conns.last();
            assert(slot_quotable(slot_of(desc, conns[conns.len() - 1], 0)));
            if let Some(slot) = slot_of(desc, conn, 0) {
                lemma_slot_type_cs(lang, conn, ""@, slot, slot_path(conn, 0), r.1);
                if let Ok(x) = slot_type_of(lang, conn, ""@, slot, slot_path(conn, 0), r.1) {
                    let r0 = r.0.push((conn, x.0));
                    assert(r.0.len() == c2.len());
                    assert forall|k: int| 0 <= k < conns.len() implies #[trigger] r0[k].0 == conns[k] && anchored(r0[k].1) by {
                        if k < c2.len() {
                            assert(r0[k] == r.0[k]);
                            assert(c2[k] == conns[k]);
                        } else {
                            assert(r0[k] == (conn, x.0));
                        }
                    }
                    assert(payload_types(lang, desc, conns, defs) == Ok::<(Defs, Defs), crate::diag::DiagView>((r0, x.1)));
                }
            }
        }
    }
}

/// The request and response types of query connections whose enum values hold no `:h`.
#[verifier::spinoff_prover]
pub proof fn lemma_query_cs(lang: StubLang, desc: crate::model::Descriptor, conns: Seq<Seq<char>>, defs: Defs)
    requires
        defs_cs(defs),
        forall|k: int| 0 <= k < conns.len() ==> slot_quotable(slot_of(desc, #[trigger] conns[k], 1)) && slot_quotable(slot_of(desc, conns[k], 2)),
    ensures
        query_types(lang, desc, conns, defs) matches Ok(r) ==> r.0.len() == conns.len() && (forall|k: int|
            0 <= k < conns.len() ==> #[trigger] r.0[k].0 == conns[k] && anchored(r.0[k].1) && anchored(r.0[k].2)) && defs_cs(r.1),
    decreases conns.len(),
{
    if conns.len() > 0 {
        let c2 = conns.drop_last();
        assert forall|k: int| 0 <= k < c2.len() implies slot_quotable(slot_of(desc, #[trigger] c2[k], 1)) && slot_quotable(slot_of(desc, c2[k], 2)) by {
            assert(c2[k] == conns[k]);
        }
        lemma_query_cs(lang, desc, c2, defs);
        if let Ok(r) = query_types(lang, desc, c2, defs) {
            let conn = conns.last();
            assert(slot_quotable(slot_of(desc, conns[conns.len() - 1], 1)));
            assert(slot_quotable(slot_of(desc, conns[conns.len() - 1], 2)));
            if let (Some(rq), Some(rs)) = (slot_of(desc, conn, 1), slot_of(desc, conn, 2)) {
                lemma_slot_type_cs(lang, conn, "Request"@, rq, slot_path(conn, 1), r.1);
                if let Ok(x) = slot_type_of(lang, conn, "Request"@, rq, slot_path(conn, 1), r.1) {
                    lemma_slot_type_cs(lang, conn, "Response"@, rs, slot_path(conn, 2), x.1);
                    if let Ok(y) = slot_type_of(lang, conn, "Response"@, rs, slot_path(conn, 2), x.1) {
                        let r0 = r.0.push((conn, x.0, y.0));
                        assert forall|k: int| 0 <= k < conns.len() implies #[trigger] r0[k].0 == conns[k] && anchored(r0[k].1) && anchored(r0[k].2) by {
                            if k < c2.len() {
                                assert(r0[k] == r.0[k]);
                                assert(c2[k] == conns[k]);
                            } else {
                                assert(r0[k] == (conn, x.0, y.0));
                            }
                        }
                        assert(query_types(lang, desc, conns, defs) == Ok::<(Seq<(Seq<char>, Seq<char>, Seq<char>)>, Defs), crate::diag::DiagView>((r0, y.1)));
                    }
                }
            }
        }
    }
}

// ---------------------------------------------------------------- ordered sets of names

proof fn lemma_ins_name_sorted(s: Seq<Seq<char>>, x: Seq<char>)
    requires
        sorted_unique(s),
    ensures
        sorted_unique(ins_name(s, x)),
        ins_name(s, x).contains(x),
        forall|y: Seq<char>| s.contains(y) ==> #[trigger] ins_name(s, x).contains(y),
    decreases s.len(),
{
    let r = ins_name(s, x);
    if s.len() == 0 {
        assert(r[0] == x);
    } else if s[0] == x {
    } else if lex_lt(x, s[0]) {
        assert(r == seq![x] + s);
        assert forall|i: int, j: int| 0 <= i < j < r.len() implies lex_lt(r[i], r[j]) by {
            if i == 0 {
                if j > 1 {
                    lemma_lex_transitive(x, s[0], s[j - 1]);
                }
            } else {
                assert(r[i] == s[i - 1] && r[j] == s[j - 1]);
            }
        }
        assert(r[0] == x);
        assert forall|y: Seq<char>| s.contains(y) implies #[trigger] r.contains(y) by {
            let k = choose|k: int| 0 <= k < s.len() && s[k] == y;
            assert(r[k + 1] == y);
        }
    } else {
        let t = s.drop_first();
        assert forall|i: int, j: int| 0 <= i < j < t.len() implies lex_lt(t[i], t[j]) by {
            assert(t[i] == s[i + 1] && t[j] == s[j + 1]);
        }
        lemma_ins_name_sorted(t, x);
        let it = ins_name(t, x);
        assert(r == seq![s[0]] + it);
        crate::strs::lemma_lex_total(x, s[0]);
        assert forall|i: int, j: int| 0 <= i < j < r.len() implies lex_lt(r[i], r[j]) by {
            if i == 0 {
                let y = r[j];
                assert(y == it[j - 1]);
                assert(it.contains(y));
                crate::stub::lemma_ins_name_members(t, x, y);
                if y != x {
                    let k = choose|k: int| 0 <= k < t.len() && t[k] == y;
                    assert(t[k] == s[k + 1]);
                }
            } else {
                assert(r[i] == it[i - 1] && r[j] == it[j - 1]);
            }
        }
        let kx = choose|k: int| 0 <= k < it.len() && it[k] == x;
        assert(r[kx + 1] == x);
        assert forall|y: Seq<char>| s.contains(y) implies #[trigger] r.contains(y) by {
            let k = choose|k: int| 0 <= k < s.len() && s[k] == y;
            if k == 0 {
                assert(r[0] == y);
            } else {
                assert(t[k - 1] == y);
                assert(t.contains(y));
                assert(it.contains(y));
                let m = choose|m: int| 0 <= m < it.len() && it[m] == y;
                assert(r[m + 1] == y);
            }
        }
    }
}

/// Names put into an ordered set one by one: still ordered, holding the old names and each new one.
pub proof fn lemma_ins_all_sorted(s: Seq<Seq<char>>, xs: Seq<Seq<char>>)
    requires
        sorted_unique(s),
    ensures
        sorted_unique(ins_all(s, xs)),
        forall|y: Seq<char>| (s.contains(y) || xs.contains(y)) ==> #[trigger] ins_all(s, xs).contains(y),
    decreases xs.len(),
{
    if xs.len() > 0 {
        let x2 = xs.drop_last();
        lemma_ins_all_sorted(s, x2);
        lemma_ins_name_sorted(ins_all(s, x2), xs.last());
        assert forall|y: Seq<char>| (s.contains(y) || xs.contains(y)) implies #[trigger] ins_all(s, xs).contains(y) by {
            if xs.contains(y) && !s.contains(y) {
                let k = choose|k: int| 0 <= k < xs.len() && xs[k] == y;
                if k < x2.len() {
                    assert(x2[k] == y);
                    assert(x2.contains(y));
                }
            }
        }
    }
}

// ---------------------------------------------------------------- the identity line

/// The node marker of a per-node identity line is found where it was written, and the rest of
/// the line is the node.
pub proof fn lemma_node_segment(comment: Seq<char>, node: Seq<char>)
    requires
        comment == "#"@ || comment == "//"@,
        !contains(node, crate::stub::node_marker()),
    ensures
        marker_segment(id_line(comment, "node"@, node), crate::stub::node_marker()) == Some(node),
{
    reveal_strlit("#");
    reveal_strlit("//");
    reveal_strlit(" sahou:stub ");
    reveal_strlit("node");
    reveal_strlit("=");
    reveal_strlit("sahou:stub node=");
    let nm = crate::stub::node_marker();
    let l = id_line(comment, "node"@, node);
    let p: int = comment.len() as int + 1;
    assert(nm.len() == 16);
    assert(l.subrange(p, p + 16) =~= nm);
    assert forall|k: int| 0 <= k < p implies !occurs_at(l, nm, k) by {
        assert(l[k] != 's');
        if occurs_at(l, nm, k) {
            assert(l.subrange(k, k + 16)[0] == l[k]);
        }
    }
    lemma_find_first(l, nm, 0, p);
    assert(l.skip(p + 16) =~= node);
}

/// A per-node stub file, its marker header followed by colon-safe text, reads back as its node
/// and its hashes.
pub proof fn lemma_node_file_reads_back(comment: Seq<char>, node: Seq<char>, hashes: Defs, t: Seq<char>)
    requires
        comment == "#"@ || comment == "//"@,
        crate::stub::stub_node_ok(node),
        keys_sorted(hashes),
        forall|k: int| 0 <= k < hashes.len() ==> markable(#[trigger] hashes[k].0, hashes[k].1),
        t == markers(comment, "node"@, node, hashes) + t.skip(markers(comment, "node"@, node, hashes).len() as int),
        anchored(t.skip(markers(comment, "node"@, node, hashes).len() as int)),
    ensures
        crate::stub::first_marker(lines(t), crate::stub::node_marker()) == Some(node),
        markers_of(lines(t)) == Ok::<Defs, crate::diag::DiagView>(hashes),
{
    crate::stub::lemma_comment_leaders();
    reveal_strlit("node");
    reveal_strlit("sahou:hash ");
    let m = markers(comment, "node"@, node, hashes);
    let body = t.skip(m.len() as int);
    lemma_anchored_free(body);
    lemma_no_marker(node);
    assert(!contains("node"@, hash_marker()));
    assert(one_line("node"@));
    lemma_header_then_plain(comment, "node"@, node, hashes, body);
    let ls = lines(t);
    assert(ls[0] == id_line(comment, "node"@, node));
    lemma_node_segment(comment, node);
    if node.len() > 0 {
        assert(crate::strs::trim_start(node) == node);
        assert(crate::strs::trim_end(node) == node);
    } else {
        assert(crate::strs::trim_start(node) == node);
        assert(crate::strs::trim_end(node) == node);
    }
    assert(crate::strs::trim(node) == node);
}

/// Each file of a per-node stub reads back as its node and its hashes, when the texts around
/// the header are colon-safe.
pub proof fn lemma_node_files_read_back(lang: StubLang, node: Seq<char>, hashes: Defs, defs: Defs, sv: SigsView)
    requires
        crate::stub::stub_node_ok(node),
        keys_sorted(hashes),
        forall|k: int| 0 <= k < hashes.len() ==> {
            let e = #[trigger] hashes[k];
            markable(e.0, e.1) && marker_free(e.0) && marker_free(e.1)
        },
        defs_cs(defs),
        sigs_cs(sv),
        valid_ident(facade_of(node)),
    ensures
        forall|k: int| 0 <= k < crate::stubgen::node_files(lang, node, hashes, defs, sv).len() ==> {
            let t = #[trigger] crate::stubgen::node_files(lang, node, hashes, defs, sv)[k].1;
            &&& crate::stub::first_marker(lines(t), crate::stub::node_marker()) == Some(node)
            &&& markers_of(lines(t)) == Ok::<Defs, crate::diag::DiagView>(hashes)
        },
        ({
            let t = join(crate::stubgen::node_files(lang, node, hashes, defs, sv).map_values(|f: (Seq<char>, Seq<char>)| f.1), "\n"@);
            &&& crate::stub::first_marker(lines(t), crate::stub::node_marker()) == Some(node)
            &&& markers_of(lines(t)) == Ok::<Defs, crate::diag::DiagView>(hashes)
        }),
{
    let fc = facade_of(node);
    lemma_ident_an(fc);
    reveal_strlit("    ");
    reveal_strlit("  ");
    lemma_cs_anchored("    "@);
    lemma_cs_anchored("  "@);
    assert forall|k: int| 0 <= k < hashes.len() implies markable(#[trigger] hashes[k].0, hashes[k].1) by {
        let e = hashes[k];
    }
    assert forall|k: int| 0 <= k < hashes.len() implies marker_free(#[trigger] hashes[k].0) && marker_free(hashes[k].1) by {
        let e = hashes[k];
    }
    lemma_hash_entries_cs("    "@, hashes);
    lemma_hash_entries_cs("  "@, hashes);
    lemma_defs_text_cs(defs);
    let files = crate::stubgen::node_files(lang, node, hashes, defs, sv);
    let texts = files.map_values(|f: (Seq<char>, Seq<char>)| f.1);
    assert(texts.len() == 2);
    assert(texts.drop_last().len() == 1);
    assert(join(texts.drop_last(), "\n"@) == texts[0]);
    assert(join(texts, "\n"@) == files[0].1 + "\n"@ + files[1].1);
    match lang {
        StubLang::Python => {
            lemma_py_node_text_body(node, hashes, defs);
            lemma_node_file_reads_back("#"@, node, hashes, py_node_text(node, hashes, defs));
            lemma_py_facade_cs(fc, sv);
            let fb = py_facade(fc, sv);
            lemma_pyi_node_text_body(node, hashes, defs, fb);
            lemma_node_file_reads_back("#"@, node, hashes, pyi_node_text(node, hashes, defs, fb));
            assert(files[0].1 == py_node_text(node, hashes, defs));
            assert(files[1].1 == pyi_node_text(node, hashes, defs, fb));
            lemma_two_files_read_back("#"@, node, hashes, files[0].1, files[1].1);
        },
        StubLang::Ts => {
            lemma_mjs_node_text_body(node, hashes);
            lemma_node_file_reads_back("//"@, node, hashes, mjs_node_text(node, hashes));
            lemma_ts_facade_cs(fc, sv);
            let fb = ts_facade(fc, sv);
            lemma_dts_node_text_body(node, hashes, defs, fb);
            lemma_node_file_reads_back("//"@, node, hashes, dts_node_text(node, hashes, defs, fb));
            assert(files[0].1 == mjs_node_text(node, hashes));
            assert(files[1].1 == dts_node_text(node, hashes, defs, fb));
            lemma_two_files_read_back("//"@, node, hashes, files[0].1, files[1].1);
        },
    }
}

// ---------------------------------------------------------------- several files read together

/// In a list with distinct keys, each entry is what its key finds.
proof fn lemma_get_pair_entry(s: Defs, k: int)
    requires
        keys_sorted(s),
        0 <= k < s.len(),
    ensures
        get_pair(s, s[k].0) == Some(s[k].1),
    decreases k,
{
    if k > 0 {
        let t = s.drop_first();
        let ks = pair_keys(s);
        assert(ks[0] == s[0].0 && ks[k] == s[k].0);
        lemma_lex_irreflexive(s[k].0);
        assert forall|i: int, j: int| 0 <= i < j < pair_keys(t).len() implies lex_lt(pair_keys(t)[i], pair_keys(t)[j]) by {
            assert(pair_keys(t)[i] == ks[i + 1] && pair_keys(t)[j] == ks[j + 1]);
        }
        lemma_get_pair_entry(t, k - 1);
        assert(t[k - 1] == s[k]);
    }
}

/// Hash lines of entries already read change nothing.
proof fn lemma_markers_again(ls: Seq<Seq<char>>, comment: Seq<char>, hashes: Defs, n: int)
    requires
        crate::stub::comment_ok(comment),
        markers_of(ls) == Ok::<Defs, crate::diag::DiagView>(hashes),
        keys_sorted(hashes),
        forall|k: int| 0 <= k < hashes.len() ==> markable(#[trigger] hashes[k].0, hashes[k].1),
        0 <= n <= hashes.len(),
    ensures
        markers_of(ls + marker_texts(comment, hashes).take(n)) == Ok::<Defs, crate::diag::DiagView>(hashes),
    decreases n,
{
    let mt = marker_texts(comment, hashes);
    if n == 0 {
        assert(ls + mt.take(0) =~= ls);
    } else {
        lemma_markers_again(ls, comment, hashes, n - 1);
        let all = ls + mt.take(n);
        assert(all.drop_last() =~= ls + mt.take(n - 1));
        let e = hashes[n - 1];
        assert(all.last() == marker_text(comment, e.0, e.1));
        lemma_get_pair_entry(hashes, n - 1);
        marker_line_reads_back(hashes, comment, e.0, e.1, all.len() - 1);
    }
}

/// Two per-node stub files joined by a line break read back as their node and their hashes.
pub proof fn lemma_two_files_read_back(comment: Seq<char>, node: Seq<char>, hashes: Defs, t0: Seq<char>, t1: Seq<char>)
    requires
        comment == "#"@ || comment == "//"@,
        crate::stub::stub_node_ok(node),
        keys_sorted(hashes),
        forall|k: int| 0 <= k < hashes.len() ==> markable(#[trigger] hashes[k].0, hashes[k].1),
        t0 == markers(comment, "node"@, node, hashes) + t0.skip(markers(comment, "node"@, node, hashes).len() as int),
        anchored(t0.skip(markers(comment, "node"@, node, hashes).len() as int)),
        t0.len() > 0,
        t0.last() == '\n',
        t1 == markers(comment, "node"@, node, hashes) + t1.skip(markers(comment, "node"@, node, hashes).len() as int),
        anchored(t1.skip(markers(comment, "node"@, node, hashes).len() as int)),
    ensures
        crate::stub::first_marker(lines(t0 + "\n"@ + t1), crate::stub::node_marker()) == Some(node),
        markers_of(lines(t0 + "\n"@ + t1)) == Ok::<Defs, crate::diag::DiagView>(hashes),
{
    crate::stub::lemma_comment_leaders();
    reveal_strlit("\n");
    reveal_strlit("node");
    reveal_strlit("sahou:hash ");
    let m = markers(comment, "node"@, node, hashes);
    let id = id_line(comment, "node"@, node);
    let b1 = t1.skip(m.len() as int);
    lemma_node_file_reads_back(comment, node, hashes, t0);
    lemma_anchored_free(b1);
    lemma_no_marker(node);
    assert(!contains("node"@, hash_marker()));
    assert(one_line("node"@));
    lemma_header_then_plain(comment, "node"@, node, hashes, b1);
    let nl = "\n"@;
    assert(t0 + nl + t1 =~= t0 + (nl + t1));
    lemma_lines_append(t0, nl + t1);
    lemma_lines_append(nl, t1);
    lemma_lines_one(Seq::<char>::empty());
    assert(Seq::<char>::empty() + seq!['\n'] =~= nl);
    let l0 = lines(t0);
    let mt = marker_texts(comment, hashes);
    let lb = lines(b1);
    assert(lines(t0 + nl + t1) =~= l0 + seq![Seq::<char>::empty(), id] + mt + lb);
    // the empty line and the second identity line carry no marker
    lemma_id_line_no_marker(comment, "node"@, node);
    let two = seq![Seq::<char>::empty(), id];
    assert(marker_segment(Seq::<char>::empty(), hash_marker()) is None) by {
        lemma_find_none(Seq::<char>::empty(), hash_marker(), 0);
    }
    assert forall|k: int| 0 <= k < two.len() implies marker_segment(#[trigger] two[k], hash_marker()) is None by {}
    lemma_markers_of_plain(l0, two);
    lemma_markers_again(l0 + two, comment, hashes, hashes.len() as int);
    assert(mt.take(hashes.len() as int) =~= mt);
    lemma_lines_no_marker(b1);
    lemma_markers_of_plain(l0 + two + mt, lb);
    // the first line is the first file's identity line
    let b0 = t0.skip(m.len() as int);
    lemma_anchored_free(b0);
    lemma_header_then_plain(comment, "node"@, node, hashes, b0);
    assert(l0[0] == id);
    let all = l0 + two + mt + lb;
    assert(all[0] == id);
    lemma_node_segment(comment, node);
    assert(crate::strs::trim_start(node) == node);
    assert(crate::strs::trim_end(node) == node);
    assert(crate::stub::first_marker(all, crate::stub::node_marker()) == Some(crate::strs::trim(node)));
}

// ---------------------------------------------------------------- what reading markers keeps

/// What a key finds after `ins_pair`: the new value for that key, the old one for the others.
pub proof fn lemma_get_ins(s: Defs, k: Seq<char>, v: Seq<char>, k2: Seq<char>)
    ensures
        get_pair(ins_pair(s, k, v), k2) == (if k2 == k { Some(v) } else { get_pair(s, k2) }),
    decreases s.len(),
{
    let r = ins_pair(s, k, v);
    if s.len() == 0 {
        assert(r == seq![(k, v)]);
        assert(r[0] == (k, v));
        assert(r.drop_first() =~= Seq::<(Seq<char>, Seq<char>)>::empty());
        assert(get_pair(r.drop_first(), k2) is None);
    } else if s[0].0 == k {
        assert(r[0] == (k, v));
        assert(r.drop_first() =~= s.drop_first());
    } else if lex_lt(k, s[0].0) {
        assert(r[0] == (k, v));
        assert(r.drop_first() =~= s);
    } else {
        lemma_get_ins(s.drop_first(), k, v, k2);
        assert(r == seq![s[0]] + ins_pair(s.drop_first(), k, v));
        assert(r[0] == s[0]);
        assert(r.drop_first() =~= ins_pair(s.drop_first(), k, v));
    }
}

/// Every entry of `ins_pair(s, k, v)` is an entry of `s` or the new one.
proof fn lemma_ins_pair_elems(s: Defs, k: Seq<char>, v: Seq<char>)
    ensures
        forall|i: int| 0 <= i < ins_pair(s, k, v).len() ==> s.contains(#[trigger] ins_pair(s, k, v)[i]) || ins_pair(s, k, v)[i] == (k, v),
    decreases s.len(),
{
    let r = ins_pair(s, k, v);
    if s.len() == 0 {
    } else if s[0].0 == k {
        assert forall|i: int| 0 <= i < r.len() implies s.contains(#[trigger] r[i]) || r[i] == (k, v) by {
            if i > 0 {
                assert(r[i] == s[i]);
            }
        }
    } else if lex_lt(k, s[0].0) {
        assert forall|i: int| 0 <= i < r.len() implies s.contains(#[trigger] r[i]) || r[i] == (k, v) by {
            if i > 0 {
                assert(r[i] == s[i - 1]);
            }
        }
    } else {
        let t = s.drop_first();
        lemma_ins_pair_elems(t, k, v);
        assert forall|i: int| 0 <= i < r.len() implies s.contains(#[trigger] r[i]) || r[i] == (k, v) by {
            if i == 0 {
                assert(r[0] == s[0]);
            } else {
                let x = r[i];
                assert(x == ins_pair(t, k, v)[i - 1]);
                if t.contains(x) {
                    let j = choose|j: int| 0 <= j < t.len() && t[j] == x;
                    assert(s[j + 1] == x);
                }
            }
        }
    }
}

/// `ins_pair` keeps the keys strictly ascending.
proof fn lemma_ins_pair_sorted(s: Defs, k: Seq<char>, v: Seq<char>)
    requires
        keys_sorted(s),
    ensures
        keys_sorted(ins_pair(s, k, v)),
    decreases s.len(),
{
    let r = ins_pair(s, k, v);
    let ks = pair_keys(s);
    let kr = pair_keys(r);
    if s.len() == 0 {
    } else if s[0].0 == k {
        assert(kr =~= ks);
    } else if lex_lt(k, s[0].0) {
        assert forall|i: int, j: int| 0 <= i < j < kr.len() implies lex_lt(kr[i], kr[j]) by {
            if i == 0 {
                assert(kr[0] == k);
                assert(kr[j] == ks[j - 1]);
                if j > 1 {
                    assert(ks[0] == s[0].0);
                    lemma_lex_transitive(k, ks[0], ks[j - 1]);
                }
            } else {
                assert(kr[i] == ks[i - 1] && kr[j] == ks[j - 1]);
            }
        }
    } else {
        let t = s.drop_first();
        assert forall|i: int, j: int| 0 <= i < j < pair_keys(t).len() implies lex_lt(pair_keys(t)[i], pair_keys(t)[j]) by {
            assert(pair_keys(t)[i] == ks[i + 1] && pair_keys(t)[j] == ks[j + 1]);
        }
        lemma_ins_pair_sorted(t, k, v);
        lemma_ins_pair_elems(t, k, v);
        let it = ins_pair(t, k, v);
        crate::strs::lemma_lex_total(k, s[0].0);
        assert forall|i: int, j: int| 0 <= i < j < kr.len() implies lex_lt(kr[i], kr[j]) by {
            if i == 0 {
                assert(kr[0] == s[0].0);
                let x = it[j - 1];
                assert(kr[j] == x.0);
                if x != (k, v) {
                    assert(t.contains(x));
                    let m = choose|m: int| 0 <= m < t.len() && t[m] == x;
                    assert(ks[0] == s[0].0 && ks[m + 1] == t[m].0);
                }
            } else {
                assert(kr[i] == pair_keys(it)[i - 1] && kr[j] == pair_keys(it)[j - 1]);
            }
        }
    }
}

/// A line that reading markers into `s` leaves as it is: no marker, or a well-formed one whose
/// connection already has that hash in `s`.
pub open spec fn line_agrees(s: Defs, l: Seq<char>) -> bool {
    match marker_segment(l, hash_marker()) {
        None => true,
        Some(rest) => match crate::stub::split_eq(crate::strs::trim(rest)) {
            None => false,
            Some(ch) => ch.0.len() > 0 && crate::stub::is_hash16(ch.1) && get_pair(s, ch.0) == Some(ch.1),
        },
    }
}

/// What markers read back: ordered keys, non-empty ids, sixteen hexadecimal digits each, and
/// every line of the text agrees with the result.
pub proof fn lemma_markers_read_facts(ls: Seq<Seq<char>>)
    ensures
        markers_of(ls) matches Ok(s) ==> {
            &&& keys_sorted(s)
            &&& forall|k: int| 0 <= k < s.len() ==> (#[trigger] s[k]).0.len() > 0 && crate::stub::is_hash16(s[k].1)
            &&& forall|i: int| 0 <= i < ls.len() ==> line_agrees(s, #[trigger] ls[i])
        },
    decreases ls.len(),
{
    if ls.len() > 0 {
        let l2 = ls.drop_last();
        lemma_markers_read_facts(l2);
        if let Ok(acc) = markers_of(l2) {
            let last = ls.last();
            if let Ok(s) = marker_step(acc, last, ls.len() - 1) {
                assert(markers_of(ls) == Ok::<Defs, crate::diag::DiagView>(s));
                match marker_segment(last, hash_marker()) {
                    None => {
                        assert forall|i: int| 0 <= i < ls.len() implies line_agrees(s, #[trigger] ls[i]) by {
                            if i < l2.len() {
                                assert(ls[i] == l2[i]);
                            }
                        }
                    },
                    Some(rest) => {
                        let ch = crate::stub::split_eq(crate::strs::trim(rest))->Some_0;
                        let c = ch.0;
                        let h = ch.1;
                        if get_pair(acc, c) is None {
                            assert(s == ins_pair(acc, c, h));
                            lemma_ins_pair_sorted(acc, c, h);
                            lemma_ins_pair_elems(acc, c, h);
                            assert forall|k: int| 0 <= k < s.len() implies (#[trigger] s[k]).0.len() > 0 && crate::stub::is_hash16(s[k].1) by {
                                if s[k] != (c, h) {
                                    let m = choose|m: int| 0 <= m < acc.len() && acc[m] == s[k];
                                    assert(acc[m].0.len() > 0);
                                }
                            }
                            lemma_get_ins(acc, c, h, c);
                            assert forall|i: int| 0 <= i < ls.len() implies line_agrees(s, #[trigger] ls[i]) by {
                                if i < l2.len() {
                                    assert(ls[i] == l2[i]);
                                    assert(line_agrees(acc, l2[i]));
                                    if let Some(r2) = marker_segment(ls[i], hash_marker()) {
                                        let c2 = crate::stub::split_eq(crate::strs::trim(r2))->Some_0.0;
                                        lemma_get_ins(acc, c, h, c2);
                                    }
                                }
                            }
                        } else {
                            assert(s == acc);
                            assert forall|i: int| 0 <= i < ls.len() implies line_agrees(s, #[trigger] ls[i]) by {
                                if i < l2.len() {
                                    assert(ls[i] == l2[i]);
                                }
                            }
                        }
                    },
                }
            }
        }
    }
}

/// Lines that agree with what was read change nothing read.
pub proof fn lemma_markers_agreeing(ls: Seq<Seq<char>>, extra: Seq<Seq<char>>, s: Defs)
    requires
        markers_of(ls) == Ok::<Defs, crate::diag::DiagView>(s),
        forall|k: int| 0 <= k < extra.len() ==> line_agrees(s, #[trigger] extra[k]),
    ensures
        markers_of(ls + extra) == Ok::<Defs, crate::diag::DiagView>(s),
    decreases extra.len(),
{
    if extra.len() == 0 {
        assert(ls + extra =~= ls);
    } else {
        let e2 = extra.drop_last();
        assert forall|k: int| 0 <= k < e2.len() implies line_agrees(s, #[trigger] e2[k]) by {
            assert(e2[k] == extra[k]);
        }
        lemma_markers_agreeing(ls, e2, s);
        let all = ls + extra;
        assert(all.drop_last() =~= ls + e2);
        assert(all.last() == extra[extra.len() - 1]);
        assert(line_agrees(s, extra[extra.len() - 1]));
    }
}

/// Closing the last line of a text with a line break changes none of its lines, when that line
/// does not end with a carriage return.
pub proof fn lemma_lines_close(t: Seq<char>)
    requires
        t.len() > 0,
        t.last() != '\n',
        t.last() != '\r',
    ensures
        lines(t + seq!['\n']) == lines(t),
    decreases t.len(),
{
    let nl = seq!['\n'];
    let s = t + nl;
    lemma_find_from_bound(t, nl, 0);
    let i = find(t, nl);
    if i < 0 {
        assert forall|k: int| 0 <= k < t.len() implies !occurs_at(s, nl, k) by {
            if occurs_at(s, nl, k) {
                assert(s.subrange(k, k + 1) =~= t.subrange(k, k + 1));
                lemma_find_from_none_before(t, nl, 0, k);
            }
        }
        assert(s.subrange(t.len() as int, t.len() + 1 as int) =~= nl);
        lemma_find_first(s, nl, 0, t.len() as int);
        assert(s.take(t.len() as int) =~= t);
        assert(s.skip(t.len() + 1 as int) =~= Seq::<char>::empty());
        assert(lines(Seq::<char>::empty()) =~= Seq::<Seq<char>>::empty());
        assert(t.last() == t[t.len() - 1]);
        assert(lines(s) =~= seq![t]);
    } else {
        assert forall|k: int| 0 <= k < i implies !occurs_at(s, nl, k) by {
            lemma_find_from_none_before(t, nl, 0, k);
            assert(s.subrange(k, k + 1) =~= t.subrange(k, k + 1));
        }
        assert(s.subrange(i, i + 1) =~= t.subrange(i, i + 1));
        lemma_find_first(s, nl, 0, i);
        assert(s.take(i) =~= t.take(i));
        let r = t.skip(i + 1);
        assert(t.subrange(i, i + 1)[0] == t[i]);
        assert(t[i] == '\n');
        assert(i + 1 < t.len());
        assert(r.last() == t.last());
        assert(s.skip(i + 1) =~= r + nl);
        lemma_lines_close(r);
        assert(lines(t) == seq![strip_cr(t.take(i))] + lines(r));
        assert(lines(s) == seq![strip_cr(s.take(i))] + lines(s.skip(i + 1)));
    }
}

/// Line `l` carries a well-formed marker for connection `c` with hash `h`.
pub open spec fn line_marks(l: Seq<char>, c: Seq<char>, h: Seq<char>) -> bool {
    match marker_segment(l, hash_marker()) {
        None => false,
        Some(rest) => crate::stub::split_eq(crate::strs::trim(rest)) == Some((c, h)),
    }
}

/// Some line of `ls` carries a marker for `c` with hash `h`.
pub open spec fn has_source(ls: Seq<Seq<char>>, c: Seq<char>, h: Seq<char>) -> bool {
    exists|i: int| 0 <= i < ls.len() && #[trigger] line_marks(ls[i], c, h)
}

/// Every entry of `s` is carried by some line of `ls`.
pub open spec fn all_sourced(ls: Seq<Seq<char>>, s: Defs) -> bool {
    forall|k: int| 0 <= k < s.len() ==> #[trigger] has_source(ls, s[k].0, s[k].1)
}

/// A source among some lines is one among more lines after them.
proof fn lemma_source_more(l2: Seq<Seq<char>>, ls: Seq<Seq<char>>, c: Seq<char>, h: Seq<char>)
    requires
        has_source(l2, c, h),
        l2.len() <= ls.len(),
        forall|i: int| 0 <= i < l2.len() ==> ls[i] == l2[i],
    ensures
        has_source(ls, c, h),
{
    let i = choose|i: int| 0 <= i < l2.len() && #[trigger] line_marks(l2[i], c, h);
    assert(ls[i] == l2[i]);
    assert(line_marks(ls[i], c, h));
}

/// Every entry that marker reading gives back comes from a marker line of the text.
pub proof fn lemma_markers_sources(ls: Seq<Seq<char>>, s: Defs)
    requires
        markers_of(ls) == Ok::<Defs, crate::diag::DiagView>(s),
    ensures
        all_sourced(ls, s),
    decreases ls.len(),
{
    if ls.len() > 0 {
        let l2 = ls.drop_last();
        let last = ls.last();
        assert(markers_of(l2) is Ok);
        let acc = markers_of(l2)->Ok_0;
        lemma_markers_sources(l2, acc);
        assert(marker_step(acc, last, ls.len() - 1) == Ok::<Defs, crate::diag::DiagView>(s));
        assert forall|k: int| 0 <= k < acc.len() implies #[trigger] has_source(ls, acc[k].0, acc[k].1) by {
            assert(has_source(l2, acc[k].0, acc[k].1));
            lemma_source_more(l2, ls, acc[k].0, acc[k].1);
        }
        if s != acc {
            let rest = marker_segment(last, hash_marker())->Some_0;
            let ch = crate::stub::split_eq(crate::strs::trim(rest))->Some_0;
            assert(s == ins_pair(acc, ch.0, ch.1));
            lemma_ins_pair_elems(acc, ch.0, ch.1);
            assert(line_marks(ls[ls.len() - 1], ch.0, ch.1));
            assert forall|k: int| 0 <= k < s.len() implies #[trigger] has_source(ls, s[k].0, s[k].1) by {
                if s[k] != (ch.0, ch.1) {
                    assert(acc.contains(s[k]));
                    let m = choose|m: int| 0 <= m < acc.len() && acc[m] == s[k];
                    assert(has_source(ls, acc[m].0, acc[m].1));
                } else {
                    assert(line_marks(ls[ls.len() - 1], s[k].0, s[k].1));
                }
            }
        }
    } else {
        assert(s.len() == 0);
    }
}

} // verus!
