//! Stub markers and drift: the hash and identity markers a generated stub carries, read back
//! from its text, and compared against a descriptor. Walking the generated files stays with
//! the caller; the comparison is here.
use vstd::prelude::*;

use crate::diag::{diag_views, dv, Diag, DiagView};
use crate::model::{find_key, has_key, lookup, seq_has, Descriptor, DescriptorConnection, Node, NodeKind};
use crate::payload::push_diag;
use crate::runtime::{conns_where, node_plan, unknown_node_diag};
use crate::model::Pattern;
use crate::stub_laws::{lemma_hash_free, lemma_ins_all_sorted, lemma_payload_cs, lemma_query_cs, marker_free};
use crate::stubgen::{gen_node_of, hashes_of, payload_types, query_types, SigsView};
use crate::strs::{
    cat, cviews, decimal, decimal_string, find, find_exec, ins_all, ins_name, insert_sorted,
    lemma_find_from_bound, lines, slice_chars, sorted_unique, str_lines, string_eq, string_of,
    trim, trim_exec, views, chars_of,
};

verus! {

// ---------------------------------------------------------------- association lists

/// A list of key/value texts.
pub open spec fn pair_views(v: Seq<(String, String)>) -> Seq<(Seq<char>, Seq<char>)> {
    v.map_values(|e: (String, String)| (e.0@, e.1@))
}

/// The value the first entry with key `k` carries.
pub open spec fn get_pair(s: Seq<(Seq<char>, Seq<char>)>, k: Seq<char>) -> Option<Seq<char>>
    decreases s.len(),
{
    if s.len() == 0 {
        None
    } else if s[0].0 == k {
        Some(s[0].1)
    } else {
        get_pair(s.drop_first(), k)
    }
}

/// `s` with `(k, v)` put in key order, replacing an entry with key `k` (`BTreeMap::insert`).
pub open spec fn ins_pair(s: Seq<(Seq<char>, Seq<char>)>, k: Seq<char>, v: Seq<char>) -> Seq<
    (Seq<char>, Seq<char>),
>
    decreases s.len(),
{
    if s.len() == 0 {
        seq![(k, v)]
    } else if s[0].0 == k {
        s.update(0, (k, v))
    } else if crate::strs::lex_lt(k, s[0].0) {
        seq![(k, v)] + s
    } else {
        seq![s[0]] + ins_pair(s.drop_first(), k, v)
    }
}

/// The keys of an association list.
pub open spec fn pair_keys(s: Seq<(Seq<char>, Seq<char>)>) -> Seq<Seq<char>> {
    s.map_values(|e: (Seq<char>, Seq<char>)| e.0)
}

/// The value under `k` in `v`, if any.
pub fn get_entry(v: &Vec<(String, String)>, k: &str) -> (r: Option<usize>)
    ensures
        match r {
            Some(i) => i < v@.len() && get_pair(pair_views(v@), k@) == Some(v@[i as int].1@)
                && v@[i as int].0@ == k@,
            None => get_pair(pair_views(v@), k@) is None,
        },
{
    let ghost pv = pair_views(v@);
    let mut i: usize = 0;
    assert(pv.skip(0) =~= pv);
    while i < v.len()
        invariant
            i <= v@.len(),
            pv == pair_views(v@),
            get_pair(pv, k@) == get_pair(pv.skip(i as int), k@),
        decreases v@.len() - i,
    {
        let ghost rest = pv.skip(i as int);
        assert(rest[0] == (v@[i as int].0@, v@[i as int].1@));
        if string_eq(v[i].0.as_str(), k) {
            return Some(i);
        }
        assert(rest.drop_first() =~= pv.skip(i + 1));
        i = i + 1;
    }
    None
}

proof fn lemma_ins_pair_at(s: Seq<(Seq<char>, Seq<char>)>, k: Seq<char>, v: Seq<char>, p: int)
    requires
        0 <= p <= s.len(),
        forall|j: int| 0 <= j < p ==> crate::strs::lex_lt(#[trigger] s[j].0, k),
        p < s.len() ==> crate::strs::lex_lt(k, s[p].0),
    ensures
        ins_pair(s, k, v) == s.insert(p, (k, v)),
    decreases p,
{
    crate::strs::lemma_lex_irreflexive(k);
    if p == 0 {
        if s.len() == 0 {
            assert(s.insert(0, (k, v)) =~= seq![(k, v)]);
        } else {
            assert(s.insert(0, (k, v)) =~= seq![(k, v)] + s);
        }
    } else {
        let t = s.drop_first();
        assert(crate::strs::lex_lt(s[0].0, k));
        if crate::strs::lex_lt(k, s[0].0) {
            crate::strs::lemma_lex_transitive(k, s[0].0, k);
        }
        assert forall|j: int| 0 <= j < p - 1 implies crate::strs::lex_lt(#[trigger] t[j].0, k) by {
            assert(t[j] == s[j + 1]);
        }
        lemma_ins_pair_at(t, k, v, p - 1);
        assert(seq![s[0]] + t.insert(p - 1, (k, v)) =~= s.insert(p, (k, v)));
    }
}

/// Strictly ascending keys.
pub open spec fn keys_sorted(s: Seq<(Seq<char>, Seq<char>)>) -> bool {
    sorted_unique(pair_keys(s))
}

proof fn lemma_get_pair_absent(s: Seq<(Seq<char>, Seq<char>)>, k: Seq<char>)
    requires
        get_pair(s, k) is None,
    ensures
        forall|j: int| 0 <= j < s.len() ==> #[trigger] s[j].0 != k,
    decreases s.len(),
{
    if s.len() > 0 {
        lemma_get_pair_absent(s.drop_first(), k);
        assert forall|j: int| 0 <= j < s.len() implies #[trigger] s[j].0 != k by {
            if j > 0 {
                assert(s[j] == s.drop_first()[j - 1]);
            }
        }
    }
}

/// Puts a new key in its place in a key-ordered list.
pub(crate) fn insert_entry(v: &mut Vec<(String, String)>, k: String, val: String)
    requires
        keys_sorted(pair_views(old(v)@)),
        get_pair(pair_views(old(v)@), k@) is None,
    ensures
        pair_views(final(v)@) == ins_pair(pair_views(old(v)@), k@, val@),
        keys_sorted(pair_views(final(v)@)),
{
    let ghost pv = pair_views(v@);
    proof {
        lemma_get_pair_absent(pv, k@);
    }
    let kc = chars_of(k.as_str());
    let mut p: usize = 0;
    while p < v.len() && crate::strs::lex_less(&chars_of(v[p].0.as_str()), &kc)
        invariant
            p <= v@.len(),
            pv == pair_views(v@),
            kc@ == k@,
            forall|j: int| 0 <= j < p ==> crate::strs::lex_lt(#[trigger] pv[j].0, k@),
        decreases v@.len() - p,
    {
        p = p + 1;
    }
    proof {
        if p < pv.len() {
            assert(pv[p as int].0 != k@);
            crate::strs::lemma_lex_total(pv[p as int].0, k@);
        }
        lemma_ins_pair_at(pv, k@, val@, p as int);
    }
    let ghost kv = k@;
    let ghost vv = val@;
    v.insert(p, (k, val));
    proof {
        let nv = pair_views(v@);
        assert(nv =~= pv.insert(p as int, (kv, vv)));
        let ks = pair_keys(nv);
        let oks = pair_keys(pv);
        assert forall|i: int, j: int| 0 <= i < j < ks.len() implies crate::strs::lex_lt(
            ks[i],
            ks[j],
        ) by {
            assert(ks[i] == nv[i].0 && ks[j] == nv[j].0);
            if j < p {
                assert(oks[i] == pv[i].0 && oks[j] == pv[j].0);
            } else if j == p {
                assert(nv[i] == pv[i]);
            } else if i == p {
                assert(nv[j] == pv[j - 1]);
                if j - 1 > p {
                    assert(oks[p as int] == pv[p as int].0 && oks[j - 1] == pv[j - 1].0);
                    crate::strs::lemma_lex_transitive(kv, pv[p as int].0, pv[j - 1].0);
                }
            } else if i < p {
                assert(nv[i] == pv[i] && nv[j] == pv[j - 1]);
                assert(oks[i] == pv[i].0 && oks[j - 1] == pv[j - 1].0);
            } else {
                assert(nv[i] == pv[i - 1] && nv[j] == pv[j - 1]);
                assert(oks[i - 1] == pv[i - 1].0 && oks[j - 1] == pv[j - 1].0);
            }
        }
    }
}

// ---------------------------------------------------------------- markers

/// The text between the first occurrence of `marker` in `line` and the next one (or the end
/// of the line): the second piece `str::split` yields.
pub open spec fn marker_segment(line: Seq<char>, marker: Seq<char>) -> Option<Seq<char>> {
    let i = find(line, marker);
    if i < 0 {
        None
    } else {
        let rest = line.skip(i + marker.len());
        let j = find(rest, marker);
        if j < 0 {
            Some(rest)
        } else {
            Some(rest.take(j))
        }
    }
}

fn segment_exec(line: &Vec<char>, marker: &Vec<char>) -> (r: Option<Vec<char>>)
    ensures
        match r {
            Some(s) => marker_segment(line@, marker@) == Some(s@),
            None => marker_segment(line@, marker@) is None,
        },
{
    proof {
        lemma_find_from_bound(line@, marker@, 0);
    }
    match find_exec(line, marker) {
        None => None,
        Some(i) => {
            assert(i + marker@.len() <= line@.len());
            let ll = line.len();
            let from: usize = i + marker.len();
            let rest = slice_chars(line, from, ll);
            assert(rest@ =~= line@.skip(i + marker@.len()));
            proof {
                lemma_find_from_bound(rest@, marker@, 0);
            }
            match find_exec(&rest, marker) {
                None => Some(rest),
                Some(j) => {
                    let s = slice_chars(&rest, 0, j);
                    assert(s@ =~= rest@.take(j as int));
                    Some(s)
                },
            }
        },
    }
}

pub open spec fn hash_marker() -> Seq<char> {
    "sahou:hash "@
}

pub open spec fn node_marker() -> Seq<char> {
    "sahou:stub node="@
}

pub open spec fn schema_marker() -> Seq<char> {
    "sahou:stub schema="@
}

/// An ASCII hexadecimal digit.
pub open spec fn is_hex(c: char) -> bool {
    ('0' <= c && c <= '9') || ('a' <= c && c <= 'f') || ('A' <= c && c <= 'F')
}

/// Sixteen hexadecimal digits.
pub open spec fn is_hash16(h: Seq<char>) -> bool {
    h.len() == 16 && forall|i: int| 0 <= i < 16 ==> is_hex(#[trigger] h[i])
}

/// `s` split at its first `=`.
pub open spec fn split_eq(s: Seq<char>) -> Option<(Seq<char>, Seq<char>)> {
    let i = find(s, seq!['=']);
    if i < 0 {
        None
    } else {
        Some((s.take(i), s.skip(i + 1)))
    }
}

/// `line N`, counting lines from one.
pub open spec fn line_label(i: int) -> Seq<char> {
    "line "@ + decimal((i + 1) as nat)
}

pub open spec fn invalid_marker_diag(i: int) -> DiagView {
    dv(
        "stub_marker_invalid"@,
        line_label(i),
        "malformed sahou:hash marker (correct: `sahou:hash <conn>=<16hex>`). Regenerate the stub"@,
    )
}

pub open spec fn conflict_diag(i: int, c: Seq<char>, prev: Seq<char>, h: Seq<char>) -> DiagView {
    dv(
        "stub_marker_conflict"@,
        line_label(i),
        "hash markers for connection '"@ + c + "' contradict ("@ + prev + " / "@ + h
            + "). Regenerate the whole stub set"@,
    )
}

/// What line `i` does to the markers collected so far.
pub open spec fn marker_step(acc: Seq<(Seq<char>, Seq<char>)>, line: Seq<char>, i: int) -> Result<
    Seq<(Seq<char>, Seq<char>)>,
    DiagView,
> {
    match marker_segment(line, hash_marker()) {
        None => Ok(acc),
        Some(rest) => match split_eq(trim(rest)) {
            None => Err(invalid_marker_diag(i)),
            Some(ch) => {
                let (c, h) = ch;
                if c.len() == 0 || !is_hash16(h) {
                    Err(invalid_marker_diag(i))
                } else {
                    match get_pair(acc, c) {
                        Some(prev) => if prev != h {
                            Err(conflict_diag(i, c, prev, h))
                        } else {
                            Ok(acc)
                        },
                        None => Ok(ins_pair(acc, c, h)),
                    }
                }
            },
        },
    }
}

// ---------------------------------------------------------------- a written marker reads back

/// A comment leader a marker line can start with: on one line, and neither it nor it with the
/// space written after it holds the hash marker.
pub open spec fn comment_ok(comment: Seq<char>) -> bool {
    one_line(comment) && crate::stub_laws::marker_free(comment + " "@)
}

/// The comment leaders generation writes.
pub proof fn lemma_comment_leaders()
    ensures
        comment_ok("#"@),
        comment_ok("//"@),
{
    reveal_strlit("#");
    reveal_strlit("//");
    reveal_strlit(" ");
    reveal_strlit("sahou:hash ");
    assert(("#"@ + " "@).len() == 2);
    assert(("//"@ + " "@).len() == 3);
}

/// The text of a marker line without its line break.
pub open spec fn marker_text(comment: Seq<char>, c: Seq<char>, h: Seq<char>) -> Seq<char> {
    comment + " sahou:hash "@ + c + "="@ + h
}

pub proof fn lemma_no_occurrence(s: Seq<char>, n: Seq<char>, k: int)
    requires
        !crate::strs::contains(s, n),
        0 <= k,
        k + n.len() <= s.len(),
    ensures
        !crate::strs::occurs_at(s, n, k),
{
    lemma_find_from_bound(s, n, 0);
    crate::strs::lemma_find_from_none_before(s, n, 0, k);
}

/// The marker in a written marker line is found where it was written and nowhere after.
proof fn lemma_marker_segment(comment: Seq<char>, c: Seq<char>, h: Seq<char>)
    requires
        comment_ok(comment),
        !crate::strs::contains(c, seq!['=']),
        !crate::strs::contains(c, hash_marker()),
        is_hash16(h),
    ensures
        marker_segment(marker_text(comment, c, h), hash_marker()) == Some(c + "="@ + h),
{
    reveal_strlit("#");
    reveal_strlit("//");
    reveal_strlit(" sahou:hash ");
    reveal_strlit("sahou:hash ");
    reveal_strlit("=");
    let m = hash_marker();
    let l = marker_text(comment, c, h);
    let p: int = comment.len() as int + 1;
    assert(m.len() == 11);
    assert(l.subrange(p, p + 11) =~= m);
    let cs = comment + " "@;
    reveal_strlit(" ");
    assert(l[p - 1] == ' ');
    assert forall|k: int| 0 <= k < p implies !crate::strs::occurs_at(l, m, k) by {
        if crate::strs::occurs_at(l, m, k) {
            let w = l.subrange(k, k + 11);
            if k + 11 <= p {
                assert(cs.subrange(k, k + 11) =~= w);
                lemma_no_occurrence(cs, m, k);
            } else {
                assert(w[p - 1 - k] == l[p - 1]);
            }
        }
    }
    crate::strs::lemma_find_first(l, m, 0, p);
    let rest = l.skip(p + 11);
    assert(rest =~= c + "="@ + h);
    assert forall|k: int| 0 <= k implies !crate::strs::occurs_at(rest, m, k) by {
        if crate::strs::occurs_at(rest, m, k) {
            let w = rest.subrange(k, k + 11);
            if k + 11 <= c.len() {
                assert(c.subrange(k, k + 11) =~= w);
                lemma_no_occurrence(c, m, k);
            } else if k <= c.len() {
                assert(w[c.len() - k] == rest[c.len() as int]);
                assert(rest[c.len() as int] == '=');
            } else {
                assert(w[10] == rest[k + 10]);
                assert(rest[k + 10] == h[k + 10 - c.len() - 1]);
                assert(is_hex(h[k + 10 - c.len() - 1]));
            }
        }
    }
    crate::strs::lemma_find_none(rest, m, 0);
}

/// No line break of either kind.
pub open spec fn one_line(s: Seq<char>) -> bool {
    forall|k: int| 0 <= k < s.len() ==> #[trigger] s[k] != '\n' && s[k] != '\r'
}

/// A (connection, hash) entry that a hash marker line carries and reads back: a non-empty id
/// with no `=`, no line break and no marker in it, not starting with white space, and sixteen
/// hexadecimal digits.
pub open spec fn markable(c: Seq<char>, h: Seq<char>) -> bool {
    &&& c.len() > 0
    &&& !crate::strs::contains(c, seq!['='])
    &&& !crate::strs::contains(c, seq!['\n'])
    &&& !crate::strs::contains(c, hash_marker())
    &&& !crate::strs::char_is_whitespace(c[0])
    &&& is_hash16(h)
}

/// The identity line of a stub header, without its line break.
pub open spec fn id_line(comment: Seq<char>, kind: Seq<char>, name: Seq<char>) -> Seq<char> {
    comment + " sahou:stub "@ + kind + "="@ + name
}

/// The marker texts of the entries, in order.
pub open spec fn marker_texts(comment: Seq<char>, hashes: Seq<(Seq<char>, Seq<char>)>) -> Seq<Seq<char>> {
    hashes.map_values(|e: (Seq<char>, Seq<char>)| marker_text(comment, e.0, e.1))
}

/// A marker line as generation writes it reads back as its (connection, hash) pair: reading it
/// adds the pair, keeps an identical one, or reports the contradiction with another one read
/// before. This holds for a comment on one line that does not end in a partial marker, and for
/// connection ids that hold no `=`, no line break and no marker, and do not start with white
/// space.
pub proof fn marker_line_reads_back(acc: Seq<(Seq<char>, Seq<char>)>, comment: Seq<char>, c: Seq<char>, h: Seq<char>, i: int)
    requires
        comment_ok(comment),
        c.len() > 0,
        !crate::strs::contains(c, seq!['=']),
        !crate::strs::contains(c, seq!['\n']),
        !crate::strs::contains(c, hash_marker()),
        !crate::strs::char_is_whitespace(c[0]),
        is_hash16(h),
    ensures
        lines(crate::stubgen::marker_line(comment, c, h)) == seq![marker_text(comment, c, h)],
        marker_step(acc, marker_text(comment, c, h), i) == match get_pair(acc, c) {
            Some(prev) => if prev == h {
                Ok(acc)
            } else {
                Err(conflict_diag(i, c, prev, h))
            },
            None => Ok(ins_pair(acc, c, h)),
        },
{
    reveal_strlit("#");
    reveal_strlit("//");
    reveal_strlit(" sahou:hash ");
    reveal_strlit("=");
    reveal_strlit("\n");
    let l = marker_text(comment, c, h);
    let rest = c + "="@ + h;
    lemma_marker_segment(comment, c, h);
    // the segment is already trimmed
    assert(rest[0] == c[0]);
    assert(rest.last() == h[15]);
    assert(is_hex(h[15]));
    assert(!crate::strs::char_is_whitespace(h[15]));
    assert(crate::strs::trim_start(rest) == rest);
    assert(crate::strs::trim_end(rest) == rest);
    assert(trim(rest) == rest);
    // and splits at the `=` after the id
    let eq = seq!['='];
    assert forall|k: int| 0 <= k < c.len() implies !crate::strs::occurs_at(rest, eq, k) by {
        assert(rest.subrange(k, k + 1) =~= c.subrange(k, k + 1));
        lemma_no_occurrence(c, eq, k);
    }
    assert(rest.subrange(c.len() as int, c.len() + 1 as int) =~= eq);
    crate::strs::lemma_find_first(rest, eq, 0, c.len() as int);
    assert(rest.take(c.len() as int) =~= c);
    assert(rest.skip(c.len() + 1 as int) =~= h);
    // the line is one line of the text
    let s = crate::stubgen::marker_line(comment, c, h);
    let nl = seq!['\n'];
    assert(s =~= l + nl);
    assert forall|k: int| 0 <= k < l.len() implies !crate::strs::occurs_at(s, nl, k) by {
        if crate::strs::occurs_at(s, nl, k) {
            assert(s.subrange(k, k + 1)[0] == s[k]);
            let p: int = comment.len() as int + 12;
            if k < comment.len() {
                assert(s[k] == comment[k]);
            } else if k < p {
            } else if k < p + c.len() {
                assert(c.subrange(k - p, k - p + 1) =~= nl);
                lemma_no_occurrence(c, nl, k - p);
            } else if k == p + c.len() {
            } else {
                assert(s[k] == h[k - p - c.len() - 1]);
                assert(is_hex(h[k - p - c.len() - 1]));
            }
        }
    }
    assert(s.subrange(l.len() as int, l.len() + 1 as int) =~= nl);
    crate::strs::lemma_find_first(s, nl, 0, l.len() as int);
    assert(s.take(l.len() as int) =~= l);
    assert(s.skip(l.len() + 1 as int) =~= Seq::<char>::empty());
    assert(l.last() == h[15]);
    assert(crate::strs::strip_cr(l) == l);
    assert(lines(Seq::<char>::empty()) =~= Seq::<Seq<char>>::empty());
    assert(s.len() > 0);
    assert(crate::strs::find(s, nl) == l.len());
    assert(lines(s) == seq![crate::strs::strip_cr(s.take(l.len() as int))] + lines(s.skip(l.len() + 1 as int)));
    assert(lines(s) =~= seq![l]);
}

/// The hash markers of the lines `ls`, in key order, or the first broken one.
pub open spec fn markers_of(ls: Seq<Seq<char>>) -> Result<Seq<(Seq<char>, Seq<char>)>, DiagView>
    decreases ls.len(),
{
    if ls.len() == 0 {
        Ok(seq![])
    } else {
        match markers_of(ls.drop_last()) {
            Err(d) => Err(d),
            Ok(acc) => marker_step(acc, ls.last(), ls.len() - 1),
        }
    }
}

proof fn lemma_markers_err_stays(ls: Seq<Seq<char>>, n: int)
    requires
        0 <= n <= ls.len(),
        markers_of(ls.take(n)) is Err,
    ensures
        markers_of(ls) == markers_of(ls.take(n)),
    decreases ls.len() - n,
{
    if n == ls.len() {
        assert(ls.take(n) =~= ls);
    } else {
        let t = ls.take(n + 1);
        assert(t.drop_last() =~= ls.take(n));
        lemma_markers_err_stays(ls, n + 1);
    }
}

fn is_hash16_exec(h: &Vec<char>) -> (r: bool)
    ensures
        r == is_hash16(h@),
{
    if h.len() != 16 {
        return false;
    }
    let mut i: usize = 0;
    while i < 16
        invariant
            h@.len() == 16,
            i <= 16,
            forall|k: int| 0 <= k < i ==> is_hex(#[trigger] h@[k]),
        decreases 16 - i,
    {
        let c = h[i];
        if !(('0' <= c && c <= '9') || ('a' <= c && c <= 'f') || ('A' <= c && c <= 'F')) {
            return false;
        }
        i = i + 1;
    }
    true
}

fn line_label_exec(i: usize) -> (r: String)
    requires
        i < usize::MAX,
    ensures
        r@ == line_label(i as int),
{
    let n = decimal_string((i + 1) as u64);
    cat("line ", n.as_str())
}

/// The `sahou:hash <conn>=<hash>` markers in a stub's text (several files may be concatenated;
/// a repeated marker must agree), in connection order. A malformed or contradicting marker
/// is a diagnostic naming its line.
pub fn parse_stub_hashes(text: &str) -> (r: Result<Vec<(String, String)>, Vec<Diag>>)
    ensures
        match (r, markers_of(lines(text@))) {
            (Ok(v), Ok(s)) => pair_views(v@) == s,
            (Err(d), Err(e)) => diag_views(d@) == seq![e],
            _ => false,
        },
        r is Ok ==> keys_sorted(pair_views(r->Ok_0@)),
{
    let ls = str_lines(text);
    let marker = chars_of("sahou:hash ");
    let mut out: Vec<(String, String)> = Vec::new();
    let ghost lv = cviews(ls@);
    let mut i: usize = 0;
    assert(lv.take(0) =~= Seq::<Seq<char>>::empty());
    assert(pair_views(out@) =~= Seq::<(Seq<char>, Seq<char>)>::empty());
    while i < ls.len()
        invariant
            lv == cviews(ls@),
            lv == lines(text@),
            marker@ == hash_marker(),
            i <= lv.len(),
            markers_of(lv.take(i as int)) == Ok::<Seq<(Seq<char>, Seq<char>)>, DiagView>(
                pair_views(out@),
            ),
            keys_sorted(pair_views(out@)),
        decreases lv.len() - i,
    {
        proof {
            let pre = lv.take(i + 1);
            assert(pre.drop_last() =~= lv.take(i as int));
            assert(pre.last() == ls@[i as int]@);
        }
        let ghost acc = pair_views(out@);
        match segment_exec(&ls[i], &marker) {
            None => {},
            Some(rest) => {
                let t = trim_exec(&rest);
                let eq = vec!['='];
                assert(eq@ =~= seq!['=']);
                proof {
                    lemma_find_from_bound(t@, eq@, 0);
                }
                let bad = match find_exec(&t, &eq) {
                    None => true,
                    Some(k) => {
                        assert(k + 1 <= t@.len());
                        let tl = t.len();
                        let k1: usize = k + 1;
                        let c = slice_chars(&t, 0, k);
                        let h = slice_chars(&t, k1, tl);
                        assert(c@ =~= t@.take(k as int));
                        assert(h@ =~= t@.skip(k + 1));
                        if c.len() == 0 || !is_hash16_exec(&h) {
                            true
                        } else {
                            let cs = string_of(&c);
                            let hs = string_of(&h);
                            match get_entry(&out, cs.as_str()) {
                                Some(j) => {
                                    if !string_eq(out[j].1.as_str(), hs.as_str()) {
                                        let mut m = String::from_str("hash markers for connection '");
                                        m.append(cs.as_str());
                                        m.append("' contradict (");
                                        m.append(out[j].1.as_str());
                                        m.append(" / ");
                                        m.append(hs.as_str());
                                        m.append("). Regenerate the whole stub set");
                                        let mut d: Vec<Diag> = Vec::new();
                                        push_diag(&mut d, Diag::new("stub_marker_conflict", line_label_exec(i), m));
                                        assert(diag_views(Seq::<Diag>::empty()) =~= Seq::<DiagView>::empty());
                                        proof {
                                            let pre = lv.take(i + 1);
                                            assert(marker_segment(ls@[i as int]@, hash_marker()) == Some(rest@));
                                            assert(split_eq(trim(rest@)) == Some((c@, h@)));
                                            assert(get_pair(acc, c@) == Some(out@[j as int].1@));
                                            assert(markers_of(pre) == marker_step(acc, ls@[i as int]@, i as int));
                                            lemma_markers_err_stays(lv, i + 1);
                                        }
                                        assert(diag_views(d@) =~= seq![conflict_diag(i as int, c@, out@[j as int].1@, h@)]);
                                        return Err(d);
                                    }
                                    false
                                },
                                None => {
                                    insert_entry(&mut out, cs, hs);
                                    false
                                },
                            }
                        }
                    },
                };
                if bad {
                    let mut d: Vec<Diag> = Vec::new();
                    let msg = String::from_str(
                        "malformed sahou:hash marker (correct: `sahou:hash <conn>=<16hex>`). Regenerate the stub",
                    );
                    push_diag(&mut d, Diag::new("stub_marker_invalid", line_label_exec(i), msg));
                    assert(diag_views(Seq::<Diag>::empty()) =~= Seq::<DiagView>::empty());
                    proof {
                        let pre = lv.take(i + 1);
                        assert(markers_of(pre) == marker_step(acc, ls@[i as int]@, i as int));
                        lemma_markers_err_stays(lv, i + 1);
                    }
                    assert(diag_views(d@) =~= seq![invalid_marker_diag(i as int)]);
                    return Err(d);
                }
            },
        }
        i = i + 1;
    }
    assert(lv.take(lv.len() as int) =~= lv);
    Ok(out)
}

// ---------------------------------------------------------------- identity markers

/// The trimmed segment after `marker` on the first line that carries it.
pub open spec fn first_marker(ls: Seq<Seq<char>>, marker: Seq<char>) -> Option<Seq<char>>
    decreases ls.len(),
{
    if ls.len() == 0 {
        None
    } else {
        match marker_segment(ls[0], marker) {
            Some(seg) => Some(trim(seg)),
            None => first_marker(ls.drop_first(), marker),
        }
    }
}

fn first_marker_exec(text: &str, marker: &str) -> (r: Option<String>)
    ensures
        match r {
            Some(s) => first_marker(lines(text@), marker@) == Some(s@),
            None => first_marker(lines(text@), marker@) is None,
        },
{
    let ls = str_lines(text);
    let m = chars_of(marker);
    let ghost lv = cviews(ls@);
    let mut i: usize = 0;
    assert(lv.skip(0) =~= lv);
    while i < ls.len()
        invariant
            lv == cviews(ls@),
            lv == lines(text@),
            m@ == marker@,
            i <= lv.len(),
            first_marker(lv, marker@) == first_marker(lv.skip(i as int), marker@),
        decreases lv.len() - i,
    {
        let ghost rest = lv.skip(i as int);
        assert(rest[0] == ls@[i as int]@);
        match segment_exec(&ls[i], &m) {
            Some(seg) => {
                let t = trim_exec(&seg);
                return Some(string_of(&t));
            },
            None => {},
        }
        assert(rest.drop_first() =~= lv.skip(i + 1));
        i = i + 1;
    }
    None
}

/// The node a per-node stub was generated for (its first `sahou:stub node=` marker).
pub fn parse_stub_node(text: &str) -> (r: Option<String>)
    ensures
        match r {
            Some(s) => first_marker(lines(text@), node_marker()) == Some(s@),
            None => first_marker(lines(text@), node_marker()) is None,
        },
{
    first_marker_exec(text, "sahou:stub node=")
}

/// The schema a whole-descriptor stub was generated for (its first `sahou:stub schema=` marker).
pub fn parse_stub_schema(text: &str) -> (r: Option<String>)
    ensures
        match r {
            Some(s) => first_marker(lines(text@), schema_marker()) == Some(s@),
            None => first_marker(lines(text@), schema_marker()) is None,
        },
{
    first_marker_exec(text, "sahou:stub schema=")
}

// ---------------------------------------------------------------- drift

/// The descriptor's connection `conn`, if it has one.
pub open spec fn conn_entry(desc: Descriptor, conn: Seq<char>) -> Option<DescriptorConnection> {
    if has_key(desc.connections@, conn) {
        Some(desc.connections@[find_key(desc.connections@, conn)].1)
    } else {
        None
    }
}

pub open spec fn regen(hint: Seq<char>) -> Seq<char> {
    "Regenerate with `sahou gen --lang ..."@ + hint + "`"@
}

pub open spec fn stale_diag(conn: Seq<char>, hint: Seq<char>) -> DiagView {
    dv(
        "stub_stale_connection"@,
        "connections."@ + conn,
        "connection '"@ + conn
            + "' present in the stub is absent from the descriptor (removed from the contract). "@
            + regen(hint),
    )
}

pub open spec fn drift_diag(conn: Seq<char>, stub_hash: Seq<char>, desc_hash: Seq<char>, hint: Seq<char>) -> DiagView {
    dv(
        "stub_hash_drift"@,
        "connections."@ + conn + ".hash"@,
        "stub hash '"@ + stub_hash + "' and descriptor hash '"@ + desc_hash
            + "' do not match (the contract changed). "@ + regen(hint),
    )
}

pub open spec fn missing_conn_diag(conn: Seq<char>, who: Seq<char>, hint: Seq<char>) -> DiagView {
    dv(
        "stub_missing_connection"@,
        "connections."@ + conn,
        "connection '"@ + conn + "'"@ + who
            + " is absent from the stub (added to the contract later). "@ + regen(hint),
    )
}

/// For each stub marker in turn: a connection the descriptor no longer has, or a hash it no
/// longer agrees with.
pub open spec fn stub_side_diags(desc: Descriptor, stub: Seq<(Seq<char>, Seq<char>)>, hint: Seq<char>) -> Seq<DiagView>
    decreases stub.len(),
{
    if stub.len() == 0 {
        seq![]
    } else {
        let (conn, h) = stub.last();
        stub_side_diags(desc, stub.drop_last(), hint) + match conn_entry(desc, conn) {
            None => seq![stale_diag(conn, hint)],
            Some(c) => if c.hash@ != h {
                seq![drift_diag(conn, h, c.hash@, hint)]
            } else {
                seq![]
            },
        }
    }
}

/// For each of `names` in turn that the stub carries no marker for: a missing connection.
pub open spec fn missing_diags(names: Seq<Seq<char>>, stub: Seq<(Seq<char>, Seq<char>)>, who: Seq<char>, hint: Seq<char>) -> Seq<DiagView>
    decreases names.len(),
{
    if names.len() == 0 {
        seq![]
    } else {
        missing_diags(names.drop_last(), stub, who, hint) + if get_pair(stub, names.last()) is None {
            seq![missing_conn_diag(names.last(), who, hint)]
        } else {
            seq![]
        }
    }
}

/// The connections `node` takes part in, in name order.
pub open spec fn node_participating(desc: Descriptor, node: Seq<char>) -> Seq<Seq<char>> {
    let cs = desc.connections@;
    ins_all(
        ins_all(
            ins_all(
                ins_all(seq![], conns_where(cs, node, Pattern::PubSub, true)),
                conns_where(cs, node, Pattern::PubSub, false),
            ),
            conns_where(cs, node, Pattern::Query, true),
        ),
        conns_where(cs, node, Pattern::Query, false),
    )
}

pub open spec fn node_hint(node: Seq<char>) -> Seq<char> {
    " --node "@ + node
}

pub open spec fn node_who(node: Seq<char>) -> Seq<char> {
    " in which node '"@ + node + "' participates"@
}

/// The drift of a per-node stub against the descriptor; empty when there is none.
pub open spec fn node_drift(desc: Descriptor, node: Seq<char>, stub: Seq<(Seq<char>, Seq<char>)>) -> Seq<DiagView> {
    if !has_key(desc.nodes@, node) {
        seq![unknown_node_diag(node)]
    } else {
        stub_side_diags(desc, stub, node_hint(node)) + missing_diags(
            node_participating(desc, node),
            stub,
            node_who(node),
            node_hint(node),
        )
    }
}

/// Puts each of `xs` into the ordered set `set`.
pub(crate) fn add_all(set: &mut Vec<String>, xs: &Vec<String>)
    requires
        sorted_unique(views(old(set)@)),
    ensures
        sorted_unique(views(final(set)@)),
        views(final(set)@) == ins_all(views(old(set)@), views(xs@)),
{
    let ghost start = views(set@);
    let mut i: usize = 0;
    assert(views(xs@).take(0) =~= Seq::<Seq<char>>::empty());
    while i < xs.len()
        invariant
            i <= xs@.len(),
            sorted_unique(views(set@)),
            views(set@) == ins_all(start, views(xs@).take(i as int)),
        decreases xs@.len() - i,
    {
        proof {
            let pre = views(xs@).take(i + 1);
            assert(pre.drop_last() =~= views(xs@).take(i as int));
            assert(pre.last() == xs@[i as int]@);
        }
        insert_sorted(set, xs[i].clone());
        i = i + 1;
    }
    assert(views(xs@).take(xs@.len() as int) =~= views(xs@));
}

fn regen_exec(hint: &str) -> (r: String)
    ensures
        r@ == regen(hint@),
{
    let mut s = String::from_str("Regenerate with `sahou gen --lang ...");
    s.append(hint);
    s.append("`");
    s
}

fn stub_side_exec(desc: &Descriptor, stub: &Vec<(String, String)>, hint: &str, diags: &mut Vec<Diag>)
    ensures
        diag_views(final(diags)@) == diag_views(old(diags)@) + stub_side_diags(*desc, pair_views(stub@), hint@),
{
    let ghost sv = pair_views(stub@);
    let ghost d0 = diag_views(diags@);
    let mut i: usize = 0;
    assert(sv.take(0) =~= Seq::<(Seq<char>, Seq<char>)>::empty());
    assert(d0 + seq![] =~= d0);
    while i < stub.len()
        invariant
            i <= stub@.len(),
            sv == pair_views(stub@),
            diag_views(diags@) == d0 + stub_side_diags(*desc, sv.take(i as int), hint@),
        decreases stub@.len() - i,
    {
        let conn = &stub[i].0;
        let h = &stub[i].1;
        proof {
            let pre = sv.take(i + 1);
            assert(pre.drop_last() =~= sv.take(i as int));
            assert(pre.last() == (conn@, h@));
            crate::model::lemma_find_key(desc.connections@, conn@);
        }
        match lookup(&desc.connections, conn.as_str()) {
            None => {
                let mut m = String::from_str("connection '");
                m.append(conn.as_str());
                m.append("' present in the stub is absent from the descriptor (removed from the contract). ");
                m.append(regen_exec(hint).as_str());
                push_diag(diags, Diag::new("stub_stale_connection", cat("connections.", conn.as_str()), m));
            },
            Some(k) => {
                let dh = &desc.connections[k].1.hash;
                if !string_eq(dh.as_str(), h.as_str()) {
                    let mut p = cat("connections.", conn.as_str());
                    p.append(".hash");
                    let mut m = String::from_str("stub hash '");
                    m.append(h.as_str());
                    m.append("' and descriptor hash '");
                    m.append(dh.as_str());
                    m.append("' do not match (the contract changed). ");
                    m.append(regen_exec(hint).as_str());
                    push_diag(diags, Diag::new("stub_hash_drift", p, m));
                } else {
                    assert(diag_views(diags@) =~= diag_views(diags@) + Seq::<DiagView>::empty());
                }
            },
        }
        proof {
            let pre = sv.take(i + 1);
            assert(d0 + stub_side_diags(*desc, pre, hint@) =~= d0 + stub_side_diags(*desc, sv.take(i as int), hint@) + (stub_side_diags(*desc, pre, hint@).skip(stub_side_diags(*desc, sv.take(i as int), hint@).len() as int)));
        }
        i = i + 1;
    }
    assert(sv.take(sv.len() as int) =~= sv);
}

fn missing_exec(names: &Vec<String>, stub: &Vec<(String, String)>, who: &str, hint: &str, diags: &mut Vec<Diag>)
    ensures
        diag_views(final(diags)@) == diag_views(old(diags)@) + missing_diags(views(names@), pair_views(stub@), who@, hint@),
{
    let ghost nv = views(names@);
    let ghost d0 = diag_views(diags@);
    let mut i: usize = 0;
    assert(nv.take(0) =~= Seq::<Seq<char>>::empty());
    assert(d0 + seq![] =~= d0);
    while i < names.len()
        invariant
            i <= names@.len(),
            nv == views(names@),
            diag_views(diags@) == d0 + missing_diags(nv.take(i as int), pair_views(stub@), who@, hint@),
        decreases names@.len() - i,
    {
        let conn = &names[i];
        proof {
            let pre = nv.take(i + 1);
            assert(pre.drop_last() =~= nv.take(i as int));
            assert(pre.last() == conn@);
        }
        if get_entry(stub, conn.as_str()).is_none() {
            let mut m = String::from_str("connection '");
            m.append(conn.as_str());
            m.append("'");
            m.append(who);
            m.append(" is absent from the stub (added to the contract later). ");
            m.append(regen_exec(hint).as_str());
            push_diag(diags, Diag::new("stub_missing_connection", cat("connections.", conn.as_str()), m));
            proof {
                let pre = nv.take(i + 1);
                assert(missing_diags(pre, pair_views(stub@), who@, hint@) =~= missing_diags(nv.take(i as int), pair_views(stub@), who@, hint@) + seq![missing_conn_diag(conn@, who@, hint@)]);
            }
        } else {
            proof {
                let pre = nv.take(i + 1);
                assert(missing_diags(pre, pair_views(stub@), who@, hint@) =~= missing_diags(nv.take(i as int), pair_views(stub@), who@, hint@));
            }
        }
        i = i + 1;
    }
    assert(nv.take(nv.len() as int) =~= nv);
}

/// Compares a per-node stub's hash markers with the descriptor: markers for connections the
/// descriptor lacks or hashes it disagrees with (in marker order), then the connections the
/// node takes part in that the stub lacks (in name order). Empty when there is no drift; an
/// unknown node is its one diagnostic.
pub fn check_drift(desc: &Descriptor, node: &str, stub_hashes: &Vec<(String, String)>) -> (r: Vec<Diag>)
    ensures
        diag_views(r@) == node_drift(*desc, node@, pair_views(stub_hashes@)),
{
    let plan = match node_plan(desc, node) {
        Ok(p) => p,
        Err(d) => return d,
    };
    let mut part: Vec<String> = Vec::new();
    assert(views(part@) =~= Seq::<Seq<char>>::empty());
    add_all(&mut part, &plan.publishes);
    add_all(&mut part, &plan.subscribes);
    add_all(&mut part, &plan.queries);
    add_all(&mut part, &plan.answers);
    let hint = cat(" --node ", node);
    let who = crate::strs::cat3(" in which node '", node, "' participates");
    let mut diags: Vec<Diag> = Vec::new();
    assert(diag_views(diags@) =~= Seq::<DiagView>::empty());
    stub_side_exec(desc, stub_hashes, hint.as_str(), &mut diags);
    missing_exec(&part, stub_hashes, who.as_str(), hint.as_str(), &mut diags);
    assert(Seq::<DiagView>::empty() + stub_side_diags(*desc, pair_views(stub_hashes@), hint@) =~= stub_side_diags(*desc, pair_views(stub_hashes@), hint@));
    diags
}

/// Whether `node` is a node of the `sahou` kind in the descriptor.
pub open spec fn is_sahou_node(desc: Descriptor, node: Seq<char>) -> bool {
    has_key(desc.nodes@, node) && desc.nodes@[find_key(desc.nodes@, node)].1.kind == NodeKind::Sahou
}

/// A connection that a `sahou` node sends or receives on.
pub open spec fn touches_sahou(desc: Descriptor, c: DescriptorConnection) -> bool {
    is_sahou_node(desc, c.from@) || exists|i: int| 0 <= i < c.to@.len() && is_sahou_node(desc, #[trigger] c.to@[i]@)
}

/// The connections of `cs` that touch a `sahou` node, as an ordered set of names.
pub open spec fn sahou_conns(desc: Descriptor, cs: Seq<(String, DescriptorConnection)>) -> Seq<Seq<char>>
    decreases cs.len(),
{
    if cs.len() == 0 {
        seq![]
    } else if touches_sahou(desc, cs.last().1) {
        ins_name(sahou_conns(desc, cs.drop_last()), cs.last().0@)
    } else {
        sahou_conns(desc, cs.drop_last())
    }
}

/// Whether `node` is a `sahou`-kind node of the descriptor (a runtime cannot be an external node).
pub fn is_sahou(desc: &Descriptor, node: &str) -> (r: bool)
    ensures
        r == is_sahou_node(*desc, node@),
{
    match lookup(&desc.nodes, node) {
        Some(i) => desc.nodes[i].1.kind == NodeKind::Sahou,
        None => false,
    }
}

fn touches_sahou_exec(desc: &Descriptor, c: &DescriptorConnection) -> (r: bool)
    ensures
        r == touches_sahou(*desc, *c),
{
    if is_sahou(desc, c.from.as_str()) {
        return true;
    }
    let mut i: usize = 0;
    while i < c.to.len()
        invariant
            i <= c.to@.len(),
            forall|j: int| 0 <= j < i ==> !is_sahou_node(*desc, #[trigger] c.to@[j]@),
        decreases c.to@.len() - i,
    {
        if is_sahou(desc, c.to[i].as_str()) {
            return true;
        }
        i = i + 1;
    }
    false
}

/// The connections a whole-descriptor stub covers: those with a `sahou` node at either end,
/// in name order.
pub fn participating_conns(desc: &Descriptor) -> (r: Vec<String>)
    ensures
        views(r@) == sahou_conns(*desc, desc.connections@),
        sorted_unique(views(r@)),
{
    let ghost cs = desc.connections@;
    let mut out: Vec<String> = Vec::new();
    let mut i: usize = 0;
    assert(cs.take(0) =~= Seq::<(String, DescriptorConnection)>::empty());
    assert(views(out@) =~= Seq::<Seq<char>>::empty());
    while i < desc.connections.len()
        invariant
            cs == desc.connections@,
            i <= cs.len(),
            views(out@) == sahou_conns(*desc, cs.take(i as int)),
            sorted_unique(views(out@)),
        decreases cs.len() - i,
    {
        proof {
            let pre = cs.take(i + 1);
            assert(pre.drop_last() =~= cs.take(i as int));
            assert(pre.last() == cs[i as int]);
        }
        if touches_sahou_exec(desc, &desc.connections[i].1) {
            insert_sorted(&mut out, desc.connections[i].0.clone());
        }
        i = i + 1;
    }
    assert(cs.take(cs.len() as int) =~= cs);
    out
}

pub open spec fn all_who() -> Seq<char> {
    " (a sahou node participates in it)"@
}

/// The drift of a whole-descriptor stub; empty when there is none.
pub open spec fn all_drift(desc: Descriptor, stub: Seq<(Seq<char>, Seq<char>)>) -> Seq<DiagView> {
    stub_side_diags(desc, stub, ""@) + missing_diags(sahou_conns(desc, desc.connections@), stub, all_who(), ""@)
}

/// Compares a whole-descriptor stub's hash markers with the descriptor, with the same
/// diagnostics as `check_drift` over every connection a `sahou` node takes part in.
pub fn check_drift_all(desc: &Descriptor, stub_hashes: &Vec<(String, String)>) -> (r: Vec<Diag>)
    ensures
        diag_views(r@) == all_drift(*desc, pair_views(stub_hashes@)),
{
    let part = participating_conns(desc);
    let mut diags: Vec<Diag> = Vec::new();
    assert(diag_views(diags@) =~= Seq::<DiagView>::empty());
    stub_side_exec(desc, stub_hashes, "", &mut diags);
    missing_exec(&part, stub_hashes, " (a sahou node participates in it)", "", &mut diags);
    assert(Seq::<DiagView>::empty() + stub_side_diags(*desc, pair_views(stub_hashes@), ""@) =~= stub_side_diags(*desc, pair_views(stub_hashes@), ""@));
    diags
}

// ---------------------------------------------------------------- a node's stub files

pub open spec fn check_err(path: Seq<char>, msg: Seq<char>) -> DiagView {
    dv("check_error"@, path, msg)
}

pub open spec fn no_node_marker_msg() -> Seq<char> {
    "no sahou:stub node= marker (not a generated stub, or corrupted)"@
}

pub open spec fn mixed_msg(prev: Seq<char>, n: Seq<char>) -> Seq<char> {
    "mixed node markers ('"@ + prev + "' and '"@ + n + "'). Regenerate the full stub set"@
}

/// The node marker shared by the files `texts` (name, contents): the first broken or
/// disagreeing file is the diagnostic.
pub open spec fn texts_node(texts: Seq<(String, String)>) -> Result<Option<Seq<char>>, DiagView>
    decreases texts.len(),
{
    if texts.len() == 0 {
        Ok(None)
    } else {
        match texts_node(texts.drop_last()) {
            Err(d) => Err(d),
            Ok(prev) => {
                let (name, text) = texts.last();
                match first_marker(lines(text@), node_marker()) {
                    None => Err(check_err(name@, no_node_marker_msg())),
                    Some(n) => match prev {
                        None => Ok(Some(n)),
                        Some(p) => if p != n {
                            Err(check_err(name@, mixed_msg(p, n)))
                        } else {
                            Ok(Some(p))
                        },
                    },
                }
            },
        }
    }
}

pub open spec fn text_views(texts: Seq<(String, String)>) -> Seq<Seq<char>> {
    texts.map_values(|e: (String, String)| e.1@)
}

pub open spec fn name_views(texts: Seq<(String, String)>) -> Seq<Seq<char>> {
    texts.map_values(|e: (String, String)| e.0@)
}

/// The verdict on one node's set of stub files: the node when nothing drifted.
pub open spec fn stub_texts_verdict(desc: Descriptor, expect: Option<Seq<char>>, texts: Seq<(String, String)>) -> Result<Seq<char>, Seq<DiagView>> {
    match texts_node(texts) {
        Err(d) => Err(seq![d]),
        Ok(None) => Err(seq![check_err("$"@, "no stub files ("@ + crate::strs::debug_list(name_views(texts)) + ")"@)]),
        Ok(Some(node)) => if expect is Some && expect->0 != node {
            Err(seq![check_err("$"@, "--node '"@ + expect->0 + "' was specified, but the stub is for node '"@ + node + "'"@)])
        } else {
            match markers_of(lines(crate::strs::join(text_views(texts), seq!['\n']))) {
                Err(d) => Err(seq![d]),
                Ok(hashes) => {
                    let diags = node_drift(desc, node, hashes);
                    if diags.len() == 0 {
                        Ok(node)
                    } else {
                        Err(diags)
                    }
                },
            }
        },
    }
}

fn one_check_err(path: String, msg: String) -> (r: Vec<Diag>)
    ensures
        diag_views(r@) == seq![check_err(path@, msg@)],
{
    let mut d: Vec<Diag> = Vec::new();
    push_diag(&mut d, Diag::new("check_error", path, msg));
    assert(diag_views(Seq::<Diag>::empty()) =~= Seq::<DiagView>::empty());
    assert(Seq::<DiagView>::empty() + seq![check_err(path@, msg@)] =~= seq![check_err(path@, msg@)]);
    d
}

/// Checks one node's set of generated stub files (name, contents): they must carry the same
/// node marker (the expected one, when given), well-formed hash markers, and no drift
/// against the descriptor. The node when all holds.
pub fn check_stub_texts(desc: &Descriptor, expect_node: Option<&str>, texts: &[(String, String)]) -> (r: Result<String, Vec<Diag>>)
    ensures
        match (r, stub_texts_verdict(*desc, crate::runtime::opt_view(expect_node), texts@)) {
            (Ok(n), Ok(m)) => n@ == m,
            (Err(d), Err(e)) => diag_views(d@) == e,
            _ => false,
        },
{
    let ghost tv = texts@;
    let mut node: Option<String> = None;
    let mut i: usize = 0;
    assert(tv.take(0) =~= Seq::<(String, String)>::empty());
    while i < texts.len()
        invariant
            tv == texts@,
            i <= tv.len(),
            texts_node(tv.take(i as int)) == Ok::<Option<Seq<char>>, DiagView>(match node {
                Some(n) => Some(n@),
                None => None,
            }),
            i > 0 ==> node is Some,
        decreases tv.len() - i,
    {
        proof {
            let pre = tv.take(i + 1);
            assert(pre.drop_last() =~= tv.take(i as int));
            assert(pre.last() == tv[i as int]);
        }
        let name = &texts[i].0;
        let text = &texts[i].1;
        match parse_stub_node(text.as_str()) {
            None => {
                proof {
                    lemma_texts_err_stays(tv, i + 1);
                }
                let d = one_check_err(name.clone(), String::from_str("no sahou:stub node= marker (not a generated stub, or corrupted)"));
                return Err(d);
            },
            Some(n) => {
                match &node {
                    None => {
                        node = Some(n);
                    },
                    Some(prev) => {
                        if !string_eq(prev.as_str(), n.as_str()) {
                            let mut m = String::from_str("mixed node markers ('");
                            m.append(prev.as_str());
                            m.append("' and '");
                            m.append(n.as_str());
                            m.append("'). Regenerate the full stub set");
                            proof {
                                lemma_texts_err_stays(tv, i + 1);
                            }
                            return Err(one_check_err(name.clone(), m));
                        }
                    },
                }
            },
        }
        i = i + 1;
    }
    assert(tv.take(tv.len() as int) =~= tv);
    let node = match node {
        None => {
            let mut names: Vec<String> = Vec::new();
            assert(views(names@) =~= name_views(tv));
            let mut m = String::from_str("no stub files (");
            m.append(crate::strs::debug_string_list(&names).as_str());
            m.append(")");
            return Err(one_check_err(String::from_str("$"), m));
        },
        Some(n) => n,
    };
    match expect_node {
        Some(e) => {
            if !string_eq(e, node.as_str()) {
                let mut m = String::from_str("--node '");
                m.append(e);
                m.append("' was specified, but the stub is for node '");
                m.append(node.as_str());
                m.append("'");
                return Err(one_check_err(String::from_str("$"), m));
            }
        },
        None => {},
    }
    let mut all_texts: Vec<String> = Vec::new();
    let mut j: usize = 0;
    while j < texts.len()
        invariant
            tv == texts@,
            j <= tv.len(),
            views(all_texts@) == text_views(tv).take(j as int),
        decreases tv.len() - j,
    {
        let t = crate::strs::copy_string(&texts[j].1);
        assert(t@ == text_views(tv)[j as int]);
        let ghost before = all_texts@;
        all_texts.push(t);
        proof {
            assert(all_texts@ == before.push(t));
            assert(views(all_texts@) =~= views(before).push(t@));
            assert(text_views(tv).take(j + 1) =~= text_views(tv).take(j as int).push(text_views(tv)[j as int]));
        }
        j = j + 1;
    }
    assert(text_views(tv).take(tv.len() as int) =~= text_views(tv));
    let all = crate::strs::join_strings(&all_texts, "\n");
    proof {
        assert("\n"@ =~= seq!['\n']) by {
            reveal_strlit("\n");
        }
    }
    let hashes = match parse_stub_hashes(all.as_str()) {
        Ok(h) => h,
        Err(d) => return Err(d),
    };
    let diags = check_drift(desc, node.as_str(), &hashes);
    if diags.len() == 0 {
        Ok(node)
    } else {
        Err(diags)
    }
}

proof fn lemma_texts_err_stays(ts: Seq<(String, String)>, n: int)
    requires
        0 <= n <= ts.len(),
        texts_node(ts.take(n)) is Err,
    ensures
        texts_node(ts) == texts_node(ts.take(n)),
    decreases ts.len() - n,
{
    if n == ts.len() {
        assert(ts.take(n) =~= ts);
    } else {
        let t = ts.take(n + 1);
        assert(t.drop_last() =~= ts.take(n));
        lemma_texts_err_stays(ts, n + 1);
    }
}

// ---------------------------------------------------------------- no drift

pub proof fn lemma_ins_name_members(s: Seq<Seq<char>>, x: Seq<char>, y: Seq<char>)
    requires
        ins_name(s, x).contains(y),
    ensures
        s.contains(y) || y == x,
    decreases s.len(),
{
    if s.len() > 0 && s[0] != x && !crate::strs::lex_lt(x, s[0]) {
        let t = ins_name(s.drop_first(), x);
        let k = choose|k: int| 0 <= k < ins_name(s, x).len() && ins_name(s, x)[k] == y;
        if k > 0 {
            assert(t[k - 1] == y);
            lemma_ins_name_members(s.drop_first(), x, y);
            if s.drop_first().contains(y) {
                let j = choose|j: int| 0 <= j < s.drop_first().len() && s.drop_first()[j] == y;
                assert(s[j + 1] == y);
            }
        } else {
            assert(s[0] == y);
        }
    } else if s.len() > 0 && s[0] != x {
        let k = choose|k: int| 0 <= k < ins_name(s, x).len() && ins_name(s, x)[k] == y;
        if k > 0 {
            assert(s[k - 1] == y);
        }
    }
}

pub proof fn lemma_ins_all_members(s: Seq<Seq<char>>, xs: Seq<Seq<char>>, y: Seq<char>)
    requires
        ins_all(s, xs).contains(y),
    ensures
        s.contains(y) || xs.contains(y),
    decreases xs.len(),
{
    if xs.len() > 0 {
        lemma_ins_name_members(ins_all(s, xs.drop_last()), xs.last(), y);
        if ins_all(s, xs.drop_last()).contains(y) {
            lemma_ins_all_members(s, xs.drop_last(), y);
            if xs.drop_last().contains(y) {
                let j = choose|j: int| 0 <= j < xs.drop_last().len() && xs.drop_last()[j] == y;
                assert(xs[j] == y);
            }
        } else {
            assert(xs[xs.len() - 1] == y);
        }
    }
}

pub proof fn lemma_conns_where_keys(cs: Seq<(String, DescriptorConnection)>, node: Seq<char>, pattern: Pattern, from_side: bool, y: Seq<char>)
    requires
        conns_where(cs, node, pattern, from_side).contains(y),
    ensures
        has_key(cs, y),
    decreases cs.len(),
{
    if cs.len() > 0 {
        let prev = conns_where(cs.drop_last(), node, pattern, from_side);
        let k = choose|k: int| 0 <= k < conns_where(cs, node, pattern, from_side).len() && conns_where(cs, node, pattern, from_side)[k] == y;
        if k < prev.len() {
            assert(prev[k] == y);
            lemma_conns_where_keys(cs.drop_last(), node, pattern, from_side, y);
            crate::model::lemma_find_key(cs.drop_last(), y);
            let j = find_key(cs.drop_last(), y);
            assert(cs[j].0@ == y);
        } else {
            assert(cs.last().0@ == y);
            assert(cs[cs.len() - 1].0@ == y);
        }
        crate::model::lemma_find_key(cs, y);
    }
}

proof fn lemma_sahou_conns_keys(desc: Descriptor, cs: Seq<(String, DescriptorConnection)>, y: Seq<char>)
    requires
        sahou_conns(desc, cs).contains(y),
    ensures
        has_key(cs, y),
    decreases cs.len(),
{
    if cs.len() > 0 {
        let prev = sahou_conns(desc, cs.drop_last());
        if touches_sahou(desc, cs.last().1) {
            lemma_ins_name_members(prev, cs.last().0@, y);
        }
        if prev.contains(y) {
            lemma_sahou_conns_keys(desc, cs.drop_last(), y);
            crate::model::lemma_find_key(cs.drop_last(), y);
            let j = find_key(cs.drop_last(), y);
            assert(cs[j].0@ == y);
        } else {
            assert(cs[cs.len() - 1].0@ == y);
        }
        crate::model::lemma_find_key(cs, y);
    }
}

/// Each entry of the hash list of `names` carries the descriptor's hash of its connection.
proof fn lemma_no_stub_side(desc: Descriptor, names: Seq<Seq<char>>, hint: Seq<char>)
    requires
        forall|k: int| 0 <= k < names.len() ==> has_key(desc.connections@, #[trigger] names[k]),
    ensures
        stub_side_diags(desc, crate::stubgen::hashes_of(desc, names), hint) == Seq::<DiagView>::empty(),
    decreases names.len(),
{
    if names.len() > 0 {
        let h = crate::stubgen::hashes_of(desc, names);
        assert(h.drop_last() =~= crate::stubgen::hashes_of(desc, names.drop_last()));
        lemma_no_stub_side(desc, names.drop_last(), hint);
        assert(has_key(desc.connections@, names[names.len() - 1]));
    }
}

proof fn lemma_no_missing(desc: Descriptor, names: Seq<Seq<char>>, all: Seq<Seq<char>>, who: Seq<char>, hint: Seq<char>)
    requires
        forall|k: int| 0 <= k < names.len() ==> all.contains(#[trigger] names[k]),
    ensures
        missing_diags(names, crate::stubgen::hashes_of(desc, all), who, hint) == Seq::<DiagView>::empty(),
    decreases names.len(),
{
    if names.len() > 0 {
        lemma_no_missing(desc, names.drop_last(), all, who, hint);
        let x = names.last();
        assert(all.contains(names[names.len() - 1]));
        let h = crate::stubgen::hashes_of(desc, all);
        if get_pair(h, x) is None {
            lemma_get_pair_absent(h, x);
            let j = choose|j: int| 0 <= j < all.len() && all[j] == x;
            assert(h[j].0 == x);
        }
    }
}

/// A per-node stub that carries exactly the descriptor's hashes of the connections the node
/// takes part in shows no drift.
pub proof fn exact_hashes_have_no_drift(desc: Descriptor, node: Seq<char>)
    requires
        has_key(desc.nodes@, node),
    ensures
        node_drift(desc, node, crate::stubgen::hashes_of(desc, node_participating(desc, node))) == Seq::<DiagView>::empty(),
{
    let cs = desc.connections@;
    let part = node_participating(desc, node);
    let p0 = conns_where(cs, node, Pattern::PubSub, true);
    let p1 = conns_where(cs, node, Pattern::PubSub, false);
    let p2 = conns_where(cs, node, Pattern::Query, true);
    let p3 = conns_where(cs, node, Pattern::Query, false);
    assert forall|k: int| 0 <= k < part.len() implies has_key(desc.connections@, #[trigger] part[k]) by {
        let y = part[k];
        assert(part.contains(y));
        lemma_ins_all_members(ins_all(ins_all(ins_all(seq![], p0), p1), p2), p3, y);
        if p3.contains(y) {
            lemma_conns_where_keys(cs, node, Pattern::Query, false, y);
        } else {
            lemma_ins_all_members(ins_all(ins_all(seq![], p0), p1), p2, y);
            if p2.contains(y) {
                lemma_conns_where_keys(cs, node, Pattern::Query, true, y);
            } else {
                lemma_ins_all_members(ins_all(seq![], p0), p1, y);
                if p1.contains(y) {
                    lemma_conns_where_keys(cs, node, Pattern::PubSub, false, y);
                } else {
                    lemma_ins_all_members(seq![], p0, y);
                    lemma_conns_where_keys(cs, node, Pattern::PubSub, true, y);
                }
            }
        }
    }
    lemma_no_stub_side(desc, part, node_hint(node));
    assert forall|k: int| 0 <= k < part.len() implies part.contains(#[trigger] part[k]) by {}
    lemma_no_missing(desc, part, part, node_who(node), node_hint(node));
    assert(Seq::<DiagView>::empty() + Seq::<DiagView>::empty() =~= Seq::<DiagView>::empty());
}

/// A whole-descriptor stub that carries exactly the descriptor's hashes of every connection
/// a `sahou` node takes part in shows no drift.
pub proof fn exact_hashes_have_no_drift_all(desc: Descriptor)
    ensures
        all_drift(desc, crate::stubgen::hashes_of(desc, sahou_conns(desc, desc.connections@))) == Seq::<DiagView>::empty(),
{
    let part = sahou_conns(desc, desc.connections@);
    assert forall|k: int| 0 <= k < part.len() implies has_key(desc.connections@, #[trigger] part[k]) by {
        assert(part.contains(part[k]));
        lemma_sahou_conns_keys(desc, desc.connections@, part[k]);
    }
    lemma_no_stub_side(desc, part, ""@);
    assert forall|k: int| 0 <= k < part.len() implies part.contains(#[trigger] part[k]) by {}
    lemma_no_missing(desc, part, part, all_who(), ""@);
    assert(Seq::<DiagView>::empty() + Seq::<DiagView>::empty() =~= Seq::<DiagView>::empty());
}

// ---------------------------------------------------------------- written markers read back

/// The marker header generation writes reads back: its lines are the identity line and one
/// marker text per entry, and the hashes read from it are exactly the entries written. This
/// holds for entries in key order with plain connection names (`plain_conn_name`) and
/// sixteen-digit hexadecimal hashes, a comment leader on one line that (with the space after
/// it) holds no hash marker, and a kind and a name on one line with no hash marker in them.
pub proof fn markers_read_back(comment: Seq<char>, kind: Seq<char>, name: Seq<char>, hashes: Seq<(Seq<char>, Seq<char>)>)
    requires
        comment_ok(comment),
        one_line(kind),
        one_line(name),
        !crate::strs::contains(kind, hash_marker()),
        !crate::strs::contains(name, hash_marker()),
        keys_sorted(hashes),
        forall|k: int| 0 <= k < hashes.len() ==> plain_conn_name(#[trigger] hashes[k].0) && is_hash16(hashes[k].1),
    ensures
        lines(crate::stubgen::markers(comment, kind, name, hashes)) == seq![id_line(comment, kind, name)]
            + marker_texts(comment, hashes),
        markers_of(lines(crate::stubgen::markers(comment, kind, name, hashes))) == Ok::<
            Seq<(Seq<char>, Seq<char>)>,
            DiagView,
        >(hashes),
{
    assert forall|k: int| 0 <= k < hashes.len() implies markable(#[trigger] hashes[k].0, hashes[k].1) by {
        lemma_plain_markable(hashes[k].0, hashes[k].1);
    }
    crate::stub_laws::lemma_anchored_free(Seq::<char>::empty());
    crate::stub_laws::lemma_header_then_plain(comment, kind, name, hashes, seq![]);
    assert(crate::stubgen::markers(comment, kind, name, hashes) + Seq::<char>::empty() =~= crate::stubgen::markers(comment, kind, name, hashes));
}


/// A node name the round trip of its stub holds for: on one line, without white space at either
/// end, and holding neither the hash marker nor the node marker.
pub open spec fn stub_node_ok(node: Seq<char>) -> bool {
    &&& one_line(node)
    &&& marker_free(node)
    &&& !crate::strs::contains(node, node_marker())
    &&& node.len() > 0 ==> !crate::strs::char_is_whitespace(node[0]) && !crate::strs::char_is_whitespace(node.last())
}

/// A connection name a marker line carries: non-empty, with no `=` and no white space (so no
/// line break either).
pub open spec fn plain_conn_name(c: Seq<char>) -> bool {
    c.len() > 0 && forall|i: int| 0 <= i < c.len() ==> #[trigger] c[i] != '=' && !crate::strs::char_is_whitespace(c[i])
}

/// A connection the round trip holds for: the descriptor has it, its name is plain, its hash is
/// sixteen hexadecimal digits, and no enum value of its slots holds the hash marker.
pub open spec fn stub_conn_ok(desc: Descriptor, c: Seq<char>) -> bool {
    match conn_entry(desc, c) {
        Some(e) => {
            &&& plain_conn_name(c)
            &&& is_hash16(e.hash@)
            &&& crate::stub_laws::slot_quotable(e.payload)
            &&& crate::stub_laws::slot_quotable(e.request)
            &&& crate::stub_laws::slot_quotable(e.response)
        },
        None => false,
    }
}

/// A plain name with a hexadecimal hash fits a marker line, and neither holds the hash marker.
pub proof fn lemma_plain_markable(c: Seq<char>, h: Seq<char>)
    requires
        plain_conn_name(c),
        is_hash16(h),
    ensures
        markable(c, h),
        marker_free(c),
        marker_free(h),
{
    reveal_strlit("sahou:hash ");
    let m = hash_marker();
    let eq = seq!['='];
    let nl = seq!['\n'];
    assert forall|k: int| 0 <= k implies !crate::strs::occurs_at(c, eq, k) && !crate::strs::occurs_at(c, nl, k)
        && !crate::strs::occurs_at(c, m, k) by {
        if crate::strs::occurs_at(c, eq, k) {
            assert(c.subrange(k, k + 1)[0] == c[k]);
        }
        if crate::strs::occurs_at(c, nl, k) {
            assert(c.subrange(k, k + 1)[0] == c[k]);
        }
        if crate::strs::occurs_at(c, m, k) {
            assert(c.subrange(k, k + 11)[10] == c[k + 10]);
        }
    }
    crate::strs::lemma_find_none(c, eq, 0);
    crate::strs::lemma_find_none(c, nl, 0);
    crate::strs::lemma_find_none(c, m, 0);
    assert(is_hex(h[15]));
    lemma_hash_free(h);
}

/// The round trip of a per-node stub: every file that generation writes for a node, and the
/// files joined by line breaks, name the node in the identity marker and carry exactly the
/// descriptor's hashes of the connections the node takes part in, in name order; and a stub
/// with those hashes shows no drift. This holds when the node name and those connections fit
/// their markers (`stub_node_ok`, `stub_conn_ok`).
#[verifier::spinoff_prover]
pub proof fn generated_stub_reads_back(desc: Descriptor, node: Seq<char>, lang: crate::stubgen::StubLang)
    requires
        stub_node_ok(node),
        forall|y: Seq<char>| #[trigger] node_participating(desc, node).contains(y) ==> stub_conn_ok(desc, y),
    ensures
        gen_node_of(desc, node, lang) matches Ok(files) ==> forall|k: int| 0 <= k < files.len() ==> {
            &&& first_marker(lines(#[trigger] files[k].1), node_marker()) == Some(node)
            &&& markers_of(lines(files[k].1)) == Ok::<Seq<(Seq<char>, Seq<char>)>, DiagView>(
                hashes_of(desc, node_participating(desc, node)),
            )
        },
        gen_node_of(desc, node, lang) matches Ok(files) ==> {
            let t = crate::strs::join(files.map_values(|f: (Seq<char>, Seq<char>)| f.1), "\n"@);
            &&& first_marker(lines(t), node_marker()) == Some(node)
            &&& markers_of(lines(t)) == Ok::<Seq<(Seq<char>, Seq<char>)>, DiagView>(
                hashes_of(desc, node_participating(desc, node)),
            )
        },
        gen_node_of(desc, node, lang) is Ok ==> node_drift(
            desc,
            node,
            hashes_of(desc, node_participating(desc, node)),
        ) == Seq::<DiagView>::empty(),
{
    if let Ok(files) = gen_node_of(desc, node, lang) {
        let h = hashes_of(desc, node_participating(desc, node));
        lemma_node_hashes(desc, node);
        let (defs, sv) = lemma_node_types(desc, node, lang);
        crate::stub_laws::lemma_node_files_read_back(lang, node, h, defs, sv);
        exact_hashes_have_no_drift(desc, node);
    }
}

/// The connections a node takes part in are ordered, and hold each connection of its four
/// roles.
proof fn lemma_part_members(desc: Descriptor, node: Seq<char>)
    ensures
        sorted_unique(node_participating(desc, node)),
        forall|y: Seq<char>| (conns_where(desc.connections@, node, Pattern::PubSub, true).contains(y)
            || conns_where(desc.connections@, node, Pattern::PubSub, false).contains(y)
            || conns_where(desc.connections@, node, Pattern::Query, true).contains(y)
            || conns_where(desc.connections@, node, Pattern::Query, false).contains(y))
            ==> #[trigger] node_participating(desc, node).contains(y),
{
    let cs = desc.connections@;
    let part = node_participating(desc, node);
    let p0 = conns_where(cs, node, Pattern::PubSub, true);
    let p1 = conns_where(cs, node, Pattern::PubSub, false);
    let p2 = conns_where(cs, node, Pattern::Query, true);
    let p3 = conns_where(cs, node, Pattern::Query, false);
    let e0 = ins_all(seq![], p0);
    let e1 = ins_all(e0, p1);
    let e2 = ins_all(e1, p2);
    lemma_ins_all_sorted(seq![], p0);
    lemma_ins_all_sorted(e0, p1);
    lemma_ins_all_sorted(e1, p2);
    lemma_ins_all_sorted(e2, p3);
    assert(part == ins_all(e2, p3));
    assert forall|y: Seq<char>| p0.contains(y) || p1.contains(y) || p2.contains(y) || p3.contains(y) implies #[trigger] part.contains(y) by {
        if p0.contains(y) {
            assert(e0.contains(y));
        }
        if e0.contains(y) || p1.contains(y) {
            assert(e1.contains(y));
        }
        if e1.contains(y) || p2.contains(y) {
            assert(e2.contains(y));
        }
        assert(ins_all(e2, p3).contains(y));
    }
}

/// The hashes a node's stub carries are in name order and each fits a marker line.
proof fn lemma_node_hashes(desc: Descriptor, node: Seq<char>)
    requires
        forall|y: Seq<char>| #[trigger] node_participating(desc, node).contains(y) ==> stub_conn_ok(desc, y),
    ensures
        keys_sorted(hashes_of(desc, node_participating(desc, node))),
        forall|k: int| 0 <= k < hashes_of(desc, node_participating(desc, node)).len() ==> {
            let e = #[trigger] hashes_of(desc, node_participating(desc, node))[k];
            markable(e.0, e.1) && marker_free(e.0) && marker_free(e.1)
        },
{
    let part = node_participating(desc, node);
    let h = hashes_of(desc, part);
    lemma_part_members(desc, node);
    assert(pair_keys(h) =~= part);
    assert forall|k: int| 0 <= k < h.len() implies markable(#[trigger] h[k].0, h[k].1) && marker_free(h[k].0) && marker_free(h[k].1) by {
        assert(part.contains(part[k]));
        assert(stub_conn_ok(desc, part[k]));
        lemma_plain_markable(h[k].0, h[k].1);
    }
}

/// The type definitions and the facade signatures of a generated stub are colon-safe.
proof fn lemma_node_types(desc: Descriptor, node: Seq<char>, lang: crate::stubgen::StubLang) -> (r: (Seq<(Seq<char>, Seq<char>)>, SigsView))
    requires
        forall|y: Seq<char>| #[trigger] node_participating(desc, node).contains(y) ==> stub_conn_ok(desc, y),
        gen_node_of(desc, node, lang) is Ok,
    ensures
        gen_node_of(desc, node, lang) == Ok::<Seq<(Seq<char>, Seq<char>)>, DiagView>(
            crate::stubgen::node_files(lang, node, hashes_of(desc, node_participating(desc, node)), r.0, r.1),
        ),
        crate::stub_laws::defs_cs(r.0),
        crate::stub_laws::sigs_cs(r.1),
        crate::stubgen::valid_ident(crate::stubgen::facade_of(node)),
        has_key(desc.nodes@, node),
{
    let cs = desc.connections@;
    let part = node_participating(desc, node);
    let p0 = conns_where(cs, node, Pattern::PubSub, true);
    let p1 = conns_where(cs, node, Pattern::PubSub, false);
    let p2 = conns_where(cs, node, Pattern::Query, true);
    let p3 = conns_where(cs, node, Pattern::Query, false);
    lemma_part_members(desc, node);
    assert forall|k: int| 0 <= k < p0.len() implies crate::stub_laws::slot_quotable(crate::stubgen::slot_of(desc, #[trigger] p0[k], 0)) && marker_free(p0[k]) by {
        assert(p0.contains(p0[k]));
        assert(part.contains(p0[k]));
        assert(stub_conn_ok(desc, p0[k]));
        lemma_plain_markable(p0[k], conn_entry(desc, p0[k])->Some_0.hash@);
    }
    assert forall|k: int| 0 <= k < p1.len() implies crate::stub_laws::slot_quotable(crate::stubgen::slot_of(desc, #[trigger] p1[k], 0)) && marker_free(p1[k]) by {
        assert(p1.contains(p1[k]));
        assert(part.contains(p1[k]));
        assert(stub_conn_ok(desc, p1[k]));
        lemma_plain_markable(p1[k], conn_entry(desc, p1[k])->Some_0.hash@);
    }
    assert forall|k: int| 0 <= k < p2.len() implies crate::stub_laws::slot_quotable(crate::stubgen::slot_of(desc, #[trigger] p2[k], 1)) && crate::stub_laws::slot_quotable(crate::stubgen::slot_of(desc, p2[k], 2)) && marker_free(p2[k]) by {
        assert(p2.contains(p2[k]));
        assert(part.contains(p2[k]));
        assert(stub_conn_ok(desc, p2[k]));
        lemma_plain_markable(p2[k], conn_entry(desc, p2[k])->Some_0.hash@);
    }
    assert forall|k: int| 0 <= k < p3.len() implies crate::stub_laws::slot_quotable(crate::stubgen::slot_of(desc, #[trigger] p3[k], 1)) && crate::stub_laws::slot_quotable(crate::stubgen::slot_of(desc, p3[k], 2)) && marker_free(p3[k]) by {
        assert(p3.contains(p3[k]));
        assert(part.contains(p3[k]));
        assert(stub_conn_ok(desc, p3[k]));
        lemma_plain_markable(p3[k], conn_entry(desc, p3[k])->Some_0.hash@);
    }
    let d0: Seq<(Seq<char>, Seq<char>)> = seq![];
    lemma_payload_cs(lang, desc, p0, d0);
    assert(payload_types(lang, desc, p0, d0) is Ok);
    let pr = payload_types(lang, desc, p0, d0)->Ok_0;
    lemma_payload_cs(lang, desc, p1, pr.1);
    assert(payload_types(lang, desc, p1, pr.1) is Ok);
    let sr = payload_types(lang, desc, p1, pr.1)->Ok_0;
    lemma_query_cs(lang, desc, p2, sr.1);
    let qr = query_types(lang, desc, p2, sr.1)->Ok_0;
    lemma_query_cs(lang, desc, p3, qr.1);
    let ar = query_types(lang, desc, p3, qr.1)->Ok_0;
    let sv = SigsView { publishes: pr.0, subscribes: sr.0, queries: qr.0, answers: ar.0 };
    assert(crate::stub_laws::pairs_cs(sv.publishes)) by {
        assert forall|k: int| 0 <= k < pr.0.len() implies marker_free(#[trigger] pr.0[k].0) && crate::stub_laws::anchored(pr.0[k].1) by {
            assert(pr.0[k].0 == p0[k]);
            assert(marker_free(p0[k]));
        }
    }
    assert(crate::stub_laws::pairs_cs(sv.subscribes)) by {
        assert forall|k: int| 0 <= k < sr.0.len() implies marker_free(#[trigger] sr.0[k].0) && crate::stub_laws::anchored(sr.0[k].1) by {
            assert(sr.0[k].0 == p1[k]);
            assert(marker_free(p1[k]));
        }
    }
    assert(crate::stub_laws::trips_cs(sv.queries)) by {
        assert forall|k: int| 0 <= k < qr.0.len() implies marker_free(#[trigger] qr.0[k].0) && crate::stub_laws::anchored(qr.0[k].1) && crate::stub_laws::anchored(qr.0[k].2) by {
            assert(qr.0[k].0 == p2[k]);
        }
    }
    assert(crate::stub_laws::trips_cs(sv.answers)) by {
        assert forall|k: int| 0 <= k < ar.0.len() implies marker_free(#[trigger] ar.0[k].0) && crate::stub_laws::anchored(ar.0[k].1) && crate::stub_laws::anchored(ar.0[k].2) by {
            assert(ar.0[k].0 == p3[k]);
        }
    }
    (ar.1, sv)
}


// ---------------------------------------------------------------- reading markers

/// What hash markers read back to: connection ids in strictly ascending order, each non-empty
/// with sixteen hexadecimal digits; every line of the text either carries no marker or a
/// well-formed one whose connection has that hash in the result; and every entry of the result
/// is carried by some line.
pub proof fn hashes_read_are_well_formed(ls: Seq<Seq<char>>)
    ensures
        markers_of(ls) matches Ok(s) ==> {
            &&& keys_sorted(s)
            &&& forall|k: int| 0 <= k < s.len() ==> (#[trigger] s[k]).0.len() > 0 && is_hash16(s[k].1)
            &&& forall|i: int| 0 <= i < ls.len() ==> crate::stub_laws::line_agrees(s, #[trigger] ls[i])
            &&& crate::stub_laws::all_sourced(ls, s)
        },
{
    crate::stub_laws::lemma_markers_read_facts(ls);
    if let Ok(s) = markers_of(ls) {
        crate::stub_laws::lemma_markers_sources(ls, s);
    }
}

/// Lines without a hash marker, added after the others, change nothing read (a result or the
/// first broken marker).
pub proof fn plain_lines_change_nothing(ls: Seq<Seq<char>>, extra: Seq<Seq<char>>)
    requires
        forall|k: int| 0 <= k < extra.len() ==> marker_segment(#[trigger] extra[k], hash_marker()) is None,
    ensures
        markers_of(ls + extra) == markers_of(ls),
{
    crate::stub_laws::lemma_markers_of_plain(ls, extra);
}

/// Identical repeated markers are accepted: lines read once more after a successful read (all
/// of them, as when two copies of a stub are read together) read the same.
pub proof fn repeated_lines_read_the_same(ls: Seq<Seq<char>>, extra: Seq<Seq<char>>)
    requires
        markers_of(ls) is Ok,
        forall|k: int| 0 <= k < extra.len() ==> ls.contains(#[trigger] extra[k]),
    ensures
        markers_of(ls + extra) == markers_of(ls),
{
    crate::stub_laws::lemma_markers_read_facts(ls);
    let s = markers_of(ls)->Ok_0;
    assert forall|k: int| 0 <= k < extra.len() implies crate::stub_laws::line_agrees(s, #[trigger] extra[k]) by {
        assert(ls.contains(extra[k]));
        let i = choose|i: int| 0 <= i < ls.len() && ls[i] == extra[k];
        assert(crate::stub_laws::line_agrees(s, ls[i]));
    }
    crate::stub_laws::lemma_markers_agreeing(ls, extra, s);
}

/// A stub text read twice, joined by a line break, reads as it does once (identical repeated
/// markers are accepted), for any text whose last character is not a carriage return.
pub proof fn stub_text_read_twice(text: Seq<char>)
    requires
        text.len() > 0 ==> text.last() != '\r',
        markers_of(lines(text)) is Ok,
    ensures
        markers_of(lines(text + "\n"@ + text)) == markers_of(lines(text)),
{
    reveal_strlit("\n");
    let nl = "\n"@;
    let ls = lines(text);
    let e = seq![Seq::<char>::empty()];
    crate::stub_laws::lemma_anchored_free(Seq::<char>::empty());
    crate::stub_laws::lemma_no_marker(Seq::<char>::empty());
    assert forall|k: int| 0 <= k < e.len() implies marker_segment(#[trigger] e[k], hash_marker()) is None by {}
    crate::stub_laws::lemma_lines_one(Seq::<char>::empty());
    assert(Seq::<char>::empty() + seq!['\n'] =~= nl);
    if text.len() == 0 {
        assert(text + nl + text =~= nl);
        assert(ls =~= Seq::<Seq<char>>::empty());
        crate::stub_laws::lemma_markers_of_plain(ls, e);
        assert(ls + e =~= e);
    } else if text.last() == '\n' {
        assert(text + nl + text =~= text + (nl + text));
        crate::stub_laws::lemma_lines_append(text, nl + text);
        crate::stub_laws::lemma_lines_append(nl, text);
        assert(lines(text + nl + text) =~= ls + e + ls);
        crate::stub_laws::lemma_markers_of_plain(ls, e);
        assert forall|k: int| 0 <= k < ls.len() implies (ls + e).contains(#[trigger] ls[k]) by {
            assert((ls + e)[k] == ls[k]);
        }
        repeated_lines_read_the_same(ls + e, ls);
    } else {
        crate::stub_laws::lemma_lines_close(text);
        crate::stub_laws::lemma_lines_append(text + nl, text);
        assert(lines(text + nl + text) =~= ls + ls);
        assert forall|k: int| 0 <= k < ls.len() implies ls.contains(#[trigger] ls[k]) by {}
        repeated_lines_read_the_same(ls, ls);
    }
}

/// Lines without a hash marker, put anywhere among the others, change no successful read:
/// the lines read without them succeed exactly when the lines read with them do, and give the
/// same hashes (a broken marker is still reported, under its new line number).
pub proof fn plain_lines_anywhere(ls1: Seq<Seq<char>>, extra: Seq<Seq<char>>, ls2: Seq<Seq<char>>)
    requires
        forall|k: int| 0 <= k < extra.len() ==> marker_segment(#[trigger] extra[k], hash_marker()) is None,
    ensures
        (markers_of(ls1 + extra + ls2) is Ok) == (markers_of(ls1 + ls2) is Ok),
        markers_of(ls1 + ls2) is Ok ==> markers_of(ls1 + extra + ls2) == markers_of(ls1 + ls2),
    decreases ls2.len(),
{
    if ls2.len() == 0 {
        assert(ls1 + extra + ls2 =~= ls1 + extra);
        assert(ls1 + ls2 =~= ls1);
        crate::stub_laws::lemma_markers_of_plain(ls1, extra);
    } else {
        let l2 = ls2.drop_last();
        plain_lines_anywhere(ls1, extra, l2);
        let a = ls1 + extra + ls2;
        let b = ls1 + ls2;
        assert(a.drop_last() =~= ls1 + extra + l2);
        assert(b.drop_last() =~= ls1 + l2);
        assert(a.last() == ls2.last());
        assert(b.last() == ls2.last());
    }
}

} // verus!
