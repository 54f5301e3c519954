//! The mesh roll call: who the descriptor says should be present, joined against who answered
//! a sweep (liveliness tokens and vitals replies), and the verdict texts around it. The sweeps
//! themselves stay with the caller.
use vstd::prelude::*;

use crate::diag::{diag_views, dv, Diag, DiagView};
use crate::model::{find_key, has_key, lookup, Descriptor, DescriptorConnection, Node};
use crate::strs::{
    cat, chars_of, contains, contains_exec, decimal, decimal_string, find, find_exec, ins_all,
    insert_sorted, join, join_strings, lemma_find_from_bound, pad_right, push_padded, sorted_unique,
    str_contains, string_eq, views,
};
use crate::vitals::{Vitals, VitalsConn};

verus! {

pub open spec fn vitals_marker() -> Seq<char> {
    "/@sahou/vitals/"@
}

/// The node name of a vitals key `<namespace>/@sahou/vitals/<node>`: the text after the first
/// marker, when it is one non-empty chunk.
pub open spec fn vitals_node_of(key: Seq<char>) -> Option<Seq<char>> {
    let i = find(key, vitals_marker());
    if i < 0 {
        None
    } else {
        let tail = key.skip(i + vitals_marker().len());
        if tail.len() > 0 && !contains(tail, seq!['/']) {
            Some(tail)
        } else {
            None
        }
    }
}

pub fn vitals_node(key: &str) -> (r: Option<&str>)
    ensures
        match r {
            Some(s) => vitals_node_of(key@) == Some(s@),
            None => vitals_node_of(key@) is None,
        },
{
    let k = chars_of(key);
    let m = chars_of("/@sahou/vitals/");
    proof {
        lemma_find_from_bound(k@, m@, 0);
    }
    match find_exec(&k, &m) {
        None => None,
        Some(i) => {
            assert(i + m@.len() <= k@.len());
            let n = key.unicode_len();
            let from: usize = i + m.len();
            let tail = key.substring_char(from, n);
            let tc = chars_of(tail);
            let slash = vec!['/'];
            assert(slash@ =~= seq!['/']);
            if tc.len() > 0 && !contains_exec(&tc, &slash) {
                Some(tail)
            } else {
                None
            }
        },
    }
}

#[derive(Debug, Clone, Copy, PartialEq, Eq, Structural)]
pub enum Presence {
    /// liveliness token seen (the normal path)
    Token,
    /// no token, but the vitals queryable answered
    VitalsReply,
}

#[derive(Debug, PartialEq)]
pub enum Generation {
    Match,
    /// which connections' hashes differ from the loaded descriptor
    Drift(String),
    Unknown,
}

pub enum GenView {
    Match,
    Drift(Seq<char>),
    Unknown,
}

#[derive(Debug)]
pub struct NodeRow {
    pub node: String,
    pub present: Option<Presence>,
    pub sahou_version: Option<String>,
    pub generation: Generation,
    pub notes: Vec<String>,
}

pub struct RowView {
    pub node: Seq<char>,
    pub present: Option<Presence>,
    pub sahou_version: Option<Seq<char>>,
    pub generation: GenView,
    pub notes: Seq<Seq<char>>,
}

pub open spec fn gen_view(g: Generation) -> GenView {
    match g {
        Generation::Match => GenView::Match,
        Generation::Drift(s) => GenView::Drift(s@),
        Generation::Unknown => GenView::Unknown,
    }
}

pub open spec fn row_view(r: NodeRow) -> RowView {
    RowView {
        node: r.node@,
        present: r.present,
        sahou_version: match r.sahou_version {
            Some(s) => Some(s@),
            None => None,
        },
        generation: gen_view(r.generation),
        notes: views(r.notes@),
    }
}

pub open spec fn row_views(v: Seq<NodeRow>) -> Seq<RowView> {
    v.map_values(|r: NodeRow| row_view(r))
}

/// What a sweep collected: every liveliness token key, and every vitals reply (its key and
/// the reading of its record), one entry per reply, so a node started twice shows twice.
pub struct LanSweep {
    pub token_keys: Vec<String>,
    pub vitals: Vec<(String, Result<Vitals, Vec<Diag>>)>,
}

/// The replies whose key names `node`, in order.
pub open spec fn replies_for(vs: Seq<(String, Result<Vitals, Vec<Diag>>)>, node: Seq<char>) -> Seq<Result<Vitals, Vec<Diag>>>
    decreases vs.len(),
{
    if vs.len() == 0 {
        seq![]
    } else {
        replies_for(vs.drop_last(), node) + if vitals_node_of(vs.last().0@) == Some(node) {
            seq![vs.last().1]
        } else {
            seq![]
        }
    }
}

/// The reported connections whose hash differs from the descriptor's (those it lacks are not
/// judged).
pub open spec fn drift_conns(desc: Descriptor, vc: Seq<(String, VitalsConn)>) -> Seq<Seq<char>>
    decreases vc.len(),
{
    if vc.len() == 0 {
        seq![]
    } else {
        let (conn, c) = vc.last();
        drift_conns(desc, vc.drop_last()) + match crate::stub::conn_entry(desc, conn@) {
            Some(dc) => if dc.hash@ != c.hash@ {
                seq![conn@]
            } else {
                seq![]
            },
            None => seq![],
        }
    }
}

/// One note per sender a node reports blocking, in order.
pub open spec fn sender_notes(conn: Seq<char>, senders: Seq<(String, String)>) -> Seq<Seq<char>>
    decreases senders.len(),
{
    if senders.len() == 0 {
        seq![]
    } else {
        sender_notes(conn, senders.drop_last()) + if senders.last().1@ == "blocked"@ {
            seq!["blocking sender "@ + senders.last().0@ + " on "@ + conn]
        } else {
            seq![]
        }
    }
}

pub open spec fn blocked_notes(hs: Seq<(String, Vec<(String, String)>)>) -> Seq<Seq<char>>
    decreases hs.len(),
{
    if hs.len() == 0 {
        seq![]
    } else {
        blocked_notes(hs.drop_last()) + sender_notes(hs.last().0@, hs.last().1@)
    }
}

pub open spec fn diag_notes(ds: Seq<Diag>) -> Seq<Seq<char>> {
    ds.map_values(|d: Diag| "["@ + d.code@ + "] "@ + d.message@)
}

/// The roll-call row of one node.
pub open spec fn row_of(desc: Descriptor, sweep: LanSweep, node: Seq<char>) -> RowView {
    let tail = vitals_marker() + node;
    let has_token = exists|i: int| 0 <= i < sweep.token_keys@.len() && tail.is_suffix_of(#[trigger] sweep.token_keys@[i]@);
    let replies = replies_for(sweep.vitals@, node);
    let count_note = if replies.len() > 1 {
        seq![decimal(replies.len()) + " instances answered vitals (double-started node?)"@]
    } else {
        seq![]
    };
    RowView {
        node,
        present: if has_token {
            Some(Presence::Token)
        } else if replies.len() > 0 {
            Some(Presence::VitalsReply)
        } else {
            None
        },
        sahou_version: if replies.len() > 0 && replies[0] is Ok {
            Some(replies[0]->Ok_0.runtime.sahou@)
        } else {
            None
        },
        generation: if replies.len() > 0 && replies[0] is Ok {
            let d = drift_conns(desc, replies[0]->Ok_0.connections@);
            if d.len() == 0 {
                GenView::Match
            } else {
                GenView::Drift(join(d, ", "@))
            }
        } else {
            GenView::Unknown
        },
        notes: count_note + if replies.len() > 0 {
            match replies[0] {
                Ok(v) => blocked_notes(v.handshake@),
                Err(ds) => diag_notes(ds@),
            }
        } else {
            seq![]
        },
    }
}

/// The roll call: a row for each node of the descriptor, in order.
pub open spec fn roll_call_of(desc: Descriptor, sweep: LanSweep) -> Seq<RowView> {
    desc.nodes@.map_values(|e: (String, Node)| row_of(desc, sweep, e.0@))
}

fn ends_with_str(s: &str, p: &str) -> (r: bool)
    ensures
        r == p@.is_suffix_of(s@),
{
    let a = chars_of(s);
    let b = chars_of(p);
    crate::strs::ends_with_exec(&a, &b)
}

fn replies_exec(vs: &Vec<(String, Result<Vitals, Vec<Diag>>)>, node: &str) -> (r: Vec<usize>)
    ensures
        r@.len() == replies_for(vs@, node@).len(),
        forall|k: int| 0 <= k < r@.len() ==> #[trigger] r@[k] < vs@.len() && vs@[r@[k] as int].1 == replies_for(vs@, node@)[k],
{
    let mut out: Vec<usize> = Vec::new();
    let mut i: usize = 0;
    assert(vs@.take(0) =~= Seq::<(String, Result<Vitals, Vec<Diag>>)>::empty());
    while i < vs.len()
        invariant
            i <= vs@.len(),
            out@.len() == replies_for(vs@.take(i as int), node@).len(),
            forall|k: int| 0 <= k < out@.len() ==> #[trigger] out@[k] < vs@.len() && vs@[out@[k] as int].1 == replies_for(vs@.take(i as int), node@)[k],
        decreases vs@.len() - i,
    {
        let ghost prev = replies_for(vs@.take(i as int), node@);
        proof {
            let pre = vs@.take(i + 1);
            assert(pre.drop_last() =~= vs@.take(i as int));
            assert(pre.last() == vs@[i as int]);
        }
        let hit = match vitals_node(vs[i].0.as_str()) {
            Some(n) => string_eq(n, node),
            None => false,
        };
        if hit {
            out.push(i);
            assert forall|k: int| 0 <= k < out@.len() implies #[trigger] out@[k] < vs@.len() && vs@[out@[k] as int].1 == replies_for(vs@.take(i + 1), node@)[k] by {
                if k < prev.len() {
                    assert(replies_for(vs@.take(i + 1), node@)[k] == prev[k]);
                }
            }
        } else {
            assert(replies_for(vs@.take(i + 1), node@) =~= prev);
        }
        i = i + 1;
    }
    assert(vs@.take(vs@.len() as int) =~= vs@);
    out
}

fn drift_exec(desc: &Descriptor, vc: &Vec<(String, VitalsConn)>) -> (r: Vec<String>)
    ensures
        views(r@) == drift_conns(*desc, vc@),
{
    let mut out: Vec<String> = Vec::new();
    let mut i: usize = 0;
    assert(vc@.take(0) =~= Seq::<(String, VitalsConn)>::empty());
    assert(views(out@) =~= Seq::<Seq<char>>::empty());
    while i < vc.len()
        invariant
            i <= vc@.len(),
            views(out@) == drift_conns(*desc, vc@.take(i as int)),
        decreases vc@.len() - i,
    {
        proof {
            let pre = vc@.take(i + 1);
            assert(pre.drop_last() =~= vc@.take(i as int));
            assert(pre.last() == vc@[i as int]);
            crate::model::lemma_find_key(desc.connections@, vc@[i as int].0@);
        }
        let ghost before = views(out@);
        match lookup(&desc.connections, vc[i].0.as_str()) {
            Some(k) => {
                if !string_eq(desc.connections[k].1.hash.as_str(), vc[i].1.hash.as_str()) {
                    out.push(vc[i].0.clone());
                    assert(views(out@) =~= before + seq![vc@[i as int].0@]);
                } else {
                    assert(views(out@) =~= before + Seq::<Seq<char>>::empty());
                }
            },
            None => {
                assert(views(out@) =~= before + Seq::<Seq<char>>::empty());
            },
        }
        i = i + 1;
    }
    assert(vc@.take(vc@.len() as int) =~= vc@);
    out
}

fn blocked_exec(hs: &Vec<(String, Vec<(String, String)>)>, notes: &mut Vec<String>)
    ensures
        views(final(notes)@) == views(old(notes)@) + blocked_notes(hs@),
{
    let ghost n0 = views(notes@);
    let mut i: usize = 0;
    assert(hs@.take(0) =~= Seq::<(String, Vec<(String, String)>)>::empty());
    assert(n0 + blocked_notes(hs@.take(0)) =~= n0);
    while i < hs.len()
        invariant
            i <= hs@.len(),
            views(notes@) == n0 + blocked_notes(hs@.take(i as int)),
        decreases hs@.len() - i,
    {
        proof {
            let pre = hs@.take(i + 1);
            assert(pre.drop_last() =~= hs@.take(i as int));
            assert(pre.last() == hs@[i as int]);
        }
        let conn = hs[i].0.as_str();
        let senders = &hs[i].1;
        let ghost mid = views(notes@);
        let mut j: usize = 0;
        assert(senders@.take(0) =~= Seq::<(String, String)>::empty());
        assert(mid + sender_notes(conn@, senders@.take(0)) =~= mid);
        while j < senders.len()
            invariant
                j <= senders@.len(),
                views(notes@) == mid + sender_notes(conn@, senders@.take(j as int)),
            decreases senders@.len() - j,
        {
            proof {
                let pre = senders@.take(j + 1);
                assert(pre.drop_last() =~= senders@.take(j as int));
                assert(pre.last() == senders@[j as int]);
            }
            let ghost before = views(notes@);
            if string_eq(senders[j].1.as_str(), "blocked") {
                let mut m = String::from_str("blocking sender ");
                m.append(senders[j].0.as_str());
                m.append(" on ");
                m.append(conn);
                notes.push(m);
                assert(views(notes@) =~= before + seq![m@]);
            } else {
                assert(views(notes@) =~= before + Seq::<Seq<char>>::empty());
            }
            j = j + 1;
        }
        assert(senders@.take(senders@.len() as int) =~= senders@);
        i = i + 1;
    }
    assert(hs@.take(hs@.len() as int) =~= hs@);
}

fn diag_notes_exec(ds: &Vec<Diag>, notes: &mut Vec<String>)
    ensures
        views(final(notes)@) == views(old(notes)@) + diag_notes(ds@),
{
    let ghost n0 = views(notes@);
    let mut i: usize = 0;
    assert(diag_notes(ds@.take(0)) =~= Seq::<Seq<char>>::empty());
    assert(n0 + diag_notes(ds@.take(0)) =~= n0);
    while i < ds.len()
        invariant
            i <= ds@.len(),
            views(notes@) == n0 + diag_notes(ds@.take(i as int)),
        decreases ds@.len() - i,
    {
        let mut m = String::from_str("[");
        m.append(ds[i].code.as_str());
        m.append("] ");
        m.append(ds[i].message.as_str());
        let ghost before = views(notes@);
        notes.push(m);
        assert(views(notes@) =~= before.push(m@));
        assert(diag_notes(ds@.take(i + 1)) =~= diag_notes(ds@.take(i as int)).push(m@));
        i = i + 1;
    }
    assert(ds@.take(ds@.len() as int) =~= ds@);
}

fn row_exec(desc: &Descriptor, sweep: &LanSweep, node: &String) -> (r: NodeRow)
    ensures
        row_view(r) == row_of(*desc, *sweep, node@),
{
    let tail = cat("/@sahou/vitals/", node.as_str());
    let mut has_token = false;
    let mut i: usize = 0;
    while i < sweep.token_keys.len()
        invariant
            i <= sweep.token_keys@.len(),
            has_token == exists|k: int| 0 <= k < i && tail@.is_suffix_of(#[trigger] sweep.token_keys@[k]@),
        decreases sweep.token_keys@.len() - i,
    {
        if ends_with_str(sweep.token_keys[i].as_str(), tail.as_str()) {
            has_token = true;
        }
        i = i + 1;
    }
    let ghost replies = replies_for(sweep.vitals@, node@);
    let idx = replies_exec(&sweep.vitals, node.as_str());
    let mut notes: Vec<String> = Vec::new();
    if idx.len() > 1 {
        let mut m = decimal_string(idx.len() as u64);
        m.append(" instances answered vitals (double-started node?)");
        notes.push(m);
    }
    let ghost count_note = views(notes@);
    assert(count_note =~= if replies.len() > 1 {
        seq![decimal(replies.len()) + " instances answered vitals (double-started node?)"@]
    } else {
        seq![]
    });
    let present = if has_token {
        Some(Presence::Token)
    } else if idx.len() > 0 {
        Some(Presence::VitalsReply)
    } else {
        None
    };
    let mut sahou_version: Option<String> = None;
    let mut generation = Generation::Unknown;
    if idx.len() > 0 {
        let first = &sweep.vitals[idx[0]].1;
        assert(*first == replies[0]);
        match first {
            Ok(v) => {
                sahou_version = Some(v.runtime.sahou.clone());
                let d = drift_exec(desc, &v.connections);
                if d.len() == 0 {
                    generation = Generation::Match;
                } else {
                    generation = Generation::Drift(join_strings(&d, ", "));
                }
                blocked_exec(&v.handshake, &mut notes);
            },
            Err(ds) => {
                diag_notes_exec(ds, &mut notes);
            },
        }
    } else {
        assert(views(notes@) =~= count_note + Seq::<Seq<char>>::empty());
    }
    NodeRow { node: node.clone(), present, sahou_version, generation, notes }
}

/// Joins who should be present (the descriptor's nodes, in order) against who answered the
/// sweep: presence by token (or, failing that, by vitals reply), the runtime version and the
/// descriptor generation from the first reply, and notes for duplicate instances, blocked
/// senders and unreadable replies.
pub fn roll_call(desc: &Descriptor, sweep: &LanSweep) -> (r: Vec<NodeRow>)
    ensures
        row_views(r@) == roll_call_of(*desc, *sweep),
{
    let mut rows: Vec<NodeRow> = Vec::new();
    let mut i: usize = 0;
    while i < desc.nodes.len()
        invariant
            i <= desc.nodes@.len(),
            rows@.len() == i,
            forall|k: int| 0 <= k < i ==> #[trigger] row_view(rows@[k]) == row_of(*desc, *sweep, desc.nodes@[k].0@),
        decreases desc.nodes@.len() - i,
    {
        let row = row_exec(desc, sweep, &desc.nodes[i].0);
        rows.push(row);
        i = i + 1;
    }
    assert(row_views(rows@) =~= roll_call_of(*desc, *sweep));
    rows
}

// ---------------------------------------------------------------- rendering

pub open spec fn gen_text(g: GenView) -> Seq<char> {
    match g {
        GenView::Match => "generation=match"@,
        GenView::Drift(c) => "generation=DRIFT("@ + c + ")"@,
        GenView::Unknown => "generation=unknown"@,
    }
}

pub open spec fn via_text(p: Presence) -> Seq<char> {
    match p {
        Presence::Token => seq![],
        Presence::VitalsReply => " (presence via vitals reply; no liveliness token)"@,
    }
}

/// The lines of one row: `[OK]` with version and generation, or `[NG]`, then its notes.
pub open spec fn row_text(r: RowView) -> Seq<char> {
    (match r.present {
        Some(src) => "  [OK] "@ + pad_right(r.node, 12) + " sahou="@ + match r.sahou_version {
            Some(v) => v,
            None => "?"@,
        } + "  "@ + gen_text(r.generation) + via_text(src),
        None => "  [NG] "@ + pad_right(r.node, 12) + " no vitals (not started / unreachable from here)"@,
    }) + "\n"@ + notes_text(r.notes)
}

pub open spec fn notes_text(ns: Seq<Seq<char>>) -> Seq<char>
    decreases ns.len(),
{
    if ns.len() == 0 {
        seq![]
    } else {
        notes_text(ns.drop_last()) + "       - "@ + ns.last() + "\n"@
    }
}

pub open spec fn roll_call_text(rows: Seq<RowView>) -> Seq<char>
    decreases rows.len(),
{
    if rows.len() == 0 {
        seq![]
    } else {
        roll_call_text(rows.drop_last()) + row_text(rows.last())
    }
}

fn push_row(out: &mut String, r: &NodeRow)
    ensures
        final(out)@ == old(out)@ + row_text(row_view(*r)),
{
    let ghost o = out@;
    let ghost rv = row_view(*r);
    let ghost line = match rv.present {
        Some(src) => "  [OK] "@ + pad_right(rv.node, 12) + " sahou="@ + match rv.sahou_version {
            Some(v) => v,
            None => "?"@,
        } + "  "@ + gen_text(rv.generation) + via_text(src),
        None => "  [NG] "@ + pad_right(rv.node, 12) + " no vitals (not started / unreachable from here)"@,
    };
    match r.present {
        Some(src) => {
            out.append("  [OK] ");
            push_padded(out, r.node.as_str(), 12);
            out.append(" sahou=");
            let ghost a = out@;
            let ghost ver = match rv.sahou_version {
                Some(v) => v,
                None => "?"@,
            };
            match &r.sahou_version {
                Some(v) => out.append(v.as_str()),
                None => out.append("?"),
            }
            assert(out@ == a + ver);
            out.append("  ");
            let ghost b = out@;
            match &r.generation {
                Generation::Match => out.append("generation=match"),
                Generation::Drift(c) => {
                    out.append("generation=DRIFT(");
                    out.append(c.as_str());
                    out.append(")");
                },
                Generation::Unknown => out.append("generation=unknown"),
            }
            assert(out@ =~= b + gen_text(rv.generation));
            let ghost c = out@;
            match src {
                Presence::Token => {},
                Presence::VitalsReply => out.append(" (presence via vitals reply; no liveliness token)"),
            }
            assert(out@ =~= c + via_text(src));
            assert(out@ =~= o + line);
        },
        None => {
            out.append("  [NG] ");
            push_padded(out, r.node.as_str(), 12);
            out.append(" no vitals (not started / unreachable from here)");
            assert(out@ =~= o + line);
        },
    }
    out.append("\n");
    let ghost head = out@;
    let mut j: usize = 0;
    let ghost nv = views(r.notes@);
    assert(nv.take(0) =~= Seq::<Seq<char>>::empty());
    while j < r.notes.len()
        invariant
            j <= r.notes@.len(),
            nv == views(r.notes@),
            out@ == head + notes_text(nv.take(j as int)),
        decreases r.notes@.len() - j,
    {
        proof {
            let pre = nv.take(j + 1);
            assert(pre.drop_last() =~= nv.take(j as int));
            assert(pre.last() == r.notes@[j as int]@);
        }
        out.append("       - ");
        out.append(r.notes[j].as_str());
        out.append("\n");
        j = j + 1;
    }
    assert(nv.take(nv.len() as int) =~= nv);
    assert(row_text(rv) == line + "\n"@ + notes_text(nv));
    assert(out@ =~= o + row_text(row_view(*r)));
}

/// The roll call as report lines (`[OK]` / `[NG]` per node, notes indented below).
pub fn render_roll_call(rows: &Vec<NodeRow>) -> (r: String)
    ensures
        r@ == roll_call_text(row_views(rows@)),
{
    let mut out = String::new();
    let mut i: usize = 0;
    assert(row_views(rows@).take(0) =~= Seq::<RowView>::empty());
    while i < rows.len()
        invariant
            i <= rows@.len(),
            out@ == roll_call_text(row_views(rows@).take(i as int)),
        decreases rows@.len() - i,
    {
        proof {
            let pre = row_views(rows@).take(i + 1);
            assert(pre.drop_last() =~= row_views(rows@).take(i as int));
            assert(pre.last() == row_view(rows@[i as int]));
        }
        push_row(&mut out, &rows[i]);
        i = i + 1;
    }
    assert(row_views(rows@).take(rows@.len() as int) =~= row_views(rows@));
    out
}

pub open spec fn vantage_text(descriptor_desc: Seq<char>, lan_secs: u64) -> Seq<char> {
    "note: a snapshot over the last "@ + decimal(lan_secs as nat) + "s from this binary's vantage, judged against "@
        + descriptor_desc
        + ". Absence can be convergence lag; green here does not guarantee green elsewhere."@
}

/// Every LAN report names its vantage and its snapshot nature.
pub fn vantage_line(descriptor_desc: &str, lan_secs: u64) -> (r: String)
    ensures
        r@ == vantage_text(descriptor_desc@, lan_secs),
{
    let mut s = String::from_str("note: a snapshot over the last ");
    s.append(decimal_string(lan_secs).as_str());
    s.append("s from this binary's vantage, judged against ");
    s.append(descriptor_desc);
    s.append(". Absence can be convergence lag; green here does not guarantee green elsewhere.");
    s
}

pub open spec fn probe_text(multicast_found: usize, direct_found: Option<usize>, local_ok: bool) -> Seq<char> {
    if multicast_found == 0 {
        match direct_found {
            Some(d) => if d > 0 {
                "multicast discovery found nothing, but the direct connection reached "@ + decimal(d as nat)
                    + " node key(s) — multicast-only filtering confirmed (IGMP snooping/querier class). Remedy: fix the switch's IGMP settings, or distribute explicit-connect endpoints."@
            } else {
                "neither multicast nor the direct connection reached anyone — full isolation (AP client isolation / VLAN) or the remote is not running. Next: run doctor on the remote machine (both-side evidence needed)."@
            },
            None => if local_ok {
                "this binary is healthy but no sahou node is visible. Suspicion-ranked: 1. the remote sahou is not started  2. the AP/hub blocks client-to-client traffic  3. multicast-only pruning (IGMP)  4. different VLAN/subnet. To narrow it down: rerun with --connect tcp/<remote-ip>:7447 for a direct-path probe."@
            } else {
                "no sahou node is visible — and this binary's own egress probe failed (see the local diagnosis above). Fix the local issue first; the LAN sweep cannot be trusted until this binary can reach the LAN."@
            },
        }
    } else {
        decimal(multicast_found as nat) + " node key(s) visible via multicast."@
    }
}

/// The verdict of the differential probe: multicast sweep against the direct connection.
/// `local_ok` says whether this binary's own egress probe passed, so a failed local probe is
/// never reported as a healthy binary.
pub fn classify_probe(multicast_found: usize, direct_found: Option<usize>, local_ok: bool) -> (r: String)
    ensures
        r@ == probe_text(multicast_found, direct_found, local_ok),
{
    if multicast_found == 0 {
        match direct_found {
            Some(d) => {
                if d > 0 {
                    let mut s = String::from_str("multicast discovery found nothing, but the direct connection reached ");
                    s.append(decimal_string(d as u64).as_str());
                    s.append(
                        " node key(s) — multicast-only filtering confirmed (IGMP snooping/querier class). Remedy: fix the switch's IGMP settings, or distribute explicit-connect endpoints.",
                    );
                    s
                } else {
                    String::from_str(
                        "neither multicast nor the direct connection reached anyone — full isolation (AP client isolation / VLAN) or the remote is not running. Next: run doctor on the remote machine (both-side evidence needed).",
                    )
                }
            },
            None => {
                if local_ok {
                    String::from_str(
                        "this binary is healthy but no sahou node is visible. Suspicion-ranked: 1. the remote sahou is not started  2. the AP/hub blocks client-to-client traffic  3. multicast-only pruning (IGMP)  4. different VLAN/subnet. To narrow it down: rerun with --connect tcp/<remote-ip>:7447 for a direct-path probe.",
                    )
                } else {
                    String::from_str(
                        "no sahou node is visible — and this binary's own egress probe failed (see the local diagnosis above). Fix the local issue first; the LAN sweep cannot be trusted until this binary can reach the LAN.",
                    )
                }
            },
        }
    } else {
        let mut s = decimal_string(multicast_found as u64);
        s.append(" node key(s) visible via multicast.");
        s
    }
}

// ---------------------------------------------------------------- the stage verdict

/// The rows of nodes that did not answer, in order.
pub open spec fn missing_nodes(rows: Seq<RowView>) -> Seq<Seq<char>>
    decreases rows.len(),
{
    if rows.len() == 0 {
        seq![]
    } else {
        missing_nodes(rows.drop_last()) + if rows.last().present is None {
            seq![rows.last().node]
        } else {
            seq![]
        }
    }
}

pub open spec fn lan_verdict_of(rows: Seq<RowView>) -> Option<DiagView> {
    let m = missing_nodes(rows);
    if m.len() == 0 {
        None
    } else {
        Some(dv(
            "doctor_lan_missing_nodes"@,
            "nodes"@,
            decimal(m.len()) + " of "@ + decimal(rows.len()) + " expected node(s) not visible from here: "@
                + join(m, ", "@) + " (see the roll call above for next steps)"@,
        ))
    }
}

fn missing_exec(rows: &Vec<NodeRow>) -> (r: Vec<String>)
    ensures
        views(r@) == missing_nodes(row_views(rows@)),
{
    let ghost rv = row_views(rows@);
    let mut out: Vec<String> = Vec::new();
    let mut i: usize = 0;
    assert(rv.take(0) =~= Seq::<RowView>::empty());
    assert(views(out@) =~= Seq::<Seq<char>>::empty());
    while i < rows.len()
        invariant
            i <= rows@.len(),
            rv == row_views(rows@),
            views(out@) == missing_nodes(rv.take(i as int)),
        decreases rows@.len() - i,
    {
        proof {
            let pre = rv.take(i + 1);
            assert(pre.drop_last() =~= rv.take(i as int));
            assert(pre.last() == row_view(rows@[i as int]));
        }
        let ghost before = views(out@);
        if rows[i].present.is_none() {
            out.push(rows[i].node.clone());
            assert(views(out@) =~= before + seq![rows@[i as int].node@]);
        } else {
            assert(views(out@) =~= before + Seq::<Seq<char>>::empty());
        }
        i = i + 1;
    }
    assert(rv.take(rv.len() as int) =~= rv);
    out
}

/// Whether every expected node answered: `Ok`, or the one diagnostic naming those that did
/// not.
pub fn lan_verdict(rows: &Vec<NodeRow>) -> (r: Result<(), Vec<Diag>>)
    ensures
        match lan_verdict_of(row_views(rows@)) {
            None => r is Ok,
            Some(d) => r is Err && diag_views(r->Err_0@) == seq![d],
        },
{
    let missing = missing_exec(rows);
    if missing.len() == 0 {
        return Ok(());
    }
    let mut m = decimal_string(missing.len() as u64);
    m.append(" of ");
    m.append(decimal_string(rows.len() as u64).as_str());
    m.append(" expected node(s) not visible from here: ");
    m.append(join_strings(&missing, ", ").as_str());
    m.append(" (see the roll call above for next steps)");
    let mut d: Vec<Diag> = Vec::new();
    crate::payload::push_diag(&mut d, Diag::new("doctor_lan_missing_nodes", String::from_str("nodes"), m));
    assert(diag_views(Seq::<Diag>::empty()) =~= Seq::<DiagView>::empty());
    assert(Seq::<DiagView>::empty() + seq![d@[0]@] =~= seq![d@[0]@]);
    Err(d)
}

/// How many nodes of the roll call are present.
pub open spec fn present_count(rows: Seq<RowView>) -> nat {
    (rows.len() - missing_nodes(rows).len()) as nat
}

proof fn lemma_missing_len(rows: Seq<RowView>)
    ensures
        missing_nodes(rows).len() <= rows.len(),
    decreases rows.len(),
{
    if rows.len() > 0 {
        lemma_missing_len(rows.drop_last());
    }
}

/// The number of present nodes.
pub fn count_present(rows: &Vec<NodeRow>) -> (r: usize)
    ensures
        r == present_count(row_views(rows@)),
{
    let m = missing_exec(rows);
    proof {
        lemma_missing_len(row_views(rows@));
    }
    rows.len() - m.len()
}

// ---------------------------------------------------------------- discovery only

/// The node keys seen without a descriptor: tokens and vitals replies together, sorted, each
/// once.
pub open spec fn discovered_keys(token_keys: Seq<Seq<char>>, reply_keys: Seq<Seq<char>>) -> Seq<Seq<char>> {
    ins_all(ins_all(seq![], token_keys), reply_keys)
}

/// One `[OK]` line per discovered key that has the vitals marker: its node (or `?`) and its
/// namespace.
pub open spec fn discovery_lines_of(keys: Seq<Seq<char>>) -> Seq<Seq<char>>
    decreases keys.len(),
{
    if keys.len() == 0 {
        seq![]
    } else {
        let k = keys.last();
        let i = find(k, vitals_marker());
        discovery_lines_of(keys.drop_last()) + if i >= 0 {
            seq![
                "  [OK] "@ + pad_right(
                    match vitals_node_of(k) {
                        Some(n) => n,
                        None => "?"@,
                    },
                    12,
                ) + " (namespace "@ + k.take(i) + ")"@,
            ]
        } else {
            seq![]
        }
    }
}

/// The discovery-only listing of every node visible (without a descriptor to judge against).
pub fn discovery_lines(token_keys: &Vec<String>, reply_keys: &Vec<String>) -> (r: Vec<String>)
    ensures
        views(r@) == discovery_lines_of(discovered_keys(views(token_keys@), views(reply_keys@))),
{
    let mut keys: Vec<String> = Vec::new();
    assert(views(keys@) =~= Seq::<Seq<char>>::empty());
    crate::stub::add_all(&mut keys, token_keys);
    crate::stub::add_all(&mut keys, reply_keys);
    let ghost kv = views(keys@);
    let m = chars_of("/@sahou/vitals/");
    let mut out: Vec<String> = Vec::new();
    let mut i: usize = 0;
    assert(kv.take(0) =~= Seq::<Seq<char>>::empty());
    assert(views(out@) =~= Seq::<Seq<char>>::empty());
    while i < keys.len()
        invariant
            i <= keys@.len(),
            kv == views(keys@),
            m@ == vitals_marker(),
            views(out@) == discovery_lines_of(kv.take(i as int)),
        decreases keys@.len() - i,
    {
        let k = keys[i].as_str();
        proof {
            let pre = kv.take(i + 1);
            assert(pre.drop_last() =~= kv.take(i as int));
            assert(pre.last() == k@);
        }
        let kc = chars_of(k);
        let ghost before = views(out@);
        proof {
            lemma_find_from_bound(kc@, m@, 0);
        }
        match find_exec(&kc, &m) {
            Some(p) => {
                let mut line = String::from_str("  [OK] ");
                match vitals_node(k) {
                    Some(n) => push_padded(&mut line, n, 12),
                    None => push_padded(&mut line, "?", 12),
                }
                line.append(" (namespace ");
                let ns = crate::strs::slice_chars(&kc, 0, p);
                line.append(crate::strs::string_of(&ns).as_str());
                line.append(")");
                out.push(line);
                assert(ns@ =~= kc@.take(p as int));
                assert(views(out@) =~= before + seq![line@]);
            },
            None => {
                assert(views(out@) =~= before + Seq::<Seq<char>>::empty());
            },
        }
        i = i + 1;
    }
    assert(kv.take(kv.len() as int) =~= kv);
    out
}

// ---------------------------------------------------------------- which descriptor

/// Where the roll call looks for a descriptor when none is named: the `sahou gen` default
/// output first, then the working directory.
pub open spec fn descriptor_candidates_of() -> Seq<Seq<char>> {
    seq!["gen/descriptor.json"@, "descriptor.json"@]
}

pub fn descriptor_candidates() -> (r: Vec<String>)
    ensures
        views(r@) == descriptor_candidates_of(),
{
    let mut v: Vec<String> = Vec::new();
    v.push(String::from_str("gen/descriptor.json"));
    v.push(String::from_str("descriptor.json"));
    assert(views(v@) =~= descriptor_candidates_of());
    v
}

/// What reading an explicitly named descriptor file gave.
pub enum DescriptorRead {
    /// the file could not be read (the error's text)
    Unreadable(String),
    /// the file loads as a descriptor
    Loaded(Descriptor),
    /// the file does not load as a descriptor: the first loading diagnostic's message, and
    /// whether the text is a contract (a schema) instead
    Broken { first_message: Option<String>, is_schema: bool },
}

/// An explicitly named descriptor is used as is, and any failure with it is a hard error; a
/// schema passed by mistake gets a hint instead of a parse error.
pub open spec fn explicit_descriptor_of(path: Seq<char>, read: DescriptorRead) -> Result<Descriptor, DiagView> {
    match read {
        DescriptorRead::Unreadable(e) => Err(dv("doctor_descriptor_unreadable"@, "$"@, "cannot read "@ + path + ": "@ + e@)),
        DescriptorRead::Loaded(d) => Ok(d),
        DescriptorRead::Broken { first_message, is_schema } => if is_schema {
            Err(
                dv(
                    "doctor_schema_not_descriptor"@,
                    "$"@,
                    path
                        + " is a schema, not the generated descriptor. Run `sahou gen` and pass its descriptor.json (default: gen/descriptor.json)"@,
                ),
            )
        } else {
            Err(
                dv(
                    "doctor_descriptor_unreadable"@,
                    "$"@,
                    path + " is not a loadable descriptor: "@ + match first_message {
                        Some(m) => m@,
                        None => seq![],
                    },
                ),
            )
        },
    }
}

pub fn explicit_descriptor(path: &str, read: DescriptorRead) -> (r: Result<Descriptor, Vec<Diag>>)
    ensures
        match explicit_descriptor_of(path@, read) {
            Ok(d) => r == Ok::<Descriptor, Vec<Diag>>(d),
            Err(v) => r is Err && diag_views(r->Err_0@) == seq![v],
        },
{
    let d = match read {
        DescriptorRead::Loaded(d) => {
            return Ok(d);
        },
        DescriptorRead::Unreadable(e) => {
            let mut m = cat("cannot read ", path);
            m.append(": ");
            m.append(e.as_str());
            Diag::new("doctor_descriptor_unreadable", String::from_str("$"), m)
        },
        DescriptorRead::Broken { first_message, is_schema } => {
            if is_schema {
                let m = cat(
                    path,
                    " is a schema, not the generated descriptor. Run `sahou gen` and pass its descriptor.json (default: gen/descriptor.json)",
                );
                Diag::new("doctor_schema_not_descriptor", String::from_str("$"), m)
            } else {
                let mut m = cat(path, " is not a loadable descriptor: ");
                match &first_message {
                    Some(fm) => m.append(fm.as_str()),
                    None => {},
                }
                Diag::new("doctor_descriptor_unreadable", String::from_str("$"), m)
            }
        },
    };
    let mut v: Vec<Diag> = Vec::new();
    v.push(d);
    assert(diag_views(v@) =~= seq![explicit_descriptor_of(path@, read)->Err_0]);
    Err(v)
}

// ---------------------------------------------------------------- the probe sequence

/// Where the sweeps of the mesh stage stand.
#[derive(Debug, Clone, Copy, PartialEq, Eq, Structural)]
pub enum ProbeStage {
    /// The normal sweep (multicast, plus the explicit endpoint if one is given) is running.
    Normal,
    /// The sweep over the explicit endpoint alone is running.
    DirectOnly,
    /// The multicast-only sweep is running; `found` nodes answered the normal sweep.
    MulticastOnly { found: usize },
    Done,
}

/// What the caller reports back to the probe sequence.
#[derive(Debug, Clone, Copy, PartialEq, Eq, Structural)]
pub enum ProbeEvent {
    /// A sweep ended with this many nodes present in the roll call.
    Swept(usize),
    /// The session for the sweep could not be opened.
    NoSession,
}

/// What the caller does next.
#[derive(Debug)]
pub enum ProbeAction {
    /// Sweep over the explicit endpoint alone, with multicast off.
    SweepDirect,
    /// Sweep with multicast alone, without the explicit endpoint.
    SweepMulticastOnly,
    /// Print these lines; the sequence is over.
    Print(Vec<String>),
    /// Nothing more to do.
    Stop,
}

pub enum ProbeActionView {
    SweepDirect,
    SweepMulticastOnly,
    Print(Seq<Seq<char>>),
    Stop,
}

pub open spec fn probe_action_view(a: ProbeAction) -> ProbeActionView {
    match a {
        ProbeAction::SweepDirect => ProbeActionView::SweepDirect,
        ProbeAction::SweepMulticastOnly => ProbeActionView::SweepMulticastOnly,
        ProbeAction::Print(v) => ProbeActionView::Print(views(v@)),
        ProbeAction::Stop => ProbeActionView::Stop,
    }
}

pub open spec fn endpoint_only_warning() -> Seq<char> {
    "warning: the roll call succeeded only via the explicit endpoint:"@
}

/// The next stage and action of the probe sequence. Nobody visible on the normal sweep: with
/// an explicit endpoint, probe it alone (its count goes into the verdict; a session that cannot
/// be opened counts as nobody), else print the verdict. Somebody visible with an explicit
/// endpoint: check multicast alone, and warn when it finds nobody.
pub open spec fn probe_next(stage: ProbeStage, has_endpoint: bool, local_ok: bool, event: ProbeEvent) -> (ProbeStage, ProbeActionView) {
    match (stage, event) {
        (ProbeStage::Normal, ProbeEvent::Swept(found)) => if found == 0 {
            if has_endpoint {
                (ProbeStage::DirectOnly, ProbeActionView::SweepDirect)
            } else {
                (ProbeStage::Done, ProbeActionView::Print(seq![probe_text(0, None, local_ok)]))
            }
        } else if has_endpoint {
            (ProbeStage::MulticastOnly { found }, ProbeActionView::SweepMulticastOnly)
        } else {
            (ProbeStage::Done, ProbeActionView::Stop)
        },
        (ProbeStage::DirectOnly, ProbeEvent::Swept(n)) => (
            ProbeStage::Done,
            ProbeActionView::Print(seq![probe_text(0, Some(n), local_ok)]),
        ),
        (ProbeStage::DirectOnly, ProbeEvent::NoSession) => (
            ProbeStage::Done,
            ProbeActionView::Print(seq![probe_text(0, Some(0), local_ok)]),
        ),
        (ProbeStage::MulticastOnly { found }, ProbeEvent::Swept(n)) => if n == 0 {
            (
                ProbeStage::Done,
                ProbeActionView::Print(seq![endpoint_only_warning(), probe_text(0, Some(found), local_ok)]),
            )
        } else {
            (ProbeStage::Done, ProbeActionView::Stop)
        },
        _ => (ProbeStage::Done, ProbeActionView::Stop),
    }
}

/// One step of the probe sequence of `doctor --lan`: the caller runs the sweeps and reports
/// each outcome here.
pub fn probe_step(stage: ProbeStage, has_endpoint: bool, local_ok: bool, event: ProbeEvent) -> (r: (ProbeStage, ProbeAction))
    ensures
        (r.0, probe_action_view(r.1)) == probe_next(stage, has_endpoint, local_ok, event),
{
    match (stage, event) {
        (ProbeStage::Normal, ProbeEvent::Swept(found)) => {
            if found == 0 {
                if has_endpoint {
                    (ProbeStage::DirectOnly, ProbeAction::SweepDirect)
                } else {
                    let v = vec![classify_probe(0, None, local_ok)];
                    assert(views(v@) =~= seq![probe_text(0, None, local_ok)]);
                    (ProbeStage::Done, ProbeAction::Print(v))
                }
            } else if has_endpoint {
                (ProbeStage::MulticastOnly { found }, ProbeAction::SweepMulticastOnly)
            } else {
                (ProbeStage::Done, ProbeAction::Stop)
            }
        },
        (ProbeStage::DirectOnly, ProbeEvent::Swept(n)) => {
            let v = vec![classify_probe(0, Some(n), local_ok)];
            assert(views(v@) =~= seq![probe_text(0, Some(n), local_ok)]);
            (ProbeStage::Done, ProbeAction::Print(v))
        },
        (ProbeStage::DirectOnly, ProbeEvent::NoSession) => {
            let v = vec![classify_probe(0, Some(0), local_ok)];
            assert(views(v@) =~= seq![probe_text(0, Some(0), local_ok)]);
            (ProbeStage::Done, ProbeAction::Print(v))
        },
        (ProbeStage::MulticastOnly { found }, ProbeEvent::Swept(n)) => {
            if n == 0 {
                let v = vec![
                    String::from_str("warning: the roll call succeeded only via the explicit endpoint:"),
                    classify_probe(0, Some(found), local_ok),
                ];
                assert(views(v@) =~= seq![endpoint_only_warning(), probe_text(0, Some(found), local_ok)]);
                (ProbeStage::Done, ProbeAction::Print(v))
            } else {
                (ProbeStage::Done, ProbeAction::Stop)
            }
        },
        _ => (ProbeStage::Done, ProbeAction::Stop),
    }
}

/// The probe sequence is over after at most three steps, whatever the sweeps report.
pub proof fn probe_sequence_ends(has_endpoint: bool, local_ok: bool, e1: ProbeEvent, e2: ProbeEvent, e3: ProbeEvent)
    ensures
        ({
            let s1 = probe_next(ProbeStage::Normal, has_endpoint, local_ok, e1).0;
            let s2 = probe_next(s1, has_endpoint, local_ok, e2).0;
            s2 == ProbeStage::Done && probe_next(s2, has_endpoint, local_ok, e3) == (ProbeStage::Done, ProbeActionView::Stop)
        }),
{
}

} // verus!
