//! Observing and injecting without an app: which connections to watch from which vantage,
//! how a send is assembled, and how each observed event, diagnostic and handshake judgement
//! is written. Every verdict comes from the runtime boundary functions; the session stays
//! with the caller.
use vstd::prelude::*;

use crate::diag::{diag_views, dv, Diag, DiagView};
use crate::jsontext::{json_string, json_text};
use crate::model::{find_key, has_key, lookup, Descriptor, DescriptorConnection, Json, Pattern};
use crate::payload::push_diag;
use crate::runtime::{
    conn_of, conns_where, fragment_view, handshake_judge, judge_of, node_plan, prepare_publish,
    prepare_request, unknown_node_diag, AcceptOutcome, HandshakeOutcome, HandshakeView, WireMsg,
};
use crate::strs::{
    cat, decimal, decimal_string, join, join_strings, pad_right, push_padded, push_spaces, spaces,
    string_eq, views,
};
use crate::style::{painted, paint, Tone, heading};

verus! {

pub open spec fn tap_err(path: Seq<char>, msg: Seq<char>) -> DiagView {
    dv("tap_error"@, path, msg)
}

fn one(d: Diag) -> (r: Vec<Diag>)
    ensures
        diag_views(r@) == seq![d@],
{
    let mut v: Vec<Diag> = Vec::new();
    push_diag(&mut v, d);
    assert(diag_views(Seq::<Diag>::empty()) =~= Seq::<DiagView>::empty());
    assert(Seq::<DiagView>::empty() + seq![d@] =~= seq![d@]);
    v
}

// ---------------------------------------------------------------- targets

/// For each pub_sub connection in turn, it and its first receiver; a connection without a
/// receiver is the diagnostic.
pub open spec fn all_targets(cs: Seq<(String, DescriptorConnection)>) -> Result<Seq<(Seq<char>, Seq<char>)>, DiagView>
    decreases cs.len(),
{
    if cs.len() == 0 {
        Ok(seq![])
    } else {
        match all_targets(cs.drop_last()) {
            Err(d) => Err(d),
            Ok(acc) => {
                let (id, c) = cs.last();
                if c.pattern != Pattern::PubSub {
                    Ok(acc)
                } else if c.to@.len() == 0 {
                    Err(dv(
                        "no_receiver"@,
                        "connections."@ + id@,
                        "connection '"@ + id@ + "' has no receiver (to) defined"@,
                    ))
                } else {
                    Ok(acc.push((id@, c.to@[0]@)))
                }
            },
        }
    }
}

/// What to observe from which vantage: for a node, each connection it subscribes to (a node
/// without subscriptions, or an unknown one, is the diagnostic); without a node, every
/// pub_sub connection from its first receiver.
pub open spec fn targets_of(desc: Descriptor, node: Option<Seq<char>>) -> Result<Seq<(Seq<char>, Seq<char>)>, DiagView> {
    match node {
        Some(n) => if !has_key(desc.nodes@, n) {
            Err(unknown_node_diag(n))
        } else {
            let subs = conns_where(desc.connections@, n, Pattern::PubSub, false);
            if subs.len() == 0 {
                Err(tap_err("nodes."@ + n, "node '"@ + n + "' has no subscribing connections (nothing to observe)"@))
            } else {
                Ok(subs.map_values(|c: Seq<char>| (c, n)))
            }
        },
        None => match all_targets(desc.connections@) {
            Err(d) => Err(d),
            Ok(t) => if t.len() == 0 {
                Err(tap_err("connections"@, "no pub_sub connections (nothing to observe)"@))
            } else {
                Ok(t)
            },
        },
    }
}

proof fn lemma_targets_err(cs: Seq<(String, DescriptorConnection)>, n: int)
    requires
        0 <= n <= cs.len(),
        all_targets(cs.take(n)) is Err,
    ensures
        all_targets(cs) == all_targets(cs.take(n)),
    decreases cs.len() - n,
{
    if n == cs.len() {
        assert(cs.take(n) =~= cs);
    } else {
        assert(cs.take(n + 1).drop_last() =~= cs.take(n));
        lemma_targets_err(cs, n + 1);
    }
}

pub open spec fn pairs_of(v: Seq<(String, String)>) -> Seq<(Seq<char>, Seq<char>)> {
    v.map_values(|e: (String, String)| (e.0@, e.1@))
}

/// The (connection, vantage node) pairs to watch.
pub fn watch_targets(desc: &Descriptor, node: Option<&str>) -> (r: Result<Vec<(String, String)>, Vec<Diag>>)
    ensures
        match (r, targets_of(*desc, crate::runtime::opt_view(node))) {
            (Ok(v), Ok(t)) => pairs_of(v@) == t,
            (Err(d), Err(e)) => diag_views(d@) == seq![e],
            _ => false,
        },
{
    match node {
        Some(n) => {
            let plan = match node_plan(desc, n) {
                Ok(p) => p,
                Err(d) => return Err(d),
            };
            if plan.subscribes.len() == 0 {
                let mut m = String::from_str("node '");
                m.append(n);
                m.append("' has no subscribing connections (nothing to observe)");
                return Err(one(Diag::new("tap_error", cat("nodes.", n), m)));
            }
            let mut out: Vec<(String, String)> = Vec::new();
            let mut i: usize = 0;
            while i < plan.subscribes.len()
                invariant
                    i <= plan.subscribes@.len(),
                    out@.len() == i,
                    forall|k: int| 0 <= k < i ==> #[trigger] pairs_of(out@)[k] == (plan.subscribes@[k]@, n@),
                decreases plan.subscribes@.len() - i,
            {
                let ghost before = out@;
                out.push((plan.subscribes[i].clone(), String::from_str(n)));
                assert forall|k: int| 0 <= k < i + 1 implies #[trigger] pairs_of(out@)[k] == (plan.subscribes@[k]@, n@) by {
                    if k < i {
                        assert(out@[k] == before[k]);
                        assert(pairs_of(before)[k] == (plan.subscribes@[k]@, n@));
                    }
                }
                i = i + 1;
            }
            assert(pairs_of(out@) =~= views(plan.subscribes@).map_values(|c: Seq<char>| (c, n@)));
            Ok(out)
        },
        None => {
            let ghost cs = desc.connections@;
            let mut out: Vec<(String, String)> = Vec::new();
            let mut i: usize = 0;
            assert(cs.take(0) =~= Seq::<(String, DescriptorConnection)>::empty());
            assert(pairs_of(out@) =~= Seq::<(Seq<char>, Seq<char>)>::empty());
            while i < desc.connections.len()
                invariant
                    cs == desc.connections@,
                    node is None,
                    i <= cs.len(),
                    all_targets(cs.take(i as int)) == Ok::<Seq<(Seq<char>, Seq<char>)>, DiagView>(pairs_of(out@)),
                decreases cs.len() - i,
            {
                proof {
                    let pre = cs.take(i + 1);
                    assert(pre.drop_last() =~= cs.take(i as int));
                    assert(pre.last() == cs[i as int]);
                }
                let id = &desc.connections[i].0;
                let c = &desc.connections[i].1;
                if c.pattern == Pattern::PubSub {
                    if c.to.len() == 0 {
                        let mut m = String::from_str("connection '");
                        m.append(id.as_str());
                        m.append("' has no receiver (to) defined");
                        let d = Diag::new("no_receiver", cat("connections.", id.as_str()), m);
                        proof {
                            lemma_targets_err(cs, i + 1);
                        }
                        return Err(one(d));
                    }
                    let ghost before = pairs_of(out@);
                    out.push((id.clone(), c.to[0].clone()));
                    assert(pairs_of(out@) =~= before.push((id@, c.to@[0]@)));
                }
                i = i + 1;
            }
            assert(cs.take(cs.len() as int) =~= cs);
            if out.len() == 0 {
                return Err(one(Diag::new(
                    "tap_error",
                    String::from_str("connections"),
                    String::from_str("no pub_sub connections (nothing to observe)"),
                )));
            }
            Ok(out)
        },
    }
}

// ---------------------------------------------------------------- sending

/// The slot a sample for `conn` is made from: the payload of a pub_sub connection, the
/// request of a query.
pub open spec fn send_slot_of(c: DescriptorConnection) -> Option<crate::model::Slot> {
    match c.pattern {
        Pattern::PubSub => c.payload,
        Pattern::Query => c.request,
    }
}

/// The slot to make a sample from when sending on `conn`: an unknown connection, or one
/// without that slot, is the diagnostic.
pub fn sample_source<'a>(desc: &'a Descriptor, conn: &str) -> (r: Result<&'a crate::model::Slot, Vec<Diag>>)
    ensures
        match r {
            Ok(s) => has_key(desc.connections@, conn@) && send_slot_of(desc.connections@[find_key(desc.connections@, conn@)].1) == Some(*s),
            Err(d) => if has_key(desc.connections@, conn@) {
                send_slot_of(desc.connections@[find_key(desc.connections@, conn@)].1) is None
                    && diag_views(d@) == seq![tap_err("connections."@ + conn@, "the descriptor has no slot (the gen output is broken)"@)]
            } else {
                diag_views(d@) == seq![crate::runtime::unknown_connection_diag(conn@)]
            },
        },
{
    let c = match conn_of(desc, conn) {
        Ok(c) => c,
        Err(d) => return Err(d),
    };
    let slot = match c.pattern {
        Pattern::PubSub => &c.payload,
        Pattern::Query => &c.request,
    };
    match slot {
        Some(s) => Ok(s),
        None => Err(one(Diag::new(
            "tap_error",
            cat("connections.", conn),
            String::from_str("the descriptor has no slot (the gen output is broken)"),
        ))),
    }
}

/// The assembled message to send, from the connection's sending side.
#[derive(Debug)]
pub struct SendPlan {
    pub pattern: Pattern,
    pub from: String,
    pub msg: WireMsg,
}

/// Assembles the message to send on `conn` from its `from` node: exactly one of a payload
/// (the text read as JSON, or why it is not) and a generated sample must be given. The send
/// boundary of the runtime judges it.
pub fn build_send(desc: &Descriptor, conn: &str, payload: Option<Result<Json, String>>, sample: Option<Json>) -> (r: Result<SendPlan, Vec<Diag>>)
    ensures
        !has_key(desc.connections@, conn@) ==> r is Err && diag_views(r->Err_0@) == seq![crate::runtime::unknown_connection_diag(conn@)],
        has_key(desc.connections@, conn@) && (payload is Some == sample is Some) ==> r is Err && diag_views(r->Err_0@) == seq![tap_err("$"@, "specify exactly one of --payload <json> or --sample"@)],
        has_key(desc.connections@, conn@) && (payload is Some != sample is Some) ==> {
            let c = desc.connections@[find_key(desc.connections@, conn@)].1;
            let parsed = match (payload, sample) {
                (Some(p), _) => crate::runtime::parsed_view(p),
                (None, Some(s)) => Ok(s),
                _ => Ok(Json::Null),
            };
            let role = crate::runtime::Role::From;
            let v = crate::runtime::send_verdict(*desc, c.from@, conn@, c.pattern, role,
                if c.pattern == Pattern::PubSub { crate::runtime::SlotSel::Payload } else { crate::runtime::SlotSel::Request },
                parsed, 0);
            match r {
                Ok(plan) => plan.pattern == c.pattern && plan.from@ == c.from@ && crate::runtime::wire_matches(Ok(plan.msg), v),
                Err(d) => crate::runtime::wire_matches(Err(d), v),
            }
        },
{
    let c = match conn_of(desc, conn) {
        Ok(c) => c,
        Err(d) => return Err(d),
    };
    let parsed = match (payload, sample) {
        (Some(p), None) => p,
        (None, Some(s)) => Ok(s),
        _ => {
            return Err(one(Diag::new(
                "tap_error",
                String::from_str("$"),
                String::from_str("specify exactly one of --payload <json> or --sample"),
            )));
        },
    };
    let from = c.from.clone();
    let pattern = c.pattern;
    let msg = match pattern {
        Pattern::PubSub => prepare_publish(desc, from.as_str(), conn, parsed, 0),
        Pattern::Query => prepare_request(desc, from.as_str(), conn, parsed, 0),
    };
    match msg {
        Ok(m) => Ok(SendPlan { pattern, from, msg: m }),
        Err(d) => Err(d),
    }
}

// ---------------------------------------------------------------- writing events

/// The UTF-8 length of a character.
pub open spec fn utf8_width(c: char) -> nat {
    if (c as u32) < 0x80 {
        1
    } else if (c as u32) < 0x800 {
        2
    } else if (c as u32) < 0x10000 {
        3
    } else {
        4
    }
}

/// The UTF-8 length of a text (`str::len`).
pub open spec fn utf8_len(s: Seq<char>) -> nat
    decreases s.len(),
{
    if s.len() == 0 {
        0
    } else {
        utf8_len(s.drop_last()) + utf8_width(s.last())
    }
}

proof fn lemma_utf8_len_bound(s: Seq<char>)
    ensures
        utf8_len(s) <= 4 * s.len(),
    decreases s.len(),
{
    if s.len() > 0 {
        lemma_utf8_len_bound(s.drop_last());
    }
}

fn byte_len(s: &str) -> (r: usize)
    requires
        4 * s@.len() <= usize::MAX,
    ensures
        r == utf8_len(s@),
{
    let v = crate::strs::chars_of(s);
    let mut n: usize = 0;
    let mut i: usize = 0;
    assert(v@.take(0) =~= Seq::<char>::empty());
    while i < v.len()
        invariant
            v@ == s@,
            4 * s@.len() <= usize::MAX,
            i <= v@.len(),
            n == utf8_len(v@.take(i as int)),
        decreases v@.len() - i,
    {
        proof {
            let pre = v@.take(i + 1);
            assert(pre.drop_last() =~= v@.take(i as int));
            assert(pre.last() == v@[i as int]);
            lemma_utf8_len_bound(v@.take(i as int));
        }
        let c = v[i] as u32;
        let w: usize = if c < 0x80 {
            1
        } else if c < 0x800 {
            2
        } else if c < 0x10000 {
            3
        } else {
            4
        };
        n = n + w;
        i = i + 1;
    }
    assert(v@.take(v@.len() as int) =~= v@);
    n
}

/// The widest connection name (in bytes) among `targets`.
pub open spec fn width_of(targets: Seq<(Seq<char>, Seq<char>)>) -> nat
    decreases targets.len(),
{
    if targets.len() == 0 {
        0
    } else {
        let w = width_of(targets.drop_last());
        let x = utf8_len(targets.last().0);
        if x > w {
            x
        } else {
            w
        }
    }
}

/// The column width for connection names: the longest watched one.
pub fn conn_width(targets: &Vec<(String, String)>) -> (r: usize)
    requires
        forall|i: int| 0 <= i < targets@.len() ==> 4 * (#[trigger] targets@[i]).0@.len() <= usize::MAX,
    ensures
        r == width_of(pairs_of(targets@)),
{
    let ghost tv = pairs_of(targets@);
    let mut w: usize = 0;
    let mut i: usize = 0;
    assert(tv.take(0) =~= Seq::<(Seq<char>, Seq<char>)>::empty());
    while i < targets.len()
        invariant
            i <= targets@.len(),
            tv == pairs_of(targets@),
            forall|i: int| 0 <= i < targets@.len() ==> 4 * (#[trigger] targets@[i]).0@.len() <= usize::MAX,
            w == width_of(tv.take(i as int)),
        decreases targets@.len() - i,
    {
        proof {
            let pre = tv.take(i + 1);
            assert(pre.drop_last() =~= tv.take(i as int));
            assert(pre.last() == (targets@[i as int].0@, targets@[i as int].1@));
        }
        let x = byte_len(targets[i].0.as_str());
        if x > w {
            w = x;
        }
        i = i + 1;
    }
    assert(tv.take(tv.len() as int) =~= tv);
    w
}

/// A stream badge: ` OK ` or ` NO `, bold.
pub open spec fn badge_text(ok: bool) -> Seq<char> {
    if ok {
        painted(Tone::OkBold, " OK "@)
    } else {
        painted(Tone::BadBold, " NO "@)
    }
}

fn badge(ok: bool) -> (r: String)
    ensures
        r@ == badge_text(ok),
{
    if ok {
        paint(Tone::OkBold, " OK ")
    } else {
        paint(Tone::BadBold, " NO ")
    }
}

/// `code @path: message`, the code red and the path dim.
pub open spec fn styled(d: DiagView) -> Seq<char> {
    painted(Tone::Bad, d.code) + " "@ + painted(Tone::Meta, "@"@ + d.path) + ": "@ + d.message
}

pub fn styled_diag(d: &Diag) -> (r: String)
    ensures
        r@ == styled(d@),
{
    let mut r = paint(Tone::Bad, d.code.as_str());
    r.append(" ");
    r.append(paint(Tone::Meta, cat("@", d.path.as_str()).as_str()).as_str());
    r.append(": ");
    r.append(d.message.as_str());
    r
}

/// The indent that aligns continuation lines with the content column:
/// badge (4), space, connection (w), two spaces, sequence number (5), space.
pub open spec fn indent_of(w: nat) -> Seq<char> {
    spaces(w + 13)
}

pub fn content_indent(w: usize) -> (r: String)
    requires
        w + 13 <= usize::MAX,
    ensures
        r@ == indent_of(w as nat),
{
    let mut s = String::new();
    push_spaces(&mut s, w + 13);
    assert(s@ =~= indent_of(w as nat));
    s
}

pub open spec fn lead_text(ok: bool, conn: Seq<char>, w: nat, seq: u64) -> Seq<char> {
    badge_text(ok) + " "@ + pad_right(conn, w) + "  "@ + painted(Tone::Meta, pad_right("#"@ + decimal(seq as nat), 5)) + " "@
}

pub open spec fn rest_diags(ds: Seq<DiagView>, w: nat) -> Seq<char>
    decreases ds.len(),
{
    if ds.len() == 0 {
        seq![]
    } else {
        rest_diags(ds.drop_last(), w) + "\n"@ + indent_of(w) + styled(ds.last())
    }
}

/// One observed event: ` OK ` and the payload's JSON text, or ` NO ` and the diagnostics
/// (one per line), or ` NO ` and the sender's hash for a generation mismatch.
pub open spec fn event_text(conn: Seq<char>, w: nat, seq: u64, outcome: AcceptOutcome) -> Seq<char> {
    match outcome {
        AcceptOutcome::Accept { payload } => lead_text(true, conn, w, seq) + json_text(payload),
        AcceptOutcome::Reject { diags } => {
            let ds = diag_views(diags@);
            lead_text(false, conn, w, seq) + if ds.len() > 0 {
                styled(ds[0]) + rest_diags(ds.drop_first(), w)
            } else {
                seq![]
            }
        },
        AcceptOutcome::HashMismatch { sender_hash } => lead_text(false, conn, w, seq) + painted(Tone::Bad, "hash_mismatch"@)
            + " — sender contract generation differs ("@ + sender_hash@ + ")"@,
    }
}

fn lead(ok: bool, conn: &str, w: usize, seq: u64) -> (r: String)
    ensures
        r@ == lead_text(ok, conn@, w as nat, seq),
{
    let mut r = badge(ok);
    r.append(" ");
    push_padded(&mut r, conn, w);
    r.append("  ");
    let mut n = String::from_str("#");
    n.append(decimal_string(seq).as_str());
    let mut p = String::new();
    push_padded(&mut p, n.as_str(), 5);
    assert(p@ =~= pad_right("#"@ + decimal(seq as nat), 5));
    r.append(paint(Tone::Meta, p.as_str()).as_str());
    r.append(" ");
    r
}

pub fn format_event(conn: &str, w: usize, seq: u64, outcome: &AcceptOutcome) -> (r: String)
    requires
        w + 13 <= usize::MAX,
    ensures
        r@ == event_text(conn@, w as nat, seq, *outcome),
{
    let mut r = lead(match outcome {
        AcceptOutcome::Accept { .. } => true,
        _ => false,
    }, conn, w, seq);
    match outcome {
        AcceptOutcome::Accept { payload } => {
            r.append(json_string(payload).as_str());
        },
        AcceptOutcome::Reject { diags } => {
            let ghost ds = diag_views(diags@);
            let ghost head = r@;
            if diags.len() > 0 {
                r.append(styled_diag(&diags[0]).as_str());
                let ghost mid = r@;
                let indent = content_indent(w);
                let mut i: usize = 1;
                assert(ds.drop_first().take(0) =~= Seq::<DiagView>::empty());
                assert(mid + rest_diags(Seq::<DiagView>::empty(), w as nat) =~= mid);
                while i < diags.len()
                    invariant
                        1 <= i <= diags@.len(),
                        ds == diag_views(diags@),
                        indent@ == indent_of(w as nat),
                        r@ == mid + rest_diags(ds.drop_first().take(i - 1), w as nat),
                    decreases diags@.len() - i,
                {
                    proof {
                        let pre = ds.drop_first().take(i as int);
                        assert(pre.drop_last() =~= ds.drop_first().take(i - 1));
                        assert(pre.last() == diags@[i as int]@);
                    }
                    r.append("\n");
                    r.append(indent.as_str());
                    r.append(styled_diag(&diags[i]).as_str());
                    i = i + 1;
                }
                assert(ds.drop_first().take(ds.len() - 1) =~= ds.drop_first());
                assert(r@ =~= head + (styled(ds[0]) + rest_diags(ds.drop_first(), w as nat)));
            } else {
                assert(r@ =~= head + Seq::<char>::empty());
            }
        },
        AcceptOutcome::HashMismatch { sender_hash } => {
            r.append(paint(Tone::Bad, "hash_mismatch").as_str());
            r.append(" — sender contract generation differs (");
            r.append(sender_hash.as_str());
            r.append(")");
        },
    }
    r
}

/// A `!`-marked handshake row aligned with the event columns (an empty sequence slot).
pub open spec fn handshake_row_text(conn: Seq<char>, w: nat, content: Seq<char>) -> Seq<char> {
    painted(Tone::Warn, " !  "@) + " "@ + pad_right(conn, w) + "  "@ + spaces(5) + " "@ + content
}

fn handshake_row(conn: &str, w: usize, content: &str) -> (r: String)
    ensures
        r@ == handshake_row_text(conn@, w as nat, content@),
{
    let mut r = paint(Tone::Warn, " !  ");
    r.append(" ");
    push_padded(&mut r, conn, w);
    r.append("  ");
    push_spaces(&mut r, 5);
    r.append(" ");
    r.append(content);
    r
}

pub open spec fn styled_list(ds: Seq<DiagView>) -> Seq<char> {
    join(ds.map_values(|d: DiagView| styled(d)), "; "@)
}

/// The explanation of a delivery-time hash mismatch: the runtime's handshake judgement of
/// the sender's contract fragment (`theirs`: the decoded fragment, or why it could not be
/// had), written as a handshake row, relative to the loaded descriptor.
pub open spec fn explain_text(desc: Descriptor, conn: Seq<char>, w: nat, sender_hash: Seq<char>, theirs: Result<DescriptorConnection, (Seq<char>, Seq<char>)>) -> Seq<char> {
    let (word, tone, detail) = match judge_of(desc, conn, sender_hash, theirs) {
        HandshakeView::Accepted => (
            "accepted"@,
            Tone::Good,
            "sender "@ + sender_hash + ": contracts differ but are additive-compatible; delivery would proceed after the handshake"@,
        ),
        HandshakeView::Blocked(ds) => ("blocked"@, Tone::Bad, "sender "@ + sender_hash + ": "@ + styled_list(ds)),
        HandshakeView::Unreachable(ds) => ("unreachable"@, Tone::Warn, "sender "@ + sender_hash + ": "@ + styled_list(ds)),
    };
    handshake_row_text(conn, w, "handshake: "@ + painted(tone, word) + " — "@ + detail) + "\n"@ + indent_of(w)
        + painted(Tone::Meta, "(judged vs the descriptor tap loaded)"@)
}

fn styled_list_exec(diags: &Vec<Diag>) -> (r: String)
    ensures
        r@ == styled_list(diag_views(diags@)),
{
    let mut parts: Vec<String> = Vec::new();
    let mut i: usize = 0;
    while i < diags.len()
        invariant
            i <= diags@.len(),
            parts@.len() == i,
            forall|k: int| 0 <= k < i ==> #[trigger] parts@[k]@ == styled(diags@[k]@),
        decreases diags@.len() - i,
    {
        parts.push(styled_diag(&diags[i]));
        i = i + 1;
    }
    assert(views(parts@) =~= diag_views(diags@).map_values(|d: DiagView| styled(d)));
    join_strings(&parts, "; ")
}

/// A query reply that came back as an error: ` NO `, the connection, an empty sequence
/// column, `reply_err` and the reply's diagnostics joined by `; `.
pub open spec fn reply_err_text(conn: Seq<char>, w: nat, ds: Seq<DiagView>) -> Seq<char> {
    badge_text(false) + " "@ + pad_right(conn, w) + "  "@ + spaces(5) + " reply_err "@ + styled_list(ds)
}

pub fn reply_err_line(conn: &str, w: usize, diags: &Vec<Diag>) -> (r: String)
    ensures
        r@ == reply_err_text(conn@, w as nat, diag_views(diags@)),
{
    let mut r = badge(false);
    r.append(" ");
    push_padded(&mut r, conn, w);
    r.append("  ");
    push_spaces(&mut r, 5);
    r.append(" reply_err ");
    r.append(styled_list_exec(diags).as_str());
    r
}

/// What a query that drew no reply within the two-second timeout prints.
pub open spec fn no_response_text() -> Seq<char> {
    crate::style::glyph_spec(crate::style::Status::Warn) + " "@ + painted(
        Tone::Warn,
        "no response (timeout 2s; the responder is absent or the route has not converged)"@,
    )
}

pub fn no_response_line() -> (r: String)
    ensures
        r@ == no_response_text(),
{
    let mut r = crate::style::Status::Warn.glyph();
    r.append(" ");
    r.append(
        paint(Tone::Warn, "no response (timeout 2s; the responder is absent or the route has not converged)").as_str(),
    );
    r
}

/// The hint after a hash mismatch on the reply of a send: a send does not handshake, so the
/// explanation is left to a watch.
pub open spec fn send_hint_line() -> Seq<char> {
    "tap --send does not handshake; run tap watch on this connection to fetch the sender's contract and explain the mismatch"@
}

pub fn send_hint() -> (r: String)
    ensures
        r@ == crate::style::labeled_row("hint"@, Tone::Action, 0, send_hint_line()),
{
    let mut lines: Vec<String> = Vec::new();
    lines.push(String::from_str(
        "tap --send does not handshake; run tap watch on this connection to fetch the sender's contract and explain the mismatch",
    ));
    let r = crate::style::labeled_block("hint", Tone::Action, &lines);
    proof {
        assert(views(lines@) =~= seq![send_hint_line()]);
        assert(crate::style::labeled_rows("hint"@, Tone::Action, views(lines@), 0) == Seq::<char>::empty());
    }
    r
}

pub fn explain_mismatch(desc: &Descriptor, conn: &str, w: usize, sender_hash: &str, theirs: Result<DescriptorConnection, (String, String)>) -> (r: String)
    requires
        w + 13 <= usize::MAX,
    ensures
        r@ == explain_text(*desc, conn@, w as nat, sender_hash@, fragment_view(theirs)),
{
    let outcome = handshake_judge(desc, conn, sender_hash, theirs);
    let mut detail = cat("sender ", sender_hash);
    let (word, tone) = match &outcome {
        HandshakeOutcome::Accepted => {
            detail.append(
                ": contracts differ but are additive-compatible; delivery would proceed after the handshake",
            );
            ("accepted", Tone::Good)
        },
        HandshakeOutcome::Blocked { diags } => {
            detail.append(": ");
            detail.append(styled_list_exec(diags).as_str());
            ("blocked", Tone::Bad)
        },
        HandshakeOutcome::Unreachable { diags } => {
            detail.append(": ");
            detail.append(styled_list_exec(diags).as_str());
            ("unreachable", Tone::Warn)
        },
    };
    let mut content = String::from_str("handshake: ");
    content.append(paint(tone, word).as_str());
    content.append(" — ");
    content.append(detail.as_str());
    let mut r = handshake_row(conn, w, content.as_str());
    r.append("\n");
    r.append(content_indent(w).as_str());
    r.append(paint(Tone::Meta, "(judged vs the descriptor tap loaded)").as_str());
    r
}

/// The one-time header of a watch: the connection → key → vantage mapping.
pub open spec fn header_text(desc: Descriptor, targets: Seq<(Seq<char>, Seq<char>)>, w: nat) -> Seq<char> {
    heading_text(targets.len()) + "\n"@ + header_lines(desc, targets, w)
}

pub open spec fn heading_text(n: nat) -> Seq<char> {
    painted(Tone::Head, "tap"@) + seq![' '] + painted(Tone::Meta, "· watching "@ + decimal(n) + " connection(s)"@)
}

pub open spec fn header_lines(desc: Descriptor, targets: Seq<(Seq<char>, Seq<char>)>, w: nat) -> Seq<char>
    decreases targets.len(),
{
    if targets.len() == 0 {
        seq![]
    } else {
        let (conn, vantage) = targets.last();
        header_lines(desc, targets.drop_last(), w) + painted(
            Tone::Meta,
            "  "@ + pad_right(conn, w) + "  → "@ + desc.connections@[find_key(desc.connections@, conn)].1.key@
                + "   as "@ + vantage + "\n"@,
        )
    }
}

/// The watch header; every target names a connection of the descriptor.
pub fn render_watch_header(desc: &Descriptor, targets: &Vec<(String, String)>) -> (r: String)
    requires
        forall|i: int| 0 <= i < targets@.len() ==> has_key(desc.connections@, (#[trigger] targets@[i]).0@),
        forall|i: int| 0 <= i < targets@.len() ==> 4 * (#[trigger] targets@[i]).0@.len() <= usize::MAX,
    ensures
        r@ == header_text(*desc, pairs_of(targets@), width_of(pairs_of(targets@))),
{
    let w = conn_width(targets);
    let mut m = String::from_str("· watching ");
    m.append(decimal_string(targets.len() as u64).as_str());
    m.append(" connection(s)");
    let mut out = heading("tap", m.as_str());
    out.append("\n");
    let ghost head = out@;
    let ghost tv = pairs_of(targets@);
    let mut i: usize = 0;
    assert(tv.take(0) =~= Seq::<(Seq<char>, Seq<char>)>::empty());
    assert(head + header_lines(*desc, tv.take(0), w as nat) =~= head);
    while i < targets.len()
        invariant
            i <= targets@.len(),
            tv == pairs_of(targets@),
            forall|i: int| 0 <= i < targets@.len() ==> has_key(desc.connections@, (#[trigger] targets@[i]).0@),
            out@ == head + header_lines(*desc, tv.take(i as int), w as nat),
        decreases targets@.len() - i,
    {
        let conn = targets[i].0.as_str();
        let vantage = targets[i].1.as_str();
        proof {
            let pre = tv.take(i + 1);
            assert(pre.drop_last() =~= tv.take(i as int));
            assert(pre.last() == (conn@, vantage@));
            crate::model::lemma_find_key(desc.connections@, conn@);
            assert(has_key(desc.connections@, targets@[i as int].0@));
        }
        let k = match lookup(&desc.connections, conn) {
            Some(k) => k,
            None => {
                assert(false);
                0
            },
        };
        let mut line = String::from_str("  ");
        push_padded(&mut line, conn, w);
        line.append("  → ");
        line.append(desc.connections[k].1.key.as_str());
        line.append("   as ");
        line.append(vantage);
        line.append("\n");
        out.append(paint(Tone::Meta, line.as_str()).as_str());
        i = i + 1;
    }
    assert(tv.take(tv.len() as int) =~= tv);
    out
}

// ---------------------------------------------------------------- explained mismatches

/// The (connection, sender hash) pairs whose mismatch the watch has explained. A pair is
/// explained once; only a delivered explanation is recorded, so a failed fetch stays retryable.
pub struct Explained {
    pairs: Vec<(String, String)>,
}

impl View for Explained {
    type V = Seq<(Seq<char>, Seq<char>)>;

    closed spec fn view(&self) -> Seq<(Seq<char>, Seq<char>)> {
        self.pairs@.map_values(|e: (String, String)| (e.0@, e.1@))
    }
}

impl Explained {
    pub fn new() -> (e: Explained)
        ensures
            e@ == Seq::<(Seq<char>, Seq<char>)>::empty(),
    {
        let e = Explained { pairs: Vec::new() };
        assert(e@ =~= Seq::<(Seq<char>, Seq<char>)>::empty());
        e
    }

    /// Whether a mismatch of `conn` with a sender of `hash` still needs its explanation.
    pub fn needs_explaining(&self, conn: &str, hash: &str) -> (r: bool)
        ensures
            r == !self@.contains((conn@, hash@)),
    {
        let mut i: usize = 0;
        while i < self.pairs.len()
            invariant
                i <= self.pairs@.len(),
                forall|j: int| 0 <= j < i ==> #[trigger] self@[j] != (conn@, hash@),
            decreases self.pairs@.len() - i,
        {
            assert(self@[i as int] == (self.pairs@[i as int].0@, self.pairs@[i as int].1@));
            if string_eq(self.pairs[i].0.as_str(), conn) && string_eq(self.pairs[i].1.as_str(), hash) {
                assert(self@[i as int] == (conn@, hash@));
                return false;
            }
            i = i + 1;
        }
        true
    }

    /// Records a delivered explanation.
    pub fn record(&mut self, conn: &str, hash: &str)
        ensures
            final(self)@ == (if old(self)@.contains((conn@, hash@)) {
                old(self)@
            } else {
                old(self)@.push((conn@, hash@))
            }),
    {
        if self.needs_explaining(conn, hash) {
            let ghost before = self@;
            self.pairs.push((String::from_str(conn), String::from_str(hash)));
            assert(self@ =~= before.push((conn@, hash@)));
        }
    }
}

/// A recorded pair is not explained again, and other pairs keep their state.
pub proof fn recorded_pair_is_explained(e: Seq<(Seq<char>, Seq<char>)>, conn: Seq<char>, hash: Seq<char>, other: (Seq<char>, Seq<char>))
    ensures
        ({
            let after = if e.contains((conn, hash)) { e } else { e.push((conn, hash)) };
            &&& after.contains((conn, hash))
            &&& other != (conn, hash) ==> (after.contains(other) <==> e.contains(other))
        }),
{
    if !e.contains((conn, hash)) {
        let after = e.push((conn, hash));
        assert(after[e.len() as int] == (conn, hash));
        if e.contains(other) {
            let k = choose|k: int| 0 <= k < e.len() && e[k] == other;
            assert(after[k] == other);
        }
        if after.contains(other) && other != (conn, hash) {
            let k = choose|k: int| 0 <= k < after.len() && after[k] == other;
            assert(e[k] == other);
        }
    }
}

} // verus!
