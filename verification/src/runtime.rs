//! Runtime boundary decisions over a descriptor: capabilities derived from the wiring, the
//! send and receive boundaries (role, hash and payload checks), the delivery-time handshake
//! judgement and retry classification. Transport stays with the caller.
use vstd::prelude::*;

use crate::compat::{
    as_connection, blocking_diags, change_views, classify_desc_pair, connection_changes,
    incompatibilities, ChangeKind,
};
use crate::diag::{copy_diags, dv, diag_views, Diag, DiagView};
use crate::model::{
    any_equals, find_key, has_key, lookup, seq_has, Congestion, Connection, Descriptor,
    DescriptorConnection, Encoding, Json, Node, Pattern, Priority, Reliability, Slot, Typing,
    ValidateLevel,
};
use crate::payload::{payload_diags, push_diag, validate_payload};
use crate::strs::{cat, cat3, string_eq, views};

verus! {

// ---------------------------------------------------------------- node plan

/// The capabilities a node derives from the wiring.
#[derive(Debug, PartialEq)]
pub struct NodePlan {
    pub publishes: Vec<String>,
    pub subscribes: Vec<String>,
    /// the from side of a query (requester)
    pub queries: Vec<String>,
    /// the to side of a query (responder)
    pub answers: Vec<String>,
}

/// The ids of the connections (in key order) of the given pattern on the given side of `node`.
pub open spec fn conns_where(
    conns: Seq<(String, DescriptorConnection)>,
    node: Seq<char>,
    pattern: Pattern,
    from_side: bool,
) -> Seq<Seq<char>>
    decreases conns.len(),
{
    if conns.len() == 0 {
        seq![]
    } else {
        let c = conns.last().1;
        let on_side = if from_side {
            c.from@ == node
        } else {
            seq_has(c.to@, node)
        };
        conns_where(conns.drop_last(), node, pattern, from_side) + if c.pattern == pattern
            && on_side {
            seq![conns.last().0@]
        } else {
            seq![]
        }
    }
}

pub open spec fn unknown_node_diag(node: Seq<char>) -> DiagView {
    dv(
        "unknown_node"@,
        "nodes."@ + node,
        "undefined node '"@ + node + "' (not present in the descriptor)"@,
    )
}

pub open spec fn plan_matches(desc: Descriptor, node: Seq<char>, p: NodePlan) -> bool {
    let cs = desc.connections@;
    &&& views(p.publishes@) == conns_where(cs, node, Pattern::PubSub, true)
    &&& views(p.subscribes@) == conns_where(cs, node, Pattern::PubSub, false)
    &&& views(p.queries@) == conns_where(cs, node, Pattern::Query, true)
    &&& views(p.answers@) == conns_where(cs, node, Pattern::Query, false)
}

fn push_id(v: &mut Vec<String>, id: &String)
    ensures
        views(final(v)@) == views(old(v)@).push(id@),
{
    v.push(id.clone());
    assert(views(final(v)@) =~= views(old(v)@).push(id@));
}

/// The node's capabilities: for an unknown node one `unknown_node` diagnostic.
pub fn node_plan(desc: &Descriptor, node: &str) -> (r: Result<NodePlan, Vec<Diag>>)
    ensures
        match r {
            Ok(p) => has_key(desc.nodes@, node@) && plan_matches(*desc, node@, p),
            Err(d) => !has_key(desc.nodes@, node@) && diag_views(d@) == seq![unknown_node_diag(node@)],
        },
{
    if lookup(&desc.nodes, node).is_none() {
        let mut d: Vec<Diag> = Vec::new();
        let mut m = String::from_str("undefined node '");
        m.append(node);
        m.append("' (not present in the descriptor)");
        push_diag(&mut d, Diag::new("unknown_node", cat("nodes.", node), m));
        assert(diag_views(Seq::<Diag>::empty()) =~= Seq::<DiagView>::empty());
        assert(Seq::<DiagView>::empty() + seq![unknown_node_diag(node@)] =~= seq![unknown_node_diag(node@)]);
        return Err(d);
    }
    let mut plan = NodePlan {
        publishes: Vec::new(),
        subscribes: Vec::new(),
        queries: Vec::new(),
        answers: Vec::new(),
    };
    let ghost cs = desc.connections@;
    let mut i: usize = 0;
    assert(cs.take(0) =~= Seq::<(String, DescriptorConnection)>::empty());
    assert(views(plan.publishes@) =~= Seq::<Seq<char>>::empty());
    assert(views(plan.subscribes@) =~= Seq::<Seq<char>>::empty());
    assert(views(plan.queries@) =~= Seq::<Seq<char>>::empty());
    assert(views(plan.answers@) =~= Seq::<Seq<char>>::empty());
    while i < desc.connections.len()
        invariant
            cs == desc.connections@,
            i <= cs.len(),
            views(plan.publishes@) == conns_where(cs.take(i as int), node@, Pattern::PubSub, true),
            views(plan.subscribes@) == conns_where(cs.take(i as int), node@, Pattern::PubSub, false),
            views(plan.queries@) == conns_where(cs.take(i as int), node@, Pattern::Query, true),
            views(plan.answers@) == conns_where(cs.take(i as int), node@, Pattern::Query, false),
        decreases cs.len() - i,
    {
        let id = &desc.connections[i].0;
        let c = &desc.connections[i].1;
        let is_from = string_eq(c.from.as_str(), node);
        let is_to = any_equals(&c.to, node);
        let ghost (p0, s0, q0, a0) = (views(plan.publishes@), views(plan.subscribes@), views(plan.queries@), views(plan.answers@));
        match c.pattern {
            Pattern::PubSub => {
                if is_from {
                    push_id(&mut plan.publishes, id);
                }
                if is_to {
                    push_id(&mut plan.subscribes, id);
                }
            },
            Pattern::Query => {
                if is_from {
                    push_id(&mut plan.queries, id);
                }
                if is_to {
                    push_id(&mut plan.answers, id);
                }
            },
        }
        proof {
            let pre = cs.take(i + 1);
            assert(pre.drop_last() =~= cs.take(i as int));
            assert(pre.last() == cs[i as int]);
            assert(views(plan.publishes@) =~= conns_where(pre, node@, Pattern::PubSub, true));
            assert(views(plan.subscribes@) =~= conns_where(pre, node@, Pattern::PubSub, false));
            assert(views(plan.queries@) =~= conns_where(pre, node@, Pattern::Query, true));
            assert(views(plan.answers@) =~= conns_where(pre, node@, Pattern::Query, false));
        }
        i = i + 1;
    }
    assert(cs.take(cs.len() as int) =~= cs);
    Ok(plan)
}

/// pub_sub connections whose `from` is `node`, in key order (empty for an unknown node).
pub fn connections_from(desc: &Descriptor, node: &str) -> (r: Vec<String>)
    ensures
        views(r@) == conns_where(desc.connections@, node@, Pattern::PubSub, true),
{
    conns_on_side(desc, node, true)
}

/// pub_sub connections whose `to` includes `node`, in key order (empty for an unknown node).
pub fn connections_to(desc: &Descriptor, node: &str) -> (r: Vec<String>)
    ensures
        views(r@) == conns_where(desc.connections@, node@, Pattern::PubSub, false),
{
    conns_on_side(desc, node, false)
}

fn conns_on_side(desc: &Descriptor, node: &str, from_side: bool) -> (r: Vec<String>)
    ensures
        views(r@) == conns_where(desc.connections@, node@, Pattern::PubSub, from_side),
{
    let ghost cs = desc.connections@;
    let mut out: Vec<String> = Vec::new();
    let mut i: usize = 0;
    assert(cs.take(0) =~= Seq::<(String, DescriptorConnection)>::empty());
    assert(views(out@) =~= Seq::<Seq<char>>::empty());
    while i < desc.connections.len()
        invariant
            cs == desc.connections@,
            i <= cs.len(),
            views(out@) == conns_where(cs.take(i as int), node@, Pattern::PubSub, from_side),
        decreases cs.len() - i,
    {
        let c = &desc.connections[i].1;
        let on = if from_side {
            string_eq(c.from.as_str(), node)
        } else {
            any_equals(&c.to, node)
        };
        let ghost before = views(out@);
        if c.pattern == Pattern::PubSub && on {
            push_id(&mut out, &desc.connections[i].0);
        }
        proof {
            let pre = cs.take(i + 1);
            assert(pre.drop_last() =~= cs.take(i as int));
            assert(pre.last() == cs[i as int]);
            assert(views(out@) =~= conns_where(pre, node@, Pattern::PubSub, from_side));
        }
        i = i + 1;
    }
    assert(cs.take(cs.len() as int) =~= cs);
    out
}

/// The resolved keyexpr of a connection, or None for an unknown connection.
pub fn connection_key(desc: &Descriptor, conn: &str) -> (r: Option<String>)
    ensures
        match r {
            Some(k) => has_key(desc.connections@, conn@)
                && k@ == desc.connections@[find_key(desc.connections@, conn@)].1.key@,
            None => !has_key(desc.connections@, conn@),
        },
{
    match lookup(&desc.connections, conn) {
        Some(i) => Some(desc.connections[i].1.key.clone()),
        None => None,
    }
}

/// The per-connection schema hash of a connection, or None for an unknown connection.
pub fn connection_hash(desc: &Descriptor, conn: &str) -> (r: Option<String>)
    ensures
        match r {
            Some(h) => has_key(desc.connections@, conn@)
                && h@ == desc.connections@[find_key(desc.connections@, conn@)].1.hash@,
            None => !has_key(desc.connections@, conn@),
        },
{
    match lookup(&desc.connections, conn) {
        Some(i) => Some(desc.connections[i].1.hash.clone()),
        None => None,
    }
}

// ---------------------------------------------------------------- boundaries

/// QoS directive (carries the descriptor's values as-is).
#[derive(Debug, Clone, Copy, PartialEq)]
pub struct QosSpec {
    pub reliability: Reliability,
    pub congestion: Congestion,
    pub priority: Priority,
    pub express: bool,
}

/// The product of the send boundary: the key, the accepted value (written as canonical JSON by
/// the transport glue), the per-connection hash for the attachment, and the QoS.
#[derive(Debug, PartialEq)]
pub struct WireMsg {
    pub key: String,
    pub value: Json,
    pub attachment: String,
    pub qos: QosSpec,
}

/// The result of the receive boundary.
#[derive(Debug, PartialEq)]
pub enum AcceptOutcome {
    Accept { payload: Json },
    Reject { diags: Vec<Diag> },
    HashMismatch { sender_hash: String },
}

#[derive(Clone, Copy, PartialEq, Eq, Structural)]
pub enum Role {
    From,
    To,
}

#[derive(Clone, Copy, PartialEq, Eq, Structural)]
pub enum SlotSel {
    Payload,
    Request,
    Response,
}

pub open spec fn unknown_connection_diag(conn: Seq<char>) -> DiagView {
    dv("unknown_connection"@, "connections."@ + conn, "undefined connection '"@ + conn + "'"@)
}

/// Connection name → its definition in the descriptor, or one `unknown_connection` diagnostic.
pub fn conn_of<'a>(desc: &'a Descriptor, conn: &str) -> (r: Result<&'a DescriptorConnection, Vec<Diag>>)
    ensures
        match r {
            Ok(c) => has_key(desc.connections@, conn@)
                && *c == desc.connections@[find_key(desc.connections@, conn@)].1,
            Err(d) => !has_key(desc.connections@, conn@)
                && diag_views(d@) == seq![unknown_connection_diag(conn@)],
        },
{
    match lookup(&desc.connections, conn) {
        Some(i) => Ok(&desc.connections[i].1),
        None => {
            let mut d: Vec<Diag> = Vec::new();
            let mut m = String::from_str("undefined connection '");
            m.append(conn);
            m.append("'");
            push_diag(&mut d, Diag::new("unknown_connection", cat("connections.", conn), m));
            assert(diag_views(Seq::<Diag>::empty()) =~= Seq::<DiagView>::empty());
            assert(Seq::<DiagView>::empty() + seq![unknown_connection_diag(conn@)] =~= seq![unknown_connection_diag(conn@)]);
            Err(d)
        },
    }
}

pub open spec fn pattern_debug(p: Pattern) -> Seq<char> {
    match p {
        Pattern::PubSub => "PubSub"@,
        Pattern::Query => "Query"@,
    }
}

/// The role judgement: the operation's pattern must be the connection's, and the node must be
/// on the operation's side.
pub open spec fn role_diag(c: DescriptorConnection, conn: Seq<char>, node: Seq<char>, pattern: Pattern, role: Role) -> Option<DiagView> {
    if c.pattern != pattern {
        Some(
            dv(
                "pattern_mismatch"@,
                "connections."@ + conn + ".pattern"@,
                "this operation is for "@ + pattern_debug(pattern) + " but the connection is "@
                    + pattern_debug(c.pattern),
            ),
        )
    } else if !(match role {
        Role::From => c.from@ == node,
        Role::To => seq_has(c.to@, node),
    }) {
        Some(
            dv(
                "role_mismatch"@,
                "connections."@ + conn,
                "node '"@ + node + "' does not participate in this direction of this connection"@,
            ),
        )
    } else {
        None
    }
}

fn pattern_name(p: Pattern) -> (r: &'static str)
    ensures
        r@ == pattern_debug(p),
{
    match p {
        Pattern::PubSub => "PubSub",
        Pattern::Query => "Query",
    }
}

fn one_diag(d: Diag) -> (r: Vec<Diag>)
    ensures
        diag_views(r@) == seq![d@],
{
    let mut v: Vec<Diag> = Vec::new();
    v.push(d);
    assert(diag_views(v@) =~= seq![d@]);
    v
}

fn check_role(c: &DescriptorConnection, conn: &str, node: &str, pattern: Pattern, role: Role) -> (r: Result<(), Vec<Diag>>)
    ensures
        match r {
            Ok(()) => role_diag(*c, conn@, node@, pattern, role) is None,
            Err(d) => role_diag(*c, conn@, node@, pattern, role) matches Some(x) && diag_views(d@) == seq![x],
        },
{
    if c.pattern != pattern {
        let mut m = String::from_str("this operation is for ");
        m.append(pattern_name(pattern));
        m.append(" but the connection is ");
        m.append(pattern_name(c.pattern));
        return Err(one_diag(Diag::new("pattern_mismatch", cat3("connections.", conn, ".pattern"), m)));
    }
    let ok = match role {
        Role::From => string_eq(c.from.as_str(), node),
        Role::To => any_equals(&c.to, node),
    };
    if !ok {
        let mut m = String::from_str("node '");
        m.append(node);
        m.append("' does not participate in this direction of this connection");
        return Err(one_diag(Diag::new("role_mismatch", cat("connections.", conn), m)));
    }
    Ok(())
}

pub open spec fn sel_name(sel: SlotSel) -> Seq<char> {
    match sel {
        SlotSel::Payload => "payload"@,
        SlotSel::Request => "request"@,
        SlotSel::Response => "response"@,
    }
}

pub open spec fn selected(c: DescriptorConnection, sel: SlotSel) -> Option<Slot> {
    match sel {
        SlotSel::Payload => c.payload,
        SlotSel::Request => c.request,
        SlotSel::Response => c.response,
    }
}

pub open spec fn missing_slot_diag(conn: Seq<char>, name: Seq<char>) -> DiagView {
    dv(
        "descriptor_error"@,
        "connections."@ + conn + "."@ + name,
        "descriptor has no "@ + name + " slot (the gen output is broken)"@,
    )
}

fn slot_of<'a>(c: &'a DescriptorConnection, conn: &str, sel: SlotSel) -> (r: Result<&'a Slot, Vec<Diag>>)
    ensures
        match r {
            Ok(s) => selected(*c, sel) == Some(*s),
            Err(d) => selected(*c, sel) is None && diag_views(d@) == seq![missing_slot_diag(conn@, sel_name(sel))],
        },
{
    let (slot, name) = match sel {
        SlotSel::Payload => (&c.payload, "payload"),
        SlotSel::Request => (&c.request, "request"),
        SlotSel::Response => (&c.response, "response"),
    };
    match slot {
        Some(s) => Ok(s),
        None => {
            let mut path = String::from_str("connections.");
            path.append(conn);
            path.append(".");
            path.append(name);
            let mut m = String::from_str("descriptor has no ");
            m.append(name);
            m.append(" slot (the gen output is broken)");
            Err(one_diag(Diag::new("descriptor_error", path, m)))
        },
    }
}

/// Sampling rule: full = every time / sampled = every tenth sequence number / off = never.
pub open spec fn validates(level: ValidateLevel, seq: u64) -> bool {
    match level {
        ValidateLevel::Full => true,
        ValidateLevel::Sampled => seq % 10 == 0,
        ValidateLevel::Off => false,
    }
}

pub fn should_validate(level: ValidateLevel, seq: u64) -> (r: bool)
    ensures
        r == validates(level, seq),
{
    match level {
        ValidateLevel::Full => true,
        ValidateLevel::Sampled => seq % 10 == 0,
        ValidateLevel::Off => false,
    }
}

pub open spec fn decode_diag(msg: Seq<char>) -> DiagView {
    dv("decode_error"@, "$"@, "cannot be parsed as JSON: "@ + msg)
}

/// What the sending side decides, checking in turn: that the connection exists, the node's role, that the payload decodes, the slot and
/// (when this sequence number is validated) payload diagnostics, in that order.
pub open spec fn send_verdict(desc: Descriptor, node: Seq<char>, conn: Seq<char>, pattern: Pattern, role: Role, sel: SlotSel, parsed: Result<Json, Seq<char>>, seq: u64) -> Result<(DescriptorConnection, Json), Seq<DiagView>> {
    if !has_key(desc.connections@, conn) {
        Err(seq![unknown_connection_diag(conn)])
    } else {
        let c = desc.connections@[find_key(desc.connections@, conn)].1;
        match role_diag(c, conn, node, pattern, role) {
            Some(d) => Err(seq![d]),
            None => match parsed {
                Err(m) => Err(seq![decode_diag(m)]),
                Ok(v) => match selected(c, sel) {
                    None => Err(seq![missing_slot_diag(conn, sel_name(sel))]),
                    Some(s) => if validates(c.validate, seq) && payload_diags(s, v).len() > 0 {
                        Err(payload_diags(s, v))
                    } else {
                        Ok((c, v))
                    },
                },
            },
        }
    }
}

pub open spec fn parsed_view(p: Result<Json, String>) -> Result<Json, Seq<char>> {
    match p {
        Ok(v) => Ok(v),
        Err(e) => Err(e@),
    }
}

pub open spec fn wire_matches(r: Result<WireMsg, Vec<Diag>>, v: Result<(DescriptorConnection, Json), Seq<DiagView>>) -> bool {
    match r {
        Ok(w) => v matches Ok((c, value)) && w.key@ == c.key@ && w.value == value
            && w.attachment@ == c.hash@ && w.qos == (QosSpec {
            reliability: c.reliability,
            congestion: c.congestion,
            priority: c.priority,
            express: c.express,
        }),
        Err(d) => v matches Err(x) && diag_views(d@) == x,
    }
}

fn decode_error(msg: &String) -> (r: Vec<Diag>)
    ensures
        diag_views(r@) == seq![decode_diag(msg@)],
{
    let mut m = String::from_str("cannot be parsed as JSON: ");
    m.append(msg.as_str());
    one_diag(Diag::new("decode_error", String::from_str("$"), m))
}

fn prepare(desc: &Descriptor, node: &str, conn: &str, pattern: Pattern, role: Role, sel: SlotSel, parsed: Result<Json, String>, seq: u64) -> (r: Result<WireMsg, Vec<Diag>>)
    ensures
        wire_matches(r, send_verdict(*desc, node@, conn@, pattern, role, sel, parsed_view(parsed), seq)),
{
    let c = match conn_of(desc, conn) {
        Ok(c) => c,
        Err(d) => return Err(d),
    };
    match check_role(c, conn, node, pattern, role) {
        Ok(()) => {},
        Err(d) => return Err(d),
    }
    let value = match parsed {
        Ok(v) => v,
        Err(e) => return Err(decode_error(&e)),
    };
    let slot = match slot_of(c, conn, sel) {
        Ok(s) => s,
        Err(d) => return Err(d),
    };
    if should_validate(c.validate, seq) {
        let diags = validate_payload(slot, &value);
        if diags.len() > 0 {
            return Err(diags);
        }
    }
    Ok(
        WireMsg {
            key: c.key.clone(),
            value,
            attachment: c.hash.clone(),
            qos: QosSpec {
                reliability: c.reliability,
                congestion: c.congestion,
                priority: c.priority,
                express: c.express,
            },
        },
    )
}

/// What the receiving side decides: that the connection exists and the role first; then a missing hash is
/// rejected and a hash that is neither the connection's nor the trusted one is a mismatch;
/// then an undecodable payload, a missing slot and (when validated) payload diagnostics.
pub open spec fn receive_verdict(desc: Descriptor, node: Seq<char>, conn: Seq<char>, pattern: Pattern, role: Role, sel: SlotSel, parsed: Result<Json, Seq<char>>, attachment: Option<Seq<char>>, seq: u64, trusted: Option<Seq<char>>) -> AcceptView {
    if !has_key(desc.connections@, conn) {
        AcceptView::Reject(seq![unknown_connection_diag(conn)])
    } else {
        let c = desc.connections@[find_key(desc.connections@, conn)].1;
        match role_diag(c, conn, node, pattern, role) {
            Some(d) => AcceptView::Reject(seq![d]),
            None => match attachment {
                None => AcceptView::Reject(seq![missing_hash_diag()]),
                Some(h) => if h != c.hash@ && Some(h) != trusted {
                    AcceptView::HashMismatch(h)
                } else {
                    match parsed {
                        Err(m) => AcceptView::Reject(seq![decode_diag(m)]),
                        Ok(v) => match selected(c, sel) {
                            None => AcceptView::Reject(seq![missing_slot_diag(conn, sel_name(sel))]),
                            Some(s) => if validates(c.validate, seq) && payload_diags(s, v).len() > 0 {
                                AcceptView::Reject(payload_diags(s, v))
                            } else {
                                AcceptView::Accept(v)
                            },
                        },
                    }
                },
            },
        }
    }
}

pub enum AcceptView {
    Accept(Json),
    Reject(Seq<DiagView>),
    HashMismatch(Seq<char>),
}

impl View for AcceptOutcome {
    type V = AcceptView;

    open spec fn view(&self) -> AcceptView {
        match self {
            AcceptOutcome::Accept { payload } => AcceptView::Accept(*payload),
            AcceptOutcome::Reject { diags } => AcceptView::Reject(diag_views(diags@)),
            AcceptOutcome::HashMismatch { sender_hash } => AcceptView::HashMismatch(sender_hash@),
        }
    }
}

pub open spec fn missing_hash_diag() -> DiagView {
    dv("missing_schema_hash"@, "$"@, "no schema_hash on the attachment (a non-sahou sender or an old client)"@)
}

pub open spec fn opt_view(o: Option<&str>) -> Option<Seq<char>> {
    match o {
        Some(s) => Some(s@),
        None => None,
    }
}

fn accept(desc: &Descriptor, node: &str, conn: &str, pattern: Pattern, role: Role, sel: SlotSel, parsed: Result<Json, String>, attachment: Option<&str>, seq: u64, trusted: Option<&str>) -> (r: AcceptOutcome)
    ensures
        r@ == receive_verdict(*desc, node@, conn@, pattern, role, sel, parsed_view(parsed), opt_view(attachment), seq, opt_view(trusted)),
{
    let c = match conn_of(desc, conn) {
        Ok(c) => c,
        Err(diags) => return AcceptOutcome::Reject { diags },
    };
    match check_role(c, conn, node, pattern, role) {
        Ok(()) => {},
        Err(diags) => return AcceptOutcome::Reject { diags },
    }
    match attachment {
        None => {
            return AcceptOutcome::Reject {
                diags: one_diag(
                    Diag::new(
                        "missing_schema_hash",
                        String::from_str("$"),
                        String::from_str("no schema_hash on the attachment (a non-sahou sender or an old client)"),
                    ),
                ),
            };
        },
        Some(h) => {
            let is_trusted = match trusted {
                Some(t) => string_eq(h, t),
                None => false,
            };
            if !string_eq(h, c.hash.as_str()) && !is_trusted {
                return AcceptOutcome::HashMismatch { sender_hash: String::from_str(h) };
            }
        },
    }
    let value = match parsed {
        Ok(v) => v,
        Err(e) => return AcceptOutcome::Reject { diags: decode_error(&e) },
    };
    let slot = match slot_of(c, conn, sel) {
        Ok(s) => s,
        Err(diags) => return AcceptOutcome::Reject { diags },
    };
    if should_validate(c.validate, seq) {
        let diags = validate_payload(slot, &value);
        if diags.len() > 0 {
            return AcceptOutcome::Reject { diags };
        }
    }
    AcceptOutcome::Accept { payload: value }
}

/// pub_sub send boundary (`parsed` is the parse of the payload text, or the parser's message).
pub fn prepare_publish(desc: &Descriptor, node: &str, conn: &str, parsed: Result<Json, String>, seq: u64) -> (r: Result<WireMsg, Vec<Diag>>)
    ensures
        wire_matches(r, send_verdict(*desc, node@, conn@, Pattern::PubSub, Role::From, SlotSel::Payload, parsed_view(parsed), seq)),
{
    prepare(desc, node, conn, Pattern::PubSub, Role::From, SlotSel::Payload, parsed, seq)
}

/// pub_sub receive boundary. `trusted` = a sender hash the caller's verdict cache already accepted.
pub fn accept_sample(desc: &Descriptor, node: &str, conn: &str, parsed: Result<Json, String>, attachment: Option<&str>, seq: u64, trusted: Option<&str>) -> (r: AcceptOutcome)
    ensures
        r@ == receive_verdict(*desc, node@, conn@, Pattern::PubSub, Role::To, SlotSel::Payload, parsed_view(parsed), opt_view(attachment), seq, opt_view(trusted)),
{
    accept(desc, node, conn, Pattern::PubSub, Role::To, SlotSel::Payload, parsed, attachment, seq, trusted)
}

/// query request send boundary (from = requester).
pub fn prepare_request(desc: &Descriptor, node: &str, conn: &str, parsed: Result<Json, String>, seq: u64) -> (r: Result<WireMsg, Vec<Diag>>)
    ensures
        wire_matches(r, send_verdict(*desc, node@, conn@, Pattern::Query, Role::From, SlotSel::Request, parsed_view(parsed), seq)),
{
    prepare(desc, node, conn, Pattern::Query, Role::From, SlotSel::Request, parsed, seq)
}

/// query request receive boundary (to = responder).
pub fn accept_request(desc: &Descriptor, node: &str, conn: &str, parsed: Result<Json, String>, attachment: Option<&str>, seq: u64, trusted: Option<&str>) -> (r: AcceptOutcome)
    ensures
        r@ == receive_verdict(*desc, node@, conn@, Pattern::Query, Role::To, SlotSel::Request, parsed_view(parsed), opt_view(attachment), seq, opt_view(trusted)),
{
    accept(desc, node, conn, Pattern::Query, Role::To, SlotSel::Request, parsed, attachment, seq, trusted)
}

/// query response send boundary (responder).
pub fn prepare_reply(desc: &Descriptor, node: &str, conn: &str, parsed: Result<Json, String>, seq: u64) -> (r: Result<WireMsg, Vec<Diag>>)
    ensures
        wire_matches(r, send_verdict(*desc, node@, conn@, Pattern::Query, Role::To, SlotSel::Response, parsed_view(parsed), seq)),
{
    prepare(desc, node, conn, Pattern::Query, Role::To, SlotSel::Response, parsed, seq)
}

/// query response receive boundary (requester).
pub fn accept_reply(desc: &Descriptor, node: &str, conn: &str, parsed: Result<Json, String>, attachment: Option<&str>, seq: u64, trusted: Option<&str>) -> (r: AcceptOutcome)
    ensures
        r@ == receive_verdict(*desc, node@, conn@, Pattern::Query, Role::From, SlotSel::Response, parsed_view(parsed), opt_view(attachment), seq, opt_view(trusted)),
{
    accept(desc, node, conn, Pattern::Query, Role::From, SlotSel::Response, parsed, attachment, seq, trusted)
}

// ---------------------------------------------------------------- handshake

/// The three-way handshake judgement. Accepted / blocked may be cached by the caller;
/// unreachable means "cannot judge" and is not cached.
#[derive(Debug, PartialEq)]
pub enum HandshakeOutcome {
    Accepted,
    Blocked { diags: Vec<Diag> },
    Unreachable { diags: Vec<Diag> },
}

pub enum HandshakeView {
    Accepted,
    Blocked(Seq<DiagView>),
    Unreachable(Seq<DiagView>),
}

impl View for HandshakeOutcome {
    type V = HandshakeView;

    open spec fn view(&self) -> HandshakeView {
        match self {
            HandshakeOutcome::Accepted => HandshakeView::Accepted,
            HandshakeOutcome::Blocked { diags } => HandshakeView::Blocked(diag_views(diags@)),
            HandshakeOutcome::Unreachable { diags } => HandshakeView::Unreachable(diag_views(diags@)),
        }
    }
}

/// The note a promotion carries at the delivery boundary.
pub open spec fn promotion_note() -> Seq<char> {
    " (conservatively NO at the delivery boundary because direction is undecided; approach A)"@
}

/// The receiver's judgement of a sender's connection fragment (`theirs` is the decoded fragment,
/// or the decoder's error path and message): an undecodable fragment or one whose own hash is
/// not the requested one is unreachable; otherwise only purely additive differences pass.
pub open spec fn verdict_of(conn_id: Seq<char>, mine: DescriptorConnection, sender_hash: Seq<char>, theirs: Result<DescriptorConnection, (Seq<char>, Seq<char>)>) -> HandshakeView {
    match theirs {
        Err((path, msg)) => HandshakeView::Unreachable(
            seq![dv("contract_unreachable"@, path, "the contract fragment cannot be parsed (may recover on re-fetch): "@ + msg)],
        ),
        Ok(t) => if t.hash@ != sender_hash {
            HandshakeView::Unreachable(
                seq![
                    dv(
                        "contract_unreachable"@,
                        "connections."@ + conn_id + ".hash"@,
                        "the fetched fragment's hash '"@ + t.hash@ + "' does not match the requested '"@ + sender_hash
                            + "' (suspected misdelivery/tampering; not used for judgement)"@,
                    ),
                ],
            )
        } else {
            let d = incompatibilities(connection_changes(conn_id, as_connection(mine), as_connection(t)), conn_id, promotion_note());
            if d.len() == 0 {
                HandshakeView::Accepted
            } else {
                HandshakeView::Blocked(d)
            }
        },
    }
}

/// A sender running the receiver's own fragment of a connection (so reporting the same hash) is
/// accepted, for a fragment whose field names are unique and whose bounds and defaults hold no
/// NaN.
pub proof fn own_fragment_is_accepted(conn_id: Seq<char>, mine: DescriptorConnection)
    requires
        crate::compat::connection_comparable(as_connection(mine)),
    ensures
        verdict_of(conn_id, mine, mine.hash@, Ok(mine)) == HandshakeView::Accepted,
{
    crate::compat::connection_unchanged_has_no_changes(conn_id, as_connection(mine));
}

pub open spec fn fragment_view(t: Result<DescriptorConnection, (String, String)>) -> Result<DescriptorConnection, (Seq<char>, Seq<char>)> {
    match t {
        Ok(c) => Ok(c),
        Err((p, m)) => Err((p@, m@)),
    }
}

/// Delivery-time handshake: the receiver judges the sender's connection fragment.
pub fn handshake_verdict(conn_id: &str, mine: &DescriptorConnection, sender_hash: &str, theirs: Result<DescriptorConnection, (String, String)>) -> (r: HandshakeOutcome)
    ensures
        r@ == verdict_of(conn_id@, *mine, sender_hash@, fragment_view(theirs)),
{
    let t = match theirs {
        Ok(t) => t,
        Err((path, msg)) => {
            let mut m = String::from_str("the contract fragment cannot be parsed (may recover on re-fetch): ");
            m.append(msg.as_str());
            return HandshakeOutcome::Unreachable { diags: one_diag(Diag::new("contract_unreachable", path, m)) };
        },
    };
    if !string_eq(t.hash.as_str(), sender_hash) {
        let mut m = String::from_str("the fetched fragment's hash '");
        m.append(t.hash.as_str());
        m.append("' does not match the requested '");
        m.append(sender_hash);
        m.append("' (suspected misdelivery/tampering; not used for judgement)");
        return HandshakeOutcome::Unreachable {
            diags: one_diag(Diag::new("contract_unreachable", cat3("connections.", conn_id, ".hash"), m)),
        };
    }
    let changes = classify_desc_pair(conn_id, mine, &t);
    let diags = blocking_diags(&changes, conn_id, " (conservatively NO at the delivery boundary because direction is undecided; approach A)");
    if diags.len() == 0 {
        HandshakeOutcome::Accepted
    } else {
        HandshakeOutcome::Blocked { diags }
    }
}

/// The handshake judged against the descriptor's own fragment of `conn`; an unknown connection
/// cannot be judged in this descriptor generation and is unreachable.
pub open spec fn judge_of(desc: Descriptor, conn: Seq<char>, sender_hash: Seq<char>, theirs: Result<DescriptorConnection, (Seq<char>, Seq<char>)>) -> HandshakeView {
    if has_key(desc.connections@, conn) {
        verdict_of(conn, desc.connections@[find_key(desc.connections@, conn)].1, sender_hash, theirs)
    } else {
        HandshakeView::Unreachable(
            seq![
                dv(
                    "contract_unreachable"@,
                    "connections."@ + conn,
                    "undefined connection '"@ + conn
                        + "' cannot be handshake-judged (possibly a descriptor-generation gap; not cached)"@,
                ),
            ],
        )
    }
}

pub fn handshake_judge(desc: &Descriptor, conn: &str, sender_hash: &str, theirs: Result<DescriptorConnection, (String, String)>) -> (r: HandshakeOutcome)
    ensures
        r@ == judge_of(*desc, conn@, sender_hash@, fragment_view(theirs)),
{
    match lookup(&desc.connections, conn) {
        Some(i) => handshake_verdict(conn, &desc.connections[i].1, sender_hash, theirs),
        None => {
            let mut m = String::from_str("undefined connection '");
            m.append(conn);
            m.append("' cannot be handshake-judged (possibly a descriptor-generation gap; not cached)");
            HandshakeOutcome::Unreachable { diags: one_diag(Diag::new("contract_unreachable", cat("connections.", conn), m)) }
        },
    }
}

/// A connection's fragment, as the contract queryable returns it (the glue writes it as JSON).
pub fn contract_fragment<'a>(desc: &'a Descriptor, conn: &str) -> (r: Result<&'a DescriptorConnection, Vec<Diag>>)
    ensures
        match r {
            Ok(c) => has_key(desc.connections@, conn@)
                && *c == desc.connections@[find_key(desc.connections@, conn@)].1,
            Err(d) => !has_key(desc.connections@, conn@)
                && diag_views(d@) == seq![unknown_connection_diag(conn@)],
        },
{
    conn_of(desc, conn)
}

/// The diagnostics of a reply_err envelope (`parsed` is the envelope's `diags` list when the
/// payload is such an envelope): a missing or empty list is a retryable `bad_reply_envelope`.
pub fn parse_reply_err(parsed: Option<Vec<Diag>>) -> (r: Vec<Diag>)
    ensures
        match parsed {
            Some(d) => d@.len() > 0 ==> r@ == d@,
            None => true,
        },
        (parsed is None || parsed->0@.len() == 0) ==> diag_views(r@) == seq![
            dv("bad_reply_envelope"@, "$"@, "the reply_err payload is not a diagnostic envelope ({\"diags\":[...]}) (may recover on resend)"@),
        ],
{
    match parsed {
        Some(d) => {
            if d.len() > 0 {
                return d;
            }
        },
        None => {},
    }
    one_diag(Diag::new("bad_reply_envelope", String::from_str("$"), String::from_str("the reply_err payload is not a diagnostic envelope ({\"diags\":[...]}) (may recover on resend)")))
}

// ---------------------------------------------------------------- retry classification

/// Classification for smart retry.
#[derive(Debug, Clone, Copy, PartialEq, Eq, Structural)]
pub enum DeliveryClass {
    Retryable,
    Fatal,
}

/// The codes of the type/contract family: pointless to retry unless something is fixed.
pub open spec fn fatal_code(code: Seq<char>) -> bool {
    code == "schema_incompatible"@ || code == "schema_version_mismatch"@ || code == "type_mismatch"@
        || code == "required"@ || code == "enum_mismatch"@ || code == "out_of_range"@
        || code == "too_long"@ || code == "bad_base64"@ || code == "no_union_match"@
        || code == "decode_error"@ || code == "unknown_connection"@ || code == "unknown_node"@
        || code == "role_mismatch"@ || code == "pattern_mismatch"@
        || code == "missing_schema_hash"@ || code == "descriptor_error"@
}

pub open spec fn delivery_of(diags: Seq<DiagView>) -> DeliveryClass {
    if exists|i: int| 0 <= i < diags.len() && fatal_code(diags[i].code) {
        DeliveryClass::Fatal
    } else {
        DeliveryClass::Retryable
    }
}

fn is_fatal_code(code: &str) -> (r: bool)
    ensures
        r == fatal_code(code@),
{
    let list = [
        "schema_incompatible", "schema_version_mismatch", "type_mismatch", "required",
        "enum_mismatch", "out_of_range", "too_long", "bad_base64", "no_union_match",
        "decode_error", "unknown_connection", "unknown_node", "role_mismatch",
        "pattern_mismatch", "missing_schema_hash", "descriptor_error",
    ];
    let mut i: usize = 0;
    while i < 16
        invariant
            i <= 16,
            list@ == seq![
                "schema_incompatible", "schema_version_mismatch", "type_mismatch", "required",
                "enum_mismatch", "out_of_range", "too_long", "bad_base64", "no_union_match",
                "decode_error", "unknown_connection", "unknown_node", "role_mismatch",
                "pattern_mismatch", "missing_schema_hash", "descriptor_error",
            ],
            forall|k: int| 0 <= k < i ==> code@ != (#[trigger] list@[k])@,
        decreases 16 - i,
    {
        if string_eq(code, list[i]) {
            return true;
        }
        i = i + 1;
    }
    assert(code@ != list@[0]@ && code@ != list@[1]@ && code@ != list@[2]@ && code@ != list@[3]@);
    assert(code@ != list@[4]@ && code@ != list@[5]@ && code@ != list@[6]@ && code@ != list@[7]@);
    assert(code@ != list@[8]@ && code@ != list@[9]@ && code@ != list@[10]@ && code@ != list@[11]@);
    assert(code@ != list@[12]@ && code@ != list@[13]@ && code@ != list@[14]@ && code@ != list@[15]@);
    false
}

/// Type/contract family = Fatal; everything else (including no response at all) = Retryable.
pub fn classify_delivery(timed_out: bool, diags: &Vec<Diag>) -> (r: DeliveryClass)
    ensures
        r == delivery_of(diag_views(diags@)),
{
    let mut i: usize = 0;
    while i < diags.len()
        invariant
            i <= diags@.len(),
            forall|k: int| 0 <= k < i ==> !fatal_code(#[trigger] diags@[k].code@),
        decreases diags@.len() - i,
    {
        if is_fatal_code(diags[i].code.as_str()) {
            assert(fatal_code(diag_views(diags@)[i as int].code));
            return DeliveryClass::Fatal;
        }
        i = i + 1;
    }
    proof {
        assert forall|k: int| 0 <= k < diags@.len() implies !fatal_code(#[trigger] diag_views(diags@)[k].code) by {
            assert(diag_views(diags@)[k].code == diags@[k].code@);
        }
    }
    DeliveryClass::Retryable
}

pub fn delivery_str(class: DeliveryClass) -> (r: &'static str)
    ensures
        r@ == (match class {
            DeliveryClass::Retryable => "retryable"@,
            DeliveryClass::Fatal => "fatal"@,
        }),
{
    match class {
        DeliveryClass::Retryable => "retryable",
        DeliveryClass::Fatal => "fatal",
    }
}

} // verus!

verus! {

use crate::payload::{all_payload_codes, payload_code, payload_codes};

/// A payload that validation rejects is classified fatal: retrying it unchanged cannot succeed.
pub proof fn rejected_payload_is_fatal(slot: Slot, v: Json)
    requires
        payload_diags(slot, v).len() > 0,
    ensures
        delivery_of(payload_diags(slot, v)) == DeliveryClass::Fatal,
{
    payload_codes(slot, v);
    let d = payload_diags(slot, v);
    assert(payload_code(d[0].code));
    assert(fatal_code(d[0].code));
}

/// Every rejection at a receive boundary is classified fatal.
pub proof fn receive_rejections_are_fatal(desc: Descriptor, node: Seq<char>, conn: Seq<char>, pattern: Pattern, role: Role, sel: SlotSel, parsed: Result<Json, Seq<char>>, attachment: Option<Seq<char>>, seq: u64, trusted: Option<Seq<char>>)
    requires
        receive_verdict(desc, node, conn, pattern, role, sel, parsed, attachment, seq, trusted) is Reject,
    ensures
        delivery_of(receive_verdict(desc, node, conn, pattern, role, sel, parsed, attachment, seq, trusted)->Reject_0) == DeliveryClass::Fatal,
{
    let d = receive_verdict(desc, node, conn, pattern, role, sel, parsed, attachment, seq, trusted)->Reject_0;
    if has_key(desc.connections@, conn) {
        let c = desc.connections@[find_key(desc.connections@, conn)].1;
        match parsed {
            Ok(v) => match selected(c, sel) {
                Some(s) => {
                    if role_diag(c, conn, node, pattern, role) is None && attachment is Some
                        && validates(c.validate, seq) && payload_diags(s, v).len() > 0 {
                        payload_codes(s, v);
                    }
                },
                None => {},
            },
            Err(_) => {},
        }
    }
    assert(d.len() > 0);
    assert(fatal_code(d[0].code));
}

/// What a send boundary lets through, the receive boundary accepts, unchanged, on every node
/// on the receiving side, when it carries the connection's hash.
pub proof fn sent_value_is_accepted(desc: Descriptor, sender: Seq<char>, receiver: Seq<char>, conn: Seq<char>, pattern: Pattern, send_role: Role, recv_role: Role, sel: SlotSel, parsed: Result<Json, Seq<char>>, seq: u64, trusted: Option<Seq<char>>)
    requires
        send_verdict(desc, sender, conn, pattern, send_role, sel, parsed, seq) is Ok,
        role_diag(send_verdict(desc, sender, conn, pattern, send_role, sel, parsed, seq)->Ok_0.0, conn, receiver, pattern, recv_role) is None,
    ensures
        ({
            let sent = send_verdict(desc, sender, conn, pattern, send_role, sel, parsed, seq)->Ok_0;
            receive_verdict(desc, receiver, conn, pattern, recv_role, sel, Ok(sent.1), Some(sent.0.hash@), seq, trusted)
                == AcceptView::Accept(sent.1)
        }),
{
}

/// Every rejection at a send boundary is classified fatal.
pub proof fn send_rejections_are_fatal(desc: Descriptor, node: Seq<char>, conn: Seq<char>, pattern: Pattern, role: Role, sel: SlotSel, parsed: Result<Json, Seq<char>>, seq: u64)
    requires
        send_verdict(desc, node, conn, pattern, role, sel, parsed, seq) is Err,
    ensures
        delivery_of(send_verdict(desc, node, conn, pattern, role, sel, parsed, seq)->Err_0) == DeliveryClass::Fatal,
{
    let d = send_verdict(desc, node, conn, pattern, role, sel, parsed, seq)->Err_0;
    if has_key(desc.connections@, conn) {
        let c = desc.connections@[find_key(desc.connections@, conn)].1;
        match parsed {
            Ok(v) => match selected(c, sel) {
                Some(s) => {
                    if role_diag(c, conn, node, pattern, role) is None && validates(c.validate, seq)
                        && payload_diags(s, v).len() > 0 {
                        payload_codes(s, v);
                    }
                },
                None => {},
            },
            Err(_) => {},
        }
    }
    assert(d.len() > 0);
    assert(fatal_code(d[0].code));
}

} // verus!

verus! {

use crate::strs::{insert_sorted, join, join_strings, push_decimal, decimal, sorted_unique, lex_lt};
use crate::model::{Field, TypeName};
use crate::payload::obj_get;

// ---------------------------------------------------------------- selectors

/// Nodes that can send on a pub_sub connection (are the `from` of one), ascending, without repeats.
pub fn publishing_nodes(desc: &Descriptor) -> (r: Vec<String>)
    ensures
        sorted_unique(views(r@)),
        forall|x: Seq<char>| views(r@).contains(x) <==> exists|i: int|
            0 <= i < desc.connections@.len() && desc.connections@[i].1.pattern == Pattern::PubSub
                && desc.connections@[i].1.from@ == x,
{
    let ghost cs = desc.connections@;
    let mut out: Vec<String> = Vec::new();
    let mut i: usize = 0;
    while i < desc.connections.len()
        invariant
            cs == desc.connections@,
            i <= cs.len(),
            sorted_unique(views(out@)),
            forall|x: Seq<char>| views(out@).contains(x) <==> exists|k: int|
                0 <= k < i && cs[k].1.pattern == Pattern::PubSub && cs[k].1.from@ == x,
        decreases cs.len() - i,
    {
        let c = &desc.connections[i].1;
        let ghost before = views(out@);
        if c.pattern == Pattern::PubSub {
            insert_sorted(&mut out, c.from.clone());
        }
        proof {
            assert forall|x: Seq<char>| views(out@).contains(x) <==> exists|k: int|
                0 <= k < i + 1 && cs[k].1.pattern == Pattern::PubSub && cs[k].1.from@ == x by {
                if views(out@).contains(x) && !before.contains(x) {
                    assert(cs[i as int].1.pattern == Pattern::PubSub && cs[i as int].1.from@ == x);
                }
                if exists|k: int| 0 <= k < i + 1 && cs[k].1.pattern == Pattern::PubSub && cs[k].1.from@ == x {
                    let k = choose|k: int| 0 <= k < i + 1 && cs[k].1.pattern == Pattern::PubSub && cs[k].1.from@ == x;
                    if k < i {
                        assert(before.contains(x));
                    }
                }
            }
        }
        i = i + 1;
    }
    out
}

/// Nodes that can receive on a pub_sub connection (are a `to` of one), ascending, without repeats.
pub fn subscribing_nodes(desc: &Descriptor) -> (r: Vec<String>)
    ensures
        sorted_unique(views(r@)),
        forall|x: Seq<char>| views(r@).contains(x) <==> exists|i: int, j: int|
            0 <= i < desc.connections@.len() && desc.connections@[i].1.pattern == Pattern::PubSub
                && 0 <= j < desc.connections@[i].1.to@.len() && desc.connections@[i].1.to@[j]@ == x,
{
    let ghost cs = desc.connections@;
    let mut out: Vec<String> = Vec::new();
    let mut i: usize = 0;
    while i < desc.connections.len()
        invariant
            cs == desc.connections@,
            i <= cs.len(),
            sorted_unique(views(out@)),
            forall|x: Seq<char>| views(out@).contains(x) <==> exists|k: int, j: int|
                0 <= k < i && cs[k].1.pattern == Pattern::PubSub && 0 <= j < cs[k].1.to@.len()
                    && cs[k].1.to@[j]@ == x,
        decreases cs.len() - i,
    {
        let c = &desc.connections[i].1;
        if c.pattern == Pattern::PubSub {
            let mut j: usize = 0;
            while j < c.to.len()
                invariant
                    cs == desc.connections@,
                    i < cs.len(),
                    *c == cs[i as int].1,
                    c.pattern == Pattern::PubSub,
                    j <= c.to@.len(),
                    sorted_unique(views(out@)),
                    forall|x: Seq<char>| views(out@).contains(x) <==> ((exists|k: int, m: int|
                        0 <= k < i && cs[k].1.pattern == Pattern::PubSub && 0 <= m < cs[k].1.to@.len()
                            && cs[k].1.to@[m]@ == x) || (exists|m: int| 0 <= m < j && c.to@[m]@ == x)),
                decreases c.to@.len() - j,
            {
                let ghost before = views(out@);
                insert_sorted(&mut out, c.to[j].clone());
                proof {
                    assert forall|x: Seq<char>| views(out@).contains(x) <==> ((exists|k: int, m: int|
                        0 <= k < i && cs[k].1.pattern == Pattern::PubSub && 0 <= m < cs[k].1.to@.len()
                            && cs[k].1.to@[m]@ == x) || (exists|m: int| 0 <= m < j + 1 && c.to@[m]@ == x)) by {
                        if x == c.to@[j as int]@ {
                            assert(exists|m: int| 0 <= m < j + 1 && c.to@[m]@ == x);
                        }
                        if exists|m: int| 0 <= m < j + 1 && c.to@[m]@ == x {
                            let m = choose|m: int| 0 <= m < j + 1 && c.to@[m]@ == x;
                            if m < j {
                                assert(before.contains(x));
                            }
                        }
                    }
                }
                j = j + 1;
            }
            proof {
                assert forall|x: Seq<char>| views(out@).contains(x) <==> exists|k: int, m: int|
                    0 <= k < i + 1 && cs[k].1.pattern == Pattern::PubSub && 0 <= m < cs[k].1.to@.len()
                        && cs[k].1.to@[m]@ == x by {
                    if exists|m: int| 0 <= m < c.to@.len() && c.to@[m]@ == x {
                        let m = choose|m: int| 0 <= m < c.to@.len() && c.to@[m]@ == x;
                        assert(cs[i as int].1.to@[m]@ == x);
                    }
                    if exists|k: int, m: int| 0 <= k < i + 1 && cs[k].1.pattern == Pattern::PubSub
                        && 0 <= m < cs[k].1.to@.len() && cs[k].1.to@[m]@ == x {
                        let (k, m) = choose|k: int, m: int| 0 <= k < i + 1 && cs[k].1.pattern == Pattern::PubSub
                            && 0 <= m < cs[k].1.to@.len() && cs[k].1.to@[m]@ == x;
                        if k == i {
                            assert(c.to@[m]@ == x);
                        }
                    }
                }
            }
        }
        i = i + 1;
    }
    out
}

// ---------------------------------------------------------------- display rows

pub open spec fn type_word(t: TypeName) -> Seq<char> {
    match t {
        TypeName::Int => "int"@,
        TypeName::Float => "float"@,
        TypeName::Bool => "bool"@,
        TypeName::String => "string"@,
        TypeName::Bytes => "bytes"@,
        TypeName::Timestamp => "timestamp"@,
        TypeName::Enum => "enum"@,
        TypeName::Array => "array"@,
        TypeName::Dict => "map"@,
        TypeName::Group => "group"@,
        TypeName::Union => "union"@,
    }
}

pub fn type_name_str(t: TypeName) -> (r: &'static str)
    ensures
        r@ == type_word(t),
{
    match t {
        TypeName::Int => "int",
        TypeName::Float => "float",
        TypeName::Bool => "bool",
        TypeName::String => "string",
        TypeName::Bytes => "bytes",
        TypeName::Timestamp => "timestamp",
        TypeName::Enum => "enum",
        TypeName::Array => "array",
        TypeName::Dict => "map",
        TypeName::Group => "group",
        TypeName::Union => "union",
    }
}

pub open spec fn field_names(fs: Seq<Field>) -> Seq<Seq<char>> {
    fs.map_values(|f: Field| f.name@)
}

/// A compact summary of a field's constraints (range / enum values / length / group members).
pub open spec fn detail_of(f: Field) -> Seq<char> {
    match f.ty {
        TypeName::Int | TypeName::Float => match (f.min, f.max) {
            (Some(a), Some(b)) => a.text@ + ".."@ + b.text@,
            (Some(a), None) => ">="@ + a.text@,
            (None, Some(b)) => "<="@ + b.text@,
            (None, None) => seq![],
        },
        TypeName::Enum => join(views(f.values@), "|"@),
        TypeName::String => match f.max_len {
            Some(m) => "<="@ + decimal(m as nat) + " chars"@,
            None => seq![],
        },
        TypeName::Group => join(field_names(f.fields@), ", "@),
        _ => seq![],
    }
}

fn field_detail(f: &Field) -> (r: String)
    ensures
        r@ == detail_of(*f),
{
    match f.ty {
        TypeName::Int | TypeName::Float => match (&f.min, &f.max) {
            (Some(a), Some(b)) => cat3(a.text.as_str(), "..", b.text.as_str()),
            (Some(a), None) => cat(">=", a.text.as_str()),
            (None, Some(b)) => cat("<=", b.text.as_str()),
            (None, None) => String::new(),
        },
        TypeName::Enum => join_strings(&f.values, "|"),
        TypeName::String => match f.max_len {
            Some(m) => {
                let mut s = String::from_str("<=");
                push_decimal(&mut s, m);
                s.append(" chars");
                s
            },
            None => String::new(),
        },
        TypeName::Group => {
            let mut names: Vec<String> = Vec::new();
            let mut i: usize = 0;
            while i < f.fields.len()
                invariant
                    i <= f.fields@.len(),
                    names@.len() == i,
                    forall|j: int| 0 <= j < i ==> #[trigger] names@[j]@ == f.fields@[j].name@,
                decreases f.fields@.len() - i,
            {
                names.push(f.fields[i].name.clone());
                i = i + 1;
            }
            assert(views(names@) =~= field_names(f.fields@));
            join_strings(&names, ", ")
        },
        _ => String::new(),
    }
}

/// One display row: name, type, required ("yes"/"no"), constraint summary.
pub open spec fn row_of(f: Field) -> Seq<Seq<char>> {
    seq![f.name@, type_word(f.ty), if f.required { "yes"@ } else { "no"@ }, detail_of(f)]
}

pub fn field_row(f: &Field) -> (r: Vec<String>)
    ensures
        views(r@) == row_of(*f),
{
    let mut r: Vec<String> = Vec::new();
    r.push(f.name.clone());
    r.push(String::from_str(type_name_str(f.ty)));
    r.push(String::from_str(if f.required { "yes" } else { "no" }));
    r.push(field_detail(f));
    assert(views(r@) =~= row_of(*f));
    r
}

/// The payload schema of a connection as display rows; empty for an unknown connection, one
/// without a payload slot, or an untyped one.
pub open spec fn rows_of(desc: Descriptor, conn: Seq<char>) -> Seq<Seq<Seq<char>>> {
    if !has_key(desc.connections@, conn) {
        seq![]
    } else {
        match desc.connections@[find_key(desc.connections@, conn)].1.payload {
            None => seq![],
            Some(s) => if s.typing == Typing::Any {
                seq![]
            } else {
                s.fields@.map_values(|f: Field| row_of(f))
            },
        }
    }
}

pub open spec fn row_views(v: Seq<Vec<String>>) -> Seq<Seq<Seq<char>>> {
    v.map_values(|r: Vec<String>| views(r@))
}

pub fn connection_fields(desc: &Descriptor, conn: &str) -> (r: Vec<Vec<String>>)
    ensures
        row_views(r@) == rows_of(*desc, conn@),
{
    let mut out: Vec<Vec<String>> = Vec::new();
    let i = match lookup(&desc.connections, conn) {
        Some(i) => i,
        None => {
            assert(row_views(out@) =~= Seq::<Seq<Seq<char>>>::empty());
            return out;
        },
    };
    let slot = match &desc.connections[i].1.payload {
        Some(s) => s,
        None => {
            assert(row_views(out@) =~= Seq::<Seq<Seq<char>>>::empty());
            return out;
        },
    };
    if slot.typing == Typing::Any {
        assert(row_views(out@) =~= Seq::<Seq<Seq<char>>>::empty());
        return out;
    }
    let mut k: usize = 0;
    while k < slot.fields.len()
        invariant
            k <= slot.fields@.len(),
            out@.len() == k,
            forall|j: int| 0 <= j < k ==> views(#[trigger] out@[j]@) == row_of(slot.fields@[j]),
        decreases slot.fields@.len() - k,
    {
        out.push(field_row(&slot.fields[k]));
        k = k + 1;
    }
    assert(row_views(out@) =~= slot.fields@.map_values(|f: Field| row_of(f)));
    out
}

// ---------------------------------------------------------------- decoding for display

pub open spec fn numeric_type(t: TypeName) -> bool {
    t == TypeName::Int || t == TypeName::Float || t == TypeName::Bool
}

pub fn is_numeric(t: TypeName) -> (r: bool)
    ensures
        r == numeric_type(t),
{
    t == TypeName::Int || t == TypeName::Float || t == TypeName::Bool
}

/// One JSON value as a channel sample text: a number's binary64 reading as JSON writes it, a
/// bool as `1.0` / `0.0`; other values are not samples.
pub open spec fn channel_text(v: Json) -> Option<Seq<char>> {
    match v {
        Json::Number(n) => Some(n.real_json@),
        Json::Bool(b) => Some(if b { "1.0"@ } else { "0.0"@ }),
        _ => None,
    }
}

fn channel_of(v: &Json) -> (r: Option<String>)
    ensures
        match r {
            Some(s) => channel_text(*v) == Some(s@),
            None => channel_text(*v) is None,
        },
{
    match v {
        Json::Number(n) => Some(n.real_json.clone()),
        Json::Bool(b) => Some(String::from_str(if *b { "1.0" } else { "0.0" })),
        _ => None,
    }
}

pub open spec fn channel_texts(items: Seq<Json>) -> Seq<Seq<char>> {
    items.map_values(|v: Json| channel_text(v)->0)
}

pub open spec fn all_channels(items: Seq<Json>) -> bool {
    forall|i: int| 0 <= i < items.len() ==> channel_text(#[trigger] items[i]) is Some
}

/// The channel groups of one field: a numeric scalar gives `name, 1, sample`; an all-numeric,
/// non-empty array gives `name, count, samples...`; anything else gives nothing.
pub open spec fn field_channels(f: Field, entries: Seq<(String, Json)>) -> Seq<Seq<char>> {
    match obj_get(entries, f.name@) {
        None => seq![],
        Some(v) => if numeric_type(f.ty) {
            match channel_text(v) {
                Some(t) => seq![f.name@, "1"@, t],
                None => seq![],
            }
        } else if f.ty == TypeName::Array {
            match v {
                Json::Array(items) => if items@.len() > 0 && all_channels(items@) {
                    seq![f.name@, decimal(items@.len())] + channel_texts(items@)
                } else {
                    seq![]
                },
                _ => seq![],
            }
        } else {
            seq![]
        },
    }
}

pub open spec fn fields_channels(fs: Seq<Field>, entries: Seq<(String, Json)>) -> Seq<Seq<char>>
    decreases fs.len(),
{
    if fs.len() == 0 {
        seq![]
    } else {
        fields_channels(fs.drop_last(), entries) + field_channels(fs.last(), entries)
    }
}

/// The payload slot's fields of a known connection, when the payload is an object.
pub open spec fn decodable(desc: Descriptor, conn: Seq<char>, payload: Json) -> Option<(Seq<Field>, Seq<(String, Json)>)> {
    if !has_key(desc.connections@, conn) {
        None
    } else {
        match desc.connections@[find_key(desc.connections@, conn)].1.payload {
            None => None,
            Some(s) => match payload {
                Json::Object(e) => Some((s.fields@, e@)),
                _ => None,
            },
        }
    }
}

fn push_str_owned(v: &mut Vec<String>, s: String)
    ensures
        views(final(v)@) == views(old(v)@).push(s@),
{
    v.push(s);
    assert(views(final(v)@) =~= views(old(v)@).push(s@));
}

fn get_entry<'a>(entries: &'a Vec<(String, Json)>, k: &str) -> (r: Option<&'a Json>)
    ensures
        match r {
            Some(x) => obj_get(entries@, k@) == Some(*x),
            None => obj_get(entries@, k@) is None,
        },
{
    match lookup(entries, k) {
        Some(i) => Some(&entries[i].1),
        None => None,
    }
}

/// Decode a payload's numeric fields into flat `name, count, v0, v1, …` groups (empty for an
/// unknown connection, one without a payload slot, or a payload that is not an object).
pub fn decode_channels(desc: &Descriptor, conn: &str, payload: &Json) -> (r: Vec<String>)
    ensures
        views(r@) == match decodable(*desc, conn@, *payload) {
            Some((fs, e)) => fields_channels(fs, e),
            None => seq![],
        },
{
    let mut out: Vec<String> = Vec::new();
    assert(views(out@) =~= Seq::<Seq<char>>::empty());
    let i = match lookup(&desc.connections, conn) {
        Some(i) => i,
        None => return out,
    };
    let slot = match &desc.connections[i].1.payload {
        Some(s) => s,
        None => return out,
    };
    let entries = match payload {
        Json::Object(e) => e,
        _ => return out,
    };
    let mut k: usize = 0;
    assert(slot.fields@.take(0) =~= Seq::<Field>::empty());
    while k < slot.fields.len()
        invariant
            k <= slot.fields@.len(),
            views(out@) == fields_channels(slot.fields@.take(k as int), entries@),
        decreases slot.fields@.len() - k,
    {
        let f = &slot.fields[k];
        let ghost before = views(out@);
        match get_entry(entries, f.name.as_str()) {
            None => {},
            Some(v) => {
                if is_numeric(f.ty) {
                    match channel_of(v) {
                        Some(t) => {
                            push_str_owned(&mut out, f.name.clone());
                            push_str_owned(&mut out, String::from_str("1"));
                            push_str_owned(&mut out, t);
                        },
                        None => {},
                    }
                } else if f.ty == TypeName::Array {
                    match v {
                        Json::Array(items) => {
                            let mut texts: Vec<String> = Vec::new();
                            let mut all = true;
                            let mut m: usize = 0;
                            while m < items.len()
                                invariant
                                    m <= items@.len(),
                                    all ==> views(texts@) == channel_texts(items@.take(m as int)),
                                    all ==> all_channels(items@.take(m as int)),
                                    !all ==> !all_channels(items@),
                                decreases items@.len() - m,
                            {
                                if all {
                                    match channel_of(&items[m]) {
                                        Some(t) => {
                                            push_str_owned(&mut texts, t);
                                            assert(views(texts@) =~= channel_texts(items@.take(m + 1)));
                                            assert forall|q: int| 0 <= q < m + 1 implies channel_text(#[trigger] items@.take(m + 1)[q]) is Some by {
                                                if q < m {
                                                    assert(items@.take(m + 1)[q] == items@.take(m as int)[q]);
                                                }
                                            }
                                        },
                                        None => {
                                            assert(channel_text(items@[m as int]) is None);
                                            all = false;
                                        },
                                    }
                                }
                                m = m + 1;
                            }
                            assert(items@.take(items@.len() as int) =~= items@);
                            if all && items.len() > 0 {
                                push_str_owned(&mut out, f.name.clone());
                                let mut n = String::new();
                                push_decimal(&mut n, items.len() as u64);
                                push_str_owned(&mut out, n);
                                let mut q: usize = 0;
                                let ghost mid = views(out@);
                                while q < texts.len()
                                    invariant
                                        q <= texts@.len(),
                                        views(out@) == mid + views(texts@).take(q as int),
                                    decreases texts@.len() - q,
                                {
                                    push_str_owned(&mut out, texts[q].clone());
                                    q = q + 1;
                                    assert(views(out@) =~= mid + views(texts@).take(q as int));
                                }
                                assert(views(texts@).take(texts@.len() as int) =~= views(texts@));
                            }
                        },
                        _ => {},
                    }
                }
            },
        }
        proof {
            let pre = slot.fields@.take(k + 1);
            assert(pre.drop_last() =~= slot.fields@.take(k as int));
            assert(pre.last() == slot.fields@[k as int]);
            assert(views(out@) =~= before + field_channels(*f, entries@));
        }
        k = k + 1;
    }
    assert(slot.fields@.take(slot.fields@.len() as int) =~= slot.fields@);
    out
}

/// One scalar as a short display string.
pub open spec fn compact_of(v: Json) -> Seq<char> {
    match v {
        Json::Number(n) => n.text@,
        Json::Bool(b) => if b { "true"@ } else { "false"@ },
        Json::Str(s) => s@,
        _ => "…"@,
    }
}

fn compact_scalar(v: &Json) -> (r: String)
    ensures
        r@ == compact_of(*v),
{
    match v {
        Json::Number(n) => n.text.clone(),
        Json::Bool(b) => String::from_str(if *b { "true" } else { "false" }),
        Json::Str(s) => s.clone(),
        _ => String::from_str("…"),
    }
}

/// The `kind, value` pair of one field for a display table.
pub open spec fn field_cell(f: Field, entries: Seq<(String, Json)>) -> (Seq<char>, Seq<char>) {
    match obj_get(entries, f.name@) {
        Some(Json::Number(n)) => ("number"@, n.text@),
        Some(Json::Bool(b)) => ("bool"@, if b { "true"@ } else { "false"@ }),
        Some(Json::Str(s)) => ("string"@, s@),
        Some(Json::Array(items)) => ("array"@, join(items@.map_values(|x: Json| compact_of(x)), ", "@)),
        Some(Json::Object(_)) => ("object"@, "{…}"@),
        _ => ("missing"@, seq![]),
    }
}

pub open spec fn fields_cells(fs: Seq<Field>, entries: Seq<(String, Json)>) -> Seq<Seq<char>>
    decreases fs.len(),
{
    if fs.len() == 0 {
        seq![]
    } else {
        let c = field_cell(fs.last(), entries);
        fields_cells(fs.drop_last(), entries) + seq![fs.last().name@, c.0, c.1]
    }
}

/// Decode all payload fields into flat `name, kind, value` triples.
pub fn decode_fields(desc: &Descriptor, conn: &str, payload: &Json) -> (r: Vec<String>)
    ensures
        views(r@) == match decodable(*desc, conn@, *payload) {
            Some((fs, e)) => fields_cells(fs, e),
            None => seq![],
        },
{
    let mut out: Vec<String> = Vec::new();
    assert(views(out@) =~= Seq::<Seq<char>>::empty());
    let i = match lookup(&desc.connections, conn) {
        Some(i) => i,
        None => return out,
    };
    let slot = match &desc.connections[i].1.payload {
        Some(s) => s,
        None => return out,
    };
    let entries = match payload {
        Json::Object(e) => e,
        _ => return out,
    };
    let mut k: usize = 0;
    assert(slot.fields@.take(0) =~= Seq::<Field>::empty());
    while k < slot.fields.len()
        invariant
            k <= slot.fields@.len(),
            views(out@) == fields_cells(slot.fields@.take(k as int), entries@),
        decreases slot.fields@.len() - k,
    {
        let f = &slot.fields[k];
        let ghost before = views(out@);
        let (kind, value) = match get_entry(entries, f.name.as_str()) {
            Some(Json::Number(n)) => ("number", n.text.clone()),
            Some(Json::Bool(b)) => ("bool", String::from_str(if *b { "true" } else { "false" })),
            Some(Json::Str(s)) => ("string", s.clone()),
            Some(Json::Array(items)) => {
                let mut parts: Vec<String> = Vec::new();
                let mut m: usize = 0;
                while m < items.len()
                    invariant
                        m <= items@.len(),
                        parts@.len() == m,
                        forall|j: int| 0 <= j < m ==> #[trigger] parts@[j]@ == compact_of(items@[j]),
                    decreases items@.len() - m,
                {
                    parts.push(compact_scalar(&items[m]));
                    m = m + 1;
                }
                assert(views(parts@) =~= items@.map_values(|x: Json| compact_of(x)));
                ("array", join_strings(&parts, ", "))
            },
            Some(Json::Object(_)) => ("object", String::from_str("{…}")),
            _ => ("missing", String::new()),
        };
        assert(kind@ == field_cell(*f, entries@).0);
        assert(value@ == field_cell(*f, entries@).1);
        push_str_owned(&mut out, f.name.clone());
        push_str_owned(&mut out, String::from_str(kind));
        push_str_owned(&mut out, value);
        proof {
            let pre = slot.fields@.take(k + 1);
            assert(pre.drop_last() =~= slot.fields@.take(k as int));
            assert(pre.last() == slot.fields@[k as int]);
            assert(views(out@) =~= before + seq![f.name@, field_cell(*f, entries@).0, field_cell(*f, entries@).1]);
        }
        k = k + 1;
    }
    assert(slot.fields@.take(slot.fields@.len() as int) =~= slot.fields@);
    out
}

} // verus!

verus! {

/// A connection whose validation level is `off` never judges payloads: once the connection,
/// the node's role and the slot are right, every payload is sent and accepted unchanged,
/// whatever it holds and whatever its sequence number.
pub proof fn unvalidated_level_passes_every_payload(desc: Descriptor, node: Seq<char>, conn: Seq<char>, pattern: Pattern, role: Role, sel: SlotSel, v: Json, seq: u64, trusted: Option<Seq<char>>)
    requires
        has_key(desc.connections@, conn),
        desc.connections@[find_key(desc.connections@, conn)].1.validate == ValidateLevel::Off,
        role_diag(desc.connections@[find_key(desc.connections@, conn)].1, conn, node, pattern, role) is None,
        selected(desc.connections@[find_key(desc.connections@, conn)].1, sel) is Some,
    ensures
        send_verdict(desc, node, conn, pattern, role, sel, Ok(v), seq) == Ok::<(DescriptorConnection, Json), Seq<DiagView>>(
            (desc.connections@[find_key(desc.connections@, conn)].1, v),
        ),
        receive_verdict(
            desc,
            node,
            conn,
            pattern,
            role,
            sel,
            Ok(v),
            Some(desc.connections@[find_key(desc.connections@, conn)].1.hash@),
            seq,
            trusted,
        ) == AcceptView::Accept(v),
{
}

/// A connection validated in full judges every payload: one with diagnostics is refused at
/// both boundaries with exactly those diagnostics, whatever its sequence number.
pub proof fn full_level_judges_every_payload(desc: Descriptor, node: Seq<char>, conn: Seq<char>, pattern: Pattern, role: Role, sel: SlotSel, v: Json, seq: u64, trusted: Option<Seq<char>>)
    requires
        has_key(desc.connections@, conn),
        desc.connections@[find_key(desc.connections@, conn)].1.validate == ValidateLevel::Full,
        role_diag(desc.connections@[find_key(desc.connections@, conn)].1, conn, node, pattern, role) is None,
        selected(desc.connections@[find_key(desc.connections@, conn)].1, sel) is Some,
        payload_diags(selected(desc.connections@[find_key(desc.connections@, conn)].1, sel)->0, v).len() > 0,
    ensures
        send_verdict(desc, node, conn, pattern, role, sel, Ok(v), seq) == Err::<(DescriptorConnection, Json), Seq<DiagView>>(
            payload_diags(selected(desc.connections@[find_key(desc.connections@, conn)].1, sel)->0, v),
        ),
        receive_verdict(
            desc,
            node,
            conn,
            pattern,
            role,
            sel,
            Ok(v),
            Some(desc.connections@[find_key(desc.connections@, conn)].1.hash@),
            seq,
            trusted,
        ) == AcceptView::Reject(payload_diags(selected(desc.connections@[find_key(desc.connections@, conn)].1, sel)->0, v)),
{
}

/// A sampled connection judges every tenth message: a payload with diagnostics is refused when
/// its sequence number is a multiple of ten and let through unchanged otherwise.
pub proof fn sampled_level_judges_every_tenth(desc: Descriptor, node: Seq<char>, conn: Seq<char>, pattern: Pattern, role: Role, sel: SlotSel, v: Json, seq: u64)
    requires
        has_key(desc.connections@, conn),
        desc.connections@[find_key(desc.connections@, conn)].1.validate == ValidateLevel::Sampled,
        role_diag(desc.connections@[find_key(desc.connections@, conn)].1, conn, node, pattern, role) is None,
        selected(desc.connections@[find_key(desc.connections@, conn)].1, sel) is Some,
        payload_diags(selected(desc.connections@[find_key(desc.connections@, conn)].1, sel)->0, v).len() > 0,
    ensures
        seq % 10 == 0 ==> send_verdict(desc, node, conn, pattern, role, sel, Ok(v), seq) == Err::<(DescriptorConnection, Json), Seq<DiagView>>(
            payload_diags(selected(desc.connections@[find_key(desc.connections@, conn)].1, sel)->0, v),
        ),
        seq % 10 != 0 ==> send_verdict(desc, node, conn, pattern, role, sel, Ok(v), seq) == Ok::<(DescriptorConnection, Json), Seq<DiagView>>(
            (desc.connections@[find_key(desc.connections@, conn)].1, v),
        ),
{
}

} // verus!
