//! Vitals: the state a node reports about itself (its descriptor generation per connection,
//! its runtime and its handshake verdicts), and the reading side's format gate. Runtime-only
//! facts arrive from the caller; JSON encoding and decoding of the record stay with it.
use vstd::prelude::*;

use crate::diag::{diag_views, dv, Diag, DiagView};
use crate::jsontext::{json_string, json_text};
use crate::model::{find_key, has_key, lookup, seq_has, any_equals, Descriptor, DescriptorConnection, Json};
use crate::payload::{obj_get, push_diag};
use crate::strs::{cat, decimal, decimal_string, string_eq};

verus! {

/// The version stamp of the vitals record.
pub const VITALS_FORMAT: u32 = 1;

/// Runtime-only facts, handed in by each language runtime.
#[derive(Debug, Clone, PartialEq)]
pub struct VitalsRuntimeInfo {
    pub lang: String,
    /// runtime library version
    pub sahou: String,
    /// transport library version, when the runtime can learn it
    pub zenoh: Option<String>,
    /// "native" | "ws-link" | "browser"
    pub transport: String,
    pub uptime_secs: u64,
    /// cached delivery verdicts: connection -> sender hash -> "accepted" | "blocked"
    pub handshake: Vec<(String, Vec<(String, String)>)>,
}

#[derive(Debug, Clone, PartialEq)]
pub struct VitalsConn {
    /// this node's side of the connection: "from" | "to"
    pub role: String,
    /// the per-connection hash this node runs
    pub hash: String,
}

#[derive(Debug, Clone, PartialEq)]
pub struct VitalsRuntime {
    pub lang: String,
    pub sahou: String,
    pub zenoh: Option<String>,
    pub transport: String,
}

/// The vitals record.
#[derive(Debug, Clone, PartialEq)]
pub struct Vitals {
    pub vitals_format: u32,
    pub node: String,
    pub namespace: String,
    pub schema: String,
    pub schema_version: String,
    pub connections: Vec<(String, VitalsConn)>,
    pub runtime: VitalsRuntime,
    pub uptime_secs: u64,
    pub handshake: Vec<(String, Vec<(String, String)>)>,
}

pub open spec fn vitals_key_of(namespace: Seq<char>, node: Seq<char>) -> Seq<char> {
    namespace + "/@sahou/vitals/"@ + node
}

/// The key both the liveliness token and the vitals queryable are declared at.
pub fn vitals_key(desc: &Descriptor, node: &str) -> (r: String)
    ensures
        r@ == vitals_key_of(desc.namespace@, node@),
{
    let mut s = desc.namespace.clone();
    s.append("/@sahou/vitals/");
    s.append(node);
    s
}

/// The node's side of each connection it takes part in, in order: `from` wins for a
/// connection that loops back to its sender.
pub open spec fn vitals_conns(cs: Seq<(String, DescriptorConnection)>, node: Seq<char>) -> Seq<(Seq<char>, (Seq<char>, Seq<char>))>
    decreases cs.len(),
{
    if cs.len() == 0 {
        seq![]
    } else {
        let (id, c) = cs.last();
        vitals_conns(cs.drop_last(), node) + if c.from@ == node {
            seq![(id@, ("from"@, c.hash@))]
        } else if seq_has(c.to@, node) {
            seq![(id@, ("to"@, c.hash@))]
        } else {
            seq![]
        }
    }
}

pub open spec fn vconn_views(v: Seq<(String, VitalsConn)>) -> Seq<(Seq<char>, (Seq<char>, Seq<char>))> {
    v.map_values(|e: (String, VitalsConn)| (e.0@, (e.1.role@, e.1.hash@)))
}

pub open spec fn unknown_vitals_node(node: Seq<char>) -> DiagView {
    dv("unknown_node"@, "nodes."@ + node, "undefined node '"@ + node + "' cannot report vitals"@)
}

pub open spec fn bad_info(msg: Seq<char>) -> DiagView {
    dv("vitals_bad_runtime_info"@, "$"@, "the runtime info is not valid: "@ + msg)
}

fn one(d: Diag) -> (r: Vec<Diag>)
    ensures
        diag_views(r@) == seq![d@],
{
    let mut v: Vec<Diag> = Vec::new();
    push_diag(&mut v, d);
    assert(diag_views(Seq::<Diag>::empty()) =~= Seq::<DiagView>::empty());
    assert(Seq::<DiagView>::empty() + seq![d@] =~= seq![d@]);
    v
}

/// This node's vitals record, from the descriptor and the runtime facts (`info`, or the
/// reason they could not be read). An unknown node, then unreadable facts, is the diagnostic.
pub fn vitals_payload(desc: &Descriptor, node: &str, info: Result<VitalsRuntimeInfo, String>) -> (r: Result<Vitals, Vec<Diag>>)
    ensures
        !has_key(desc.nodes@, node@) ==> r is Err && diag_views(r->Err_0@) == seq![unknown_vitals_node(node@)],
        has_key(desc.nodes@, node@) && info is Err ==> r is Err && diag_views(r->Err_0@) == seq![bad_info(info->Err_0@)],
        has_key(desc.nodes@, node@) && info is Ok ==> r is Ok && {
            let v = r->Ok_0;
            let i = info->Ok_0;
            &&& v.vitals_format == VITALS_FORMAT
            &&& v.node@ == node@
            &&& v.namespace@ == desc.namespace@
            &&& v.schema@ == desc.schema@
            &&& v.schema_version@ == desc.version@
            &&& vconn_views(v.connections@) == vitals_conns(desc.connections@, node@)
            &&& v.runtime == VitalsRuntime { lang: i.lang, sahou: i.sahou, zenoh: i.zenoh, transport: i.transport }
            &&& v.uptime_secs == i.uptime_secs
            &&& v.handshake == i.handshake
        },
{
    if lookup(&desc.nodes, node).is_none() {
        let mut m = String::from_str("undefined node '");
        m.append(node);
        m.append("' cannot report vitals");
        return Err(one(Diag::new("unknown_node", cat("nodes.", node), m)));
    }
    let info = match info {
        Err(e) => {
            let m = cat("the runtime info is not valid: ", e.as_str());
            return Err(one(Diag::new("vitals_bad_runtime_info", String::from_str("$"), m)));
        },
        Ok(i) => i,
    };
    let ghost cs = desc.connections@;
    let mut conns: Vec<(String, VitalsConn)> = Vec::new();
    let mut i: usize = 0;
    assert(cs.take(0) =~= Seq::<(String, DescriptorConnection)>::empty());
    assert(vconn_views(conns@) =~= Seq::<(Seq<char>, (Seq<char>, Seq<char>))>::empty());
    while i < desc.connections.len()
        invariant
            cs == desc.connections@,
            i <= cs.len(),
            vconn_views(conns@) == vitals_conns(cs.take(i as int), node@),
        decreases cs.len() - i,
    {
        let id = &desc.connections[i].0;
        let c = &desc.connections[i].1;
        proof {
            let pre = cs.take(i + 1);
            assert(pre.drop_last() =~= cs.take(i as int));
            assert(pre.last() == cs[i as int]);
        }
        let ghost before = vconn_views(conns@);
        if string_eq(c.from.as_str(), node) {
            conns.push((id.clone(), VitalsConn { role: String::from_str("from"), hash: c.hash.clone() }));
            assert(vconn_views(conns@) =~= before + seq![(id@, ("from"@, c.hash@))]);
        } else if any_equals(&c.to, node) {
            conns.push((id.clone(), VitalsConn { role: String::from_str("to"), hash: c.hash.clone() }));
            assert(vconn_views(conns@) =~= before + seq![(id@, ("to"@, c.hash@))]);
        } else {
            assert(vconn_views(conns@) =~= before + Seq::<(Seq<char>, (Seq<char>, Seq<char>))>::empty());
        }
        i = i + 1;
    }
    assert(cs.take(cs.len() as int) =~= cs);
    Ok(Vitals {
        vitals_format: VITALS_FORMAT,
        node: String::from_str(node),
        namespace: desc.namespace.clone(),
        schema: desc.schema.clone(),
        schema_version: desc.version.clone(),
        connections: conns,
        runtime: VitalsRuntime {
            lang: info.lang,
            sahou: info.sahou,
            zenoh: info.zenoh,
            transport: info.transport,
        },
        uptime_secs: info.uptime_secs,
        handshake: info.handshake,
    })
}

// ---------------------------------------------------------------- reading

pub open spec fn unreadable(path: Seq<char>, msg: Seq<char>) -> DiagView {
    dv("vitals_unreadable"@, path, msg)
}

pub open spec fn unsupported(msg: Seq<char>) -> DiagView {
    dv("vitals_format_unsupported"@, "$.vitals_format"@, msg)
}

/// The format gate: an unreadable text, a record without a format stamp, or one of a format
/// this reader does not read is a diagnostic; an unknown newer format says to upgrade.
pub open spec fn vitals_gate(parsed: Result<Json, Seq<char>>) -> Option<DiagView> {
    match parsed {
        Err(e) => Some(unreadable("$"@, "not valid JSON: "@ + e)),
        Ok(v) => {
            let f = match v {
                Json::Object(es) => obj_get(es@, "vitals_format"@),
                _ => None,
            };
            match f {
                None => Some(unreadable("$.vitals_format"@, "missing vitals_format (not a vitals payload)"@)),
                Some(fv) => match fv {
                    Json::Number(n) if n.uint is Some => {
                        let k = n.uint->0;
                        if k == 1 {
                            None
                        } else if k > 1 {
                            Some(unsupported(
                                "vitals format "@ + decimal(k as nat)
                                    + " is newer than this sahou understands (supported: 1); upgrade sahou to read it"@,
                            ))
                        } else {
                            Some(unsupported("unsupported vitals format "@ + decimal(k as nat) + " (this sahou reads format 1)"@))
                        }
                    },
                    _ => Some(unreadable(
                        "$.vitals_format"@,
                        "vitals_format must be an unsigned integer (got "@ + json_text(fv) + ")"@,
                    )),
                },
            }
        },
    }
}

pub open spec fn result_view(p: Result<Json, String>) -> Result<Json, Seq<char>> {
    match p {
        Ok(v) => Ok(v),
        Err(e) => Err(e@),
    }
}

/// Reads a vitals record: `parsed` is the text read as JSON (or why it is not JSON) and
/// `decoded` the same text read as a record (or why it is not one). The format gate comes
/// first; a record of the right format that does not decode is unreadable.
pub fn parse_vitals(parsed: Result<Json, String>, decoded: Result<Vitals, String>) -> (r: Result<Vitals, Vec<Diag>>)
    ensures
        match vitals_gate(result_view(parsed)) {
            Some(d) => r is Err && diag_views(r->Err_0@) == seq![d],
            None => match decoded {
                Ok(v) => r == Ok::<Vitals, Vec<Diag>>(v),
                Err(e) => r is Err && diag_views(r->Err_0@) == seq![unreadable("$"@, "cannot parse vitals: "@ + e@)],
            },
        },
{
    let v = match parsed {
        Err(e) => {
            return Err(one(Diag::new("vitals_unreadable", String::from_str("$"), cat("not valid JSON: ", e.as_str()))));
        },
        Ok(v) => v,
    };
    let f = match &v {
        Json::Object(es) => {
            proof {
                crate::model::lemma_find_key(es@, "vitals_format"@);
            }
            match lookup(es, "vitals_format") {
                Some(k) => Some(&es[k].1),
                None => None,
            }
        },
        _ => None,
    };
    match f {
        None => {
            return Err(one(Diag::new(
                "vitals_unreadable",
                String::from_str("$.vitals_format"),
                String::from_str("missing vitals_format (not a vitals payload)"),
            )));
        },
        Some(fv) => {
            let k = match fv {
                Json::Number(n) => n.uint,
                _ => None,
            };
            match k {
                Some(k) => {
                    if k > 1 {
                        let mut m = cat("vitals format ", decimal_string(k).as_str());
                        m.append(" is newer than this sahou understands (supported: 1); upgrade sahou to read it");
                        return Err(one(Diag::new("vitals_format_unsupported", String::from_str("$.vitals_format"), m)));
                    } else if k < 1 {
                        let mut m = cat("unsupported vitals format ", decimal_string(k).as_str());
                        m.append(" (this sahou reads format 1)");
                        return Err(one(Diag::new("vitals_format_unsupported", String::from_str("$.vitals_format"), m)));
                    }
                },
                None => {
                    let mut m = cat("vitals_format must be an unsigned integer (got ", json_string(fv).as_str());
                    m.append(")");
                    return Err(one(Diag::new("vitals_unreadable", String::from_str("$.vitals_format"), m)));
                },
            }
        },
    }
    match decoded {
        Ok(rec) => Ok(rec),
        Err(e) => Err(one(Diag::new("vitals_unreadable", String::from_str("$"), cat("cannot parse vitals: ", e.as_str())))),
    }
}

} // verus!
