//! The derived descriptor: each connection with its resolved key and its fingerprint, the
//! one artefact every node shares. The fingerprint is the first 16 hexadecimal digits of the
//! SHA-256 of the connection's canonical JSON encoding, which the caller supplies.
use vstd::prelude::*;

use crate::endpoints::Endpoints;
use crate::model::{Connection, Contract, Descriptor, DescriptorConnection};
use crate::strs::{cat, push_char};
use sha2::Digest;

verus! {

pub open spec fn key_of(namespace: Seq<char>, conn_id: Seq<char>, conn: Connection) -> Seq<char> {
    match conn.key {
        Some(k) => k@,
        None => namespace + seq!['/'] + conn_id,
    }
}

/// A connection's key: its override when it has one, else `<namespace>/<connection id>`.
pub fn resolve_key(namespace: &str, conn_id: &str, conn: &Connection) -> (r: String)
    ensures
        r@ == key_of(namespace@, conn_id@, *conn),
{
    match &conn.key {
        Some(k) => k.clone(),
        None => {
            let mut s = String::from_str(namespace);
            push_char(&mut s, '/');
            s.append(conn_id);
            s
        },
    }
}

/// The SHA-256 digest of `data`.
pub uninterp spec fn sha256_of(data: Seq<u8>) -> Seq<u8>;

/// `sha2::Sha256::digest`: its result is named `sha256_of`; a SHA-256 digest is 32 bytes.
#[verifier::external_body]
fn sha256(data: &[u8]) -> (r: Vec<u8>)
    ensures
        r@ == sha256_of(data@),
        r@.len() == 32,
{
    sha2::Sha256::digest(data).to_vec()
}

pub open spec fn hex_lower(d: u8) -> char {
    if d < 10 {
        (('0' as u8) + d) as char
    } else {
        (('a' as u8) + d - 10) as char
    }
}

/// Lower-case hexadecimal, two digits per byte, high nibble first.
pub open spec fn hex_of(data: Seq<u8>) -> Seq<char>
    decreases data.len(),
{
    if data.len() == 0 {
        seq![]
    } else {
        hex_of(data.drop_last()) + seq![hex_lower(data.last() / 16), hex_lower(data.last() % 16)]
    }
}

/// `hex::encode`: each byte as two lower-case hexadecimal digits, in order.
#[verifier::external_body]
fn hex_encode(data: &[u8]) -> (r: String)
    ensures
        r@ == hex_of(data@),
{
    hex::encode(data)
}

proof fn lemma_hex_len(data: Seq<u8>)
    ensures
        hex_of(data).len() == 2 * data.len(),
    decreases data.len(),
{
    if data.len() > 0 {
        lemma_hex_len(data.drop_last());
    }
}

/// The fingerprint of a connection from its canonical encoding.
pub open spec fn fingerprint(canonical: Seq<u8>) -> Seq<char> {
    hex_of(sha256_of(canonical)).take(16)
}

/// A connection's fingerprint: the first 16 hexadecimal digits of the SHA-256 of its
/// canonical JSON encoding (`canonical`, the encoding of the pair of its id and its contract
/// entry).
pub fn connection_hash(canonical: &[u8]) -> (r: String)
    ensures
        r@ == fingerprint(canonical@),
        r@.len() == 16,
{
    let d = sha256(canonical);
    let h = hex_encode(d.as_slice());
    proof {
        lemma_hex_len(d@);
    }
    let v = crate::strs::chars_of(h.as_str());
    let t = crate::strs::slice_chars(&v, 0, 16);
    assert(t@ =~= h@.take(16));
    crate::strs::string_of(&t)
}

/// The descriptor entry of one contract connection.
pub open spec fn entry_of(namespace: Seq<char>, id: Seq<char>, conn: Connection, hash: Seq<char>, dc: DescriptorConnection) -> bool {
    &&& dc.pattern == conn.pattern
    &&& dc.from == conn.from
    &&& dc.to == conn.to
    &&& dc.key@ == key_of(namespace, id, conn)
    &&& dc.hash@ == hash
    &&& dc.selector == conn.selector
    &&& dc.reliability == conn.reliability
    &&& dc.congestion == conn.congestion
    &&& dc.priority == conn.priority
    &&& dc.express == conn.express
    &&& dc.encoding == conn.encoding
    &&& dc.validate == conn.validate
    &&& dc.payload == conn.payload
    &&& dc.request == conn.request
    &&& dc.response == conn.response
}

/// Derives the descriptor: the contract's schema, version and nodes, the deployment's
/// namespace, and each connection (in order) with its resolved key and its fingerprint
/// (`canonical[i]` is the canonical encoding of connection `i`).
pub fn build_descriptor(c: Contract, e: &Endpoints, canonical: &Vec<Vec<u8>>) -> (d: Descriptor)
    requires
        canonical@.len() == c.connections@.len(),
    ensures
        d.schema == c.schema,
        d.version == c.version,
        d.namespace@ == e.namespace@,
        d.nodes == c.nodes,
        d.connections@.len() == c.connections@.len(),
        forall|i: int| 0 <= i < d.connections@.len() ==> (#[trigger] d.connections@[i]).0 == c.connections@[i].0
            && entry_of(e.namespace@, c.connections@[i].0@, c.connections@[i].1, fingerprint(canonical@[i]@), d.connections@[i].1),
        crate::model::contract_wf(c) ==> crate::model::descriptor_wf(d),
{
    let ghost orig = c.connections@;
    let Contract { schema, version, nodes, connections } = c;
    let mut rest = connections;
    let total = rest.len();
    let mut out: Vec<(String, DescriptorConnection)> = Vec::new();
    let mut i: usize = 0;
    assert(orig.skip(0) =~= orig);
    while rest.len() > 0
        invariant
            rest@ == orig.skip(i as int),
            i <= orig.len(),
            total == orig.len(),
            canonical@.len() == orig.len(),
            out@.len() == i,
            forall|k: int| 0 <= k < i ==> (#[trigger] out@[k]).0 == orig[k].0
                && entry_of(e.namespace@, orig[k].0@, orig[k].1, fingerprint(canonical@[k]@), out@[k].1),
        decreases rest@.len(),
    {
        let (id, conn) = rest.remove(0);
        assert(orig[i as int] == (id, conn));
        let key = resolve_key(e.namespace.as_str(), id.as_str(), &conn);
        let hash = connection_hash(canonical[i].as_slice());
        let Connection {
            pattern,
            from,
            to,
            key: _,
            selector,
            reliability,
            congestion,
            priority,
            express,
            encoding,
            validate,
            payload,
            request,
            response,
        } = conn;
        let dc = DescriptorConnection {
            pattern,
            from,
            to,
            key,
            hash,
            selector,
            reliability,
            congestion,
            priority,
            express,
            encoding,
            validate,
            payload,
            request,
            response,
        };
        let ghost before = out@;
        out.push((id, dc));
        assert forall|k: int| 0 <= k < i + 1 implies (#[trigger] out@[k]).0 == orig[k].0
            && entry_of(e.namespace@, orig[k].0@, orig[k].1, fingerprint(canonical@[k]@), out@[k].1) by {
            if k < i {
                assert(out@[k] == before[k]);
            }
        }
        assert(rest@ =~= orig.skip(i + 1));
        i = i + 1;
    }
    Descriptor { schema, version, namespace: e.namespace.clone(), nodes, connections: out }
}

} // verus!
