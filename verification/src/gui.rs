//! The decisions of the local editor's HTTP layer: which requests it refuses (DNS rebinding and
//! cross-origin writes), how a request is routed, which content type an asset is served with,
//! what a missing asset or a failed start answers, and the compare-and-swap gate of a write.
//! The server loop, the files on disk and the push stream stay with the caller.
use vstd::prelude::*;

use crate::diag::{diag_views, dv, Diag, DiagView};
use crate::files::FileKind;
use crate::strs::{chars_of, debug_quoted, debug_str, decimal, push_decimal, starts_with_exec, string_eq, string_of};

verus! {

// ---------------------------------------------------------------- refusals

/// `127.0.0.1:<port>`: the only address the editor binds to.
pub open spec fn bind_addr(port: u16) -> Seq<char> {
    "127.0.0.1:"@ + decimal(port as nat)
}

pub open spec fn localhost_addr(port: u16) -> Seq<char> {
    "localhost:"@ + decimal(port as nat)
}

/// How `{:?}` renders an optional header value.
pub open spec fn debug_opt(h: Option<Seq<char>>) -> Seq<char> {
    match h {
        Some(v) => "Some("@ + debug_quoted(v) + ")"@,
        None => "None"@,
    }
}

pub open spec fn opt_view(h: Option<&str>) -> Option<Seq<char>> {
    match h {
        Some(v) => Some(v@),
        None => None,
    }
}

/// Why a request is refused, if it is: a Host header other than the bound address (by IP or as
/// `localhost`) is DNS rebinding; a write whose Origin header names another origin is a
/// cross-origin write. A write with no Origin, or with this server's own, passes.
pub open spec fn refusal(port: u16, host: Option<Seq<char>>, is_put: bool, origin: Option<Seq<char>>) -> Option<Seq<char>> {
    let host_ok = match host {
        Some(h) => h == bind_addr(port) || h == localhost_addr(port),
        None => false,
    };
    if !host_ok {
        Some(
            "invalid Host header (rejected by DNS rebinding protection): expected "@ + bind_addr(port) + " but got "@
                + debug_opt(host),
        )
    } else {
        match origin {
            Some(o) => if is_put && o != "http://"@ + bind_addr(port) && o != "http://"@ + localhost_addr(port) {
                Some(
                    "the PUT request's Origin does not match this local server (suspected cross-origin; rejected): got "@
                        + debug_quoted(o),
                )
            } else {
                None
            },
            None => None,
        }
    }
}

fn addr_text(prefix: &str, port: u16) -> (r: String)
    ensures
        r@ == prefix@ + decimal(port as nat),
{
    let mut s = String::from_str(prefix);
    push_decimal(&mut s, port as u64);
    s
}

/// The refusal message for a request with these headers, or `None` when it may proceed.
pub fn reject_cross_origin(port: u16, host: Option<&str>, is_put: bool, origin: Option<&str>) -> (r: Option<String>)
    ensures
        match r {
            Some(m) => refusal(port, opt_view(host), is_put, opt_view(origin)) == Some(m@),
            None => refusal(port, opt_view(host), is_put, opt_view(origin)) is None,
        },
{
    let expected_ip = addr_text("127.0.0.1:", port);
    let expected_localhost = addr_text("localhost:", port);
    let host_ok = match host {
        Some(h) => string_eq(h, expected_ip.as_str()) || string_eq(h, expected_localhost.as_str()),
        None => false,
    };
    if !host_ok {
        let mut m = String::from_str("invalid Host header (rejected by DNS rebinding protection): expected ");
        m.append(expected_ip.as_str());
        m.append(" but got ");
        match host {
            Some(h) => {
                m.append("Some(");
                let q = debug_str(h);
                m.append(q.as_str());
                m.append(")");
            },
            None => {
                m.append("None");
            },
        }
        return Some(m);
    }
    if is_put {
        if let Some(o) = origin {
            let mut ip_origin = String::from_str("http://");
            ip_origin.append(expected_ip.as_str());
            let mut local_origin = String::from_str("http://");
            local_origin.append(expected_localhost.as_str());
            if !string_eq(o, ip_origin.as_str()) && !string_eq(o, local_origin.as_str()) {
                let mut m = String::from_str(
                    "the PUT request's Origin does not match this local server (suspected cross-origin; rejected): got ",
                );
                let q = debug_str(o);
                m.append(q.as_str());
                return Some(m);
            }
        }
    }
    None
}

// ---------------------------------------------------------------- routing

/// The request methods the editor tells apart.
#[derive(Debug, Clone, Copy, PartialEq, Eq)]
pub enum Method {
    Get,
    Put,
    Other,
}

/// Where a request goes.
#[derive(Debug, Clone, Copy, PartialEq, Eq)]
pub enum Route {
    /// GET /api/files: the three files with their etags
    Files,
    /// GET /api/watch: the change stream
    Watch,
    /// PUT /api/files/<kind>: a compare-and-swap write
    PutFile,
    /// any other GET: a bundled asset
    Asset,
    /// anything else
    NotAllowed,
}

pub open spec fn files_prefix() -> Seq<char> {
    "/api/files/"@
}

pub open spec fn route_of(m: Method, url: Seq<char>) -> Route {
    match m {
        Method::Get => if url == "/api/files"@ {
            Route::Files
        } else if url == "/api/watch"@ {
            Route::Watch
        } else {
            Route::Asset
        },
        Method::Put => if files_prefix().is_prefix_of(url) {
            Route::PutFile
        } else {
            Route::NotAllowed
        },
        Method::Other => Route::NotAllowed,
    }
}

pub fn route(m: Method, url: &str) -> (r: Route)
    ensures
        r == route_of(m, url@),
{
    match m {
        Method::Get => {
            if string_eq(url, "/api/files") {
                Route::Files
            } else if string_eq(url, "/api/watch") {
                Route::Watch
            } else {
                Route::Asset
            }
        },
        Method::Put => {
            let u = chars_of(url);
            let p = chars_of("/api/files/");
            if starts_with_exec(u.as_slice(), p.as_slice()) {
                Route::PutFile
            } else {
                Route::NotAllowed
            }
        },
        Method::Other => Route::NotAllowed,
    }
}

/// `s` with every leading repetition of `p` removed (`str::trim_start_matches`).
pub open spec fn trim_prefix_all(s: Seq<char>, p: Seq<char>) -> Seq<char>
    decreases s.len(),
{
    if p.len() > 0 && p.is_prefix_of(s) {
        trim_prefix_all(s.skip(p.len() as int), p)
    } else {
        s
    }
}

fn trim_prefix_all_exec(s: &[char], p: &[char]) -> (r: Vec<char>)
    ensures
        r@ == trim_prefix_all(s@, p@),
{
    let mut start: usize = 0;
    if p.len() > 0 {
        assert(s@.skip(0) =~= s@);
        loop
            invariant
                p@.len() > 0,
                start <= s@.len(),
                trim_prefix_all(s@, p@) == trim_prefix_all(s@.skip(start as int), p@),
            ensures
                start <= s@.len(),
                trim_prefix_all(s@, p@) == s@.skip(start as int),
            decreases s@.len() - start,
        {
            let rest = Ghost(s@.skip(start as int));
            if p.len() > s.len() - start {
                assert(!p@.is_prefix_of(rest@));
                break;
            }
            if !crate::strs::occurs_at_exec(s, p, start) {
                proof {
                    if p@.is_prefix_of(rest@) {
                        assert(s@.subrange(start as int, start + p@.len()) =~= p@);
                    }
                }
                break;
            }
            proof {
                assert forall|k: int| 0 <= k < p@.len() implies p@[k] == rest@[k] by {
                    assert(s@.subrange(start as int, start + p@.len())[k] == s@[start + k]);
                }
                assert(p@.is_prefix_of(rest@));
                assert(rest@.skip(p@.len() as int) =~= s@.skip(start + p@.len()));
            }
            start = start + p.len();
        }
    } else {
        assert(s@.skip(0) =~= s@);
    }
    let mut out: Vec<char> = Vec::new();
    let mut k: usize = start;
    while k < s.len()
        invariant
            start <= k <= s@.len(),
            out@ == s@.subrange(start as int, k as int),
        decreases s@.len() - k,
    {
        out.push(s[k]);
        k = k + 1;
        assert(out@ =~= s@.subrange(start as int, k as int));
    }
    assert(out@ =~= s@.skip(start as int));
    out
}

/// The kind a write targets: the URL with the `/api/files/` prefix trimmed, as a kind name.
pub open spec fn put_kind_of(url: Seq<char>) -> Option<FileKind> {
    let rest = trim_prefix_all(url, files_prefix());
    if rest == "schema"@ {
        Some(FileKind::Schema)
    } else if rest == "layout"@ {
        Some(FileKind::Layout)
    } else if rest == "endpoints"@ {
        Some(FileKind::Endpoints)
    } else {
        None
    }
}

pub fn put_kind(url: &str) -> (r: Option<FileKind>)
    ensures
        r == put_kind_of(url@),
{
    let u = chars_of(url);
    let p = chars_of("/api/files/");
    let rest = string_of(trim_prefix_all_exec(u.as_slice(), p.as_slice()).as_slice());
    let r = FileKind::parse(rest.as_str());
    proof {
        if let Some(k) = r {
            crate::files::kind_name_injective(k, FileKind::Schema);
            crate::files::kind_name_injective(k, FileKind::Layout);
            crate::files::kind_name_injective(k, FileKind::Endpoints);
        }
    }
    r
}

// ---------------------------------------------------------------- assets

/// `s` with its leading `/` characters removed.
pub open spec fn trim_slashes(s: Seq<char>) -> Seq<char>
    decreases s.len(),
{
    if s.len() > 0 && s[0] == '/' {
        trim_slashes(s.skip(1))
    } else {
        s
    }
}

/// The asset a GET names: the path without its leading slashes, `index.html` for the root.
pub open spec fn asset_rel_of(url: Seq<char>) -> Seq<char> {
    let rel = trim_slashes(url);
    if rel.len() == 0 {
        "index.html"@
    } else {
        rel
    }
}

pub fn asset_rel(url: &str) -> (r: String)
    ensures
        r@ == asset_rel_of(url@),
{
    let u = chars_of(url);
    let slash: Vec<char> = vec!['/'];
    let rel = trim_prefix_all_exec(u.as_slice(), slash.as_slice());
    proof {
        lemma_trim_slashes(u@);
    }
    if rel.len() == 0 {
        String::from_str("index.html")
    } else {
        string_of(rel.as_slice())
    }
}

proof fn lemma_trim_slashes(s: Seq<char>)
    ensures
        trim_prefix_all(s, seq!['/']) == trim_slashes(s),
    decreases s.len(),
{
    if s.len() > 0 && s[0] == '/' {
        assert(seq!['/'].is_prefix_of(s));
        lemma_trim_slashes(s.skip(1));
    } else {
        if seq!['/'].is_prefix_of(s) {
            assert(s[0] == seq!['/'][0]);
        }
    }
}

/// The text after the last `.` of a path, or the whole path when it has none
/// (`path.rsplit('.').next()`).
pub open spec fn extension(p: Seq<char>) -> Seq<char>
    decreases p.len(),
{
    if p.len() == 0 {
        p
    } else if p.last() == '.' {
        seq![]
    } else {
        extension(p.drop_last()).push(p.last())
    }
}

pub open spec fn mime_for(ext: Seq<char>) -> Seq<char> {
    if ext == "html"@ {
        "text/html; charset=utf-8"@
    } else if ext == "js"@ || ext == "mjs"@ {
        "text/javascript"@
    } else if ext == "css"@ {
        "text/css"@
    } else if ext == "wasm"@ {
        "application/wasm"@
    } else if ext == "svg"@ {
        "image/svg+xml"@
    } else if ext == "json"@ || ext == "map"@ {
        "application/json"@
    } else if ext == "ico"@ {
        "image/x-icon"@
    } else {
        "application/octet-stream"@
    }
}

fn extension_exec(p: &[char]) -> (r: Vec<char>)
    ensures
        r@ == extension(p@),
{
    let mut i: usize = p.len();
    assert(p@.take(p@.len() as int) =~= p@);
    assert(p@.subrange(p@.len() as int, p@.len() as int) =~= Seq::<char>::empty());
    assert(p@ + Seq::<char>::empty() =~= p@);
    while i > 0 && p[i - 1] != '.'
        invariant
            i <= p@.len(),
            extension(p@) == extension(p@.take(i as int)) + p@.subrange(i as int, p@.len() as int),
        decreases i,
    {
        proof {
            let t = p@.take(i as int);
            assert(t.drop_last() =~= p@.take(i - 1));
            assert(t.last() == p@[i - 1]);
            assert(p@.subrange(i - 1, p@.len() as int) =~= seq![p@[i - 1]] + p@.subrange(i as int, p@.len() as int));
            assert(extension(t) == extension(p@.take(i - 1)).push(p@[i - 1]));
            assert(extension(p@.take(i - 1)).push(p@[i - 1]) + p@.subrange(i as int, p@.len() as int)
                =~= extension(p@.take(i - 1)) + p@.subrange(i - 1, p@.len() as int));
        }
        i = i - 1;
    }
    proof {
        if i > 0 {
            let t = p@.take(i as int);
            assert(t.last() == p@[i - 1]);
            assert(extension(t) =~= Seq::<char>::empty());
        } else {
            assert(p@.take(0) =~= Seq::<char>::empty());
        }
        assert(extension(p@.take(i as int)) + p@.subrange(i as int, p@.len() as int) =~= p@.subrange(
            i as int,
            p@.len() as int,
        ));
    }
    let mut out: Vec<char> = Vec::new();
    let mut k: usize = i;
    while k < p.len()
        invariant
            i <= k <= p@.len(),
            out@ == p@.subrange(i as int, k as int),
        decreases p@.len() - k,
    {
        out.push(p[k]);
        k = k + 1;
        assert(out@ =~= p@.subrange(i as int, k as int));
    }
    out
}

/// The content type an asset is served with, by its extension.
pub fn mime_of(path: &str) -> (r: &'static str)
    ensures
        r@ == mime_for(extension(path@)),
{
    let p = chars_of(path);
    let e = string_of(extension_exec(p.as_slice()).as_slice());
    let ext = e.as_str();
    if string_eq(ext, "html") {
        "text/html; charset=utf-8"
    } else if string_eq(ext, "js") || string_eq(ext, "mjs") {
        "text/javascript"
    } else if string_eq(ext, "css") {
        "text/css"
    } else if string_eq(ext, "wasm") {
        "application/wasm"
    } else if string_eq(ext, "svg") {
        "image/svg+xml"
    } else if string_eq(ext, "json") || string_eq(ext, "map") {
        "application/json"
    } else if string_eq(ext, "ico") {
        "image/x-icon"
    } else {
        "application/octet-stream"
    }
}

/// What a GET for an asset that is not bundled answers: the page itself explains how to build
/// the assets (no silent blank page); anything else is not found.
pub open spec fn missing_asset_of(rel: Seq<char>) -> (u16, Seq<char>) {
    if rel == "index.html"@ {
        (
            503,
            "GUI assets are not bundled. In gui/, run `npm install && npm run build:core && npm run build`, then rebuild with `cargo build -p sahou`"@,
        )
    } else {
        (404, "not found"@)
    }
}

pub fn missing_asset(rel: &str) -> (r: (u16, &'static str))
    ensures
        (r.0, r.1@) == missing_asset_of(rel@),
{
    if string_eq(rel, "index.html") {
        (
            503,
            "GUI assets are not bundled. In gui/, run `npm install && npm run build:core && npm run build`, then rebuild with `cargo build -p sahou`",
        )
    } else {
        (404, "not found")
    }
}

// ---------------------------------------------------------------- start

/// The editor starts only on a directory that has a contract to edit.
pub open spec fn startup_of(schema_exists: bool, schema_path: Seq<char>) -> Option<DiagView> {
    if schema_exists {
        None
    } else {
        Some(
            dv(
                "gui_no_schema"@,
                schema_path,
                "no schema.sahou.yaml (nothing to edit). Launch in the target directory, or specify PATH"@,
            ),
        )
    }
}

pub fn startup_gate(schema_exists: bool, schema_path: &str) -> (r: Result<(), Vec<Diag>>)
    ensures
        match startup_of(schema_exists, schema_path@) {
            None => r is Ok,
            Some(d) => r is Err && diag_views(r->Err_0@) == seq![d],
        },
{
    if schema_exists {
        return Ok(());
    }
    let d = Diag::new(
        "gui_no_schema",
        String::from_str(schema_path),
        String::from_str("no schema.sahou.yaml (nothing to edit). Launch in the target directory, or specify PATH"),
    );
    let mut v: Vec<Diag> = Vec::new();
    v.push(d);
    assert(diag_views(v@) =~= seq![startup_of(schema_exists, schema_path@)->0]);
    Err(v)
}

/// A port that cannot be bound is refused, never replaced by another one.
pub open spec fn bind_error_of(port: u16, err: Seq<char>) -> DiagView {
    dv(
        "gui_port_in_use"@,
        bind_addr(port),
        "cannot bind (port occupied?): "@ + err
            + ". Specify another port with --port (it will not change automatically)"@,
    )
}

pub fn bind_error(port: u16, err: &str) -> (r: Vec<Diag>)
    ensures
        diag_views(r@) == seq![bind_error_of(port, err@)],
{
    let mut m = String::from_str("cannot bind (port occupied?): ");
    m.append(err);
    m.append(". Specify another port with --port (it will not change automatically)");
    let mut v: Vec<Diag> = Vec::new();
    v.push(Diag::new("gui_port_in_use", addr_text("127.0.0.1:", port), m));
    assert(diag_views(v@) =~= seq![bind_error_of(port, err@)]);
    v
}

// ---------------------------------------------------------------- compare-and-swap writes

/// A file's version tag: its modification time (seconds and nanoseconds) and its length.
pub open spec fn etag_of(secs: u64, nanos: u32, len: u64) -> Seq<char> {
    decimal(secs as nat) + "."@ + decimal(nanos as nat) + "-"@ + decimal(len as nat)
}

pub fn etag_text(secs: u64, nanos: u32, len: u64) -> (r: String)
    ensures
        r@ == etag_of(secs, nanos, len),
{
    let mut s = String::new();
    push_decimal(&mut s, secs);
    s.append(".");
    push_decimal(&mut s, nanos as u64);
    s.append("-");
    push_decimal(&mut s, len);
    assert(s@ =~= etag_of(secs, nanos, len));
    s
}

/// Why a write was not done.
#[derive(Debug, PartialEq)]
pub enum PutError {
    /// the file's current etag (none: it does not exist) is not the one the writer read
    Conflict { current: Option<String> },
    Io(String),
}

pub open spec fn opt_string_view(o: Option<String>) -> Option<Seq<char>> {
    match o {
        Some(s) => Some(s@),
        None => None,
    }
}

/// The write goes ahead only when the file is still the version the writer read (a missing
/// file matches a writer that read none); otherwise it is a conflict carrying the current etag.
pub fn cas_gate(current: Option<String>, expected: Option<&str>) -> (r: Result<(), PutError>)
    ensures
        (r is Ok) <==> (opt_string_view(current) == opt_view(expected)),
        (r is Err) ==> r->Err_0 == (PutError::Conflict { current }),
{
    let same = match (&current, expected) {
        (Some(c), Some(e)) => string_eq(c.as_str(), e),
        (None, None) => true,
        _ => false,
    };
    if same {
        Ok(())
    } else {
        Err(PutError::Conflict { current })
    }
}

/// The temporary file a write goes through before it is renamed into place.
pub open spec fn temp_name_of(name: Seq<char>) -> Seq<char> {
    "."@ + name + ".sahou-gui.tmp"@
}

pub fn temp_name(name: &str) -> (r: String)
    ensures
        r@ == temp_name_of(name@),
{
    let mut s = String::from_str(".");
    s.append(name);
    s.append(".sahou-gui.tmp");
    s
}

} // verus!
