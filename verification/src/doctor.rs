//! Environment preflight judgement: classifying captured transport logs and assembling a
//! healthy summary or a structured failure (cause, cheapest-first fix, captured line).
use vstd::prelude::*;

use crate::diag::{diag_views, dv, Diag, DiagView};

use crate::strs::{
    cat, char_is_whitespace, chars_of, contains, decimal, first_line_with, first_with, lines, str_contains,
    copy_string, string_eq, string_of, trim, trim_exec, views, push_decimal,
};
use crate::style::{
    glyph_spec, labeled_block, labeled_rows, paint, painted, Status, Tone,
};

verus! {

/// Classification of scout egress.
#[derive(Debug, PartialEq)]
pub enum Egress {
    /// no error was logged
    Clear,
    /// LAN egress was rejected (suspected OS permission / unsigned binary)
    PermissionBlocked(String),
    /// configuration error such as the specified NIC not being found
    NicError(String),
    /// other transport error (keeps the causing line)
    OtherError(String),
}

pub enum EgressView {
    Clear,
    PermissionBlocked(Seq<char>),
    NicError(Seq<char>),
    OtherError(Seq<char>),
}

impl View for Egress {
    type V = EgressView;

    open spec fn view(&self) -> EgressView {
        match self {
            Egress::Clear => EgressView::Clear,
            Egress::PermissionBlocked(s) => EgressView::PermissionBlocked(s@),
            Egress::NicError(s) => EgressView::NicError(s@),
            Egress::OtherError(s) => EgressView::OtherError(s@),
        }
    }
}

/// The first line of `log` holding `needle`, trimmed (empty when none holds it).
pub open spec fn err_line(log: Seq<char>, needle: Seq<char>) -> Seq<char> {
    trim(first_with(lines(log), needle))
}

/// The signatures of blocked LAN egress, in the order they are tried.
pub open spec fn blocked_signature(i: int) -> Seq<char> {
    if i == 0 {
        "No route to host"@
    } else if i == 1 {
        "os error 65"@
    } else if i == 2 {
        "EHOSTUNREACH"@
    } else {
        "Unable to send Scout"@
    }
}

/// What a captured log says about scout egress: the first blocked-egress signature present
/// decides a permission block; else a missing interface is a NIC error; else any `ERROR`
/// line is another error; else egress is clear.
pub open spec fn egress_of(log: Seq<char>) -> EgressView {
    if contains(log, blocked_signature(0)) {
        EgressView::PermissionBlocked(err_line(log, blocked_signature(0)))
    } else if contains(log, blocked_signature(1)) {
        EgressView::PermissionBlocked(err_line(log, blocked_signature(1)))
    } else if contains(log, blocked_signature(2)) {
        EgressView::PermissionBlocked(err_line(log, blocked_signature(2)))
    } else if contains(log, blocked_signature(3)) {
        EgressView::PermissionBlocked(err_line(log, blocked_signature(3)))
    } else if contains(log, "Unable to find interface"@) {
        EgressView::NicError(err_line(log, "Unable to find interface"@))
    } else if contains(log, "ERROR"@) {
        EgressView::OtherError(err_line(log, "ERROR"@))
    } else {
        EgressView::Clear
    }
}

fn err_line_exec(log: &str, needle: &str) -> (r: String)
    ensures
        r@ == err_line(log@, needle@),
{
    let l = first_line_with(log, needle);
    let t = trim_exec(&l);
    string_of(&t)
}

/// Classify captured transport WARN/ERROR logs.
pub fn classify_egress(log: &str) -> (r: Egress)
    ensures
        r@ == egress_of(log@),
{
    let sigs = ["No route to host", "os error 65", "EHOSTUNREACH", "Unable to send Scout"];
    let mut i: usize = 0;
    while i < 4
        invariant
            i <= 4,
            sigs@ == seq![
                "No route to host",
                "os error 65",
                "EHOSTUNREACH",
                "Unable to send Scout",
            ],
            forall|k: int| 0 <= k < i ==> !contains(log@, #[trigger] blocked_signature(k)),
        decreases 4 - i,
    {
        let sig = sigs[i];
        assert(sig@ == blocked_signature(i as int));
        if str_contains(log, sig) {
            return Egress::PermissionBlocked(err_line_exec(log, sig));
        }
        i = i + 1;
    }
    assert(!contains(log@, blocked_signature(0)));
    assert(!contains(log@, blocked_signature(1)));
    assert(!contains(log@, blocked_signature(2)));
    assert(!contains(log@, blocked_signature(3)));
    if str_contains(log, "Unable to find interface") {
        return Egress::NicError(err_line_exec(log, "Unable to find interface"));
    }
    if str_contains(log, "ERROR") {
        return Egress::OtherError(err_line_exec(log, "ERROR"));
    }
    Egress::Clear
}

/// Bundle of probe results.
pub struct ProbeReport {
    pub loopback: bool,
    /// None = skipped because the default gateway is unknown
    pub ping: Option<bool>,
    pub egress: Egress,
    pub peers: usize,
    pub link_ws: bool,
    /// the operating system name (`std::env::consts::OS`)
    pub os: String,
    pub iface_desc: String,
}

/// The healthy summary.
#[derive(Debug)]
pub struct Healthy {
    pub title: String,
    pub detail: String,
}

/// A structured failure report: verdict, title, then cause / fix / captured blocks.
#[derive(Debug)]
pub struct Failure {
    pub code: String,
    pub path: String,
    pub verdict: String,
    pub title: String,
    pub cause: Vec<String>,
    pub fix: Vec<String>,
    pub captured: Option<String>,
}

/// Remedy steps per operating system, cheapest first.
pub open spec fn fix_steps_of(os: Seq<char>) -> Seq<Seq<char>> {
    if os == "macos"@ {
        seq![
            "allow it in System Settings › Privacy & Security › Local Network"@,
            "launch from Terminal (an authorized context) rather than ssh/headless"@,
            "use a distribution signed with a Developer ID + the multicast entitlement"@,
        ]
    } else if os == "windows"@ {
        seq![
            "allow sahou.exe inbound/outbound (UDP 7446 multicast / TCP 7447) in Windows Defender Firewall"@,
        ]
    } else {
        seq!["check the firewall (UDP 7446 multicast / TCP 7447) and NIC settings"@]
    }
}

/// Remedy steps ordered cheapest-first (settings toggle before launch context before code signing).
pub fn fix_steps(os: &str) -> (r: Vec<String>)
    ensures
        views(r@) == fix_steps_of(os@),
{
    let mut v: Vec<String> = Vec::new();
    if string_eq(os, "macos") {
        v.push(String::from_str("allow it in System Settings › Privacy & Security › Local Network"));
        v.push(String::from_str("launch from Terminal (an authorized context) rather than ssh/headless"));
        v.push(String::from_str("use a distribution signed with a Developer ID + the multicast entitlement"));
    } else if string_eq(os, "windows") {
        v.push(String::from_str("allow sahou.exe inbound/outbound (UDP 7446 multicast / TCP 7447) in Windows Defender Firewall"));
    } else {
        v.push(String::from_str("check the firewall (UDP 7446 multicast / TCP 7447) and NIC settings"));
    }
    assert(views(v@) =~= fix_steps_of(os@));
    v
}

/// The causes reported for a blocked egress: the ping triangulation (when ping worked), then
/// the most likely OS-specific reason.
pub open spec fn blocked_causes(ping: Option<bool>, os: Seq<char>) -> Seq<Seq<char>> {
    let likely = if os == "macos"@ {
        "most likely: no macOS \"Local Network\" permission (TCC), or an unsigned binary"@
    } else if os == "windows"@ {
        "most likely: Windows Defender Firewall is blocking this binary"@
    } else {
        "most likely: a firewall or NIC configuration is blocking multicast"@
    };
    if ping == Some(true) {
        seq![
            "ping works = the network is healthy, yet only this binary cannot send on the LAN"@,
            likely,
        ]
    } else {
        seq![likely]
    }
}

pub open spec fn healthy_detail(peers: nat, link_ws: bool) -> Seq<char> {
    "scout egress OK · peers discovered: "@ + decimal(peers) + " · link WS "@ + (if link_ws {
        "running"@
    } else {
        "not started (the engine spawns it)"@
    })
}

/// The fields of a failure, as plain values.
pub struct FailureView {
    pub code: Seq<char>,
    pub path: Seq<char>,
    pub verdict: Seq<char>,
    pub title: Seq<char>,
    pub cause: Seq<Seq<char>>,
    pub fix: Seq<Seq<char>>,
    pub captured: Option<Seq<char>>,
}

impl View for Failure {
    type V = FailureView;

    open spec fn view(&self) -> FailureView {
        FailureView {
            code: self.code@,
            path: self.path@,
            verdict: self.verdict@,
            title: self.title@,
            cause: views(self.cause@),
            fix: views(self.fix@),
            captured: match self.captured {
                Some(c) => Some(c@),
                None => None,
            },
        }
    }
}

/// The diagnosis of a probe report: a broken loopback is terminal; otherwise the egress
/// classification decides.
pub open spec fn diagnosis(
    loopback: bool,
    ping: Option<bool>,
    egress: EgressView,
    peers: nat,
    link_ws: bool,
    os: Seq<char>,
    iface_desc: Seq<char>,
) -> Result<(Seq<char>, Seq<char>), FailureView> {
    if !loopback {
        Err(
            FailureView {
                code: "doctor_loopback"@,
                path: "probes.loopback"@,
                verdict: "broken"@,
                title: "loopback UDP does not work (socket layer is broken; unexpected)"@,
                cause: seq!["the most basic local send/recv failed before any LAN probing"@],
                fix: seq!["check the network stack / security software"@],
                captured: None,
            },
        )
    } else {
        match egress {
            EgressView::Clear => Ok(
                (
                    "healthy — this binary can speak zenoh over the LAN"@,
                    healthy_detail(peers, link_ws),
                ),
            ),
            EgressView::PermissionBlocked(line) => Err(
                FailureView {
                    code: "doctor_permission_blocked"@,
                    path: "probes.egress"@,
                    verdict: "blocked"@,
                    title: "this binary cannot send a zenoh scout to the LAN"@,
                    cause: blocked_causes(ping, os),
                    fix: fix_steps_of(os),
                    captured: Some(line),
                },
            ),
            EgressView::NicError(line) => Err(
                FailureView {
                    code: "doctor_nic_error"@,
                    path: "probes.egress"@,
                    verdict: "misconfigured"@,
                    title: "the specified NIC ("@ + iface_desc
                        + ") cannot be used (the scout interface was not found)"@,
                    cause: seq![],
                    fix: seq!["point --iface at a real LAN NIC"@],
                    captured: Some(line),
                },
            ),
            EgressView::OtherError(line) => Err(
                FailureView {
                    code: "doctor_egress_error"@,
                    path: "probes.egress"@,
                    verdict: "error"@,
                    title: "error during zenoh scout egress"@,
                    cause: if ping == Some(false) {
                        seq![
                            "ping to the gateway also failed = suspected network/NIC-level outage"@,
                        ]
                    } else {
                        seq![]
                    },
                    fix: seq!["check the captured line below"@],
                    captured: Some(line),
                },
            ),
        }
    }
}

pub open spec fn diagnose_matches(r: ProbeReport, res: Result<Healthy, Failure>) -> bool {
    let d = diagnosis(
        r.loopback,
        r.ping,
        r.egress@,
        r.peers as nat,
        r.link_ws,
        r.os@,
        r.iface_desc@,
    );
    match res {
        Ok(h) => d matches Ok(v) && h.title@ == v.0 && h.detail@ == v.1,
        Err(f) => d matches Err(v) && f@ == v,
    }
}

fn one(s: &str) -> (r: Vec<String>)
    ensures
        views(r@) == seq![s@],
{
    let mut v: Vec<String> = Vec::new();
    v.push(String::from_str(s));
    assert(views(v@) =~= seq![s@]);
    v
}

/// Assemble the diagnosis: Ok(healthy summary) / Err(structured failure).
pub fn diagnose(r: &ProbeReport) -> (res: Result<Healthy, Failure>)
    ensures
        diagnose_matches(*r, res),
{
    if !r.loopback {
        return Err(
            Failure {
                code: String::from_str("doctor_loopback"),
                path: String::from_str("probes.loopback"),
                verdict: String::from_str("broken"),
                title: String::from_str(
                    "loopback UDP does not work (socket layer is broken; unexpected)",
                ),
                cause: one("the most basic local send/recv failed before any LAN probing"),
                fix: one("check the network stack / security software"),
                captured: None,
            },
        );
    }
    match &r.egress {
        Egress::Clear => {
            let mut detail = String::from_str("scout egress OK · peers discovered: ");
            push_decimal(&mut detail, r.peers as u64);
            detail.append(" · link WS ");
            if r.link_ws {
                detail.append("running");
            } else {
                detail.append("not started (the engine spawns it)");
            }
            Ok(
                Healthy {
                    title: String::from_str("healthy — this binary can speak zenoh over the LAN"),
                    detail,
                },
            )
        },
        Egress::PermissionBlocked(line) => {
            let mut cause: Vec<String> = Vec::new();
            if r.ping == Some(true) {
                cause.push(
                    String::from_str(
                        "ping works = the network is healthy, yet only this binary cannot send on the LAN",
                    ),
                );
            }
            let likely = if string_eq(r.os.as_str(), "macos") {
                String::from_str(
                    "most likely: no macOS \"Local Network\" permission (TCC), or an unsigned binary",
                )
            } else if string_eq(r.os.as_str(), "windows") {
                String::from_str("most likely: Windows Defender Firewall is blocking this binary")
            } else {
                String::from_str(
                    "most likely: a firewall or NIC configuration is blocking multicast",
                )
            };
            cause.push(likely);
            assert(views(cause@) =~= blocked_causes(r.ping, r.os@));
            Err(
                Failure {
                    code: String::from_str("doctor_permission_blocked"),
                    path: String::from_str("probes.egress"),
                    verdict: String::from_str("blocked"),
                    title: String::from_str("this binary cannot send a zenoh scout to the LAN"),
                    cause,
                    fix: fix_steps(r.os.as_str()),
                    captured: Some(line.clone()),
                },
            )
        },
        Egress::NicError(line) => {
            let mut title = String::from_str("the specified NIC (");
            title.append(r.iface_desc.as_str());
            title.append(") cannot be used (the scout interface was not found)");
            let cause: Vec<String> = Vec::new();
            assert(views(cause@) =~= Seq::<Seq<char>>::empty());
            Err(
                Failure {
                    code: String::from_str("doctor_nic_error"),
                    path: String::from_str("probes.egress"),
                    verdict: String::from_str("misconfigured"),
                    title,
                    cause,
                    fix: one("point --iface at a real LAN NIC"),
                    captured: Some(line.clone()),
                },
            )
        },
        Egress::OtherError(line) => {
            let mut cause: Vec<String> = Vec::new();
            if r.ping == Some(false) {
                cause.push(
                    String::from_str(
                        "ping to the gateway also failed = suspected network/NIC-level outage",
                    ),
                );
            }
            assert(views(cause@) =~= (if r.ping == Some(false) {
                seq!["ping to the gateway also failed = suspected network/NIC-level outage"@]
            } else {
                Seq::<Seq<char>>::empty()
            }));
            Err(
                Failure {
                    code: String::from_str("doctor_egress_error"),
                    path: String::from_str("probes.egress"),
                    verdict: String::from_str("error"),
                    title: String::from_str("error during zenoh scout egress"),
                    cause,
                    fix: one("check the captured line below"),
                    captured: Some(line.clone()),
                },
            )
        },
    }
}

/// One green line with the detail dimmed in parentheses.
pub fn render_healthy(h: &Healthy) -> (r: String)
    ensures
        r@ == glyph_spec(Status::Good) + seq![' '] + painted(Tone::Good, h.title@) + seq![' ']
            + painted(Tone::Meta, seq!['('] + h.detail@ + seq![')']),
{
    let mut r = Status::Good.glyph();
    r.append(" ");
    let t = paint(Tone::Good, h.title.as_str());
    r.append(t.as_str());
    r.append(" ");
    let mut d = String::from_str("(");
    d.append(h.detail.as_str());
    d.append(")");
    let m = paint(Tone::Meta, d.as_str());
    r.append(m.as_str());
    proof {
        reveal_strlit(" ");
        reveal_strlit("(");
        reveal_strlit(")");
    }
    r
}

/// `"{i+1}. {s}"` for each remedy.
pub open spec fn numbered(fix: Seq<Seq<char>>) -> Seq<Seq<char>> {
    Seq::new(fix.len(), |i: int| decimal((i + 1) as nat) + ". "@ + fix[i])
}

pub open spec fn failure_text(f: FailureView) -> Seq<char> {
    glyph_spec(Status::Bad) + seq![' '] + painted(Tone::BadBold, f.verdict) + " — "@ + painted(
        Tone::Head,
        f.title,
    ) + seq!['\n'] + (if f.cause.len() > 0 {
        labeled_rows("cause"@, Tone::Meta, f.cause, f.cause.len() as int)
    } else {
        seq![]
    }) + (if f.fix.len() > 0 {
        labeled_rows("fix"@, Tone::Action, numbered(f.fix), f.fix.len() as int)
    } else {
        seq![]
    }) + (match f.captured {
        Some(c) => labeled_rows("captured"@, Tone::Meta, seq![painted(Tone::Meta, c)], 1),
        None => seq![],
    })
}

/// Verdict line, then the cause, fix (numbered) and captured blocks that are present.
pub fn render_failure(f: &Failure) -> (r: String)
    ensures
        r@ == failure_text(f@),
{
    let mut out = Status::Bad.glyph();
    out.append(" ");
    let v = paint(Tone::BadBold, f.verdict.as_str());
    out.append(v.as_str());
    out.append(" — ");
    let t = paint(Tone::Head, f.title.as_str());
    out.append(t.as_str());
    out.append("\n");
    proof {
        reveal_strlit(" ");
        reveal_strlit("\n");
    }
    let ghost head = out@;
    if f.cause.len() > 0 {
        let b = labeled_block("cause", Tone::Meta, &f.cause);
        out.append(b.as_str());
    }
    let ghost after_cause = out@;
    if f.fix.len() > 0 {
        let mut numbered_fix: Vec<String> = Vec::new();
        let mut i: usize = 0;
        while i < f.fix.len()
            invariant
                i <= f.fix@.len(),
                views(numbered_fix@) == numbered(views(f.fix@)).take(i as int),
            decreases f.fix@.len() - i,
        {
            let mut s = String::new();
            push_decimal(&mut s, (i + 1) as u64);
            s.append(". ");
            s.append(f.fix[i].as_str());
            proof {
                reveal_strlit(". ");
                assert(views(f.fix@)[i as int] == f.fix@[i as int]@);
                assert(s@ == numbered(views(f.fix@))[i as int]);
            }
            let ghost prev = numbered_fix@;
            numbered_fix.push(s);
            proof {
                assert(views(numbered_fix@) =~= views(prev).push(s@));
            }
            i = i + 1;
            assert(views(numbered_fix@) =~= numbered(views(f.fix@)).take(i as int));
        }
        assert(numbered(views(f.fix@)).take(f.fix@.len() as int) =~= numbered(views(f.fix@)));
        let b = labeled_block("fix", Tone::Action, &numbered_fix);
        out.append(b.as_str());
    }
    let ghost after_fix = out@;
    match &f.captured {
        Some(c) => {
            let mut one_line: Vec<String> = Vec::new();
            one_line.push(paint(Tone::Meta, c.as_str()));
            assert(views(one_line@) =~= seq![painted(Tone::Meta, c@)]);
            let b = labeled_block("captured", Tone::Meta, &one_line);
            out.append(b.as_str());
        },
        None => {},
    }
    assert(out@ =~= failure_text(f@));
    out
}

// ---------------------------------------------------------------- default gateway

/// The whitespace-separated words of `s`, in order (`str::split_whitespace`).
pub open spec fn words(s: Seq<char>) -> Seq<Seq<char>>
    decreases s.len(),
{
    if s.len() == 0 {
        seq![]
    } else {
        let w = words(s.drop_last());
        let c = s.last();
        if char_is_whitespace(c) {
            w
        } else if s.len() >= 2 && !char_is_whitespace(s[s.len() - 2]) {
            w.update(w.len() - 1, w.last().push(c))
        } else {
            w.push(seq![c])
        }
    }
}

/// The word after the first `via`.
pub open spec fn word_after_via(ws: Seq<Seq<char>>) -> Option<Seq<char>>
    decreases ws.len(),
{
    if ws.len() == 0 {
        None
    } else if ws[0] == "via"@ {
        if ws.len() >= 2 {
            Some(ws[1])
        } else {
            None
        }
    } else {
        word_after_via(ws.drop_first())
    }
}

/// The rest of the first line that, trimmed, starts with `gateway:`, trimmed.
pub open spec fn gateway_line(ls: Seq<Seq<char>>) -> Option<Seq<char>>
    decreases ls.len(),
{
    if ls.len() == 0 {
        None
    } else {
        let t = trim(ls[0]);
        if "gateway:"@.is_prefix_of(t) {
            Some(trim(t.skip(8)))
        } else {
            gateway_line(ls.drop_first())
        }
    }
}

/// The default gateway in the route tool's output: Windows prints the next hop alone
/// (`0.0.0.0` or nothing means none), macOS prints a `gateway:` line, and the Linux
/// `ip route show default` prints `default via <ip> ...`.
pub open spec fn gateway_of(os: Seq<char>, text: Seq<char>) -> Option<Seq<char>> {
    if os == "windows"@ {
        let s = trim(text);
        if s.len() > 0 && s != "0.0.0.0"@ {
            Some(s)
        } else {
            None
        }
    } else if os == "macos"@ {
        gateway_line(lines(text))
    } else {
        word_after_via(words(text))
    }
}

proof fn lemma_words_nonempty(s: Seq<char>)
    requires
        s.len() > 0,
        !char_is_whitespace(s.last()),
    ensures
        words(s).len() > 0,
    decreases s.len(),
{
    if s.len() >= 2 && !char_is_whitespace(s[s.len() - 2]) {
        assert(s.drop_last().last() == s[s.len() - 2]);
        lemma_words_nonempty(s.drop_last());
    }
}

fn words_exec(s: &[char]) -> (r: Vec<Vec<char>>)
    ensures
        crate::strs::cviews(r@) == words(s@),
{
    let mut out: Vec<Vec<char>> = Vec::new();
    let mut i: usize = 0;
    assert(s@.take(0) =~= Seq::<char>::empty());
    while i < s.len()
        invariant
            i <= s@.len(),
            crate::strs::cviews(out@) == words(s@.take(i as int)),
        decreases s@.len() - i,
    {
        let c = s[i];
        let pre = Ghost(s@.take(i as int));
        let cur = Ghost(s@.take(i + 1));
        assert(cur@.drop_last() =~= pre@);
        assert(cur@.last() == c);
        if crate::strs::is_whitespace(c) {
        } else if i >= 1 && !crate::strs::is_whitespace(s[i - 1]) {
            assert(cur@[cur@.len() - 2] == s@[i - 1]);
            assert(pre@.last() == s@[i - 1]);
            proof {
                lemma_words_nonempty(pre@);
            }
            let mut last = out.pop().unwrap();
            last.push(c);
            out.push(last);
            assert(crate::strs::cviews(out@) =~= words(cur@));
        } else {
            let mut w: Vec<char> = Vec::new();
            w.push(c);
            out.push(w);
            assert(crate::strs::cviews(out@) =~= words(cur@));
        }
        i = i + 1;
    }
    assert(s@.take(s@.len() as int) =~= s@);
    out
}

/// Reads the default gateway out of the route tool's output on `os` (`windows`, `macos`, or
/// any other name for the Linux form).
pub fn gateway_from(os: &str, text: &str) -> (r: Option<String>)
    ensures
        match r {
            Some(g) => gateway_of(os@, text@) == Some(g@),
            None => gateway_of(os@, text@) is None,
        },
{
    if string_eq(os, "windows") {
        let s = crate::strs::str_trim(text);
        if s.as_str().unicode_len() > 0 && !string_eq(s.as_str(), "0.0.0.0") {
            return Some(s);
        }
        return None;
    }
    if string_eq(os, "macos") {
        let ls = crate::strs::str_lines(text);
        let prefix: Vec<char> = vec!['g', 'a', 't', 'e', 'w', 'a', 'y', ':'];
        proof {
            reveal_strlit("gateway:");
            assert(prefix@ =~= "gateway:"@);
            assert(lines(text@).skip(0) =~= lines(text@));
        }
        let mut k: usize = 0;
        while k < ls.len()
            invariant
                k <= ls@.len(),
                os@ != "windows"@,
                os@ == "macos"@,
                prefix@ == "gateway:"@,
                prefix@.len() == 8,
                crate::strs::cviews(ls@) == lines(text@),
                gateway_line(lines(text@)) == gateway_line(lines(text@).skip(k as int)),
            decreases ls@.len() - k,
        {
            let t = trim_exec(ls[k].as_slice());
            let ghost rest = lines(text@).skip(k as int);
            assert(rest[0] == ls@[k as int]@);
            if crate::strs::starts_with_exec(t.as_slice(), prefix.as_slice()) {
                assert(prefix@.len() == 8);
                let tail = crate::strs::slice_chars(t.as_slice(), 8, t.len());
                assert(tail@ =~= t@.skip(8));
                let g = trim_exec(tail.as_slice());
                assert(rest.len() > 0);
                assert(trim(rest[0]) == t@);
                assert(gateway_line(rest) == Some(trim(t@.skip(8))));
                return Some(string_of(g.as_slice()));
            }
            assert(rest.drop_first() =~= lines(text@).skip(k + 1));
            k = k + 1;
        }
        return None;
    }
    let cs = chars_of(text);
    let ws = words_exec(cs.as_slice());
    let mut k: usize = 0;
    let via_word: Vec<char> = vec!['v', 'i', 'a'];
    proof {
        reveal_strlit("via");
        assert(via_word@ =~= "via"@);
        assert(words(text@).skip(0) =~= words(text@));
    }
    while k < ws.len()
        invariant
            k <= ws@.len(),
            os@ != "windows"@,
            os@ != "macos"@,
            via_word@ == "via"@,
            crate::strs::cviews(ws@) == words(text@),
            word_after_via(words(text@)) == word_after_via(words(text@).skip(k as int)),
        decreases ws@.len() - k,
    {
        let ghost rest = words(text@).skip(k as int);
        assert(rest[0] == ws@[k as int]@);
        if crate::strs::chars_eq(ws[k].as_slice(), via_word.as_slice()) {
            assert(rest.len() > 0 && rest[0] == "via"@);
            if k + 1 < ws.len() {
                assert(rest[1] == ws@[k + 1]@);
                assert(word_after_via(rest) == Some(rest[1]));
                return Some(string_of(ws[k + 1].as_slice()));
            }
            assert(word_after_via(rest) is None);
            return None;
        }
        assert(rest.drop_first() =~= words(text@).skip(k + 1));
        k = k + 1;
    }
    None
}

// ---------------------------------------------------------------- ping

/// The arguments of one `ping` with a two-second wait, in each OS's own flags.
pub open spec fn ping_args_of(os: Seq<char>, target: Seq<char>) -> Seq<Seq<char>> {
    if os == "windows"@ {
        seq!["-n"@, "1"@, "-w"@, "2000"@, target]
    } else if os == "macos"@ {
        seq!["-c1"@, "-t"@, "2"@, target]
    } else {
        seq!["-c1"@, "-W"@, "2"@, target]
    }
}

pub fn ping_args(os: &str, target: &str) -> (r: Vec<String>)
    ensures
        views(r@) == ping_args_of(os@, target@),
{
    let mut v: Vec<String> = Vec::new();
    if string_eq(os, "windows") {
        v.push(String::from_str("-n"));
        v.push(String::from_str("1"));
        v.push(String::from_str("-w"));
        v.push(String::from_str("2000"));
    } else if string_eq(os, "macos") {
        v.push(String::from_str("-c1"));
        v.push(String::from_str("-t"));
        v.push(String::from_str("2"));
    } else {
        v.push(String::from_str("-c1"));
        v.push(String::from_str("-W"));
        v.push(String::from_str("2"));
    }
    v.push(String::from_str(target));
    assert(views(v@) =~= ping_args_of(os@, target@));
    v
}

// ---------------------------------------------------------------- the outcome of a run

/// The outcome of a `doctor` run: the local diagnosis stays authoritative for its own failure
/// (reported as its code, path and title); when it passed, the mesh stage's failures, if that
/// stage ran, fail the run.
pub open spec fn doctor_outcome_of(local: Result<Healthy, Failure>, lan: Option<Result<(), Seq<DiagView>>>) -> Result<(), Seq<DiagView>> {
    match local {
        Err(f) => Err(seq![dv(f.code@, f.path@, f.title@)]),
        Ok(_) => match lan {
            Some(Err(d)) => Err(d),
            _ => Ok(()),
        },
    }
}

/// The results of a stage, by their diagnostics.
pub open spec fn stage_view(o: Option<Result<(), Vec<Diag>>>) -> Option<Result<(), Seq<DiagView>>> {
    match o {
        Some(Err(d)) => Some(Err(diag_views(d@))),
        Some(Ok(())) => Some(Ok(())),
        None => None,
    }
}

pub open spec fn outcome_view(r: Result<(), Vec<Diag>>) -> Result<(), Seq<DiagView>> {
    match r {
        Err(d) => Err(diag_views(d@)),
        Ok(()) => Ok(()),
    }
}

pub fn doctor_outcome(local: &Result<Healthy, Failure>, lan: Option<Result<(), Vec<Diag>>>) -> (r: Result<(), Vec<Diag>>)
    ensures
        outcome_view(r) == doctor_outcome_of(*local, stage_view(lan)),
{
    match local {
        Err(f) => {
            let d = Diag::new(f.code.as_str(), copy_string(&f.path), copy_string(&f.title));
            let v = vec![d];
            assert(diag_views(v@) =~= seq![dv(f.code@, f.path@, f.title@)]);
            Err(v)
        },
        Ok(_) => match lan {
            Some(Err(d)) => Err(d),
            _ => Ok(()),
        },
    }
}

/// One probe's line of the preflight report: `  <glyph> <name padded to 12> <note>`.
pub open spec fn report_text(name: Seq<char>, s: Status, note: Seq<char>) -> Seq<char> {
    "  "@ + glyph_spec(s) + " "@ + crate::strs::pad_right(name, 12) + " "@ + note
}

pub fn report_line(name: &str, status: Status, note: &str) -> (r: String)
    ensures
        r@ == report_text(name@, status, note@),
{
    let mut r = String::from_str("  ");
    r.append(status.glyph().as_str());
    r.append(" ");
    crate::strs::push_padded(&mut r, name, 12);
    r.append(" ");
    r.append(note);
    r
}

pub open spec fn ok_or(ok: bool, otherwise: Status) -> Status {
    if ok {
        Status::Good
    } else {
        otherwise
    }
}

/// The loopback probe's line.
pub open spec fn loopback_text(ok: bool) -> Seq<char> {
    report_text("loopback UDP"@, ok_or(ok, Status::Bad), "socket layer sanity"@)
}

pub fn loopback_line(ok: bool) -> (r: String)
    ensures
        r@ == loopback_text(ok),
{
    report_line("loopback UDP", if ok { Status::Good } else { Status::Bad }, "socket layer sanity")
}

/// The gateway ping's line: its outcome with the gateway pinged, or skipped when the default
/// gateway is unknown.
pub open spec fn ping_text(gateway: Option<Seq<char>>, ok: bool) -> Seq<char> {
    match gateway {
        Some(g) => report_text("LAN ping"@, ok_or(ok, Status::Bad), "gateway "@ + g),
        None => report_text("LAN ping"@, Status::Skip, "default gateway unknown (skipped)"@),
    }
}

pub fn ping_line(gateway: Option<&str>, ok: bool) -> (r: String)
    ensures
        r@ == ping_text(
            match gateway {
                Some(g) => Some(g@),
                None => None,
            },
            ok,
        ),
{
    match gateway {
        Some(g) => {
            let note = cat("gateway ", g);
            report_line("LAN ping", if ok { Status::Good } else { Status::Bad }, note.as_str())
        },
        None => report_line("LAN ping", Status::Skip, "default gateway unknown (skipped)"),
    }
}

/// The scout's line: whether LAN egress was clear, and how many peers answered.
pub open spec fn scout_text(ok: bool, peers: nat) -> Seq<char> {
    report_text(
        "zenoh scout"@,
        ok_or(ok, Status::Bad),
        "LAN egress "@ + (if ok { "OK"@ } else { "failed"@ }) + " · peers discovered: "@ + decimal(peers),
    )
}

pub fn scout_line(ok: bool, peers: u64) -> (r: String)
    ensures
        r@ == scout_text(ok, peers as nat),
{
    let mut note = String::from_str("LAN egress ");
    note.append(if ok { "OK" } else { "failed" });
    note.append(" · peers discovered: ");
    push_decimal(&mut note, peers);
    report_line("zenoh scout", if ok { Status::Good } else { Status::Bad }, note.as_str())
}

/// The link relay's line: running on its port, or (for information only) not running.
pub open spec fn link_ws_text(running: bool, port: u16) -> Seq<char> {
    if running {
        report_text("link WS"@, Status::Good, ":"@ + decimal(port as nat) + " running"@)
    } else {
        report_text(
            "link WS"@,
            Status::Skip,
            ":"@ + decimal(port as nat) + " not running "@ + painted(Tone::Meta, "(informational — the engine spawns it)"@),
        )
    }
}

pub fn link_ws_line(running: bool, port: u16) -> (r: String)
    ensures
        r@ == link_ws_text(running, port),
{
    let mut note = String::from_str(":");
    push_decimal(&mut note, port as u64);
    if running {
        note.append(" running");
        report_line("link WS", Status::Good, note.as_str())
    } else {
        note.append(" not running ");
        note.append(paint(Tone::Meta, "(informational — the engine spawns it)").as_str());
        report_line("link WS", Status::Skip, note.as_str())
    }
}

} // verus!
