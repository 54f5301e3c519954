//! Relay lifetime decisions: the idle/startup state machine, the relay's configuration
//! entries, and the start-failure hint.
use vstd::prelude::*;

use crate::strs::{
    chars_of, contains, decimal, push_decimal, string_of, to_ascii_lower, to_ascii_lower_exec,
    contains_exec,
};

verus! {

/// Relay options that decide its configuration and lifetime.
pub struct LinkArgs {
    /// remote-api WebSocket port (the entrypoint for Node/browser)
    pub port: u16,
    /// listen port for the native peer
    pub peer_listen: u16,
    /// pin the NIC for multicast scouting
    pub iface: Option<String>,
    /// explicit connect endpoint
    pub connect: Option<String>,
    /// auto-exit after this many seconds with 0 WS clients
    pub grace: u64,
    /// exit as a misfire if no first client arrives within this many seconds
    pub startup: u64,
    /// disable multicast scouting
    pub no_multicast: bool,
}

/// State of idle monitoring, driven by the WS client count every tick.
#[derive(Debug, Clone, Copy, PartialEq, Default)]
pub struct IdleState {
    /// whether any client has ever arrived
    pub armed: bool,
    /// seconds of continuous 0 clients after being armed
    pub idle_secs: u64,
    /// seconds elapsed since startup
    pub up_secs: u64,
}

#[derive(Debug, PartialEq)]
pub enum LinkAction {
    Continue,
    Exit(&'static str),
}

/// One tick of the idle state machine: a client present arms it and resets the idle count;
/// an armed link with no client counts idle seconds and exits once they reach `grace`; a
/// never-armed link exits once its uptime reaches `startup`.
pub open spec fn idle_next(s: IdleState, clients: usize, tick: u64, grace: u64, startup: u64) -> (
    IdleState,
    LinkAction,
) {
    let up = (s.up_secs + tick) as u64;
    if clients > 0 {
        (IdleState { armed: true, idle_secs: 0, up_secs: up }, LinkAction::Continue)
    } else if s.armed {
        let idle = (s.idle_secs + tick) as u64;
        (
            IdleState { armed: true, idle_secs: idle, up_secs: up },
            if idle >= grace {
                LinkAction::Exit("idle")
            } else {
                LinkAction::Continue
            },
        )
    } else {
        (
            IdleState { armed: false, idle_secs: 0, up_secs: up },
            if up >= startup {
                LinkAction::Exit("startup timeout")
            } else {
                LinkAction::Continue
            },
        )
    }
}

pub fn idle_step(s: IdleState, clients: usize, tick: u64, grace: u64, startup: u64) -> (r: (
    IdleState,
    LinkAction,
))
    requires
        s.up_secs + tick <= u64::MAX,
        s.idle_secs + tick <= u64::MAX,
    ensures
        r == idle_next(s, clients, tick, grace, startup),
{
    let up = s.up_secs + tick;
    if clients > 0 {
        let st = IdleState { armed: true, idle_secs: 0, up_secs: up };
        return (st, LinkAction::Continue);
    }
    if s.armed {
        let idle = s.idle_secs + tick;
        let st = IdleState { armed: true, idle_secs: idle, up_secs: up };
        if idle >= grace {
            (st, LinkAction::Exit("idle"))
        } else {
            (st, LinkAction::Continue)
        }
    } else {
        let st = IdleState { armed: false, idle_secs: 0, up_secs: up };
        if up >= startup {
            (st, LinkAction::Exit("startup timeout"))
        } else {
            (st, LinkAction::Continue)
        }
    }
}

/// Once a client has arrived the link stays armed whatever a tick brings, and it never
/// exits for the startup timeout.
pub proof fn armed_stays_armed(s: IdleState, clients: usize, tick: u64, grace: u64, startup: u64)
    requires
        s.armed,
    ensures
        idle_next(s, clients, tick, grace, startup).0.armed,
        idle_next(s, clients, tick, grace, startup).1 != LinkAction::Exit("startup timeout"),
{
    reveal_strlit("idle");
    reveal_strlit("startup timeout");
    assert("idle"@ != "startup timeout"@) by {
        assert("idle"@.len() != "startup timeout"@.len());
    }
}

/// A tick with a client present never exits and restarts the idle countdown from zero.
pub proof fn client_resets_idle(s: IdleState, clients: usize, tick: u64, grace: u64, startup: u64)
    requires
        clients > 0,
    ensures
        idle_next(s, clients, tick, grace, startup).1 == LinkAction::Continue,
        idle_next(s, clients, tick, grace, startup).0.idle_secs == 0,
        idle_next(s, clients, tick, grace, startup).0.armed,
{
}

pub open spec fn entry(k: Seq<char>, v: Seq<char>) -> (Seq<char>, Seq<char>) {
    (k, v)
}

/// The relay's configuration entries (key, json5 value), in order.
pub open spec fn config_of(
    port: u16,
    peer_listen: u16,
    iface: Option<Seq<char>>,
    connect: Option<Seq<char>>,
    no_multicast: bool,
) -> Seq<(Seq<char>, Seq<char>)> {
    let base = seq![
        entry("mode"@, "\"peer\""@),
        entry("listen/endpoints"@, "[\"tcp/[::]:"@ + decimal(peer_listen as nat) + "\"]"@),
        entry(
            "plugins/remote_api/websocket_port"@,
            "\"127.0.0.1:"@ + decimal(port as nat) + "\""@,
        ),
    ];
    let m = if no_multicast {
        base.push(entry("scouting/multicast/enabled"@, "false"@))
    } else {
        base
    };
    let i = match iface {
        Some(n) => m.push(entry("scouting/multicast/interface"@, "\""@ + n + "\""@)),
        None => m,
    };
    match connect {
        Some(ep) => i.push(entry("connect/endpoints"@, "[\""@ + ep + "\"]"@)),
        None => i,
    }
}

pub open spec fn pair_views(v: Seq<(String, String)>) -> Seq<(Seq<char>, Seq<char>)> {
    v.map_values(|p: (String, String)| (p.0@, p.1@))
}

pub open spec fn opt_view(o: Option<String>) -> Option<Seq<char>> {
    match o {
        Some(s) => Some(s@),
        None => None,
    }
}

fn kv(k: &str, v: String) -> (r: (String, String))
    ensures
        r.0@ == k@,
        r.1@ == v@,
{
    (String::from_str(k), v)
}

/// The relay's configuration entries. The WebSocket port is pinned in host:port form.
pub fn config_entries(args: &LinkArgs) -> (r: Vec<(String, String)>)
    ensures
        pair_views(r@) == config_of(
            args.port,
            args.peer_listen,
            opt_view(args.iface),
            opt_view(args.connect),
            args.no_multicast,
        ),
{
    let mut v: Vec<(String, String)> = Vec::new();
    v.push(kv("mode", String::from_str("\"peer\"")));
    let mut listen = String::from_str("[\"tcp/[::]:");
    push_decimal(&mut listen, args.peer_listen as u64);
    listen.append("\"]");
    v.push(kv("listen/endpoints", listen));
    let mut ws = String::from_str("\"127.0.0.1:");
    push_decimal(&mut ws, args.port as u64);
    ws.append("\"");
    v.push(kv("plugins/remote_api/websocket_port", ws));
    let ghost base = pair_views(v@);
    if args.no_multicast {
        v.push(kv("scouting/multicast/enabled", String::from_str("false")));
    }
    let ghost m = pair_views(v@);
    match &args.iface {
        Some(iface) => {
            let mut val = String::from_str("\"");
            val.append(iface.as_str());
            val.append("\"");
            v.push(kv("scouting/multicast/interface", val));
        },
        None => {},
    }
    let ghost i = pair_views(v@);
    match &args.connect {
        Some(ep) => {
            let mut val = String::from_str("[\"");
            val.append(ep.as_str());
            val.append("\"]");
            v.push(kv("connect/endpoints", val));
        },
        None => {},
    }
    assert(pair_views(v@) =~= config_of(
        args.port,
        args.peer_listen,
        opt_view(args.iface),
        opt_view(args.connect),
        args.no_multicast,
    ));
    v
}

/// Whether a runtime start failure reads as a port already in use.
pub open spec fn reads_port_in_use(msg: Seq<char>) -> bool {
    let lower = to_ascii_lower(msg);
    contains(lower, "10048"@) || contains(lower, "in use"@) || contains(lower, "addrinuse"@)
}

pub open spec fn start_hint(msg: Seq<char>, port: u16, peer_listen: u16) -> Seq<char> {
    if reads_port_in_use(msg) {
        msg + " — port :"@ + decimal(port as nat) + "(WS) / :"@ + decimal(peer_listen as nat)
            + "(peer) is in use. Either a race where another process grabbed it after the launch probe, or occupancy by a non-link process. Check the existing process, or change --port / --peer-listen"@
    } else {
        msg
    }
}

/// A cause hint for a runtime start failure: a port-in-use failure names both ports.
pub fn start_error_hint(msg: &str, port: u16, peer_listen: u16) -> (r: String)
    ensures
        r@ == start_hint(msg@, port, peer_listen),
{
    let m = chars_of(msg);
    let lower = to_ascii_lower_exec(&m);
    let a = chars_of("10048");
    let b = chars_of("in use");
    let c = chars_of("addrinuse");
    if contains_exec(&lower, &a) || contains_exec(&lower, &b) || contains_exec(&lower, &c) {
        let mut r = String::from_str(msg);
        r.append(" — port :");
        push_decimal(&mut r, port as u64);
        r.append("(WS) / :");
        push_decimal(&mut r, peer_listen as u64);
        r.append(
            "(peer) is in use. Either a race where another process grabbed it after the launch probe, or occupancy by a non-link process. Check the existing process, or change --port / --peer-listen",
        );
        r
    } else {
        String::from_str(msg)
    }
}

} // verus!
