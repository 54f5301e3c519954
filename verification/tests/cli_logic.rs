use sahou_core::doctor::doctor_outcome;
use sahou_core::diag::Diag;
use sahou_core::doctor::{classify_egress, diagnose, gateway_from, ping_args, render_failure, render_healthy, Egress, ProbeReport};
use sahou_core::doctor_lan::{descriptor_candidates, explicit_descriptor, DescriptorRead};
use sahou_core::files::{resolve_targets, FileKind};
use sahou_core::init::{resolve_name, sanitize_name};
use sahou_core::link::{config_entries, idle_step, start_error_hint, IdleState, LinkAction, LinkArgs};

const TCC_LOG: &str = "2026-07-08T00:00:00Z ERROR zenoh::net::runtime::orchestrator: \
    Unable to send Scout ZScout on interface 192.168.1.10: No route to host (os error 65)";

fn report(egress: Egress, os: &str) -> ProbeReport {
    ProbeReport {
        loopback: true,
        ping: Some(true),
        egress,
        peers: 0,
        link_ws: false,
        os: os.to_string(),
        iface_desc: "auto".into(),
    }
}

/// Drops the ANSI styling so the text can be searched.
fn plain(s: &str) -> String {
    let mut out = String::new();
    let mut in_esc = false;
    for c in s.chars() {
        if in_esc {
            if c == 'm' {
                in_esc = false;
            }
        } else if c == '\u{1b}' {
            in_esc = true;
        } else {
            out.push(c);
        }
    }
    out
}

#[test]
fn tcc_signature_is_permission_blocked() {
    assert!(matches!(classify_egress(TCC_LOG), Egress::PermissionBlocked(_)));
    assert!(matches!(
        classify_egress("ERROR foo: connect failed (os error 65)"),
        Egress::PermissionBlocked(_)
    ));
}

#[test]
fn missing_interface_is_nic_error() {
    let log = "ERROR zenoh::net::runtime::orchestrator: Unable to find interface nonexist99";
    assert!(matches!(classify_egress(log), Egress::NicError(_)));
}

#[test]
fn clean_log_is_ok_and_generic_error_is_other() {
    assert!(matches!(classify_egress(""), Egress::Clear));
    assert!(matches!(classify_egress("INFO zenoh: session opened"), Egress::Clear));
    assert!(matches!(
        classify_egress("ERROR zenoh::foo: something unexpected"),
        Egress::OtherError(_)
    ));
}

#[test]
fn classify_egress_keeps_the_causing_line() {
    let log = "INFO start\nERROR zenoh::foo: something unexpected\nINFO end";
    assert_eq!(
        classify_egress(log),
        Egress::OtherError("ERROR zenoh::foo: something unexpected".to_string())
    );
}

#[test]
fn healthy_when_egress_ok() {
    let h = diagnose(&report(Egress::Clear, "windows")).unwrap();
    assert!(h.title.contains("healthy"), "{}", h.title);
    assert!(h.detail.contains("peers discovered: 0"), "{}", h.detail);
}

#[test]
fn loopback_failure_is_terminal_no() {
    let mut r = report(Egress::Clear, "windows");
    r.loopback = false;
    let f = diagnose(&r).unwrap_err();
    assert_eq!(f.code, "doctor_loopback");
    assert_eq!(f.path, "probes.loopback");
}

#[test]
fn permission_blocked_fixes_are_cheapest_first_and_os_specific() {
    let mac = diagnose(&report(Egress::PermissionBlocked("line".into()), "macos")).unwrap_err();
    assert_eq!(mac.code, "doctor_permission_blocked");
    assert_eq!(mac.verdict, "blocked");
    assert!(mac.fix[0].contains("System Settings"), "{:?}", mac.fix);
    assert!(mac.fix[1].contains("Terminal"), "{:?}", mac.fix);
    assert!(mac.fix[2].contains("Developer ID"), "{:?}", mac.fix);
    assert!(mac.fix.iter().any(|s| s.contains("Local Network")), "{:?}", mac.fix);
    assert!(
        mac.cause.iter().any(|s| s.contains("the network is healthy")),
        "{:?}",
        mac.cause
    );
    assert_eq!(mac.captured.as_deref(), Some("line"));
    let win = diagnose(&report(Egress::PermissionBlocked("line".into()), "windows")).unwrap_err();
    assert!(win.fix.iter().any(|s| s.contains("Firewall")), "{:?}", win.fix);
}

#[test]
fn nic_error_points_to_iface_fix() {
    let f = diagnose(&report(Egress::NicError("line".into()), "windows")).unwrap_err();
    assert_eq!(f.code, "doctor_nic_error");
    assert!(f.fix.iter().any(|s| s.contains("--iface")), "{:?}", f.fix);
}

#[test]
fn other_error_mentions_network_break_when_ping_fails() {
    let mut r = report(Egress::OtherError("line".into()), "windows");
    r.ping = Some(false);
    let f = diagnose(&r).unwrap_err();
    assert_eq!(f.code, "doctor_egress_error");
    assert!(f.cause.iter().any(|s| s.contains("network/NIC")), "{:?}", f.cause);
}

#[test]
fn render_failure_orders_cause_fix_captured() {
    let f = diagnose(&report(Egress::PermissionBlocked("ERR line".into()), "macos")).unwrap_err();
    let p = plain(&render_failure(&f));
    assert!(p.starts_with("✗ blocked — "), "{p}");
    assert!(p.contains("  fix       1. "), "{p}");
    let (c, x, cap) = (
        p.find("cause").unwrap(),
        p.find("fix").unwrap(),
        p.find("captured").unwrap(),
    );
    assert!(c < x && x < cap, "{p}");
    assert!(p.contains("ERR line"), "{p}");
}

#[test]
fn render_healthy_is_one_green_line_with_dim_detail() {
    let h = diagnose(&report(Egress::Clear, "macos")).unwrap();
    let p = plain(&render_healthy(&h));
    assert!(p.starts_with("✓ healthy — "), "{p}");
    assert!(p.contains("peers discovered: 0"), "{p}");
}

#[test]
fn resolve_targets_uses_env_in_endpoints_name() {
    let t = resolve_targets("x", "prod");
    assert!(t.endpoints.ends_with("endpoints.prod.yaml"));
    assert!(t.schema.ends_with("schema.sahou.yaml"));
    assert_eq!(t.kind_of("x/layout.sahou.json"), Some(FileKind::Layout));
    assert_eq!(t.kind_of("x/other.txt"), None);
}

#[test]
fn file_kind_names_round_trip() {
    for k in [FileKind::Schema, FileKind::Layout, FileKind::Endpoints] {
        assert_eq!(FileKind::parse(k.as_str()), Some(k));
    }
    assert_eq!(FileKind::parse("nope"), None);
}

#[test]
fn sanitize_name_rejects_empty_and_whitespace() {
    assert_eq!(sanitize_name(""), None);
    assert_eq!(sanitize_name("   "), None);
}

#[test]
fn sanitize_name_rejects_yaml_unsafe_chars() {
    assert_eq!(sanitize_name("foo: bar"), None);
    assert_eq!(sanitize_name("foo/bar"), None);
    assert_eq!(sanitize_name("\"quoted\""), None);
}

#[test]
fn sanitize_name_accepts_word_like_names() {
    assert_eq!(sanitize_name("my_project-1.0"), Some("my_project-1.0".into()));
    assert_eq!(sanitize_name("  trimmed  "), Some("trimmed".into()));
}

#[test]
fn resolve_name_prefers_explicit_name_over_basename() {
    assert_eq!(resolve_name(Some("explicit"), Some("dir")), "explicit");
    assert_eq!(resolve_name(None, Some("proj")), "proj");
    assert_eq!(resolve_name(None, Some("my dir")), "sahou_project");
    assert_eq!(resolve_name(None, None), "sahou_project");
}

fn args_default() -> LinkArgs {
    LinkArgs {
        port: 10000,
        peer_listen: 7448,
        iface: None,
        connect: None,
        grace: 10,
        startup: 30,
        no_multicast: false,
    }
}

#[test]
fn config_entries_pins_websocket_port_to_host_port_form() {
    let entries = config_entries(&args_default());
    assert!(entries.contains(&(
        "plugins/remote_api/websocket_port".into(),
        "\"127.0.0.1:10000\"".into()
    )));
    assert!(entries.contains(&("mode".into(), "\"peer\"".into())));
    assert!(entries.contains(&("listen/endpoints".into(), "[\"tcp/[::]:7448\"]".into())));
    assert!(entries.iter().all(|(k, _)| k != "scouting/multicast/enabled"));
    assert!(entries.iter().all(|(k, _)| k != "connect/endpoints"));
}

#[test]
fn config_entries_reflects_optional_flags() {
    let mut a = args_default();
    a.no_multicast = true;
    a.iface = Some("Ethernet".into());
    a.connect = Some("tcp/192.168.1.10:7448".into());
    let entries = config_entries(&a);
    assert!(entries.contains(&("scouting/multicast/enabled".into(), "false".into())));
    assert!(entries.contains(&("scouting/multicast/interface".into(), "\"Ethernet\"".into())));
    assert!(entries.contains(&(
        "connect/endpoints".into(),
        "[\"tcp/192.168.1.10:7448\"]".into()
    )));
}

#[test]
fn start_error_hint_classifies_port_in_use() {
    for msg in [
        "failed to start the zenoh runtime: os error 10048",
        "failed to start the zenoh runtime: Address already in use",
        "failed to start the zenoh runtime: AddrInUse",
    ] {
        let hint = start_error_hint(msg, 10000, 7448);
        assert!(hint.contains(":10000"), "{hint}");
        assert!(hint.contains("in use"), "{hint}");
    }
    let other = start_error_hint("failed to build the zenoh runtime: bad config", 10000, 7448);
    assert_eq!(other, "failed to build the zenoh runtime: bad config");
}

fn drive(mut st: IdleState, seq: &[usize], grace: u64, startup: u64) -> (IdleState, Option<&'static str>) {
    for &clients in seq {
        let (next, action) = idle_step(st, clients, 2, grace, startup);
        st = next;
        if let LinkAction::Exit(reason) = action {
            return (st, Some(reason));
        }
    }
    (st, None)
}

#[test]
fn no_client_exits_at_startup_timeout() {
    let (_, reason) = drive(IdleState::default(), &[0; 15], 10, 30);
    assert_eq!(reason, Some("startup timeout"));
    let (_, reason) = drive(IdleState::default(), &[0; 14], 10, 30);
    assert_eq!(reason, None);
}

#[test]
fn client_arms_then_idle_grace_exits() {
    let (_, reason) = drive(IdleState::default(), &[0, 1, 1, 0, 0, 0, 0, 0], 10, 30);
    assert_eq!(reason, Some("idle"));
}

#[test]
fn client_return_resets_idle_countdown() {
    let (st, reason) = drive(IdleState::default(), &[1, 0, 0, 1, 0, 0], 10, 30);
    assert_eq!(reason, None);
    assert!(st.armed);
    assert_eq!(st.idle_secs, 4);
}

#[test]
fn armed_never_falls_back_to_startup_timeout() {
    let mut seq = vec![1usize];
    seq.extend([0; 20]);
    let (st, reason) = drive(IdleState::default(), &seq, 1000, 30);
    assert_eq!(
        reason, None,
        "after being armed, it does not exit via startup timeout even when up_secs>startup"
    );
    assert!(st.armed);
    assert!(st.up_secs > 30, "up_secs is past startup (yet it has not exited)");
}

#[test]
fn a_client_keeps_the_link_alive_and_clears_idle() {
    let st = IdleState { armed: true, idle_secs: 8, up_secs: 100 };
    let (next, action) = idle_step(st, 3, 2, 10, 30);
    assert_eq!(action, LinkAction::Continue);
    assert!(next.armed);
    assert_eq!(next.idle_secs, 0);
    assert_eq!(next.up_secs, 102);
}

#[test]
fn default_gateway_is_read_from_each_route_tool() {
    let linux = "default via 192.168.1.1 dev eth0 proto dhcp src 192.168.1.20 metric 100\n";
    assert_eq!(gateway_from("linux", linux), Some("192.168.1.1".to_string()));
    assert_eq!(gateway_from("linux", "default dev wg0 scope link\n"), None);
    assert_eq!(gateway_from("linux", "default via\n"), None);
    let mac = "   route to: default\ndestination: default\n       mask: default\n    gateway: 192.168.0.1 \n  interface: en0\n";
    assert_eq!(gateway_from("macos", mac), Some("192.168.0.1".to_string()));
    assert_eq!(gateway_from("macos", "route: writing to routing socket: not in table\n"), None);
    assert_eq!(gateway_from("windows", "192.168.1.254\r\n"), Some("192.168.1.254".to_string()));
    assert_eq!(gateway_from("windows", "0.0.0.0\r\n"), None);
    assert_eq!(gateway_from("windows", " \r\n"), None);
}

#[test]
fn ping_waits_two_seconds_with_each_os_flags() {
    assert_eq!(ping_args("windows", "10.0.0.1"), vec!["-n", "1", "-w", "2000", "10.0.0.1"]);
    assert_eq!(ping_args("macos", "10.0.0.1"), vec!["-c1", "-t", "2", "10.0.0.1"]);
    assert_eq!(ping_args("linux", "10.0.0.1"), vec!["-c1", "-W", "2", "10.0.0.1"]);
}

#[test]
fn an_explicit_descriptor_failure_is_a_hard_error_with_a_schema_hint() {
    assert_eq!(descriptor_candidates(), vec!["gen/descriptor.json", "descriptor.json"]);
    let e = explicit_descriptor("schema.sahou.yaml", DescriptorRead::Broken { first_message: Some("expected value".into()), is_schema: true })
        .unwrap_err();
    assert_eq!(e[0].code, "doctor_schema_not_descriptor");
    assert!(e[0].message.starts_with("schema.sahou.yaml is a schema, not the generated descriptor."), "{}", e[0].message);
    let e = explicit_descriptor("x.json", DescriptorRead::Broken { first_message: Some("missing field `schema`".into()), is_schema: false })
        .unwrap_err();
    assert_eq!(e[0].code, "doctor_descriptor_unreadable");
    assert_eq!(e[0].message, "x.json is not a loadable descriptor: missing field `schema`");
    let e = explicit_descriptor("gone.json", DescriptorRead::Unreadable("No such file or directory (os error 2)".into())).unwrap_err();
    assert_eq!(e[0].message, "cannot read gone.json: No such file or directory (os error 2)");
}

#[test]
fn each_target_path_maps_back_to_its_kind() {
    let t = resolve_targets("some/dir", "staging-2");
    for k in [FileKind::Schema, FileKind::Layout, FileKind::Endpoints] {
        let p = t.path_of(k).to_string();
        assert_eq!(t.kind_of(&p), Some(k));
    }
}

#[test]
fn local_failure_stays_authoritative_over_the_mesh_stage() {
    let mut bad = report(Egress::Clear, "linux");
    bad.loopback = false;
    let local = diagnose(&bad);
    let f = local.as_ref().err().unwrap();
    let (code, path, title) = (f.code.clone(), f.path.clone(), f.title.clone());
    let lan = Some(Err(vec![Diag::new("doctor_lan_missing_nodes", "nodes".into(), "x".into())]));
    let out = doctor_outcome(&local, lan).unwrap_err();
    assert_eq!(out.len(), 1);
    assert_eq!((out[0].code.clone(), out[0].path.clone(), out[0].message.clone()), (code, path, title));

    let good = diagnose(&report(Egress::Clear, "linux"));
    assert!(good.is_ok());
    let lan = Some(Err(vec![Diag::new("doctor_lan_missing_nodes", "nodes".into(), "x".into())]));
    assert_eq!(doctor_outcome(&good, lan).unwrap_err()[0].code, "doctor_lan_missing_nodes");
    assert!(doctor_outcome(&good, Some(Ok(()))).is_ok());
    assert!(doctor_outcome(&good, None).is_ok());
}
