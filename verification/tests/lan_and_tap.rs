use sahou_core::tap::Explained;
use sahou_core::doctor_lan::{probe_step, ProbeAction, ProbeEvent, ProbeStage};
use sahou_core::diag::Diag;
use sahou_core::doctor_lan::{
    classify_probe, count_present, discovery_lines, lan_verdict, render_roll_call, roll_call,
    vantage_line, vitals_node, Generation, LanSweep, Presence,
};
use sahou_core::endpoints::{Endpoints, Mode, NodeEndpoint};
use sahou_core::ir::{build_descriptor, connection_hash, resolve_key};
use sahou_core::jsontext::json_string;
use sahou_core::model::{
    Congestion, Connection, Contract, Descriptor, DescriptorConnection, Encoding, Float, Json, Node,
    NodeKind, Number, Pattern, Priority, Reliability, ValidateLevel,
};
use sahou_core::runtime::AcceptOutcome;
use sahou_core::tap::{content_indent, conn_width, format_event, styled_diag, watch_targets};
use sahou_core::vitals::{parse_vitals, vitals_key, vitals_payload, Vitals, VitalsConn, VitalsRuntime, VitalsRuntimeInfo};

fn plain(s: &str) -> String {
    let mut out = String::new();
    let mut in_esc = false;
    for c in s.chars() {
        if in_esc {
            if c == 'm' {
                in_esc = false;
            }
        } else if c == '\u{1b}' {
            in_esc = true;
        } else {
            out.push(c);
        }
    }
    out
}

fn dconn(pattern: Pattern, from: &str, to: &[&str], hash: &str) -> DescriptorConnection {
    DescriptorConnection {
        pattern,
        from: from.into(),
        to: to.iter().map(|s| s.to_string()).collect(),
        key: format!("sahou/{from}"),
        hash: hash.into(),
        selector: None,
        reliability: Reliability::Reliable,
        congestion: Congestion::Block,
        priority: Priority::Data,
        express: false,
        encoding: Encoding::Json,
        validate: ValidateLevel::Full,
        payload: None,
        request: None,
        response: None,
    }
}

fn desc() -> Descriptor {
    Descriptor {
        schema: "demo".into(),
        version: "1".into(),
        namespace: "sahou".into(),
        nodes: vec![
            ("sensor".into(), Node { kind: NodeKind::Sahou }),
            ("visuals".into(), Node { kind: NodeKind::Sahou }),
        ],
        connections: vec![
            ("get_state".into(), dconn(Pattern::Query, "visuals", &["sensor"], "2222222222222222")),
            ("touch".into(), dconn(Pattern::PubSub, "sensor", &["visuals"], "1111111111111111")),
        ],
    }
}

fn info() -> VitalsRuntimeInfo {
    VitalsRuntimeInfo {
        lang: "rust".into(),
        sahou: "0.0.2".into(),
        zenoh: None,
        transport: "native".into(),
        uptime_secs: 0,
        handshake: vec![],
    }
}

fn num(n: i64) -> Json {
    Json::Number(Number {
        int: Some(n),
        uint: if n >= 0 { Some(n as u64) } else { None },
        real: Float { bits: (n as f64).to_bits(), text: n.to_string() },
        text: n.to_string(),
        real_json: format!("{}.0", n),
    })
}

#[test]
fn vitals_node_extracts_the_last_chunk() {
    assert_eq!(vitals_node("sahou/@sahou/vitals/sensor"), Some("sensor"));
    assert_eq!(vitals_node("multi/ns/@sahou/vitals/x"), Some("x"));
    assert_eq!(vitals_node("sahou/other/key"), None);
    assert_eq!(vitals_node("sahou/@sahou/vitals/"), None);
    assert_eq!(vitals_node("sahou/@sahou/vitals/a/b"), None);
}

#[test]
fn vantage_line_names_snapshot_window_and_descriptor() {
    let l = vantage_line("gen/descriptor.json (4 connections)", 5);
    assert!(l.contains("snapshot"), "{l}");
    assert!(l.contains("5s"), "{l}");
    assert!(l.contains("gen/descriptor.json"), "{l}");
    assert!(l.contains("this binary's vantage"), "{l}");
}

#[test]
fn classify_probe_localizes_the_fault() {
    let igmp = classify_probe(0, Some(2), true);
    assert!(igmp.contains("multicast-only filtering"), "{igmp}");
    assert!(igmp.contains("reached 2 node key(s)"), "{igmp}");
    let dark = classify_probe(0, Some(0), true);
    assert!(dark.contains("remote machine"), "{dark}");
    let unknown = classify_probe(0, None, true);
    assert!(unknown.contains("--connect"), "{unknown}");
    assert!(unknown.contains("1."), "{unknown}");
    let fine = classify_probe(3, None, true);
    assert!(fine.contains("3 node key(s) visible via multicast"), "{fine}");
    let blocked = classify_probe(0, None, false);
    assert!(!blocked.contains("healthy"), "{blocked}");
    assert!(blocked.contains("Fix the local issue first"), "{blocked}");
}

fn sweep_with(d: &Descriptor, nodes: &[&str]) -> LanSweep {
    let mut s = LanSweep { token_keys: vec![], vitals: vec![] };
    for n in nodes {
        let k = vitals_key(d, n);
        s.token_keys.push(k.clone());
        s.vitals.push((k, Ok(vitals_payload(d, n, Ok(info())).unwrap())));
    }
    s
}

#[test]
fn roll_call_marks_present_and_missing_nodes() {
    let d = desc();
    let rows = roll_call(&d, &sweep_with(&d, &["sensor"]));
    let by = |n: &str| rows.iter().find(|r| r.node == n).unwrap();
    assert!(matches!(by("sensor").present, Some(Presence::Token)));
    assert_eq!(by("sensor").sahou_version.as_deref(), Some("0.0.2"));
    assert!(matches!(by("sensor").generation, Generation::Match));
    assert!(by("visuals").present.is_none());
    assert!(matches!(by("visuals").generation, Generation::Unknown));
    assert_eq!(count_present(&rows), 1);
    let e = lan_verdict(&rows).unwrap_err();
    assert_eq!(e[0].code, "doctor_lan_missing_nodes");
    assert!(e[0].message.starts_with("1 of 2 expected node(s) not visible from here: visuals"), "{}", e[0].message);
    let out = plain(&render_roll_call(&rows));
    assert!(out.contains("  [OK] sensor       sahou=0.0.2  generation=match\n"), "{out}");
    assert!(out.contains("  [NG] visuals      no vitals (not started / unreachable from here)\n"), "{out}");
}

#[test]
fn roll_call_detects_generation_drift_and_duplicates() {
    let d = desc();
    let mut other = desc();
    other.connections[1].1.hash = "ffffffffffffffff".into();
    let mut s = sweep_with(&d, &["visuals"]);
    let k = vitals_key(&d, "sensor");
    s.vitals.push((k.clone(), Ok(vitals_payload(&other, "sensor", Ok(info())).unwrap())));
    s.vitals.push((k, Ok(vitals_payload(&other, "sensor", Ok(info())).unwrap())));
    let rows = roll_call(&d, &s);
    let sensor = rows.iter().find(|r| r.node == "sensor").unwrap();
    assert!(matches!(sensor.present, Some(Presence::VitalsReply)));
    assert_eq!(sensor.generation, Generation::Drift("touch".into()));
    assert_eq!(sensor.notes[0], "2 instances answered vitals (double-started node?)");
    let out = plain(&render_roll_call(&rows));
    assert!(out.contains("generation=DRIFT(touch) (presence via vitals reply; no liveliness token)"), "{out}");
    assert!(lan_verdict(&rows).is_ok());
}

#[test]
fn roll_call_surfaces_blocked_handshakes_and_unreadable_vitals() {
    let d = desc();
    let mut i = info();
    i.handshake = vec![("touch".into(), vec![("deadbeef00000000".into(), "blocked".into()), ("cafe".into(), "accepted".into())])];
    let k = vitals_key(&d, "visuals");
    let bad: Result<Vitals, Vec<Diag>> = Err(vec![Diag::new("vitals_format_unsupported", "$.vitals_format".into(), "too new".into())]);
    let s = LanSweep {
        token_keys: vec![],
        vitals: vec![(k, Ok(vitals_payload(&d, "visuals", Ok(i)).unwrap())), (vitals_key(&d, "sensor"), bad)],
    };
    let rows = roll_call(&d, &s);
    let v = rows.iter().find(|r| r.node == "visuals").unwrap();
    assert_eq!(v.notes, vec!["blocking sender deadbeef00000000 on touch".to_string()]);
    let sensor = rows.iter().find(|r| r.node == "sensor").unwrap();
    assert!(matches!(sensor.generation, Generation::Unknown));
    assert_eq!(sensor.notes, vec!["[vitals_format_unsupported] too new".to_string()]);
    let out = plain(&render_roll_call(&rows));
    assert!(out.contains("       - blocking sender deadbeef00000000 on touch\n"), "{out}");
    assert!(out.contains("sahou=?"), "{out}");
}

#[test]
fn discovery_lists_each_node_key_once_in_order() {
    let lines = discovery_lines(
        &vec!["ns2/@sahou/vitals/b".into(), "ns/@sahou/vitals/a".into()],
        &vec!["ns/@sahou/vitals/a".into(), "other/key".into()],
    );
    assert_eq!(
        lines,
        vec!["  [OK] a            (namespace ns)".to_string(), "  [OK] b            (namespace ns2)".to_string()]
    );
}

#[test]
fn vitals_report_roles_and_runtime() {
    let d = desc();
    assert_eq!(vitals_key(&d, "sensor"), "sahou/@sahou/vitals/sensor");
    let v = vitals_payload(&d, "sensor", Ok(info())).unwrap();
    assert_eq!(v.vitals_format, 1);
    assert_eq!(
        v.connections,
        vec![
            ("get_state".to_string(), VitalsConn { role: "to".into(), hash: "2222222222222222".into() }),
            ("touch".to_string(), VitalsConn { role: "from".into(), hash: "1111111111111111".into() }),
        ]
    );
    assert_eq!(v.runtime, VitalsRuntime { lang: "rust".into(), sahou: "0.0.2".into(), zenoh: None, transport: "native".into() });
    assert_eq!(vitals_payload(&d, "ghost", Ok(info())).unwrap_err()[0].code, "unknown_node");
    let e = vitals_payload(&d, "sensor", Err("expected value".into())).unwrap_err();
    assert_eq!(e[0].code, "vitals_bad_runtime_info");
    assert_eq!(e[0].message, "the runtime info is not valid: expected value");
}

fn obj(entries: Vec<(&str, Json)>) -> Json {
    Json::Object(entries.into_iter().map(|(k, v)| (k.to_string(), v)).collect())
}

#[test]
fn vitals_format_gate() {
    let d = desc();
    let rec = vitals_payload(&d, "sensor", Ok(info())).unwrap();
    let ok = parse_vitals(Ok(obj(vec![("vitals_format", num(1))])), Ok(rec.clone())).unwrap();
    assert_eq!(ok, rec);
    let e = parse_vitals(Ok(obj(vec![("vitals_format", num(2))])), Ok(rec.clone())).unwrap_err();
    assert_eq!(e[0].code, "vitals_format_unsupported");
    assert!(e[0].message.contains("upgrade"), "{}", e[0].message);
    let e = parse_vitals(Ok(obj(vec![("vitals_format", num(0))])), Ok(rec.clone())).unwrap_err();
    assert_eq!(e[0].message, "unsupported vitals format 0 (this sahou reads format 1)");
    let e = parse_vitals(Ok(obj(vec![("vitals_format", Json::Str("1".into()))])), Ok(rec.clone())).unwrap_err();
    assert_eq!(e[0].code, "vitals_unreadable");
    assert_eq!(e[0].message, "vitals_format must be an unsigned integer (got \"1\")");
    let e = parse_vitals(Ok(obj(vec![("hello", Json::Str("world".into()))])), Ok(rec.clone())).unwrap_err();
    assert_eq!(e[0].path, "$.vitals_format");
    let e = parse_vitals(Err("key must be a string".into()), Ok(rec.clone())).unwrap_err();
    assert_eq!(e[0].message, "not valid JSON: key must be a string");
    let e = parse_vitals(Ok(obj(vec![("vitals_format", num(1))])), Err("missing field `node`".into())).unwrap_err();
    assert_eq!(e[0].message, "cannot parse vitals: missing field `node`");
}

#[test]
fn json_text_is_compact_and_escaped() {
    let v = obj(vec![
        ("a", Json::Array(vec![num(1), Json::Bool(true), Json::Null])),
        ("s", Json::Str("q\"b\\n\n\u{1}".into())),
    ]);
    assert_eq!(json_string(&v), "{\"a\":[1,true,null],\"s\":\"q\\\"b\\\\n\\n\\u0001\"}");
    assert_eq!(json_string(&Json::Array(vec![])), "[]");
}

#[test]
fn watch_targets_follow_subscriptions_or_first_receivers() {
    let d = desc();
    assert_eq!(watch_targets(&d, Some("visuals")).unwrap(), vec![("touch".to_string(), "visuals".to_string())]);
    let e = watch_targets(&d, Some("sensor")).unwrap_err();
    assert_eq!(e[0].code, "tap_error");
    assert_eq!(e[0].path, "nodes.sensor");
    assert_eq!(watch_targets(&d, Some("ghost")).unwrap_err()[0].code, "unknown_node");
    assert_eq!(watch_targets(&d, None).unwrap(), vec![("touch".to_string(), "visuals".to_string())]);
    let mut empty_to = desc();
    empty_to.connections[1].1.to = vec![];
    let e = watch_targets(&empty_to, None).unwrap_err();
    assert_eq!(e[0].code, "no_receiver");
    let mut no_pub = desc();
    no_pub.connections.remove(1);
    assert_eq!(watch_targets(&no_pub, None).unwrap_err()[0].path, "connections");
}

#[test]
fn event_lines_are_aligned() {
    let targets = vec![("touch".to_string(), "v".to_string()), ("é".to_string(), "v".to_string())];
    assert_eq!(conn_width(&targets), 5);
    assert_eq!(content_indent(5).len(), 18);
    let ok = plain(&format_event("touch", 6, 3, &AcceptOutcome::Accept { payload: obj(vec![("x", num(1))]) }));
    assert_eq!(ok, " OK  touch   #3    {\"x\":1}");
    let diags = vec![
        Diag::new("type_mismatch", "$.x".into(), "expected float".into()),
        Diag::new("required", "$.y".into(), "missing".into()),
    ];
    let no = plain(&format_event("touch", 5, 10, &AcceptOutcome::Reject { diags }));
    assert_eq!(no, " NO  touch  #10   type_mismatch @$.x: expected float\n                  required @$.y: missing");
    let hm = plain(&format_event("t", 1, 0, &AcceptOutcome::HashMismatch { sender_hash: "abcd".into() }));
    assert!(hm.ends_with("hash_mismatch — sender contract generation differs (abcd)"), "{hm}");
    assert_eq!(plain(&styled_diag(&Diag::new("c", "p".into(), "m".into()))), "c @p: m");
}

fn contract_conn(key: Option<&str>) -> Connection {
    Connection {
        pattern: Pattern::PubSub,
        from: "a".into(),
        to: vec!["b".into()],
        key: key.map(|k| k.to_string()),
        selector: None,
        reliability: Reliability::Reliable,
        congestion: Congestion::Block,
        priority: Priority::Data,
        express: false,
        encoding: Encoding::Json,
        validate: ValidateLevel::Full,
        payload: None,
        request: None,
        response: None,
    }
}

#[test]
fn keys_hashes_and_the_descriptor() {
    assert_eq!(resolve_key("ns", "touch", &contract_conn(None)), "ns/touch");
    assert_eq!(resolve_key("ns", "touch", &contract_conn(Some("custom/k"))), "custom/k");
    assert_eq!(connection_hash(b""), "e3b0c44298fc1c14");
    assert_eq!(connection_hash(b"abc"), "ba7816bf8f01cfea");
    let c = Contract {
        schema: "s".into(),
        version: "1".into(),
        nodes: vec![("a".into(), Node { kind: NodeKind::Sahou })],
        connections: vec![("touch".into(), contract_conn(None)), ("x".into(), contract_conn(Some("k/x")))],
    };
    let e = Endpoints::default();
    assert_eq!(e.namespace, "sahou");
    let d = build_descriptor(c, &e, &vec![b"".to_vec(), b"abc".to_vec()]);
    assert_eq!(d.namespace, "sahou");
    assert_eq!(d.connections[0].0, "touch");
    assert_eq!(d.connections[0].1.key, "sahou/touch");
    assert_eq!(d.connections[0].1.hash, "e3b0c44298fc1c14");
    assert_eq!(d.connections[1].1.key, "k/x");
    assert_eq!(d.connections[1].1.hash, "ba7816bf8f01cfea");
    assert_eq!(NodeEndpoint::default(), NodeEndpoint { mode: Mode::Auto, connect: vec![] });
}

#[test]
fn probe_sequence_follows_the_sweeps() {
    // nobody on the normal sweep, an explicit endpoint given: probe it alone
    let (st, a) = probe_step(ProbeStage::Normal, true, true, ProbeEvent::Swept(0));
    assert_eq!(st, ProbeStage::DirectOnly);
    assert!(matches!(a, ProbeAction::SweepDirect));
    let (st, a) = probe_step(st, true, true, ProbeEvent::Swept(2));
    assert_eq!(st, ProbeStage::Done);
    match a {
        ProbeAction::Print(lines) => assert_eq!(lines, vec![classify_probe(0, Some(2), true)]),
        other => panic!("{other:?}"),
    }
    // a direct session that cannot be opened counts as nobody
    let (_, a) = probe_step(ProbeStage::DirectOnly, true, false, ProbeEvent::NoSession);
    match a {
        ProbeAction::Print(lines) => assert_eq!(lines, vec![classify_probe(0, Some(0), false)]),
        other => panic!("{other:?}"),
    }
    // found via the endpoint, but multicast alone finds nobody: warn
    let (st, a) = probe_step(ProbeStage::Normal, true, true, ProbeEvent::Swept(3));
    assert_eq!(st, ProbeStage::MulticastOnly { found: 3 });
    assert!(matches!(a, ProbeAction::SweepMulticastOnly));
    let (st, a) = probe_step(st, true, true, ProbeEvent::Swept(0));
    assert_eq!(st, ProbeStage::Done);
    match a {
        ProbeAction::Print(lines) => {
            assert_eq!(lines[0], "warning: the roll call succeeded only via the explicit endpoint:");
            assert_eq!(lines[1], classify_probe(0, Some(3), true));
        }
        other => panic!("{other:?}"),
    }
    // nobody and no endpoint: the verdict right away
    let (st, a) = probe_step(ProbeStage::Normal, false, true, ProbeEvent::Swept(0));
    assert_eq!(st, ProbeStage::Done);
    assert!(matches!(a, ProbeAction::Print(_)));
    let (st, a) = probe_step(ProbeStage::Normal, false, true, ProbeEvent::Swept(4));
    assert_eq!(st, ProbeStage::Done);
    assert!(matches!(a, ProbeAction::Stop));
}

#[test]
fn a_mismatch_is_explained_once_and_a_failed_fetch_stays_retryable() {
    let mut e = Explained::new();
    assert!(e.needs_explaining("touch", "aaaaaaaaaaaaaaaa"));
    // the fetch failed: nothing recorded, so the next mismatch tries again
    assert!(e.needs_explaining("touch", "aaaaaaaaaaaaaaaa"));
    e.record("touch", "aaaaaaaaaaaaaaaa");
    assert!(!e.needs_explaining("touch", "aaaaaaaaaaaaaaaa"));
    assert!(e.needs_explaining("touch", "bbbbbbbbbbbbbbbb"));
    assert!(e.needs_explaining("points", "aaaaaaaaaaaaaaaa"));
    e.record("touch", "aaaaaaaaaaaaaaaa");
    assert!(!e.needs_explaining("touch", "aaaaaaaaaaaaaaaa"));
}
