use sahou_core::diag::Diag;
use sahou_core::doctor_lan::{render_roll_call, roll_call, Generation, LanSweep, Presence};
use sahou_core::endpoints::Endpoints;
use sahou_core::init::resolve_name;
use sahou_core::ir::build_descriptor;
use sahou_core::model::{
    Congestion, Connection, Contract, Descriptor, DescriptorConnection, DetailedType, Encoding, Field, Float, Json,
    Node, NodeKind, Number, Pattern, Priority, Reliability, Slot, SlotKind, TypeName, TypeSpec, Typing,
    ValidateLevel,
};
use sahou_core::runtime::{accept_request, accept_sample, AcceptOutcome};
use sahou_core::style::{heading, labeled_block, paint, Status, Tone};
use sahou_core::tap::{
    build_send, explain_mismatch, format_event, no_response_line, render_watch_header, reply_err_line, send_hint,
    watch_targets,
};
use sahou_core::doctor::{link_ws_line, loopback_line, ping_line, report_line, scout_line};
use sahou_core::vitals::{parse_vitals, vitals_key, vitals_payload, VitalsRuntimeInfo};

/// The text without its terminal escape sequences.
fn plain(s: &str) -> String {
    let mut out = String::new();
    let mut in_esc = false;
    for c in s.chars() {
        if in_esc {
            if c == 'm' {
                in_esc = false;
            }
        } else if c == '\u{1b}' {
            in_esc = true;
        } else {
            out.push(c);
        }
    }
    out
}

// ---------------------------------------------------------------- the demo installation

fn float(x: f64) -> Float {
    Float { bits: x.to_bits(), text: x.to_string() }
}

fn whole(x: i64) -> Json {
    Json::Number(Number {
        int: Some(x),
        uint: if x >= 0 { Some(x as u64) } else { None },
        real: float(x as f64),
        text: x.to_string(),
        real_json: format!("{x}.0"),
    })
}

fn s(x: &str) -> Json {
    Json::Str(x.into())
}

fn obj(entries: Vec<(&str, Json)>) -> Json {
    let mut es: Vec<(String, Json)> = entries.into_iter().map(|(k, v)| (k.to_string(), v)).collect();
    es.sort_by(|a, b| a.0.cmp(&b.0));
    Json::Object(es)
}

fn field(name: &str, ty: TypeName) -> Field {
    Field {
        name: name.into(),
        ty,
        required: true,
        default: None,
        min: None,
        max: None,
        max_len: None,
        values: vec![],
        items: None,
        any_of: vec![],
        fields: vec![],
    }
}

fn typed(fields: Vec<Field>) -> Slot {
    Slot { typing: Typing::Typed, kind: SlotKind::Record, fields, encoding: None }
}

fn conn(pattern: Pattern, to: &[&str]) -> Connection {
    Connection {
        pattern,
        from: "sensor".into(),
        to: to.iter().map(|s| s.to_string()).collect(),
        key: None,
        selector: None,
        reliability: Reliability::Reliable,
        congestion: Congestion::Block,
        priority: Priority::Data,
        express: false,
        encoding: Encoding::Json,
        validate: ValidateLevel::Full,
        payload: None,
        request: None,
        response: None,
    }
}

#[derive(Clone, Copy, PartialEq)]
enum Variant {
    Base,
    /// touch gains an optional `pressure`
    Additive,
    /// touch.x becomes a string
    Breaking,
    /// get_state's response `level` becomes a float
    Promoted,
}

fn demo_with(v: Variant) -> Contract {
    let x = if v == Variant::Breaking {
        field("x", TypeName::String)
    } else {
        let mut x = field("x", TypeName::Float);
        x.min = Some(float(0.0));
        x.max = Some(float(1.0));
        x
    };
    let mut phase = field("phase", TypeName::Enum);
    phase.values = vec!["down".into(), "move".into(), "up".into()];
    let mut source = field("source", TypeName::String);
    source.required = false;
    let mut meta = field("meta", TypeName::Group);
    meta.fields = vec![field("ts", TypeName::Timestamp), source];
    let mut touch_fields = vec![x, phase];
    if v == Variant::Additive {
        let mut pressure = field("pressure", TypeName::Float);
        pressure.required = false;
        touch_fields.push(pressure);
    }
    touch_fields.push(meta);
    let inner = DetailedType {
        ty: TypeName::Array,
        items: Some(TypeSpec::Name(TypeName::Float)),
        values: vec![],
        any_of: vec![],
        fields: vec![],
        min: None,
        max: None,
        max_len: None,
    };
    let mut pts = field("pts", TypeName::Array);
    pts.items = Some(TypeSpec::Detailed(Box::new(inner)));
    let mut sel = field("sel", TypeName::String);
    sel.max_len = Some(64);
    let level = field("level", if v == Variant::Promoted { TypeName::Float } else { TypeName::Int });

    let mut touch = conn(Pattern::PubSub, &["visuals", "archive"]);
    touch.payload = Some(typed(touch_fields));
    let mut points = conn(Pattern::PubSub, &["visuals"]);
    points.payload = Some(typed(vec![pts]));
    points.validate = ValidateLevel::Sampled;
    let mut debug_tap = conn(Pattern::PubSub, &["visuals"]);
    debug_tap.payload = Some(Slot { typing: Typing::Any, kind: SlotKind::Record, fields: vec![], encoding: None });
    let mut get_state = conn(Pattern::Query, &["archive"]);
    get_state.request = Some(typed(vec![sel]));
    get_state.response = Some(typed(vec![level]));
    Contract {
        schema: "demo_installation".into(),
        version: "0.1.0".into(),
        nodes: ["archive", "sensor", "visuals"].iter().map(|n| (n.to_string(), Node { kind: NodeKind::Sahou })).collect(),
        connections: vec![
            ("debug_tap".into(), debug_tap),
            ("get_state".into(), get_state),
            ("points".into(), points),
            ("touch".into(), touch),
        ],
    }
}

fn demo() -> Contract {
    demo_with(Variant::Base)
}

/// The canonical encoding of a connection that its fingerprint is taken over.
fn canonical(c: &Connection) -> Vec<u8> {
    format!("{c:?}").into_bytes()
}

fn descriptor(c: Contract, e: &Endpoints) -> Descriptor {
    let canon: Vec<Vec<u8>> = c.connections.iter().map(|(_, conn)| canonical(conn)).collect();
    build_descriptor(c, e, &canon)
}

fn desc_of(v: Variant) -> Descriptor {
    descriptor(demo_with(v), &Endpoints::default())
}

fn desc() -> Descriptor {
    desc_of(Variant::Base)
}

fn get<'a>(d: &'a Descriptor, id: &str) -> &'a DescriptorConnection {
    &d.connections.iter().find(|(k, _)| k == id).unwrap().1
}

/// The connection's fragment as the contract queryable hands it out.
fn fragment(d: Descriptor, id: &str) -> DescriptorConnection {
    d.connections.into_iter().find(|(k, _)| k == id).unwrap().1
}


fn fraction(x: f64) -> Json {
    Json::Number(Number { int: None, uint: None, real: float(x), text: x.to_string(), real_json: x.to_string() })
}

/// A valid touch sample, as the sample generator writes one.
fn touch_sample() -> Json {
    obj(vec![
        ("x", whole(0)),
        ("phase", s("down")),
        ("meta", obj(vec![("ts", whole(0)), ("source", s(""))])),
    ])
}

// ---------------------------------------------------------------- tap: send

#[test]
fn build_send_sample_passes_core_receive_boundary() {
    let d = desc();
    let plan = build_send(&d, "touch", None, Some(touch_sample())).unwrap();
    assert_eq!(plan.pattern, Pattern::PubSub);
    assert_eq!(plan.msg.attachment, get(&d, "touch").hash);
    // the sample passes the receive boundary
    let out = accept_sample(&d, "visuals", "touch", Ok(plan.msg.value), Some(&plan.msg.attachment), 0, None);
    assert!(matches!(out, AcceptOutcome::Accept { .. }), "{out:?}");
}

#[test]
fn build_send_query_uses_request_boundary() {
    let d = desc();
    let plan = build_send(&d, "get_state", None, Some(obj(vec![("sel", s(""))]))).unwrap();
    assert_eq!(plan.pattern, Pattern::Query);
    let out = accept_request(&d, "archive", "get_state", Ok(plan.msg.value), Some(&plan.msg.attachment), 0, None);
    assert!(matches!(out, AcceptOutcome::Accept { .. }), "{out:?}");
}

#[test]
fn build_send_returns_sender_vantage_from_descriptor() {
    let d = desc();
    let plan = build_send(&d, "get_state", None, Some(obj(vec![("sel", s(""))]))).unwrap();
    assert_eq!(plan.pattern, Pattern::Query);
    assert_eq!(plan.from, "sensor"); // the requester is the connection's from
    let plan2 = build_send(&d, "touch", None, Some(touch_sample())).unwrap();
    assert_eq!(plan2.from, "sensor");
}

#[test]
fn build_send_requires_exactly_one_payload_source() {
    let d = desc();
    assert_eq!(build_send(&d, "touch", None, None).unwrap_err()[0].code, "tap_error");
    assert_eq!(
        build_send(&d, "touch", Some(Ok(obj(vec![]))), Some(touch_sample())).unwrap_err()[0].code,
        "tap_error"
    );
}

#[test]
fn build_send_broken_payload_is_core_send_boundary_no() {
    let d = desc();
    let broken = obj(vec![("x", s("oops")), ("phase", s("move")), ("meta", obj(vec![("ts", whole(0))]))]);
    let err = build_send(&d, "touch", Some(Ok(broken)), None).unwrap_err();
    assert_eq!(err[0].code, "type_mismatch"); // the send boundary's own diagnostic
}

#[test]
fn build_send_unknown_connection_is_core_diag() {
    let err = build_send(&desc(), "ghost", None, Some(obj(vec![]))).unwrap_err();
    assert_eq!(err[0].code, "unknown_connection");
}

// ---------------------------------------------------------------- tap: watch

#[test]
fn watch_targets_for_node_uses_its_subscriptions() {
    let t = watch_targets(&desc(), Some("visuals")).unwrap();
    // visuals receives touch / points / debug_tap; a query cannot be observed by subscribing
    assert!(t.contains(&("touch".into(), "visuals".into())));
    assert!(t.contains(&("points".into(), "visuals".into())));
    assert!(t.iter().all(|(c, _)| c != "get_state"));
}

#[test]
fn watch_targets_without_node_covers_all_pubsub_from_first_receiver() {
    let t = watch_targets(&desc(), None).unwrap();
    assert!(t.contains(&("touch".into(), "visuals".into()))); // the to[0] vantage
    assert!(t.iter().all(|(c, _)| c != "get_state"));
    assert_eq!(t.len(), 3); // touch / points / debug_tap
}

#[test]
fn watch_targets_empty_to_is_structured_no_not_panic() {
    let mut d = desc();
    d.connections.iter_mut().find(|(k, _)| k == "touch").unwrap().1.to = vec![];
    let err = watch_targets(&d, None).unwrap_err();
    assert_eq!(err[0].code, "no_receiver");
    assert!(err[0].path.contains("touch"));
}

#[test]
fn watch_targets_unknown_node_is_core_diag() {
    let err = watch_targets(&desc(), Some("ghost")).unwrap_err();
    assert_eq!(err[0].code, "unknown_node");
}

#[test]
fn format_event_renders_core_outcomes() {
    let ok = AcceptOutcome::Accept { payload: obj(vec![("x", fraction(0.5))]) };
    let line = plain(&format_event("touch", 6, 3, &ok));
    assert!(line.starts_with(" OK  touch"), "{line}");
    assert!(line.contains("#3"), "{line}");
    assert!(line.ends_with(r#"{"x":0.5}"#), "{line}");

    let ng = AcceptOutcome::Reject {
        diags: vec![
            Diag::new("type_mismatch", "x".into(), "expected float".into()),
            Diag::new("range", "y".into(), "1.4 exceeds max 1".into()),
        ],
    };
    let text = plain(&format_event("touch", 6, 4, &ng));
    let lines: Vec<&str> = text.lines().collect();
    assert!(lines[0].starts_with(" NO  touch"), "{text}");
    assert!(lines[0].contains("type_mismatch @x: expected float"), "{text}");
    // the second diagnostic hangs on an indented continuation line
    assert!(lines[1].starts_with("    "), "{text}");
    assert!(lines[1].trim_start().starts_with("range @y: 1.4 exceeds max 1"), "{text}");

    let hm = AcceptOutcome::HashMismatch { sender_hash: "deadbeef00000000".into() };
    let line = plain(&format_event("touch", 6, 5, &hm));
    assert!(line.starts_with(" NO  touch"), "{line}");
    assert!(line.contains("hash_mismatch — sender contract generation differs (deadbeef00000000)"), "{line}");
}

#[test]
fn watch_header_lists_conn_key_vantage_once() {
    let d = desc();
    let targets = watch_targets(&d, Some("visuals")).unwrap();
    let h = plain(&render_watch_header(&d, &targets));
    assert!(h.contains("watching 3 connection(s)"), "{h}");
    assert!(h.contains("touch"), "{h}");
    assert!(h.contains("→ sahou/touch"), "{h}");
    assert!(h.contains("as visuals"), "{h}");
}

// ---------------------------------------------------------------- tap: why NO

#[test]
fn explain_mismatch_additive_is_accepted_not_an_anomaly() {
    let base = desc();
    let additive = desc_of(Variant::Additive);
    let sender = get(&additive, "touch").hash.clone();
    let line = plain(&explain_mismatch(&base, "touch", 5, &sender, Ok(fragment(additive, "touch"))));
    assert!(line.contains("handshake: accepted"), "{line}");
    assert!(line.contains("additive-compatible"), "{line}");
    assert!(line.contains("judged vs the descriptor tap loaded"), "{line}");
}

#[test]
fn explain_mismatch_breaking_is_blocked_with_structured_diag() {
    let base = desc();
    let breaking = desc_of(Variant::Breaking);
    let sender = get(&breaking, "touch").hash.clone();
    let line = plain(&explain_mismatch(&base, "touch", 5, &sender, Ok(fragment(breaking, "touch"))));
    assert!(line.contains("handshake: blocked"), "{line}");
    assert!(line.contains("schema_incompatible"), "{line}");
    assert!(line.contains("touch"), "{line}");
    assert!(line.contains("judged vs the descriptor tap loaded"), "{line}");
}

#[test]
fn explain_mismatch_promotion_is_blocked_conservatively() {
    let base = desc();
    let promoted = desc_of(Variant::Promoted);
    let sender = get(&promoted, "get_state").hash.clone();
    let line = plain(&explain_mismatch(&base, "get_state", 9, &sender, Ok(fragment(promoted, "get_state"))));
    assert!(line.contains("handshake: blocked"), "{line}");
    assert!(line.contains("conservatively NO"), "{line}");
}

#[test]
fn explain_mismatch_malformed_fragment_is_unreachable() {
    let base = desc();
    let malformed = Err(("$".to_string(), "key must be a string at line 1 column 2".to_string()));
    let line = plain(&explain_mismatch(&base, "touch", 5, "deadbeef00000000", malformed));
    assert!(line.contains("handshake: unreachable"), "{line}");
    assert!(line.contains("contract_unreachable"), "{line}");
}

#[test]
fn explain_mismatch_self_reported_hash_mismatch_is_unreachable() {
    let base = desc();
    let line = plain(&explain_mismatch(&base, "touch", 5, "0000000000000000", Ok(fragment(desc(), "touch"))));
    assert!(line.contains("handshake: unreachable"), "{line}");
    assert!(line.contains("does not match"), "{line}");
}

// ---------------------------------------------------------------- LAN roll call

fn info(handshake: Vec<(String, Vec<(String, String)>)>) -> VitalsRuntimeInfo {
    VitalsRuntimeInfo {
        lang: "rust".into(),
        sahou: "0.0.2".into(),
        zenoh: None,
        transport: "native".into(),
        uptime_secs: 0,
        handshake,
    }
}

fn sweep_with(d: &Descriptor, nodes: &[&str]) -> LanSweep {
    let mut sweep = LanSweep { token_keys: vec![], vitals: vec![] };
    for n in nodes {
        let k = vitals_key(d, n);
        sweep.token_keys.push(k.clone());
        sweep.vitals.push((k, Ok(vitals_payload(d, n, Ok(info(vec![]))).unwrap())));
    }
    sweep
}

#[test]
fn roll_call_detects_generation_drift() {
    let d = desc();
    // a sender running a breaking variant: touch.x float -> string
    let breaking = desc_of(Variant::Breaking);
    let k = vitals_key(&d, "sensor");
    let sweep = LanSweep {
        token_keys: vec![k.clone()],
        vitals: vec![(k, Ok(vitals_payload(&breaking, "sensor", Ok(info(vec![]))).unwrap()))],
    };
    let rows = roll_call(&d, &sweep);
    let sensor = rows.iter().find(|r| r.node == "sensor").unwrap();
    match &sensor.generation {
        Generation::Drift(detail) => assert!(detail.contains("touch"), "{detail}"),
        other => panic!("expected Drift: {other:?}"),
    }
}

#[test]
fn roll_call_counts_duplicate_instances_via_vitals_replies() {
    let d = desc();
    let mut sweep = sweep_with(&d, &["sensor"]);
    // a second instance answers the same node key (tokens would aggregate; replies do not)
    let k = vitals_key(&d, "sensor");
    sweep.vitals.push((k, Ok(vitals_payload(&d, "sensor", Ok(info(vec![]))).unwrap())));
    let rows = roll_call(&d, &sweep);
    let sensor = rows.iter().find(|r| r.node == "sensor").unwrap();
    assert!(sensor.notes.iter().any(|n| n.contains("2 instances")), "{:?}", sensor.notes);
}

#[test]
fn roll_call_surfaces_blocked_handshakes_and_fallback_presence() {
    let d = desc();
    let blocked = vec![("touch".to_string(), vec![("deadbeef00000000".to_string(), "blocked".to_string())])];
    let k = vitals_key(&d, "visuals");
    // a vitals reply but no token: fallback presence, labelled
    let sweep = LanSweep { token_keys: vec![], vitals: vec![(k, Ok(vitals_payload(&d, "visuals", Ok(info(blocked))).unwrap()))] };
    let rows = roll_call(&d, &sweep);
    let v = rows.iter().find(|r| r.node == "visuals").unwrap();
    assert!(matches!(v.present, Some(Presence::VitalsReply)));
    assert!(v.notes.iter().any(|n| n.contains("blocking") && n.contains("touch")), "{:?}", v.notes);
}

#[test]
fn roll_call_reports_unreadable_vitals_as_a_note_not_a_crash() {
    let d = desc();
    let k = format!("{}/@sahou/vitals/sensor", d.namespace);
    let unreadable = parse_vitals(Ok(obj(vec![("vitals_format", whole(99))])), Err("missing field `node`".into()));
    let sweep = LanSweep { token_keys: vec![k.clone()], vitals: vec![(k, unreadable)] };
    let rows = roll_call(&d, &sweep);
    let sensor = rows.iter().find(|r| r.node == "sensor").unwrap();
    assert!(matches!(sensor.generation, Generation::Unknown));
    assert!(sensor.notes.iter().any(|n| n.contains("vitals_format_unsupported")), "{:?}", sensor.notes);
}

#[test]
fn render_marks_missing_with_ng_and_present_with_ok() {
    let d = desc();
    let out = render_roll_call(&roll_call(&d, &sweep_with(&d, &["sensor"])));
    assert!(out.contains("[OK] sensor"), "{out}");
    assert!(out.contains("[NG] visuals"), "{out}");
    assert!(out.contains("not started / unreachable from here"), "{out}");
}

// ---------------------------------------------------------------- styling

#[test]
fn paint_embeds_codes_and_strips_back_to_plain() {
    let styled = paint(Tone::Good, "hello");
    assert_ne!(styled, "hello"); // escape codes are embedded unconditionally
    assert_eq!(plain(&styled), "hello");
}

#[test]
fn status_glyphs_render_one_column() {
    assert_eq!(plain(&Status::Good.glyph()), "✓");
    assert_eq!(plain(&Status::Bad.glyph()), "✗");
    assert_eq!(plain(&Status::Skip.glyph()), "–");
    assert_eq!(plain(&Status::Warn.glyph()), "!");
}

#[test]
fn heading_joins_title_and_meta() {
    assert_eq!(plain(&heading("tap", "· watching 3")), "tap · watching 3");
}

#[test]
fn labeled_block_hangs_continuation_lines() {
    let b = labeled_block("fix", Tone::Action, &vec!["1. first".into(), "2. second".into()]);
    assert_eq!(plain(&b), "  fix       1. first\n            2. second\n");
}

#[test]
fn labeled_block_fits_the_longest_label() {
    let b = labeled_block("captured", Tone::Meta, &vec!["evidence".into()]);
    assert_eq!(plain(&b), "  captured  evidence\n");
}

// ---------------------------------------------------------------- init

#[test]
fn resolve_name_falls_back_when_explicit_name_invalid() {
    assert_eq!(resolve_name(Some("  "), Some("tmpdir")), "sahou_project");
}

#[test]
fn resolve_name_uses_dir_basename_when_omitted() {
    assert_eq!(resolve_name(None, Some("my_install")), "my_install");
}

#[test]
fn reply_error_line_keeps_the_event_columns() {
    let diags = vec![
        Diag::new("wrong_type", "$.x".to_string(), "expected integer".to_string()),
        Diag::new("missing_field", "$.y".to_string(), "required".to_string()),
    ];
    let line = reply_err_line("ping", 6, &diags);
    assert_eq!(
        plain(&line),
        " NO  ping          reply_err wrong_type @$.x: expected integer; missing_field @$.y: required"
    );
    assert!(line.starts_with("\u{1b}[1m\u{1b}[31m NO \u{1b}[0m"));
}

#[test]
fn no_response_and_send_hint_lines() {
    assert_eq!(
        plain(&no_response_line()),
        "! no response (timeout 2s; the responder is absent or the route has not converged)"
    );
    assert!(no_response_line().starts_with("\u{1b}[33m!\u{1b}[0m "));
    let hint = send_hint();
    assert_eq!(
        plain(&hint),
        "  hint      tap --send does not handshake; run tap watch on this connection to fetch the sender's contract and explain the mismatch\n"
    );
    assert!(hint.starts_with("  \u{1b}[36mhint     \u{1b}[0m "));
}

#[test]
fn preflight_probe_lines() {
    assert_eq!(plain(&report_line("abc", Status::Good, "note")), "  ✓ abc          note");
    assert_eq!(plain(&loopback_line(true)), "  ✓ loopback UDP socket layer sanity");
    assert_eq!(plain(&loopback_line(false)), "  ✗ loopback UDP socket layer sanity");
    assert_eq!(plain(&ping_line(Some("192.168.1.1"), true)), "  ✓ LAN ping     gateway 192.168.1.1");
    assert_eq!(plain(&ping_line(Some("10.0.0.1"), false)), "  ✗ LAN ping     gateway 10.0.0.1");
    assert_eq!(plain(&ping_line(None, true)), "  – LAN ping     default gateway unknown (skipped)");
    assert_eq!(plain(&scout_line(true, 3)), "  ✓ zenoh scout  LAN egress OK · peers discovered: 3");
    assert_eq!(plain(&scout_line(false, 0)), "  ✗ zenoh scout  LAN egress failed · peers discovered: 0");
    assert_eq!(plain(&link_ws_line(true, 7447)), "  ✓ link WS      :7447 running");
    assert_eq!(
        plain(&link_ws_line(false, 7447)),
        "  – link WS      :7447 not running (informational — the engine spawns it)"
    );
}
