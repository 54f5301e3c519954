use sahou_core::compat::{changed_connections, classify, handshake, is_compatible, ChangeKind};
use sahou_core::model::{
    Congestion, Connection, Contract, DetailedType, Descriptor, DescriptorConnection, Encoding, Field,
    Float, Json, Node, NodeKind, Number, Pattern, Priority, Reliability, Slot, SlotKind, TypeName,
    TypeSpec, Typing, ValidateLevel,
};
use sahou_core::payload::{validate_json, validate_payload};
use sahou_core::runtime::{
    accept_sample, connections_from, node_plan, prepare_publish, publishing_nodes, AcceptOutcome,
};

// ---------------------------------------------------------------- values

fn float(x: f64) -> Float {
    Float { bits: x.to_bits(), text: x.to_string() }
}

fn num(x: f64) -> Json {
    let is_int = x.fract() == 0.0 && x.abs() < 9.0e15;
    Json::Number(Number {
        int: if is_int { Some(x as i64) } else { None },
        uint: if is_int && x >= 0.0 { Some(x as u64) } else { None },
        real: float(x),
        text: if is_int { (x as i64).to_string() } else { x.to_string() },
        real_json: if is_int { format!("{}.0", x as i64) } else { x.to_string() },
    })
}

fn s(x: &str) -> Json {
    Json::Str(x.to_string())
}

fn obj(entries: Vec<(&str, Json)>) -> Json {
    let mut es: Vec<(String, Json)> = entries.into_iter().map(|(k, v)| (k.to_string(), v)).collect();
    es.sort_by(|a, b| a.0.cmp(&b.0));
    Json::Object(es)
}

fn arr(items: Vec<Json>) -> Json {
    Json::Array(items)
}

fn field(name: &str, ty: TypeName) -> Field {
    Field {
        name: name.into(),
        ty,
        required: true,
        default: None,
        min: None,
        max: None,
        max_len: None,
        values: vec![],
        items: None,
        any_of: vec![],
        fields: vec![],
    }
}

fn slot(fields: Vec<Field>) -> Slot {
    Slot { typing: Typing::Typed, kind: SlotKind::Record, fields, encoding: None }
}

fn any_slot() -> Slot {
    Slot { typing: Typing::Any, kind: SlotKind::Record, fields: vec![], encoding: None }
}

fn codes(diags: &[sahou_core::diag::Diag]) -> Vec<(String, String)> {
    diags.iter().map(|d| (d.code.clone(), d.path.clone())).collect()
}

// ---------------------------------------------------------------- payload

#[test]
fn point_cloud_nested_array_path() {
    let mut pts = field("pts", TypeName::Array);
    pts.items = Some(TypeSpec::Detailed(Box::new(DetailedType {
        ty: TypeName::Array,
        items: Some(TypeSpec::Name(TypeName::Float)),
        values: vec![],
        any_of: vec![],
        fields: vec![],
        min: None,
        max: None,
        max_len: None,
    })));
    let sl = slot(vec![pts]);
    let good = obj(vec![("pts", arr(vec![arr(vec![num(0.1), num(0.2)]), arr(vec![num(0.3), num(0.4)])]))]);
    assert!(validate_payload(&sl, &good).is_empty());
    let bad = obj(vec![("pts", arr(vec![arr(vec![num(0.1), num(0.2)]), arr(vec![num(0.3), s("x")])]))]);
    let diags = validate_payload(&sl, &bad);
    assert_eq!(diags[0].code, "type_mismatch");
    assert_eq!(diags[0].path, "$.pts[1][1]");
}

#[test]
fn required_enum_range_group() {
    let mut phase = field("phase", TypeName::Enum);
    phase.values = vec!["down".into(), "move".into(), "up".into()];
    let mut x = field("x", TypeName::Float);
    x.min = Some(float(0.0));
    x.max = Some(float(1.0));
    let mut meta = field("meta", TypeName::Group);
    meta.fields = vec![field("ts", TypeName::Timestamp)];
    let sl = slot(vec![x, phase, meta]);
    let good = obj(vec![("x", num(0.5)), ("phase", s("move")), ("meta", obj(vec![("ts", num(1752105600000.0))]))]);
    assert!(validate_payload(&sl, &good).is_empty());
    let bad = obj(vec![("x", num(1.5)), ("phase", s("hover")), ("meta", obj(vec![]))]);
    let cs = codes(&validate_payload(&sl, &bad));
    assert!(cs.contains(&("out_of_range".into(), "$.x".into())), "{cs:?}");
    assert!(cs.contains(&("enum_mismatch".into(), "$.phase".into())), "{cs:?}");
    assert!(cs.contains(&("required".into(), "$.meta.ts".into())), "{cs:?}");
}

#[test]
fn bytes_string_union_map() {
    let img = field("img", TypeName::Bytes);
    let mut label = field("label", TypeName::String);
    label.max_len = Some(5);
    let mut id = field("id", TypeName::Union);
    id.any_of = vec![TypeSpec::Name(TypeName::Int), TypeSpec::Name(TypeName::String)];
    let mut params = field("params", TypeName::Dict);
    params.items = Some(TypeSpec::Name(TypeName::Float));
    let sl = slot(vec![img, label, id, params]);
    let good = obj(vec![
        ("img", s("aGVsbG8=")),
        ("label", s("abc")),
        ("id", num(7.0)),
        ("params", obj(vec![("gain", num(0.5))])),
    ]);
    assert!(validate_payload(&sl, &good).is_empty());
    let bad = obj(vec![
        ("img", s("@@not-base64@@")),
        ("label", s("toolong")),
        ("id", Json::Bool(true)),
        ("params", obj(vec![("gain", s("x"))])),
    ]);
    let cs = codes(&validate_payload(&sl, &bad));
    assert!(cs.contains(&("bad_base64".into(), "$.img".into())), "{cs:?}");
    assert!(cs.contains(&("too_long".into(), "$.label".into())), "{cs:?}");
    assert!(cs.contains(&("no_union_match".into(), "$.id".into())), "{cs:?}");
    assert!(cs.contains(&("type_mismatch".into(), "$.params.gain".into())), "{cs:?}");
}

#[test]
fn unknown_payload_fields_are_dropped_not_rejected() {
    let sl = slot(vec![field("x", TypeName::Float)]);
    assert!(validate_payload(&sl, &obj(vec![("x", num(0.1)), ("extra", num(999.0))])).is_empty());
}

#[test]
fn any_and_opaque_skip_validation() {
    assert!(validate_payload(&any_slot(), &obj(vec![("whatever", num(1.0))])).is_empty());
    let opaque = Slot { typing: Typing::Typed, kind: SlotKind::Opaque, fields: vec![], encoding: Some("video/raw".into()) };
    assert!(validate_payload(&opaque, &obj(vec![("whatever", num(1.0))])).is_empty());
}

#[test]
fn validate_json_reports_decode_error() {
    let sl = slot(vec![field("x", TypeName::Float)]);
    let diags = validate_json(&sl, &Err("key must be a string at line 1 column 2".into()));
    assert_eq!(diags[0].code, "decode_error");
    assert_eq!(diags[0].path, "$");
}

#[test]
fn range_messages_name_the_bound() {
    let mut x = field("x", TypeName::Int);
    x.max = Some(float(3.0));
    let diags = validate_payload(&slot(vec![x]), &obj(vec![("x", num(5.0))]));
    assert_eq!(diags[0].message, "5 > max(3)");
    let diags = validate_payload(&slot(vec![field("x", TypeName::Int)]), &obj(vec![("x", num(0.5))]));
    assert_eq!(diags[0].message, "expected int but got number");
}

// ---------------------------------------------------------------- compatibility

fn conn(pattern: Pattern, payload: Option<Slot>) -> Connection {
    Connection {
        pattern,
        from: "a".into(),
        to: vec!["b".into()],
        key: None,
        selector: None,
        reliability: Reliability::Reliable,
        congestion: Congestion::Block,
        priority: Priority::Data,
        express: false,
        encoding: Encoding::Json,
        validate: ValidateLevel::Full,
        payload,
        request: None,
        response: None,
    }
}

fn x_field(ty: TypeName, max: f64) -> Field {
    let mut x = field("x", ty);
    if ty == TypeName::Float {
        x.min = Some(float(0.0));
        x.max = Some(float(max));
    }
    x
}

fn phase(values: &[&str]) -> Field {
    let mut p = field("phase", TypeName::Enum);
    p.values = values.iter().map(|v| v.to_string()).collect();
    p
}

fn base_with(touch_fields: Vec<Field>, cue_ty: TypeName) -> Contract {
    Contract {
        schema: "s".into(),
        version: "1".into(),
        nodes: vec![("a".into(), Node { kind: NodeKind::Sahou }), ("b".into(), Node { kind: NodeKind::Sahou })],
        connections: vec![
            ("cue".into(), conn(Pattern::PubSub, Some(slot(vec![field("id", cue_ty)])))),
            ("touch".into(), conn(Pattern::PubSub, Some(slot(touch_fields)))),
        ],
    }
}

fn base() -> Contract {
    base_with(vec![x_field(TypeName::Float, 1.0), phase(&["down", "up"])], TypeName::Int)
}

fn kinds(was: &Contract, now: &Contract) -> Vec<(ChangeKind, String)> {
    classify(was, now).into_iter().map(|c| (c.kind, c.path)).collect()
}

#[test]
fn additive_changes_are_compatible() {
    let mut pressure = field("pressure", TypeName::Float);
    pressure.required = false;
    let now = base_with(vec![x_field(TypeName::Float, 2.0), phase(&["down", "up", "move"]), pressure], TypeName::Int);
    let changes = classify(&base(), &now);
    assert!(!changes.is_empty());
    assert!(is_compatible(&changes));
    assert!(changes.iter().all(|c| c.connection == "touch"));
    // blast radius: cue is unchanged
    let (o, n) = (base(), now);
    assert_eq!(changed_connections(&o, &n, &canonical(&o), &canonical(&n)), vec!["touch"]);
}

/// The canonical encodings of a contract's connections, in order.
fn canonical(c: &Contract) -> Vec<Vec<u8>> {
    c.connections.iter().map(|(id, conn)| format!("{id}:{conn:?}").into_bytes()).collect()
}

#[test]
fn changed_connections_lists_new_and_moved_ones_in_order() {
    let mut now = base();
    now.connections.push(("alpha".into(), conn(Pattern::PubSub, Some(any_slot()))));
    now.connections[1].1.key = Some("custom/touch".into());
    let o = base();
    assert_eq!(changed_connections(&o, &now, &canonical(&o), &canonical(&now)), vec!["alpha", "touch"]);
    assert!(changed_connections(&o, &base(), &canonical(&o), &canonical(&base())).is_empty());
}

#[test]
fn breaking_changes_are_detected_with_path() {
    let now = base_with(vec![field("x", TypeName::String), field("device_id", TypeName::Int), phase(&["down", "up"])], TypeName::Int);
    let ks = kinds(&base(), &now);
    assert!(ks.contains(&(ChangeKind::Breaking, "connections.touch.payload.fields[0].type".into())), "{ks:?}");
    assert!(ks.contains(&(ChangeKind::Breaking, "connections.touch.payload.fields[1]".into())), "{ks:?}");
}

#[test]
fn int_to_float_is_promotion() {
    let now = base_with(vec![x_field(TypeName::Float, 1.0), phase(&["down", "up"])], TypeName::Float);
    let ks = kinds(&base(), &now);
    assert!(ks.contains(&(ChangeKind::Promotion, "connections.cue.payload.fields[0].type".into())), "{ks:?}");
    assert!(is_compatible(&classify(&base(), &now)));
}

#[test]
fn field_removal_and_new_connection() {
    let now = base_with(vec![x_field(TypeName::Float, 1.0)], TypeName::Int);
    let ks = kinds(&base(), &now);
    assert!(ks.contains(&(ChangeKind::Breaking, "connections.touch.payload.fields[1]".into())), "{ks:?}");
    let mut with_new = base();
    with_new.connections.push(("extra".into(), conn(Pattern::PubSub, Some(any_slot()))));
    let ks2 = kinds(&base(), &with_new);
    assert!(ks2.contains(&(ChangeKind::Additive, "connections.extra".into())), "{ks2:?}");
}

#[test]
fn key_change_is_breaking() {
    let mut was = base();
    was.connections[1].1.key = Some("custom/a".into());
    let mut now = base();
    now.connections[1].1.key = Some("custom/b".into());
    let ks = kinds(&was, &now);
    assert!(ks.contains(&(ChangeKind::Breaking, "connections.touch.key".into())), "{ks:?}");
    assert!(!is_compatible(&classify(&was, &now)));
}

#[test]
fn handshake_accepts_additive_rejects_breaking() {
    let mut pressure = field("pressure", TypeName::Float);
    pressure.required = false;
    let sender = base_with(vec![x_field(TypeName::Float, 1.0), phase(&["down", "up"]), pressure], TypeName::Int);
    assert!(handshake(&base(), &sender, "touch").is_ok());
    assert!(handshake(&base(), &sender, "cue").is_ok());
    let broken = base_with(vec![field("x", TypeName::String), phase(&["down", "up"])], TypeName::Int);
    let err = handshake(&base(), &broken, "touch").unwrap_err();
    assert_eq!(err[0].code, "schema_incompatible");
    assert!(err[0].path.contains("connections.touch"), "{}", err[0].path);
}

#[test]
fn handshake_rejects_promotion_in_both_directions() {
    let int_c = base();
    let float_c = base_with(vec![x_field(TypeName::Float, 1.0), phase(&["down", "up"])], TypeName::Float);
    let err1 = handshake(&int_c, &float_c, "cue").unwrap_err();
    assert_eq!(err1[0].code, "schema_incompatible");
    assert!(err1[0].path.contains("connections.cue"), "{}", err1[0].path);
    let err2 = handshake(&float_c, &int_c, "cue").unwrap_err();
    assert_eq!(err2[0].code, "schema_incompatible");
    assert!(is_compatible(&classify(&int_c, &float_c)));
}

#[test]
fn paths_are_index_form_with_name_in_detail() {
    let now = base_with(vec![field("x", TypeName::String), phase(&["down", "up"])], TypeName::Int);
    let changes = classify(&base(), &now);
    let ch = changes.iter().find(|c| c.path == "connections.touch.payload.fields[0].type").unwrap();
    assert!(ch.detail.contains("'x'"), "{}", ch.detail);
}

#[test]
fn selector_change_is_breaking() {
    let q = |sel: Option<&str>| {
        let mut c = conn(Pattern::Query, None);
        c.request = Some(any_slot());
        c.response = Some(any_slot());
        c.selector = sel.map(|x| x.to_string());
        Contract {
            schema: "s".into(),
            version: "1".into(),
            nodes: vec![("a".into(), Node { kind: NodeKind::Sahou }), ("b".into(), Node { kind: NodeKind::Sahou })],
            connections: vec![("q".into(), c)],
        }
    };
    let ks = kinds(&q(None), &q(Some("?level=info")));
    assert!(ks.contains(&(ChangeKind::Breaking, "connections.q.selector".into())), "{ks:?}");
}

#[test]
fn nested_group_paths_are_index_form() {
    let t = |ty: TypeName| {
        let mut meta = field("meta", TypeName::Group);
        meta.fields = vec![field("ts", ty)];
        Contract {
            schema: "s".into(),
            version: "1".into(),
            nodes: vec![("a".into(), Node { kind: NodeKind::Sahou }), ("b".into(), Node { kind: NodeKind::Sahou })],
            connections: vec![("t".into(), conn(Pattern::PubSub, Some(slot(vec![field("x", TypeName::Float), meta]))))],
        }
    };
    let changes = classify(&t(TypeName::Timestamp), &t(TypeName::String));
    assert_eq!(changes.len(), 1);
    assert_eq!(changes[0].path, "connections.t.payload.fields[1].fields[0].type");
    assert!(changes[0].detail.contains("'ts'"), "{}", changes[0].detail);
}

// ---------------------------------------------------------------- runtime boundary

fn dconn(pattern: Pattern, from: &str, to: &[&str], id: &str) -> DescriptorConnection {
    DescriptorConnection {
        pattern,
        from: from.into(),
        to: to.iter().map(|x| x.to_string()).collect(),
        key: format!("sahou/{id}"),
        hash: format!("{:0>16}", id.len()),
        selector: None,
        reliability: Reliability::Reliable,
        congestion: Congestion::Block,
        priority: Priority::Data,
        express: false,
        encoding: Encoding::Json,
        validate: ValidateLevel::Full,
        payload: None,
        request: None,
        response: None,
    }
}

fn demo() -> Descriptor {
    let mut touch = dconn(Pattern::PubSub, "sensor", &["archive", "visuals"], "touch");
    let mut meta = field("meta", TypeName::Group);
    let mut source = field("source", TypeName::String);
    source.required = false;
    meta.fields = vec![field("ts", TypeName::Timestamp), source];
    touch.payload = Some(slot(vec![x_field(TypeName::Float, 1.0), phase(&["down", "move", "up"]), meta]));
    let mut points = dconn(Pattern::PubSub, "sensor", &["visuals"], "points");
    let mut pts = field("pts", TypeName::Array);
    pts.items = Some(TypeSpec::Detailed(Box::new(DetailedType {
        ty: TypeName::Array,
        items: Some(TypeSpec::Name(TypeName::Float)),
        values: vec![],
        any_of: vec![],
        fields: vec![],
        min: None,
        max: None,
        max_len: None,
    })));
    points.payload = Some(slot(vec![pts]));
    points.validate = ValidateLevel::Sampled;
    let mut debug_tap = dconn(Pattern::PubSub, "sensor", &["visuals"], "debug_tap");
    debug_tap.payload = Some(any_slot());
    let mut get_state = dconn(Pattern::Query, "sensor", &["archive"], "get_state");
    get_state.request = Some(any_slot());
    get_state.response = Some(any_slot());
    Descriptor {
        schema: "demo".into(),
        version: "1".into(),
        namespace: "sahou".into(),
        nodes: vec![
            ("archive".into(), Node { kind: NodeKind::Sahou }),
            ("sensor".into(), Node { kind: NodeKind::Sahou }),
            ("visuals".into(), Node { kind: NodeKind::Sahou }),
        ],
        connections: vec![
            ("debug_tap".into(), debug_tap),
            ("get_state".into(), get_state),
            ("points".into(), points),
            ("touch".into(), touch),
        ],
    }
}

fn touch_ok() -> Json {
    obj(vec![("x", num(0.5)), ("phase", s("move")), ("meta", obj(vec![("ts", num(1752105600000.0))]))])
}

fn touch_bad() -> Json {
    obj(vec![("x", s("bad")), ("phase", s("move")), ("meta", obj(vec![("ts", num(1.0))]))])
}

#[test]
fn valid_payload_roundtrips_prepare_to_accept() {
    let d = demo();
    let msg = prepare_publish(&d, "sensor", "touch", Ok(touch_ok()), 0).unwrap();
    assert_eq!(msg.key, "sahou/touch");
    assert_eq!(msg.attachment, d.connections[3].1.hash);
    assert_eq!(msg.qos.reliability, Reliability::Reliable);
    match accept_sample(&d, "visuals", "touch", Ok(msg.value), Some(&msg.attachment), 0, None) {
        AcceptOutcome::Accept { payload } => match payload {
            Json::Object(es) => assert!(es.iter().any(|(k, _)| k == "x")),
            other => panic!("expected an object: {other:?}"),
        },
        other => panic!("expected Accept: {other:?}"),
    }
}

#[test]
fn send_boundary_rejects_and_role_pattern_checked() {
    let d = demo();
    let diags = prepare_publish(&d, "sensor", "touch", Ok(touch_bad()), 0).unwrap_err();
    assert_eq!(diags[0].code, "type_mismatch");
    assert_eq!(diags[0].path, "$.x");
    assert_eq!(prepare_publish(&d, "visuals", "touch", Ok(obj(vec![])), 0).unwrap_err()[0].code, "role_mismatch");
    assert_eq!(prepare_publish(&d, "sensor", "get_state", Ok(obj(vec![])), 0).unwrap_err()[0].code, "pattern_mismatch");
    assert_eq!(prepare_publish(&d, "sensor", "ghost", Ok(obj(vec![])), 0).unwrap_err()[0].code, "unknown_connection");
    assert_eq!(prepare_publish(&d, "sensor", "touch", Err("expected value".into()), 0).unwrap_err()[0].code, "decode_error");
}

#[test]
fn recv_boundary_rejects_bad_payload_and_missing_hash() {
    let d = demo();
    let hash = d.connections[3].1.hash.clone();
    match accept_sample(&d, "visuals", "touch", Ok(touch_bad()), Some(&hash), 0, None) {
        AcceptOutcome::Reject { diags } => assert_eq!(diags[0].code, "type_mismatch"),
        other => panic!("expected Reject: {other:?}"),
    }
    match accept_sample(&d, "visuals", "touch", Ok(obj(vec![])), None, 0, None) {
        AcceptOutcome::Reject { diags } => assert_eq!(diags[0].code, "missing_schema_hash"),
        other => panic!("expected Reject: {other:?}"),
    }
}

#[test]
fn hash_mismatch_and_trusted_path() {
    let d = demo();
    let out = accept_sample(&d, "visuals", "touch", Ok(touch_ok()), Some("deadbeef00000000"), 0, None);
    assert!(matches!(out, AcceptOutcome::HashMismatch { ref sender_hash } if sender_hash == "deadbeef00000000"));
    let out = accept_sample(&d, "visuals", "touch", Ok(touch_ok()), Some("deadbeef00000000"), 0, Some("deadbeef00000000"));
    assert!(matches!(out, AcceptOutcome::Accept { .. }));
    let out = accept_sample(&d, "visuals", "touch", Ok(touch_bad()), Some("deadbeef00000000"), 0, Some("deadbeef00000000"));
    assert!(matches!(out, AcceptOutcome::Reject { .. }));
}

#[test]
fn sampled_level_validates_deterministically_1_in_10() {
    let d = demo();
    let bad = || obj(vec![("pts", arr(vec![arr(vec![s("bad")])]))]);
    assert!(prepare_publish(&d, "sensor", "points", Ok(bad()), 0).is_err());
    assert!(prepare_publish(&d, "sensor", "points", Ok(bad()), 1).is_ok());
    assert!(prepare_publish(&d, "sensor", "points", Ok(bad()), 9).is_ok());
    assert!(prepare_publish(&d, "sensor", "points", Ok(bad()), 10).is_err());
}

#[test]
fn node_plan_derives_capabilities_from_wiring() {
    let d = demo();
    let sensor = node_plan(&d, "sensor").unwrap();
    assert_eq!(sensor.publishes, vec!["debug_tap", "points", "touch"]);
    assert_eq!(sensor.subscribes, Vec::<String>::new());
    assert_eq!(sensor.queries, vec!["get_state"]);
    assert_eq!(sensor.answers, Vec::<String>::new());
    let archive = node_plan(&d, "archive").unwrap();
    assert_eq!(archive.subscribes, vec!["touch"]);
    assert_eq!(archive.answers, vec!["get_state"]);
}

#[test]
fn unknown_node_is_no() {
    let diags = node_plan(&demo(), "ghost").unwrap_err();
    assert_eq!(diags[0].code, "unknown_node");
    assert_eq!(diags[0].path, "nodes.ghost");
}

#[test]
fn publishing_nodes_are_the_pub_sub_senders() {
    assert_eq!(publishing_nodes(&demo()), vec!["sensor"]);
}

#[test]
fn connections_from_lists_pub_sub_only_sorted() {
    let d = demo();
    assert_eq!(connections_from(&d, "sensor"), vec!["debug_tap", "points", "touch"]);
    assert_eq!(connections_from(&d, "visuals"), Vec::<String>::new());
    assert_eq!(connections_from(&d, "ghost"), Vec::<String>::new());
}

#[test]
fn a_contract_has_no_changes_against_itself() {
    assert!(classify(&base(), &base()).is_empty());
    assert!(handshake(&base(), &base(), "touch").is_ok());
    assert!(handshake(&base(), &base(), "cue").is_ok());
    // a NaN bound equals nothing, itself included: such a field is reported as tightened
    let nan_max = |_: ()| {
        let mut x = field("x", TypeName::Float);
        x.max = Some(Float { bits: f64::NAN.to_bits(), text: "NaN".into() });
        base_with(vec![x], TypeName::Int)
    };
    let ks = kinds(&nan_max(()), &nan_max(()));
    assert_eq!(ks, vec![(ChangeKind::Breaking, "connections.touch.payload.fields[0].max".to_string())]);
}

#[test]
fn null_field_is_judged_as_absent() {
    let mut opt = field("note", TypeName::String);
    opt.required = false;
    let req = field("x", TypeName::Float);
    let sl = slot(vec![req, opt]);
    let with_null = validate_payload(&sl, &obj(vec![("note", Json::Null)]));
    let absent = validate_payload(&sl, &obj(vec![]));
    assert_eq!(codes(&with_null), codes(&absent));
    assert_eq!(codes(&absent), vec![("required".to_string(), "$.x".to_string())]);
}

#[test]
fn nested_diagnostics_point_below_their_field() {
    let mut inner = field("pts", TypeName::Array);
    inner.items = Some(TypeSpec::Name(TypeName::Int));
    let sl = slot(vec![inner]);
    let diags = validate_payload(&sl, &obj(vec![("pts", arr(vec![num(1.0), s("no"), num(2.5)]))]));
    assert_eq!(diags.len(), 2);
    for d in &diags {
        assert!(d.path.starts_with("$.pts["), "{}", d.path);
    }
}

#[test]
fn bytes_must_be_canonical_standard_base64() {
    let sl = slot(vec![field("b", TypeName::Bytes)]);
    for ok in ["", "AA==", "AAA=", "aGVsbG8=", "+/+/"] {
        assert!(validate_payload(&sl, &obj(vec![("b", s(ok))])).is_empty(), "{ok}");
    }
    for bad in ["AB==", "AAB=", "AAA", "A===", "====", "aGVsbG8", "-_-_", "AA=A"] {
        let d = validate_payload(&sl, &obj(vec![("b", s(bad))]));
        assert_eq!(codes(&d), vec![("bad_base64".to_string(), "$.b".to_string())], "{bad}");
    }
}
