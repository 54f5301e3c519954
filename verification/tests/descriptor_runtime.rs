use sahou_core::diag::Diag;
use sahou_core::endpoints::Endpoints;
use sahou_core::ir::{build_descriptor, connection_hash, resolve_key};
use sahou_core::model::{
    Congestion, Connection, Contract, Descriptor, DescriptorConnection, DetailedType, Encoding, Field, Float, Json,
    Node, NodeKind, Number, Pattern, Priority, Reliability, Slot, SlotKind, TypeName, TypeSpec, Typing,
    ValidateLevel,
};
use sahou_core::runtime::{
    accept_reply, accept_request, classify_delivery, connection_fields, handshake_judge, handshake_verdict,
    parse_reply_err, prepare_reply, prepare_request, AcceptOutcome, DeliveryClass, HandshakeOutcome,
};
use sahou_core::vitals::{parse_vitals, vitals_key, vitals_payload, Vitals, VitalsRuntimeInfo, VITALS_FORMAT};

// ---------------------------------------------------------------- the demo installation

fn float(x: f64) -> Float {
    Float { bits: x.to_bits(), text: x.to_string() }
}

fn whole(x: i64) -> Json {
    Json::Number(Number {
        int: Some(x),
        uint: if x >= 0 { Some(x as u64) } else { None },
        real: float(x as f64),
        text: x.to_string(),
        real_json: format!("{x}.0"),
    })
}

fn s(x: &str) -> Json {
    Json::Str(x.into())
}

fn obj(entries: Vec<(&str, Json)>) -> Json {
    let mut es: Vec<(String, Json)> = entries.into_iter().map(|(k, v)| (k.to_string(), v)).collect();
    es.sort_by(|a, b| a.0.cmp(&b.0));
    Json::Object(es)
}

fn field(name: &str, ty: TypeName) -> Field {
    Field {
        name: name.into(),
        ty,
        required: true,
        default: None,
        min: None,
        max: None,
        max_len: None,
        values: vec![],
        items: None,
        any_of: vec![],
        fields: vec![],
    }
}

fn typed(fields: Vec<Field>) -> Slot {
    Slot { typing: Typing::Typed, kind: SlotKind::Record, fields, encoding: None }
}

fn conn(pattern: Pattern, to: &[&str]) -> Connection {
    Connection {
        pattern,
        from: "sensor".into(),
        to: to.iter().map(|s| s.to_string()).collect(),
        key: None,
        selector: None,
        reliability: Reliability::Reliable,
        congestion: Congestion::Block,
        priority: Priority::Data,
        express: false,
        encoding: Encoding::Json,
        validate: ValidateLevel::Full,
        payload: None,
        request: None,
        response: None,
    }
}

#[derive(Clone, Copy, PartialEq)]
enum Variant {
    Base,
    /// touch gains an optional `pressure`
    Additive,
    /// touch.x becomes a string
    Breaking,
    /// get_state's response `level` becomes a float
    Promoted,
}

fn demo_with(v: Variant) -> Contract {
    let x = if v == Variant::Breaking {
        field("x", TypeName::String)
    } else {
        let mut x = field("x", TypeName::Float);
        x.min = Some(float(0.0));
        x.max = Some(float(1.0));
        x
    };
    let mut phase = field("phase", TypeName::Enum);
    phase.values = vec!["down".into(), "move".into(), "up".into()];
    let mut source = field("source", TypeName::String);
    source.required = false;
    let mut meta = field("meta", TypeName::Group);
    meta.fields = vec![field("ts", TypeName::Timestamp), source];
    let mut touch_fields = vec![x, phase];
    if v == Variant::Additive {
        let mut pressure = field("pressure", TypeName::Float);
        pressure.required = false;
        touch_fields.push(pressure);
    }
    touch_fields.push(meta);
    let inner = DetailedType {
        ty: TypeName::Array,
        items: Some(TypeSpec::Name(TypeName::Float)),
        values: vec![],
        any_of: vec![],
        fields: vec![],
        min: None,
        max: None,
        max_len: None,
    };
    let mut pts = field("pts", TypeName::Array);
    pts.items = Some(TypeSpec::Detailed(Box::new(inner)));
    let mut sel = field("sel", TypeName::String);
    sel.max_len = Some(64);
    let level = field("level", if v == Variant::Promoted { TypeName::Float } else { TypeName::Int });

    let mut touch = conn(Pattern::PubSub, &["visuals", "archive"]);
    touch.payload = Some(typed(touch_fields));
    let mut points = conn(Pattern::PubSub, &["visuals"]);
    points.payload = Some(typed(vec![pts]));
    points.validate = ValidateLevel::Sampled;
    let mut debug_tap = conn(Pattern::PubSub, &["visuals"]);
    debug_tap.payload = Some(Slot { typing: Typing::Any, kind: SlotKind::Record, fields: vec![], encoding: None });
    let mut get_state = conn(Pattern::Query, &["archive"]);
    get_state.request = Some(typed(vec![sel]));
    get_state.response = Some(typed(vec![level]));
    Contract {
        schema: "demo_installation".into(),
        version: "0.1.0".into(),
        nodes: ["archive", "sensor", "visuals"].iter().map(|n| (n.to_string(), Node { kind: NodeKind::Sahou })).collect(),
        connections: vec![
            ("debug_tap".into(), debug_tap),
            ("get_state".into(), get_state),
            ("points".into(), points),
            ("touch".into(), touch),
        ],
    }
}

fn demo() -> Contract {
    demo_with(Variant::Base)
}

/// The canonical encoding of a connection that its fingerprint is taken over.
fn canonical(c: &Connection) -> Vec<u8> {
    format!("{c:?}").into_bytes()
}

fn descriptor(c: Contract, e: &Endpoints) -> Descriptor {
    let canon: Vec<Vec<u8>> = c.connections.iter().map(|(_, conn)| canonical(conn)).collect();
    build_descriptor(c, e, &canon)
}

fn desc_of(v: Variant) -> Descriptor {
    descriptor(demo_with(v), &Endpoints::default())
}

fn desc() -> Descriptor {
    desc_of(Variant::Base)
}

fn get<'a>(d: &'a Descriptor, id: &str) -> &'a DescriptorConnection {
    &d.connections.iter().find(|(k, _)| k == id).unwrap().1
}

/// The connection's fragment as the contract queryable hands it out.
fn fragment(d: Descriptor, id: &str) -> DescriptorConnection {
    d.connections.into_iter().find(|(k, _)| k == id).unwrap().1
}

fn dev_endpoints() -> Endpoints {
    Endpoints {
        env: Some("dev".into()),
        namespace: "sahou/demo".into(),
        router: None,
        nodes: vec![],
        plugins: vec![],
    }
}

// ---------------------------------------------------------------- keys, hashes, descriptor

#[test]
fn keyexpr_is_namespace_plus_id_with_override() {
    let mut c = demo();
    let touch = &mut c.connections[3].1;
    assert_eq!(resolve_key("sahou/demo", "touch", touch), "sahou/demo/touch");
    touch.key = Some("custom/expr".into());
    assert_eq!(resolve_key("sahou/demo", "touch", touch), "custom/expr");
}

#[test]
fn connection_hash_is_stable_and_local() {
    let c = demo();
    let h1 = connection_hash(&canonical(&c.connections[3].1));
    let h2 = connection_hash(&canonical(&c.connections[3].1));
    assert_eq!(h1, h2, "deterministic");
    assert_eq!(h1.len(), 16, "16 hex");
    // changing touch leaves the points hash unchanged
    let mut changed = demo();
    changed.connections[3].1.payload.as_mut().unwrap().fields[0].max = Some(float(2.0));
    assert_ne!(connection_hash(&canonical(&changed.connections[3].1)), h1);
    assert_eq!(
        connection_hash(&canonical(&changed.connections[2].1)),
        connection_hash(&canonical(&c.connections[2].1))
    );
}

#[test]
fn descriptor_carries_resolved_keys_and_hashes() {
    let d = descriptor(demo(), &dev_endpoints());
    assert_eq!(d.schema, "demo_installation");
    assert_eq!(d.namespace, "sahou/demo");
    let touch = get(&d, "touch");
    assert_eq!(touch.key, "sahou/demo/touch");
    assert_eq!(touch.hash.len(), 16);
    assert_eq!(touch.to, vec!["visuals", "archive"]);
}

#[test]
fn descriptor_with_default_endpoints_uses_sahou_namespace() {
    let d = descriptor(demo(), &Endpoints::default());
    assert_eq!(get(&d, "touch").key, "sahou/touch");
}

#[test]
fn default_is_lan_auto() {
    let e = Endpoints::default();
    assert_eq!(e.namespace, "sahou");
    assert!(e.router.is_none());
    assert!(e.nodes.is_empty());
}

// ---------------------------------------------------------------- query boundaries
// get_state: from=sensor (requester) / to=[archive] (responder)
// request = {sel: string(max_len 64)} / response = {level: int}

#[test]
fn four_boundaries_roundtrip() {
    let d = desc();
    // send request (requester)
    let req = prepare_request(&d, "sensor", "get_state", Ok(obj(vec![("sel", s("levels"))])), 0).unwrap();
    assert_eq!(req.key, "sahou/get_state");
    // receive request (responder)
    let out = accept_request(&d, "archive", "get_state", Ok(req.value), Some(&req.attachment), 0, None);
    assert!(matches!(out, AcceptOutcome::Accept { .. }));
    // send response (responder)
    let rep = prepare_reply(&d, "archive", "get_state", Ok(obj(vec![("level", whole(3))])), 0).unwrap();
    // receive response (requester)
    match accept_reply(&d, "sensor", "get_state", Ok(rep.value), Some(&rep.attachment), 0, None) {
        AcceptOutcome::Accept { payload: Json::Object(es) } => {
            let level = &es.iter().find(|(k, _)| k == "level").unwrap().1;
            assert!(matches!(level, Json::Number(n) if n.int == Some(3)), "{level:?}");
        }
        other => panic!("expected Accept: {other:?}"),
    }
}

#[test]
fn each_boundary_rejects_its_own_violation() {
    let d = desc();
    // a broken request is NO before get (send boundary)
    let diags = prepare_request(&d, "sensor", "get_state", Ok(obj(vec![("sel", whole(123))])), 0).unwrap_err();
    assert_eq!(diags[0].code, "type_mismatch");
    // responder receive boundary (raw that bypassed validation)
    let hash = get(&d, "get_state").hash.clone();
    let out = accept_request(&d, "archive", "get_state", Ok(obj(vec![("sel", whole(123))])), Some(&hash), 0, None);
    assert!(matches!(out, AcceptOutcome::Reject { .. }));
    // a broken response is NO before reply (responder send boundary)
    let diags = prepare_reply(&d, "archive", "get_state", Ok(obj(vec![("level", s("high"))])), 0).unwrap_err();
    assert_eq!(diags[0].code, "type_mismatch");
    // requester reply-receive boundary
    let out = accept_reply(&d, "sensor", "get_state", Ok(obj(vec![("level", s("high"))])), Some(&hash), 0, None);
    assert!(matches!(out, AcceptOutcome::Reject { .. }));
}

#[test]
fn roles_are_directional() {
    let d = desc();
    // the responder tries to send a request
    let diags = prepare_request(&d, "archive", "get_state", Ok(obj(vec![("sel", s("x"))])), 0).unwrap_err();
    assert_eq!(diags[0].code, "role_mismatch");
    // the requester tries to reply
    let diags = prepare_reply(&d, "sensor", "get_state", Ok(obj(vec![("level", whole(1))])), 0).unwrap_err();
    assert_eq!(diags[0].code, "role_mismatch");
    // a query operation on a pub_sub connection
    let diags = prepare_request(&d, "sensor", "touch", Ok(obj(vec![])), 0).unwrap_err();
    assert_eq!(diags[0].code, "pattern_mismatch");
}

#[test]
fn connection_fields_render_the_payload_schema() {
    let d = desc();
    let row = |cells: [&str; 4]| cells.iter().map(|c| c.to_string()).collect::<Vec<String>>();
    assert_eq!(
        connection_fields(&d, "touch"),
        vec![
            row(["x", "float", "yes", "0..1"]),
            row(["phase", "enum", "yes", "down|move|up"]),
            row(["meta", "group", "yes", "ts, source"]),
        ]
    );
    // an any-typed payload declares no fields
    assert!(connection_fields(&d, "debug_tap").is_empty());
    // an unknown connection is empty, not an error
    assert!(connection_fields(&d, "ghost").is_empty());
}

// ---------------------------------------------------------------- delivery-time handshake

#[test]
fn additive_sender_is_accepted_breaking_is_blocked() {
    let base = desc();
    let additive = desc_of(Variant::Additive);
    let sender = get(&additive, "touch").hash.clone();
    let frag = fragment(additive, "touch");
    assert_eq!(
        handshake_verdict("touch", get(&base, "touch"), &sender, Ok(frag)),
        HandshakeOutcome::Accepted,
        "additive should pass"
    );
    let breaking = desc_of(Variant::Breaking);
    let sender = get(&breaking, "touch").hash.clone();
    let frag = fragment(breaking, "touch");
    match handshake_verdict("touch", get(&base, "touch"), &sender, Ok(frag)) {
        HandshakeOutcome::Blocked { diags } => {
            assert_eq!(diags[0].code, "schema_incompatible");
            assert!(diags[0].path.contains("touch"), "{}", diags[0].path);
        }
        other => panic!("expected Blocked: {other:?}"),
    }
}

#[test]
fn promotion_is_blocked_at_delivery_boundary() {
    let base = desc();
    let promoted = desc_of(Variant::Promoted);
    let sender = get(&promoted, "get_state").hash.clone();
    let frag = fragment(promoted, "get_state");
    match handshake_verdict("get_state", get(&base, "get_state"), &sender, Ok(frag)) {
        HandshakeOutcome::Blocked { diags } => assert_eq!(diags[0].code, "schema_incompatible"),
        other => panic!("expected Blocked: {other:?}"),
    }
}

#[test]
fn undecodable_fragment_is_unreachable_not_blocked() {
    let base = desc();
    let undecodable = Err(("$".to_string(), "key must be a string at line 1 column 2".to_string()));
    match handshake_verdict("touch", get(&base, "touch"), "deadbeef00000000", undecodable) {
        HandshakeOutcome::Unreachable { diags } => {
            assert_eq!(diags[0].code, "contract_unreachable");
            assert_eq!(classify_delivery(false, &diags), DeliveryClass::Retryable);
        }
        other => panic!("expected Unreachable: {other:?}"),
    }
}

#[test]
fn fragment_hash_mismatch_is_unreachable() {
    let base = desc();
    let frag = fragment(desc(), "touch"); // a correct fragment, but...
    match handshake_verdict("touch", get(&base, "touch"), "0000000000000000", Ok(frag)) {
        HandshakeOutcome::Unreachable { diags } => {
            assert_eq!(diags[0].code, "contract_unreachable");
            assert!(diags[0].message.contains("does not match"), "{}", diags[0].message);
        }
        other => panic!("expected Unreachable: {other:?}"),
    }
}

fn handler_error() -> Vec<Diag> {
    vec![Diag::new("handler_error", "$".into(), "boom".into())]
}

#[test]
fn reply_err_envelope_roundtrips_diags() {
    assert_eq!(parse_reply_err(Some(handler_error())), handler_error());
}

#[test]
fn bad_reply_envelope_is_retryable_not_fatal() {
    // not JSON, an empty list, another object, nothing at all
    for garbage in [None, Some(vec![]), None, None] {
        let diags = parse_reply_err(garbage);
        assert_eq!(diags[0].code, "bad_reply_envelope");
        assert_eq!(classify_delivery(false, &diags), DeliveryClass::Retryable);
    }
}

#[test]
fn delivery_classification_matches_smart_retry_policy() {
    let one = |code: &str, path: &str| vec![Diag::new(code, path.into(), "…".into())];
    assert_eq!(classify_delivery(false, &one("type_mismatch", "$.x")), DeliveryClass::Fatal);
    assert_eq!(classify_delivery(false, &one("schema_incompatible", "connections.touch")), DeliveryClass::Fatal);
    assert_eq!(classify_delivery(true, &vec![]), DeliveryClass::Retryable);
    assert_eq!(classify_delivery(false, &one("handshake_pending", "$")), DeliveryClass::Retryable);
    assert_eq!(classify_delivery(false, &one("handler_error", "$")), DeliveryClass::Retryable);
}

#[test]
fn handshake_judge_unknown_connection_is_unreachable_retryable() {
    let base = desc();
    let theirs = Err(("$".to_string(), "missing field `pattern`".to_string()));
    match handshake_judge(&base, "ghost", "deadbeef00000000", theirs) {
        HandshakeOutcome::Unreachable { diags } => {
            assert_eq!(diags[0].code, "contract_unreachable");
            assert!(diags[0].path.contains("ghost"), "{}", diags[0].path);
            assert_eq!(classify_delivery(false, &diags), DeliveryClass::Retryable);
        }
        other => panic!("expected Unreachable: {other:?}"),
    }
}

#[test]
fn handshake_judge_known_connection_delegates_to_verdict() {
    let base = desc();
    let sender = get(&base, "touch").hash.clone();
    let frag = fragment(desc(), "touch");
    assert_eq!(handshake_judge(&base, "touch", &sender, Ok(frag)), HandshakeOutcome::Accepted);
}

// ---------------------------------------------------------------- vitals

fn info() -> VitalsRuntimeInfo {
    VitalsRuntimeInfo {
        lang: "python".into(),
        sahou: "0.0.2".into(),
        zenoh: Some("1.9.0".into()),
        transport: "native".into(),
        uptime_secs: 312,
        handshake: vec![("touch".into(), vec![("cd34".into(), "accepted".into())])],
    }
}

/// The record as a JSON object; the format gate looks at `vitals_format`.
fn as_json(v: &Vitals) -> Json {
    obj(vec![
        ("vitals_format", whole(v.vitals_format as i64)),
        ("node", s(&v.node)),
        ("namespace", s(&v.namespace)),
        ("schema", s(&v.schema)),
        ("schema_version", s(&v.schema_version)),
        ("uptime_secs", whole(v.uptime_secs as i64)),
    ])
}

fn read_back(v: Vitals) -> Vitals {
    parse_vitals(Ok(as_json(&v)), Ok(v)).unwrap()
}

fn conn_of<'a>(v: &'a Vitals, id: &str) -> Option<&'a sahou_core::vitals::VitalsConn> {
    v.connections.iter().find(|(k, _)| k == id).map(|(_, c)| c)
}

#[test]
fn payload_roundtrips_and_reports_descriptor_generation() {
    let d = desc();
    let v = read_back(vitals_payload(&d, "sensor", Ok(info())).unwrap());
    assert_eq!(v.vitals_format, VITALS_FORMAT);
    assert_eq!(v.node, "sensor");
    assert_eq!(v.namespace, d.namespace);
    assert_eq!(v.schema, d.schema);
    assert_eq!(v.schema_version, d.version);
    // generation = the per-connection hashes this node runs
    assert_eq!(conn_of(&v, "touch").unwrap().role, "from");
    assert_eq!(conn_of(&v, "touch").unwrap().hash, get(&d, "touch").hash);
    assert_eq!(v.runtime.lang, "python");
    assert_eq!(v.runtime.zenoh.as_deref(), Some("1.9.0"));
    assert_eq!(v.uptime_secs, 312);
    assert_eq!(v.handshake, vec![("touch".to_string(), vec![("cd34".to_string(), "accepted".to_string())])]);
}

#[test]
fn receiver_role_is_to_and_uninvolved_connections_are_omitted() {
    let d = desc();
    let v = read_back(vitals_payload(&d, "visuals", Ok(info())).unwrap());
    assert_eq!(conn_of(&v, "touch").unwrap().role, "to");
    // visuals is not a party to the sensor -> archive query
    assert!(conn_of(&v, "get_state").is_none(), "{:?}", v.connections);
}

#[test]
fn payload_is_deterministic() {
    let d = desc();
    assert_eq!(vitals_payload(&d, "sensor", Ok(info())).unwrap(), vitals_payload(&d, "sensor", Ok(info())).unwrap());
}

#[test]
fn unknowable_fields_are_omitted_not_faked() {
    // a runtime that cannot learn its transport library version leaves it out
    let d = desc();
    let partial = VitalsRuntimeInfo {
        lang: "c++".into(),
        sahou: "0.0.2".into(),
        zenoh: None,
        transport: "native".into(),
        uptime_secs: 0,
        handshake: vec![],
    };
    let v = read_back(vitals_payload(&d, "sensor", Ok(partial)).unwrap());
    assert_eq!(v.runtime.zenoh, None);
    assert_eq!(v.uptime_secs, 0);
}

#[test]
fn unknown_node_is_a_structured_no() {
    let err = vitals_payload(&desc(), "ghost", Ok(info())).unwrap_err();
    assert_eq!(err[0].code, "unknown_node");
}

#[test]
fn broken_runtime_info_is_a_structured_no() {
    let err = vitals_payload(&desc(), "sensor", Err("key must be a string at line 1 column 2".into())).unwrap_err();
    assert_eq!(err[0].code, "vitals_bad_runtime_info");
}

#[test]
fn parse_rejects_newer_format_with_upgrade_hint() {
    let err = parse_vitals(Ok(obj(vec![("vitals_format", whole(2)), ("node", s("x"))])), Err("missing field `namespace`".into()))
        .unwrap_err();
    assert_eq!(err[0].code, "vitals_format_unsupported");
    assert!(err[0].message.contains("upgrade"), "{}", err[0].message);
}

#[test]
fn parse_rejects_non_vitals_payloads() {
    let not_json = parse_vitals(Err("key must be a string at line 1 column 2".into()), Err("not a record".into()));
    assert_eq!(not_json.unwrap_err()[0].code, "vitals_unreadable");
    let other = parse_vitals(Ok(obj(vec![("hello", s("world"))])), Err("missing field `vitals_format`".into()));
    assert_eq!(other.unwrap_err()[0].code, "vitals_unreadable");
}

#[test]
fn parse_ignores_unknown_fields_within_a_known_format() {
    let d = desc();
    let v = vitals_payload(&d, "sensor", Ok(info())).unwrap();
    let mut with_extra = as_json(&v);
    if let Json::Object(es) = &mut with_extra {
        es.insert(0, ("future_field".into(), whole(42)));
    }
    assert!(parse_vitals(Ok(with_extra), Ok(v)).is_ok());
}

#[test]
fn parse_rejects_non_integer_format_as_unreadable() {
    let err = parse_vitals(Ok(obj(vec![("vitals_format", s("1")), ("node", s("x"))])), Err("invalid type".into()))
        .unwrap_err();
    assert_eq!(err[0].code, "vitals_unreadable");
    assert!(err[0].message.contains("unsigned integer"), "{}", err[0].message);
}

#[test]
fn vitals_key_is_namespaced_admin_space() {
    let d = desc();
    assert_eq!(vitals_key(&d, "sensor"), format!("{}/@sahou/vitals/sensor", d.namespace));
}
