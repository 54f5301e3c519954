use sahou_core::model::{
    Congestion, Connection, Contract, DetailedType, Encoding, Field, Float, Json, Node, NodeKind, Number, Pattern,
    Priority, Reliability, Slot, SlotKind, TypeName, TypeSpec, Typing, ValidateLevel,
};
use sahou_core::schema_check::validate_schema;

fn float(x: f64) -> Float {
    Float { bits: x.to_bits(), text: x.to_string() }
}

fn whole(x: i64) -> Json {
    Json::Number(Number {
        int: Some(x),
        uint: if x >= 0 { Some(x as u64) } else { None },
        real: float(x as f64),
        text: x.to_string(),
        real_json: format!("{x}.0"),
    })
}

fn field(name: &str, ty: TypeName) -> Field {
    Field {
        name: name.into(),
        ty,
        required: true,
        default: None,
        min: None,
        max: None,
        max_len: None,
        values: vec![],
        items: None,
        any_of: vec![],
        fields: vec![],
    }
}

fn typed(fields: Vec<Field>) -> Slot {
    Slot { typing: Typing::Typed, kind: SlotKind::Record, fields, encoding: None }
}

fn any() -> Slot {
    Slot { typing: Typing::Any, kind: SlotKind::Record, fields: vec![], encoding: None }
}

fn conn(pattern: Pattern, to: &[&str]) -> Connection {
    Connection {
        pattern,
        from: "a".into(),
        to: to.iter().map(|s| s.to_string()).collect(),
        key: None,
        selector: None,
        reliability: Reliability::Reliable,
        congestion: Congestion::Block,
        priority: Priority::Data,
        express: false,
        encoding: Encoding::Json,
        validate: ValidateLevel::Full,
        payload: None,
        request: None,
        response: None,
    }
}

fn pub_sub(payload: Option<Slot>) -> Connection {
    let mut c = conn(Pattern::PubSub, &["b"]);
    c.payload = payload;
    c
}

fn contract(nodes: &[&str], conns: Vec<(&str, Connection)>) -> Contract {
    Contract {
        schema: "s".into(),
        version: "1".into(),
        nodes: nodes.iter().map(|n| (n.to_string(), Node { kind: NodeKind::Sahou })).collect(),
        connections: conns.into_iter().map(|(k, c)| (k.to_string(), c)).collect(),
    }
}

/// One connection `c` from `a` to `b` carrying `fields`.
fn one_typed(fields: Vec<Field>) -> Contract {
    contract(&["a", "b"], vec![("c", pub_sub(Some(typed(fields))))])
}

fn codes_at(c: &Contract) -> Vec<(String, String)> {
    validate_schema(c).into_iter().map(|d| (d.code, d.path)).collect()
}

fn detailed(ty: TypeName) -> DetailedType {
    DetailedType { ty, items: None, values: vec![], any_of: vec![], fields: vec![], min: None, max: None, max_len: None }
}

/// The demo installation: sensor publishes touch / points / debug_tap and queries archive.
fn demo() -> Contract {
    let mut x = field("x", TypeName::Float);
    x.min = Some(float(0.0));
    x.max = Some(float(1.0));
    let mut phase = field("phase", TypeName::Enum);
    phase.values = vec!["down".into(), "move".into(), "up".into()];
    let mut source = field("source", TypeName::String);
    source.required = false;
    let mut meta = field("meta", TypeName::Group);
    meta.fields = vec![field("ts", TypeName::Timestamp), source];
    let mut inner = detailed(TypeName::Array);
    inner.items = Some(TypeSpec::Name(TypeName::Float));
    let mut pts = field("pts", TypeName::Array);
    pts.items = Some(TypeSpec::Detailed(Box::new(inner)));
    let mut sel = field("sel", TypeName::String);
    sel.max_len = Some(64);
    let sensor = |pattern: Pattern, to: &[&str]| {
        let mut c = conn(pattern, to);
        c.from = "sensor".into();
        c
    };
    let mut touch = sensor(Pattern::PubSub, &["visuals", "archive"]);
    touch.payload = Some(typed(vec![x, phase, meta]));
    let mut points = sensor(Pattern::PubSub, &["visuals"]);
    points.payload = Some(typed(vec![pts]));
    points.validate = ValidateLevel::Sampled;
    let mut debug_tap = sensor(Pattern::PubSub, &["visuals"]);
    debug_tap.payload = Some(any());
    let mut get_state = sensor(Pattern::Query, &["archive"]);
    get_state.request = Some(typed(vec![sel]));
    get_state.response = Some(typed(vec![field("level", TypeName::Int)]));
    let mut c = contract(
        &["archive", "sensor", "visuals"],
        vec![("debug_tap", debug_tap), ("get_state", get_state), ("points", points), ("touch", touch)],
    );
    c.schema = "demo_installation".into();
    c
}

#[test]
fn valid_demo_has_zero_diags() {
    assert_eq!(validate_schema(&demo()), vec![]);
}

#[test]
fn detects_self_loop_and_unknown_node() {
    let mut bad = conn(Pattern::PubSub, &["a", "ghost"]);
    bad.payload = Some(any());
    let codes = codes_at(&contract(&["a"], vec![("bad", bad)]));
    assert!(codes.contains(&("self_loop".into(), "connections.bad.to[0]".into())), "{codes:?}");
    assert!(codes.contains(&("unknown_node".into(), "connections.bad.to[1]".into())), "{codes:?}");
}

#[test]
fn detects_empty_enum_and_duplicate_field() {
    let codes = codes_at(&one_typed(vec![
        field("mode", TypeName::Enum),
        field("x", TypeName::Float),
        field("x", TypeName::Int),
    ]));
    assert!(codes.contains(&("empty_enum".into(), "connections.c.payload.fields[0].values".into())), "{codes:?}");
    assert!(codes.contains(&("duplicate_field".into(), "connections.c.payload.fields[2].name".into())), "{codes:?}");
}

#[test]
fn detects_pattern_slot_mismatch() {
    // pub_sub without payload / query with payload
    let mut q = conn(Pattern::Query, &["b"]);
    q.payload = Some(any());
    let codes = codes_at(&contract(&["a", "b"], vec![("p", pub_sub(None)), ("q", q)]));
    assert!(codes.contains(&("missing_slot".into(), "connections.p.payload".into())), "{codes:?}");
    assert!(codes.contains(&("unexpected_slot".into(), "connections.q.payload".into())), "{codes:?}");
    assert!(codes.contains(&("missing_slot".into(), "connections.q.request".into())), "{codes:?}");
    assert!(codes.contains(&("missing_slot".into(), "connections.q.response".into())), "{codes:?}");
}

#[test]
fn detects_missing_items_and_invalid_range() {
    let mut v = field("v", TypeName::Float);
    v.min = Some(float(2.0));
    v.max = Some(float(1.0));
    let codes = codes_at(&one_typed(vec![field("arr", TypeName::Array), v]));
    assert!(codes.contains(&("missing_items".into(), "connections.c.payload.fields[0].items".into())), "{codes:?}");
    assert!(codes.contains(&("invalid_range".into(), "connections.c.payload.fields[1]".into())), "{codes:?}");
}

#[test]
fn bare_name_composite_items_are_validated_not_skipped() {
    // `items: array` / `items: enum` are the shorthand form, and the inner type is checked too
    let mut arr = field("arr", TypeName::Array);
    arr.items = Some(TypeSpec::Name(TypeName::Array));
    let mut e = field("e", TypeName::Array);
    e.items = Some(TypeSpec::Name(TypeName::Enum));
    let codes = codes_at(&one_typed(vec![arr, e]));
    assert!(codes.contains(&("missing_items".into(), "connections.c.payload.fields[0].items.items".into())), "{codes:?}");
    assert!(codes.contains(&("empty_enum".into(), "connections.c.payload.fields[1].items.values".into())), "{codes:?}");
}

#[test]
fn non_finite_bound_is_rejected_finite_bound_is_not() {
    let mut v = field("v", TypeName::Float);
    v.min = Some(Float { bits: f64::NAN.to_bits(), text: "NaN".into() });
    let mut w = field("w", TypeName::Float);
    w.min = Some(float(0.0));
    w.max = Some(float(1.0));
    let codes = codes_at(&one_typed(vec![v, w]));
    assert!(codes.contains(&("non_finite_bound".into(), "connections.c.payload.fields[0]".into())), "{codes:?}");
    assert!(
        !codes.iter().any(|(code, path)| code == "non_finite_bound" && path.contains("fields[1]")),
        "{codes:?}"
    );
}

#[test]
fn invalid_default_is_no() {
    let mut level = field("level", TypeName::Int);
    level.default = Some(Json::Str("abc".into()));
    let diags = validate_schema(&one_typed(vec![level]));
    assert_eq!(diags.len(), 1, "{diags:?}");
    assert_eq!(diags[0].code, "invalid_default");
    assert_eq!(diags[0].path, "connections.c.payload.fields[0].default");
    assert!(diags[0].message.contains("'level'"), "{}", diags[0].message);
}

#[test]
fn valid_default_passes_but_out_of_range_is_no() {
    let level = |d: i64| {
        let mut f = field("level", TypeName::Int);
        f.default = Some(whole(d));
        f.min = Some(float(0.0));
        f.max = Some(float(10.0));
        f
    };
    assert!(validate_schema(&one_typed(vec![level(3)])).is_empty());
    let diags = validate_schema(&one_typed(vec![level(42)]));
    assert_eq!(diags.len(), 1, "{diags:?}");
    assert_eq!(diags[0].code, "invalid_default");
}

#[test]
fn nested_group_default_is_checked() {
    let mut ts = field("ts", TypeName::Timestamp);
    ts.default = Some(Json::Str("not-epoch".into()));
    let mut meta = field("meta", TypeName::Group);
    meta.fields = vec![ts];
    let diags = validate_schema(&one_typed(vec![meta]));
    assert_eq!(diags.len(), 1, "{diags:?}");
    assert_eq!(diags[0].code, "invalid_default");
    assert_eq!(diags[0].path, "connections.c.payload.fields[0].fields[0].default");
}

#[test]
fn selector_roundtrips_and_is_query_only() {
    let mut q = conn(Pattern::Query, &["b"]);
    q.selector = Some("?level=info".into());
    q.request = Some(any());
    q.response = Some(any());
    let c = contract(&["a", "b"], vec![("q", q)]);
    assert_eq!(c.connections[0].1.selector.as_deref(), Some("?level=info"));
    assert!(validate_schema(&c).is_empty());
}

#[test]
fn selector_on_pub_sub_is_no() {
    let mut c = pub_sub(Some(any()));
    c.selector = Some("?x=1".into());
    let diags = validate_schema(&contract(&["a", "b"], vec![("c", c)]));
    assert_eq!(diags.len(), 1, "{diags:?}");
    assert_eq!(diags[0].code, "unexpected_selector");
    assert_eq!(diags[0].path, "connections.c.selector");
}

#[test]
fn broken_type_field_skips_default_check() {
    // a broken type (no items) is reported once, as missing_items, and not again by the default check
    let mut pts = field("pts", TypeName::Array);
    pts.default = Some(Json::Array(vec![whole(1)]));
    let diags = validate_schema(&one_typed(vec![pts]));
    assert_eq!(diags.len(), 1, "{diags:?}");
    assert_eq!(diags[0].code, "missing_items");
}

fn keyed(key: &str) -> Contract {
    let mut c = pub_sub(Some(any()));
    c.key = Some(key.into());
    contract(&["a", "b"], vec![("c", c)])
}

#[test]
fn reserved_sahou_key_prefix_is_rejected() {
    let codes = codes_at(&keyed("@sahou/boom"));
    assert!(codes.contains(&("reserved_key".into(), "connections.c.key".into())), "{codes:?}");
}

#[test]
fn reserved_sahou_chunk_mid_key_is_also_rejected() {
    let codes = codes_at(&keyed("stage/@sahou/boom"));
    assert!(codes.contains(&("reserved_key".into(), "connections.c.key".into())), "{codes:?}");
}

#[test]
fn ordinary_key_override_is_not_reserved() {
    let codes = codes_at(&keyed("stage/custom"));
    assert!(!codes.iter().any(|(code, _)| code == "reserved_key"), "{codes:?}");
}

#[test]
fn reserved_sahou_connection_id_is_rejected() {
    // the default key is `<ns>/<conn_id>`, so a connection named '@sahou/...' collides with the admin space
    let codes = codes_at(&contract(&["a", "b"], vec![("@sahou/vitals/x", pub_sub(Some(any())))]));
    assert!(codes.contains(&("reserved_key".into(), "connections.@sahou/vitals/x".into())), "{codes:?}");
}
