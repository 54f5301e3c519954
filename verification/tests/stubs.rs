use sahou_core::model::{
    Congestion, Descriptor, DescriptorConnection, Encoding, Field, Node, NodeKind, Pattern, Priority,
    Reliability, Slot, SlotKind, TypeName, Typing, ValidateLevel,
};
use sahou_core::stub::{
    check_drift, check_drift_all, check_stub_texts, is_sahou, parse_stub_hashes, parse_stub_node,
    parse_stub_schema, participating_conns,
};
use sahou_core::stubgen::{gen_stub, gen_stub_all, is_valid_ident, pascal_exec, StubLang, TsTarget};

fn field(name: &str, ty: TypeName, required: bool) -> Field {
    Field {
        name: name.into(),
        ty,
        required,
        default: None,
        min: None,
        max: None,
        max_len: None,
        values: vec![],
        items: None,
        any_of: vec![],
        fields: vec![],
    }
}

fn record(fields: Vec<Field>) -> Slot {
    Slot { typing: Typing::Typed, kind: SlotKind::Record, fields, encoding: None }
}

fn conn(pattern: Pattern, from: &str, to: &[&str], key: &str, hash: &str) -> DescriptorConnection {
    DescriptorConnection {
        pattern,
        from: from.into(),
        to: to.iter().map(|s| s.to_string()).collect(),
        key: key.into(),
        hash: hash.into(),
        selector: None,
        reliability: Reliability::Reliable,
        congestion: Congestion::Block,
        priority: Priority::Data,
        express: false,
        encoding: Encoding::Json,
        validate: ValidateLevel::Full,
        payload: None,
        request: None,
        response: None,
    }
}

/// sensor -> visuals (pub_sub `touch`), sensor -> archive (query `get_state`), and an
/// external `plc` node publishing `plc_io` to visuals.
fn demo() -> Descriptor {
    let mut touch = conn(Pattern::PubSub, "sensor", &["visuals"], "sahou/touch", "1111111111111111");
    let mut mode = field("mode", TypeName::Enum, false);
    mode.values = vec!["fast".into(), "slow".into()];
    touch.payload = Some(record(vec![
        field("x", TypeName::Float, true),
        field("y", TypeName::Float, true),
        mode,
    ]));
    let mut get_state = conn(Pattern::Query, "sensor", &["archive"], "sahou/get_state", "2222222222222222");
    get_state.request = Some(record(vec![field("id", TypeName::Int, true)]));
    get_state.response = Some(record(vec![field("state", TypeName::String, true)]));
    let mut plc_io = conn(Pattern::PubSub, "plc", &["visuals"], "sahou/plc_io", "3333333333333333");
    plc_io.payload = Some(Slot { typing: Typing::Any, kind: SlotKind::Opaque, fields: vec![], encoding: None });
    Descriptor {
        schema: "demo".into(),
        version: "1".into(),
        namespace: "sahou".into(),
        nodes: vec![
            ("archive".into(), Node { kind: NodeKind::Sahou }),
            ("plc".into(), Node { kind: NodeKind::External }),
            ("sensor".into(), Node { kind: NodeKind::Sahou }),
            ("visuals".into(), Node { kind: NodeKind::Sahou }),
        ],
        connections: vec![("get_state".into(), get_state), ("plc_io".into(), plc_io), ("touch".into(), touch)],
    }
}

#[test]
fn hash_markers_are_read_in_connection_order() {
    let text = "# sahou:stub node=sensor\n# sahou:hash touch=1111111111111111\n# sahou:hash get_state=2222222222222222\n";
    let h = parse_stub_hashes(text).unwrap();
    assert_eq!(
        h,
        vec![
            ("get_state".to_string(), "2222222222222222".to_string()),
            ("touch".to_string(), "1111111111111111".to_string()),
        ]
    );
}

#[test]
fn repeated_identical_markers_are_fine_and_contradicting_ones_are_not() {
    let same = "// sahou:hash touch=1111111111111111\n# sahou:hash touch=1111111111111111\n";
    assert_eq!(parse_stub_hashes(same).unwrap().len(), 1);
    let bad = "# sahou:hash touch=1111111111111111\n# sahou:hash touch=aaaaaaaaaaaaaaaa\n";
    let e = parse_stub_hashes(bad).unwrap_err();
    assert_eq!(e[0].code, "stub_marker_conflict");
    assert_eq!(e[0].path, "line 2");
    assert!(e[0].message.contains("1111111111111111 / aaaaaaaaaaaaaaaa"), "{}", e[0].message);
}

#[test]
fn malformed_markers_name_their_line() {
    for text in [
        "ok\n# sahou:hash touch=123\n",
        "ok\n# sahou:hash touch\n",
        "ok\n# sahou:hash =1111111111111111\n",
        "ok\n# sahou:hash touch=111111111111111g\n",
    ] {
        let e = parse_stub_hashes(text).unwrap_err();
        assert_eq!(e[0].code, "stub_marker_invalid", "{text}");
        assert_eq!(e[0].path, "line 2");
    }
    assert!(parse_stub_hashes("no markers here\n").unwrap().is_empty());
}

#[test]
fn identity_markers_take_the_first_occurrence_trimmed() {
    let text = "x\n# sahou:stub node= sensor \n# sahou:stub node=other\n";
    assert_eq!(parse_stub_node(text), Some("sensor".to_string()));
    assert_eq!(parse_stub_schema(text), None);
    assert_eq!(parse_stub_schema("// sahou:stub schema=demo\n"), Some("demo".to_string()));
}

#[test]
fn drift_reports_stale_changed_and_missing_connections() {
    let desc = demo();
    let stub = vec![
        ("gone".to_string(), "0000000000000000".to_string()),
        ("touch".to_string(), "9999999999999999".to_string()),
    ];
    let d = check_drift(&desc, "sensor", &stub);
    let codes: Vec<&str> = d.iter().map(|x| x.code.as_str()).collect();
    assert_eq!(codes, vec!["stub_stale_connection", "stub_hash_drift", "stub_missing_connection"]);
    assert_eq!(d[1].path, "connections.touch.hash");
    assert_eq!(d[2].path, "connections.get_state");
    assert!(d[2].message.contains("--node sensor"), "{}", d[2].message);
}

#[test]
fn no_drift_and_unknown_node() {
    let desc = demo();
    let stub = vec![
        ("get_state".to_string(), "2222222222222222".to_string()),
        ("touch".to_string(), "1111111111111111".to_string()),
    ];
    assert!(check_drift(&desc, "sensor", &stub).is_empty());
    let d = check_drift(&desc, "ghost", &stub);
    assert_eq!(d.len(), 1);
    assert_eq!(d[0].code, "unknown_node");
}

#[test]
fn whole_descriptor_drift_covers_connections_touching_sahou_nodes() {
    let desc = demo();
    assert!(is_sahou(&desc, "sensor"));
    assert!(!is_sahou(&desc, "plc"));
    assert!(!is_sahou(&desc, "ghost"));
    assert_eq!(participating_conns(&desc), vec!["get_state", "plc_io", "touch"]);
    let d = check_drift_all(&desc, &vec![("touch".to_string(), "1111111111111111".to_string())]);
    assert_eq!(d.len(), 2);
    assert!(d.iter().all(|x| x.code == "stub_missing_connection"));
    assert!(d[0].message.contains("a sahou node participates"), "{}", d[0].message);
}

#[test]
fn a_generated_stub_has_no_drift() {
    let desc = demo();
    for lang in [StubLang::Python, StubLang::Ts] {
        let files = gen_stub(&desc, "sensor", lang).unwrap();
        assert_eq!(files.len(), 2);
        let texts: Vec<(String, String)> = files.iter().map(|f| (f.rel_path.clone(), f.content.clone())).collect();
        assert_eq!(check_stub_texts(&desc, Some("sensor"), &texts).unwrap(), "sensor");
    }
}

#[test]
fn python_stub_types_records_and_facade() {
    let desc = demo();
    let files = gen_stub(&desc, "sensor", StubLang::Python).unwrap();
    assert_eq!(files[0].rel_path, "sahou_stub.py");
    assert_eq!(files[1].rel_path, "sahou_stub.pyi");
    let pyi = &files[1].content;
    assert!(pyi.starts_with("# sahou:stub node=sensor\n# sahou:hash get_state=2222222222222222\n# sahou:hash touch=1111111111111111\n"), "{pyi}");
    assert!(pyi.contains("class Touch(TypedDict):\n    x: float\n    y: float\n    mode: NotRequired[Literal[\"fast\", \"slow\"]]"), "{pyi}");
    assert!(pyi.contains("class GetStateRequest(TypedDict):\n    id: int"), "{pyi}");
    assert!(pyi.contains("class SensorNode(Protocol):"), "{pyi}");
    assert!(pyi.contains("    def publish(self, conn: Literal[\"touch\"], payload: Touch) -> None: ..."), "{pyi}");
    assert!(pyi.contains("-> GetStateResponse: ..."), "{pyi}");
    assert!(files[0].content.contains("    \"touch\": \"1111111111111111\","), "{}", files[0].content);
}

#[test]
fn typescript_stub_types_interfaces() {
    let desc = demo();
    let files = gen_stub(&desc, "visuals", StubLang::Ts).unwrap();
    assert_eq!(files[0].rel_path, "sahou_stub.mjs");
    let dts = &files[1].content;
    assert!(dts.contains("export interface Touch {\n  x: number;\n  y: number;\n  mode?: \"fast\" | \"slow\";\n}"), "{dts}");
    assert!(dts.contains("  subscribe(conn: \"plc_io\", handler: (payload: unknown)"), "{dts}");
    assert!(dts.contains("export interface VisualsNode {"), "{dts}");
}

#[test]
fn stub_errors_are_structured() {
    let desc = demo();
    let e = gen_stub(&desc, "ghost", StubLang::Python).unwrap_err();
    assert_eq!(e[0].code, "unknown_node");
    let mut bad = demo();
    bad.connections[2].1.payload.as_mut().unwrap().fields[0].name = "x-1".into();
    let e = gen_stub(&bad, "sensor", StubLang::Ts).unwrap_err();
    assert_eq!(e[0].code, "stub_unrepresentable_name");
    assert_eq!(e[0].path, "connections.touch.payload.fields[0].name");
    assert!(e[0].message.contains("TypeScript identifier"), "{}", e[0].message);
    let mut lit = demo();
    lit.connections[2].1.payload.as_mut().unwrap().fields[2].values[1] = "a\u{7}".into();
    let e = gen_stub(&lit, "sensor", StubLang::Python).unwrap_err();
    assert_eq!(e[0].path, "connections.touch.payload.fields[2].values[1]");
}

#[test]
fn a_self_loop_connection_collides() {
    let mut desc = demo();
    desc.connections[2].1.to = vec!["sensor".into()];
    let e = gen_stub(&desc, "sensor", StubLang::Python).unwrap_err();
    assert_eq!(e[0].code, "stub_name_collision");
    assert_eq!(e[0].path, "Touch");
}

#[test]
fn whole_descriptor_stub_has_a_connect_per_sahou_node() {
    let desc = demo();
    let files = gen_stub_all(&desc, StubLang::Ts, TsTarget::Browser).unwrap();
    assert_eq!(files[0].rel_path, "sahou.gen.mjs");
    assert!(files[0].content.contains("export { connect } from \"sahou/browser\";"), "{}", files[0].content);
    let dts = &files[1].content;
    assert!(dts.contains("opts: { node: \"sensor\"; locator?: string }): Promise<SensorNode>;"), "{dts}");
    assert!(!dts.contains("PlcNode"), "{dts}");
    let py = gen_stub_all(&desc, StubLang::Python, TsTarget::Node).unwrap();
    assert_eq!(py[1].rel_path, "sahou_gen.pyi");
    assert!(py[1].content.contains("    @overload\ndef connect(descriptor, node: Literal[\"archive\"]"), "{}", py[1].content);
    assert_eq!(parse_stub_schema(&py[0].content), Some("demo".to_string()));
}

#[test]
fn stub_texts_must_agree_on_their_node() {
    let desc = demo();
    let texts = vec![
        ("a".to_string(), "# sahou:stub node=sensor\n".to_string()),
        ("b".to_string(), "# sahou:stub node=visuals\n".to_string()),
    ];
    let e = check_stub_texts(&desc, None, &texts).unwrap_err();
    assert_eq!(e[0].code, "check_error");
    assert_eq!(e[0].path, "b");
    let e = check_stub_texts(&desc, None, &[]).unwrap_err();
    assert_eq!(e[0].message, "no stub files ([])");
    let e = check_stub_texts(&desc, Some("visuals"), &texts[..1]).unwrap_err();
    assert!(e[0].message.contains("--node 'visuals' was specified"), "{}", e[0].message);
    let e = check_stub_texts(&desc, None, &[("c".to_string(), "nothing".to_string())]).unwrap_err();
    assert!(e[0].message.starts_with("no sahou:stub node= marker"));
}

#[test]
fn names_and_identifiers() {
    assert_eq!(pascal_exec("get_state"), "GetState");
    assert_eq!(pascal_exec("my-node__x"), "MyNodeX");
    assert_eq!(pascal_exec("élan"), "Élan");
    assert!(is_valid_ident("_a1"));
    assert!(!is_valid_ident("1a"));
    assert!(!is_valid_ident(""));
    assert!(!is_valid_ident("a-b"));
}
