use sahou_core::endpoints::Endpoints;
use sahou_core::ir::build_descriptor;
use sahou_core::model::{
    Congestion, Connection, Contract, Descriptor, DescriptorConnection, DetailedType, Encoding, Field, Float, Node,
    NodeKind, Pattern, Priority, Reliability, Slot, SlotKind, TypeName, TypeSpec, Typing, ValidateLevel,
};
use sahou_core::stub::{check_drift, check_stub_texts, parse_stub_hashes, parse_stub_node};
use sahou_core::stubgen::{gen_stub, StubFile, StubLang};

// ---------------------------------------------------------------- the demo installation

fn float(x: f64) -> Float {
    Float { bits: x.to_bits(), text: x.to_string() }
}




fn field(name: &str, ty: TypeName) -> Field {
    Field {
        name: name.into(),
        ty,
        required: true,
        default: None,
        min: None,
        max: None,
        max_len: None,
        values: vec![],
        items: None,
        any_of: vec![],
        fields: vec![],
    }
}

fn typed(fields: Vec<Field>) -> Slot {
    Slot { typing: Typing::Typed, kind: SlotKind::Record, fields, encoding: None }
}

fn conn(pattern: Pattern, to: &[&str]) -> Connection {
    Connection {
        pattern,
        from: "sensor".into(),
        to: to.iter().map(|s| s.to_string()).collect(),
        key: None,
        selector: None,
        reliability: Reliability::Reliable,
        congestion: Congestion::Block,
        priority: Priority::Data,
        express: false,
        encoding: Encoding::Json,
        validate: ValidateLevel::Full,
        payload: None,
        request: None,
        response: None,
    }
}

fn demo() -> Contract {
    let mut x = field("x", TypeName::Float);
    x.min = Some(float(0.0));
    x.max = Some(float(1.0));
    let mut phase = field("phase", TypeName::Enum);
    phase.values = vec!["down".into(), "move".into(), "up".into()];
    let mut source = field("source", TypeName::String);
    source.required = false;
    let mut meta = field("meta", TypeName::Group);
    meta.fields = vec![field("ts", TypeName::Timestamp), source];
    let touch_fields = vec![x, phase, meta];
    let inner = DetailedType {
        ty: TypeName::Array,
        items: Some(TypeSpec::Name(TypeName::Float)),
        values: vec![],
        any_of: vec![],
        fields: vec![],
        min: None,
        max: None,
        max_len: None,
    };
    let mut pts = field("pts", TypeName::Array);
    pts.items = Some(TypeSpec::Detailed(Box::new(inner)));
    let mut sel = field("sel", TypeName::String);
    sel.max_len = Some(64);
    let level = field("level", TypeName::Int);

    let mut touch = conn(Pattern::PubSub, &["visuals", "archive"]);
    touch.payload = Some(typed(touch_fields));
    let mut points = conn(Pattern::PubSub, &["visuals"]);
    points.payload = Some(typed(vec![pts]));
    points.validate = ValidateLevel::Sampled;
    let mut debug_tap = conn(Pattern::PubSub, &["visuals"]);
    debug_tap.payload = Some(Slot { typing: Typing::Any, kind: SlotKind::Record, fields: vec![], encoding: None });
    let mut get_state = conn(Pattern::Query, &["archive"]);
    get_state.request = Some(typed(vec![sel]));
    get_state.response = Some(typed(vec![level]));
    Contract {
        schema: "demo_installation".into(),
        version: "0.1.0".into(),
        nodes: ["archive", "sensor", "visuals"].iter().map(|n| (n.to_string(), Node { kind: NodeKind::Sahou })).collect(),
        connections: vec![
            ("debug_tap".into(), debug_tap),
            ("get_state".into(), get_state),
            ("points".into(), points),
            ("touch".into(), touch),
        ],
    }
}

/// The canonical encoding of a connection that its fingerprint is taken over.
fn canonical(c: &Connection) -> Vec<u8> {
    format!("{c:?}").into_bytes()
}

fn descriptor(c: Contract, e: &Endpoints) -> Descriptor {
    let canon: Vec<Vec<u8>> = c.connections.iter().map(|(_, conn)| canonical(conn)).collect();
    build_descriptor(c, e, &canon)
}

fn desc() -> Descriptor {
    descriptor(demo(), &Endpoints::default())
}

fn get<'a>(d: &'a Descriptor, id: &str) -> &'a DescriptorConnection {
    &d.connections.iter().find(|(k, _)| k == id).unwrap().1
}

fn content_of<'a>(files: &'a [StubFile], rel: &str) -> &'a str {
    &files.iter().find(|f| f.rel_path == rel).unwrap_or_else(|| panic!("{rel} not found")).content
}

/// A contract of two nodes `a` -> `b` whose connections carry the given typed fields.
fn two_nodes(conns: Vec<(&str, Vec<Field>)>) -> Descriptor {
    let connections = conns
        .into_iter()
        .map(|(id, fields)| {
            let mut c = conn(Pattern::PubSub, &["b"]);
            c.from = "a".into();
            c.payload = Some(typed(fields));
            (id.to_string(), c)
        })
        .collect();
    let c = Contract {
        schema: "s".into(),
        version: "1".into(),
        nodes: ["a", "b"].iter().map(|n| (n.to_string(), Node { kind: NodeKind::Sahou })).collect(),
        connections,
    };
    descriptor(c, &Endpoints::default())
}

// ---------------------------------------------------------------- generation

#[test]
fn python_stub_has_typeddict_payload_types() {
    let files = gen_stub(&desc(), "sensor", StubLang::Python).unwrap();
    let py = content_of(&files, "sahou_stub.py");
    // record -> TypedDict / enum -> Literal / group -> path-concatenated name / required:false -> NotRequired
    assert!(py.contains("class Touch(TypedDict):"), "{py}");
    assert!(py.contains("    x: float"), "{py}");
    assert!(py.contains(r#"    phase: Literal["down", "move", "up"]"#), "{py}");
    assert!(py.contains("    meta: TouchMeta"), "{py}");
    assert!(py.contains("class TouchMeta(TypedDict):"), "{py}");
    assert!(py.contains("    ts: int"), "{py}"); // timestamp = epoch ms integer
    assert!(py.contains("    source: NotRequired[str]"), "{py}");
    // nested array (points: array<array<float>>)
    assert!(py.contains("class Points(TypedDict):"), "{py}");
    assert!(py.contains("    pts: list[list[float]]"), "{py}");
    // the two slots of a query
    assert!(py.contains("class GetStateRequest(TypedDict):"), "{py}");
    assert!(py.contains("class GetStateResponse(TypedDict):"), "{py}");
    assert!(py.contains("    level: int"), "{py}");
}

#[test]
fn ts_stub_has_interface_payload_types() {
    let files = gen_stub(&desc(), "visuals", StubLang::Ts).unwrap();
    let dts = content_of(&files, "sahou_stub.d.mts");
    assert!(dts.contains("export interface Touch {"), "{dts}");
    assert!(dts.contains("  x: number;"), "{dts}");
    assert!(dts.contains(r#"  phase: "down" | "move" | "up";"#), "{dts}");
    assert!(dts.contains("  meta: TouchMeta;"), "{dts}");
    assert!(dts.contains("  source?: string;"), "{dts}"); // required:false -> optional
    assert!(dts.contains("  pts: Array<Array<number>>;"), "{dts}");
}

#[test]
fn generation_is_deterministic() {
    let d = desc();
    for lang in [StubLang::Python, StubLang::Ts] {
        let a = gen_stub(&d, "sensor", lang).unwrap();
        let b = gen_stub(&d, "sensor", lang).unwrap();
        assert_eq!(a, b, "regeneration must not produce a diff");
    }
}

#[test]
fn unknown_node_is_core_diag() {
    let err = gen_stub(&desc(), "ghost", StubLang::Python).unwrap_err();
    assert_eq!(err[0].code, "unknown_node");
}

#[test]
fn type_name_collision_is_structured_no() {
    // touch's group `meta` (TouchMeta) and touch_meta's payload type (TouchMeta) collapse to one name
    let mut meta = field("meta", TypeName::Group);
    meta.fields = vec![field("ts", TypeName::Timestamp)];
    let d = two_nodes(vec![("touch", vec![meta]), ("touch_meta", vec![field("v", TypeName::Int)])]);
    let err = gen_stub(&d, "a", StubLang::Python).unwrap_err();
    assert_eq!(err[0].code, "stub_name_collision");
    assert!(err[0].message.contains("TouchMeta"), "{}", err[0].message);
}

#[test]
fn python_facade_overloads_match_engine_api() {
    let files = gen_stub(&desc(), "sensor", StubLang::Python).unwrap();
    let pyi = content_of(&files, "sahou_stub.pyi");
    // sensor = publishes {touch, points, debug_tap} + queries {get_state}
    assert!(pyi.contains("class SensorNode(Protocol):"), "{pyi}");
    assert!(pyi.contains(r#"    def publish(self, conn: Literal["touch"], payload: Touch) -> None: ..."#), "{pyi}");
    assert!(pyi.contains(r#"    def publish(self, conn: Literal["debug_tap"], payload: Any) -> None: ..."#), "{pyi}");
    assert!(pyi.contains("@overload"), "publish over 3 connections must be overloaded: {pyi}");
    assert!(
        pyi.contains(
            r#"    def query_confirmed(self, conn: Literal["get_state"], payload: GetStateRequest, *, timeout: float = ..., retries: int = ..., backoff: float = ...) -> GetStateResponse: ..."#
        ),
        "{pyi}"
    );
    assert!(pyi.contains("def typed_node(node: object) -> SensorNode: ..."), "{pyi}");
    // directions sensor does not take part in do not exist in the type
    assert!(!pyi.contains("def subscribe"), "{pyi}");
    assert!(!pyi.contains("def answer"), "{pyi}");
    // the runtime side is identity + SCHEMA_HASHES only
    let py = content_of(&files, "sahou_stub.py");
    assert!(py.contains("def typed_node(node):"), "{py}");
    assert!(py.contains("SCHEMA_HASHES"), "{py}");
    assert!(!py.contains("import sahou\n"), "the stub is engine-independent: {py}");
}

#[test]
fn python_facade_subscribe_and_answer_for_receiver_nodes() {
    let files = gen_stub(&desc(), "archive", StubLang::Python).unwrap();
    let pyi = content_of(&files, "sahou_stub.pyi");
    // archive = subscribes {touch} + answers {get_state}
    assert!(pyi.contains(r#"conn: Literal["touch"], handler: Callable[[Touch], object]"#), "{pyi}");
    assert!(
        pyi.contains(
            r#"    def answer(self, conn: Literal["get_state"], fn: Callable[[GetStateRequest], GetStateResponse]) -> Callable[[GetStateRequest], GetStateResponse]: ..."#
        ),
        "{pyi}"
    );
    assert!(!pyi.contains("def publish"), "{pyi}");
}

#[test]
fn ts_facade_overloads_match_engine_api() {
    let files = gen_stub(&desc(), "visuals", StubLang::Ts).unwrap();
    let dts = content_of(&files, "sahou_stub.d.mts");
    // visuals = subscribes {touch, points, debug_tap} only
    assert!(dts.contains("export interface VisualsNode {"), "{dts}");
    assert!(
        dts.contains(
            r#"  subscribe(conn: "touch", handler: (payload: Touch) => void | Promise<void>, opts?: { onReject?: OnReject }): Promise<void>;"#
        ),
        "{dts}"
    );
    assert!(dts.contains(r#"  subscribe(conn: "debug_tap", handler: (payload: unknown) => void | Promise<void>"#), "{dts}");
    assert!(dts.contains("export declare function typedNode(node: unknown): VisualsNode;"), "{dts}");
    assert!(!dts.contains("publish("), "directions it does not take part in do not exist in the type: {dts}");
    let mjs = content_of(&files, "sahou_stub.mjs");
    assert!(mjs.contains("export const typedNode = (node) => node;"), "{mjs}");
    assert!(mjs.contains("export const SCHEMA_HASHES = Object.freeze({"), "{mjs}");
}

#[test]
fn all_stub_files_carry_hash_markers() {
    let d = desc();
    let files = gen_stub(&d, "sensor", StubLang::Python).unwrap();
    let touch_hash = &get(&d, "touch").hash;
    let gs_hash = &get(&d, "get_state").hash;
    for f in &files {
        assert!(f.content.contains("sahou:stub node=sensor"), "{}", f.rel_path);
        assert!(f.content.contains(&format!("sahou:hash touch={touch_hash}")), "{}", f.rel_path);
        assert!(f.content.contains(&format!("sahou:hash get_state={gs_hash}")), "{}", f.rel_path);
    }
}

#[test]
fn roundtrip_markers_and_check_ok() {
    let d = desc();
    // generate -> parse -> compare: zero drift (the emitter and the parser share the format)
    let files = gen_stub(&d, "sensor", StubLang::Python).unwrap();
    let all: String = files.iter().map(|f| f.content.as_str()).collect::<Vec<_>>().join("\n");
    assert_eq!(parse_stub_node(&all).as_deref(), Some("sensor"));
    let hashes = parse_stub_hashes(&all).unwrap();
    assert_eq!(hashes.iter().find(|(k, _)| k == "touch").unwrap().1, get(&d, "touch").hash);
    assert_eq!(hashes.len(), 4); // touch / points / debug_tap / get_state
    assert!(check_drift(&d, "sensor", &hashes).is_empty());
}

#[test]
fn hash_drift_is_structured_no() {
    let d = desc();
    let hashes: Vec<(String, String)> = d
        .connections
        .iter()
        .filter(|(id, _)| ["touch", "points", "debug_tap", "get_state"].contains(&id.as_str()))
        .map(|(id, c)| (id.clone(), if id == "touch" { "0000000000000000".to_string() } else { c.hash.clone() }))
        .collect();
    let diags = check_drift(&d, "sensor", &hashes);
    assert_eq!(diags.len(), 1);
    assert_eq!(diags[0].code, "stub_hash_drift");
    assert_eq!(diags[0].path, "connections.touch.hash");
    assert!(diags[0].message.contains("Regenerate"), "{}", diags[0].message);
}

#[test]
fn stale_and_missing_connections_are_classified() {
    // the stub has only ghost (absent from the descriptor) and none of sensor's connections
    let hashes = vec![("ghost".to_string(), "1111111111111111".to_string())];
    let diags = check_drift(&desc(), "sensor", &hashes);
    let codes: Vec<&str> = diags.iter().map(|d| d.code.as_str()).collect();
    assert!(codes.contains(&"stub_stale_connection"), "{codes:?}");
    // all four connections sensor takes part in are missing
    assert_eq!(codes.iter().filter(|c| **c == "stub_missing_connection").count(), 4, "{codes:?}");
}

#[test]
fn unknown_node_in_check_is_core_diag() {
    let diags = check_drift(&desc(), "ghost", &vec![]);
    assert_eq!(diags[0].code, "unknown_node");
}

#[test]
fn kebab_case_field_name_is_structured_no_python() {
    // a field name that is no identifier is a structured NO at generation time
    let d = two_nodes(vec![("touch", vec![field("my-field", TypeName::Int)])]);
    let err = gen_stub(&d, "a", StubLang::Python).unwrap_err();
    assert_eq!(err[0].code, "stub_unrepresentable_name");
    assert!(err[0].message.contains("my-field"), "{}", err[0].message);
    assert!(err[0].path.contains("touch"), "{}", err[0].path);
}

#[test]
fn kebab_case_field_name_is_structured_no_ts() {
    let d = two_nodes(vec![("touch", vec![field("my-field", TypeName::Int)])]);
    let err = gen_stub(&d, "a", StubLang::Ts).unwrap_err();
    assert_eq!(err[0].code, "stub_unrepresentable_name");
    assert!(err[0].message.contains("my-field"), "{}", err[0].message);
}

#[test]
fn nested_group_kebab_case_field_name_is_no() {
    let mut meta = field("meta", TypeName::Group);
    meta.fields = vec![field("bad-name", TypeName::Int)];
    let d = two_nodes(vec![("touch", vec![meta])]);
    let err = gen_stub(&d, "a", StubLang::Python).unwrap_err();
    assert_eq!(err[0].code, "stub_unrepresentable_name");
    assert!(err[0].message.contains("bad-name"), "{}", err[0].message);
}

#[test]
fn enum_value_with_control_char_is_structured_no() {
    let mut phase = field("phase", TypeName::Enum);
    phase.values = vec!["down".into(), "bad\u{1b}value".into()];
    let d = two_nodes(vec![("touch", vec![phase])]);
    let err = gen_stub(&d, "a", StubLang::Python).unwrap_err();
    assert_eq!(err[0].code, "stub_unrepresentable_name");
    assert!(err[0].message.contains("control character"), "{}", err[0].message);
}

#[test]
fn valid_snake_case_names_generate_successfully() {
    assert!(!gen_stub(&desc(), "sensor", StubLang::Python).unwrap().is_empty());
    assert!(!gen_stub(&desc(), "visuals", StubLang::Ts).unwrap().is_empty());
}

#[test]
fn conflicting_markers_are_no() {
    let text = "# sahou:hash touch=aaaaaaaaaaaaaaaa\n# sahou:hash touch=bbbbbbbbbbbbbbbb\n";
    assert_eq!(parse_stub_hashes(text).unwrap_err()[0].code, "stub_marker_conflict");
}

#[test]
fn malformed_marker_is_no_not_silently_skipped() {
    assert_eq!(parse_stub_hashes("# sahou:hash touch\n").unwrap_err()[0].code, "stub_marker_invalid");
    assert_eq!(parse_stub_hashes("# sahou:hash touch=short\n").unwrap_err()[0].code, "stub_marker_invalid");
}

// ---------------------------------------------------------------- check

fn stub_texts(d: &Descriptor, node: &str) -> Vec<(String, String)> {
    gen_stub(d, node, StubLang::Python).unwrap().into_iter().map(|f| (f.rel_path, f.content)).collect()
}

#[test]
fn fresh_stub_passes() {
    let d = desc();
    let texts = stub_texts(&d, "sensor");
    assert_eq!(check_stub_texts(&d, None, &texts).unwrap(), "sensor");
    assert_eq!(check_stub_texts(&d, Some("sensor"), &texts).unwrap(), "sensor");
}

#[test]
fn changed_contract_is_hash_drift_no() {
    let d = desc();
    let texts = stub_texts(&d, "sensor");
    // a contract change, seen as a different descriptor-side hash
    let mut changed = desc();
    changed.connections.iter_mut().find(|(k, _)| k == "touch").unwrap().1.hash = "ffffffffffffffff".into();
    let err = check_stub_texts(&changed, None, &texts).unwrap_err();
    assert_eq!(err[0].code, "stub_hash_drift");
}

#[test]
fn node_marker_mismatch_is_no() {
    let d = desc();
    let texts = stub_texts(&d, "sensor");
    let err = check_stub_texts(&d, Some("visuals"), &texts).unwrap_err();
    assert_eq!(err[0].code, "check_error");
    assert!(err[0].message.contains("sensor"), "{}", err[0].message);
}

#[test]
fn missing_node_marker_is_no() {
    let texts = vec![("sahou_stub.py".to_string(), "# no marker\n".to_string())];
    let err = check_stub_texts(&desc(), None, &texts).unwrap_err();
    assert_eq!(err[0].code, "check_error");
}

#[test]
fn each_generated_file_reads_back_in_both_languages() {
    let d = desc();
    for lang in [StubLang::Python, StubLang::Ts] {
        let files = gen_stub(&d, "sensor", lang).unwrap();
        let all: String = files.iter().map(|f| f.content.as_str()).collect::<Vec<_>>().join("\n");
        let joined = parse_stub_hashes(&all).unwrap();
        assert_eq!(joined.len(), 4);
        for f in &files {
            assert_eq!(parse_stub_node(&f.content).as_deref(), Some("sensor"));
            assert_eq!(parse_stub_hashes(&f.content).unwrap(), joined);
        }
        let names: Vec<&str> = joined.iter().map(|(k, _)| k.as_str()).collect();
        assert_eq!(names, vec!["debug_tap", "get_state", "points", "touch"]);
        for (k, h) in &joined {
            assert_eq!(h, &get(&d, k).hash);
        }
        assert!(check_drift(&d, "sensor", &joined).is_empty());
    }
}

#[test]
fn a_stub_read_twice_reads_the_same() {
    let d = desc();
    let files = gen_stub(&d, "sensor", StubLang::Python).unwrap();
    let text = files[0].content.clone();
    let twice = format!("{text}\n{text}");
    assert_eq!(parse_stub_hashes(&twice).unwrap(), parse_stub_hashes(&text).unwrap());
    let with_notes = format!("{text}# a note\nplain line\n");
    assert_eq!(parse_stub_hashes(&with_notes).unwrap(), parse_stub_hashes(&text).unwrap());
}
