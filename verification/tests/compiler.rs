//! Schema parsing and binding compilation, document to text.

use whale_land::ObjectId;
use whale_land::document::{collect_text, DocElement, DocNode};
use whale_land::iter_ext::{SingleIterError, SingleIterExt};
use whale_land::model::ArgType;
use whale_land::output::Tokenizer;
use whale_land::packet::Packet;
use whale_land::parser::{
    parse_protocol_document, parse_u32_base_prefix, process_protocol, SchemaError,
};

fn elem(name: &str, attrs: &[(&str, &str)], children: Vec<DocNode>) -> DocElement {
    DocElement {
        name: name.to_owned(),
        attributes: attrs.iter().map(|(k, v)| ((*k).to_owned(), (*v).to_owned())).collect(),
        children,
    }
}

/// A schema declaring an interface at version 10 with a zero-argument
/// request and an event carrying one string argument.
fn seat_schema() -> DocElement {
    elem(
        "protocol",
        &[("name", "scenario")],
        vec![DocNode::Element(elem(
            "interface",
            &[("name", "wl_seat"), ("version", "10")],
            vec![
                DocNode::Element(elem("request", &[("name", "release")], vec![])),
                DocNode::Element(elem(
                    "event",
                    &[("name", "name")],
                    vec![DocNode::Element(elem(
                        "arg",
                        &[("name", "name"), ("type", "string")],
                        vec![],
                    ))],
                )),
            ],
        ))],
    )
}

#[test]
fn parses_names_versions_and_args() {
    let proto = process_protocol(&seat_schema()).unwrap();
    assert_eq!(proto.name, "scenario");
    assert_eq!(proto.interfaces.len(), 1);
    let iface = &proto.interfaces[0];
    assert_eq!(iface.name, "wl_seat");
    assert_eq!(iface.version, 10);
    assert_eq!(iface.requests.len(), 1);
    assert_eq!(iface.requests[0].name, "release");
    assert_eq!(iface.requests[0].args.len(), 0);
    assert_eq!(iface.events.len(), 1);
    assert_eq!(iface.events[0].name, "name");
    assert_eq!(iface.events[0].args.len(), 1);
    assert_eq!(iface.events[0].args[0].arg_type, ArgType::String);
}

#[test]
fn parser_requires_name_and_type() {
    let bad = elem(
        "protocol",
        &[("name", "p")],
        vec![DocNode::Element(elem(
            "interface",
            &[("name", "i"), ("version", "1")],
            vec![DocNode::Element(elem(
                "request",
                &[("name", "r")],
                vec![DocNode::Element(elem("arg", &[("name", "a")], vec![]))],
            ))],
        ))],
    );
    match process_protocol(&bad) {
        Err(SchemaError::MissingAttribute { element, attribute }) => {
            assert_eq!(element, "arg");
            assert_eq!(attribute, "type");
        },
        other => panic!("expected a missing-attribute failure, got {:?}", other),
    }
}

#[test]
fn parser_rejects_unknown_arg_type() {
    let bad = elem(
        "protocol",
        &[("name", "p")],
        vec![DocNode::Element(elem(
            "interface",
            &[("name", "i"), ("version", "1")],
            vec![DocNode::Element(elem(
                "request",
                &[("name", "r")],
                vec![DocNode::Element(elem(
                    "arg",
                    &[("name", "a"), ("type", "quaternion")],
                    vec![],
                ))],
            ))],
        ))],
    );
    match process_protocol(&bad) {
        Err(SchemaError::InvalidAttribute { element, attribute }) => {
            assert_eq!(element, "arg");
            assert_eq!(attribute, "type");
        },
        other => panic!("expected an invalid-attribute failure, got {:?}", other),
    }
}

#[test]
fn parser_rejects_non_numeric_version() {
    let bad = elem(
        "protocol",
        &[("name", "p")],
        vec![DocNode::Element(elem("interface", &[("name", "i"), ("version", "new")], vec![]))],
    );
    match process_protocol(&bad) {
        Err(SchemaError::InvalidAttribute { element, attribute }) => {
            assert_eq!(element, "interface");
            assert_eq!(attribute, "version");
        },
        other => panic!("expected an invalid-attribute failure, got {:?}", other),
    }
}

#[test]
fn document_must_hold_one_protocol() {
    let none: Vec<DocNode> = vec![DocNode::Text("stray".to_owned())];
    assert_eq!(parse_protocol_document(&none).unwrap_err(), SchemaError::NoRootElement);

    let two = vec![
        DocNode::Element(elem("protocol", &[("name", "a")], vec![])),
        DocNode::Element(elem("protocol", &[("name", "b")], vec![])),
    ];
    assert_eq!(parse_protocol_document(&two).unwrap_err(), SchemaError::MultipleRootElements);

    let wrong = vec![DocNode::Element(elem("interface", &[("name", "a")], vec![]))];
    assert_eq!(parse_protocol_document(&wrong).unwrap_err(), SchemaError::RootNotProtocol);

    let good = vec![
        DocNode::Text("   ".to_owned()),
        DocNode::Element(elem("protocol", &[("name", "a")], vec![])),
        DocNode::Other,
    ];
    assert_eq!(parse_protocol_document(&good).unwrap().name, "a");
}

#[test]
fn unknown_elements_and_copyright_are_ignored() {
    let proto_elem = elem(
        "protocol",
        &[("name", "p")],
        vec![
            DocNode::Element(elem("copyright", &[], vec![DocNode::Text("none".to_owned())])),
            DocNode::Element(elem("hologram", &[], vec![])),
            DocNode::Element(elem("interface", &[("name", "i"), ("version", "3")], vec![])),
        ],
    );
    let proto = process_protocol(&proto_elem).unwrap();
    assert_eq!(proto.interfaces.len(), 1);
}

#[test]
fn enum_values_accept_decimal_hex_and_binary() {
    let proto_elem = elem(
        "protocol",
        &[("name", "p")],
        vec![DocNode::Element(elem(
            "interface",
            &[("name", "i"), ("version", "1")],
            vec![DocNode::Element(elem(
                "enum",
                &[("name", "mode")],
                vec![
                    DocNode::Element(elem("entry", &[("name", "a"), ("value", "12")], vec![])),
                    DocNode::Element(elem("entry", &[("name", "b"), ("value", "0x1f")], vec![])),
                    DocNode::Element(elem("entry", &[("name", "c"), ("value", "0b101")], vec![])),
                ],
            ))],
        ))],
    );
    let proto = process_protocol(&proto_elem).unwrap();
    let en = &proto.interfaces[0].enums[0];
    assert_eq!(en.variants[0].value, 12);
    assert_eq!(en.variants[1].value, 0x1F);
    assert_eq!(en.variants[2].value, 5);
}

#[test]
fn numeric_literals_parse_exactly() {
    assert_eq!(parse_u32_base_prefix("0"), Some(0));
    assert_eq!(parse_u32_base_prefix("4294967295"), Some(u32::MAX));
    assert_eq!(parse_u32_base_prefix("4294967296"), None);
    assert_eq!(parse_u32_base_prefix("0xFF"), Some(255));
    assert_eq!(parse_u32_base_prefix("0xff"), Some(255));
    assert_eq!(parse_u32_base_prefix("0b110"), Some(6));
    assert_eq!(parse_u32_base_prefix(""), None);
    assert_eq!(parse_u32_base_prefix("0x"), None);
    assert_eq!(parse_u32_base_prefix("12a"), None);
    assert_eq!(parse_u32_base_prefix("0b102"), None);
}

#[test]
fn descriptions_are_collected() {
    let proto_elem = elem(
        "protocol",
        &[("name", "p")],
        vec![DocNode::Element(elem(
            "interface",
            &[("name", "i"), ("version", "1")],
            vec![DocNode::Element(elem(
                "description",
                &[("summary", "short form")],
                vec![
                    DocNode::Text("long ".to_owned()),
                    DocNode::Element(elem("em", &[], vec![DocNode::Text("form".to_owned())])),
                ],
            ))],
        ))],
    );
    let proto = process_protocol(&proto_elem).unwrap();
    let iface = &proto.interfaces[0];
    assert_eq!(iface.short_description.as_deref(), Some("short form"));
    assert_eq!(iface.description.as_deref(), Some("long form"));
}

#[test]
fn collect_text_walks_nested_elements() {
    let e = elem(
        "d",
        &[],
        vec![
            DocNode::Text("a".to_owned()),
            DocNode::Other,
            DocNode::Element(elem("x", &[], vec![DocNode::Text("b".to_owned())])),
            DocNode::Text("c".to_owned()),
        ],
    );
    assert_eq!(collect_text(&e), "abc");
}

#[test]
fn single_takes_exactly_one() {
    let one: Vec<u32> = vec![5];
    assert_eq!(one.single().unwrap(), 5);
    let none: Vec<u32> = vec![];
    assert!(matches!(none.single(), Err(SingleIterError::NoItem)));
    let many: Vec<u32> = vec![1, 2, 3];
    assert!(matches!(
        many.single(),
        Err(SingleIterError::MultipleItems { first: 1, second: 2 })
    ));
}

#[test]
fn arg_type_names_form_a_closed_set() {
    assert_eq!(ArgType::try_from_str("uint"), Some(ArgType::Uint));
    assert_eq!(ArgType::try_from_str("int"), Some(ArgType::Int));
    assert_eq!(ArgType::try_from_str("fixed"), Some(ArgType::Fixed));
    assert_eq!(ArgType::try_from_str("string"), Some(ArgType::String));
    assert_eq!(ArgType::try_from_str("object"), Some(ArgType::ObjectId));
    assert_eq!(ArgType::try_from_str("new_id"), Some(ArgType::NewId));
    assert_eq!(ArgType::try_from_str("array"), Some(ArgType::Array));
    assert_eq!(ArgType::try_from_str("fd"), Some(ArgType::FileDescriptor));
    assert_eq!(ArgType::try_from_str("surface"), None);
}

#[test]
fn compilation_is_deterministic() {
    let proto_a = process_protocol(&seat_schema()).unwrap();
    let proto_b = process_protocol(&seat_schema()).unwrap();
    let sync_once = Tokenizer::new(false).protocol_to_code(&proto_a);
    let sync_twice = Tokenizer::new(false).protocol_to_code(&proto_b);
    assert_eq!(sync_once, sync_twice);
    let async_once = Tokenizer::new(true).protocol_to_code(&proto_a);
    let async_twice = Tokenizer::new(true).protocol_to_code(&proto_b);
    assert_eq!(async_once, async_twice);
    assert_ne!(sync_once, async_once);
}

#[test]
fn compiled_text_declares_the_generated_surface() {
    let proto = process_protocol(&seat_schema()).unwrap();
    let code = Tokenizer::new(true).protocol_to_code(&proto);
    assert!(code.contains("pub struct wl_seat_v10_request_proxy<'a>"));
    assert!(code.contains("pub async fn send_release(&self, target: ObjectId)"));
    assert!(code.contains("pub trait wl_seat_v10_event_handler"));
    assert!(code.contains("async fn handle_name(&self, connection: &Connection, packet: &Packet, name: String);"));
    assert!(code.contains("pub struct wl_seat_v10_event_name_args"));
    assert!(code.contains("let name = reader.read_str()?;"));
    assert!(code.contains("reader.finish()?;"));
    assert!(code.contains("wl_seat_v10_dispatch_event"));

    let sync_code = Tokenizer::new(false).protocol_to_code(&proto);
    assert!(sync_code.contains("pub fn send_release(&self, target: ObjectId)"));
    assert!(!sync_code.contains(".await"));
}

#[test]
fn compiled_text_for_an_empty_protocol_is_exactly_the_preamble() {
    let proto = process_protocol(&elem("protocol", &[("name", "empty")], vec![])).unwrap();
    let code = Tokenizer::new(false).protocol_to_code(&proto);
    assert_eq!(
        code,
        "// Bindings for protocol empty.\n\nuse crate::{Connection, Error, Fixed, NewObject, NewObjectId, ObjectId, Packet};\n\n"
    );
}

#[test]
fn compiled_enums_carry_wire_values() {
    let proto_elem = elem(
        "protocol",
        &[("name", "p")],
        vec![DocNode::Element(elem(
            "interface",
            &[("name", "i"), ("version", "2")],
            vec![DocNode::Element(elem(
                "enum",
                &[("name", "mode")],
                vec![DocNode::Element(elem(
                    "entry",
                    &[("name", "fast"), ("value", "0x10")],
                    vec![],
                ))],
            ))],
        ))],
    );
    let proto = process_protocol(&proto_elem).unwrap();
    let code = Tokenizer::new(false).protocol_to_code(&proto);
    assert!(code.contains("pub const i_v2_mode_fast: u32 = 16;\n"));
}

/// The seat scenario's handler contract, written out as the compiled trait
/// text declares it.
trait SeatEventHandler {
    fn handle_name(&mut self, name: String);
}

struct RecordingHandler {
    seen: Vec<String>,
}

impl SeatEventHandler for RecordingHandler {
    fn handle_name(&mut self, name: String) {
        self.seen.push(name);
    }
}

#[test]
fn scenario_seat_name_event_reaches_handler() {
    // compile the schema
    let proto = process_protocol(&seat_schema()).unwrap();
    let code = Tokenizer::new(false).protocol_to_code(&proto);
    // the generated decode path for the "name" event reads one string and
    // then requires the packet to be exhausted
    assert!(code.contains("pub struct wl_seat_v10_event_name_args"));
    assert!(code.contains("let name = reader.read_str()?;"));

    // a synthetic packet whose opcode matches "name" (the first event) and
    // whose payload encodes the string "seat0"
    let event = &proto.interfaces[0].events[0];
    assert_eq!(event.name, "name");
    let opcode = 0u16;
    let mut packet = Packet::new(ObjectId(3), opcode);
    packet.push_str("seat0");

    // drive the decode path the compiled text prescribes and invoke the
    // handler's method
    let mut handler = RecordingHandler { seen: Vec::new() };
    assert_eq!(packet.opcode(), opcode);
    let mut reader = packet.read();
    let name = reader.read_str().unwrap();
    reader.finish().unwrap();
    handler.handle_name(name);

    assert_eq!(handler.seen, vec!["seat0".to_owned()]);
}
