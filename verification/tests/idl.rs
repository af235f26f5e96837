use zlink::names::{is_valid_field_name, is_valid_interface_name, is_valid_type_name};
use zlink::idl::parse::{header_stop_offset, parse_interface, Error};
use zlink::idl::{CustomType, Interface, Type};

#[test]
fn display() {
    let cases = [
        (Error::Empty, "Input is empty"),
        (
            Error::TrailingInput("extra junk".to_string()),
            "Unexpected remaining input: \"extra junk\"",
        ),
        (Error::Parse("bad token".to_string()), "Parse error: bad token"),
    ];

    for (error, expected) in cases {
        assert_eq!(error.message(), expected);
    }
}

const FTL: &str = "# Interface to jump a spacecraft to another point in space.
interface org.example.ftl

# The current state of the FTL drive and the amount of fuel available to jump.
type DriveCondition (
  state: (idle, spooling, busy),
  tylium_level: int
)

type Coordinate (
  longitude: float,
  latitude: float,
  distance: int
)

# Monitor the drive.
method Monitor() -> (condition: DriveCondition)

method CalculateConfiguration(
  current: Coordinate,
  target: Coordinate
) -> (configuration: ?[string]object)

method Jump(configuration: object) -> ()

error NotEnoughEnergy ()

error ParameterOutOfRange (field: string)
";

#[test]
fn parses_a_whole_interface() {
    let iface = parse_interface(FTL).unwrap();
    assert_eq!(iface.name(), "org.example.ftl");
    assert_eq!(iface.comments().len(), 1);
    assert_eq!(
        iface.comments()[0].content(),
        "Interface to jump a spacecraft to another point in space."
    );

    let methods = iface.methods();
    assert_eq!(methods.len(), 3);
    assert_eq!(methods[0].name(), "Monitor");
    assert_eq!(methods[0].inputs().len(), 0);
    assert_eq!(methods[0].outputs().len(), 1);
    assert_eq!(methods[0].outputs()[0].name(), "condition");
    assert_eq!(*methods[0].outputs()[0].ty(), Type::Custom("DriveCondition".to_string()));
    assert_eq!(methods[1].name(), "CalculateConfiguration");
    assert_eq!(methods[1].inputs().len(), 2);
    assert_eq!(
        *methods[1].outputs()[0].ty(),
        Type::Optional(Box::new(Type::Dict(Box::new(Type::ForeignObject))))
    );
    assert_eq!(methods[2].name(), "Jump");

    let types = iface.custom_types();
    assert_eq!(types.len(), 2);
    match &types[0] {
        CustomType::Object(o) => {
            assert_eq!(o.name, "DriveCondition");
            assert_eq!(o.fields.len(), 2);
            assert_eq!(o.fields[0].name(), "state");
            match o.fields[0].ty() {
                Type::Enum(vs) => {
                    let names: Vec<&str> = vs.iter().map(|v| v.name()).collect();
                    assert_eq!(names, ["idle", "spooling", "busy"]);
                }
                other => panic!("expected an inline enum, got {other:?}"),
            }
            assert_eq!(*o.fields[1].ty(), Type::Int);
        }
        other => panic!("expected an object, got {other:?}"),
    }

    let errors = iface.errors();
    assert_eq!(errors.len(), 2);
    assert_eq!(errors[0].name(), "NotEnoughEnergy");
    assert_eq!(errors[0].fields().len(), 0);
    assert_eq!(errors[1].name(), "ParameterOutOfRange");
    assert_eq!(errors[1].fields()[0].name(), "field");
    assert_eq!(*errors[1].fields()[0].ty(), Type::String);
}

#[test]
fn empty_input_is_refused() {
    assert_eq!(parse_interface("").unwrap_err(), Error::Empty);
    assert_eq!(parse_interface(" \n\t ").unwrap_err(), Error::Empty);
}

#[test]
fn trailing_input_is_refused() {
    let err = parse_interface("interface org.example.a\nmethod F() -> ()\n!!!").unwrap_err();
    assert_eq!(err, Error::TrailingInput("!!!".to_string()));
}

fn failure_at(rest: &str) -> Error {
    Error::Parse(format!("Parse error: Parsing Error: InputError {{ input: {:?} }}", rest.as_bytes()))
}

#[test]
fn a_bad_header_is_a_parse_error() {
    assert!(matches!(parse_interface("interfaceorg.example.a"), Err(Error::Parse(_))));
    assert!(matches!(parse_interface("interface example"), Err(Error::Parse(_))));
}

#[test]
fn a_bad_header_reports_where_parsing_stopped() {
    // No whitespace after the keyword.
    assert_eq!(parse_interface("interfaceorg.example.a").unwrap_err(), failure_at("org.example.a"));
    // A name with no dot: the parse ran to the end.
    assert_eq!(
        parse_interface("interface example").unwrap_err(),
        Error::Parse("Parse error: Parsing Error: InputError { input: [] }".to_string())
    );
    // No keyword at all, after the leading comments.
    assert_eq!(parse_interface("# c\nmethod F() -> ()").unwrap_err(), failure_at("method F() -> ()"));
    // A name that starts with a digit.
    assert_eq!(parse_interface("interface 9a.b").unwrap_err(), failure_at("9a.b"));
    // A dot not followed by a letter or digit.
    assert_eq!(parse_interface("interface org.-x").unwrap_err(), failure_at("-x"));
    // A segment whose hyphens lead nowhere: the parse stops before them.
    assert_eq!(parse_interface("interface org--").unwrap_err(), failure_at("--"));
    let err = parse_interface("interface 9a.b").unwrap_err();
    assert!(err.message().starts_with("Parse error: Parse error: Parsing Error: "));
}

#[test]
fn header_stop_offsets() {
    assert_eq!(header_stop_offset(b"interface org--"), 13);
    assert_eq!(header_stop_offset(b"interface org.-x"), 14);
    assert_eq!(header_stop_offset(b"# c\n interfacex"), 14);
    assert_eq!(header_stop_offset(b"types"), 0);
}

#[test]
fn try_from_is_parse_interface() {
    let iface = Interface::try_from("interface a.b\n\nmethod Ping() -> ()").unwrap();
    assert_eq!(iface.name(), "a.b");
    assert_eq!(iface.methods().len(), 1);
    assert_eq!(iface.methods()[0].name(), "Ping");
}

#[test]
fn comments_are_whitespace_between_tokens() {
    let src = "interface a.b\nmethod F(x: int # the x\n) -> ()";
    let iface = parse_interface(src).unwrap();
    assert_eq!(iface.methods()[0].inputs()[0].name(), "x");
}

#[test]
fn parsed_names_pass_the_validators() {

    let iface = parse_interface(FTL).unwrap();
    assert!(is_valid_interface_name(iface.name()));
    for m in iface.methods() {
        assert!(is_valid_type_name(m.name()));
        for f in m.inputs().iter().chain(m.outputs().iter()) {
            assert!(is_valid_field_name(f.name()));
        }
    }
    for e in iface.errors() {
        assert!(is_valid_type_name(e.name()));
        for f in e.fields() {
            assert!(is_valid_field_name(f.name()));
        }
    }
}

#[test]
fn a_name_the_validator_refuses_is_not_parsed_as_one() {
    // `_x` is no field name, so the parameter list does not parse and input is left over.
    assert!(parse_interface("interface a.b\nmethod F(_x: int) -> ()").is_err());
    // `lower` is no type name.
    assert!(parse_interface("interface a.b\nmethod lower() -> ()").is_err());
}

#[test]
fn surrounding_white_space_is_ignored() {
    let bare = "interface a.b\nmethod F(x: int) -> (y: ?[]string)";
    let padded = format!(" \n\t\u{a0}{bare}\u{3000}\r\n ");
    assert_eq!(parse_interface(bare), parse_interface(&padded));
    assert!(parse_interface(&padded).is_ok());
}
