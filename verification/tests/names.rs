use zlink::names::grammar::parse_interface_name;
use zlink::names::{
    is_valid_field_name, is_valid_interface_name, is_valid_type_name, FieldName, InterfaceName,
    OwnedFieldName, OwnedInterfaceName, OwnedTypeName, TypeName,
};

#[test]
fn name_field_names() {
    let valid = ["a", "Z", "user_name", "user0", "a_0_b", "type"];
    for name in valid {
        assert!(is_valid_field_name(name), "`{name}` must be valid");
    }

    let invalid = [
        "",
        "_foo",
        "0foo",
        "user-name",
        "user name",
        "user.name",
        "user!",
        "üser",
        "user\u{e9}",
        "a_",
        "x__",
        "a__b",
    ];
    for name in invalid {
        assert!(!is_valid_field_name(name), "`{name}` must be invalid");
    }
}

#[test]
fn type_names() {
    let valid = ["A", "Foo", "FileNotFound", "Foo0", "X"];
    for name in valid {
        assert!(is_valid_type_name(name), "`{name}` must be valid");
    }

    let invalid = [
        "", "foo", "_Foo", "0Foo", "Foo_bar", "Foo-bar", "Foo bar", "Foo.Bar", "Foo!", "Über",
    ];
    for name in invalid {
        assert!(!is_valid_type_name(name), "`{name}` must be invalid");
    }
}

#[test]
fn type_names_are_field_names() {
    for name in ["A", "Foo", "FileNotFound", "Foo0"] {
        assert!(is_valid_field_name(name), "`{name}` must be valid");
    }
}

#[test]
fn name_interface_names() {
    let valid = ["org.example.Foo", "a.b", "org.varlink.service", "a1.b-2.c3"];
    for name in valid {
        assert!(is_valid_interface_name(name), "`{name}` must be valid");
    }

    let invalid = [
        "",
        "Foo",
        "org.",
        ".org",
        "org..example",
        "org.example.",
        "1org.example",
        "org.example.Foo bar",
        "org.example.Foö",
    ];
    for name in invalid {
        assert!(!is_valid_interface_name(name), "`{name}` must be invalid");
    }
}

const FIELD_VALID: [&str; 6] = ["a", "Z", "user_name", "user0", "a_0_b", "type"];
const FIELD_INVALID: [&str; 12] = [
    "",
    "_foo",
    "0foo",
    "user-name",
    "user name",
    "user.name",
    "user!",
    "üser",
    "user\u{e9}",
    "a_",
    "x__",
    "a__b",
];

#[test]
fn field_name_field_names() {
    for name in FIELD_VALID {
        assert!(is_valid_field_name(name), "`{name}` must be valid");
    }
    for name in FIELD_INVALID {
        assert!(!is_valid_field_name(name), "`{name}` must be invalid");
    }
}

const INTERFACE_VALID: [&str; 4] = ["org.example.Foo", "a.b", "org.varlink.service", "a1.b-2.c3"];
const INTERFACE_INVALID: [&str; 11] = [
    "",
    "Foo",
    "org.",
    ".org",
    "org..example",
    "org.example.",
    "1org.example",
    "org.example.Foo bar",
    "org.example.Foö",
    "org-.example",
    "org.example-",
];

#[test]
fn interface_name_interface_names() {
    for name in INTERFACE_VALID {
        assert!(is_valid_interface_name(name), "`{name}` must be valid");
    }
    for name in INTERFACE_INVALID {
        assert!(!is_valid_interface_name(name), "`{name}` must be invalid");
    }
}

#[test]
fn test_parse_interface_name() {
    let input = b"org.example.test";
    let len = parse_interface_name(input).unwrap();
    assert_eq!(&input[..len], b"org.example.test");
    assert_eq!(len, input.len());

    let input = b"com.example.foo.bar";
    let len = parse_interface_name(input).unwrap();
    assert_eq!(&input[..len], b"com.example.foo.bar");
    assert_eq!(len, input.len());

    // Invalid: no dot
    assert!(parse_interface_name(b"example").is_none());

    // Invalid: starts with number
    assert!(parse_interface_name(b"1example.test").is_none());
}

#[test]
fn parse_interface_name_stops_at_the_longest_valid_prefix() {
    let input = b"org.example.Foo bar";
    assert_eq!(parse_interface_name(input), Some(15));
    // A trailing hyphen is not part of the name.
    assert_eq!(parse_interface_name(b"org.example-"), Some(11));
}

#[test]
fn try_from_reports_where_the_name_goes_wrong() {
    assert!(FieldName::try_from("user_name").is_ok());
    let err = FieldName::try_from("user-name").unwrap_err();
    assert_eq!(err.offset(), 4);
    assert_eq!(TypeName::try_from("Foo").unwrap().as_str(), "Foo");
    assert!(TypeName::try_from("foo").is_err());
    assert_eq!(
        InterfaceName::try_from("org.example.Foo").unwrap().as_str(),
        "org.example.Foo"
    );
    assert!(InterfaceName::try_from("org").is_err());
}

#[test]
fn owned_names_keep_the_text() {
    assert_eq!(OwnedFieldName::try_from("a_b").unwrap().to_string(), "a_b");
    assert_eq!(OwnedTypeName::try_from("Ab").unwrap().to_string(), "Ab");
    let owned = OwnedInterfaceName::try_from("a.b").unwrap();
    assert_eq!(owned.as_ref().as_str(), "a.b");
    assert!(OwnedTypeName::try_from("ab").is_err());
}
