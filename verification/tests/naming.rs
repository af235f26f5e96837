use zlink::naming::{
    enum_variant_name, error_name, field_name, reject_container_rename, unraw, validate_interface,
    RenameAll, RenameAllParser,
};

const VALID_RENAME_ALL: [&str; 8] = [
    "lowercase",
    "UPPERCASE",
    "PascalCase",
    "camelCase",
    "snake_case",
    "SCREAMING_SNAKE_CASE",
    "kebab-case",
    "SCREAMING-KEBAB-CASE",
];

#[test]
fn field_conventions() {
    let cases = [
        (RenameAll::Lower, "user_name"),
        (RenameAll::Upper, "USER_NAME"),
        (RenameAll::Pascal, "UserName"),
        (RenameAll::Camel, "userName"),
        (RenameAll::Snake, "user_name"),
        (RenameAll::ScreamingSnake, "USER_NAME"),
        (RenameAll::Kebab, "user-name"),
        (RenameAll::ScreamingKebab, "USER-NAME"),
    ];

    for (rule, expected) in cases {
        assert_eq!(rule.apply_to_field("user_name"), expected, "rule: {rule:?}");
    }
}

#[test]
fn variant_conventions() {
    let cases = [
        (RenameAll::Lower, "username"),
        (RenameAll::Upper, "USERNAME"),
        (RenameAll::Pascal, "UserName"),
        (RenameAll::Camel, "userName"),
        (RenameAll::Snake, "user_name"),
        (RenameAll::ScreamingSnake, "USER_NAME"),
        (RenameAll::Kebab, "user-name"),
        (RenameAll::ScreamingKebab, "USER-NAME"),
    ];

    for (rule, expected) in cases {
        assert_eq!(rule.apply_to_variant("UserName"), expected, "rule: {rule:?}");
    }
}

#[test]
fn rename_beats_rename_all() {
    let name = field_name(Some("ID"), "user_id", Some(RenameAll::Camel)).unwrap();

    assert_eq!(name.as_ref().as_str(), "ID");
}

#[test]
fn rename_all_applies_without_rename() {
    let name = field_name(None, "user_id", Some(RenameAll::Camel)).unwrap();

    assert_eq!(name.as_ref().as_str(), "userId");
}

#[test]
fn ident_used_without_any_attr() {
    assert_eq!(
        field_name(None, "user_id", None).unwrap().as_ref().as_str(),
        "user_id"
    );
}

#[test]
fn unraw_strips_the_prefix() {
    assert_eq!(unraw("r#type"), "type");
}

#[test]
fn unraw_leaves_a_normal_ident_unchanged() {
    assert_eq!(unraw("user_id"), "user_id");
}

#[test]
fn rename_all_parsed_alongside_other_keys() {
    assert_eq!(
        RenameAllParser::new(Some("camelCase")).try_for_field_name().unwrap(),
        Some(RenameAll::Camel)
    );
}

#[test]
fn unknown_rename_all_value_rejected() {
    let err = RenameAllParser::new(Some("bogus"))
        .try_for_field_name()
        .unwrap_err()
        .message()
        .to_string();

    assert!(err.contains("bogus"), "message should name the bad value: {err}");
    assert!(err.contains("camelCase"), "message should list valid values: {err}");
}

#[test]
fn container_rename_rejected_with_message() {
    let err = reject_container_rename(Some("Foo"), "nope")
        .unwrap_err()
        .message()
        .to_string();

    assert_eq!(err, "nope");
}

#[test]
fn raw_ident_field_resolves_then_validates() {
    assert_eq!(field_name(None, "r#type", None).unwrap().as_ref().as_str(), "type");
}

#[test]
fn raw_ident_error_variant_resolves_then_validates() {
    assert_eq!(error_name(None, "r#Fn", None).unwrap().as_ref().as_str(), "Fn");
}

#[test]
fn enum_variant_lowercase_is_accepted() {
    assert_eq!(
        enum_variant_name(None, "Active", Some(RenameAll::Lower))
            .unwrap()
            .as_ref()
            .as_str(),
        "active"
    );
}

#[test]
fn error_name_lowercase_is_rejected() {
    let err = error_name(None, "Active", Some(RenameAll::Lower))
        .unwrap_err()
        .message()
        .to_string();

    assert!(err.contains("`active`"), "must name the bad name: {err}");
    assert!(err.contains("error name"), "must name the context: {err}");
}

#[test]
fn invalid_rename_reports_the_literal_not_the_ident() {
    let err = field_name(Some("not valid!"), "good_field", None)
        .unwrap_err()
        .message()
        .to_string();

    assert!(err.contains("`not valid!`"), "must quote the rename: {err}");
    assert!(!err.contains("good_field"), "must not blame the ident: {err}");
    assert!(!err.contains("`#[zlink(rename"), "no hint on a rename: {err}");
}

#[test]
fn invalid_ident_suggests_rename() {
    let err = field_name(None, "_foo", None).unwrap_err().message().to_string();

    assert!(err.contains("`_foo`"), "must name the bad ident: {err}");
    assert!(err.contains("rename"), "must offer the escape hatch: {err}");
}

#[test]
fn interface_names_validated() {
    assert!(validate_interface("org.example.Foo").is_ok());

    let err = validate_interface("org.example.bad_name")
        .unwrap_err()
        .message()
        .to_string();

    assert!(err.contains("`org.example.bad_name`"), "must quote it: {err}");
    assert!(err.contains("interface name"), "must name the context: {err}");
}

#[test]
fn rename_all_that_can_sometimes_fit_the_type_grammar_is_accepted() {
    assert_eq!(
        RenameAllParser::new(Some("SCREAMING_SNAKE_CASE"))
            .try_for_type_name()
            .unwrap(),
        Some(RenameAll::ScreamingSnake)
    );
}

#[test]
fn rename_all_that_never_fits_the_type_grammar_is_rejected() {
    let err = RenameAllParser::new(Some("snake_case"))
        .try_for_type_name()
        .unwrap_err()
        .message()
        .to_string();

    assert!(err.contains("`snake_case`"), "must name the convention: {err}");
    assert!(err.contains("[A-Z][A-Za-z0-9]*"), "must name the grammar it cannot meet: {err}");
}

#[test]
fn every_rename_all_fits_the_field_grammar() {
    for value in VALID_RENAME_ALL {
        assert!(
            RenameAllParser::new(Some(value))
                .try_for_field_name()
                .unwrap()
                .is_some(),
            "`{value}` should be accepted for a field name"
        );
    }
}

#[test]
fn no_rename_all_is_no_rule() {
    assert_eq!(RenameAllParser::new(None).try_for_field_name().unwrap(), None);
    assert_eq!(RenameAllParser::new(None).try_for_type_name().unwrap(), None);
}

#[test]
fn rename_all_parse_maps_every_value() {
    let rules = [
        RenameAll::Lower,
        RenameAll::Upper,
        RenameAll::Pascal,
        RenameAll::Camel,
        RenameAll::Snake,
        RenameAll::ScreamingSnake,
        RenameAll::Kebab,
        RenameAll::ScreamingKebab,
    ];
    for (value, rule) in VALID_RENAME_ALL.iter().zip(rules) {
        assert_eq!(RenameAll::parse(value).unwrap(), rule);
    }
    assert!(RenameAll::parse("Camel").is_err());
}

#[test]
fn snake_variant_undoes_pascal_field() {
    for f in ["user_name", "get_item2_x", "a", "x9_y"] {
        let pascal = RenameAll::Pascal.apply_to_field(f);
        assert_eq!(RenameAll::Snake.apply_to_variant(&pascal), f);
    }
    assert_eq!(RenameAll::Pascal.apply_to_field("get_item2_x"), "GetItem2X");
}
