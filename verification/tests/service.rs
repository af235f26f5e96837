use zlink::names::InterfaceName;
use zlink::service::{
    check_fds_params, description_source, info_interfaces, metadata_or_empty, next_interface,
    DescriptionSource,
};
use zlink::service::{collect_interfaces, first_occurrence_order, interface_methods, types_source, TypesSource};
use zlink::attr_mode::{field_mode, FieldMode};
use zlink::service::{
    check_streaming_params, interface_name_to_ident, method_name, snake_case_to_pascal_case,
    validate_params, ParamInfo,
};

#[test]
fn snake_case_becomes_pascal_case() {
    assert_eq!(snake_case_to_pascal_case("get_info"), "GetInfo");
    assert_eq!(snake_case_to_pascal_case("ping"), "Ping");
    assert_eq!(snake_case_to_pascal_case("a__b_"), "AB");
    assert_eq!(snake_case_to_pascal_case(""), "");
    assert_eq!(snake_case_to_pascal_case("HTTP_server"), "HttpServer");
    assert_eq!(snake_case_to_pascal_case("ärger_x"), "ÄrgerX");
}

#[test]
fn method_names() {
    assert_eq!(method_name(None, "get_info").unwrap().to_string(), "GetInfo");
    assert_eq!(method_name(None, "r#type").unwrap().to_string(), "Type");
    assert_eq!(method_name(Some("Custom"), "whatever").unwrap().to_string(), "Custom");
    let err = method_name(Some("lower"), "x").unwrap_err();
    assert!(err.message().contains("`lower`"));
    assert!(err.message().contains("method name"));
    assert!(!err.message().contains("rename = "));
}

fn param(name: &str, rename: Option<&str>) -> ParamInfo {
    ParamInfo {
        name: name.to_string(),
        serialized_name: rename.map(|s| s.to_string()),
        is_connection: false,
        is_fds: false,
        is_more: false,
    }
}

#[test]
fn wire_names() {
    assert_eq!(param("r#type", None).wire_name(), "type");
    assert_eq!(param("x", Some("Y")).wire_name(), "Y");
}

#[test]
fn underscore_prefixed_params_are_rejected() {
    let ok = vec![param("a", None), param("r#type", None)];
    assert!(validate_params(&ok).is_ok());
    let bad = vec![param("a", None), param("_b", None)];
    let err = validate_params(&bad).unwrap_err();
    assert!(err.message().contains("`_b`"));
    assert!(err.message().contains("parameter name"));
    // A parameter that does not go on the wire is not checked.
    let mut conn = param("_conn", None);
    conn.is_connection = true;
    assert!(validate_params(&vec![conn]).is_ok());
}

#[test]
fn streaming_needs_more() {
    assert!(check_streaming_params(1, true).is_ok());
    assert_eq!(
        check_streaming_params(0, true).unwrap_err(),
        "streaming methods must have `more: bool` as the first parameter after `self`"
    );
    assert!(check_streaming_params(2, false).is_err());
}

#[test]
fn interface_constant_names() {
    let name = InterfaceName::try_from("org.example.ftl-drive").unwrap();
    assert_eq!(interface_name_to_ident("Ftl", &name), "__FTL_INTERFACE_ORG_EXAMPLE_FTL__DRIVE");
    let name = InterfaceName::try_from("org.Example.b2").unwrap();
    assert_eq!(interface_name_to_ident("my_svc", &name), "__MY_SVC_INTERFACE_ORG_EXAMPLE_B2");
}

#[test]
fn colliding_interface_names() {
    let t = "CollidingInterfaceService";
    let dot = InterfaceName::try_from("org.example.foo.bar").unwrap();
    let hyphen = InterfaceName::try_from("org.example.foo-bar").unwrap();
    let a = interface_name_to_ident(t, &dot);
    let b = interface_name_to_ident(t, &hyphen);
    assert_ne!(a, b);
    assert_eq!(a, "__COLLIDINGINTERFACESERVICE_INTERFACE_ORG_EXAMPLE_FOO_BAR");
    assert_eq!(b, "__COLLIDINGINTERFACESERVICE_INTERFACE_ORG_EXAMPLE_FOO__BAR");
    let two = InterfaceName::try_from("org.example.foo--bar").unwrap();
    assert_ne!(interface_name_to_ident(t, &two), b);
}

#[test]
fn field_modes() {
    assert_eq!(field_mode(false, false, false), Ok(FieldMode::Normal));
    assert_eq!(field_mode(false, false, true), Ok(FieldMode::Normal));
    assert_eq!(field_mode(true, false, false), Ok(FieldMode::Skip));
    assert_eq!(field_mode(false, true, false), Ok(FieldMode::Flatten));
    assert!(field_mode(true, true, false).unwrap_err().contains("mutually exclusive"));
    assert!(field_mode(true, false, true).unwrap_err().contains("skipped field"));
    assert!(field_mode(false, true, true).unwrap_err().contains("no effect"));
}

#[test]
fn qualified_names() {
    assert_eq!(
        zlink::attr_mode::qualified_name("org.example.ftl", "NotEnoughEnergy"),
        "org.example.ftl.NotEnoughEnergy"
    );
}

#[test]
fn interfaces_are_collected_in_first_order() {
    let methods = vec![
        Some("org.example.b".to_string()),
        None,
        Some("org.example.a".to_string()),
        Some("org.example.b".to_string()),
        Some("org.example.c".to_string()),
    ];
    assert_eq!(
        collect_interfaces(&methods),
        vec!["org.example.b", "org.example.a", "org.example.c"]
    );
    assert!(collect_interfaces(&vec![None, None]).is_empty());
}

#[test]
fn variant_indices_follow_first_occurrence() {
    let types = vec![Some("Foo".to_string()), Some("Bar".to_string()), Some("Foo".to_string())];
    let order = first_occurrence_order(&types);
    assert_eq!(order.iter().position(|t| t == "Foo"), Some(0));
    assert_eq!(order.iter().position(|t| t == "Bar"), Some(1));
    assert_eq!(order.len(), 2);
}

#[test]
fn custom_types_source() {
    assert_eq!(types_source(2, 3), TypesSource::PerInterface);
    assert_eq!(types_source(0, 1), TypesSource::Global);
    assert_eq!(types_source(0, 2), TypesSource::Nothing);
}

#[test]
fn methods_grouped_by_interface_in_declaration_order() {
    let ifaces = vec![
        Some("org.example.a".to_string()),
        Some("org.example.b".to_string()),
        None,
        Some("org.example.a".to_string()),
    ];
    assert_eq!(interface_methods(&ifaces, "org.example.a"), vec![0, 3]);
    assert_eq!(interface_methods(&ifaces, "org.example.b"), vec![1]);
    assert!(interface_methods(&ifaces, "org.example.c").is_empty());
}

#[test]
fn interface_in_force() {
    let a = Some("org.example.a".to_string());
    let b = Some("org.example.b".to_string());
    assert_eq!(next_interface(a.clone(), None), a);
    assert_eq!(next_interface(a, b.clone()), b);
    assert_eq!(next_interface(None, None), None);
}

#[test]
fn at_most_one_fds_parameter() {
    let mut fds = param("fds", None);
    fds.is_fds = true;
    assert!(check_fds_params(&vec![param("a", None), fds.clone()]).is_ok());
    assert_eq!(
        check_fds_params(&vec![fds.clone(), param("a", None), fds]).unwrap_err(),
        "at most one `#[zlink(fds)]` parameter is allowed per method"
    );
}

#[test]
fn get_info_lists_the_service_interface_last() {
    let declared = vec!["org.example.a".to_string(), "org.example.b".to_string()];
    assert_eq!(info_interfaces(&declared), ["org.example.a", "org.example.b", "org.varlink.service"]);
    assert_eq!(info_interfaces(&vec![]), ["org.varlink.service"]);
    assert_eq!(metadata_or_empty(Some("Acme")), "Acme");
    assert_eq!(metadata_or_empty(None), "");
}

#[test]
fn interface_descriptions_are_looked_up() {
    let declared = vec!["org.example.a".to_string(), "org.example.b".to_string()];
    assert_eq!(description_source(&declared, "org.example.b"), DescriptionSource::Declared(1));
    assert_eq!(description_source(&declared, "org.varlink.service"), DescriptionSource::VarlinkService);
    assert_eq!(description_source(&declared, "org.example.c"), DescriptionSource::NotFound);
}
