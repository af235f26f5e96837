use zlink::json::ser::{Serializer, State};
use zlink::names::OwnedInterfaceName;
use zlink::varlink_service::{Error, ErrorKind, Info, Method, OwnedError, OwnedInfo};

/// The wire form of a service error, written with the library's serializer.
fn serialize_error(err: &Error) -> String {
    let mut buf = [0u8; 256];
    let mut ser = Serializer::new(&mut buf);
    let mut state = ser.serialize_map(None).unwrap();
    ser.begin_key(&mut state).unwrap();
    ser.serialize_key_str("error").unwrap();
    ser.end_key().unwrap();
    ser.begin_value().unwrap();
    ser.serialize_str(err.name()).unwrap();
    ser.end_value().unwrap();
    if let Some((name, value)) = err.parameter() {
        ser.begin_key(&mut state).unwrap();
        ser.serialize_key_str("parameters").unwrap();
        ser.end_key().unwrap();
        ser.begin_value().unwrap();
        let mut inner = ser.serialize_map(Some(1)).unwrap();
        ser.begin_key(&mut inner).unwrap();
        ser.serialize_key_str(name).unwrap();
        ser.end_key().unwrap();
        ser.begin_value().unwrap();
        ser.serialize_str(value).unwrap();
        ser.end_value().unwrap();
        ser.end_map(inner).unwrap();
        ser.end_value().unwrap();
    }
    ser.end_map(state).unwrap();
    let n = ser.position();
    String::from_utf8(buf[..n].to_vec()).unwrap()
}

/// A service error read from its wire form.
fn deserialize_error(json: &str) -> Error {
    let v: serde_json::Value = serde_json::from_str(json).unwrap();
    let name = v["error"].as_str().unwrap();
    let argument = v
        .get("parameters")
        .and_then(|p| p.as_object())
        .and_then(|p| p.values().next())
        .and_then(|a| a.as_str())
        .map(|a| a.to_string());
    Error::from_wire(name, argument).unwrap()
}

#[test]
fn error_serialization() {
    let err = Error::InterfaceNotFound { interface: "com.example.missing".to_string() };

    let json = serialize_error(&err);
    assert!(json.contains("org.varlink.service.InterfaceNotFound"));
    assert!(json.contains("com.example.missing"));

    let err = Error::PermissionDenied;

    let json = serialize_error(&err);
    assert!(json.contains("org.varlink.service.PermissionDenied"));
}

#[test]
fn error_deserialization() {
    let json = r#"{"error":"org.varlink.service.InterfaceNotFound","parameters":{"interface":"com.example.missing"}}"#;
    assert_eq!(
        deserialize_error(json),
        Error::InterfaceNotFound { interface: "com.example.missing".to_string() }
    );

    let json = r#"{"error":"org.varlink.service.PermissionDenied"}"#;
    assert_eq!(deserialize_error(json), Error::PermissionDenied);

    let json = r#"{"error":"org.varlink.service.MethodNotFound","parameters":{"method":"NonExistentMethod"}}"#;
    assert_eq!(
        deserialize_error(json),
        Error::MethodNotFound { method: "NonExistentMethod".to_string() }
    );

    let json = r#"{"error":"org.varlink.service.InvalidParameter","parameters":{"parameter":"invalid_param"}}"#;
    assert_eq!(
        deserialize_error(json),
        Error::InvalidParameter { parameter: "invalid_param".to_string() }
    );

    let json = r#"{"error":"org.varlink.service.MethodNotImplemented","parameters":{"method":"UnimplementedMethod"}}"#;
    assert_eq!(
        deserialize_error(json),
        Error::MethodNotImplemented { method: "UnimplementedMethod".to_string() }
    );

    let json = r#"{"error":"org.varlink.service.ExpectedMore"}"#;
    assert_eq!(deserialize_error(json), Error::ExpectedMore);
}

#[test]
fn error_round_trip_serialization() {
    let value = Error::InterfaceNotFound { interface: "com.example.missing".to_string() };
    let json = serialize_error(&value);
    assert_eq!(deserialize_error(&json), value);

    let value = Error::PermissionDenied;
    let json = serialize_error(&value);
    assert_eq!(deserialize_error(&json), value);
}

#[test]
fn into_owned() {
    let borrowed = Error::InterfaceNotFound { interface: "test.interface".to_string() };
    let owned = borrowed.into_owned();
    assert_eq!(owned, Error::InterfaceNotFound { interface: "test.interface".to_string() });
    let wrapped = OwnedError::from_error(owned);
    assert_eq!(wrapped.inner().kind(), ErrorKind::InterfaceNotFound);
}

#[test]
fn unknown_or_ill_formed_errors_are_refused() {
    assert_eq!(Error::from_wire("org.varlink.service.Nope", None), None);
    assert_eq!(Error::from_wire("org.varlink.service.PermissionDenied", Some("x".to_string())), None);
    assert_eq!(Error::from_wire("org.varlink.service.MethodNotFound", None), None);
}

#[test]
fn service_error_messages() {
    assert_eq!(
        Error::InterfaceNotFound { interface: "a.b".to_string() }.message(),
        "Interface not found: a.b"
    );
    assert_eq!(Error::MethodNotFound { method: "M".to_string() }.message(), "Method not found: M");
    assert_eq!(
        Error::MethodNotImplemented { method: "M".to_string() }.message(),
        "Method not implemented: M"
    );
    assert_eq!(
        Error::InvalidParameter { parameter: "p".to_string() }.message(),
        "Invalid parameter: p"
    );
    assert_eq!(Error::PermissionDenied.message(), "Permission denied");
    assert_eq!(Error::ExpectedMore.message(), "Expected more");
}

fn write_str_entry(ser: &mut Serializer, state: &mut State, key: &str, value: &str) {
    ser.begin_key(state).unwrap();
    ser.serialize_key_str(key).unwrap();
    ser.end_key().unwrap();
    ser.begin_value().unwrap();
    ser.serialize_str(value).unwrap();
    ser.end_value().unwrap();
}

/// The wire form of service information, written with the library's serializer.
fn serialize_info(info: &Info) -> String {
    let mut buf = [0u8; 512];
    let mut ser = Serializer::new(&mut buf);
    let mut state = ser.serialize_map(Some(5)).unwrap();
    write_str_entry(&mut ser, &mut state, "vendor", &info.vendor);
    write_str_entry(&mut ser, &mut state, "product", &info.product);
    write_str_entry(&mut ser, &mut state, "version", &info.version);
    write_str_entry(&mut ser, &mut state, "url", &info.url);
    ser.begin_key(&mut state).unwrap();
    ser.serialize_key_str("interfaces").unwrap();
    ser.end_key().unwrap();
    ser.begin_value().unwrap();
    let mut seq = ser.serialize_seq(Some(info.interfaces.len())).unwrap();
    for i in &info.interfaces {
        ser.begin_element(&mut seq).unwrap();
        ser.serialize_str(&i.to_string()).unwrap();
        ser.end_element().unwrap();
    }
    ser.end_seq(seq).unwrap();
    ser.end_value().unwrap();
    ser.end_map(state).unwrap();
    let n = ser.position();
    String::from_utf8(buf[..n].to_vec()).unwrap()
}

/// Service information read from its wire form.
fn deserialize_info(json: &str) -> Info {
    let v: serde_json::Value = serde_json::from_str(json).unwrap();
    let interfaces: Vec<OwnedInterfaceName> = v["interfaces"]
        .as_array()
        .unwrap()
        .iter()
        .map(|i| OwnedInterfaceName::try_from(i.as_str().unwrap()).unwrap())
        .collect();
    Info::new(
        v["vendor"].as_str().unwrap(),
        v["product"].as_str().unwrap(),
        v["version"].as_str().unwrap(),
        v["url"].as_str().unwrap(),
        interfaces,
    )
}

#[test]
fn serialization() {
    let info = Info::from_static_str_unchecked(
        "Test Vendor",
        "Test Product",
        "1.0.0",
        "https://example.com",
        &["com.example.test"],
    );

    let json = serialize_info(&info);

    assert!(json.contains("Test Vendor"));
    assert!(json.contains("com.example.test"));
}

#[test]
fn deserialization() {
    let json = r#"{
        "vendor": "Test Vendor",
        "product": "Test Product",
        "version": "1.0.0",
        "url": "https://example.com",
        "interfaces": ["com.example.test", "com.example.other"]
    }"#;

    let info = deserialize_info(json);

    assert_eq!(info.vendor, "Test Vendor");
    assert_eq!(info.product, "Test Product");
    assert_eq!(info.version, "1.0.0");
    assert_eq!(info.url, "https://example.com");
    assert_eq!(info.interfaces.len(), 2);
    assert_eq!(info.interfaces[0].to_string(), "com.example.test");
    assert_eq!(info.interfaces[1].to_string(), "com.example.other");
}

#[test]
fn round_trip_serialization() {
    let value = Info::from_static_str_unchecked(
        "Test Vendor",
        "Test Product",
        "1.0.0",
        "https://example.com",
        &["com.example.test", "com.example.other"],
    );

    let json = serialize_info(&value);
    let deserialized = deserialize_info(&json);

    assert_eq!(value, deserialized);
}

#[test]
fn owned_info_wraps_info() {
    let owned = OwnedInfo::new(
        "Test Vendor",
        "Test Product",
        "1.0.0",
        "https://example.com",
        vec![OwnedInterfaceName::try_from("com.example.test").unwrap()],
    );
    assert_eq!(owned.inner().product, "Test Product");
    let inner = owned.into_inner();
    assert_eq!(inner.into_owned().interfaces[0].to_string(), "com.example.test");
}

#[test]
fn service_method_names() {
    assert_eq!(Method::GetInfo.name(), "org.varlink.service.GetInfo");
    let m = Method::GetInterfaceDescription {
        interface: OwnedInterfaceName::try_from("a.b").unwrap(),
    };
    assert_eq!(m.name(), "org.varlink.service.GetInterfaceDescription");
}

#[test]
fn owned_reply_keeps_the_info() {
    let info = Info::from_static_str_unchecked("V", "P", "1", "u", &["a.b"]);
    let owned = zlink::varlink_service::OwnedReply::from_reply(zlink::varlink_service::Reply::Info(info));
    let zlink::varlink_service::OwnedReply::Info(i) = owned;
    assert_eq!(i.inner().vendor, "V");
}
