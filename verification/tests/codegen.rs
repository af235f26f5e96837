use zlink::codegen::{
    combines_interfaces, interface_to_filename, output_mode, rust_file_name, CodegenOptions,
    Error, OutputMode,
};

#[test]
fn test_interface_to_filename() {
    assert_eq!(
        interface_to_filename("org.example.Interface"),
        "org_example_interface.rs"
    );
    assert_eq!(
        interface_to_filename("com.example.MyService"),
        "com_example_myservice.rs"
    );
    assert_eq!(interface_to_filename("SimpleInterface"), "simpleinterface.rs");
    assert_eq!(
        interface_to_filename("org.varlink.service"),
        "org_varlink_service.rs"
    );
}

#[test]
fn rust_file_name_adds_the_extension() {
    assert_eq!(rust_file_name("a_b"), "a_b.rs");
    assert_eq!(rust_file_name(""), ".rs");
}

#[test]
fn output_mode_needs_input_files() {
    let config = CodegenOptions::new();
    assert!(matches!(output_mode(&config), Err(Error::InvalidArgument)));
}

#[test]
fn output_path_wins_over_multiple_files() {
    let mut config = CodegenOptions::new();
    config.files.push("a.varlink".to_string());
    config.multiple_files = true;
    assert_eq!(output_mode(&config).unwrap(), OutputMode::PerInterface);
    config.output = Some("out.rs".to_string());
    assert_eq!(output_mode(&config).unwrap(), OutputMode::File("out.rs".to_string()));
    config.output = None;
    config.multiple_files = false;
    assert_eq!(output_mode(&config).unwrap(), OutputMode::Stdout);
}

#[test]
fn several_interfaces_share_one_header() {
    assert!(!combines_interfaces(0));
    assert!(!combines_interfaces(1));
    assert!(combines_interfaces(2));
}

#[test]
fn codegen_error_messages() {
    assert_eq!(Error::InvalidArgument.message(), "Invalid argument provided");
    assert_eq!(Error::Io("boom".to_string()).message(), "I/O error: boom");
    assert_eq!(Error::Zlink("bad".to_string()).message(), "Zlink error: bad");
    assert_eq!(Error::Anyhow("other".to_string()).message(), "other");
}
