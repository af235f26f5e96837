//! The decisions of the code generator's driver: where generated code goes, and the file each
//! interface is written to.
use vstd::prelude::*;

use crate::naming::{map_replace, replace_char};
use crate::strings::{lowercase, to_lowercase};

verus! {

/// The name of the Rust source file for the stem `stem`.
pub fn rust_file_name(stem: &str) -> (r: String)
    ensures
        r@ == stem@ + ".rs"@,
{
    crate::strings::concat(stem, ".rs")
}

/// The file an interface's code is written to: its name with the dots turned to underscores, in
/// lowercase, with the `.rs` extension.
pub fn interface_to_filename(interface_name: &str) -> (r: String)
    ensures
        r@ == lowercase(replace_char(interface_name@, '.', '_')) + ".rs"@,
{
    let chars = crate::strings::chars_of(interface_name);
    let replaced = map_replace(&chars, '.', '_');
    let joined = crate::strings::string_from_chars(&replaced);
    let lower = to_lowercase(joined.as_str());
    rust_file_name(lower.as_str())
}

/// Errors of code generation.
#[derive(Debug)]
pub enum Error {
    /// An invalid argument was provided.
    InvalidArgument,
    /// An I/O error occurred during file operations; its description.
    Io(String),
    /// An error from zlink, such as a malformed interface; its description.
    Zlink(String),
    /// Any other error; its description.
    Anyhow(String),
}

/// The description of a code generation error.
pub open spec fn error_message(e: &Error) -> Seq<char> {
    match e {
        Error::InvalidArgument => "Invalid argument provided"@,
        Error::Io(m) => "I/O error: "@ + m@,
        Error::Zlink(m) => "Zlink error: "@ + m@,
        Error::Anyhow(m) => m@,
    }
}

impl Error {
    /// The human-readable description of this error.
    pub fn message(&self) -> (r: String)
        ensures
            r@ == error_message(self),
    {
        match self {
            Error::InvalidArgument => String::from_str("Invalid argument provided"),
            Error::Io(m) => crate::strings::concat("I/O error: ", m.as_str()),
            Error::Zlink(m) => crate::strings::concat("Zlink error: ", m.as_str()),
            Error::Anyhow(m) => m.clone(),
        }
    }
}

/// Configuration options for Varlink code generation.
#[derive(Debug)]
pub struct CodegenOptions {
    /// Input Varlink IDL file(s).
    pub files: Vec<String>,
    /// Output file path (defaults to stdout if not specified).
    pub output: Option<String>,
    /// Generate separate files for each interface (ignored if output is specified).
    pub multiple_files: bool,
    /// Whether to format the generated Rust code using `rustfmt`.
    pub rustfmt: bool,
}

impl CodegenOptions {
    /// No input files, output to stdout, one file, no formatting.
    pub fn new() -> (r: Self)
        ensures
            r.files@.len() == 0,
            r.output is None,
            !r.multiple_files,
            !r.rustfmt,
    {
        CodegenOptions { files: Vec::new(), output: None, multiple_files: false, rustfmt: false }
    }
}

/// Where generated code goes.
#[derive(Debug, PartialEq, Eq)]
pub enum OutputMode {
    /// All interfaces into the one file at this path.
    File(String),
    /// Each interface into a file of its own, named by [`interface_to_filename`].
    PerInterface,
    /// All interfaces to the standard output.
    Stdout,
}

/// Where the code generated for `config` goes: an output path wins over separate files, which
/// win over the standard output; without input files there is nothing to generate.
pub fn output_mode(config: &CodegenOptions) -> (r: Result<OutputMode, Error>)
    ensures
        config.files@.len() == 0 ==> r matches Err(Error::InvalidArgument),
        config.files@.len() > 0 ==> match config.output {
            Some(p) => r matches Ok(OutputMode::File(q)) && q@ == p@,
            None => if config.multiple_files {
                r matches Ok(OutputMode::PerInterface)
            } else {
                r matches Ok(OutputMode::Stdout)
            },
        },
{
    if config.files.len() == 0 {
        return Err(Error::InvalidArgument);
    }
    match &config.output {
        Some(p) => Ok(OutputMode::File(p.clone())),
        None => if config.multiple_files {
            Ok(OutputMode::PerInterface)
        } else {
            Ok(OutputMode::Stdout)
        },
    }
}

/// Whether the code of `count` interfaces generated together opens with a module header and
/// leaves out each interface's own: when there is more than one.
pub fn combines_interfaces(count: usize) -> (r: bool)
    ensures
        r == (count > 1),
{
    count > 1
}

} // verus!
