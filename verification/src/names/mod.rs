//! Varlink name grammars and validated name types.

pub mod error;
pub mod field_name;
pub mod grammar;
pub mod interface_name;
pub mod pattern;
pub mod typename;

pub use error::TryFromError;
pub use field_name::{is_valid_field_name, FieldName, OwnedFieldName};
pub use pattern::FromPattern;
pub use interface_name::{is_valid_interface_name, InterfaceName, OwnedInterfaceName};
pub use typename::{is_valid_type_name, OwnedTypeName, TypeName};
