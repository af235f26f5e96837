//! The `org.varlink.service` interface every Varlink service implements: its methods, the
//! information a service gives about itself, and its errors.
use vstd::prelude::*;

use crate::names::{InterfaceName, OwnedInterfaceName};
use crate::strings::{concat, str_eq};

verus! {

/// Information about a Varlink service implementation: the reply to `GetInfo`.
#[derive(Debug, PartialEq, Eq)]
pub struct Info {
    /// The vendor of the service.
    pub vendor: String,
    /// The product name of the service.
    pub product: String,
    /// The version of the service.
    pub version: String,
    /// The URL associated with the service.
    pub url: String,
    /// The interfaces the service provides.
    pub interfaces: Vec<OwnedInterfaceName>,
}

/// The names of a list of interfaces.
pub open spec fn names_of(v: Seq<OwnedInterfaceName>) -> Seq<Seq<char>> {
    Seq::new(v.len(), |i: int| v[i]@)
}

impl Info {
    /// Information with the given vendor, product, version, URL and interfaces.
    pub fn new(vendor: &str, product: &str, version: &str, url: &str, interfaces: Vec<OwnedInterfaceName>) -> (r: Self)
        ensures
            r.vendor@ == vendor@,
            r.product@ == product@,
            r.version@ == version@,
            r.url@ == url@,
            r.interfaces@ == interfaces@,
    {
        Info {
            vendor: String::from_str(vendor),
            product: String::from_str(product),
            version: String::from_str(version),
            url: String::from_str(url),
            interfaces,
        }
    }

    /// Information whose interfaces are given by names known to be valid.
    pub fn from_static_str_unchecked(
        vendor: &str,
        product: &str,
        version: &str,
        url: &str,
        interfaces: &[&'static str],
    ) -> (r: Self)
        requires
            forall|i: int| 0 <= i < interfaces@.len() ==> crate::names::grammar::is_interface_name(
                vstd::utf8::encode_utf8(#[trigger] interfaces@[i]@),
            ),
        ensures
            r.vendor@ == vendor@,
            r.product@ == product@,
            r.version@ == version@,
            r.url@ == url@,
            names_of(r.interfaces@) == Seq::new(interfaces@.len(), |i: int| interfaces@[i]@),
    {
        let mut names: Vec<OwnedInterfaceName> = Vec::new();
        let mut i: usize = 0;
        while i < interfaces.len()
            invariant
                i <= interfaces@.len(),
                forall|j: int| 0 <= j < interfaces@.len() ==> crate::names::grammar::is_interface_name(
                    vstd::utf8::encode_utf8(#[trigger] interfaces@[j]@),
                ),
                names@.len() == i,
                forall|j: int| 0 <= j < i ==> (#[trigger] names@[j])@ == interfaces@[j]@,
            decreases interfaces@.len() - i,
        {
            let name = InterfaceName::from_static_str_unchecked(interfaces[i]);
            names.push(name.to_owned());
            i = i + 1;
        }
        let r = Info::new(vendor, product, version, url, names);
        proof {
            assert(names_of(r.interfaces@) =~= Seq::new(interfaces@.len(), |i: int| interfaces@[i]@));
        }
        r
    }

    /// This information, owning all its data.
    pub fn into_owned(self) -> (r: Self)
        ensures
            r == self,
    {
        self
    }
}

/// Information about a service, owning all its data.
#[derive(Debug, PartialEq, Eq)]
pub struct OwnedInfo(pub Info);

impl OwnedInfo {
    /// Information with the given vendor, product, version, URL and interfaces.
    pub fn new(vendor: &str, product: &str, version: &str, url: &str, interfaces: Vec<OwnedInterfaceName>) -> (r: Self)
        ensures
            r.0.vendor@ == vendor@,
            r.0.product@ == product@,
            r.0.version@ == version@,
            r.0.url@ == url@,
            r.0.interfaces@ == interfaces@,
    {
        OwnedInfo(Info::new(vendor, product, version, url, interfaces))
    }

    /// Information whose interfaces are given by names known to be valid.
    pub fn from_static_str_unchecked(
        vendor: &str,
        product: &str,
        version: &str,
        url: &str,
        interfaces: &[&'static str],
    ) -> (r: Self)
        requires
            forall|i: int| 0 <= i < interfaces@.len() ==> crate::names::grammar::is_interface_name(
                vstd::utf8::encode_utf8(#[trigger] interfaces@[i]@),
            ),
        ensures
            r.0.vendor@ == vendor@,
            r.0.product@ == product@,
            r.0.version@ == version@,
            r.0.url@ == url@,
            names_of(r.0.interfaces@) == Seq::new(interfaces@.len(), |i: int| interfaces@[i]@),
    {
        OwnedInfo(Info::from_static_str_unchecked(vendor, product, version, url, interfaces))
    }

    /// The inner information.
    pub fn inner(&self) -> (r: &Info)
        ensures
            *r == self.0,
    {
        &self.0
    }

    /// Consumes self and returns the inner information.
    pub fn into_inner(self) -> (r: Info)
        ensures
            r == self.0,
    {
        self.0
    }
}

/// The methods of the `org.varlink.service` interface.
#[derive(Debug)]
pub enum Method {
    /// Get information about the Varlink service.
    GetInfo,
    /// Get the description of the specified interface.
    GetInterfaceDescription { interface: OwnedInterfaceName },
}

/// The qualified name of a method of the service interface.
pub open spec fn method_name(m: &Method) -> Seq<char> {
    match m {
        Method::GetInfo => "org.varlink.service.GetInfo"@,
        Method::GetInterfaceDescription { .. } => "org.varlink.service.GetInterfaceDescription"@,
    }
}

impl Method {
    /// The method's qualified name on the wire.
    pub fn name(&self) -> (r: &'static str)
        ensures
            r@ == method_name(self),
    {
        match self {
            Method::GetInfo => "org.varlink.service.GetInfo",
            Method::GetInterfaceDescription { .. } => "org.varlink.service.GetInterfaceDescription",
        }
    }
}

/// The replies of the `org.varlink.service` interface.
#[derive(Debug, PartialEq, Eq)]
pub enum Reply {
    /// Reply for `GetInfo`.
    Info(Info),
}

/// A reply of the service interface, owning all its data.
#[derive(Debug, PartialEq, Eq)]
pub enum OwnedReply {
    /// Reply for `GetInfo`.
    Info(OwnedInfo),
}

impl OwnedReply {
    /// The owned form of `reply`.
    pub fn from_reply(reply: Reply) -> (r: Self)
        ensures
            match reply {
                Reply::Info(i) => r == OwnedReply::Info(OwnedInfo(i)),
            },
    {
        match reply {
            Reply::Info(info) => OwnedReply::Info(OwnedInfo(info.into_owned())),
        }
    }
}

/// The kinds of error of the service interface.
#[derive(Debug, Clone, Copy, PartialEq, Eq)]
pub enum ErrorKind {
    InterfaceNotFound,
    MethodNotFound,
    MethodNotImplemented,
    InvalidParameter,
    PermissionDenied,
    ExpectedMore,
}

/// The qualified name of an error kind on the wire.
pub open spec fn kind_name(k: ErrorKind) -> Seq<char> {
    match k {
        ErrorKind::InterfaceNotFound => "org.varlink.service.InterfaceNotFound"@,
        ErrorKind::MethodNotFound => "org.varlink.service.MethodNotFound"@,
        ErrorKind::MethodNotImplemented => "org.varlink.service.MethodNotImplemented"@,
        ErrorKind::InvalidParameter => "org.varlink.service.InvalidParameter"@,
        ErrorKind::PermissionDenied => "org.varlink.service.PermissionDenied"@,
        ErrorKind::ExpectedMore => "org.varlink.service.ExpectedMore"@,
    }
}

/// The parameter an error kind carries, if any.
pub open spec fn kind_parameter(k: ErrorKind) -> Option<Seq<char>> {
    match k {
        ErrorKind::InterfaceNotFound => Some("interface"@),
        ErrorKind::MethodNotFound => Some("method"@),
        ErrorKind::MethodNotImplemented => Some("method"@),
        ErrorKind::InvalidParameter => Some("parameter"@),
        _ => None,
    }
}

/// The error kind named `name` on the wire, if any.
pub open spec fn kind_of_name(name: Seq<char>) -> Option<ErrorKind> {
    if name == "org.varlink.service.InterfaceNotFound"@ {
        Some(ErrorKind::InterfaceNotFound)
    } else if name == "org.varlink.service.MethodNotFound"@ {
        Some(ErrorKind::MethodNotFound)
    } else if name == "org.varlink.service.MethodNotImplemented"@ {
        Some(ErrorKind::MethodNotImplemented)
    } else if name == "org.varlink.service.InvalidParameter"@ {
        Some(ErrorKind::InvalidParameter)
    } else if name == "org.varlink.service.PermissionDenied"@ {
        Some(ErrorKind::PermissionDenied)
    } else if name == "org.varlink.service.ExpectedMore"@ {
        Some(ErrorKind::ExpectedMore)
    } else {
        None
    }
}

/// An error's name, read back, gives its kind again.
pub proof fn lemma_error_name_round_trip(k: ErrorKind)
    ensures
        kind_of_name(kind_name(k)) == Some(k),
{
    reveal_strlit("org.varlink.service.InterfaceNotFound");
    reveal_strlit("org.varlink.service.MethodNotFound");
    reveal_strlit("org.varlink.service.MethodNotImplemented");
    reveal_strlit("org.varlink.service.InvalidParameter");
    reveal_strlit("org.varlink.service.PermissionDenied");
    reveal_strlit("org.varlink.service.ExpectedMore");
    let inf = "org.varlink.service.InterfaceNotFound"@;
    let mnf = "org.varlink.service.MethodNotFound"@;
    let mni = "org.varlink.service.MethodNotImplemented"@;
    let ip = "org.varlink.service.InvalidParameter"@;
    let pd = "org.varlink.service.PermissionDenied"@;
    let em = "org.varlink.service.ExpectedMore"@;
    assert(inf.len() == 37 && mnf.len() == 34 && mni.len() == 40);
    assert(ip.len() == 36 && pd.len() == 36 && em.len() == 32);
    assert(ip[20] != pd[20]);
    assert(ip != pd);
}

/// An error kind's name after `org.varlink.service.`.
pub open spec fn short_error_name(k: ErrorKind) -> Seq<char> {
    kind_name(k).skip(20)
}

/// `p` with its first letter in upper case.
pub open spec fn capitalized(p: Seq<char>) -> Seq<char> {
    seq![crate::naming::ascii_upper(p[0])] + p.skip(1)
}

/// `s` ends with `tail`.
pub open spec fn ends_with(s: Seq<char>, tail: Seq<char>) -> bool {
    tail.len() <= s.len() && s.skip(s.len() - tail.len()) == tail
}

/// An error's parameter is named after what the error is about, as the interface declares it: a
/// lowercase word that, capitalized, is what the error says was not found or not implemented
/// (`InterfaceNotFound` carries `interface`, `MethodNotFound` and `MethodNotImplemented` carry
/// `method`), or what is invalid (`InvalidParameter` carries `parameter`). The errors that say
/// none of these carry no parameter.
pub proof fn lemma_error_parameter_names(k: ErrorKind)
    ensures
        match kind_parameter(k) {
            Some(p) => {
                &&& p.len() > 0
                &&& forall|i: int| 0 <= i < p.len() ==> 'a' <= #[trigger] p[i] <= 'z'
                &&& {
                    ||| short_error_name(k) == capitalized(p) + "NotFound"@
                    ||| short_error_name(k) == capitalized(p) + "NotImplemented"@
                    ||| short_error_name(k) == "Invalid"@ + capitalized(p)
                }
            },
            None => {
                &&& !ends_with(short_error_name(k), "NotFound"@)
                &&& !ends_with(short_error_name(k), "NotImplemented"@)
                &&& !(short_error_name(k).len() >= 7 && short_error_name(k).take(7) == "Invalid"@)
            },
        },
{
    reveal_strlit("org.varlink.service.InterfaceNotFound");
    reveal_strlit("org.varlink.service.MethodNotFound");
    reveal_strlit("org.varlink.service.MethodNotImplemented");
    reveal_strlit("org.varlink.service.InvalidParameter");
    reveal_strlit("org.varlink.service.PermissionDenied");
    reveal_strlit("org.varlink.service.ExpectedMore");
    reveal_strlit("interface");
    reveal_strlit("method");
    reveal_strlit("parameter");
    reveal_strlit("NotFound");
    reveal_strlit("NotImplemented");
    reveal_strlit("Invalid");
    assert(crate::naming::ascii_upper('i') == 'I');
    assert(crate::naming::ascii_upper('m') == 'M');
    assert(crate::naming::ascii_upper('p') == 'P');
    match k {
        ErrorKind::InterfaceNotFound => {
            assert(short_error_name(k) =~= capitalized("interface"@) + "NotFound"@);
        },
        ErrorKind::MethodNotFound => {
            assert(short_error_name(k) =~= capitalized("method"@) + "NotFound"@);
        },
        ErrorKind::MethodNotImplemented => {
            assert(short_error_name(k) =~= capitalized("method"@) + "NotImplemented"@);
        },
        ErrorKind::InvalidParameter => {
            assert(short_error_name(k) =~= "Invalid"@ + capitalized("parameter"@));
        },
        ErrorKind::PermissionDenied => {
            let n = short_error_name(k);
            assert(n.len() == 16);
            assert(n.skip(8)[0] != "NotFound"@[0]);
            assert(n.skip(2)[0] != "NotImplemented"@[0]);
            assert(n.take(7)[0] != "Invalid"@[0]);
        },
        ErrorKind::ExpectedMore => {
            let n = short_error_name(k);
            assert(n.len() == 12);
            assert(n.skip(4)[0] != "NotFound"@[0]);
            assert(n.take(7)[0] != "Invalid"@[0]);
        },
    }
}

/// Errors that can be returned by the `org.varlink.service` interface.
#[derive(Debug, PartialEq, Eq)]
pub enum Error {
    /// The requested interface was not found.
    InterfaceNotFound { interface: String },
    /// The requested method was not found.
    MethodNotFound { method: String },
    /// The interface defines the requested method, but the service does not implement it.
    MethodNotImplemented { method: String },
    /// One of the passed parameters is invalid.
    InvalidParameter { parameter: String },
    /// Client is denied access.
    PermissionDenied,
    /// Method is expected to be called with 'more' set to true, but wasn't.
    ExpectedMore,
}

/// The kind of an error.
pub open spec fn error_kind(e: &Error) -> ErrorKind {
    match e {
        Error::InterfaceNotFound { .. } => ErrorKind::InterfaceNotFound,
        Error::MethodNotFound { .. } => ErrorKind::MethodNotFound,
        Error::MethodNotImplemented { .. } => ErrorKind::MethodNotImplemented,
        Error::InvalidParameter { .. } => ErrorKind::InvalidParameter,
        Error::PermissionDenied => ErrorKind::PermissionDenied,
        Error::ExpectedMore => ErrorKind::ExpectedMore,
    }
}

/// The value of an error's parameter, if it carries one.
pub open spec fn error_argument(e: &Error) -> Option<Seq<char>> {
    match e {
        Error::InterfaceNotFound { interface } => Some(interface@),
        Error::MethodNotFound { method } => Some(method@),
        Error::MethodNotImplemented { method } => Some(method@),
        Error::InvalidParameter { parameter } => Some(parameter@),
        _ => None,
    }
}

/// The description of an error.
pub open spec fn error_message(e: &Error) -> Seq<char> {
    match e {
        Error::InterfaceNotFound { interface } => "Interface not found: "@ + interface@,
        Error::MethodNotFound { method } => "Method not found: "@ + method@,
        Error::MethodNotImplemented { method } => "Method not implemented: "@ + method@,
        Error::InvalidParameter { parameter } => "Invalid parameter: "@ + parameter@,
        Error::PermissionDenied => "Permission denied"@,
        Error::ExpectedMore => "Expected more"@,
    }
}

/// An error written on the wire, by its name and the value of its parameter, is read back as
/// itself: its name gives its kind again, and it carries a parameter exactly when its kind does,
/// so that `from_wire` rebuilds it.
pub proof fn lemma_error_wire_round_trip(e: Error)
    ensures
        kind_of_name(kind_name(error_kind(&e))) == Some(error_kind(&e)),
        (kind_parameter(error_kind(&e)) is Some) == (error_argument(&e) is Some),
{
    lemma_error_name_round_trip(error_kind(&e));
}

impl Error {
    /// The human-readable description of this error.
    pub fn message(&self) -> (r: String)
        ensures
            r@ == error_message(self),
    {
        match self {
            Error::InterfaceNotFound { interface } => concat("Interface not found: ", interface.as_str()),
            Error::MethodNotFound { method } => concat("Method not found: ", method.as_str()),
            Error::MethodNotImplemented { method } => concat("Method not implemented: ", method.as_str()),
            Error::InvalidParameter { parameter } => concat("Invalid parameter: ", parameter.as_str()),
            Error::PermissionDenied => String::from_str("Permission denied"),
            Error::ExpectedMore => String::from_str("Expected more"),
        }
    }

    /// This error, owning all its data.
    pub fn into_owned(self) -> (r: Self)
        ensures
            r == self,
    {
        self
    }

    /// The kind of this error.
    pub fn kind(&self) -> (r: ErrorKind)
        ensures
            r == error_kind(self),
    {
        match self {
            Error::InterfaceNotFound { .. } => ErrorKind::InterfaceNotFound,
            Error::MethodNotFound { .. } => ErrorKind::MethodNotFound,
            Error::MethodNotImplemented { .. } => ErrorKind::MethodNotImplemented,
            Error::InvalidParameter { .. } => ErrorKind::InvalidParameter,
            Error::PermissionDenied => ErrorKind::PermissionDenied,
            Error::ExpectedMore => ErrorKind::ExpectedMore,
        }
    }

    /// The error's qualified name on the wire.
    pub fn name(&self) -> (r: &'static str)
        ensures
            r@ == kind_name(error_kind(self)),
    {
        match self {
            Error::InterfaceNotFound { .. } => "org.varlink.service.InterfaceNotFound",
            Error::MethodNotFound { .. } => "org.varlink.service.MethodNotFound",
            Error::MethodNotImplemented { .. } => "org.varlink.service.MethodNotImplemented",
            Error::InvalidParameter { .. } => "org.varlink.service.InvalidParameter",
            Error::PermissionDenied => "org.varlink.service.PermissionDenied",
            Error::ExpectedMore => "org.varlink.service.ExpectedMore",
        }
    }

    /// The name and value of the error's parameter, if it carries one.
    pub fn parameter(&self) -> (r: Option<(&'static str, &str)>)
        ensures
            match kind_parameter(error_kind(self)) {
                Some(p) => r matches Some((n, v)) && n@ == p && Some(v@) == error_argument(self),
                None => r is None && error_argument(self) is None,
            },
    {
        match self {
            Error::InterfaceNotFound { interface } => Some(("interface", interface.as_str())),
            Error::MethodNotFound { method } => Some(("method", method.as_str())),
            Error::MethodNotImplemented { method } => Some(("method", method.as_str())),
            Error::InvalidParameter { parameter } => Some(("parameter", parameter.as_str())),
            Error::PermissionDenied => None,
            Error::ExpectedMore => None,
        }
    }

    /// The error named `name` on the wire, with `argument` as the value of its parameter; `None`
    /// when no error has that name, or the parameter is missing where one is needed, or given
    /// where there is none.
    pub fn from_wire(name: &str, argument: Option<String>) -> (r: Option<Error>)
        ensures
            match kind_of_name(name@) {
                Some(k) => if kind_parameter(k) is Some == argument is Some {
                    r matches Some(e) && error_kind(&e) == k && error_argument(&e) == match argument {
                        Some(a) => Some(a@),
                        None => None::<Seq<char>>,
                    }
                } else {
                    r is None
                },
                None => r is None,
            },
    {
        proof {
            reveal_strlit("org.varlink.service.InterfaceNotFound");
            reveal_strlit("org.varlink.service.MethodNotFound");
            reveal_strlit("org.varlink.service.MethodNotImplemented");
            reveal_strlit("org.varlink.service.InvalidParameter");
            reveal_strlit("org.varlink.service.PermissionDenied");
            reveal_strlit("org.varlink.service.ExpectedMore");
        }
        if str_eq(name, "org.varlink.service.InterfaceNotFound") {
            match argument {
                Some(a) => Some(Error::InterfaceNotFound { interface: a }),
                None => None,
            }
        } else if str_eq(name, "org.varlink.service.MethodNotFound") {
            match argument {
                Some(a) => Some(Error::MethodNotFound { method: a }),
                None => None,
            }
        } else if str_eq(name, "org.varlink.service.MethodNotImplemented") {
            match argument {
                Some(a) => Some(Error::MethodNotImplemented { method: a }),
                None => None,
            }
        } else if str_eq(name, "org.varlink.service.InvalidParameter") {
            match argument {
                Some(a) => Some(Error::InvalidParameter { parameter: a }),
                None => None,
            }
        } else if str_eq(name, "org.varlink.service.PermissionDenied") {
            match argument {
                Some(_) => None,
                None => Some(Error::PermissionDenied),
            }
        } else if str_eq(name, "org.varlink.service.ExpectedMore") {
            match argument {
                Some(_) => None,
                None => Some(Error::ExpectedMore),
            }
        } else {
            None
        }
    }
}

/// A service error, owning all its data.
#[derive(Debug, PartialEq, Eq)]
pub struct OwnedError(pub Error);

impl OwnedError {
    /// The owned form of `err`.
    pub fn from_error(err: Error) -> (r: Self)
        ensures
            r.0 == err,
    {
        OwnedError(err.into_owned())
    }

    /// The inner error.
    pub fn inner(&self) -> (r: &Error)
        ensures
            *r == self.0,
    {
        &self.0
    }

    /// Consumes self and returns the inner error.
    pub fn into_inner(self) -> (r: Error)
        ensures
            r == self.0,
    {
        self.0
    }
}

} // verus!
