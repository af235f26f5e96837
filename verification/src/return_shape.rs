//! What the service macro makes of a method's return type: whether it returns a value, a
//! `Result`, file descriptors or a stream of replies, and the errors that refuse a shape it cannot
//! serve.
use vstd::prelude::*;

verus! {

/// The shape of a type, as far as the return-type checks look into it.
#[derive(Debug)]
pub enum TypeShape {
    /// `()`.
    Unit,
    /// A tuple with elements, by the shape of its first.
    Tuple(Box<TypeShape>),
    /// `Reply<T>`.
    Reply,
    /// `Result<T, E>`, by the shape of `T`.
    Result(Box<TypeShape>),
    /// A stream whose item type can be read off: `impl Stream<Item = I>` (`impl_trait`),
    /// `dyn Stream<Item = I>`, or a generic stream type `S<T>`, whose item is `Reply<T>`.
    Stream { item: Box<TypeShape>, impl_trait: bool },
    /// Any other type.
    Other,
}

/// The item type a stream return type yields, if it can be read off. A generic path type such as
/// `Reply<T>` or `Result<T, E>` is taken for a stream of `Reply<T>`.
pub open spec fn stream_item(t: TypeShape) -> Option<TypeShape> {
    match t {
        TypeShape::Stream { item, .. } => Some(*item),
        TypeShape::Reply => Some(TypeShape::Reply),
        TypeShape::Result(_) => Some(TypeShape::Reply),
        _ => None,
    }
}

/// Whether a type is `Reply<T>` (`Some(false)`) or `Result<Reply<T>, E>` (`Some(true)`).
pub open spec fn reply_fallible(t: TypeShape) -> Option<bool> {
    match t {
        TypeShape::Reply => Some(false),
        TypeShape::Result(ok) => if *ok == TypeShape::Reply {
            Some(true)
        } else {
            None
        },
        _ => None,
    }
}

/// What a method returns, once its return type was accepted.
#[derive(Debug, Clone, Copy, PartialEq, Eq)]
pub enum ReturnKind {
    /// A value or nothing: `data` when there is a value to send, `fallible` when it is a `Result`.
    Single { data: bool, fallible: bool },
    /// With `#[zlink(return_fds)]`: a value and file descriptors.
    WithFds { data: bool, fallible: bool },
    /// A stream of replies, each a `Result` when `fallible`; `impl_trait` when the stream is an
    /// `impl Stream` that must be boxed.
    Streaming { fallible: bool, impl_trait: bool },
}

pub open spec fn msg_stream_fds() -> Seq<char> {
    "streaming methods with return_fds must return a Stream<Item = (Reply<T>, Vec<OwnedFd>)> or Stream<Item = (Result<Reply<T>, E>, Vec<OwnedFd>)>"@
}

pub open spec fn msg_stream_fds_item() -> Seq<char> {
    "streaming methods with return_fds must return a Stream<Item = (Reply<T>, Vec<OwnedFd>)> or Stream<Item = (Result<Reply<T>, E>, Vec<OwnedFd>)> (could not extract Stream's Item type)"@
}

pub open spec fn msg_stream_fds_tuple() -> Seq<char> {
    "streaming methods with return_fds must return a Stream<Item = (Reply<T>, Vec<OwnedFd>)> or Stream<Item = (Result<Reply<T>, E>, Vec<OwnedFd>)> (stream item must be a tuple)"@
}

pub open spec fn msg_stream_fds_reply() -> Seq<char> {
    "streaming methods with return_fds must return a Stream<Item = (Reply<T>, Vec<OwnedFd>)> or Stream<Item = (Result<Reply<T>, E>, Vec<OwnedFd>)> (first tuple element must be Reply<T> or Result<Reply<T>, E>)"@
}

pub open spec fn msg_stream() -> Seq<char> {
    "streaming methods must return a Stream<Item = Reply<T>> or Stream<Item = Result<Reply<T>, E>>"@
}

pub open spec fn msg_stream_item() -> Seq<char> {
    "streaming methods must return a Stream<Item = Reply<T>> or Stream<Item = Result<Reply<T>, E>> (could not extract Stream's Item type)"@
}

pub open spec fn msg_stream_reply() -> Seq<char> {
    "streaming methods must return a Stream<Item = Reply<T>> or Stream<Item = Result<Reply<T>, E>> (stream item must be Reply<T> or Result<Reply<T>, E>)"@
}

pub open spec fn msg_fds() -> Seq<char> {
    "`return_fds` methods must have a return type"@
}

pub open spec fn msg_fds_tuple() -> Seq<char> {
    "`return_fds` methods must return `(T, Vec<OwnedFd>)` or `(Result<T, E>, Vec<OwnedFd>)`"@
}

/// What a method's return type makes of it: `output` is its return type, `None` when it has none.
pub open spec fn return_decision(streaming: bool, return_fds: bool, output: Option<TypeShape>) -> Result<ReturnKind, Seq<char>> {
    if streaming && return_fds {
        match output {
            None => Err(msg_stream_fds()),
            Some(ty) => match stream_item(ty) {
                None => Err(msg_stream_fds_item()),
                Some(TypeShape::Tuple(first)) => match reply_fallible(*first) {
                    Some(f) => Ok(ReturnKind::Streaming { fallible: f, impl_trait: ty matches TypeShape::Stream { impl_trait: true, .. } }),
                    None => Err(msg_stream_fds_reply()),
                },
                Some(_) => Err(msg_stream_fds_tuple()),
            },
        }
    } else if streaming {
        match output {
            None => Err(msg_stream()),
            Some(ty) => match stream_item(ty) {
                None => Err(msg_stream_item()),
                Some(item) => match reply_fallible(item) {
                    Some(f) => Ok(ReturnKind::Streaming { fallible: f, impl_trait: ty matches TypeShape::Stream { impl_trait: true, .. } }),
                    None => Err(msg_stream_reply()),
                },
            },
        }
    } else if return_fds {
        match output {
            None => Err(msg_fds()),
            Some(TypeShape::Tuple(first)) => match *first {
                TypeShape::Result(ok) => Ok(ReturnKind::WithFds { data: *ok != TypeShape::Unit, fallible: true }),
                other => Ok(ReturnKind::WithFds { data: other != TypeShape::Unit, fallible: false }),
            },
            Some(_) => Err(msg_fds_tuple()),
        }
    } else {
        match output {
            None => Ok(ReturnKind::Single { data: false, fallible: false }),
            Some(TypeShape::Result(ok)) => Ok(ReturnKind::Single { data: *ok != TypeShape::Unit, fallible: true }),
            Some(_) => Ok(ReturnKind::Single { data: true, fallible: false }),
        }
    }
}

fn is_unit(t: &TypeShape) -> (r: bool)
    ensures
        r == (*t == TypeShape::Unit),
{
    match t {
        TypeShape::Unit => true,
        _ => false,
    }
}

fn stream_item_of(t: &TypeShape) -> (r: Option<&TypeShape>)
    ensures
        match (r, stream_item(*t)) {
            (Some(x), Some(y)) => *x == y,
            (None, None) => true,
            _ => false,
        },
{
    match t {
        TypeShape::Stream { item, .. } => Some(&**item),
        TypeShape::Reply => Some(&TypeShape::Reply),
        TypeShape::Result(_) => Some(&TypeShape::Reply),
        _ => None,
    }
}

fn reply_fallible_of(t: &TypeShape) -> (r: Option<bool>)
    ensures
        r == reply_fallible(*t),
{
    match t {
        TypeShape::Reply => Some(false),
        TypeShape::Result(ok) => match &**ok {
            TypeShape::Reply => Some(true),
            _ => None,
        },
        _ => None,
    }
}

fn is_impl_stream(t: &TypeShape) -> (r: bool)
    ensures
        r == (*t matches TypeShape::Stream { impl_trait: true, .. }),
{
    match t {
        TypeShape::Stream { impl_trait, .. } => *impl_trait,
        _ => false,
    }
}

/// Decides what a method returns from its return type (`None` when it has none), whether it
/// streams, and whether it returns file descriptors; or refuses the return type with the message
/// the macro reports.
pub fn classify_return(streaming: bool, return_fds: bool, output: Option<&TypeShape>) -> (r: Result<ReturnKind, String>)
    ensures
        match (r, return_decision(streaming, return_fds, match output { Some(t) => Some(*t), None => None })) {
            (Ok(k), Ok(d)) => k == d,
            (Err(m), Err(d)) => m@ == d,
            _ => false,
        },
{
    if streaming && return_fds {
        match output {
            None => Err(String::from_str("streaming methods with return_fds must return a Stream<Item = (Reply<T>, Vec<OwnedFd>)> or Stream<Item = (Result<Reply<T>, E>, Vec<OwnedFd>)>")),
            Some(ty) => match stream_item_of(ty) {
                None => Err(String::from_str("streaming methods with return_fds must return a Stream<Item = (Reply<T>, Vec<OwnedFd>)> or Stream<Item = (Result<Reply<T>, E>, Vec<OwnedFd>)> (could not extract Stream's Item type)")),
                Some(TypeShape::Tuple(first)) => match reply_fallible_of(&**first) {
                    Some(f) => Ok(ReturnKind::Streaming { fallible: f, impl_trait: is_impl_stream(ty) }),
                    None => Err(String::from_str("streaming methods with return_fds must return a Stream<Item = (Reply<T>, Vec<OwnedFd>)> or Stream<Item = (Result<Reply<T>, E>, Vec<OwnedFd>)> (first tuple element must be Reply<T> or Result<Reply<T>, E>)")),
                },
                Some(_) => Err(String::from_str("streaming methods with return_fds must return a Stream<Item = (Reply<T>, Vec<OwnedFd>)> or Stream<Item = (Result<Reply<T>, E>, Vec<OwnedFd>)> (stream item must be a tuple)")),
            },
        }
    } else if streaming {
        match output {
            None => Err(String::from_str("streaming methods must return a Stream<Item = Reply<T>> or Stream<Item = Result<Reply<T>, E>>")),
            Some(ty) => match stream_item_of(ty) {
                None => Err(String::from_str("streaming methods must return a Stream<Item = Reply<T>> or Stream<Item = Result<Reply<T>, E>> (could not extract Stream's Item type)")),
                Some(item) => match reply_fallible_of(item) {
                    Some(f) => Ok(ReturnKind::Streaming { fallible: f, impl_trait: is_impl_stream(ty) }),
                    None => Err(String::from_str("streaming methods must return a Stream<Item = Reply<T>> or Stream<Item = Result<Reply<T>, E>> (stream item must be Reply<T> or Result<Reply<T>, E>)")),
                },
            },
        }
    } else if return_fds {
        match output {
            None => Err(String::from_str("`return_fds` methods must have a return type")),
            Some(TypeShape::Tuple(first)) => match &**first {
                TypeShape::Result(ok) => Ok(ReturnKind::WithFds { data: !is_unit(&**ok), fallible: true }),
                other => Ok(ReturnKind::WithFds { data: !is_unit(other), fallible: false }),
            },
            Some(_) => Err(String::from_str("`return_fds` methods must return `(T, Vec<OwnedFd>)` or `(Result<T, E>, Vec<OwnedFd>)`")),
        }
    } else {
        match output {
            None => Ok(ReturnKind::Single { data: false, fallible: false }),
            Some(TypeShape::Result(ok)) => Ok(ReturnKind::Single { data: !is_unit(&**ok), fallible: true }),
            Some(_) => Ok(ReturnKind::Single { data: true, fallible: false }),
        }
    }
}

/// Whether a type is `()`.
pub open spec fn is_unit_shape(t: TypeShape) -> bool {
    t matches TypeShape::Unit
}

/// What a method sends back follows from its return type, whatever the type: with neither
/// streaming nor file descriptors, a `Result<T, E>` is fallible and sends a value exactly when `T`
/// is not `()`, any other return type sends a value and is not fallible, and no return type sends
/// nothing; with file descriptors, the first element of the tuple is read the same way; the kind
/// of a method that is accepted always matches how it is declared; a stream is boxed exactly when
/// it is returned as `impl Stream`; and its replies are fallible exactly when its items (the
/// first element of each, with file descriptors) are `Result`s.
pub proof fn lemma_return_values(streaming: bool, return_fds: bool, output: Option<TypeShape>)
    ensures
        !streaming && !return_fds ==> match output {
            None => return_decision(streaming, return_fds, output) == Ok::<ReturnKind, Seq<char>>(
                ReturnKind::Single { data: false, fallible: false },
            ),
            Some(TypeShape::Result(ok)) => return_decision(streaming, return_fds, output) == Ok::<ReturnKind, Seq<char>>(
                ReturnKind::Single { data: !is_unit_shape(*ok), fallible: true },
            ),
            Some(_) => return_decision(streaming, return_fds, output) == Ok::<ReturnKind, Seq<char>>(
                ReturnKind::Single { data: true, fallible: false },
            ),
        },
        !streaming && return_fds ==> match output {
            Some(TypeShape::Tuple(first)) => match *first {
                TypeShape::Result(ok) => return_decision(streaming, return_fds, output) == Ok::<ReturnKind, Seq<char>>(
                    ReturnKind::WithFds { data: !is_unit_shape(*ok), fallible: true },
                ),
                other => return_decision(streaming, return_fds, output) == Ok::<ReturnKind, Seq<char>>(
                    ReturnKind::WithFds { data: !is_unit_shape(other), fallible: false },
                ),
            },
            _ => return_decision(streaming, return_fds, output) is Err,
        },
        return_decision(streaming, return_fds, output) matches Ok(k) ==> {
            &&& (k is Streaming <==> streaming)
            &&& (k is WithFds <==> !streaming && return_fds)
            &&& (k is Single <==> !streaming && !return_fds)
        },
        return_decision(streaming, return_fds, output) matches Ok(ReturnKind::Streaming { impl_trait, .. })
            ==> (impl_trait <==> output matches Some(TypeShape::Stream { impl_trait: true, .. })),
        streaming ==> (return_decision(streaming, return_fds, output) matches Ok(ReturnKind::Streaming { fallible, .. })
            ==> (fallible <==> match output {
                Some(ty) => match stream_item(ty) {
                    Some(item) => {
                        let inner = if return_fds {
                            match item {
                                TypeShape::Tuple(first) => *first,
                                _ => item,
                            }
                        } else {
                            item
                        };
                        inner matches TypeShape::Result(_)
                    },
                    None => false,
                },
                None => false,
            })),
{
}

} // verus!
