use zlink::return_shape::{classify_return, ReturnKind, TypeShape};

fn boxed(t: TypeShape) -> Box<TypeShape> {
    Box::new(t)
}

#[test]
fn plain_methods() {
    assert_eq!(classify_return(false, false, None), Ok(ReturnKind::Single { data: false, fallible: false }));
    let unit_result = TypeShape::Result(boxed(TypeShape::Unit));
    assert_eq!(
        classify_return(false, false, Some(&unit_result)),
        Ok(ReturnKind::Single { data: false, fallible: true })
    );
    assert_eq!(
        classify_return(false, false, Some(&TypeShape::Other)),
        Ok(ReturnKind::Single { data: true, fallible: false })
    );
}

#[test]
fn fds_methods() {
    assert_eq!(
        classify_return(false, true, None).unwrap_err(),
        "`return_fds` methods must have a return type"
    );
    assert!(classify_return(false, true, Some(&TypeShape::Other)).unwrap_err().contains("`(T, Vec<OwnedFd>)`"));
    let t = TypeShape::Tuple(boxed(TypeShape::Result(boxed(TypeShape::Other))));
    assert_eq!(classify_return(false, true, Some(&t)), Ok(ReturnKind::WithFds { data: true, fallible: true }));
    let t = TypeShape::Tuple(boxed(TypeShape::Unit));
    assert_eq!(classify_return(false, true, Some(&t)), Ok(ReturnKind::WithFds { data: false, fallible: false }));
}

#[test]
fn streaming_methods() {
    let s = TypeShape::Stream { item: boxed(TypeShape::Result(boxed(TypeShape::Reply))), impl_trait: true };
    assert_eq!(classify_return(true, false, Some(&s)), Ok(ReturnKind::Streaming { fallible: true, impl_trait: true }));
    // A generic stream type yields `Reply<T>`.
    assert_eq!(
        classify_return(true, false, Some(&TypeShape::Reply)),
        Ok(ReturnKind::Streaming { fallible: false, impl_trait: false })
    );
    assert!(classify_return(true, false, Some(&TypeShape::Other)).unwrap_err().ends_with("(could not extract Stream's Item type)"));
    let s = TypeShape::Stream { item: boxed(TypeShape::Other), impl_trait: false };
    assert!(classify_return(true, false, Some(&s)).unwrap_err().ends_with("(stream item must be Reply<T> or Result<Reply<T>, E>)"));
    assert_eq!(
        classify_return(true, false, None).unwrap_err(),
        "streaming methods must return a Stream<Item = Reply<T>> or Stream<Item = Result<Reply<T>, E>>"
    );
}

#[test]
fn streaming_fds_methods() {
    let s = TypeShape::Stream { item: boxed(TypeShape::Tuple(boxed(TypeShape::Reply))), impl_trait: true };
    assert_eq!(classify_return(true, true, Some(&s)), Ok(ReturnKind::Streaming { fallible: false, impl_trait: true }));
    let s = TypeShape::Stream { item: boxed(TypeShape::Reply), impl_trait: false };
    assert!(classify_return(true, true, Some(&s)).unwrap_err().ends_with("(stream item must be a tuple)"));
    let s = TypeShape::Stream { item: boxed(TypeShape::Tuple(boxed(TypeShape::Unit))), impl_trait: false };
    assert!(classify_return(true, true, Some(&s))
        .unwrap_err()
        .ends_with("(first tuple element must be Reply<T> or Result<Reply<T>, E>)"));
    assert!(classify_return(true, true, None).unwrap_err().starts_with("streaming methods with return_fds"));
}
