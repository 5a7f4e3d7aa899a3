use daysquare_backend::tracelog::request_id::RequestId;
use daysquare_backend::tracelog::root_span::RootSpan;
use tracing::Span;

#[test]
fn root_span_from_extension() {
    assert!(RootSpan::from_extension(None).is_err());
    let found = RootSpan::from_extension(Some(RootSpan::new(Span::none())));
    let span = found.ok().unwrap().into_span();
    assert!(span.is_none());
}

#[test]
fn root_span_round_trip_keeps_the_span() {
    let root = RootSpan::new(Span::none());
    assert!(root.span().is_none());
    assert!(root.into_span().is_none());
}

#[test]
fn extraction_error_messages() {
    let e = RootSpan::from_extension(None).err().unwrap();
    assert_eq!(e.message(), "Failed to retrieve root span from request-local storage.");
    let e = RequestId::from_extension(None).err().unwrap();
    assert_eq!(e.message(), "Failed to retrieve request id from request-local storage.");
}

#[test]
fn request_ids_are_random_v4() {
    let a = RequestId::generate();
    let b = RequestId::generate();
    assert_eq!(a.uuid().get_version_num(), 4);
    assert_eq!(a.uuid().get_variant(), uuid::Variant::RFC4122);
    assert_eq!(a.uuid().as_bytes()[6] >> 4, 4);
    assert_eq!(a.uuid().as_bytes()[8] >> 6, 2);
    assert_ne!(*a.uuid(), *b.uuid());
    let u = *a.uuid();
    let found = RequestId::from_extension(Some(a)).ok().unwrap();
    assert_eq!(found.into_uuid(), u);
}

#[test]
fn conversions_take_the_inner_value_out() {
    let id = RequestId::generate();
    let u = *id.uuid();
    assert_eq!(uuid::Uuid::from(id), u);
    assert!(Span::from(RootSpan::new(Span::none())).is_none());
}
