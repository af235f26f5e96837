use zlink::call::{chain_first, EmptyChain};
use zlink::call::{
    prefixed_size_hint, Call, CallEnvelope, EmptyMapAccess, EnvelopeKey, Flag, Resolution,
    SyntheticMethodMap, SyntheticState, SyntheticValue,
};

#[test]
fn flags_are_written_only_when_set() {
    let call = Call::new("m");
    assert!(call.flags_to_write().is_empty());
    let call = Call::new("m").set_oneway(true).set_upgrade(true);
    assert_eq!(call.flags_to_write(), vec![Flag::Oneway, Flag::Upgrade]);
    let call = Call::new("m").set_oneway(false).set_more(false).set_upgrade(false);
    assert!(call.flags_to_write().is_empty());
    assert_eq!(*call.method(), "m");
}

#[test]
fn flag_names() {
    assert_eq!(Flag::Oneway.name(), "oneway");
    assert_eq!(Flag::More.name(), "more");
    assert_eq!(Flag::Upgrade.name(), "upgrade");
}

#[test]
fn keys_are_classified() {
    let mut env = CallEnvelope::new();
    assert_eq!(env.on_key("oneway"), EnvelopeKey::Flag(Flag::Oneway));
    assert_eq!(env.on_key("more"), EnvelopeKey::Flag(Flag::More));
    assert_eq!(env.on_key("upgrade"), EnvelopeKey::Flag(Flag::Upgrade));
    assert_eq!(env.on_key("method"), EnvelopeKey::Method);
    assert!(!env.saw_parameters);
    assert_eq!(env.on_key("parameters"), EnvelopeKey::Parameters);
    assert!(env.saw_parameters);
    assert_eq!(env.on_key("extra"), EnvelopeKey::Other);
}

#[test]
fn flags_default_to_unset() {
    let mut env = CallEnvelope::new();
    assert_eq!(env.flags(), (false, false, false));
    env.on_flag(Flag::More, Some(true));
    env.on_flag(Flag::Oneway, Some(false));
    assert_eq!(env.flags(), (false, true, false));
    assert!(!env.flag_error);
    env.on_flag(Flag::Upgrade, None);
    assert!(env.flag_error);
}

#[test]
fn fallback_only_for_empty_or_absent_parameters() {
    // Absent parameters and a failed stream: read again from the stand-in object.
    let mut env = CallEnvelope::new();
    env.on_key("method");
    env.on_method("org.example.List".to_string());
    assert_eq!(
        env.resolve(false),
        Resolution::Fallback("org.example.List".to_string())
    );

    // A stream that succeeded stands.
    let mut env = CallEnvelope::new();
    env.on_method("org.example.List".to_string());
    assert_eq!(env.resolve(true), Resolution::Streamed);

    // Non-empty parameters that failed: the error stands.
    let mut env = CallEnvelope::new();
    env.on_method("org.example.Get".to_string());
    env.on_key("parameters");
    assert_eq!(env.resolve(false), Resolution::Streamed);

    // Empty parameters handed on as a unit that failed: fall back.
    let mut env = CallEnvelope::new();
    env.on_method("org.example.List".to_string());
    env.on_key("parameters");
    env.on_empty_parameters();
    assert!(env.should_drain(true));
    assert!(!env.should_drain(false));
    assert_eq!(
        env.resolve(false),
        Resolution::Fallback("org.example.List".to_string())
    );

    // A malformed flag is never masked.
    let mut env = CallEnvelope::new();
    env.on_method("org.example.List".to_string());
    env.on_flag(Flag::Oneway, None);
    assert_eq!(env.resolve(false), Resolution::Streamed);

    // Without a method name there is nothing to rebuild.
    let mut env = CallEnvelope::new();
    assert_eq!(env.resolve(false), Resolution::Streamed);
}

#[test]
fn the_stand_in_object_has_two_entries() {
    let mut map = SyntheticMethodMap::new("org.example.List");
    assert_eq!(map.size_hint(), Some(2));
    assert_eq!(map.next_key(), Some("method"));
    assert_eq!(map.next_value(), Some(SyntheticValue::Name("org.example.List")));
    assert_eq!(map.size_hint(), Some(1));
    assert_eq!(map.next_key(), Some("parameters"));
    assert_eq!(map.next_value(), Some(SyntheticValue::EmptyParameters));
    assert_eq!(map.state, SyntheticState::Done);
    assert_eq!(map.size_hint(), Some(0));
    assert_eq!(map.next_key(), None);
    assert_eq!(map.next_value(), None);
}

#[test]
fn empty_map_and_prefixed_hints() {
    let e = EmptyMapAccess::new();
    assert_eq!(e.next_key(), None);
    assert_eq!(e.size_hint(), Some(0));
    assert_eq!(prefixed_size_hint(Some(3), true), Some(4));
    assert_eq!(prefixed_size_hint(Some(3), false), Some(3));
    assert_eq!(prefixed_size_hint(None, true), None);
}

#[test]
fn written_flags_read_back() {
    for (oneway, more, upgrade) in [
        (false, false, false),
        (true, false, false),
        (false, true, true),
        (true, true, true),
    ] {
        let call = Call::new(()).set_oneway(oneway).set_more(more).set_upgrade(upgrade);
        let mut env = CallEnvelope::new();
        for flag in call.flags_to_write() {
            match env.on_key(flag.name()) {
                EnvelopeKey::Flag(f) => env.on_flag(f, Some(true)),
                other => panic!("flag read back as {other:?}"),
            }
        }
        assert_eq!(env.flags(), (oneway, more, upgrade));
    }
}

fn drive(entries: &[(&str, Option<bool>)]) -> CallEnvelope {
    let mut env = CallEnvelope::new();
    for (key, value) in entries {
        match env.on_key(key) {
            EnvelopeKey::Flag(f) => env.on_flag(f, *value),
            EnvelopeKey::Method => env.on_method("org.example.test.Simple".to_string()),
            _ => {}
        }
    }
    env
}

#[test]
fn flags_do_not_depend_on_key_order() {
    let orders: [&[(&str, Option<bool>)]; 3] = [
        &[("method", None), ("oneway", Some(true)), ("more", Some(false))],
        &[("oneway", Some(true)), ("method", None), ("more", Some(false))],
        &[("more", Some(false)), ("oneway", Some(true)), ("method", None)],
    ];
    for entries in orders {
        let env = drive(entries);
        assert_eq!(env.flags(), (true, false, false));
        assert_eq!(env.method.as_deref(), Some("org.example.test.Simple"));
        assert!(!env.flag_error);
    }
    let with_extra = drive(&[
        ("extra", None),
        ("method", None),
        ("parameters", None),
        ("upgrade", Some(true)),
        ("unknown", None),
    ]);
    assert_eq!(with_extra.flags(), (false, false, true));
    assert!(with_extra.saw_parameters);
    // A flag whose value is not a boolean (such as `null`) marks the envelope as malformed.
    let bad = drive(&[("method", None), ("oneway", None)]);
    assert!(bad.flag_error);
    assert_eq!(bad.flags(), (false, false, false));
}

#[test]
fn a_chain_needs_a_first_call() {
    assert_eq!(chain_first(Some(Call::new("m"))).unwrap().method(), &"m");
    assert_eq!(chain_first::<Call<&str>>(None).unwrap_err(), EmptyChain);
}
