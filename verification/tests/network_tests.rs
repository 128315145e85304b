use linefeed::casemap::UserMode;
use linefeed::{CaseMapping, NetworkSupport};

#[test]
fn isupport_updates_channel_types() {
    let mut support = NetworkSupport::default();
    let changed = support.apply_isupport_tokens(&[
        "nick".to_string(),
        "CHANTYPES=#&+!".to_string(),
        "PREFIX=(qaohv)~&@%+".to_string(),
        "CASEMAPPING=strict-rfc1459".to_string(),
        "are supported".to_string(),
    ]);
    assert!(changed);
    assert!(support.is_channel("+ops"));
    assert!(support.is_channel("!safe"));
    assert!(!support.is_channel("nick"));
    assert_eq!(support.case_mapping, CaseMapping::StrictRfc1459);
    assert!(support.identifiers_equal("[Nick]", "{nick}"));
    assert!(!support.identifiers_equal("Nick^", "nick~"));
    assert!(!support.has_isupport("WHOX"));
}

#[test]
fn prefixed_nicks_collect_every_mode() {
    let support = NetworkSupport::default();
    assert_eq!(support.parse_prefixed_nick("@+alice"), ("alice", vec!['o', 'v']));
    assert_eq!(support.parse_prefixed_nick("bob"), ("bob", vec![]));
    assert_eq!(support.parse_prefixed_nick("@@x"), ("x", vec!['o']));
}

#[test]
fn mode_letters_round_trip() {
    for m in [UserMode::Owner, UserMode::Admin, UserMode::Op, UserMode::HalfOp, UserMode::Voice] {
        let c = m.mode_letter().unwrap();
        assert_eq!(UserMode::from_mode_letter(c), Some(m));
    }
    assert_eq!(UserMode::Normal.mode_letter(), None);
    assert_eq!(UserMode::from_mode_letter('x'), None);
    assert_eq!(UserMode::Op.prefix(), "@");
}

#[test]
fn canonical_keys() {
    assert_eq!(CaseMapping::Rfc1459.canonicalize("[A]^"), "{a}~");
    assert_eq!(CaseMapping::Ascii.canonicalize("[A]^"), "[a]^");
    assert_eq!(CaseMapping::Utf8Rfc8265.canonicalize("Alice"), "alice");
    assert_eq!(CaseMapping::default(), CaseMapping::Rfc1459);
}
