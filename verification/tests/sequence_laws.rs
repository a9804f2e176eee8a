use xai_grok_input_sanitize::{
    decode_base64_image, sanitize, CategoryAction, InputSanitizeSession, RiskCategory,
    SanitizePolicy, SanitizeProfile,
};

#[test]
fn session_keeps_every_allowed_capability() {
    let base = SanitizeProfile::Strict.to_policy();
    let mut s = InputSanitizeSession::new(base.clone());
    assert!(s.allow_session(RiskCategory::LatinExtended).is_ok());
    assert!(s.allow_session(RiskCategory::BidiControls).is_err());
    assert!(s.allow_session(RiskCategory::Emoji).is_ok());
    assert!(s.allow_session(RiskCategory::LatinExtended).is_ok());
    let p = s.policy();
    assert_eq!(p.action(RiskCategory::LatinExtended), CategoryAction::Keep);
    assert_eq!(p.action(RiskCategory::Emoji), CategoryAction::Keep);
    for cat in [
        RiskCategory::BidiControls,
        RiskCategory::UnicodeLetters,
        RiskCategory::Tab,
        RiskCategory::ZeroWidthFormat,
    ] {
        assert_eq!(p.action(cat), base.action(cat));
    }
    assert_eq!(p.enabled, base.enabled);
    assert_eq!(p.notify_when_stripped, base.notify_when_stripped);
    assert_eq!(p.analyze_enabled, base.analyze_enabled);
}

#[test]
fn security_hits_follow_security_characters() {
    let p = SanitizePolicy::default();
    let r = sanitize("p\u{0430}yload", &p).unwrap();
    assert!(!r.has_security_hits());
    assert!(r.has_capability_hits());
    let r = sanitize("a\u{200B}b", &p).unwrap();
    assert!(r.has_security_hits());
    let r = sanitize("line\r\nnext\r", &p).unwrap();
    assert!(!r.has_security_hits());
    let r = sanitize("bell\u{7}", &p).unwrap();
    assert!(r.has_security_hits());
}

#[test]
fn base64_encodings_decode_back() {
    // "hello" is aGVsbG8 in standard base64.
    assert_eq!(decode_base64_image("aGVsbG8").unwrap(), b"hello");
    assert_eq!(decode_base64_image("aGVsbG8=").unwrap(), b"hello");
    assert_eq!(decode_base64_image("aGV s\tbG8=\n").unwrap(), b"hello");
    // 0xFB 0xFF is +/8 standard, -_8 URL-safe.
    assert_eq!(decode_base64_image("+/8=").unwrap(), vec![0xFB, 0xFF]);
    assert_eq!(decode_base64_image("-_8").unwrap(), vec![0xFB, 0xFF]);
    assert_eq!(decode_base64_image("").unwrap(), Vec::<u8>::new());
}

#[test]
fn base64_fails_only_on_a_bad_character_before_padding() {
    assert_eq!(decode_base64_image("aG*k"), None);
    assert_eq!(decode_base64_image("*"), None);
    assert_eq!(decode_base64_image("aGk=*!"), Some(b"hi".to_vec()));
    assert_eq!(decode_base64_image("=*"), Some(Vec::new()));
}
