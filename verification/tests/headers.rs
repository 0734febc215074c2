use saml_identity::plugin::{lookup_header, strip_scheme};

#[test]
fn strip_scheme_case_insensitive() {
    assert_eq!(strip_scheme("SAML abc", "SAML"), Some("abc"));
    assert_eq!(strip_scheme("saml abc", "SAML"), Some("abc"));
    assert_eq!(strip_scheme("Bearer abc", "SAML"), None);
}

#[test]
fn lookup_header_is_case_insensitive() {
    let h = vec![("X-Saml-Assertion".into(), "v".into())];
    assert_eq!(lookup_header(&h, "x-saml-assertion"), Some("v"));
    assert_eq!(lookup_header(&h, "authorization"), None);
}

#[test]
fn the_first_header_of_a_name_counts() {
    let h: Vec<(String, String)> = vec![
        ("Other".into(), "0".into()),
        ("X-A".into(), "1".into()),
        ("x-a".into(), "2".into()),
    ];
    assert_eq!(lookup_header(&h, "X-a"), Some("1"));
    assert_eq!(lookup_header(&[], "X-a"), None);
}

#[test]
fn a_scheme_is_followed_by_one_space() {
    assert_eq!(strip_scheme("SAML  abc", "SAML"), Some(" abc"));
    assert_eq!(strip_scheme("SAMLabc", "SAML"), None);
    assert_eq!(strip_scheme("SAML", "SAML"), None);
    assert_eq!(strip_scheme("SAML ", "SAML"), Some(""));
    assert_eq!(strip_scheme("SAM", "SAML"), None);
    assert_eq!(strip_scheme("", "SAML"), None);
    assert_eq!(strip_scheme(" abc", ""), Some("abc"));
    assert_eq!(strip_scheme("SAML\tabc", "SAML"), None);
}

#[test]
fn a_scheme_need_not_be_ascii() {
    assert_eq!(strip_scheme("\u{e9} abc", "\u{e9}"), Some("abc"));
    assert_eq!(strip_scheme("\u{e9}A abc", "\u{e9}a"), Some("abc"));
    assert_eq!(strip_scheme("\u{c9} abc", "\u{e9}"), None);
    assert_eq!(strip_scheme("\u{e9}abc", "\u{e9}"), None);
    assert_eq!(strip_scheme("SAM\u{e9} abc", "SAML"), None);
}
