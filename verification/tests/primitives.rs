use saml_identity::c14n::{is_visible, CanonRequest, Visited};
use saml_identity::document::{Attribute, Document};
use saml_identity::instant::parse_instant;
use saml_identity::string_map::{comes_before, StringMap};
use saml_identity::text;

fn element(doc: &mut Document, parent: Option<usize>, name: &str, ns: &str) -> usize {
    doc.add_element(parent, name.to_owned(), ns.to_owned(), Vec::new())
        .unwrap()
}

fn words(v: &[&str]) -> Vec<String> {
    v.iter().map(|s| (*s).to_owned()).collect()
}

#[test]
fn text_is_trimmed_as_std_does() {
    for s in [
        "", " ", "a", "  a b ", "\u{a0}x\u{3000}", "\t\n\u{b}\u{c}\r", "\u{200b}x", "\u{85}y\u{2028}z\u{2029}",
    ] {
        assert_eq!(text::trim(s), s.trim());
        let joined: String = s.split_whitespace().collect();
        assert_eq!(text::strip_white_space(s), joined);
        let split: Vec<String> = s.split_whitespace().map(str::to_owned).collect();
        assert_eq!(text::split_whitespace(s), split);
    }
}

#[test]
fn white_space_is_what_std_says() {
    for n in 0..0x11_0000u32 {
        if let Some(c) = char::from_u32(n) {
            assert_eq!(text::white_space(c), c.is_whitespace());
        }
    }
}

#[test]
fn case_is_ignored_for_ascii_only() {
    assert!(text::eq_ignore_ascii_case("aBc-1", "AbC-1"));
    assert!(!text::eq_ignore_ascii_case("abc", "abcd"));
    assert!(!text::eq_ignore_ascii_case("\u{e9}", "\u{c9}"));
    assert!(!text::eq_ignore_ascii_case("@", "`"));
    assert!(!text::eq_ignore_ascii_case("[", "{"));
}

#[test]
fn words_are_runs_without_white_space() {
    assert_eq!(text::split_whitespace(" xs  xsi\tsaml\n"), words(&["xs", "xsi", "saml"]));
}

#[test]
fn a_document_is_built_in_document_order() {
    let mut doc = Document::new();
    assert_eq!(doc.len(), 0);
    assert_eq!(doc.root(), None);
    assert_eq!(doc.add_text(0, "early".to_owned()), None);
    let root = element(&mut doc, None, "Root", "");
    assert_eq!(doc.root(), Some(root));
    let a = element(&mut doc, Some(root), "A", "urn:x");
    let t = doc.add_text(a, "one".to_owned()).unwrap();
    let b = element(&mut doc, Some(root), "B", "");
    // A second root, a child of a text, and a child of an element that is closed.
    assert_eq!(doc.add_element(None, "R".to_owned(), "".to_owned(), Vec::new()), None);
    assert_eq!(doc.add_text(t, "no".to_owned()), None);
    assert_eq!(doc.add_text(a, "no".to_owned()), None);
    assert_eq!(doc.add_text(99, "no".to_owned()), None);
    doc.add_text(b, " two".to_owned()).unwrap();
    doc.add_text(root, " three".to_owned()).unwrap();
    assert_eq!(doc.len(), 6);
    assert_eq!(doc.get_content(root), "one two three");
    assert_eq!(doc.get_content(a), "one");
    assert_eq!(doc.get_content(t), "one");
    assert!(doc.is_within(t, a) && doc.is_within(t, root) && doc.is_within(a, a));
    assert!(!doc.is_within(a, t) && !doc.is_within(t, b) && !doc.is_within(42, 42));
}

#[test]
fn elements_are_found_by_name_and_namespace() {
    let mut doc = Document::new();
    let root = element(&mut doc, None, "A", "urn:x");
    let a = element(&mut doc, Some(root), "A", "urn:x");
    let b = element(&mut doc, Some(a), "A", "urn:y");
    let c = element(&mut doc, Some(root), "A", "");
    assert_eq!(doc.elements("A", Some("urn:x")), vec![root, a]);
    assert_eq!(doc.elements("A", None), vec![root, a, b, c]);
    assert_eq!(doc.children(&vec![root], "A", None), vec![a, c]);
    assert_eq!(doc.children(&vec![a, root], "A", None), vec![a, b, c]);
    assert_eq!(doc.children(&vec![root], "A", Some("urn:y")), Vec::<usize>::new());
    assert_eq!(doc.descendants(root, "A", None), vec![a, b, c]);
    assert_eq!(doc.child(root, "A", Some("")), Some(c));
    assert_eq!(doc.child(root, "B", None), None);
}

#[test]
fn attributes_are_found_by_local_name_and_elements_by_plain_attribute() {
    let attribute = |ns: &str, value: &str| Attribute {
        name: "ID".to_owned(),
        namespace: ns.to_owned(),
        value: value.to_owned(),
    };
    let mut doc = Document::new();
    let root = doc
        .add_element(None, "R".to_owned(), "".to_owned(), vec![attribute("urn:x", "1"), attribute("", "2")])
        .unwrap();
    let a = doc
        .add_element(Some(root), "A".to_owned(), "".to_owned(), vec![attribute("", "1")])
        .unwrap();
    assert_eq!(doc.get_attribute(root, "ID"), Some("1".to_owned()));
    assert_eq!(doc.get_attribute(root, "Id"), None);
    assert_eq!(doc.get_attribute(7, "ID"), None);
    assert_eq!(doc.find_by_attribute("ID", "1"), Some(a));
    assert_eq!(doc.find_by_attribute("ID", "2"), Some(root));
    assert_eq!(doc.find_by_attribute("ID", "3"), None);
}

#[test]
fn the_target_is_visible_but_for_what_is_excluded() {
    let mut doc = Document::new();
    let root = element(&mut doc, None, "Response", "");
    let target = element(&mut doc, Some(root), "Assertion", "");
    let signature = element(&mut doc, Some(target), "Signature", "");
    let inner = element(&mut doc, Some(signature), "SignedInfo", "");
    let subject = element(&mut doc, Some(target), "Subject", "");
    let request = CanonRequest { target, exclude: Some(signature), prefixes: Vec::new() };
    assert!(is_visible(&doc, &request, Visited::Element(target)));
    assert!(is_visible(&doc, &request, Visited::Element(subject)));
    assert!(is_visible(&doc, &request, Visited::Other(Some(subject))));
    assert!(!is_visible(&doc, &request, Visited::Element(root)));
    assert!(!is_visible(&doc, &request, Visited::Element(signature)));
    assert!(!is_visible(&doc, &request, Visited::Element(inner)));
    assert!(!is_visible(&doc, &request, Visited::Other(Some(signature))));
    assert!(!is_visible(&doc, &request, Visited::Other(Some(root))));
    assert!(!is_visible(&doc, &request, Visited::Other(None)));
    let whole = CanonRequest { target: signature, exclude: None, prefixes: Vec::new() };
    assert!(is_visible(&doc, &whole, Visited::Element(inner)));
    assert!(!is_visible(&doc, &whole, Visited::Element(target)));
    // What lies in the excluded subtree is hidden even where it is the target.
    let hidden = CanonRequest { target: inner, exclude: Some(signature), prefixes: Vec::new() };
    assert!(!is_visible(&doc, &hidden, Visited::Element(inner)));
}

#[test]
fn instants_are_nanoseconds_since_the_epoch() {
    assert_eq!(parse_instant("1970-01-01T00:00:00Z"), Ok(0));
    assert_eq!(parse_instant(" 2024-01-01T00:00:00Z\n"), Ok(1_704_067_200_000_000_000));
    assert_eq!(parse_instant("1970-01-01T01:00:01.5+01:00"), Ok(1_500_000_000));
    assert_eq!(parse_instant("1969-12-31T23:59:59Z"), Ok(-1_000_000_000));
    let e = parse_instant(" tomorrow").unwrap_err();
    assert!(e.starts_with("bad dateTime ' tomorrow': ") && e.len() > 26);
}

#[test]
fn strings_are_ordered_as_std_orders_them() {
    let list = ["", "a", "ab", "b", "B", "\u{e9}", "\u{10000}", "\u{ffff}", "a\u{0}"];
    for a in list {
        for b in list {
            assert_eq!(comes_before(a, b), a < b);
        }
    }
}

#[test]
fn a_map_gives_back_what_was_put_in() {
    let mut m: StringMap<String> = StringMap::new();
    assert!(m.get("a").is_none());
    for (k, v) in [("b", "1"), ("a", "2"), ("c", "3"), ("b", "4")] {
        m.insert(k.to_owned(), v.to_owned());
    }
    assert_eq!(m.get("a").map(|s| s.as_str()), Some("2"));
    assert_eq!(m.get("b").map(|s| s.as_str()), Some("4"));
    assert_eq!(m.get("d"), None);
    let keys: Vec<&str> = m.entries().iter().map(|e| e.0.as_str()).collect();
    assert_eq!(keys, vec!["a", "b", "c"]);
}

#[test]
fn values_under_one_name_are_put_together() {
    let mut m: StringMap<Vec<String>> = StringMap::new();
    m.extend("role".to_owned(), words(&["a", "b"]));
    m.extend("none".to_owned(), Vec::new());
    m.extend("role".to_owned(), words(&["c"]));
    assert_eq!(m.get("role"), Some(&words(&["a", "b", "c"])));
    assert_eq!(m.get("none"), Some(&Vec::new()));
    assert_eq!(m.entries().len(), 2);
}
