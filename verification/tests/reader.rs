//! `GmlReader`: namespace-aware pull parsing of one chunk or document, with
//! no DTDs and no entities but the predefined ones.

use xeibe::error::Error;
use xeibe::ns;
use xeibe::reader::{GmlReader, XmlEvent};
use xeibe::{NamespaceContext, QName};

const APP: &str = "http://example.com/app";

fn app_context(gml_ns: &str) -> NamespaceContext {
    let mut context = NamespaceContext::new();
    context.declare(Some("gml"), gml_ns);
    context.declare(Some("app"), APP);
    context.declare(Some("xlink"), ns::XLINK);
    context.declare(Some("xsi"), ns::XSI);
    context
}

#[derive(Debug, Clone, PartialEq)]
enum Seen {
    Start(QName),
    End(QName),
    Text(String),
}

fn start(local: &str) -> Seen {
    Seen::Start(QName::new(Some(APP), local))
}

fn end(local: &str) -> Seen {
    Seen::End(QName::new(Some(APP), local))
}

fn text(text: &str) -> Seen {
    Seen::Text(text.to_string())
}

/// Events of a fragment, with whitespace-only text dropped.
fn events(fragment: &str, context: &NamespaceContext) -> Vec<Seen> {
    let mut reader = GmlReader::new(fragment.as_bytes(), context, 0);
    let mut events = Vec::new();
    loop {
        match reader.next_event().expect("well-formed XML") {
            XmlEvent::Start { name, .. } => events.push(Seen::Start(name)),
            XmlEvent::End { name } => events.push(Seen::End(name)),
            XmlEvent::Text(text) => {
                if !text.trim().is_empty() {
                    events.push(Seen::Text(text));
                }
            }
            XmlEvent::Eof => break,
        }
    }
    events
}

/// The first error of reading `document` to its end, if any.
fn first_error(document: &[u8], context: &NamespaceContext) -> Option<Error> {
    let mut reader = GmlReader::new(document, context, 0);
    loop {
        match reader.next_event() {
            Ok(XmlEvent::Eof) => return None,
            Ok(_) => continue,
            Err(error) => return Some(error),
        }
    }
}

#[test]
fn resolves_names_against_the_inherited_context() {
    let fragment = r#"<app:Parcel gml:id="p1"><app:area>12</app:area></app:Parcel>"#;
    assert_eq!(
        events(fragment, &app_context(ns::GML_32)),
        vec![start("Parcel"), start("area"), text("12"), end("area"), end("Parcel")]
    );
}

#[test]
fn declarations_inside_the_buffer_override_the_context() {
    let fragment = r#"<app:Parcel xmlns:app="http://example.com/other"><app:area/></app:Parcel>"#;
    let events = events(fragment, &app_context(ns::GML_32));
    assert_eq!(
        events[0],
        Seen::Start(QName::new(Some("http://example.com/other"), "Parcel"))
    );
}

#[test]
fn reads_attributes_by_qualified_name() {
    let fragment = r##"<app:Parcel gml:id="p1" xlink:href="#other" area="12"/>"##;
    let context = app_context(ns::GML_32);
    let mut reader = GmlReader::new(fragment.as_bytes(), &context, 0);
    let XmlEvent::Start { name, attrs } = reader.next_event().unwrap() else {
        panic!("expected a start element");
    };
    assert_eq!(name, QName::new(Some(APP), "Parcel"));
    assert_eq!(attrs.get(&QName::new(Some(ns::GML_32), "id")).as_deref(), Some("p1"));
    assert_eq!(attrs.get(&QName::new(Some(ns::XLINK), "href")).as_deref(), Some("#other"));
    // An unprefixed attribute is in no namespace, not in the default one.
    assert_eq!(attrs.get(&QName::new(None, "area")).as_deref(), Some("12"));
    assert_eq!(attrs.get(&QName::new(Some(APP), "area")), None);
    assert_eq!(attrs.get(&QName::new(None, "missing")), None);

    let listed: Vec<String> = attrs.iter().into_iter().map(|(name, _)| name.local).collect();
    assert!(listed.contains(&"id".to_string()), "{listed:?}");
    assert!(listed.contains(&"area".to_string()), "{listed:?}");
    assert!(!listed.contains(&"xmlns".to_string()), "{listed:?}");
}

#[test]
fn namespace_declarations_are_not_attributes() {
    let fragment = r#"<app:a xmlns:q="urn:q" xmlns="urn:d" q:x="1" y="&amp;2"/>"#;
    let context = app_context(ns::GML_32);
    let mut reader = GmlReader::new(fragment.as_bytes(), &context, 0);
    let XmlEvent::Start { attrs, .. } = reader.next_event().unwrap() else {
        panic!("expected a start element");
    };
    let raw = attrs.iter_raw();
    assert_eq!(
        raw,
        vec![
            (Some("urn:q".to_string()), "x".to_string(), "1".to_string()),
            (None, "y".to_string(), "&2".to_string()),
        ]
    );
}

#[test]
fn current_start_repeats_the_last_start_tag() {
    let context = app_context(ns::GML_32);
    let mut reader = GmlReader::new(br#"<app:a gml:id="x"><app:b/></app:a>"#, &context, 0);
    assert!(reader.current_start().is_none());
    reader.next_event().unwrap();
    let (name, attrs) = reader.current_start().expect("a start tag was read");
    assert_eq!(name, QName::new(Some(APP), "a"));
    assert_eq!(attrs.get(&QName::new(Some(ns::GML_32), "id")).as_deref(), Some("x"));
}

#[test]
fn unescapes_text_and_reads_cdata_as_text() {
    let context = app_context(ns::GML_32);
    assert_eq!(
        events("<app:name>A &amp; B &lt;C&gt; &#65;</app:name>", &context),
        vec![start("name"), text("A & B <C> A"), end("name")]
    );
    assert_eq!(
        events("<app:name><![CDATA[A & B <C>]]></app:name>", &context),
        vec![start("name"), text("A & B <C>"), end("name")]
    );
}

#[test]
fn text_merges_across_comments_and_references() {
    let context = app_context(ns::GML_32);
    assert_eq!(
        events("<app:name>a<!-- c -->b&quot;&apos;&#x42;</app:name>", &context),
        vec![start("name"), text("ab\"'B"), end("name")]
    );
}

#[test]
fn empty_elements_produce_a_start_and_an_end() {
    assert_eq!(events("<app:a/>", &app_context(ns::GML_32)), vec![start("a"), end("a")]);
}

#[test]
fn rejects_document_type_declarations() {
    let document = r#"<!DOCTYPE app:Parcel [<!ENTITY xxe SYSTEM "file:///etc/passwd">]><app:Parcel><app:name>&xxe;</app:name></app:Parcel>"#;
    let error = first_error(document.as_bytes(), &app_context(ns::GML_32)).expect("the DTD is refused");
    assert!(matches!(error, Error::DtdNotSupported(_)), "expected DtdNotSupported, got {error:?}");
}

#[test]
fn undefined_entities_are_an_error_not_an_expansion() {
    let error = first_error(b"<app:name>&xxe;</app:name>", &app_context(ns::GML_32));
    let Some(Error::Xml { message, .. }) = error else {
        panic!("an undefined entity must not be expanded");
    };
    assert_eq!(message, "undefined entity &xxe;");
}

#[test]
fn undeclared_prefixes_are_an_error() {
    let error = first_error(b"<zz:a/>", &app_context(ns::GML_32));
    let Some(Error::Xml { message, .. }) = error else {
        panic!("an undeclared prefix is an error");
    };
    assert_eq!(message, "undeclared namespace prefix `zz` in <zz:a>");
}

#[test]
fn malformed_xml_is_an_error_with_a_location() {
    let error = first_error(b"<app:a><app:b></app:a>", &app_context(ns::GML_32));
    assert!(matches!(error, Some(Error::Xml { .. })), "got {error:?}");
}

#[test]
fn skip_element_jumps_over_a_subtree() {
    let fragment = "<app:a><app:skipped><app:deep>x</app:deep></app:skipped><app:kept/></app:a>";
    let context = app_context(ns::GML_32);
    let mut reader = GmlReader::new(fragment.as_bytes(), &context, 0);
    assert!(matches!(reader.next_event().unwrap(), XmlEvent::Start { .. }));
    assert!(matches!(reader.next_event().unwrap(), XmlEvent::Start { .. }));
    reader.skip_element().unwrap();
    let XmlEvent::Start { name, .. } = reader.next_event().unwrap() else {
        panic!("expected app:kept after the skipped subtree");
    };
    assert_eq!(name, QName::new(Some(APP), "kept"));
}

#[test]
fn skip_element_fails_at_the_end_of_input() {
    let context = app_context(ns::GML_32);
    let mut reader = GmlReader::new(b"<app:a><app:b>", &context, 0);
    reader.next_event().unwrap();
    assert!(matches!(reader.skip_element(), Err(Error::Xml { .. })));
}

#[test]
fn capture_element_returns_the_raw_xml_of_a_subtree() {
    let fragment = r#"<app:a><app:note lang="pl">text <b>bold</b></app:note><app:kept/></app:a>"#;
    let context = app_context(ns::GML_32);
    let mut reader = GmlReader::new(fragment.as_bytes(), &context, 0);
    assert!(matches!(reader.next_event().unwrap(), XmlEvent::Start { .. }));
    assert!(matches!(reader.next_event().unwrap(), XmlEvent::Start { .. }));
    let raw = reader.capture_element().unwrap();
    assert_eq!(raw, r#"<app:note lang="pl">text <b>bold</b></app:note>"#);
    let XmlEvent::Start { name, .. } = reader.next_event().unwrap() else {
        panic!("expected app:kept after the captured subtree");
    };
    assert_eq!(name, QName::new(Some(APP), "kept"));
}

#[test]
fn locations_count_from_the_base_offset_of_the_chunk() {
    let fragment = "<app:a><app:b/></app:a>";
    let context = app_context(ns::GML_32);
    let mut reader = GmlReader::new(fragment.as_bytes(), &context, 1_000);
    let start = reader.location();
    assert!(start.byte_offset >= 1_000, "{start:?}");
    reader.next_event().unwrap();
    reader.next_event().unwrap();
    let later = reader.location();
    assert!(later.byte_offset > start.byte_offset, "{start:?} then {later:?}");
    assert!(later.byte_offset < 1_000 + fragment.len() as u64 + 1);
}

#[test]
fn with_source_sets_the_source_of_locations() {
    let context = app_context(ns::GML_32);
    let reader = GmlReader::new(b"<app:a/>", &context, 0).with_source(xeibe::SourceId(3));
    assert_eq!(reader.location().source, xeibe::SourceId(3));
}

#[test]
fn inner_text_gathers_the_text_of_a_subtree() {
    let context = app_context(ns::GML_32);
    let fragment = "<app:a><app:note>one <b>two</b> three</app:note><app:kept/></app:a>";
    let mut reader = GmlReader::new(fragment.as_bytes(), &context, 0);
    reader.next_event().unwrap();
    reader.next_event().unwrap();
    assert_eq!(xeibe::feature::inner_text(&mut reader).unwrap(), "one two three");
    let XmlEvent::Start { name, .. } = reader.next_event().unwrap() else {
        panic!("expected app:kept after the subtree");
    };
    assert_eq!(name, QName::new(Some(APP), "kept"));
}

#[test]
fn inner_text_fails_at_the_end_of_the_chunk() {
    let context = app_context(ns::GML_32);
    let mut reader = GmlReader::new(b"<app:a><app:b>text", &context, 0);
    reader.next_event().unwrap();
    let Err(Error::Xml { message, .. }) = xeibe::feature::inner_text(&mut reader) else {
        panic!("a subtree cut off by the end of the chunk is an error");
    };
    assert_eq!(message, "unexpected end of chunk inside a feature");
}

#[test]
fn subtree_map_lists_paths_texts_and_attributes() {
    let context = app_context(ns::GML_32);
    let fragment = r#"<app:address> top <app:street kind="main">Long <app:no>12</app:no></app:street><app:city>  </app:city></app:address>"#;
    let mut reader = GmlReader::new(fragment.as_bytes(), &context, 0);
    reader.next_event().unwrap();
    let pairs = xeibe::feature::subtree_map(&mut reader).unwrap();
    let expected: Vec<(String, String)> = vec![
        ("street/@kind".to_string(), "main".to_string()),
        ("street/no".to_string(), "12".to_string()),
        ("street".to_string(), "Long".to_string()),
        ("#text".to_string(), "top".to_string()),
    ];
    assert_eq!(pairs, expected);
}

#[test]
fn trim_removes_unicode_white_space() {
    assert_eq!(xeibe::text::trim("\u{a0} a b\t\n\u{3000}"), "a b");
    assert_eq!(xeibe::text::trim(" \r\n"), "");
    assert_eq!(xeibe::text::trim("x"), "x");
}

#[test]
fn character_references_take_decimal_or_lowercase_x_hex_digits() {
    let context = app_context(ns::GML_32);
    assert_eq!(
        events("<app:name>&#x4a;&#x4A;&#0074;</app:name>", &context),
        vec![start("name"), text("JJJ"), end("name")]
    );
    for bad in ["&#X4A;", "&#;", "&#x;", "&#0;", "&#xD800;", "&#+74;", "&#4294967370;"] {
        let document = format!("<app:name>{bad}</app:name>");
        let error = first_error(document.as_bytes(), &context);
        assert!(matches!(error, Some(Error::Xml { .. })), "{bad}: {error:?}");
    }
}
