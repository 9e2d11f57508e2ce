//! The feature-boundary splitter: member containers are recognised, the
//! stream is cut into chunks of whole features, and every chunk carries the
//! namespace declarations it needs to be read on its own.

use xeibe::{Error, FeatureChunk, FeatureSplitter, MemberRule, Poll, QName, SourceId, SplitterOptions, ns};

const APP: &str = "http://example.com/app";

fn feature(local: &str, id: &str, body: &str) -> String {
    format!(r#"<app:{local} gml:id="{id}">{body}</app:{local}>"#)
}

fn parcels(count: usize) -> Vec<String> {
    (0..count).map(|i| feature("Parcel", &format!("p{i}"), &format!("<app:area>{i}</app:area>"))).collect()
}

fn collection(gml_ns: &str, member: &str, features: &[String], root_attributes: &str, before: &str) -> String {
    let mut members = String::new();
    for f in features {
        members.push_str(&format!("<{member}>{f}</{member}>"));
    }
    format!(
        r#"<?xml version="1.0" encoding="UTF-8"?>
<gml:FeatureCollection xmlns:gml="{gml_ns}" xmlns:app="{APP}" xmlns:xlink="{}" xmlns:xsi="{}"{root_attributes}>{before}{members}</gml:FeatureCollection>"#,
        ns::XLINK,
        ns::XSI
    )
}

fn gml32_collection(features: &[String]) -> String {
    collection(ns::GML_32, "gml:featureMember", features, "", "")
}

fn gml32_collection_members(features: &[String]) -> String {
    let inner: String = features.concat();
    format!(
        r#"<?xml version="1.0"?><gml:FeatureCollection xmlns:gml="{}" xmlns:app="{APP}"><gml:featureMembers>{inner}</gml:featureMembers></gml:FeatureCollection>"#,
        ns::GML_32
    )
}

fn wfs20_collection(attributes: &str, features: &[String]) -> String {
    let mut members = String::new();
    for f in features {
        members.push_str(&format!("<wfs:member>{f}</wfs:member>"));
    }
    format!(
        r#"<?xml version="1.0"?><wfs:FeatureCollection xmlns:wfs="{}" xmlns:gml="{}" xmlns:app="{APP}" {attributes}>{members}</wfs:FeatureCollection>"#,
        ns::WFS_20,
        ns::GML_32
    )
}

fn wfs11_collection(attributes: &str, features: &[String]) -> String {
    let mut members = String::new();
    for f in features {
        members.push_str(&format!("<gml:featureMember>{f}</gml:featureMember>"));
    }
    format!(
        r#"<?xml version="1.0"?><wfs:FeatureCollection xmlns:wfs="{}" xmlns:gml="{}" xmlns:app="{APP}" {attributes}>{members}</wfs:FeatureCollection>"#,
        ns::WFS,
        ns::GML
    )
}

/// Feed `document` in pieces of `step` bytes and collect every chunk.
fn try_split_in(document: &str, options: SplitterOptions, step: usize) -> Result<Vec<FeatureChunk>, Error> {
    let mut splitter = FeatureSplitter::new(SourceId(0), options);
    let bytes = document.as_bytes();
    let mut at = 0;
    let mut chunks = Vec::new();
    loop {
        match splitter.next_chunk()? {
            Poll::Chunk(chunk) => chunks.push(chunk),
            Poll::NeedInput => {
                if at < bytes.len() {
                    let end = (at + step).min(bytes.len());
                    splitter.push_input(&bytes[at..end]);
                    at = end;
                } else {
                    splitter.end_input();
                }
            }
            Poll::Done => return Ok(chunks),
        }
    }
}

fn try_split(document: &str, options: SplitterOptions) -> Result<Vec<FeatureChunk>, Error> {
    try_split_in(document, options, 4096)
}

fn split(document: &str, options: SplitterOptions) -> Vec<FeatureChunk> {
    try_split(document, options).expect("the document splits")
}

fn one_feature_per_chunk() -> SplitterOptions {
    SplitterOptions { target_chunk_bytes: 1, ..SplitterOptions::default() }
}

/// The start tags of the elements at the top level of a chunk, as written:
/// the name and the text of the tag.
fn top_level_tags(bytes: &[u8]) -> Vec<(String, String)> {
    let text = std::str::from_utf8(bytes).expect("chunks are UTF-8");
    let mut names = Vec::new();
    let mut depth = 0usize;
    let mut rest = text;
    while let Some(at) = rest.find('<') {
        rest = &rest[at..];
        if rest.starts_with("<!--") {
            let end = rest.find("-->").expect("a closed comment");
            rest = &rest[end + 3..];
        } else if rest.starts_with("<![CDATA[") {
            let end = rest.find("]]>").expect("a closed CDATA section");
            rest = &rest[end + 3..];
        } else if rest.starts_with("<?") {
            let end = rest.find("?>").expect("a closed instruction");
            rest = &rest[end + 2..];
        } else if rest.starts_with("</") {
            depth -= 1;
            let end = rest.find('>').expect("a closed end tag");
            rest = &rest[end + 1..];
        } else {
            let mut end = 1;
            let mut quote: Option<char> = None;
            for (i, c) in rest.char_indices().skip(1) {
                match quote {
                    Some(q) if c == q => quote = None,
                    Some(_) => {}
                    None if c == '"' || c == '\'' => quote = Some(c),
                    None if c == '>' => {
                        end = i;
                        break;
                    }
                    None => {}
                }
            }
            let tag = &rest[1..end];
            let name: String = tag.chars().take_while(|c| !c.is_whitespace() && *c != '/').collect();
            if depth == 0 {
                names.push((name, tag.to_string()));
            }
            if !tag.ends_with('/') {
                depth += 1;
            }
            rest = &rest[end + 1..];
        }
    }
    names
}

/// The `xmlns` declarations written in a start tag.
fn declarations(tag: &str) -> Vec<(Option<String>, String)> {
    let mut out = Vec::new();
    let mut rest = tag;
    while let Some(at) = rest.find("xmlns") {
        rest = &rest[at + 5..];
        let (prefix, after) = if let Some(stripped) = rest.strip_prefix(':') {
            let end = stripped.find('=').expect("an attribute value");
            (Some(stripped[..end].trim().to_string()), &stripped[end + 1..])
        } else if let Some(stripped) = rest.trim_start().strip_prefix('=') {
            (None, stripped)
        } else {
            continue;
        };
        let after = after.trim_start();
        let quote = after.chars().next().expect("a quoted value");
        let value = &after[1..];
        let end = value.find(quote).expect("a closing quote");
        out.push((prefix, value[..end].to_string()));
        rest = &value[end + 1..];
    }
    out
}

/// The feature elements of every chunk, resolved with the chunk's own
/// namespaces and the declarations on the feature element itself.
fn features(chunks: &[FeatureChunk]) -> Vec<QName> {
    let mut out = Vec::new();
    for chunk in chunks {
        for (raw, tag) in top_level_tags(&chunk.bytes) {
            let mut context = chunk.namespaces.duplicate();
            for (prefix, uri) in declarations(&tag) {
                context.declare(prefix.as_deref(), &uri);
            }
            out.push(context.resolve(&raw).expect("the prefix is declared in the chunk's context"));
        }
    }
    out
}

fn feature_names(chunks: &[FeatureChunk]) -> Vec<String> {
    features(chunks).into_iter().map(|name| name.local).collect()
}

#[test]
fn defaults_follow_the_documented_ranges() {
    let options = SplitterOptions::default();
    assert!(
        (16 << 20..=64 << 20).contains(&options.target_chunk_bytes),
        "the planned default chunk size is 16–64 MB, got {}",
        options.target_chunk_bytes
    );
    assert!(options.layers.is_none(), "a scan reads every layer unless a read sets a filter");
    let rules = &options.member_rules;
    let has = |rule: MemberRule| rules.contains(&rule);
    assert!(has(MemberRule::OnePerElement(QName::new(Some(ns::GML_32), "featureMember"))));
    assert!(has(MemberRule::OnePerElement(QName::new(Some(ns::GML), "featureMember"))));
    assert!(has(MemberRule::ManyPerElement(QName::new(Some(ns::GML_32), "featureMembers"))));
    assert!(has(MemberRule::OnePerElement(QName::new(Some(ns::WFS_20), "member"))));
}

#[test]
fn splits_feature_members() {
    let document = gml32_collection(&parcels(3));
    let chunks = split(&document, one_feature_per_chunk());
    assert_eq!(feature_names(&chunks), ["Parcel", "Parcel", "Parcel"]);
    assert_eq!(chunks.len(), 3, "one chunk per feature at this chunk size");
}

#[test]
fn splits_a_feature_members_container() {
    let document = gml32_collection_members(&parcels(3));
    let chunks = split(&document, one_feature_per_chunk());
    assert_eq!(feature_names(&chunks), ["Parcel", "Parcel", "Parcel"]);
}

#[test]
fn splits_wfs_20_members_and_wfs_11_feature_members() {
    let features = parcels(2);
    let wfs20 = wfs20_collection(r#"numberMatched="unknown" numberReturned="2""#, &features);
    assert_eq!(feature_names(&split(&wfs20, one_feature_per_chunk())), ["Parcel"; 2]);
    let wfs11 = wfs11_collection(r#"numberOfFeatures="2""#, &features);
    assert_eq!(feature_names(&split(&wfs11, one_feature_per_chunk())), ["Parcel"; 2]);
}

#[test]
fn reads_the_document_header_before_the_first_feature() {
    let document = collection(
        ns::GML_32,
        "gml:featureMember",
        &parcels(1),
        r#" xsi:schemaLocation="http://example.com/app app.xsd""#,
        "",
    );
    let mut splitter = FeatureSplitter::new(SourceId(0), SplitterOptions::default());
    splitter.push_input(document.as_bytes());
    assert_eq!(splitter.poll_header().expect("no error"), true);
    let header = splitter.header().expect("a header");
    assert_eq!(header.root, QName::new(Some(ns::GML_32), "FeatureCollection"));
    assert_eq!(header.schema_location.as_deref(), Some("http://example.com/app app.xsd"));
    assert!(!header.fme_produced);
    assert_eq!(header.namespaces.resolve_prefix(Some("app")), Some(APP));
}

#[test]
fn header_keeps_the_wfs_response_attributes() {
    let document = wfs20_collection(
        r#"numberMatched="17" numberReturned="2" next="http://example.com/next""#,
        &parcels(2),
    );
    let mut splitter = FeatureSplitter::new(SourceId(0), SplitterOptions::default());
    splitter.push_input(document.as_bytes());
    splitter.end_input();
    assert_eq!(splitter.poll_header().expect("no error"), true);
    let header = splitter.header().expect("a header");
    let attribute = |local: &str| {
        header.wfs_attributes.iter().find(|(name, _)| name.local == local).map(|(_, value)| value.as_str())
    };
    assert_eq!(attribute("numberMatched"), Some("17"));
    assert_eq!(attribute("numberReturned"), Some("2"));
    assert_eq!(attribute("next"), Some("http://example.com/next"));
}

#[test]
fn header_flags_fme_produced_documents() {
    let document = collection(ns::GML_32, "gml:featureMember", &parcels(1), &format!(r#" xmlns:fme="{}""#, ns::FME), "");
    let mut splitter = FeatureSplitter::new(SourceId(0), SplitterOptions::default());
    splitter.push_input(document.as_bytes());
    assert_eq!(splitter.poll_header().expect("no error"), true);
    assert!(splitter.header().expect("a header").fme_produced);
}

#[test]
fn a_header_needs_the_root_start_tag() {
    let mut splitter = FeatureSplitter::new(SourceId(0), SplitterOptions::default());
    splitter.push_input(b"<?xml version=\"1.0\"?><gml:FeatureColl");
    assert_eq!(splitter.poll_header().expect("no error yet"), false);
    assert!(splitter.header().is_none());
    splitter.push_input(format!(r#"ection xmlns:gml="{}">"#, ns::GML_32).as_bytes());
    assert_eq!(splitter.poll_header().expect("no error"), true);
}

#[test]
fn chunks_carry_sequence_numbers_and_offsets() {
    let document = gml32_collection(&parcels(4));
    let chunks = split(&document, one_feature_per_chunk());
    let seqs: Vec<u64> = chunks.iter().map(|c| c.seq).collect();
    assert_eq!(seqs, [0, 1, 2, 3], "chunks are numbered in order");
    let first_features: Vec<u64> = chunks.iter().map(|c| c.first_feature_seq).collect();
    assert_eq!(first_features, [0, 1, 2, 3]);
    assert!(chunks.windows(2).all(|w| w[0].byte_offset < w[1].byte_offset));
    assert!(chunks.iter().all(|c| c.source == SourceId(0)));
}

#[test]
fn a_chunk_starts_where_its_first_feature_starts() {
    let document = gml32_collection(&parcels(3));
    let chunks = split(&document, one_feature_per_chunk());
    for chunk in &chunks {
        let at = chunk.byte_offset as usize;
        assert_eq!(&document.as_bytes()[at..at + chunk.bytes.len()], &chunk.bytes[..]);
    }
}

#[test]
fn a_large_target_puts_every_feature_in_one_chunk() {
    let document = gml32_collection(&parcels(5));
    let chunks = split(&document, SplitterOptions::default());
    assert_eq!(chunks.len(), 1, "a 16 MB target holds this document");
    assert_eq!(feature_names(&chunks).len(), 5);
    assert_eq!(chunks[0].first_feature_seq, 0);
    assert_eq!(chunks[0].features, 5);
}

#[test]
fn a_single_feature_larger_than_the_target_becomes_its_own_chunk() {
    let big = "x".repeat(4096);
    let features: Vec<String> =
        (0..3).map(|i| feature("Parcel", &format!("p{i}"), &format!("<app:note>{big}</app:note>"))).collect();
    let document = gml32_collection(&features);
    let chunks = split(&document, SplitterOptions { target_chunk_bytes: 512, ..SplitterOptions::default() });
    assert_eq!(chunks.len(), 3);
    assert_eq!(feature_names(&chunks), ["Parcel"; 3]);
}

#[test]
fn a_layer_filter_skips_other_feature_types() {
    let members = vec![
        feature("Road", "r1", "<app:name>A</app:name>"),
        feature("Parcel", "p1", "<app:area>1</app:area>"),
        feature("Road", "r2", "<app:name>B</app:name>"),
        feature("Parcel", "p2", "<app:area>2</app:area>"),
    ];
    let document = gml32_collection(&members);
    let options = SplitterOptions { layers: Some(vec![QName::new(Some(APP), "Parcel")]), ..one_feature_per_chunk() };
    let chunks = split(&document, options);
    assert_eq!(feature_names(&chunks), ["Parcel", "Parcel"]);
    assert_eq!(chunks.iter().map(|c| c.first_feature_seq).collect::<Vec<_>>(), [0, 1]);
}

#[test]
fn a_layer_named_by_local_name_matches_any_namespace() {
    let members = vec![feature("Road", "r1", ""), feature("Parcel", "p1", "")];
    let document = gml32_collection(&members);
    let options = SplitterOptions { layers: Some(vec![QName::new(None, "Road")]), ..one_feature_per_chunk() };
    assert_eq!(feature_names(&split(&document, options)), ["Road"]);
}

#[test]
fn nested_features_are_not_members_of_the_collection() {
    let inner = feature("Building", "b1", "<app:height>3</app:height>");
    let outer = feature("Parcel", "p1", &format!("<app:has>{inner}</app:has>"));
    let document = gml32_collection(&[outer]);
    let chunks = split(&document, one_feature_per_chunk());
    assert_eq!(feature_names(&chunks), ["Parcel"]);
}

#[test]
fn comments_cdata_and_attributes_do_not_confuse_the_splitter() {
    let member = feature("Parcel", "p1", r#"<app:note title="a &gt; b"><![CDATA[<gml:featureMember>]]></app:note>"#);
    let document = collection(
        ns::GML_32,
        "gml:featureMember",
        &[member],
        "",
        "<!-- <gml:featureMember><app:Parcel/></gml:featureMember> -->\n",
    );
    let chunks = split(&document, one_feature_per_chunk());
    assert_eq!(feature_names(&chunks), ["Parcel"]);
}

#[test]
fn chunks_inherit_namespaces_declared_on_ancestors_of_the_members() {
    let document = [
        r#"<?xml version="1.0"?>"#,
        r#"<gml:FeatureCollection xmlns:gml="http://www.opengis.net/gml/3.2">"#,
        r#"<gml:featureMembers xmlns:app="http://example.com/app">"#,
        r#"<app:Parcel gml:id="p1"/><app:Parcel gml:id="p2"/>"#,
        r#"</gml:featureMembers></gml:FeatureCollection>"#,
    ]
    .concat();
    let chunks = split(&document, one_feature_per_chunk());
    assert_eq!(features(&chunks), vec![QName::new(Some(APP), "Parcel"), QName::new(Some(APP), "Parcel")]);
}

#[test]
fn a_feature_as_the_document_root_is_a_one_feature_dataset() {
    let document = format!(
        r#"<?xml version="1.0"?><app:Parcel xmlns:app="{APP}" xmlns:gml="{}" gml:id="p1"><app:area>1</app:area></app:Parcel>"#,
        ns::GML_32
    );
    let options = SplitterOptions { allow_single_feature_root: true, ..one_feature_per_chunk() };
    assert_eq!(feature_names(&split(&document, options)), ["Parcel"]);
}

#[test]
fn a_document_without_features_is_an_error() {
    let document = r#"<gmd:MD_Metadata xmlns:gmd="http://www.isotc211.org/2005/gmd"><gmd:fileIdentifier/></gmd:MD_Metadata>"#;
    let options = SplitterOptions { allow_single_feature_root: false, ..SplitterOptions::default() };
    let error = try_split(document, options).expect_err("no features");
    assert!(matches!(error, Error::NoFeatures(_)), "got {error:?}");
}

#[test]
fn an_empty_collection_is_not_an_error() {
    let document = wfs20_collection(r#"numberMatched="42" numberReturned="0""#, &[]);
    let chunks = split(&document, SplitterOptions::default());
    assert!(feature_names(&chunks).is_empty());
}

#[test]
fn a_custom_member_rule_covers_application_collections() {
    let member = feature("Parcel", "p1", "");
    let document = format!(
        r#"<app:Dataset xmlns:app="{APP}" xmlns:gml="{}"><app:contains>{member}</app:contains></app:Dataset>"#,
        ns::GML_32
    );
    let options = SplitterOptions {
        member_rules: vec![MemberRule::OnePerElement(QName::new(Some(APP), "contains"))],
        ..one_feature_per_chunk()
    };
    assert_eq!(feature_names(&split(&document, options)), ["Parcel"]);
}

#[test]
fn chunks_do_not_depend_on_how_the_input_arrives() {
    let document = collection(
        ns::GML_32,
        "gml:featureMember",
        &parcels(6),
        r#" xsi:schemaLocation="http://example.com/app app.xsd""#,
        "<!-- a comment -->",
    );
    let whole = split(&document, SplitterOptions { target_chunk_bytes: 100, ..SplitterOptions::default() });
    for step in [1, 2, 3, 7, 64] {
        let pieces =
            try_split_in(&document, SplitterOptions { target_chunk_bytes: 100, ..SplitterOptions::default() }, step)
                .expect("the document splits");
        assert_eq!(pieces.len(), whole.len(), "step {step}");
        for (a, b) in pieces.iter().zip(whole.iter()) {
            assert_eq!(a.bytes, b.bytes, "step {step}");
            assert_eq!(a.seq, b.seq);
            assert_eq!(a.byte_offset, b.byte_offset);
            assert_eq!(a.first_feature_seq, b.first_feature_seq);
        }
    }
}

#[test]
fn member_references_are_counted_not_split() {
    let document = format!(
        r##"<gml:FeatureCollection xmlns:gml="{}" xmlns:xlink="{}" xmlns:app="{APP}"><gml:featureMember xlink:href="#p1"/><gml:featureMember>{}</gml:featureMember></gml:FeatureCollection>"##,
        ns::GML_32,
        ns::XLINK,
        feature("Parcel", "p2", "")
    );
    let mut splitter = FeatureSplitter::new(SourceId(0), one_feature_per_chunk());
    splitter.push_input(document.as_bytes());
    splitter.end_input();
    let mut names = Vec::new();
    loop {
        match splitter.next_chunk().expect("splits") {
            Poll::Chunk(chunk) => names.extend(feature_names(&[chunk])),
            Poll::NeedInput => panic!("the input has ended"),
            Poll::Done => break,
        }
    }
    assert_eq!(names, ["Parcel"]);
    assert_eq!(splitter.referenced_members(), 1);
    assert_eq!(splitter.features_emitted(), 1);
}

#[test]
fn a_truncated_document_is_an_error() {
    let document = gml32_collection(&parcels(2));
    let cut = &document[..document.len() - 30];
    assert!(try_split(cut, SplitterOptions::default()).is_err());
}

#[test]
fn a_mismatched_end_tag_is_an_error() {
    let document = format!(
        r#"<gml:FeatureCollection xmlns:gml="{}" xmlns:app="{APP}"><gml:featureMember><app:Parcel></app:Road></gml:featureMember></gml:FeatureCollection>"#,
        ns::GML_32
    );
    assert!(try_split(&document, SplitterOptions::default()).is_err());
}

#[test]
fn nothing_is_delivered_after_an_error() {
    let document = format!(
        r#"<gml:FeatureCollection xmlns:gml="{}" xmlns:app="{APP}"><gml:featureMember><app:Parcel></app:Road>"#,
        ns::GML_32
    );
    let mut splitter = FeatureSplitter::new(SourceId(0), SplitterOptions::default());
    splitter.push_input(document.as_bytes());
    splitter.end_input();
    let mut failed = false;
    loop {
        match splitter.next_chunk() {
            Err(_) => failed = true,
            Ok(Poll::Done) => break,
            Ok(Poll::Chunk(_)) => assert!(!failed, "a chunk after an error"),
            Ok(Poll::NeedInput) => panic!("the input has ended"),
        }
    }
    assert!(failed);
}

#[test]
fn a_chunk_ends_at_the_first_feature_boundary_after_the_target() {
    let features = parcels(9);
    let document = gml32_collection(&features);
    let target = 150;
    let chunks = split(&document, SplitterOptions { target_chunk_bytes: target, ..SplitterOptions::default() });
    let feature_len = features[0].len();
    assert!(chunks.len() > 1);
    for chunk in &chunks {
        let len = chunk.bytes.len();
        assert!(len - feature_len < target, "all but the last feature are under the target");
    }
    for chunk in &chunks[..chunks.len() - 1] {
        assert!(chunk.bytes.len() >= target, "a chunk is cut only once it reached the target");
    }
}
