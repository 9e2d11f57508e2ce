//! Layers, route steps, warnings, overflow rows and feature errors.

use xeibe::feature::{Dim, FaultAction, FeatureFault, GeometrySpec, fault_action};
use xeibe::route::RouteNode;
use xeibe::settings::local_name;
use xeibe::{
    ColumnSpec, FeatureOutcome, GeometryKind, LayerSelector, Location, NamespaceContext, OnFeatureError,
    OverflowCollector, QName, SourceId, Step, Warning, WarningKind,
};

#[test]
fn a_layer_is_a_clark_name_a_prefixed_name_or_a_local_name() {
    match LayerSelector::parse("{http://example.com/app}Parcel") {
        LayerSelector::Exact(name) => assert_eq!(name, QName::new(Some("http://example.com/app"), "Parcel")),
        other => panic!("got {other:?}"),
    }
    match LayerSelector::parse("app:Parcel") {
        LayerSelector::Prefixed { prefix, local } => assert_eq!((prefix.as_str(), local.as_str()), ("app", "Parcel")),
        other => panic!("got {other:?}"),
    }
    match LayerSelector::parse("Parcel") {
        LayerSelector::Local(local) => assert_eq!(local, "Parcel"),
        other => panic!("got {other:?}"),
    }
    // An unclosed brace is not a Clark name.
    assert!(matches!(LayerSelector::parse("{x"), LayerSelector::Local(_)));
    assert!(matches!(LayerSelector::parse("{x:y"), LayerSelector::Prefixed { .. }));
}

#[test]
fn the_filter_of_a_selector_names_what_the_splitter_keeps() {
    assert_eq!(LayerSelector::parse("{u}L").filter(), QName::new(Some("u"), "L"));
    assert_eq!(LayerSelector::parse("p:L").filter(), QName::new(None, "L"));
    assert_eq!(LayerSelector::parse("L").filter(), QName::new(None, "L"));
}

#[test]
fn a_prefixed_selector_resolves_its_prefix_where_it_can() {
    let mut context = NamespaceContext::new();
    context.declare(Some("app"), "http://example.com/app");
    let selector = LayerSelector::parse("app:Parcel");
    assert!(selector.accepts(&QName::new(Some("http://example.com/app"), "Parcel"), &context));
    assert!(!selector.accepts(&QName::new(Some("http://example.com/other"), "Parcel"), &context));
    assert!(!selector.accepts(&QName::new(Some("http://example.com/app"), "Road"), &context));
    // Undeclared in the chunk: the local name decides.
    let empty = NamespaceContext::new();
    assert!(selector.accepts(&QName::new(Some("http://example.com/other"), "Parcel"), &empty));
    let exact = LayerSelector::parse("{http://example.com/app}Parcel");
    assert!(!exact.accepts(&QName::new(None, "Parcel"), &empty));
    assert!(LayerSelector::parse("Parcel").accepts(&QName::new(Some("x"), "Parcel"), &empty));
}

#[test]
fn route_steps_prefer_the_exact_namespace() {
    let any = Step::of(&QName::new(None, "*"));
    assert!(matches!(any, Step::Any));
    let exact = Step::of(&QName::new(Some("u"), "name"));
    let loose = Step::of(&QName::new(None, "name"));
    let other = Step::of(&QName::new(Some("v"), "name"));
    assert!(exact.is_exact(Some("u"), "name") && !exact.is_any_namespace("name"));
    assert!(loose.is_any_namespace("name") && !loose.is_exact(None, "name"));
    let mut node: RouteNode<u32> = RouteNode::new(Step::Any);
    for (i, step) in [any, exact, loose, other].into_iter().enumerate() {
        let mut child = RouteNode::new(step.clone());
        child.targets.push(i as u32);
        node.children.push(child);
        node.attributes.push((step, i as u32));
    }
    let children = |ns: Option<&str>, local: &str| {
        let mut out = Vec::new();
        node.matching_children(&QName::new(ns, local), &mut out);
        out.iter().map(|c| c.targets[0]).collect::<Vec<u32>>()
    };
    // A sibling names `u` exactly: the unprefixed step gives way.
    assert_eq!(children(Some("u"), "name"), [0, 1]);
    // Nothing names `w` exactly: the unprefixed step matches.
    assert_eq!(children(Some("w"), "name"), [0, 2]);
    assert_eq!(children(None, "name"), [0, 2]);
    assert_eq!(children(Some("v"), "other"), [0]);
    // Attributes are matched the same way, but `*` is no attribute step.
    let mut targets = Vec::new();
    node.attribute_targets(Some("u"), "name", &mut targets);
    assert_eq!(targets, [1]);
    targets.clear();
    node.attribute_targets(Some("w"), "name", &mut targets);
    assert_eq!(targets, [2]);
    assert!(!node.is_leaf());
    assert!(node.children[0].is_leaf());
}

#[test]
fn local_names_drop_the_namespace_or_the_prefix() {
    assert_eq!(local_name("{http://a/b:c}d"), "d");
    assert_eq!(local_name("gml:name"), "name");
    assert_eq!(local_name("a:b:c"), "c");
    assert_eq!(local_name("plain"), "plain");
    let detailed = ColumnSpec::Detailed { data_type: "text".into(), path: Some("a/@b".into()) };
    assert_eq!(detailed.parts(), ("text", Some("a/@b")));
    assert_eq!(ColumnSpec::Type("bigint".into()).parts(), ("bigint", None));
}

#[test]
fn geometry_warnings_are_classified_by_their_text() {
    let kind = |text: &str| Warning::from_geometry(text.to_string(), None).kind;
    assert_eq!(kind("Ring is NOT CLOSED"), WarningKind::UnclosedRing);
    assert_eq!(kind("unclosed ring"), WarningKind::UnclosedRing);
    assert_eq!(kind("a Gap between segments"), WarningKind::SegmentGap);
    assert_eq!(kind("numArc says 3"), WarningKind::NumArcMismatch);
    assert_eq!(kind("something else"), WarningKind::Other);
    let location = Location { source: SourceId(1), byte_offset: 5, feature_seq: None, gml_id: None };
    let warning = Warning::from_geometry("gap".to_string(), Some(location.clone()));
    assert_eq!(warning.location, Some(location));
    assert_eq!(warning.message, "gap");
}

#[test]
fn overflow_rows_collect_entries_per_row() {
    let mut overflow = OverflowCollector::new();
    overflow.push("a/b", "1");
    overflow.push("c", "<x/>");
    overflow.end_row();
    overflow.push("skipped", "x");
    overflow.discard_row();
    overflow.end_row();
    overflow.push("taken", "y");
    assert_eq!(overflow.take_row(), [("taken".to_string(), "y".to_string())]);
    let rows = overflow.take_rows();
    assert_eq!(rows.len(), 2);
    assert_eq!(rows[0], [("a/b".to_string(), "1".to_string()), ("c".to_string(), "<x/>".to_string())]);
    assert!(rows[1].is_empty(), "a row without entries is null");
    assert!(overflow.take_rows().is_empty());
}

#[test]
fn feature_errors_follow_the_policy() {
    assert_eq!(OnFeatureError::default(), OnFeatureError::Error);
    assert_eq!(fault_action(OnFeatureError::Error, FeatureFault::Geometry), FaultAction::Fail);
    assert_eq!(fault_action(OnFeatureError::Skip, FeatureFault::Value), FaultAction::Skip);
    assert_eq!(fault_action(OnFeatureError::NullGeometry, FeatureFault::Geometry), FaultAction::KeepRow);
    assert_eq!(fault_action(OnFeatureError::NullGeometry, FeatureFault::Missing), FaultAction::Fail);
    assert_ne!(FeatureOutcome::Row, FeatureOutcome::Skipped);
}

#[test]
fn geometry_columns_describe_themselves() {
    let spec = GeometrySpec { kind: GeometryKind::MultiPolygon, dim: Some(Dim::Xyz) };
    assert_eq!(spec.describe(), "a MultiPolygon XYZ column");
    let wkb = GeometrySpec { kind: GeometryKind::Wkb, dim: None };
    assert_eq!(wkb.describe(), "a Wkb column");
}

fn warning(text: &str) -> Warning {
    Warning { kind: WarningKind::Other, location: None, message: text.to_string() }
}

#[test]
fn reports_keep_the_first_warnings_only() {
    let mut report = xeibe::ReadReport::default();
    for i in 0..xeibe::report::MAX_WARNINGS + 5 {
        report.warn(warning(&format!("w{i}")));
    }
    assert_eq!(report.warnings.len(), xeibe::report::MAX_WARNINGS);
    assert_eq!(report.warnings[0].message, "w0");
    let mut other = xeibe::ReadReport::default();
    other.warn(warning("late"));
    report.merge(other);
    assert_eq!(report.warnings.len(), xeibe::report::MAX_WARNINGS);
    assert!(report.warnings.iter().all(|w| w.message != "late"));
}

#[test]
fn merged_reports_add_their_counts() {
    let mut a = xeibe::ReadReport::default();
    a.add_features("Parcel".to_string(), 3);
    a.add_features("Road".to_string(), 1);
    a.add_features("Parcel".to_string(), 2);
    let mut b = xeibe::ReadReport::default();
    b.add_features("Road".to_string(), 4);
    b.add_features("River".to_string(), 7);
    let location = Location { source: SourceId(0), byte_offset: 9, feature_seq: Some(2), gml_id: None };
    b.skipped.push((location, "no area".to_string()));
    b.warn(warning("one"));
    a.merge(b);
    let count = |layer: &str| -> u64 {
        a.features_per_layer.iter().filter(|(name, _)| name == layer).map(|(_, n)| n).sum()
    };
    assert_eq!(count("Parcel"), 5);
    assert_eq!(count("Road"), 5);
    assert_eq!(count("River"), 7);
    assert_eq!(a.skipped.len(), 1);
    assert_eq!(a.warnings.len(), 1);
}

#[test]
fn chunk_numbers_run_on_across_sources_and_skipped_sources_are_reported() {
    let chunk = |source: u32, seq: u64| xeibe::FeatureChunk {
        source: SourceId(source),
        seq,
        byte_offset: 7,
        bytes: b"<a/>".to_vec(),
        namespaces: NamespaceContext::new(),
        first_feature_seq: seq,
        features: 1,
        collection_bounded_by: None,
    };
    let mut sequencer = xeibe::pipeline::ChunkSequencer::new();
    assert_eq!(sequencer.open_source(), SourceId(0));
    let first = sequencer.number(chunk(0, 0));
    let second = sequencer.number(chunk(0, 1));
    sequencer.source_done(0);
    assert_eq!(sequencer.open_source(), SourceId(1));
    assert!(sequencer.header_failed(xeibe::Error::NoFeatures("meta.xml".to_string())).is_none());
    assert_eq!(sequencer.open_source(), SourceId(2));
    let third = sequencer.number(chunk(2, 0));
    sequencer.source_done(3);
    assert_eq!((first.seq, second.seq, third.seq), (0, 1, 2));
    assert_eq!(third.source, SourceId(2));
    assert_eq!(third.byte_offset, 7);
    let other = sequencer.header_failed(xeibe::Error::RemoteArchive("x".to_string()));
    assert!(matches!(other, Some(xeibe::Error::RemoteArchive(_))));
    let warnings = sequencer.take_warnings();
    assert_eq!(warnings.len(), 2);
    assert_eq!(warnings[0].kind, WarningKind::SkippedSource);
    assert_eq!(warnings[0].message, "skipped meta.xml: no feature collection or feature member");
    assert_eq!(warnings[1].kind, WarningKind::ReferencedMember);
    assert_eq!(warnings[1].message, "3 feature members given by reference (not read)");
    assert!(sequencer.take_warnings().is_empty());
}

#[test]
fn raw_content_ends_before_the_last_end_tag_and_paths_join_local_names() {
    use_inner_raw();
}

fn use_inner_raw() {
    assert_eq!(xeibe::feature::inner_raw("a<b>x</b></c>"), "a<b>x</b>");
    assert_eq!(xeibe::feature::inner_raw("no end tag"), "no end tag");
    assert_eq!(xeibe::feature::inner_raw("</"), "");
    let child = QName::new(Some("http://example.com/app"), "numer");
    assert_eq!(xeibe::feature::join_path("", &child), "numer");
    assert_eq!(xeibe::feature::join_path("adres", &child), "adres/numer");
}

#[test]
fn a_clark_name_selects_that_name() {
    let name = QName::new(Some("http://example.com/app"), "Parcel");
    match LayerSelector::parse(&name.to_clark()) {
        LayerSelector::Exact(selected) => assert_eq!(selected, name),
        other => panic!("got {other:?}"),
    }
}

#[test]
fn child_mut_finds_a_child_or_adds_one() {
    let mut node: RouteNode<u32> = RouteNode::new(Step::Any);
    node.child_mut(Step::of(&QName::new(Some("u"), "a"))).targets.push(7);
    node.child_mut(Step::of(&QName::new(None, "b"))).anchor = Some(1);
    node.child_mut(Step::of(&QName::new(Some("u"), "a"))).targets.push(8);
    assert_eq!(node.children.len(), 2);
    assert_eq!(node.children[0].targets, [7, 8]);
    assert_eq!(node.children[1].anchor, Some(1));
}
