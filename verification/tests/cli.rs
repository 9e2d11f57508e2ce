//! Command-line values and the decisions taken on them.

use xeibe::args::{AxisOverrideError, axis_override, data_type_name, override_split, reads_selected_members, worker_threads};
use xeibe::{AxisMode, OutputArgs, OutputFormat, Preset};

#[test]
fn an_axis_override_is_keyed_by_the_srs_name() {
    assert_eq!(axis_override("EPSG:4326=yx"), Ok(("EPSG:4326".to_string(), AxisMode::YX)));
    assert_eq!(
        axis_override("http://www.opengis.net/def/crs?a=b= Crs-Heuristic "),
        Ok(("http://www.opengis.net/def/crs?a=b".to_string(), AxisMode::CrsHeuristic))
    );
    assert_eq!(axis_override("EPSG:4326"), Err(AxisOverrideError::NoSeparator));
    assert_eq!(axis_override("=yx"), Err(AxisOverrideError::EmptySrsName));
    assert_eq!(axis_override("EPSG:4326=sideways"), Err(AxisOverrideError::UnknownMode));
    assert_eq!(AxisMode::from_name("GML-version", true), Some(AxisMode::GmlVersion));
    assert_eq!(AxisMode::from_name("GML-version", false), None);
}

#[test]
fn an_override_splits_at_the_last_equals_sign_outside_braces() {
    assert_eq!(override_split("*/kod=utf8"), Some(5));
    assert_eq!(override_split("{http://a?x=1}name=text"), Some(18));
    assert_eq!(override_split("{a=b}"), None);
    assert_eq!(override_split("a=b=c"), Some(3));
}

#[test]
fn older_type_names_are_still_read() {
    assert_eq!(data_type_name("UTF8"), "text");
    assert_eq!(data_type_name("long"), "bigint");
    assert_eq!(data_type_name("Float"), "double");
    assert_eq!(data_type_name("Int32"), "Int32");
}

#[test]
fn a_conversion_needs_a_layer() {
    let output = OutputArgs { layer: None, output: "x.parquet".into(), format: OutputFormat::Parquet };
    let error = output.required_layer().expect_err("no layer");
    assert!(error.contains("--layer"));
    let output = OutputArgs { layer: Some("L".into()), output: "x.parquet".into(), format: OutputFormat::Ipc };
    assert_eq!(output.required_layer(), Ok("L".to_string()));
}

#[test]
fn member_globs_apply_to_local_zip_archives() {
    let globs = vec!["data/*".to_string()];
    assert!(reads_selected_members("a.ZIP", true, &globs));
    assert!(!reads_selected_members("a.zip", false, &globs));
    assert!(!reads_selected_members("a.zip", true, &[]));
    assert!(!reads_selected_members("a.gml", true, &globs));
    assert_eq!(worker_threads(0), 1);
    assert_eq!(worker_threads(8), 8);
}

#[test]
fn an_override_names_a_pattern_and_what_it_does() {
    use_parse_override();
}

fn use_parse_override() {
    use_case("*/kodPocztowy=NotAType", "*/kodPocztowy", xeibe::args::OverrideAction::Type("NotAType".to_string()));
    use_case("a/b=DROP", "a/b", xeibe::args::OverrideAction::Drop);
    use_case("{http://x?a=b}c=raw-xml", "{http://x?a=b}c", xeibe::args::OverrideAction::AsRawXml);
    use_case("x=Map", "x", xeibe::args::OverrideAction::AsMap);
    use_case("x=long", "x", xeibe::args::OverrideAction::Type("bigint".to_string()));
    assert_eq!(xeibe::args::parse_override("no-equals"), None);
}

fn use_case(text: &str, pattern: &str, action: xeibe::args::OverrideAction) {
    assert_eq!(xeibe::args::parse_override(text), Some((pattern.to_string(), action)), "{text}");
}

#[test]
fn only_the_documented_presets_exist() {
    for gone in ["flat", "gdal-like", "spark-xml-like"] {
        assert!(Preset::from_name(gone).is_none(), "--preset {gone} is still accepted");
    }
    assert_eq!(Preset::from_name("default"), Some(Preset::Default));
    assert_eq!(Preset::from_name("strings"), Some(Preset::Strings));
}
