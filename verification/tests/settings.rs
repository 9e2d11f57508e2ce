//! Type strings of settings files: aliases and geometry types.

use xeibe::settings::{
    AliasedType, Dimension, GeometryColumnType, GeometryShape, GeometryTypeError, TypeError, TypeSyntax, alias,
    alias_of, classify_type, geometry_string, normalize_type, parse_geometry,
};

#[test]
fn aliases_follow_postgresql_and_duckdb() {
    let cases = [
        ("text", AliasedType::Text),
        ("varchar", AliasedType::Text),
        ("string", AliasedType::Text),
        ("boolean", AliasedType::Boolean),
        ("bool", AliasedType::Boolean),
        ("smallint", AliasedType::Int16),
        ("int2", AliasedType::Int16),
        ("integer", AliasedType::Int32),
        ("int", AliasedType::Int32),
        ("int4", AliasedType::Int32),
        ("bigint", AliasedType::Int64),
        ("int8", AliasedType::Int64),
        ("real", AliasedType::Float32),
        ("float4", AliasedType::Float32),
        ("double", AliasedType::Float64),
        ("double precision", AliasedType::Float64),
        ("float8", AliasedType::Float64),
        ("date", AliasedType::Date),
        ("timestamp", AliasedType::Timestamp),
        ("timestamptz", AliasedType::TimestampUtc),
        ("time", AliasedType::Time),
        ("bytea", AliasedType::Binary),
        ("blob", AliasedType::Binary),
        ("map", AliasedType::StringMap),
    ];
    for (text, expected) in cases {
        assert_eq!(alias(text), Some(expected), "{text}");
        assert_eq!(alias(alias_of(expected)), Some(expected), "{text}");
    }
    assert_eq!(alias("numeric"), None);
    assert_eq!(alias("Utf8View"), None);
}

#[test]
fn the_scan_writes_one_alias_per_type() {
    assert_eq!(alias_of(AliasedType::Text), "text");
    assert_eq!(alias_of(AliasedType::Int64), "bigint");
    assert_eq!(alias_of(AliasedType::TimestampUtc), "timestamptz");
    assert_eq!(alias_of(AliasedType::Binary), "bytea");
}

#[test]
fn geometry_columns_accept_a_kind_and_dimensions() {
    assert_eq!(parse_geometry("geometry"), Ok(Some(GeometryColumnType::Wkb)), "bare geometry is WKB");
    assert_eq!(
        parse_geometry("geometry(point)"),
        Ok(Some(GeometryColumnType::Native(GeometryShape::Point, Dimension::XY)))
    );
    assert_eq!(
        parse_geometry("geometry(multipolygon, xyz)"),
        Ok(Some(GeometryColumnType::Native(GeometryShape::MultiPolygon, Dimension::XYZ)))
    );
    assert_eq!(parse_geometry("geometry ( box , xy ) "), Ok(Some(GeometryColumnType::Native(GeometryShape::Box, Dimension::XY))));
    assert_eq!(parse_geometry("geometry(wkb, xyz)"), Ok(Some(GeometryColumnType::Wkb)));
    assert_eq!(parse_geometry("text"), Ok(None));
}

#[test]
fn bad_geometry_types_say_what_is_wrong() {
    assert_eq!(parse_geometry("geometry point"), Err(GeometryTypeError::Syntax));
    assert_eq!(parse_geometry("geometry("), Err(GeometryTypeError::Syntax));
    assert_eq!(parse_geometry("geometry(point, xym)"), Err(GeometryTypeError::UnknownDimensions("xym".to_string())));
    assert_eq!(parse_geometry("geometry(point, xy, 4326)"), Err(GeometryTypeError::TooManyArguments));
    assert_eq!(parse_geometry("geometry(curve)"), Err(GeometryTypeError::UnknownKind("curve".to_string())));
    assert_eq!(
        GeometryTypeError::UnknownKind("curve".to_string()).message(),
        "unknown geometry kind \"curve\""
    );
}

#[test]
fn the_settings_form_of_a_geometry_type_reads_back() {
    let shapes = [
        GeometryShape::Point,
        GeometryShape::LineString,
        GeometryShape::Polygon,
        GeometryShape::MultiPoint,
        GeometryShape::MultiLineString,
        GeometryShape::MultiPolygon,
        GeometryShape::Box,
    ];
    assert_eq!(geometry_string(GeometryColumnType::Wkb), "geometry");
    for shape in shapes {
        for dim in [Dimension::XY, Dimension::XYZ] {
            let g = GeometryColumnType::Native(shape, dim);
            let text = geometry_string(g);
            assert_eq!(parse_geometry(&text.to_ascii_lowercase()), Ok(Some(g)), "{text}");
        }
    }
    assert_eq!(
        geometry_string(GeometryColumnType::Native(GeometryShape::MultiPolygon, Dimension::XYZ)),
        "geometry(MultiPolygon, XYZ)"
    );
    assert_eq!(geometry_string(GeometryColumnType::Native(GeometryShape::Point, Dimension::XYM)), "geometry(Point, XYM)");
}

#[test]
fn aliases_are_case_insensitive() {
    assert_eq!(classify_type("TEXT"), Ok(TypeSyntax::Alias(AliasedType::Text)));
    assert_eq!(classify_type("BigInt"), Ok(TypeSyntax::Alias(AliasedType::Int64)));
    assert_eq!(
        classify_type("Geometry(Point)"),
        Ok(TypeSyntax::Geometry(GeometryColumnType::Native(GeometryShape::Point, Dimension::XY)))
    );
    assert_eq!(classify_type("  Double \t Precision "), Ok(TypeSyntax::Alias(AliasedType::Float64)));
    assert_eq!(normalize_type(" a  B\n c ").into_iter().collect::<String>(), "a b c");
}

#[test]
fn arrow_type_strings_are_accepted_too() {
    assert_eq!(classify_type("Utf8View"), Ok(TypeSyntax::Arrow("Utf8View".to_string())));
    assert_eq!(classify_type(" List(Utf8View) "), Ok(TypeSyntax::Arrow("List(Utf8View)".to_string())));
}

#[test]
fn lists_are_written_with_brackets() {
    assert_eq!(classify_type("text[]"), Ok(TypeSyntax::List("text".to_string())));
    assert_eq!(classify_type(" geometry[] "), Ok(TypeSyntax::List("geometry".to_string())));
}

#[test]
fn numeric_and_decimal_are_rejected_with_a_hint() {
    for text in ["numeric", "decimal", "Numeric(10, 2)"] {
        let error = classify_type(text).expect_err(text);
        assert_eq!(error, TypeError::NumericOrDecimal);
        let message = error.message();
        assert!(message.contains("double") && message.contains("text"), "{text}: {message}");
    }
    assert_eq!(classify_type("geometry(curve)"), Err(TypeError::Geometry(GeometryTypeError::UnknownKind("curve".to_string()))));
}
