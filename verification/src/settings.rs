//! Columns as a settings file writes them.

use vstd::prelude::*;

use crate::text::{
    append, ascii_lower, chars_eq, chars_of, ends_with, ends_with_exec, first_index_of, index_of, last_index,
    last_index_of, owned, starts_with, starts_with_exec, string_from, string_of, to_ascii_lower,
};
use crate::version::{is_white_space, is_white_space_exec, trim, trimmed, white_prefix_end, white_suffix_start};

verus! {

/// One column: a type, or a type and the path it comes from.
#[derive(Debug, Clone)]
pub enum ColumnSpec {
    /// The column's path is its name.
    Type(String),
    Detailed {
        data_type: String,
        /// XML path relative to the feature (`idIIP/*/lokalnyId`,
        /// `adres[]/numer`, `miejscowosc/@href`).
        path: Option<String>,
    },
}

impl ColumnSpec {
    /// The type as written, and the path where one is given.
    pub fn parts(&self) -> (r: (&str, Option<&str>))
        ensures
            match *self {
                ColumnSpec::Type(t) => r.0@ == t@ && r.1 is None,
                ColumnSpec::Detailed { data_type, path } => r.0@ == data_type@ && match path {
                    Some(p) => r.1 matches Some(q) && q@ == p@,
                    None => r.1 is None,
                },
            },
    {
        match self {
            ColumnSpec::Type(data_type) => (data_type.as_str(), None),
            ColumnSpec::Detailed { data_type, path } => (
                data_type.as_str(),
                match path {
                    Some(p) => Some(p.as_str()),
                    None => None,
                },
            ),
        }
    }
}

/// The local part of a name: after the last `}` of a Clark name, else after
/// the last `:`, else the whole name.
pub open spec fn local_part(name: Seq<char>) -> Seq<char> {
    match last_index_of(name, '}') {
        Some(i) => name.skip(i + 1),
        None => match last_index_of(name, ':') {
            Some(i) => name.skip(i + 1),
            None => name,
        },
    }
}

pub fn local_name(name: &str) -> (r: String)
    ensures
        r@ == local_part(name@),
{
    let chars = chars_of(name);
    let n = chars.len();
    let from = match last_index(&chars, '}') {
        Some(i) => i + 1,
        None => match last_index(&chars, ':') {
            Some(i) => {
                assert(i < n);
                i + 1
            },
            None => 0,
        },
    };
    assert(chars@.skip(from as int) == chars@.subrange(from as int, chars@.len() as int));
    string_from(&chars, from, chars.len())
}

/// The column types that settings name by an alias (PostgreSQL and DuckDB
/// style).
#[derive(Debug, Clone, Copy, PartialEq, Eq, Structural)]
pub enum AliasedType {
    /// Arrow `Utf8View`.
    Text,
    Boolean,
    Int16,
    Int32,
    Int64,
    Float32,
    Float64,
    /// Arrow `Date32`.
    Date,
    /// Microseconds, no time zone.
    Timestamp,
    /// Microseconds in UTC.
    TimestampUtc,
    /// Arrow `Time64` in microseconds.
    Time,
    Binary,
    /// A `Utf8View` to `Utf8View` map.
    StringMap,
}

/// The type an alias (lower case, single spaces) names.
pub open spec fn alias_type(t: Seq<char>) -> Option<AliasedType> {
    if t == "text"@ || t == "varchar"@ || t == "string"@ {
        Some(AliasedType::Text)
    } else if t == "boolean"@ || t == "bool"@ {
        Some(AliasedType::Boolean)
    } else if t == "smallint"@ || t == "int2"@ {
        Some(AliasedType::Int16)
    } else if t == "integer"@ || t == "int"@ || t == "int4"@ {
        Some(AliasedType::Int32)
    } else if t == "bigint"@ || t == "int8"@ {
        Some(AliasedType::Int64)
    } else if t == "real"@ || t == "float4"@ {
        Some(AliasedType::Float32)
    } else if t == "double"@ || t == "double precision"@ || t == "float8"@ {
        Some(AliasedType::Float64)
    } else if t == "date"@ {
        Some(AliasedType::Date)
    } else if t == "timestamp"@ {
        Some(AliasedType::Timestamp)
    } else if t == "timestamptz"@ {
        Some(AliasedType::TimestampUtc)
    } else if t == "time"@ {
        Some(AliasedType::Time)
    } else if t == "bytea"@ || t == "blob"@ {
        Some(AliasedType::Binary)
    } else if t == "map"@ {
        Some(AliasedType::StringMap)
    } else {
        None
    }
}

/// The alias the scan writes for a type.
pub open spec fn alias_name(t: AliasedType) -> Seq<char> {
    match t {
        AliasedType::Text => "text"@,
        AliasedType::Boolean => "boolean"@,
        AliasedType::Int16 => "smallint"@,
        AliasedType::Int32 => "integer"@,
        AliasedType::Int64 => "bigint"@,
        AliasedType::Float32 => "real"@,
        AliasedType::Float64 => "double"@,
        AliasedType::Date => "date"@,
        AliasedType::Timestamp => "timestamp"@,
        AliasedType::TimestampUtc => "timestamptz"@,
        AliasedType::Time => "time"@,
        AliasedType::Binary => "bytea"@,
        AliasedType::StringMap => "map"@,
    }
}

fn is_word(s: &[char], word: &str) -> (r: bool)
    ensures
        r == (s@ == word@),
{
    chars_eq(s, &chars_of(word))
}

/// The type an alias (lower case, single spaces) names.
pub fn alias(text: &str) -> (r: Option<AliasedType>)
    ensures
        r == alias_type(text@),
{
    let t = chars_of(text);
    if is_word(&t, "text") || is_word(&t, "varchar") || is_word(&t, "string") {
        Some(AliasedType::Text)
    } else if is_word(&t, "boolean") || is_word(&t, "bool") {
        Some(AliasedType::Boolean)
    } else if is_word(&t, "smallint") || is_word(&t, "int2") {
        Some(AliasedType::Int16)
    } else if is_word(&t, "integer") || is_word(&t, "int") || is_word(&t, "int4") {
        Some(AliasedType::Int32)
    } else if is_word(&t, "bigint") || is_word(&t, "int8") {
        Some(AliasedType::Int64)
    } else if is_word(&t, "real") || is_word(&t, "float4") {
        Some(AliasedType::Float32)
    } else if is_word(&t, "double") || is_word(&t, "double precision") || is_word(&t, "float8") {
        Some(AliasedType::Float64)
    } else if is_word(&t, "date") {
        Some(AliasedType::Date)
    } else if is_word(&t, "timestamp") {
        Some(AliasedType::Timestamp)
    } else if is_word(&t, "timestamptz") {
        Some(AliasedType::TimestampUtc)
    } else if is_word(&t, "time") {
        Some(AliasedType::Time)
    } else if is_word(&t, "bytea") || is_word(&t, "blob") {
        Some(AliasedType::Binary)
    } else if is_word(&t, "map") {
        Some(AliasedType::StringMap)
    } else {
        None
    }
}

/// The alias the scan writes for a type.
pub fn alias_of(t: AliasedType) -> (r: &'static str)
    ensures
        r@ == alias_name(t),
{
    match t {
        AliasedType::Text => "text",
        AliasedType::Boolean => "boolean",
        AliasedType::Int16 => "smallint",
        AliasedType::Int32 => "integer",
        AliasedType::Int64 => "bigint",
        AliasedType::Float32 => "real",
        AliasedType::Float64 => "double",
        AliasedType::Date => "date",
        AliasedType::Timestamp => "timestamp",
        AliasedType::TimestampUtc => "timestamptz",
        AliasedType::Time => "time",
        AliasedType::Binary => "bytea",
        AliasedType::StringMap => "map",
    }
}

/// The alias the scan writes for a type names that type again when the
/// settings are read.
pub proof fn lemma_written_alias_reads_back(t: AliasedType)
    ensures
        alias_type(alias_name(t)) == Some(t),
{
    reveal_strlit("text");
    reveal_strlit("varchar");
    reveal_strlit("string");
    reveal_strlit("boolean");
    reveal_strlit("bool");
    reveal_strlit("smallint");
    reveal_strlit("int2");
    reveal_strlit("integer");
    reveal_strlit("int");
    reveal_strlit("int4");
    reveal_strlit("bigint");
    reveal_strlit("int8");
    reveal_strlit("real");
    reveal_strlit("float4");
    reveal_strlit("double");
    reveal_strlit("double precision");
    reveal_strlit("float8");
    reveal_strlit("date");
    reveal_strlit("timestamp");
    reveal_strlit("timestamptz");
    reveal_strlit("time");
    reveal_strlit("bytea");
    reveal_strlit("blob");
    reveal_strlit("map");
    match t {
        AliasedType::Text => {

        },
        AliasedType::Boolean => {
            assert("boolean"@.len() != "text"@.len());
            assert("boolean"@[0] != "varchar"@[0]);
            assert("boolean"@.len() != "string"@.len());
        },
        AliasedType::Int16 => {
            assert("smallint"@.len() != "text"@.len());
            assert("smallint"@.len() != "varchar"@.len());
            assert("smallint"@.len() != "string"@.len());
            assert("smallint"@.len() != "boolean"@.len());
            assert("smallint"@.len() != "bool"@.len());
        },
        AliasedType::Int32 => {
            assert("integer"@.len() != "text"@.len());
            assert("integer"@[0] != "varchar"@[0]);
            assert("integer"@.len() != "string"@.len());
            assert("integer"@[0] != "boolean"@[0]);
            assert("integer"@.len() != "bool"@.len());
            assert("integer"@.len() != "smallint"@.len());
            assert("integer"@.len() != "int2"@.len());
        },
        AliasedType::Int64 => {
            assert("bigint"@.len() != "text"@.len());
            assert("bigint"@.len() != "varchar"@.len());
            assert("bigint"@[0] != "string"@[0]);
            assert("bigint"@.len() != "boolean"@.len());
            assert("bigint"@.len() != "bool"@.len());
            assert("bigint"@.len() != "smallint"@.len());
            assert("bigint"@.len() != "int2"@.len());
            assert("bigint"@.len() != "integer"@.len());
            assert("bigint"@.len() != "int"@.len());
            assert("bigint"@.len() != "int4"@.len());
        },
        AliasedType::Float32 => {
            assert("real"@[0] != "text"@[0]);
            assert("real"@.len() != "varchar"@.len());
            assert("real"@.len() != "string"@.len());
            assert("real"@.len() != "boolean"@.len());
            assert("real"@[0] != "bool"@[0]);
            assert("real"@.len() != "smallint"@.len());
            assert("real"@[0] != "int2"@[0]);
            assert("real"@.len() != "integer"@.len());
            assert("real"@.len() != "int"@.len());
            assert("real"@[0] != "int4"@[0]);
            assert("real"@.len() != "bigint"@.len());
            assert("real"@[0] != "int8"@[0]);
        },
        AliasedType::Float64 => {
            assert("double"@.len() != "text"@.len());
            assert("double"@.len() != "varchar"@.len());
            assert("double"@[0] != "string"@[0]);
            assert("double"@.len() != "boolean"@.len());
            assert("double"@.len() != "bool"@.len());
            assert("double"@.len() != "smallint"@.len());
            assert("double"@.len() != "int2"@.len());
            assert("double"@.len() != "integer"@.len());
            assert("double"@.len() != "int"@.len());
            assert("double"@.len() != "int4"@.len());
            assert("double"@[0] != "bigint"@[0]);
            assert("double"@.len() != "int8"@.len());
            assert("double"@.len() != "real"@.len());
            assert("double"@[0] != "float4"@[0]);
        },
        AliasedType::Date => {
            assert("date"@[0] != "text"@[0]);
            assert("date"@.len() != "varchar"@.len());
            assert("date"@.len() != "string"@.len());
            assert("date"@.len() != "boolean"@.len());
            assert("date"@[0] != "bool"@[0]);
            assert("date"@.len() != "smallint"@.len());
            assert("date"@[0] != "int2"@[0]);
            assert("date"@.len() != "integer"@.len());
            assert("date"@.len() != "int"@.len());
            assert("date"@[0] != "int4"@[0]);
            assert("date"@.len() != "bigint"@.len());
            assert("date"@[0] != "int8"@[0]);
            assert("date"@[0] != "real"@[0]);
            assert("date"@.len() != "float4"@.len());
            assert("date"@.len() != "double"@.len());
            assert("date"@.len() != "double precision"@.len());
            assert("date"@.len() != "float8"@.len());
        },
        AliasedType::Timestamp => {
            assert("timestamp"@.len() != "text"@.len());
            assert("timestamp"@.len() != "varchar"@.len());
            assert("timestamp"@.len() != "string"@.len());
            assert("timestamp"@.len() != "boolean"@.len());
            assert("timestamp"@.len() != "bool"@.len());
            assert("timestamp"@.len() != "smallint"@.len());
            assert("timestamp"@.len() != "int2"@.len());
            assert("timestamp"@.len() != "integer"@.len());
            assert("timestamp"@.len() != "int"@.len());
            assert("timestamp"@.len() != "int4"@.len());
            assert("timestamp"@.len() != "bigint"@.len());
            assert("timestamp"@.len() != "int8"@.len());
            assert("timestamp"@.len() != "real"@.len());
            assert("timestamp"@.len() != "float4"@.len());
            assert("timestamp"@.len() != "double"@.len());
            assert("timestamp"@.len() != "double precision"@.len());
            assert("timestamp"@.len() != "float8"@.len());
            assert("timestamp"@.len() != "date"@.len());
        },
        AliasedType::TimestampUtc => {
            assert("timestamptz"@.len() != "text"@.len());
            assert("timestamptz"@.len() != "varchar"@.len());
            assert("timestamptz"@.len() != "string"@.len());
            assert("timestamptz"@.len() != "boolean"@.len());
            assert("timestamptz"@.len() != "bool"@.len());
            assert("timestamptz"@.len() != "smallint"@.len());
            assert("timestamptz"@.len() != "int2"@.len());
            assert("timestamptz"@.len() != "integer"@.len());
            assert("timestamptz"@.len() != "int"@.len());
            assert("timestamptz"@.len() != "int4"@.len());
            assert("timestamptz"@.len() != "bigint"@.len());
            assert("timestamptz"@.len() != "int8"@.len());
            assert("timestamptz"@.len() != "real"@.len());
            assert("timestamptz"@.len() != "float4"@.len());
            assert("timestamptz"@.len() != "double"@.len());
            assert("timestamptz"@.len() != "double precision"@.len());
            assert("timestamptz"@.len() != "float8"@.len());
            assert("timestamptz"@.len() != "date"@.len());
            assert("timestamptz"@.len() != "timestamp"@.len());
        },
        AliasedType::Time => {
            assert("time"@[1] != "text"@[1]);
            assert("time"@.len() != "varchar"@.len());
            assert("time"@.len() != "string"@.len());
            assert("time"@.len() != "boolean"@.len());
            assert("time"@[0] != "bool"@[0]);
            assert("time"@.len() != "smallint"@.len());
            assert("time"@[0] != "int2"@[0]);
            assert("time"@.len() != "integer"@.len());
            assert("time"@.len() != "int"@.len());
            assert("time"@[0] != "int4"@[0]);
            assert("time"@.len() != "bigint"@.len());
            assert("time"@[0] != "int8"@[0]);
            assert("time"@[0] != "real"@[0]);
            assert("time"@.len() != "float4"@.len());
            assert("time"@.len() != "double"@.len());
            assert("time"@.len() != "double precision"@.len());
            assert("time"@.len() != "float8"@.len());
            assert("time"@[0] != "date"@[0]);
            assert("time"@.len() != "timestamp"@.len());
            assert("time"@.len() != "timestamptz"@.len());
        },
        AliasedType::Binary => {
            assert("bytea"@.len() != "text"@.len());
            assert("bytea"@.len() != "varchar"@.len());
            assert("bytea"@.len() != "string"@.len());
            assert("bytea"@.len() != "boolean"@.len());
            assert("bytea"@.len() != "bool"@.len());
            assert("bytea"@.len() != "smallint"@.len());
            assert("bytea"@.len() != "int2"@.len());
            assert("bytea"@.len() != "integer"@.len());
            assert("bytea"@.len() != "int"@.len());
            assert("bytea"@.len() != "int4"@.len());
            assert("bytea"@.len() != "bigint"@.len());
            assert("bytea"@.len() != "int8"@.len());
            assert("bytea"@.len() != "real"@.len());
            assert("bytea"@.len() != "float4"@.len());
            assert("bytea"@.len() != "double"@.len());
            assert("bytea"@.len() != "double precision"@.len());
            assert("bytea"@.len() != "float8"@.len());
            assert("bytea"@.len() != "date"@.len());
            assert("bytea"@.len() != "timestamp"@.len());
            assert("bytea"@.len() != "timestamptz"@.len());
            assert("bytea"@.len() != "time"@.len());
        },
        AliasedType::StringMap => {
            assert("map"@.len() != "text"@.len());
            assert("map"@.len() != "varchar"@.len());
            assert("map"@.len() != "string"@.len());
            assert("map"@.len() != "boolean"@.len());
            assert("map"@.len() != "bool"@.len());
            assert("map"@.len() != "smallint"@.len());
            assert("map"@.len() != "int2"@.len());
            assert("map"@.len() != "integer"@.len());
            assert("map"@[0] != "int"@[0]);
            assert("map"@.len() != "int4"@.len());
            assert("map"@.len() != "bigint"@.len());
            assert("map"@.len() != "int8"@.len());
            assert("map"@.len() != "real"@.len());
            assert("map"@.len() != "float4"@.len());
            assert("map"@.len() != "double"@.len());
            assert("map"@.len() != "double precision"@.len());
            assert("map"@.len() != "float8"@.len());
            assert("map"@.len() != "date"@.len());
            assert("map"@.len() != "timestamp"@.len());
            assert("map"@.len() != "timestamptz"@.len());
            assert("map"@.len() != "time"@.len());
            assert("map"@.len() != "bytea"@.len());
            assert("map"@.len() != "blob"@.len());
        },
    }
}

/// The shapes of a native geometry column.
#[derive(Debug, Clone, Copy, PartialEq, Eq, Structural)]
pub enum GeometryShape {
    Point,
    LineString,
    Polygon,
    MultiPoint,
    MultiLineString,
    MultiPolygon,
    /// `geoarrow.box`.
    Box,
}

/// The coordinate dimensions of a native geometry column.
#[derive(Debug, Clone, Copy, PartialEq, Eq, Structural)]
pub enum Dimension {
    XY,
    XYZ,
    XYM,
    XYZM,
}

/// A geometry column's type as settings write it: WKB (anything, curves
/// included), or a native shape with its dimensions.
#[derive(Debug, Clone, Copy, PartialEq, Eq, Structural)]
pub enum GeometryColumnType {
    Wkb,
    Native(GeometryShape, Dimension),
}

/// Why a geometry type does not parse.
#[derive(Debug, Clone, PartialEq, Eq)]
pub enum GeometryTypeError {
    /// Expected geometry or geometry(<kind>[, <dims>]).
    Syntax,
    /// Dimensions other than XY or XYZ.
    UnknownDimensions(String),
    /// Too many arguments to geometry(…).
    TooManyArguments,
    /// A kind that is no geometry kind.
    UnknownKind(String),
}

impl GeometryTypeError {
    /// The message settings errors give, the offending part in quotes.
    pub fn message(&self) -> (r: String)
        ensures
            r@ == geometry_error_text(*self),
    {
        match self {
            GeometryTypeError::Syntax => owned("expected geometry or geometry(<kind>[, <dims>])"),
            GeometryTypeError::UnknownDimensions(d) => {
                let mut m = owned("unknown dimensions \"");
                append(&mut m, d.as_str());
                append(&mut m, "\" (XY or XYZ)");
                m
            },
            GeometryTypeError::TooManyArguments => owned("too many arguments to geometry(…)"),
            GeometryTypeError::UnknownKind(k) => {
                let mut m = owned("unknown geometry kind \"");
                append(&mut m, k.as_str());
                append(&mut m, "\"");
                m
            },
        }
    }
}

/// The message of each refusal of a geometry type.
pub open spec fn geometry_error_text(e: GeometryTypeError) -> Seq<char> {
    match e {
        GeometryTypeError::Syntax => "expected geometry or geometry(<kind>[, <dims>])"@,
        GeometryTypeError::UnknownDimensions(d) => "unknown dimensions \""@ + d@ + "\" (XY or XYZ)"@,
        GeometryTypeError::TooManyArguments => "too many arguments to geometry(…)"@,
        GeometryTypeError::UnknownKind(k) => "unknown geometry kind \""@ + k@ + "\""@,
    }
}

/// A shape's name in lower case, as a type string may write it.
pub open spec fn shape_word(k: GeometryShape) -> Seq<char> {
    match k {
        GeometryShape::Point => "point"@,
        GeometryShape::LineString => "linestring"@,
        GeometryShape::Polygon => "polygon"@,
        GeometryShape::MultiPoint => "multipoint"@,
        GeometryShape::MultiLineString => "multilinestring"@,
        GeometryShape::MultiPolygon => "multipolygon"@,
        GeometryShape::Box => "box"@,
    }
}

/// A shape's name as the scan writes it.
pub open spec fn shape_name(k: GeometryShape) -> Seq<char> {
    match k {
        GeometryShape::Point => "Point"@,
        GeometryShape::LineString => "LineString"@,
        GeometryShape::Polygon => "Polygon"@,
        GeometryShape::MultiPoint => "MultiPoint"@,
        GeometryShape::MultiLineString => "MultiLineString"@,
        GeometryShape::MultiPolygon => "MultiPolygon"@,
        GeometryShape::Box => "Box"@,
    }
}

/// A dimension's name as the scan writes it.
pub open spec fn dimension_name(d: Dimension) -> Seq<char> {
    match d {
        Dimension::XY => "XY"@,
        Dimension::XYZ => "XYZ"@,
        Dimension::XYM => "XYM"@,
        Dimension::XYZM => "XYZM"@,
    }
}

/// The shape a lower-case word names.
pub open spec fn shape_of(word: Seq<char>) -> Option<GeometryShape> {
    if word == "point"@ {
        Some(GeometryShape::Point)
    } else if word == "linestring"@ {
        Some(GeometryShape::LineString)
    } else if word == "polygon"@ {
        Some(GeometryShape::Polygon)
    } else if word == "multipoint"@ {
        Some(GeometryShape::MultiPoint)
    } else if word == "multilinestring"@ {
        Some(GeometryShape::MultiLineString)
    } else if word == "multipolygon"@ {
        Some(GeometryShape::MultiPolygon)
    } else if word == "box"@ {
        Some(GeometryShape::Box)
    } else {
        None
    }
}

/// The arguments between the brackets of `geometry(…)`: the kind, the
/// dimensions if given, and whether more follow; each trimmed.
pub open spec fn geometry_arguments(inner: Seq<char>) -> (Seq<char>, Option<Seq<char>>, bool) {
    match first_index_of(inner, ',') {
        None => (trimmed(inner), None, false),
        Some(i) => {
            let tail = inner.skip(i + 1);
            match first_index_of(tail, ',') {
                None => (trimmed(inner.take(i)), Some(trimmed(tail)), false),
                Some(j) => (trimmed(inner.take(i)), Some(trimmed(tail.take(j))), true),
            }
        },
    }
}

/// `geometry` (WKB) or `geometry(<kind>[, <dims>])` in a lower-case type
/// string gives `r`; `Ok(None)` for a string that is no geometry type.
pub open spec fn geometry_parsed(text: Seq<char>, r: Result<Option<GeometryColumnType>, GeometryTypeError>) -> bool {
    if !starts_with(text, "geometry"@) {
        r == Ok::<Option<GeometryColumnType>, GeometryTypeError>(None)
    } else {
        let rest = trimmed(text.skip(8));
        if rest.len() == 0 {
            r == Ok::<Option<GeometryColumnType>, GeometryTypeError>(Some(GeometryColumnType::Wkb))
        } else if !(rest.len() >= 2 && rest[0] == '(' && rest.last() == ')') {
            r == Err::<Option<GeometryColumnType>, GeometryTypeError>(GeometryTypeError::Syntax)
        } else {
            let (kind, dims, more) = geometry_arguments(rest.subrange(1, rest.len() - 1));
            if dims is Some && dims->0 != "xy"@ && dims->0 != "xyz"@ {
                r matches Err(GeometryTypeError::UnknownDimensions(s)) && s@ == dims->0
            } else if more {
                r == Err::<Option<GeometryColumnType>, GeometryTypeError>(GeometryTypeError::TooManyArguments)
            } else {
                let dim = if dims == Some("xyz"@) {
                    Dimension::XYZ
                } else {
                    Dimension::XY
                };
                if kind == "wkb"@ {
                    r == Ok::<Option<GeometryColumnType>, GeometryTypeError>(Some(GeometryColumnType::Wkb))
                } else {
                    match shape_of(kind) {
                        Some(k) => r == Ok::<Option<GeometryColumnType>, GeometryTypeError>(
                            Some(GeometryColumnType::Native(k, dim)),
                        ),
                        None => r matches Err(GeometryTypeError::UnknownKind(s)) && s@ == kind,
                    }
                }
            }
        }
    }
}

fn shape_of_exec(word: &[char]) -> (r: Option<GeometryShape>)
    ensures
        r == shape_of(word@),
{
    if is_word(word, "point") {
        Some(GeometryShape::Point)
    } else if is_word(word, "linestring") {
        Some(GeometryShape::LineString)
    } else if is_word(word, "polygon") {
        Some(GeometryShape::Polygon)
    } else if is_word(word, "multipoint") {
        Some(GeometryShape::MultiPoint)
    } else if is_word(word, "multilinestring") {
        Some(GeometryShape::MultiLineString)
    } else if is_word(word, "multipolygon") {
        Some(GeometryShape::MultiPolygon)
    } else if is_word(word, "box") {
        Some(GeometryShape::Box)
    } else {
        None
    }
}

fn geometry_arguments_exec(inner: &[char]) -> (r: (Vec<char>, Option<Vec<char>>, bool))
    ensures
        (r.0@, match r.1 {
            Some(d) => Some(d@),
            None => None,
        }, r.2) == geometry_arguments(inner@),
{
    let n = inner.len();
    match index_of(inner, ',') {
        None => (trim(inner), None, false),
        Some(i) => {
            let kind = trim(&crate::text::slice_of(inner, 0, i));
            let tail = crate::text::slice_of(inner, i + 1, n);
            assert(tail@ == inner@.skip(i + 1));
            assert(inner@.take(i as int) == inner@.subrange(0, i as int));
            match index_of(&tail, ',') {
                None => (kind, Some(trim(&tail)), false),
                Some(j) => {
                    assert(tail@.take(j as int) == tail@.subrange(0, j as int));
                    (kind, Some(trim(&crate::text::slice_of(&tail, 0, j))), true)
                },
            }
        },
    }
}

/// `geometry` (WKB) or `geometry(<kind>[, <dims>])` in a lower-case type
/// string; `Ok(None)` for a string that is no geometry type.
pub fn parse_geometry(text: &str) -> (r: Result<Option<GeometryColumnType>, GeometryTypeError>)
    ensures
        geometry_parsed(text@, r),
{
    let t = chars_of(text);
    if !starts_with_exec(&t, &chars_of("geometry")) {
        return Ok(None);
    }
    proof {
        reveal_strlit("geometry");
    }
    let n = t.len();
    let rest = trim(&crate::text::slice_of(&t, 8, n));
    assert(t@.subrange(8, n as int) == text@.skip(8));
    let m = rest.len();
    if m == 0 {
        return Ok(Some(GeometryColumnType::Wkb));
    }
    if !(m >= 2 && rest[0] == '(' && rest[m - 1] == ')') {
        return Err(GeometryTypeError::Syntax);
    }
    let (kind, dims, more) = geometry_arguments_exec(&crate::text::slice_of(&rest, 1, m - 1));
    let dim = match &dims {
        Some(d) => {
            if is_word(d, "xyz") {
                Dimension::XYZ
            } else if is_word(d, "xy") {
                Dimension::XY
            } else {
                return Err(GeometryTypeError::UnknownDimensions(string_of(d)));
            }
        },
        None => Dimension::XY,
    };
    if more {
        return Err(GeometryTypeError::TooManyArguments);
    }
    if is_word(&kind, "wkb") {
        return Ok(Some(GeometryColumnType::Wkb));
    }
    match shape_of_exec(&kind) {
        Some(k) => Ok(Some(GeometryColumnType::Native(k, dim))),
        None => Err(GeometryTypeError::UnknownKind(string_of(&kind))),
    }
}

/// The settings form of a geometry column's type.
pub open spec fn geometry_text(g: GeometryColumnType) -> Seq<char> {
    match g {
        GeometryColumnType::Wkb => "geometry"@,
        GeometryColumnType::Native(k, d) => "geometry("@ + shape_name(k) + (if d == Dimension::XY {
            Seq::empty()
        } else {
            ", "@ + dimension_name(d)
        }) + ")"@,
    }
}

fn shape_str(k: GeometryShape) -> (r: &'static str)
    ensures
        r@ == shape_name(k),
{
    match k {
        GeometryShape::Point => "Point",
        GeometryShape::LineString => "LineString",
        GeometryShape::Polygon => "Polygon",
        GeometryShape::MultiPoint => "MultiPoint",
        GeometryShape::MultiLineString => "MultiLineString",
        GeometryShape::MultiPolygon => "MultiPolygon",
        GeometryShape::Box => "Box",
    }
}

fn dimension_str(d: Dimension) -> (r: &'static str)
    ensures
        r@ == dimension_name(d),
{
    match d {
        Dimension::XY => "XY",
        Dimension::XYZ => "XYZ",
        Dimension::XYM => "XYM",
        Dimension::XYZM => "XYZM",
    }
}

/// The settings form of a geometry column's type: `geometry` for WKB,
/// `geometry(Point)`, `geometry(MultiPolygon, XYZ)`.
pub fn geometry_string(g: GeometryColumnType) -> (r: String)
    ensures
        r@ == geometry_text(g),
{
    match g {
        GeometryColumnType::Wkb => owned("geometry"),
        GeometryColumnType::Native(k, d) => {
            let mut out = owned("geometry(");
            append(&mut out, shape_str(k));
            let ghost middle = out@;
            match d {
                Dimension::XY => {
                    assert(out@ == middle + Seq::<char>::empty());
                },
                _ => {
                    append(&mut out, ", ");
                    append(&mut out, dimension_str(d));
                    assert(out@ == middle + (", "@ + dimension_name(d)));
                },
            }
            append(&mut out, ")");
            out
        },
    }
}

proof fn lemma_lower_concat(a: Seq<char>, b: Seq<char>)
    ensures
        ascii_lower(a + b) == ascii_lower(a) + ascii_lower(b),
{
    assert(ascii_lower(a + b) =~= ascii_lower(a) + ascii_lower(b));
}

/// A text without white space at either end is its own trim.
proof fn lemma_trim_keeps(s: Seq<char>)
    requires
        s.len() > 0,
        !is_white_space(s[0]),
        !is_white_space(s.last()),
    ensures
        trimmed(s) == s,
{
    assert(white_prefix_end(s, 0) == 0);
    assert(white_suffix_start(s, s.len() as int) == s.len());
    assert(s.subrange(0, s.len() as int) =~= s);
}

/// The lower-case letters `a` to `z`.
pub open spec fn lower_letters(s: Seq<char>) -> bool {
    forall|i: int| 0 <= i < s.len() ==> 'a' <= #[trigger] s[i] <= 'z'
}

/// What the round trip needs of a shape's two names.
proof fn lemma_shape_words(k: GeometryShape)
    ensures
        ascii_lower(shape_name(k)) == shape_word(k),
        shape_word(k).len() > 0,
        lower_letters(shape_word(k)),
        shape_of(shape_word(k)) == Some(k),
        shape_word(k) != "wkb"@,
{
    reveal_strlit("point");
    reveal_strlit("linestring");
    reveal_strlit("polygon");
    reveal_strlit("multipoint");
    reveal_strlit("multilinestring");
    reveal_strlit("multipolygon");
    reveal_strlit("box");
    reveal_strlit("wkb");
    reveal_strlit("Point");
    reveal_strlit("LineString");
    reveal_strlit("Polygon");
    reveal_strlit("MultiPoint");
    reveal_strlit("MultiLineString");
    reveal_strlit("MultiPolygon");
    reveal_strlit("Box");
    assert(ascii_lower(shape_name(k)) =~= shape_word(k));
    match k {
        GeometryShape::Point => {
            assert("point"@.len() != "wkb"@.len());
        },
        GeometryShape::LineString => {
            assert("linestring"@.len() != "point"@.len());
            assert("linestring"@.len() != "wkb"@.len());
        },
        GeometryShape::Polygon => {
            assert("polygon"@.len() != "point"@.len());
            assert("polygon"@.len() != "linestring"@.len());
            assert("polygon"@.len() != "wkb"@.len());
        },
        GeometryShape::MultiPoint => {
            assert("multipoint"@[0] != "linestring"@[0]);
            assert("multipoint"@.len() != "point"@.len());
            assert("multipoint"@.len() != "polygon"@.len());
            assert("multipoint"@.len() != "wkb"@.len());
        },
        GeometryShape::MultiLineString => {
            assert("multilinestring"@.len() != "point"@.len());
            assert("multilinestring"@.len() != "linestring"@.len());
            assert("multilinestring"@.len() != "polygon"@.len());
            assert("multilinestring"@.len() != "multipoint"@.len());
            assert("multilinestring"@.len() != "wkb"@.len());
        },
        GeometryShape::MultiPolygon => {
            assert("multipolygon"@.len() != "point"@.len());
            assert("multipolygon"@.len() != "linestring"@.len());
            assert("multipolygon"@.len() != "polygon"@.len());
            assert("multipolygon"@.len() != "multipoint"@.len());
            assert("multipolygon"@.len() != "multilinestring"@.len());
            assert("multipolygon"@.len() != "wkb"@.len());
        },
        GeometryShape::Box => {
            assert("box"@.len() != "point"@.len());
            assert("box"@.len() != "linestring"@.len());
            assert("box"@.len() != "polygon"@.len());
            assert("box"@.len() != "multipoint"@.len());
            assert("box"@.len() != "multilinestring"@.len());
            assert("box"@.len() != "multipolygon"@.len());
            assert("box"@[0] != "wkb"@[0]);
        },
    }
}

/// The lower-case dimensions a native type's settings form ends with.
pub open spec fn lower_dims(d: Dimension) -> Seq<char> {
    if d == Dimension::XY {
        Seq::empty()
    } else {
        ", xyz"@
    }
}

proof fn lemma_native_text_lowered(k: GeometryShape, d: Dimension)
    requires
        d == Dimension::XY || d == Dimension::XYZ,
    ensures
        ascii_lower(geometry_text(GeometryColumnType::Native(k, d))) == "geometry("@ + shape_word(k) + lower_dims(d)
            + ")"@,
{
    reveal_strlit("geometry(");
    reveal_strlit(")");
    reveal_strlit(", ");
    reveal_strlit("XYZ");
    reveal_strlit(", xyz");
    lemma_shape_words(k);
    let tail: Seq<char> = if d == Dimension::XY {
        Seq::empty()
    } else {
        ", "@ + dimension_name(d)
    };
    assert(ascii_lower(tail) =~= lower_dims(d));
    assert(ascii_lower("geometry("@) =~= "geometry("@);
    assert(ascii_lower(")"@) =~= ")"@);
    lemma_lower_concat("geometry("@, shape_name(k));
    lemma_lower_concat("geometry("@ + shape_name(k), tail);
    lemma_lower_concat("geometry("@ + shape_name(k) + tail, ")"@);
}

/// The arguments of a native type's lower-case settings form.
proof fn lemma_native_arguments(k: GeometryShape, d: Dimension)
    requires
        d == Dimension::XY || d == Dimension::XYZ,
    ensures
        geometry_arguments(shape_word(k) + lower_dims(d)) == (shape_word(k), if d == Dimension::XY {
            None
        } else {
            Some("xyz"@)
        }, false),
{
    lemma_shape_words(k);
    let w = shape_word(k);
    let inner = w + lower_dims(d);
    assert(!is_white_space(w[0]) && !is_white_space(w.last()));
    lemma_trim_keeps(w);
    reveal_strlit(", xyz");
    if d == Dimension::XY {
        assert(inner =~= w);
        assert(first_index_of(inner, ',') is None) by {
            if exists|i: int| 0 <= i < inner.len() && inner[i] == ',' {
                let i = choose|i: int| 0 <= i < inner.len() && inner[i] == ',';
                assert('a' <= w[i] <= 'z');
            }
        }
    } else {
        assert(inner[w.len() as int] == ',');
        assert(first_index_of(inner, ',') == Some(w.len() as int)) by {
            let i = first_index_of(inner, ',')->0;
            assert(0 <= i < inner.len() && inner[i] == ',');
            if i < w.len() {
                assert(inner[i] == w[i]);
            }
        }
        assert(inner.take(w.len() as int) =~= w);
        let dims = inner.skip(w.len() as int + 1);
        reveal_strlit(" xyz");
        reveal_strlit("xyz");
        assert(dims =~= " xyz"@);
        assert(first_index_of(dims, ',') is None) by {
            if exists|i: int| 0 <= i < dims.len() && dims[i] == ',' {
                let i = choose|i: int| 0 <= i < dims.len() && dims[i] == ',';
                assert(0 <= i < 4);
            }
        }
        assert(white_prefix_end(dims, 1) == 1);
        assert(white_prefix_end(dims, 0) == 1);
        assert(white_suffix_start(dims, 4) == 4);
        assert(trimmed(dims) =~= "xyz"@);
    }
}

/// The lower-case settings form of a native type: `geometry`, then its
/// arguments in brackets.
proof fn lemma_native_text_shape(w: Seq<char>, dims: Seq<char>)
    ensures
        starts_with("geometry("@ + w + dims + ")"@, "geometry"@),
        trimmed(("geometry("@ + w + dims + ")"@).skip(8)) == "("@ + w + dims + ")"@,
        ("("@ + w + dims + ")"@).len() >= 2,
        ("("@ + w + dims + ")"@)[0] == '(',
        ("("@ + w + dims + ")"@).last() == ')',
        ("("@ + w + dims + ")"@).subrange(1, ("("@ + w + dims + ")"@).len() - 1) == w + dims,
{
    reveal_strlit("geometry(");
    reveal_strlit("geometry");
    reveal_strlit(")");
    reveal_strlit("(");
    let text = "geometry("@ + w + dims + ")"@;
    let rest = "("@ + w + dims + ")"@;
    assert(text.subrange(0, 8) =~= "geometry"@);
    assert(text.skip(8) =~= rest);
    lemma_trim_keeps(rest);
    assert(rest.subrange(1, rest.len() - 1) =~= w + dims);
}

proof fn lemma_native_reads_back(k: GeometryShape, d: Dimension, r: Result<Option<GeometryColumnType>, GeometryTypeError>)
    requires
        d == Dimension::XY || d == Dimension::XYZ,
        geometry_parsed("geometry("@ + shape_word(k) + lower_dims(d) + ")"@, r),
    ensures
        r == Ok::<Option<GeometryColumnType>, GeometryTypeError>(Some(GeometryColumnType::Native(k, d))),
{
    lemma_native_text_shape(shape_word(k), lower_dims(d));
    lemma_native_arguments(k, d);
    lemma_shape_words(k);
    reveal_strlit("xyz");
    reveal_strlit("xy");
    assert("xyz"@.len() != "xy"@.len());
}

/// The settings form of a geometry column's type reads back as that type,
/// for WKB and for XY or XYZ dimensions (the forms a type string can
/// write): the scan writes what the parse reads.
pub proof fn lemma_geometry_text_reads_back(
    g: GeometryColumnType,
    r: Result<Option<GeometryColumnType>, GeometryTypeError>,
)
    requires
        g matches GeometryColumnType::Native(_, d) ==> (d == Dimension::XY || d == Dimension::XYZ),
        geometry_parsed(ascii_lower(geometry_text(g)), r),
    ensures
        r == Ok::<Option<GeometryColumnType>, GeometryTypeError>(Some(g)),
{
    match g {
        GeometryColumnType::Wkb => {
            reveal_strlit("geometry");
            assert(ascii_lower("geometry"@) =~= "geometry"@);
            assert("geometry"@.subrange(0, 8) =~= "geometry"@);
            assert("geometry"@.skip(8) =~= Seq::<char>::empty());
            assert(trimmed(Seq::<char>::empty()) =~= Seq::<char>::empty());
        },
        GeometryColumnType::Native(k, d) => {
            lemma_native_text_lowered(k, d);
            lemma_native_reads_back(k, d, r);
        },
    }
}

/// The words of `s[i..]` joined by single spaces: white space runs become
/// one space between words and vanish at the ends. `pending`: a space is due
/// before the next word.
pub open spec fn collapse_spaces(s: Seq<char>, i: int, started: bool, pending: bool) -> Seq<char>
    decreases s.len() - i,
{
    if i < 0 || i >= s.len() {
        Seq::empty()
    } else if is_white_space(s[i]) {
        collapse_spaces(s, i + 1, started, started)
    } else {
        (if pending {
            seq![' ']
        } else {
            Seq::empty()
        }) + seq![s[i]] + collapse_spaces(s, i + 1, true, false)
    }
}

/// A type string as it is compared: its words joined by single spaces, in
/// lower case.
pub open spec fn normalized_type(s: Seq<char>) -> Seq<char> {
    ascii_lower(collapse_spaces(s, 0, false, false))
}

/// The words of a type string joined by single spaces, in lower case.
pub fn normalize_type(text: &str) -> (r: Vec<char>)
    ensures
        r@ == normalized_type(text@),
{
    let s = chars_of(text);
    let n = s.len();
    let mut out: Vec<char> = Vec::new();
    let mut started = false;
    let mut pending = false;
    let mut i: usize = 0;
    while i < n
        invariant
            i <= n == s@.len(),
            s@ == text@,
            out@ + collapse_spaces(s@, i as int, started, pending) == collapse_spaces(s@, 0, false, false),
        decreases n - i,
    {
        let c = s[i];
        if is_white_space_exec(c) {
            pending = started;
        } else {
            let ghost before = out@;
            if pending {
                out.push(' ');
            }
            out.push(c);
            assert(out@ == before + (if pending {
                seq![' ']
            } else {
                Seq::<char>::empty()
            }) + seq![c]);
            assert(before + ((if pending {
                seq![' ']
            } else {
                Seq::<char>::empty()
            }) + seq![c] + collapse_spaces(s@, i + 1, true, false)) =~= out@ + collapse_spaces(s@, i + 1, true, false));
            started = true;
            pending = false;
        }
        i = i + 1;
    }
    assert(collapse_spaces(s@, n as int, started, pending) == Seq::<char>::empty());
    assert(out@ =~= collapse_spaces(s@, 0, false, false));
    to_ascii_lower(&out)
}

/// How a type string is read: a list of the type before `[]`, a geometry
/// type, an alias, or an Arrow type string for Arrow's own parser.
#[derive(Debug, Clone, PartialEq, Eq)]
pub enum TypeSyntax {
    List(String),
    Geometry(GeometryColumnType),
    Alias(AliasedType),
    Arrow(String),
}

/// Why a type string is refused.
#[derive(Debug, Clone, PartialEq, Eq)]
pub enum TypeError {
    /// There is no numeric or decimal type: double (lossless by value) or
    /// text are what to use.
    NumericOrDecimal,
    Geometry(GeometryTypeError),
}

impl TypeError {
    pub fn message(&self) -> (r: String)
        ensures
            r@ == match *self {
                TypeError::NumericOrDecimal => "there is no numeric or decimal type: use double (lossless by value) or text"@,
                TypeError::Geometry(e) => geometry_error_text(e),
            },
    {
        match self {
            TypeError::NumericOrDecimal => owned(
                "there is no numeric or decimal type: use double (lossless by value) or text",
            ),
            TypeError::Geometry(e) => e.message(),
        }
    }
}

/// `text` read as a type string gives `r`. `numeric` and `decimal` are
/// refused; `[]` at the end (white space around the string aside) makes a
/// list; then the lower-case, single-spaced form is tried as a geometry type
/// and as an alias; anything else is left to Arrow's parser, trimmed.
pub open spec fn type_syntax(text: Seq<char>, r: Result<TypeSyntax, TypeError>) -> bool {
    let n = normalized_type(text);
    let t = trimmed(text);
    if starts_with(n, "numeric"@) || starts_with(n, "decimal"@) {
        r == Err::<TypeSyntax, TypeError>(TypeError::NumericOrDecimal)
    } else if ends_with(t, "[]"@) {
        r matches Ok(TypeSyntax::List(item)) && item@ == t.take(t.len() - 2)
    } else {
        exists|g: Result<Option<GeometryColumnType>, GeometryTypeError>|
            #![trigger geometry_parsed(n, g)]
            geometry_parsed(n, g) && match g {
                Err(e) => r == Err::<TypeSyntax, TypeError>(TypeError::Geometry(e)),
                Ok(Some(geometry)) => r == Ok::<TypeSyntax, TypeError>(TypeSyntax::Geometry(geometry)),
                Ok(None) => match alias_type(n) {
                    Some(a) => r == Ok::<TypeSyntax, TypeError>(TypeSyntax::Alias(a)),
                    None => r matches Ok(TypeSyntax::Arrow(s)) && s@ == t,
                },
            }
    }
}

/// How a type string of a settings file is read.
pub fn classify_type(text: &str) -> (r: Result<TypeSyntax, TypeError>)
    ensures
        type_syntax(text@, r),
{
    let n = normalize_type(text);
    if starts_with_exec(&n, &chars_of("numeric")) || starts_with_exec(&n, &chars_of("decimal")) {
        return Err(TypeError::NumericOrDecimal);
    }
    let t = trim(&chars_of(text));
    if ends_with_exec(&t, &chars_of("[]")) {
        proof {
            reveal_strlit("[]");
        }
        let m = t.len();
        assert(t@.take(m - 2) == t@.subrange(0, m - 2));
        return Ok(TypeSyntax::List(string_from(&t, 0, m - 2)));
    }
    let normalized = string_of(&n);
    let g = parse_geometry(normalized.as_str());
    match g {
        Err(e) => Err(TypeError::Geometry(e)),
        Ok(Some(geometry)) => Ok(TypeSyntax::Geometry(geometry)),
        Ok(None) => match alias(normalized.as_str()) {
            Some(a) => Ok(TypeSyntax::Alias(a)),
            None => Ok(TypeSyntax::Arrow(string_of(&t))),
        },
    }
}

} // verus!
