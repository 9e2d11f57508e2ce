//! Command-line arguments as values, and the decisions taken on them before
//! a scan or a read starts.

use vstd::prelude::*;

use crate::text::{ascii_lower, chars_eq, chars_of, ends_with, ends_with_exec, string_from, string_of, to_ascii_lower};
use crate::version::{trim, trimmed};

verus! {

/// Inference presets (`--preset`).
#[derive(Debug, Clone, Copy, PartialEq, Eq, Structural)]
pub enum Preset {
    Default,
    Strings,
}

/// `--axis-order`.
#[derive(Debug, Clone, Copy, PartialEq, Eq, Structural)]
pub enum AxisMode {
    /// x/y as written.
    XY,
    /// y/x: swap the first two ordinates.
    YX,
    /// The CRS's axis order, for every srsName form.
    Crs,
    /// Short/legacy srsName → x/y, URN/URI → CRS order (GDAL's default).
    CrsHeuristic,
    /// GML 2-style geometry elements x/y, GML 3-style by the CRS.
    GmlVersion,
    /// Evidence-based (default).
    Auto,
}

/// `--format`.
#[derive(Debug, Clone, Copy, PartialEq, Eq, Structural)]
pub enum OutputFormat {
    /// Parquet with GeoParquet 1.1 metadata and the native GEOMETRY type.
    Parquet,
    Ipc,
}

/// The inputs of a scan or a conversion.
#[derive(Debug, Clone)]
pub struct InputArgs {
    /// Files, directories, globs, local zip archives (`a.zip!/member`), `-`
    /// for stdin, or URLs.
    pub inputs: Vec<String>,
    /// Zip members to read (glob, repeatable).
    pub member: Vec<String>,
}

/// Where a conversion writes.
#[derive(Debug, Clone)]
pub struct OutputArgs {
    /// Layer (feature type) to convert. Required for `convert`.
    pub layer: Option<String>,
    pub output: String,
    pub format: OutputFormat,
}

/// The names `--preset` takes.
pub open spec fn preset_of(name: Seq<char>) -> Option<Preset> {
    if name == "default"@ {
        Some(Preset::Default)
    } else if name == "strings"@ {
        Some(Preset::Strings)
    } else {
        None
    }
}

impl Preset {
    /// The preset a name gives: `default` or `strings`, nothing else.
    pub fn from_name(name: &str) -> (r: Option<Preset>)
        ensures
            r == preset_of(name@),
    {
        let chars = chars_of(name);
        if is_name(&chars, "default") {
            Some(Preset::Default)
        } else if is_name(&chars, "strings") {
            Some(Preset::Strings)
        } else {
            None
        }
    }
}

/// The names `--axis-order` takes, in lower case.
pub open spec fn axis_mode_of(name: Seq<char>) -> Option<AxisMode> {
    if name == "xy"@ {
        Some(AxisMode::XY)
    } else if name == "yx"@ {
        Some(AxisMode::YX)
    } else if name == "crs"@ {
        Some(AxisMode::Crs)
    } else if name == "crs-heuristic"@ {
        Some(AxisMode::CrsHeuristic)
    } else if name == "gml-version"@ {
        Some(AxisMode::GmlVersion)
    } else if name == "auto"@ {
        Some(AxisMode::Auto)
    } else {
        None
    }
}

fn is_name(s: &[char], name: &str) -> (r: bool)
    ensures
        r == (s@ == name@),
{
    let n = chars_of(name);
    chars_eq(s, &n)
}

impl AxisMode {
    /// The mode a name gives; with `ignore_case`, ASCII letters match in either case.
    pub fn from_name(name: &str, ignore_case: bool) -> (r: Option<AxisMode>)
        ensures
            r == axis_mode_of(if ignore_case {
                ascii_lower(name@)
            } else {
                name@
            }),
    {
        let chars = chars_of(name);
        let s = if ignore_case {
            to_ascii_lower(&chars)
        } else {
            chars
        };
        if is_name(&s, "xy") {
            Some(AxisMode::XY)
        } else if is_name(&s, "yx") {
            Some(AxisMode::YX)
        } else if is_name(&s, "crs") {
            Some(AxisMode::Crs)
        } else if is_name(&s, "crs-heuristic") {
            Some(AxisMode::CrsHeuristic)
        } else if is_name(&s, "gml-version") {
            Some(AxisMode::GmlVersion)
        } else if is_name(&s, "auto") {
            Some(AxisMode::Auto)
        } else {
            None
        }
    }
}

/// Why an `--axis-override` was refused.
#[derive(Debug, Clone, Copy, PartialEq, Eq, Structural)]
pub enum AxisOverrideError {
    /// No `=`: expected srsName=mode, e.g. EPSG:4326=yx.
    NoSeparator,
    /// The srsName is empty.
    EmptySrsName,
    /// The mode must be xy, yx, crs, crs-heuristic, gml-version or auto.
    UnknownMode,
}

impl AxisOverrideError {
    /// What messages say after the option and its value.
    pub fn message(&self) -> (r: &'static str)
        ensures
            r@ == override_error_text(*self),
    {
        match self {
            AxisOverrideError::NoSeparator => "expected srsName=mode, e.g. EPSG:4326=yx",
            AxisOverrideError::EmptySrsName => "the srsName is empty",
            AxisOverrideError::UnknownMode => "the mode must be xy, yx, crs, crs-heuristic, gml-version or auto",
        }
    }
}

/// The message of each refusal.
pub open spec fn override_error_text(e: AxisOverrideError) -> Seq<char> {
    match e {
        AxisOverrideError::NoSeparator => "expected srsName=mode, e.g. EPSG:4326=yx"@,
        AxisOverrideError::EmptySrsName => "the srsName is empty"@,
        AxisOverrideError::UnknownMode => "the mode must be xy, yx, crs, crs-heuristic, gml-version or auto"@,
    }
}

/// The last index of `c` in `s`.
pub open spec fn last_of(s: Seq<char>, c: char) -> Option<int> {
    crate::text::last_index_of(s, c)
}

/// `srsName=mode`: the srsName exactly as written, the mode after the last
/// `=` (so srsNames, URLs among them, may hold `=`), trimmed and in any case.
pub open spec fn axis_override_spec(text: Seq<char>) -> Result<(Seq<char>, AxisMode), AxisOverrideError> {
    match last_of(text, '=') {
        None => Err(AxisOverrideError::NoSeparator),
        Some(i) => if i == 0 {
            Err(AxisOverrideError::EmptySrsName)
        } else {
            match axis_mode_of(ascii_lower(trimmed(text.skip(i + 1)))) {
                Some(mode) => Ok((text.take(i), mode)),
                None => Err(AxisOverrideError::UnknownMode),
            }
        },
    }
}

/// One `--axis-override` value.
pub fn axis_override(text: &str) -> (r: Result<(String, AxisMode), AxisOverrideError>)
    ensures
        match (r, axis_override_spec(text@)) {
            (Ok((srs, mode)), Ok((s, m))) => srs@ == s && mode == m,
            (Err(e), Err(f)) => e == f,
            _ => false,
        },
{
    let chars = chars_of(text);
    match crate::text::last_index(&chars, '=') {
        None => Err(AxisOverrideError::NoSeparator),
        Some(i) => {
            if i == 0 {
                return Err(AxisOverrideError::EmptySrsName);
            }
            let n = chars.len();
            assert(i < n);
            let rest = string_from(&chars, i + 1, n);
            let rest_chars = chars_of(rest.as_str());
            assert(rest_chars@ == text@.skip(i + 1));
            let mode_text = trim(&rest_chars);
            let mode_name = string_of(&mode_text);
            match AxisMode::from_name(mode_name.as_str(), true) {
                Some(mode) => {
                    let srs = string_from(&chars, 0, i);
                    assert(chars@.subrange(0, i as int) == text@.take(i as int));
                    Ok((srs, mode))
                },
                None => Err(AxisOverrideError::UnknownMode),
            }
        },
    }
}

/// Brace depth after `s[..i]`: `{` opens, `}` closes.
pub open spec fn brace_depth(s: Seq<char>, i: int) -> int
    decreases i,
{
    if i <= 0 {
        0
    } else if s[i - 1] == '{' {
        brace_depth(s, i - 1) + 1
    } else if s[i - 1] == '}' {
        brace_depth(s, i - 1) - 1
    } else {
        brace_depth(s, i - 1)
    }
}

/// `s[i]` is an `=` outside braces.
pub open spec fn split_point(s: Seq<char>, i: int) -> bool {
    0 <= i < s.len() && s[i] == '=' && brace_depth(s, i) == 0
}

/// Where a `pattern=action` override splits: the last `=` outside braces,
/// so patterns may hold `{uri}`.
pub fn override_split(text: &str) -> (r: Option<usize>)
    ensures
        match r {
            Some(i) => split_point(text@, i as int) && forall|j: int| i < j < text@.len() ==> !split_point(text@, j),
            None => forall|j: int| 0 <= j < text@.len() ==> !split_point(text@, j),
        },
{
    let chars = chars_of(text);
    let mut depth: i128 = 0;
    let mut found: Option<usize> = None;
    let mut i: usize = 0;
    while i < chars.len()
        invariant
            i <= chars@.len(),
            chars@ == text@,
            depth == brace_depth(text@, i as int),
            i <= usize::MAX,
            -(i as int) <= depth <= i,
            match found {
                Some(k) => k < i && split_point(text@, k as int) && forall|j: int| k < j < i ==> !split_point(text@, j),
                None => forall|j: int| 0 <= j < i ==> !split_point(text@, j),
            },
        decreases chars.len() - i,
    {
        let c = chars[i];
        if c == '=' && depth == 0 {
            found = Some(i);
        }
        if c == '{' {
            depth = depth + 1;
        } else if c == '}' {
            depth = depth - 1;
        }
        i = i + 1;
    }
    found
}

/// The type names a settings file has accepted before their aliases existed.
pub open spec fn type_alias(text: Seq<char>) -> Seq<char> {
    let lower = ascii_lower(text);
    if lower == "utf8"@ || lower == "str"@ {
        "text"@
    } else if lower == "int64"@ || lower == "long"@ {
        "bigint"@
    } else if lower == "float64"@ || lower == "float"@ {
        "double"@
    } else {
        text
    }
}

/// A type as an override writes it, with its older names mapped to the current ones.
pub fn data_type_name(text: &str) -> (r: String)
    ensures
        r@ == type_alias(text@),
{
    let chars = chars_of(text);
    let lower = to_ascii_lower(&chars);
    if is_name(&lower, "utf8") || is_name(&lower, "str") {
        string_of(&chars_of("text"))
    } else if is_name(&lower, "int64") || is_name(&lower, "long") {
        string_of(&chars_of("bigint"))
    } else if is_name(&lower, "float64") || is_name(&lower, "float") {
        string_of(&chars_of("double"))
    } else {
        string_of(&chars)
    }
}

impl OutputArgs {
    /// The layer a conversion writes; a conversion without one is refused.
    pub fn required_layer(&self) -> (r: Result<String, String>)
        ensures
            match self.layer {
                Some(l) => r matches Ok(s) && s@ == l@,
                None => r matches Err(m) && m@ == "--layer is required: run `xeibe scan` to list the layers"@,
            },
    {
        match &self.layer {
            Some(l) => Ok(string_of(&chars_of(l.as_str()))),
            None => Err(string_of(&chars_of("--layer is required: run `xeibe scan` to list the layers"))),
        }
    }
}

/// An input read member by member with the `--member` globs: a local zip
/// archive (by its name, in any case) while globs were given.
pub fn reads_selected_members(input: &str, is_file: bool, member_globs: &[String]) -> (r: bool)
    ensures
        r == (ends_with(ascii_lower(input@), ".zip"@) && is_file && member_globs@.len() > 0),
{
    let lower = to_ascii_lower(&chars_of(input));
    ends_with_exec(&lower, &chars_of(".zip")) && is_file && member_globs.len() > 0
}

/// The worker count asked for, at least one.
pub fn worker_threads(threads: usize) -> (r: usize)
    ensures
        r == if threads < 1 {
            1
        } else {
            threads
        },
{
    if threads < 1 {
        1
    } else {
        threads
    }
}

/// What an override does with the fields its pattern matches.
#[derive(Debug, Clone, PartialEq, Eq)]
pub enum OverrideAction {
    Drop,
    AsRawXml,
    AsMap,
    List,
    Scalar,
    /// A column type, by the name a settings file uses for it.
    Type(String),
}

/// The action an override names, in any case: `drop`, `raw-xml` (or
/// `rawxml`, `xml`), `map`, `list`, `scalar`, or else a type.
pub open spec fn override_action_spec(action: Seq<char>, r: OverrideAction) -> bool {
    let lower = ascii_lower(action);
    if lower == "drop"@ {
        r == OverrideAction::Drop
    } else if lower == "raw-xml"@ || lower == "rawxml"@ || lower == "xml"@ {
        r == OverrideAction::AsRawXml
    } else if lower == "map"@ {
        r == OverrideAction::AsMap
    } else if lower == "list"@ {
        r == OverrideAction::List
    } else if lower == "scalar"@ {
        r == OverrideAction::Scalar
    } else {
        r matches OverrideAction::Type(t) && t@ == type_alias(action)
    }
}

/// `pattern=action` split at the last `=` outside braces: the pattern as
/// written and what it does; `None` without such an `=`.
pub fn parse_override(text: &str) -> (r: Option<(String, OverrideAction)>)
    ensures
        match r {
            Some((pattern, action)) => exists|i: int|
                #![trigger split_point(text@, i)]
                split_point(text@, i) && (forall|j: int| i < j < text@.len() ==> !split_point(text@, j))
                    && pattern@ == text@.take(i) && override_action_spec(text@.skip(i + 1), action),
            None => forall|j: int| 0 <= j < text@.len() ==> !split_point(text@, j),
        },
{
    let split = match override_split(text) {
        Some(i) => i,
        None => return None,
    };
    let chars = chars_of(text);
    let n = chars.len();
    let pattern = string_from(&chars, 0, split);
    let action_text = string_from(&chars, split + 1, n);
    assert(chars@.subrange(0, split as int) == text@.take(split as int));
    assert(chars@.subrange(split + 1, n as int) == text@.skip(split + 1));
    let lower = to_ascii_lower(&chars_of(action_text.as_str()));
    let action = if is_name(&lower, "drop") {
        OverrideAction::Drop
    } else if is_name(&lower, "raw-xml") || is_name(&lower, "rawxml") || is_name(&lower, "xml") {
        OverrideAction::AsRawXml
    } else if is_name(&lower, "map") {
        OverrideAction::AsMap
    } else if is_name(&lower, "list") {
        OverrideAction::List
    } else if is_name(&lower, "scalar") {
        OverrideAction::Scalar
    } else {
        OverrideAction::Type(data_type_name(action_text.as_str()))
    };
    assert(split_point(text@, split as int));
    Some((pattern, action))
}

/// The documented name of each `--axis-order` mode.
pub open spec fn axis_mode_name(m: AxisMode) -> Seq<char> {
    match m {
        AxisMode::XY => "xy"@,
        AxisMode::YX => "yx"@,
        AxisMode::Crs => "crs"@,
        AxisMode::CrsHeuristic => "crs-heuristic"@,
        AxisMode::GmlVersion => "gml-version"@,
        AxisMode::Auto => "auto"@,
    }
}

/// Each mode's documented name parses back to that mode, and a name that
/// parses names the mode it gives: `xy` is x/y as written, `yx` swaps them.
pub proof fn law_axis_mode_names(m: AxisMode, name: Seq<char>)
    ensures
        axis_mode_of(axis_mode_name(m)) == Some(m),
        axis_mode_of(name) == Some(m) ==> name == axis_mode_name(m),
{
    reveal_strlit("xy");
    reveal_strlit("yx");
    reveal_strlit("crs");
    reveal_strlit("crs-heuristic");
    reveal_strlit("gml-version");
    reveal_strlit("auto");
    assert("xy"@ != "yx"@ && "xy"@ != "crs"@ && "xy"@ != "crs-heuristic"@ && "xy"@ != "gml-version"@ && "xy"@ != "auto"@) by {
        assert("xy"@[0] != "yx"@[0] && "xy"@.len() != "crs"@.len() && "xy"@.len() != "crs-heuristic"@.len());
        assert("xy"@.len() != "gml-version"@.len() && "xy"@.len() != "auto"@.len());
    }
    assert("yx"@ != "crs"@ && "yx"@ != "crs-heuristic"@ && "yx"@ != "gml-version"@ && "yx"@ != "auto"@) by {
        assert("yx"@.len() != "crs"@.len() && "yx"@.len() != "crs-heuristic"@.len());
        assert("yx"@.len() != "gml-version"@.len() && "yx"@.len() != "auto"@.len());
    }
    assert("crs"@ != "crs-heuristic"@ && "crs"@ != "gml-version"@ && "crs"@ != "auto"@) by {
        assert("crs"@.len() != "crs-heuristic"@.len() && "crs"@.len() != "gml-version"@.len());
        assert("crs"@[0] != "auto"@[0]);
    }
    assert("crs-heuristic"@ != "gml-version"@ && "crs-heuristic"@ != "auto"@) by {
        assert("crs-heuristic"@.len() != "gml-version"@.len() && "crs-heuristic"@.len() != "auto"@.len());
    }
    assert("gml-version"@ != "auto"@) by {
        assert("gml-version"@.len() != "auto"@.len());
    }
}

/// An axis override `srs=name` gives the mode whose documented name is
/// `name`, the text after the last `=`, in any case and with white space
/// around it.
pub proof fn law_axis_override_mode(text: Seq<char>, m: AxisMode)
    requires
        axis_override_spec(text) matches Ok((_, mode)) && mode == m,
    ensures
        last_of(text, '=') is Some,
        ascii_lower(trimmed(text.skip(last_of(text, '=')->0 + 1))) == axis_mode_name(m),
{
    let i = last_of(text, '=')->0;
    law_axis_mode_names(m, ascii_lower(trimmed(text.skip(i + 1))));
}

} // verus!
