//! The inputs of a scan or a read, and how paths, directories and globs
//! expand into them.

use vstd::prelude::*;

use crate::archive::{member_path_parts, split_member_path};
use crate::glob::{check_glob, glob_error, glob_match, glob_matches, glob_sized};
use crate::text::{
    append, ascii_lower, chars_of, contains, contains_exec, ends_with, ends_with_exec, first_occurrence_from,
    lemma_first_occurrence, occurs_at, owned, starts_with, starts_with_exec, string_from, to_ascii_lower,
};

verus! {

/// An input to read: a byte source, by the name messages use (a path or a
/// URL), or one member of a local zip archive.
#[derive(Debug, Clone)]
pub enum Source {
    Stream(String),
    /// Member of a zip archive. Archives must be local files.
    ZipMember { archive: String, member: String },
}

/// The name messages use for a source: `archive!/member` for a member.
pub open spec fn source_name(s: Source) -> Seq<char> {
    match s {
        Source::Stream(name) => name@,
        Source::ZipMember { archive, member } => archive@ + "!/"@ + member@,
    }
}

/// The source a path names: `archive.zip!/member` is one zip member, any
/// other path a file.
pub open spec fn file_source(path: Seq<char>, r: Source) -> bool {
    match member_path_parts(path) {
        Some((a, m)) => r matches Source::ZipMember { archive, member } && archive@ == a && member@ == m,
        None => r matches Source::Stream(name) && name@ == path,
    }
}

impl Source {
    /// A local file, or `archive.zip!/member` for one zip member. Whether the
    /// file exists is for whoever opens it; a zip member is not looked for
    /// until it is opened.
    pub fn file(path: &str) -> (r: Source)
        ensures
            file_source(path@, r),
    {
        match split_member_path(path) {
            Some((archive, member)) => Source::ZipMember { archive, member },
            None => Source::Stream(owned(path)),
        }
    }

    /// A one-shot reader such as stdin, by its name.
    pub fn reader(name: &str) -> (r: Source)
        ensures
            r matches Source::Stream(n) && n@ == name@,
    {
        Source::Stream(owned(name))
    }

    pub fn name(&self) -> (r: String)
        ensures
            r@ == source_name(*self),
    {
        match self {
            Source::Stream(name) => owned(name.as_str()),
            Source::ZipMember { archive, member } => {
                let mut out = owned(archive.as_str());
                append(&mut out, "!/");
                append(&mut out, member.as_str());
                out
            },
        }
    }
}

/// A path read as a source is named by that path again.
pub proof fn lemma_file_source_keeps_the_name(path: Seq<char>, s: Source)
    requires
        file_source(path, s),
    ensures
        source_name(s) == path,
{
    reveal_strlit("!/");
    lemma_first_occurrence(path, "!/"@, 0);
    match member_path_parts(path) {
        Some((a, m)) => {
            let i = first_occurrence_from(path, "!/"@, 0)->0;
            assert(occurs_at(path, "!/"@, i));
            assert(path.subrange(i, i + 2) == "!/"@);
            assert(path =~= path.take(i) + "!/"@ + path.skip(i + 2));
        },
        None => {},
    }
}

/// `name`, in any case, ends with one of `suffixes`.
pub open spec fn has_suffix_spec(name: Seq<char>, suffixes: Seq<&str>) -> bool {
    exists|i: int| 0 <= i < suffixes.len() && ends_with(ascii_lower(name), (#[trigger] suffixes[i])@)
}

/// A file name ends with one of `suffixes` (lower case), in any case.
pub fn has_suffix(file_name: &str, suffixes: &[&str]) -> (r: bool)
    ensures
        r == has_suffix_spec(file_name@, suffixes@),
{
    let lower = to_ascii_lower(&chars_of(file_name));
    let mut i: usize = 0;
    while i < suffixes.len()
        invariant
            i <= suffixes@.len(),
            lower@ == ascii_lower(file_name@),
            forall|j: int| 0 <= j < i ==> !ends_with(ascii_lower(file_name@), (#[trigger] suffixes@[j])@),
        decreases suffixes.len() - i,
    {
        if ends_with_exec(&lower, &chars_of(suffixes[i])) {
            assert(ends_with(ascii_lower(file_name@), suffixes@[i as int]@));
            return true;
        }
        i = i + 1;
    }
    false
}

/// File names picked up from directories, in any case; zip archives are
/// expanded into their members.
pub open spec fn directory_file(name: Seq<char>) -> bool {
    let lower = ascii_lower(name);
    ends_with(lower, ".gml"@) || ends_with(lower, ".xml"@) || ends_with(lower, ".gml.gz"@) || ends_with(
        lower,
        ".xml.gz"@,
    ) || ends_with(lower, ".gml.zst"@) || ends_with(lower, ".xml.zst"@) || ends_with(lower, ".zip"@)
}

pub fn is_directory_file(file_name: &str) -> (r: bool)
    ensures
        r == directory_file(file_name@),
{
    let lower = to_ascii_lower(&chars_of(file_name));
    ends_with_exec(&lower, &chars_of(".gml")) || ends_with_exec(&lower, &chars_of(".xml")) || ends_with_exec(
        &lower,
        &chars_of(".gml.gz"),
    ) || ends_with_exec(&lower, &chars_of(".xml.gz")) || ends_with_exec(&lower, &chars_of(".gml.zst"))
        || ends_with_exec(&lower, &chars_of(".xml.zst")) || ends_with_exec(&lower, &chars_of(".zip"))
}

/// A zip archive, by its file name in any case.
pub open spec fn zip_file(name: Seq<char>) -> bool {
    ends_with(ascii_lower(name), ".zip"@)
}

pub fn is_zip_file(file_name: &str) -> (r: bool)
    ensures
        r == zip_file(file_name@),
{
    ends_with_exec(&to_ascii_lower(&chars_of(file_name)), &chars_of(".zip"))
}

/// A glob character: `*`, `?`, `[` or `{`.
pub open spec fn glob_char(c: char) -> bool {
    c == '*' || c == '?' || c == '[' || c == '{'
}

pub open spec fn is_glob_spec(input: Seq<char>) -> bool {
    exists|i: int| 0 <= i < input.len() && glob_char(#[trigger] input[i])
}

pub fn is_glob(input: &str) -> (r: bool)
    ensures
        r == is_glob_spec(input@),
{
    let chars = chars_of(input);
    let mut i: usize = 0;
    while i < chars.len()
        invariant
            i <= chars@.len(),
            chars@ == input@,
            forall|j: int| 0 <= j < i ==> !glob_char(#[trigger] chars@[j]),
        decreases chars.len() - i,
    {
        let c = chars[i];
        if c == '*' || c == '?' || c == '[' || c == '{' {
            assert(glob_char(chars@[i as int]));
            return true;
        }
        i = i + 1;
    }
    false
}

/// What an input of a scan or a read is.
#[derive(Debug, Clone, Copy, PartialEq, Eq, Structural)]
pub enum InputKind {
    /// A URL of a zip archive: archives must be downloaded first.
    RemoteArchive,
    /// Any other URL, resolved elsewhere.
    Remote,
    /// `archive.zip!/member`.
    Member,
    /// A directory, walked for GML files.
    Directory,
    /// A glob that names no existing file.
    Glob,
    /// A file (a zip archive expands into its members).
    File,
}

pub open spec fn input_kind(input: Seq<char>, is_dir: bool, exists: bool) -> InputKind {
    if contains(input, "://"@) {
        let lower = ascii_lower(input);
        if contains(lower, ".zip!/"@) || ends_with(lower, ".zip"@) {
            InputKind::RemoteArchive
        } else {
            InputKind::Remote
        }
    } else if member_path_parts(input) is Some {
        InputKind::Member
    } else if is_dir {
        InputKind::Directory
    } else if !exists && is_glob_spec(input) {
        InputKind::Glob
    } else {
        InputKind::File
    }
}

/// How an input is expanded, given whether it names a directory and whether
/// it exists.
pub fn classify_input(input: &str, is_dir: bool, exists: bool) -> (r: InputKind)
    ensures
        r == input_kind(input@, is_dir, exists),
{
    let chars = chars_of(input);
    if contains_exec(&chars, &chars_of("://")) {
        let lower = to_ascii_lower(&chars);
        if contains_exec(&lower, &chars_of(".zip!/")) || ends_with_exec(&lower, &chars_of(".zip")) {
            InputKind::RemoteArchive
        } else {
            InputKind::Remote
        }
    } else if split_member_path(input).is_some() {
        InputKind::Member
    } else if is_dir {
        InputKind::Directory
    } else if !exists && is_glob(input) {
        InputKind::Glob
    } else {
        InputKind::File
    }
}

/// Where the files a glob may match are looked for.
#[derive(Debug, Clone)]
pub struct GlobPlan {
    /// The directory walked: the pattern's longest literal directory prefix.
    pub base: String,
    /// Levels of subdirectories walked; `None` for any depth (`**`).
    pub depth: Option<usize>,
    /// The base is the current directory without the pattern saying `./`:
    /// files are matched without their leading `./`.
    pub relative_base: bool,
}

/// The index of the first glob character, or the length.
pub open spec fn literal_end(p: Seq<char>) -> int
    decreases p.len(),
{
    if p.len() == 0 {
        0
    } else if glob_char(p.last()) && !is_glob_spec(p.drop_last()) {
        p.len() - 1
    } else if is_glob_spec(p.drop_last()) {
        literal_end(p.drop_last())
    } else {
        p.len() as int
    }
}

/// The last `/` among the first `n` characters.
pub open spec fn last_slash_before(p: Seq<char>, n: int) -> Option<int>
    decreases n,
{
    if n <= 0 {
        None
    } else if p[n - 1] == '/' {
        Some(n - 1)
    } else {
        last_slash_before(p, n - 1)
    }
}

/// The `/` characters of `s`.
pub open spec fn slash_count(s: Seq<char>) -> nat
    decreases s.len(),
{
    if s.len() == 0 {
        0
    } else {
        slash_count(s.drop_last()) + if s.last() == '/' {
            1nat
        } else {
            0nat
        }
    }
}

/// The base directory, what follows it, the depth and whether the base is
/// implied, for a glob pattern.
pub open spec fn glob_plan_spec(p: Seq<char>) -> (Seq<char>, Option<nat>, bool) {
    let slash = last_slash_before(p, literal_end(p));
    let (base, rest) = match slash {
        Some(s) => if s == 0 {
            ("/"@, p.skip(1))
        } else {
            (p.take(s), p.skip(s + 1))
        },
        None => ("."@, p),
    };
    let depth = if contains(rest, "**"@) {
        None
    } else {
        Some(slash_count(rest))
    };
    (base, depth, slash is None && !starts_with(p, "./"@))
}

/// The first glob character's index, or the length.
fn literal_end_exec(p: &[char]) -> (r: usize)
    ensures
        r == literal_end(p@),
        r <= p@.len(),
        forall|j: int| 0 <= j < r ==> !glob_char(#[trigger] p@[j]),
{
    let mut i: usize = 0;
    while i < p.len()
        invariant
            i <= p@.len(),
            forall|j: int| 0 <= j < i ==> !glob_char(#[trigger] p@[j]),
        decreases p.len() - i,
    {
        let c = p[i];
        if c == '*' || c == '?' || c == '[' || c == '{' {
            proof {
                lemma_literal_end(p@, i as int);
            }
            return i;
        }
        i = i + 1;
    }
    proof {
        lemma_literal_end_none(p@);
    }
    p.len()
}

proof fn lemma_literal_end(p: Seq<char>, i: int)
    requires
        0 <= i < p.len(),
        glob_char(p[i]),
        forall|j: int| 0 <= j < i ==> !glob_char(#[trigger] p[j]),
    ensures
        literal_end(p) == i,
    decreases p.len(),
{
    if i == p.len() - 1 {
        assert(!is_glob_spec(p.drop_last())) by {
            assert forall|j: int| 0 <= j < p.drop_last().len() implies !glob_char(#[trigger] p.drop_last()[j]) by {
                assert(p.drop_last()[j] == p[j]);
            }
        }
    } else {
        assert(glob_char(p.drop_last()[i]));
        assert(is_glob_spec(p.drop_last()));
        assert forall|j: int| 0 <= j < i implies !glob_char(#[trigger] p.drop_last()[j]) by {
            assert(p.drop_last()[j] == p[j]);
        }
        lemma_literal_end(p.drop_last(), i);
    }
}

proof fn lemma_literal_end_none(p: Seq<char>)
    requires
        forall|j: int| 0 <= j < p.len() ==> !glob_char(#[trigger] p[j]),
    ensures
        literal_end(p) == p.len(),
{
    if p.len() > 0 {
        assert(!glob_char(p.last()));
        assert(!is_glob_spec(p.drop_last())) by {
            assert forall|j: int| 0 <= j < p.drop_last().len() implies !glob_char(#[trigger] p.drop_last()[j]) by {
                assert(p.drop_last()[j] == p[j]);
            }
        }
    }
}

/// Where to look for the files a glob pattern may match.
pub fn glob_plan(pattern: &str) -> (r: GlobPlan)
    ensures
        (r.base@, match r.depth {
            Some(d) => Some(d as nat),
            None => None,
        }, r.relative_base) == glob_plan_spec(pattern@),
{
    let p = chars_of(pattern);
    let end = literal_end_exec(&p);
    let mut k: usize = end;
    while k > 0 && p[k - 1] != '/'
        invariant
            k <= end <= p@.len(),
            last_slash_before(p@, k as int) == last_slash_before(p@, end as int),
        decreases k,
    {
        k = k - 1;
    }
    let n = p.len();
    let (base, rest) = if k == 0 {
        assert(last_slash_before(p@, 0) is None);
        (owned("."), string_from(&p, 0, n))
    } else if k == 1 {
        (owned("/"), string_from(&p, 1, n))
    } else {
        (string_from(&p, 0, k - 1), string_from(&p, k, n))
    };
    assert(p@.skip(1) == p@.subrange(1, n as int));
    assert(p@.skip(k as int) == p@.subrange(k as int, n as int));
    assert(p@.take(k - 1) == p@.subrange(0, k - 1));
    assert(p@.subrange(0, n as int) == p@);
    let rest_chars = chars_of(rest.as_str());
    let depth = if contains_exec(&rest_chars, &chars_of("**")) {
        None
    } else {
        Some(count_slashes(&rest_chars))
    };
    let relative_base = k == 0 && !starts_with_exec(&p, &chars_of("./"));
    proof {
        reveal_strlit(".");
        reveal_strlit("/");
    }
    GlobPlan { base, depth, relative_base }
}

fn count_slashes(s: &[char]) -> (r: usize)
    ensures
        r == slash_count(s@),
{
    let mut n: usize = 0;
    let mut i: usize = 0;
    while i < s.len()
        invariant
            i <= s@.len(),
            n == slash_count(s@.take(i as int)),
            n <= i,
        decreases s.len() - i,
    {
        assert(s@.take(i + 1).drop_last() == s@.take(i as int));
        if s[i] == '/' {
            n = n + 1;
        }
        i = i + 1;
    }
    assert(s@.take(s@.len() as int) == s@);
    n
}

/// A walked file as a glob sees it: without the leading `./` where the base
/// is implied.
pub open spec fn as_matched(file: Seq<char>, relative_base: bool) -> Seq<char> {
    if relative_base && starts_with(file, "./"@) {
        file.skip(2)
    } else {
        file
    }
}

/// The files among the first `n` that the pattern matches, in order.
pub open spec fn matched_files(pattern: Seq<char>, files: Seq<String>, relative_base: bool, n: int) -> Seq<Seq<char>>
    decreases n,
{
    if n <= 0 {
        Seq::empty()
    } else if glob_matches(pattern, as_matched(files[n - 1]@, relative_base)) {
        matched_files(pattern, files, relative_base, n - 1).push(files[n - 1]@)
    } else {
        matched_files(pattern, files, relative_base, n - 1)
    }
}

/// The walked files that a glob matches, in the order given; `Err` with the
/// parser's message for a pattern that does not parse.
pub fn glob_files(pattern: &str, files: &[String], relative_base: bool) -> (r: Result<Vec<String>, String>)
    requires
        glob_sized(pattern@),
    ensures
        match r {
            Ok(kept) => glob_error(pattern@) is None && kept@.map_values(|f: String| f@) == matched_files(
                pattern@,
                files@,
                relative_base,
                files@.len() as int,
            ),
            Err(message) => glob_error(pattern@) == Some(message@),
        },
{
    match check_glob(pattern) {
        Some(message) => return Err(message),
        None => {},
    }
    let mut kept: Vec<String> = Vec::new();
    let mut i: usize = 0;
    while i < files.len()
        invariant
            i <= files@.len(),
            glob_error(pattern@) is None,
            glob_sized(pattern@),
            kept@.map_values(|f: String| f@) == matched_files(pattern@, files@, relative_base, i as int),
        decreases files.len() - i,
    {
        let file = chars_of(files[i].as_str());
        let n = file.len();
        proof {
            reveal_strlit("./");
        }
        let seen = if relative_base && starts_with_exec(&file, &chars_of("./")) {
            assert(file@.skip(2) == file@.subrange(2, n as int));
            string_from(&file, 2, n)
        } else {
            owned(files[i].as_str())
        };
        assert(seen@ == as_matched(files@[i as int]@, relative_base));
        let ghost before = kept@;
        if glob_match(pattern, seen.as_str()) {
            kept.push(owned(files[i].as_str()));
            assert(kept@.map_values(|f: String| f@) =~= before.map_values(|f: String| f@).push(files@[i as int]@));
        }
        i = i + 1;
    }
    Ok(kept)
}

} // verus!
