//! Zip archives: which members are read, and the `archive.zip!/member` form.
//!
//! Stored and deflate members are read; nested zips are not opened. The
//! archive must be a local file (its central directory is at the end).

use vstd::prelude::*;

use crate::Error;
use crate::glob::{all_sized, all_valid, any_glob_matches, any_matches, find_invalid, first_invalid};
use crate::source::Source;
use crate::text::{ascii_lower, chars_of, ends_with, ends_with_exec, first_occurrence_from, find_from, owned, string_from, to_ascii_lower};

verus! {

/// A candidate member, before content checks.
#[derive(Debug, Clone)]
pub struct MemberInfo {
    /// Name as the archive records it.
    pub name: String,
    pub compressed_size: u64,
    pub size: u64,
}

/// An entry of an archive's central directory, as listed from it.
#[derive(Debug, Clone)]
pub struct ZipEntry {
    pub name: String,
    /// A file, not a directory.
    pub is_file: bool,
    pub compressed_size: u64,
    pub size: u64,
}

/// Member names read as GML, in any case: `.gml`, `.xml`, `.gml.gz`, `.xml.gz`.
pub open spec fn candidate_name(name: Seq<char>) -> bool {
    let lower = ascii_lower(name);
    ends_with(lower, ".gml"@) || ends_with(lower, ".xml"@) || ends_with(lower, ".gml.gz"@) || ends_with(
        lower,
        ".xml.gz"@,
    )
}

pub fn is_candidate_name(name: &str) -> (r: bool)
    ensures
        r == candidate_name(name@),
{
    let lower = to_ascii_lower(&chars_of(name));
    ends_with_exec(&lower, &chars_of(".gml")) || ends_with_exec(&lower, &chars_of(".xml")) || ends_with_exec(
        &lower,
        &chars_of(".gml.gz"),
    ) || ends_with_exec(&lower, &chars_of(".xml.gz"))
}

/// An entry is listed: a file with a GML name that, where globs are given,
/// one of them matches as a whole name.
pub open spec fn listed(e: ZipEntry, globs: Seq<String>) -> bool {
    e.is_file && candidate_name(e.name@) && (globs.len() == 0 || any_matches(globs, e.name@))
}

/// The entries among the first `n` that are listed, in archive order.
pub open spec fn listed_entries(entries: Seq<ZipEntry>, globs: Seq<String>, n: int) -> Seq<ZipEntry>
    decreases n,
{
    if n <= 0 {
        Seq::empty()
    } else if listed(entries[n - 1], globs) {
        listed_entries(entries, globs, n - 1).push(entries[n - 1])
    } else {
        listed_entries(entries, globs, n - 1)
    }
}

/// A member as listed from its entry.
pub open spec fn member_of(m: MemberInfo, e: ZipEntry) -> bool {
    m.name@ == e.name@ && m.compressed_size == e.compressed_size && m.size == e.size
}

/// The members match the listed entries one for one.
pub open spec fn members_of(ms: Seq<MemberInfo>, es: Seq<ZipEntry>) -> bool {
    ms.len() == es.len() && forall|i: int| 0 <= i < ms.len() ==> member_of(#[trigger] ms[i], es[i])
}

/// The error for a glob that does not parse.
pub open spec fn glob_refused(archive: Seq<char>, glob: Seq<char>, message: Seq<char>, e: Error) -> bool {
    e matches Error::Zip { archive: a, member: m, message: t } && a@ == archive && m@ == glob && t@ == message
}

/// The candidate members of an archive whose entries are `entries`, in
/// archive order, narrowed by `member_globs` where any are given: a glob
/// matches the whole member name, and `*` does not cross `/`. A glob that
/// does not parse is an error naming it.
pub fn list_candidates(archive: &str, entries: &[ZipEntry], member_globs: &[String]) -> (r: Result<
    Vec<MemberInfo>,
    Error,
>)
    requires
        all_sized(member_globs@),
    ensures
        match r {
            Ok(ms) => all_valid(member_globs@) && members_of(
                ms@,
                listed_entries(entries@, member_globs@, entries@.len() as int),
            ),
            Err(e) => first_invalid(member_globs@, 0) matches Some((i, message)) && glob_refused(
                archive@,
                member_globs@[i]@,
                message,
                e,
            ),
        },
{
    match find_invalid(member_globs) {
        Some((i, message)) => {
            return Err(
                Error::Zip { archive: owned(archive), member: owned(member_globs[i].as_str()), message },
            );
        },
        None => {},
    }
    let mut members: Vec<MemberInfo> = Vec::new();
    let mut k: usize = 0;
    while k < entries.len()
        invariant
            k <= entries@.len(),
            all_valid(member_globs@),
            all_sized(member_globs@),
            members_of(members@, listed_entries(entries@, member_globs@, k as int)),
        decreases entries.len() - k,
    {
        let e = &entries[k];
        let keep = e.is_file && is_candidate_name(e.name.as_str()) && (member_globs.len() == 0
            || any_glob_matches(member_globs, e.name.as_str()));
        assert(keep == listed(entries@[k as int], member_globs@));
        let ghost before = members@;
        if keep {
            members.push(MemberInfo { name: owned(e.name.as_str()), compressed_size: e.compressed_size, size: e.size });
            assert(members_of(members@, listed_entries(entries@, member_globs@, k + 1))) by {
                let ls = listed_entries(entries@, member_globs@, k + 1);
                assert(ls == listed_entries(entries@, member_globs@, k as int).push(entries@[k as int]));
                assert forall|i: int| 0 <= i < members@.len() implies member_of(#[trigger] members@[i], ls[i]) by {
                    if i < before.len() {
                        assert(members@[i] == before[i]);
                    }
                }
            }
        }
        k = k + 1;
    }
    Ok(members)
}

/// One source per listed member of an archive; an archive without any is an
/// error naming it.
pub fn expand(archive: &str, entries: &[ZipEntry], member_globs: &[String]) -> (r: Result<Vec<Source>, Error>)
    requires
        all_sized(member_globs@),
    ensures
        match r {
            Ok(sources) => {
                let es = listed_entries(entries@, member_globs@, entries@.len() as int);
                &&& all_valid(member_globs@)
                &&& es.len() > 0
                &&& sources@.len() == es.len()
                &&& forall|i: int| 0 <= i < sources@.len() ==> (#[trigger] sources@[i] matches Source::ZipMember {
                    archive: a,
                    member: m,
                } && a@ == archive@ && m@ == es[i].name@)
            },
            Err(Error::NoGmlMembers(a)) => a@ == archive@ && all_valid(member_globs@) && listed_entries(
                entries@,
                member_globs@,
                entries@.len() as int,
            ).len() == 0,
            Err(e) => first_invalid(member_globs@, 0) matches Some((i, message)) && glob_refused(
                archive@,
                member_globs@[i]@,
                message,
                e,
            ),
        },
{
    let members = match list_candidates(archive, entries, member_globs) {
        Ok(members) => members,
        Err(e) => return Err(e),
    };
    if members.len() == 0 {
        return Err(Error::NoGmlMembers(owned(archive)));
    }
    let ghost es = listed_entries(entries@, member_globs@, entries@.len() as int);
    let mut sources: Vec<Source> = Vec::new();
    let mut i: usize = 0;
    while i < members.len()
        invariant
            i <= members@.len(),
            members_of(members@, es),
            sources@.len() == i,
            forall|j: int| 0 <= j < i ==> (#[trigger] sources@[j] matches Source::ZipMember {
                archive: a,
                member: m,
            } && a@ == archive@ && m@ == es[j].name@),
        decreases members.len() - i,
    {
        assert(member_of(members@[i as int], es[i as int]));
        sources.push(Source::ZipMember { archive: owned(archive), member: owned(members[i].name.as_str()) });
        i = i + 1;
    }
    Ok(sources)
}

/// `path.zip!/dir/file.gml` split at the first `!/` into the archive and the
/// member, neither empty.
pub open spec fn member_path_parts(input: Seq<char>) -> Option<(Seq<char>, Seq<char>)> {
    match first_occurrence_from(input, "!/"@, 0) {
        Some(i) => if i > 0 && i + 2 < input.len() {
            Some((input.take(i), input.skip(i + 2)))
        } else {
            None
        },
        None => None,
    }
}

/// Split `path.zip!/dir/file.gml` into archive and member.
pub fn split_member_path(input: &str) -> (r: Option<(String, String)>)
    ensures
        match (r, member_path_parts(input@)) {
            (Some((a, m)), Some((x, y))) => a@ == x && m@ == y,
            (None, None) => true,
            _ => false,
        },
{
    let chars = chars_of(input);
    let sep = chars_of("!/");
    proof {
        reveal_strlit("!/");
    }
    match find_from(&chars, &sep, 0) {
        Some(i) => {
            let n = chars.len();
            if i > 0 && i + 2 < n {
                assert(chars@.take(i as int) == chars@.subrange(0, i as int));
                assert(chars@.skip(i + 2) == chars@.subrange(i + 2, n as int));
                Some((string_from(&chars, 0, i), string_from(&chars, i + 2, n)))
            } else {
                None
            }
        },
        None => None,
    }
}

/// A member is read as GML exactly when its name, in any case, ends with
/// `.gml`, `.xml`, `.gml.gz` or `.xml.gz`.
pub proof fn law_candidate_suffixes(name: Seq<char>)
    ensures
        ends_with(ascii_lower(name), ".gml"@) ==> candidate_name(name),
        ends_with(ascii_lower(name), ".xml"@) ==> candidate_name(name),
        ends_with(ascii_lower(name), ".gml.gz"@) ==> candidate_name(name),
        ends_with(ascii_lower(name), ".xml.gz"@) ==> candidate_name(name),
        candidate_name(name) ==> ends_with(ascii_lower(name), ".gml"@) || ends_with(ascii_lower(name), ".xml"@)
            || ends_with(ascii_lower(name), ".gml.gz"@) || ends_with(ascii_lower(name), ".xml.gz"@),
{
}

/// An archive entry that is a file with a GML name is listed when no globs
/// are given.
pub proof fn law_gml_files_are_listed(e: ZipEntry, globs: Seq<String>)
    requires
        e.is_file,
        ends_with(ascii_lower(e.name@), ".gml"@) || ends_with(ascii_lower(e.name@), ".xml"@) || ends_with(
            ascii_lower(e.name@),
            ".gml.gz"@,
        ) || ends_with(ascii_lower(e.name@), ".xml.gz"@),
        globs.len() == 0,
    ensures
        listed(e, globs),
{
    law_candidate_suffixes(e.name@);
}

} // verus!
