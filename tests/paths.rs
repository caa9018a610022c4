use unzip_legacy::extract::{collect_outcomes, extract_zip_entry_to, extraction_plan, ExtractAction};
use unzip_legacy::sanitize::SanitizedZipPath;

fn sanitize(s: &str) -> SanitizedZipPath {
    SanitizedZipPath::from(s.to_string())
}

#[test]
fn traversal_is_stripped() {
    let p = sanitize("../../etc/passwd");
    assert_eq!(p.as_ref(), "etc/passwd");
    assert!(!p.is_dir());
    match extract_zip_entry_to("out", &p) {
        ExtractAction::WriteFile { parent, path } => {
            assert_eq!(parent, "out/etc");
            assert_eq!(path, "out/etc/passwd");
        }
        other => panic!("unexpected {:?}", other),
    }
}

#[test]
fn trailing_separator_makes_directory() {
    let p = sanitize("logs/");
    assert!(p.is_dir());
    assert_eq!(p.as_ref(), "logs");
    match extract_zip_entry_to("out", &p) {
        ExtractAction::CreateDir { path } => assert_eq!(path, "out/logs"),
        other => panic!("unexpected {:?}", other),
    }
}

#[test]
fn trailing_backslash_makes_directory() {
    let p = sanitize("logs\\old\\");
    assert!(p.is_dir());
    assert_eq!(p.as_ref(), "logs/old");
}

#[test]
fn nul_cuts_the_name() {
    let p = sanitize("hello\0/../world");
    assert_eq!(p.as_ref(), "hello");
    assert_eq!(p.as_ref(), sanitize("hello").as_ref());
}

#[test]
fn nul_at_start_gives_empty_path() {
    assert_eq!(sanitize("\0abc").as_ref(), "");
}

#[test]
fn absolute_and_dot_components_are_dropped() {
    assert_eq!(sanitize("/abs/./x/../y").as_ref(), "abs/x/y");
    assert_eq!(sanitize("..\\foo").as_ref(), "foo");
    assert_eq!(sanitize("a//b").as_ref(), "a/b");
    assert_eq!(sanitize("").as_ref(), "");
    assert_eq!(sanitize("..").as_ref(), "");
}

#[test]
fn file_at_top_has_root_as_parent() {
    match extract_zip_entry_to("out/", &sanitize("a.txt")) {
        ExtractAction::WriteFile { parent, path } => {
            assert_eq!(parent, "out/");
            assert_eq!(path, "out/a.txt");
        }
        other => panic!("unexpected {:?}", other),
    }
}

#[test]
fn plan_destinations_do_not_depend_on_order() {
    let names = ["a.txt", "b/", "b/c.txt", "../d"];
    let fwd: Vec<SanitizedZipPath> = names.iter().map(|n| sanitize(n)).collect();
    let rev: Vec<SanitizedZipPath> = names.iter().rev().map(|n| sanitize(n)).collect();
    let mut a: Vec<String> =
        extraction_plan("out", &fwd).iter().map(|x| x.destination().to_string()).collect();
    let mut b: Vec<String> =
        extraction_plan("out", &rev).iter().map(|x| x.destination().to_string()).collect();
    a.sort();
    b.sort();
    assert_eq!(a, b);
    assert_eq!(a, vec!["out/a.txt", "out/b", "out/b/c.txt", "out/d"]);
}

#[test]
fn empty_batch_succeeds() {
    assert_eq!(collect_outcomes(&vec![]), Ok(()));
    assert!(extraction_plan("out", &vec![]).is_empty());
}

#[test]
fn first_failure_is_reported() {
    let outcomes = vec![Ok(()), Err("first".to_string()), Ok(()), Err("second".to_string())];
    assert_eq!(collect_outcomes(&outcomes), Err("first".to_string()));
    assert_eq!(collect_outcomes(&vec![Ok(()), Ok(())]), Ok(()));
}
