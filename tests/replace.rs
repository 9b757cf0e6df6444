use semver_replace::arguments::is_selected;
use semver_replace::engine::{
    find_and_replace_versions_in_file, find_and_replace_versions_in_files, splice_line, FileSession,
    Step,
};
use semver_replace::lines::{join, split_lines};
use semver_replace::operator::{
    confirmation_action, get_user_version, parse_confirmation, print_user_confirmation_input_help,
    read_user_confirmation, Action, UserConfirmationResponse,
};
use semver_replace::semver::SemverMatcher;

fn matcher() -> SemverMatcher {
    SemverMatcher::new().expect("the SemVer patterns compile")
}

fn run_one(text: &str, new_version: &str, answers: Vec<Action>) -> (Option<String>, usize, bool) {
    let m = matcher();
    let r = find_and_replace_versions_in_file(&m, text.as_bytes(), new_version.as_bytes(), &answers, 0);
    (r.output.map(|o| String::from_utf8(o).unwrap()), r.next_answer, r.should_quit)
}

#[test]
fn grammar_table() {
    let m = matcher();
    for valid in ["1.0.0", "1.2.3-alpha.1", "1.2.3+build.7", "1.2.3-alpha+001", "0.0.0", "1.2.3-0a"] {
        assert!(m.is_version(valid), "{valid} should be valid");
    }
    for invalid in ["01.2.3", "1.2", "1.2.3-", "v1.2.3", "", "1.2.3 ", "1.2.3-01"] {
        assert!(!m.is_version(invalid), "{invalid} should be invalid");
    }
}

#[test]
fn find_at_walks_matches() {
    let m = matcher();
    let line = b"v1.2.3 and v1.2.3";
    assert_eq!(m.find_at(line, 0), Some((1, 6)));
    assert_eq!(m.find_at(line, 6), Some((12, 17)));
    assert_eq!(m.find_at(line, 17), None);
    assert_eq!(m.find_at(b"no version here", 0), None);
}

#[test]
fn user_version_is_trimmed_and_checked() {
    let m = matcher();
    assert_eq!(get_user_version(&m, "  1.2.3\n"), Some("1.2.3".to_string()));
    assert_eq!(get_user_version(&m, "2.0.0-rc.1"), Some("2.0.0-rc.1".to_string()));
    assert_eq!(get_user_version(&m, "v1.2.3\n"), None);
    assert_eq!(get_user_version(&m, "1.2\n"), None);
    assert_eq!(get_user_version(&m, "\n"), None);
}

#[test]
fn confirmation_tokens() {
    assert_eq!(read_user_confirmation("y\n"), Ok(UserConfirmationResponse::Replace));
    assert_eq!(read_user_confirmation(" Y "), Ok(UserConfirmationResponse::Replace));
    assert_eq!(read_user_confirmation("n"), Ok(UserConfirmationResponse::Ignore));
    assert_eq!(read_user_confirmation("Q\n"), Ok(UserConfirmationResponse::Quit));
    assert_eq!(read_user_confirmation("a"), Ok(UserConfirmationResponse::ReplaceAllInFile));
    assert_eq!(read_user_confirmation("d"), Ok(UserConfirmationResponse::IgnoreAllInFile));
    assert_eq!(read_user_confirmation("?\n"), Ok(UserConfirmationResponse::Help));
    assert_eq!(read_user_confirmation("yes"), Err(()));
    assert_eq!(read_user_confirmation("x"), Err(()));
    assert_eq!(read_user_confirmation(""), Err(()));
    assert_eq!(read_user_confirmation("é"), Err(()));
}

#[test]
fn help_does_not_settle_an_action() {
    assert_eq!(confirmation_action(UserConfirmationResponse::Help), None);
    assert_eq!(confirmation_action(UserConfirmationResponse::Quit), Some(Action::Quit));
    assert_eq!(
        confirmation_action(UserConfirmationResponse::ReplaceAllInFile),
        Some(Action::ReplaceAllInFile)
    );
}

#[test]
fn help_legend_has_six_lines() {
    let h = print_user_confirmation_input_help();
    assert_eq!(h.len(), 6);
    assert_eq!(h[0], "y - replace");
    assert_eq!(h[3], "a - replace remaining in file");
    assert_eq!(h[5], "? - print help");
}

#[test]
fn replace_both_matches() {
    let (out, used, quit) = run_one("v1.2.3 and v1.2.3", "2.0.0", vec![Action::Replace, Action::Replace]);
    assert_eq!(out.as_deref(), Some("v2.0.0 and v2.0.0"));
    assert_eq!(used, 2);
    assert!(!quit);
}

#[test]
fn replace_first_ignore_second() {
    let (out, used, _) = run_one("v1.2.3 and v1.2.3", "2.0.0", vec![Action::Replace, Action::Ignore]);
    assert_eq!(out.as_deref(), Some("v2.0.0 and v1.2.3"));
    assert_eq!(used, 2);
}

#[test]
fn longer_and_shorter_replacements_visit_each_match_once() {
    let text = "1.2.3 10.20.30-beta.1 4.5.6";
    let (out, used, _) = run_one(text, "100.200.300-rc.1", vec![Action::Replace; 3]);
    assert_eq!(out.as_deref(), Some("100.200.300-rc.1 100.200.300-rc.1 100.200.300-rc.1"));
    assert_eq!(used, 3);
    let (out, used, _) = run_one(text, "0.0.1", vec![Action::Replace, Action::Ignore, Action::Replace]);
    assert_eq!(out.as_deref(), Some("0.0.1 10.20.30-beta.1 0.0.1"));
    assert_eq!(used, 3);
}

#[test]
fn replacing_with_the_same_text_does_not_rematch() {
    let (out, used, _) = run_one("1.0.0 1.0.0", "1.0.0", vec![Action::Replace, Action::Replace]);
    assert_eq!(out.as_deref(), Some("1.0.0 1.0.0"));
    assert_eq!(used, 2);
}

#[test]
fn replace_all_in_file_is_scoped_to_the_file() {
    let m = matcher();
    let files = vec![b"1.0.0\n1.1.0 and 1.2.0\n".to_vec(), b"3.0.0\n".to_vec()];
    let answers = vec![Action::ReplaceAllInFile, Action::Ignore];
    let r = find_and_replace_versions_in_files(&m, &files, b"9.9.9", &answers);
    assert_eq!(r.outputs[0].as_deref(), Some(&b"9.9.9\n9.9.9 and 9.9.9"[..]));
    // the second file was still asked about, and its answer kept it
    assert_eq!(r.outputs[1], None);
    assert_eq!(r.stopped_at, None);
    let first = find_and_replace_versions_in_file(&m, &files[0], b"9.9.9", &answers, 0);
    assert_eq!(first.next_answer, 1);
    let second = find_and_replace_versions_in_file(&m, &files[1], b"9.9.9", &answers, 1);
    assert_eq!(second.next_answer, 2);
}

#[test]
fn skip_rest_keeps_earlier_and_moves_on() {
    let m = matcher();
    let files = vec![b"1.0.0 1.1.0\n1.2.0".to_vec(), b"x 3.0.0".to_vec()];
    let answers = vec![Action::Replace, Action::IgnoreAllInFile, Action::Replace];
    let r = find_and_replace_versions_in_files(&m, &files, b"2.0.0", &answers);
    assert_eq!(r.outputs[0].as_deref(), Some(&b"2.0.0 1.1.0\n1.2.0"[..]));
    assert_eq!(r.outputs[1].as_deref(), Some(&b"x 2.0.0"[..]));
    assert_eq!(r.stopped_at, None);
}

#[test]
fn quit_keeps_earlier_files_and_leaves_later_ones() {
    let m = matcher();
    let files = vec![b"a 1.0.0".to_vec(), b"1.0.0 1.0.0 1.0.0".to_vec(), b"1.0.0".to_vec()];
    let answers = vec![Action::Replace, Action::Replace, Action::Quit, Action::Replace];
    let r = find_and_replace_versions_in_files(&m, &files, b"2.0.0", &answers);
    assert_eq!(r.outputs[0].as_deref(), Some(&b"a 2.0.0"[..]));
    assert_eq!(r.outputs[1].as_deref(), Some(&b"2.0.0 1.0.0 1.0.0"[..]));
    assert_eq!(r.outputs[2], None);
    assert_eq!(r.stopped_at, Some(1));
}

#[test]
fn running_out_of_answers_stops_like_quit() {
    let (out, used, quit) = run_one("1.0.0 1.0.0", "2.0.0", vec![Action::Replace]);
    assert_eq!(out.as_deref(), Some("2.0.0 1.0.0"));
    assert_eq!(used, 1);
    assert!(quit);
}

#[test]
fn no_write_without_matches_or_when_all_ignored() {
    let (out, used, quit) = run_one("nothing to see\nhere\n", "2.0.0", vec![Action::Replace]);
    assert_eq!(out, None);
    assert_eq!(used, 0);
    assert!(!quit);
    let (out, used, _) = run_one("1.0.0\n1.0.1", "2.0.0", vec![Action::Ignore, Action::Ignore]);
    assert_eq!(out, None);
    assert_eq!(used, 2);
}

#[test]
fn non_text_file_is_skipped_without_prompt() {
    let m = matcher();
    let files = vec![vec![0xff, 0xfe, b'1', b'.', b'0', b'.', b'0'], b"1.0.0".to_vec()];
    let answers = vec![Action::Replace];
    let r = find_and_replace_versions_in_files(&m, &files, b"2.0.0", &answers);
    assert_eq!(r.outputs[0], None);
    assert_eq!(r.outputs[1].as_deref(), Some(&b"2.0.0"[..]));
    let skipped = find_and_replace_versions_in_file(&m, &files[0], b"2.0.0", &answers, 0);
    assert_eq!(skipped.next_answer, 0);
    assert!(!skipped.should_quit);
}

#[test]
fn written_file_uses_single_line_feeds() {
    let (out, _, _) = run_one("1.0.0\r\nkeep\r\n\r\nend\n", "2.0.0", vec![Action::Replace]);
    assert_eq!(out.as_deref(), Some("2.0.0\nkeep\n\nend"));
}

#[test]
fn split_and_join_lines() {
    let l = split_lines(b"a\r\nb\n\nc");
    assert_eq!(l, vec![b"a".to_vec(), b"b".to_vec(), b"".to_vec(), b"c".to_vec()]);
    assert_eq!(join(&l), b"a\nb\n\nc".to_vec());
    assert!(split_lines(b"").is_empty());
    assert_eq!(split_lines(b"\n"), vec![Vec::<u8>::new()]);
    assert_eq!(split_lines(b"x\r"), vec![b"x\r".to_vec()]);
}

#[test]
fn session_previews_and_decisions() {
    let m = matcher();
    let mut s = FileSession::new(b"first\nto v1.2.3 now", b"2.0.0".to_vec());
    match s.advance(&m) {
        Step::Prompt(p) => {
            assert_eq!(p.line_number, 2);
            assert_eq!(p.before, b"to v".to_vec());
            assert_eq!(p.matched, b"1.2.3".to_vec());
            assert_eq!(p.after, b" now".to_vec());
        }
        _ => panic!("expected a prompt"),
    }
    s.decide(Action::Replace);
    assert!(matches!(s.advance(&m), Step::Done));
    assert!(s.is_finished());
    assert!(!s.quit_requested());
    assert_eq!(s.contents_to_write(), Some(b"first\nto v2.0.0 now".to_vec()));
}

#[test]
fn session_replace_all_does_not_prompt_again() {
    let m = matcher();
    let mut s = FileSession::new(b"1.0.0 1.0.0\n1.0.0", b"2.0.0".to_vec());
    assert!(matches!(s.advance(&m), Step::Prompt(_)));
    s.decide(Action::ReplaceAllInFile);
    assert!(matches!(s.advance(&m), Step::Replaced));
    assert!(matches!(s.advance(&m), Step::Replaced));
    assert!(matches!(s.advance(&m), Step::Done));
    assert_eq!(s.contents_to_write(), Some(b"2.0.0 2.0.0\n2.0.0".to_vec()));
    let mut next = FileSession::new(b"1.0.0", b"2.0.0".to_vec());
    assert!(matches!(next.advance(&m), Step::Prompt(_)));
}

#[test]
fn include_filters() {
    let none: Vec<String> = Vec::new();
    assert!(is_selected("src/main.rs", &none));
    let inc = vec!["Cargo".to_string(), "README".to_string()];
    assert!(is_selected("crates/a/Cargo.toml", &inc));
    assert!(is_selected("README.md", &inc));
    assert!(!is_selected("src/lib.rs", &inc));
    assert!(is_selected("x", &vec!["".to_string()]));
}

#[test]
fn trimmed_tokens_parse() {
    assert_eq!(parse_confirmation("d"), Ok(UserConfirmationResponse::IgnoreAllInFile));
    assert_eq!(parse_confirmation("A"), Ok(UserConfirmationResponse::ReplaceAllInFile));
    assert_eq!(parse_confirmation(" y"), Err(()));
    assert_eq!(parse_confirmation("?"), Ok(UserConfirmationResponse::Help));
}

#[test]
fn splicing_a_line() {
    assert_eq!(splice_line(b"v1.2.3 and", 1, 6, b"10.0.0"), b"v10.0.0 and".to_vec());
    assert_eq!(splice_line(b"abc", 0, 3, b""), Vec::<u8>::new());
    assert_eq!(splice_line(b"abc", 3, 3, b"d"), b"abcd".to_vec());
}
