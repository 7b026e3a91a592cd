//! Completion of paths in the draft: words, plans, candidates and the cycle.

use composer::candidates::{common_prefix, enum_dir, render_token, Entry, ENUM_CAP};
use composer::complete::{family_for, Family, ShellFamily, TabCycle};
use composer::lexer::split_words;
use composer::model::RecallSrc;
use composer::paths::{plan, posix_to_local, translate_wsl};
use composer::quote::quote_token;
use composer::state::ComposerState;
use composer::tab::{start, token_at, DirList, Start};

fn pwsh() -> Family {
    Family::Pwsh
}

fn wsl(d: Option<&str>) -> Family {
    Family::Wsl { distro: d.map(str::to_string) }
}

fn entries(names: &[(&str, bool)]) -> Vec<Entry> {
    names.iter().map(|(n, dir)| Entry { name: n.to_string(), dir: *dir }).collect()
}

fn listed(names: &[(&str, bool)]) -> DirList {
    DirList { entries: entries(names), total: names.len() }
}

fn names_of(v: &[Entry]) -> Vec<&str> {
    v.iter().map(|e| e.name.as_str()).collect()
}

/// A directory that stands for one on disk.
const CWD: &str = r"C:\scratch";

// Words.

#[test]
fn tokenizer_splits_on_unquoted_whitespace_at_caret() {
    let t = token_at(&pwsh(), "cd ../", 6);
    assert_eq!((t.start, t.end, t.value.as_str()), (3, 6, "../"));
    // Caret inside the first token.
    let t = token_at(&pwsh(), "cd ../", 2);
    assert_eq!((t.start, t.end, t.value.as_str()), (0, 2, "cd"));
    // Caret in whitespace, or at a token's first byte: an empty token there.
    let t = token_at(&pwsh(), "cd ../", 3);
    assert_eq!((t.start, t.end, t.value.as_str()), (3, 3, ""));
    let t = token_at(&pwsh(), "cd ", 3);
    assert_eq!((t.start, t.end, t.value.as_str()), (3, 3, ""));
    // A line end is whitespace: tokens never span lines.
    let t = token_at(&pwsh(), "ls\ncd src", 9);
    assert_eq!((t.start, t.end, t.value.as_str()), (6, 9, "src"));
}

#[test]
fn tokenizer_pwsh_quotes_doubling_and_unterminated() {
    let s = r"cd 'C:\a b\c'";
    let t = token_at(&pwsh(), s, s.len());
    assert_eq!((t.start, t.end), (3, s.len()));
    assert_eq!(t.value, r"C:\a b\c");
    // Doubled inner quote.
    let s = "type 'it''s.txt'";
    let t = token_at(&pwsh(), s, s.len());
    assert_eq!(t.value, "it's.txt");
    // An unterminated quote runs to the end.
    let s = r"cd 'C:\a b";
    let t = token_at(&pwsh(), s, s.len());
    assert_eq!((t.start, t.end), (3, s.len()));
    assert_eq!(t.value, r"C:\a b");
}

#[test]
fn tokenizer_cmd_double_quotes() {
    let s = r#"type "C:\a b\f.txt" x"#;
    let t = token_at(&Family::Cmd, s, 19);
    assert_eq!((t.start, t.end), (5, 19));
    assert_eq!(t.value, r"C:\a b\f.txt");
}

#[test]
fn tokenizer_bash_escapes_and_mixed_quotes() {
    let s = r"ls a\ b/c";
    let t = token_at(&wsl(Some("U")), s, s.len());
    assert_eq!((t.start, t.end), (3, s.len()));
    assert_eq!(t.value, "a b/c");
    // A quote that closes inside a token continues it.
    let s = "ls 'x y'/z";
    let t = token_at(&wsl(Some("U")), s, s.len());
    assert_eq!(t.value, "x y/z");
}

#[test]
fn tokens_count_bytes_and_words_count_characters() {
    let s = "cd \u{e9}t\u{e9}/x";
    let t = token_at(&pwsh(), s, s.len());
    assert_eq!((t.start, t.end), (3, s.len()));
    let ws = split_words(&pwsh(), s);
    assert_eq!((ws[1].start, ws[1].end), (3, 8));
    assert_eq!((ws[1].byte_start, ws[1].byte_end), (3, 10));
}

#[test]
fn words_are_in_the_line_one_behind_the_other() {
    let s = r#"  git  commit -m "a b" 'c d'e "#;
    for fam in [pwsh(), Family::Cmd, wsl(None), Family::Ssh, Family::Other] {
        let ws = split_words(&fam, s);
        let mut at: usize = 0;
        for w in &ws {
            assert!(at <= w.start && w.start < w.end && w.end <= s.chars().count());
            at = w.end;
        }
        assert_eq!(ws[0].value, "git");
    }
    assert_eq!(split_words(&pwsh(), s)[4].value, "c de");
    assert_eq!(split_words(&Family::Cmd, s)[4].value, "'c");
}

// Plans.

#[test]
fn plan_win_relative_absolute_root_home_and_drive() {
    let cwd = Some(r"C:\proj");
    // Relative with ../ keeps the typed spelling; the separator follows.
    let p = plan(&pwsh(), cwd, None, "../").unwrap();
    assert_eq!(p.fs_dir, r"C:\proj\../");
    assert_eq!((p.render_parent.as_str(), p.sep, p.ci), ("../", '/', true));
    // Relative subdirectory, backslash style.
    let p = plan(&pwsh(), cwd, None, r"src\ma").unwrap();
    assert_eq!(p.fs_dir, r"C:\proj\src\");
    assert_eq!((p.prefix.as_str(), p.sep), ("ma", '\\'));
    // Absolute.
    let p = plan(&pwsh(), None, None, r"C:\Users\za").unwrap();
    assert_eq!(p.fs_dir, r"C:\Users\");
    assert_eq!(p.prefix, "za");
    // A bare drive completes its root, never relative to the drive.
    let p = plan(&pwsh(), None, None, "C:").unwrap();
    assert_eq!(p.fs_dir, r"C:\");
    assert_eq!((p.prefix.as_str(), p.render_parent.as_str()), ("", r"C:\"));
    // A path from the root is on the drive of the directory.
    let p = plan(&pwsh(), cwd, None, r"\tools\x").unwrap();
    assert_eq!(p.fs_dir, r"C:\tools\");
    // PowerShell writes a tilde back as typed; cmd has none and expands it.
    let home = Some(r"C:\Users\z");
    let p = plan(&pwsh(), None, home, "~/Doc").unwrap();
    assert_eq!(p.fs_dir, r"C:\Users\z/");
    assert_eq!(p.render_parent, "~/");
    let p = plan(&Family::Cmd, None, home, r"~\Doc").unwrap();
    assert_eq!(p.render_parent, r"C:\Users\z\");
    // Without a directory a relative token cannot resolve.
    assert!(plan(&pwsh(), None, None, "src/").is_none());
    // A bare tilde without a separator is nothing.
    assert!(plan(&pwsh(), None, home, "~").is_none());
    assert!(plan(&pwsh(), cwd, home, "~").is_none());
    // Nor is a word that is relative to the directory of a drive.
    assert!(plan(&pwsh(), cwd, home, "C:foo").is_none());
    assert!(plan(&pwsh(), cwd, home, r"C:foo\bar").is_none());
}

#[test]
fn posix_to_local_maps_mnt_and_unc() {
    assert_eq!(posix_to_local("/mnt/c/Users/z", Some("U")).unwrap(), r"C:\Users\z");
    assert_eq!(posix_to_local("/mnt/d", None).unwrap(), r"D:\");
    assert_eq!(
        posix_to_local("/home/z", Some("Ubuntu-24.04")).unwrap(),
        r"\\wsl.localhost\Ubuntu-24.04\home\z"
    );
    // /mnt itself is listed through the distribution's own file system.
    assert_eq!(posix_to_local("/mnt/", Some("U")).unwrap(), r"\\wsl.localhost\U\mnt\");
    // Without a distribution there is no share; relative paths never map.
    assert_eq!(posix_to_local("/home/z", None), None);
    assert_eq!(posix_to_local("rel/x", Some("U")), None);
}

#[test]
fn plan_wsl_tokens_and_cwds() {
    let d = Some("Ubuntu-24.04");
    // Relative to a posix directory: listed over the share, written as typed.
    let p = plan(&wsl(d), Some("/home/z"), None, "../").unwrap();
    assert_eq!(p.fs_dir, r"\\wsl.localhost\Ubuntu-24.04\home\z\..\");
    assert_eq!((p.render_parent.as_str(), p.sep), ("../", '/'));
    assert!(!p.ci);
    assert!(p.posix_hidden);
    // A path under /mnt is on the drive.
    let p = plan(&wsl(d), Some("/home/z"), None, "/mnt/c/Us").unwrap();
    assert_eq!(p.fs_dir, r"C:\");
    assert_eq!(p.prefix, "Us");
    // A Windows directory, from before the first cd, goes through /mnt.
    let p = plan(&wsl(d), Some(r"C:\proj"), None, "src/").unwrap();
    assert_eq!(p.fs_dir, r"C:\proj\src\");
    // The default distribution: /mnt maps, its own paths do not.
    let p = plan(&wsl(None), Some("/mnt/c/x"), None, "y/").unwrap();
    assert_eq!(p.fs_dir, r"C:\x\y\");
    assert!(plan(&wsl(None), Some("/home/z"), None, "y/").is_none());
    // A tilde is nothing here: the home directory is unknown.
    assert!(plan(&wsl(d), Some("/home/z"), None, "~/x").is_none());
}

#[test]
fn drive_paths_have_a_posix_spelling() {
    assert_eq!(translate_wsl(r"C:\Users\z").unwrap(), "/mnt/c/Users/z");
    assert_eq!(translate_wsl("/home/z"), None);
}

// Candidates.

#[test]
fn enumerate_orders_dirs_first_alpha_and_matches_prefix() {
    let dir = entries(&[("bravo", true), ("alpha", true), ("apple.txt", false), ("Notes.txt", false)]);
    let out = enum_dir(&dir, 4, "", true, false, ENUM_CAP).unwrap();
    assert_eq!(names_of(&out.matches), ["alpha", "bravo", "apple.txt", "Notes.txt"]);
    assert!(!out.capped);
    // Case is ignored in the Windows namespace.
    let out = enum_dir(&dir, 4, "A", true, false, ENUM_CAP).unwrap();
    assert_eq!(names_of(&out.matches), ["alpha", "apple.txt"]);
    // And counts in the posix one.
    let out = enum_dir(&dir, 4, "N", false, false, ENUM_CAP).unwrap();
    assert_eq!(out.matches.len(), 1);
    assert_eq!(out.matches[0].name, "Notes.txt");
    assert!(enum_dir(&dir, 4, "n", false, false, ENUM_CAP).unwrap().matches.is_empty());
}

#[test]
fn case_is_ignored_beyond_ascii() {
    let dir = entries(&[("\u{c9}t\u{e9}", true), ("eta", true)]);
    let out = enum_dir(&dir, 2, "\u{e9}", true, false, ENUM_CAP).unwrap();
    assert_eq!(names_of(&out.matches), ["\u{c9}t\u{e9}"]);
}

#[test]
fn enumerate_posix_dotfile_rule() {
    let dir = entries(&[(".git", true), ("main.rs", false)]);
    // Dotfiles are hidden from a bare prefix,
    let out = enum_dir(&dir, 2, "", false, true, ENUM_CAP).unwrap();
    assert_eq!(out.matches.len(), 1);
    assert_eq!(out.matches[0].name, "main.rs");
    // shown where the prefix asks for them,
    let out = enum_dir(&dir, 2, ".", false, true, ENUM_CAP).unwrap();
    assert_eq!(out.matches[0].name, ".git");
    // and ordinary in the Windows namespace.
    let out = enum_dir(&dir, 2, "", true, false, ENUM_CAP).unwrap();
    assert_eq!(out.matches.len(), 2);
}

#[test]
fn too_many_matches_give_none() {
    let many: Vec<Entry> =
        (0..2049).map(|i| Entry { name: format!("a{i}"), dir: false }).collect();
    assert!(enum_dir(&many, many.len(), "a", true, false, ENUM_CAP).is_none());
    let fit: Vec<Entry> = (0..2048).map(|i| Entry { name: format!("a{i}"), dir: false }).collect();
    let out = enum_dir(&fit, fit.len(), "a", true, false, ENUM_CAP).unwrap();
    assert!(out.capped);
    assert_eq!(out.matches.len(), 2048);
}

#[test]
fn common_prefix_is_in_the_first_spelling() {
    let m = entries(&[("Readme.md", false), ("README.txt", false)]);
    assert_eq!(common_prefix(&m, true), "Readme.");
    assert_eq!(common_prefix(&m, false), "R");
}

#[test]
fn over_cap_dir_completes_common_prefix_only_no_cycle() {
    let dir = listed(&[
        ("aaa0.txt", false),
        ("aaa1.txt", false),
        ("aaa2.txt", false),
        ("aaa3.txt", false),
    ]);
    // Three under four entries: only the common prefix.
    match start(&pwsh(), Some(CWD), None, "cd a", 4, 3, Some(&dir)) {
        Start::Edit { draft, caret } => {
            assert_eq!(draft, "cd aaa");
            assert_eq!(caret, 6);
        }
        _ => panic!("expected the common prefix"),
    }
    // No progress beyond what is typed: nothing.
    assert!(matches!(
        start(&pwsh(), Some(CWD), None, "cd aaa", 6, 3, Some(&dir)),
        Start::Nothing
    ));
    // Under the cap the same directory cycles.
    assert!(matches!(
        start(&pwsh(), Some(CWD), None, "cd a", 4, ENUM_CAP, Some(&dir)),
        Start::Cycle(_)
    ));
}

// The cycle.

fn cycle(draft: &str, dir: &DirList) -> TabCycle {
    match start(&pwsh(), Some(CWD), None, draft, draft.len(), ENUM_CAP, Some(dir)) {
        Start::Cycle(c) => c,
        _ => panic!("expected a cycle"),
    }
}

#[test]
fn cycle_forward_reverse_wrap_and_restore() {
    let dir = listed(&[("alpha", true), ("bravo", true), ("a file.txt", false)]);
    let mut c = cycle("cd ", &dir);
    // Directories first, then the file, quoted for its space.
    assert_eq!(c.step(1).0, r"cd alpha\");
    assert_eq!(c.step(1).0, r"cd bravo\");
    let (d, caret) = c.step(1);
    assert_eq!(d, "cd 'a file.txt'");
    assert_eq!(caret, d.chars().count());
    // Around, and back.
    assert_eq!(c.step(1).0, r"cd alpha\");
    assert_eq!(c.step(-1).0, "cd 'a file.txt'");
    // The original, empty, token is back.
    assert_eq!(c.restore().0, "cd ");
    // The cycle knows the draft it wrote.
    assert!(c.matches("cd 'a file.txt'"));
    assert!(!c.matches("cd 'a file.txt' x"));
    // Entered backward, it starts at the last candidate.
    let mut c = cycle("cd ", &dir);
    assert_eq!(c.step(-1).0, "cd 'a file.txt'");
}

#[test]
fn steps_on_and_steps_back_cancel_out() {
    let dir = listed(&[("a", true), ("b", true), ("c", true), ("d", true), ("e", true)]);
    for delta in [1i64, 2, 3, 7, -4, i64::MAX] {
        let mut c = cycle("cd ", &dir);
        let first = c.step(2).0;
        c.step(delta);
        assert_eq!(c.step(-delta).0, first);
    }
}

#[test]
fn single_candidate_completes_then_descends() {
    let Start::Edit { draft, caret } = start(
        &pwsh(),
        Some(CWD),
        None,
        "cd sr",
        5,
        ENUM_CAP,
        Some(&listed(&[("src", true)])),
    ) else {
        panic!("expected the only candidate");
    };
    assert_eq!(draft, r"cd src\");
    assert_eq!(caret, 7);
    // The next Tab starts from the completed word and descends.
    let Start::Edit { draft, .. } = start(
        &pwsh(),
        Some(CWD),
        None,
        &draft,
        7,
        ENUM_CAP,
        Some(&listed(&[("main.rs", false)])),
    ) else {
        panic!("expected descent");
    };
    assert_eq!(draft, r"cd src\main.rs");
}

#[test]
fn quoted_token_roundtrips_through_completion() {
    // Completing into a directory with a space quotes the whole word,
    let Start::Edit { draft, caret } = start(
        &pwsh(),
        Some(CWD),
        None,
        "cd a",
        4,
        ENUM_CAP,
        Some(&listed(&[("a dir", true)])),
    ) else {
        panic!("expected an edit");
    };
    assert_eq!(draft, r"cd 'a dir\'");
    // and the quoted word is a word for the next Tab, which meets a name with
    // a quote.
    let Start::Edit { draft, .. } = start(
        &pwsh(),
        Some(CWD),
        None,
        &draft,
        caret,
        ENUM_CAP,
        Some(&listed(&[("it's.txt", false)])),
    ) else {
        panic!("expected an edit");
    };
    assert_eq!(draft, r"cd 'a dir\it''s.txt'");
    let t = token_at(&pwsh(), &draft, draft.len());
    assert_eq!(t.value, r"a dir\it's.txt");
}

#[test]
fn wsl_renders_posix_case_sensitive_and_quoted() {
    let p = plan(&wsl(Some("U")), Some("/home/z"), None, "pro").unwrap();
    assert_eq!(render_token(&p, &wsl(Some("U")), "projects", true), "projects/");
    assert_eq!(render_token(&p, &wsl(Some("U")), "my stuff", true), "'my stuff/'");
    let p = plan(&wsl(Some("U")), Some("/home/z"), None, "../pro").unwrap();
    assert_eq!(render_token(&p, &wsl(Some("U")), "it's", false), r"'../it'\''s'");
}

#[test]
fn cmd_and_other_quoting_via_drop_helpers() {
    let dir = listed(&[("Program Files", true), ("plain", true)]);
    let Start::Cycle(mut c) = start(&Family::Cmd, Some(CWD), None, "cd p", 4, ENUM_CAP, Some(&dir))
    else {
        panic!("expected a cycle");
    };
    assert_eq!(c.step(1).0, "cd plain\\");
    assert_eq!(c.step(1).0, "cd \"Program Files\\\"");
}

#[test]
fn ssh_and_missing_context_no_op() {
    let dir = listed(&[("x1", false), ("x2", false)]);
    assert!(matches!(
        start(&Family::Ssh, Some("/home/z"), None, "cd x", 4, ENUM_CAP, Some(&dir)),
        Start::Nothing
    ));
    // A directory that cannot be listed, and none to be relative to.
    assert!(matches!(
        start(
            &pwsh(),
            Some(r"C:\definitely\not\a\dir\xyz"),
            None,
            "cd x",
            4,
            ENUM_CAP,
            None
        ),
        Start::Nothing
    ));
    assert!(matches!(
        start(&pwsh(), None, None, "cd x", 4, ENUM_CAP, Some(&dir)),
        Start::Nothing
    ));
}

#[test]
fn quoted_words_read_back() {
    for fam in [pwsh(), Family::Cmd, wsl(Some("U")), Family::Other] {
        for word in ["plain", "a b", "it's", r"C:\a b\c"] {
            let q = quote_token(&fam, word);
            let ws = split_words(&fam, &q);
            assert_eq!(ws.len(), 1, "{fam:?} {q}");
            assert_eq!(ws[0].value, word, "{fam:?} {q}");
        }
    }
}

#[test]
fn families_follow_the_shell() {
    assert!(matches!(family_for(&ShellFamily::Pwsh), Family::Pwsh));
    assert!(matches!(family_for(&ShellFamily::Cmd), Family::Cmd));
    assert!(matches!(
        family_for(&ShellFamily::WslShell { distro: Some("U".to_string()) }),
        Family::Wsl { distro: Some(d) } if d == "U"
    ));
    assert!(matches!(family_for(&ShellFamily::Ssh { host: "h".to_string() }), Family::Ssh));
    assert!(matches!(family_for(&ShellFamily::Other), Family::Other));
}

// Tab in the composer.

#[test]
fn tab_press_cycles_esc_restores_and_edits_commit() {
    let dir = listed(&[("alpha", true), ("bravo", true)]);
    let mut st = ComposerState {
        draft: "cd ".into(),
        recall: Some((RecallSrc::History, "stash".into())),
        ..Default::default()
    };
    assert_eq!(st.tab_plan(Some(CWD), None, 3, 1).unwrap().fs_dir, CWD);
    let caret = st.tab_press(Some(CWD), None, 3, 1, Some(&dir)).unwrap();
    assert_eq!(st.draft, r"cd alpha\");
    assert_eq!(caret, 9);
    assert!(st.tab_active());
    // Completing ends a recall, as typing does.
    assert!(st.recall.is_none());
    // Tab goes on, Shift+Tab walks back; neither needs a directory.
    assert!(st.tab_plan(Some(CWD), None, 0, 1).is_none());
    st.tab_press(Some(CWD), None, 0, 1, None).unwrap();
    assert_eq!(st.draft, r"cd bravo\");
    st.tab_press(Some(CWD), None, 0, -1, None).unwrap();
    assert_eq!(st.draft, r"cd alpha\");
    // Escape restores the original token and ends the cycle.
    let caret = st.tab_escape().unwrap();
    assert_eq!(st.draft, "cd ");
    assert_eq!(caret, 3);
    assert!(!st.tab_active());
    // Typing commits the candidate: the next Tab starts from the edited word,
    // which nothing completes.
    st.tab_press(Some(CWD), None, 3, 1, Some(&dir)).unwrap();
    st.draft.push('X');
    assert!(!st.tab_active());
    let inside = listed(&[]);
    assert_eq!(st.tab_press(Some(CWD), None, st.draft.len(), 1, Some(&inside)), None);
    assert_eq!(st.draft, r"cd alpha\X");
}

#[test]
fn tab_no_ops_on_empty_draft_and_ssh() {
    let dir = listed(&[("alpha", true), ("bravo", true)]);
    let mut st = ComposerState::default();
    assert_eq!(st.tab_press(Some(r"C:\"), None, 0, 1, Some(&dir)), None);
    st.draft = "   ".into();
    assert_eq!(st.tab_press(Some(r"C:\"), None, 3, 1, Some(&dir)), None);
    assert_eq!(st.draft, "   ");
    st.fam = Family::Ssh;
    st.draft = "cat x".into();
    assert_eq!(st.tab_press(Some("/home/z"), None, 5, 1, Some(&dir)), None);
    assert_eq!(st.draft, "cat x");
    // Without a cycle Escape is left to others.
    assert_eq!(st.tab_escape(), None);
}

#[test]
fn presses_that_cancel_out_are_no_press() {
    let dir = listed(&[("alpha", true), ("bravo", true)]);
    let mut st = ComposerState { draft: "cd ".into(), ..Default::default() };
    assert_eq!(st.tab_press(Some(CWD), None, 3, 0, Some(&dir)), None);
    assert_eq!(st.draft, "cd ");
}
