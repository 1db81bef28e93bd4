use typst_gateway::config::{check_login, make_state, session_allows, trim_text};
use typst_gateway::{get_exclude_files, AppState, LoginForm};

#[test]
fn exclusion_list_is_split_on_commas_and_trimmed() {
    assert_eq!(
        get_exclude_files(" a , b.txt ,c"),
        vec!["a".to_string(), "b.txt".to_string(), "c".to_string()]
    );
    assert_eq!(get_exclude_files(""), vec!["".to_string()]);
    assert_eq!(get_exclude_files("a,"), vec!["a".to_string(), "".to_string()]);
    assert_eq!(get_exclude_files("\t.git\n"), vec![".git".to_string()]);
}

#[test]
fn trimming_strips_both_ends_only() {
    assert_eq!(trim_text("  a b  "), "a b");
    assert_eq!(trim_text(""), "");
    assert_eq!(trim_text(" \t\r\n"), "");
}

#[test]
fn trimming_covers_the_unicode_white_space_set() {
    assert_eq!(trim_text("\u{000B}a"), "a");
    assert_eq!(trim_text("\u{000C}a\u{0085}"), "a");
    assert_eq!(trim_text("\u{00A0}x\u{3000}"), "x");
    assert_eq!(trim_text("\u{2000}\u{200A}y\u{2028}\u{205F}"), "y");
    assert_eq!(get_exclude_files("\u{000B}a"), vec!["a".to_string()]);
    assert_eq!(
        get_exclude_files("\u{00A0}one\u{00A0},\u{2003}two"),
        vec!["one".to_string(), "two".to_string()]
    );
    // Matches what the standard trim would do on the same input.
    let raw = "\u{000B} a \u{00A0},b\u{2029}";
    let expected: Vec<String> = raw.split(',').map(|f| f.trim().to_owned()).collect();
    assert_eq!(get_exclude_files(raw), expected);
}

#[test]
fn state_is_built_only_when_fully_configured() {
    let state = make_state(
        Some("/srv/docs".to_string()),
        Some("/view".to_string()),
        vec!["x".to_string()],
    );
    let state = state.expect("state should be built");
    assert_eq!(state.root_dir, "/srv/docs");
    assert_eq!(state.url_prefix, "/view");
    assert_eq!(state.exclude_files, vec!["x".to_string()]);

    assert!(make_state(None, Some("/view".to_string()), Vec::new()).is_none());
    assert!(make_state(Some("/srv".to_string()), None, Vec::new()).is_none());
}

#[test]
fn app_state_keeps_its_fields() {
    let s = AppState::new("/r".to_string(), vec!["e".to_string()], "/u".to_string());
    assert_eq!(s.root_dir, "/r");
    assert_eq!(s.exclude_files, vec!["e".to_string()]);
    assert_eq!(s.url_prefix, "/u");
}

#[test]
fn login_accepts_only_the_fixed_password() {
    assert!(check_login(&LoginForm { password: "ok".to_string() }));
    assert!(!check_login(&LoginForm { password: "nope".to_string() }));
    assert!(!check_login(&LoginForm { password: "".to_string() }));
}

#[test]
fn session_gate_requires_a_true_flag() {
    assert!(session_allows(Some(true)));
    assert!(!session_allows(Some(false)));
    assert!(!session_allows(None));
}
