use termproxy::session::{keep_env_var, term_override};

#[test]
fn the_allow_list_is_exact() {
    assert!(keep_env_var(b"PATH"));
    assert!(keep_env_var(b"USER"));
    assert!(keep_env_var(b"HOME"));
    assert!(keep_env_var(b"LANG"));
    assert!(keep_env_var(b"LANGUAGE"));
    assert!(keep_env_var(b"LC_ALL"));
    assert!(keep_env_var(b"LC_CTYPE"));
    assert!(keep_env_var(b"LC_"));
}

#[test]
fn everything_else_is_dropped() {
    assert!(!keep_env_var(b"TERM"));
    assert!(!keep_env_var(b"SHELL"));
    assert!(!keep_env_var(b"PATHX"));
    assert!(!keep_env_var(b"LANGS"));
    assert!(!keep_env_var(b"LCX"));
    assert!(!keep_env_var(b"LD_PRELOAD"));
    assert!(!keep_env_var(b""));
}

#[test]
fn the_terminal_type_is_forced() {
    let (k, v) = term_override();
    assert_eq!(&k[..], b"TERM");
    assert_eq!(&v[..], b"xterm-256color");
}
