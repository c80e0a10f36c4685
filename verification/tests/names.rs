use aircode_client::names::{
    append_suffix, is_sentinel, mirror_path, strip_suffix, MIRROR_DIR, SENTINEL, SUFFIX,
};

#[test]
fn constants_are_the_fixed_names() {
    assert_eq!(SUFFIX, ".lua");
    assert_eq!(SENTINEL, "restart");
    assert_eq!(MIRROR_DIR, "project");
}

#[test]
fn append_suffix_appends_the_extension() {
    assert_eq!(append_suffix("Main"), "Main.lua");
    assert_eq!(append_suffix(""), ".lua");
    assert_eq!(append_suffix("a b"), "a b.lua");
}

#[test]
fn strip_suffix_recovers_the_basename() {
    assert_eq!(strip_suffix("Main.lua"), "Main");
    assert_eq!(strip_suffix(".lua"), "");
}

#[test]
fn strip_suffix_leaves_a_name_without_suffix_alone() {
    assert_eq!(strip_suffix("restart"), "restart");
    assert_eq!(strip_suffix(""), "");
    assert_eq!(strip_suffix("lua"), "lua");
    assert_eq!(strip_suffix("Main.lu"), "Main.lu");
    assert_eq!(strip_suffix("Main.LUA"), "Main.LUA");
}

#[test]
fn strip_suffix_cuts_at_the_first_suffix() {
    assert_eq!(strip_suffix("a.lua.lua"), "a");
    assert_eq!(strip_suffix("a.luab"), "a");
    assert_eq!(strip_suffix("a.lua/b.lua"), "a");
}

#[test]
fn strip_suffix_counts_characters_not_bytes() {
    assert_eq!(strip_suffix("h\u{e9}llo.lua"), "h\u{e9}llo");
    assert_eq!(strip_suffix("\u{4e16}\u{754c}.lua"), "\u{4e16}\u{754c}");
    assert_eq!(append_suffix("\u{1f600}"), "\u{1f600}.lua");
}

#[test]
fn suffix_round_trip_on_basenames_without_suffix() {
    for basename in ["Main", "", "a", "util.v2", ".lu", "lua", "x.lu", "..l.u.a", "h\u{e9}"] {
        let file_name = append_suffix(basename);
        assert_eq!(strip_suffix(&file_name), basename);
    }
}

#[test]
fn suffix_round_trip_fails_where_the_basename_holds_the_suffix() {
    let file_name = append_suffix("x.lua");
    assert_eq!(file_name, "x.lua.lua");
    assert_eq!(strip_suffix(&file_name), "x");
}

#[test]
fn mirror_path_lies_in_the_mirror_directory() {
    assert_eq!(mirror_path("Main.lua"), "project/Main.lua");
    assert_eq!(mirror_path(SENTINEL), "project/restart");
}

#[test]
fn is_sentinel_tells_the_sentinel_apart() {
    assert!(is_sentinel("restart"));
    assert!(!is_sentinel("restart.lua"));
    assert!(!is_sentinel("Restart"));
    assert!(!is_sentinel(""));
    assert!(!is_sentinel("restar"));
}
