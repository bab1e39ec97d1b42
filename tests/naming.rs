use royalroad_dl::naming::sanitize_path;

#[test]
fn sanitize_replaces_runs() {
    assert_eq!(sanitize_path("a/b:c"), "a_b_c");
    assert_eq!(sanitize_path("What?? <No>"), "What_ _No_");
    assert_eq!(sanitize_path("plain title"), "plain title");
    assert_eq!(sanitize_path("tab\there"), "tab_here");
    assert_eq!(sanitize_path("a\u{1}\u{7f}|\\b"), "a_b");
    assert_eq!(sanitize_path("caf\u{e9} - \u{80}x"), "caf\u{e9} - \u{80}x");
    assert_eq!(sanitize_path("***"), "_");
}
