use null_or_die::trace_ctl::{env_bool, TraceCtl};

#[test]
fn switches_are_words() {
    for on in ["1", "true", " YES ", "On"] {
        assert!(env_bool(Some(on)), "{on}");
    }
    for off in ["0", "", "y", "truee"] {
        assert!(!env_bool(Some(off)), "{off}");
    }
    assert!(!env_bool(None));
}

#[test]
fn settings_of_a_trace() {
    let plain = TraceCtl::from_settings(None, None, None, None);
    assert!(!plain.enabled);
    assert_eq!(plain.keep, 24);
    assert!(plain.tokens.is_empty());
    assert_eq!(plain.dump_dir, None);
    let set = TraceCtl::from_settings(
        Some("on"),
        Some("0"),
        Some("Song A, ;DANCE-single;, "),
        Some(" /tmp/t "),
    );
    assert!(set.enabled);
    assert_eq!(set.keep, 1);
    assert_eq!(set.tokens, vec!["song a", "dance-single"]);
    assert_eq!(set.dump_dir, Some("/tmp/t".to_string()));
    let odd = TraceCtl::from_settings(Some("on"), Some(" 7"), Some(" ,;"), Some("  "));
    assert_eq!(odd.keep, 24);
    assert!(odd.tokens.is_empty());
    assert_eq!(odd.dump_dir, None);
    assert_eq!(TraceCtl::from_settings(None, Some("+7"), None, None).keep, 7);
}

#[test]
fn filters_look_at_what_a_chart_goes_by() {
    let ctl = |filter: Option<&str>| TraceCtl::from_settings(Some("1"), None, filter, None);
    let hits = |c: &TraceCtl| c.matches("/Songs/Abc/x.sm", 3, "dance-single", "Hard", "by Me");
    assert!(hits(&ctl(None)));
    assert!(hits(&ctl(Some("ABC"))));
    assert!(hits(&ctl(Some("nope; |3|DANCE"))));
    assert!(hits(&ctl(Some("x.sm|3|dance-single|hard|by me"))));
    assert!(!hits(&ctl(Some("|4|"))));
    let mut off = ctl(None);
    off.enabled = false;
    assert!(!hits(&off));
}
