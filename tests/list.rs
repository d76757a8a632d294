use pintui::list::{group, Group};

#[test]
fn group_with_items_does_not_panic() {
    group("Test Group", |g| {
        g.item("✓", "first", "detail-a");
        g.item("✗", "second", "detail-b");
        g.item("★", "third", "");
    });
}

#[test]
fn item_plain_does_not_panic() {
    group("Plain Items", |g| {
        g.item_plain("just a line");
        g.item_plain("another line");
    });
}

#[test]
fn group_accumulates_items() {
    let mut g = Group::new();
    assert_eq!(g.len(), 0);

    g.item("✓", "alpha", "100 KB");
    assert_eq!(g.len(), 1);

    g.item("✗", "beta", "");
    assert_eq!(g.len(), 2);

    g.item_plain("gamma");
    assert_eq!(g.len(), 3);
}

#[test]
fn empty_group_prints_nothing() {
    let g = Group::new();
    assert!(g.is_empty());
    assert!(g.render("Should not appear").is_empty());
}

#[test]
fn empty_group_via_public_api() {
    let lines = group("Empty", |_g| {});
    assert!(lines.is_empty());
}

#[test]
fn mixed_items_do_not_panic() {
    let lines = group("Mixed", |g| {
        g.item("✓", "with icon and detail", "1.0 MB");
        g.item("✗", "with icon no detail", "");
        g.item_plain("plain text only");
    });
    assert_eq!(
        lines,
        vec![
            "  Mixed",
            "    ✓ with icon and detail  1.0 MB",
            "    ✗ with icon no detail",
            "    plain text only",
            "",
        ]
    );
}

#[test]
fn unicode_content() {
    let lines = group("日本語グループ", |g| {
        g.item("✓", "パッケージ", "1.0 MB");
        g.item_plain("テスト完了");
    });
    assert_eq!(
        lines,
        vec!["  日本語グループ", "    ✓ パッケージ  1.0 MB", "    テスト完了", ""]
    );
}

#[test]
fn item_without_icon_keeps_its_detail() {
    let mut g = Group::new();
    g.item("", "label", "detail");
    assert_eq!(g.render("T"), vec!["  T", "     label  detail", ""]);
}

#[test]
fn items_lists_what_was_added() {
    let mut g = Group::new();
    g.item("✓", "a", "1 KB");
    g.item_plain("b");
    assert_eq!(
        g.items(),
        vec![
            ("✓".to_string(), "a".to_string(), "1 KB".to_string()),
            (String::new(), "b".to_string(), String::new()),
        ]
    );
}
