use pintui::table::{KvGroup, Table};
use pintui::width::display_width;

// Table: column counts

#[test]
fn table_zero_columns() {
    let mut t = Table::new();
    t.row(&[]);
    assert_eq!(t.render(), vec![String::new()]);
}

#[test]
fn table_one_column() {
    let mut t = Table::new();
    t.row(&["alpha"]);
    t.row(&["beta"]);
    assert_eq!(t.render(), vec!["  alpha", "  beta"]);
}

#[test]
fn table_two_columns() {
    let mut t = Table::new();
    t.row(&["Name", "Value"]);
    t.row(&["foo", "123"]);
    assert_eq!(t.render(), vec!["  Name  Value", "  foo   123"]);
}

#[test]
fn table_three_columns() {
    let mut t = Table::new();
    t.row(&["Package", "Status", "Size"]);
    t.row(&["git", "installed", "3.2 MB"]);
    t.row(&["neovim", "missing", ""]);
    assert_eq!(
        t.render(),
        vec![
            "  Package  Status     Size",
            "  git      installed  3.2 MB",
            "  neovim   missing",
        ]
    );
}

// Table: empty

#[test]
fn table_empty_does_not_panic() {
    let t = Table::new();
    assert!(t.render().is_empty());
}

// Table: unicode content

#[test]
fn table_unicode_content() {
    let mut t = Table::new();
    t.row(&["名前", "状態"]);
    t.row(&["ギット", "インストール済み"]);
    t.row(&["vim", "未導入"]);
    assert_eq!(
        t.render(),
        vec!["  名前    状態", "  ギット  インストール済み", "  vim     未導入"]
    );
}

#[test]
fn table_mixed_ascii_and_cjk() {
    let mut t = Table::new();
    t.row(&["Tool", "説明"]);
    t.row(&["rustc", "コンパイラ"]);
    t.row(&["cargo", "build tool"]);
    assert_eq!(
        t.render(),
        vec!["  Tool   説明", "  rustc  コンパイラ", "  cargo  build tool"]
    );
}

// Table: fixed widths

#[test]
fn table_aligned_fixed_widths() {
    let mut t = Table::aligned(&[20, 10, 0]);
    t.row(&["Package", "Status", "Notes"]);
    t.row(&["rust", "installed", "via rustup"]);
    assert_eq!(
        t.render(),
        vec![
            "  Package               Status      Notes",
            "  rust                  installed   via rustup",
        ]
    );
}

#[test]
fn table_aligned_zero_means_auto() {
    let mut t = Table::aligned(&[0, 0]);
    t.row(&["a", "b"]);
    t.row(&["longer", "x"]);
    assert_eq!(t.resolve_widths(), vec![6, 1]);
    assert_eq!(t.render(), vec!["  a       b", "  longer  x"]);
}

#[test]
fn table_fixed_width_narrower_than_content_is_kept() {
    let mut t = Table::aligned(&[2]);
    t.row(&["abcdef", "x"]);
    t.row(&["a", "y"]);
    assert_eq!(t.resolve_widths(), vec![2, 1]);
    assert_eq!(t.render(), vec!["  abcdef  x", "  a   y"]);
}

#[test]
fn table_fixed_widths_beyond_the_columns_are_ignored() {
    let mut t = Table::aligned(&[0, 0, 9, 9]);
    t.row(&["a", "b"]);
    assert_eq!(t.resolve_widths(), vec![1, 1]);
}

// Table: ragged rows

#[test]
fn table_ragged_rows() {
    let mut t = Table::new();
    t.row(&["a", "b", "c"]);
    t.row(&["x"]);
    t.row(&["1", "2"]);
    let lines = t.render();
    assert_eq!(lines.len(), 3);
    assert_eq!(lines, vec!["  a  b  c", "  x", "  1  2"]);
}

#[test]
fn table_trailing_whitespace_is_trimmed() {
    let mut t = Table::new();
    t.row(&["a ", "  "]);
    t.row(&["bbb", "c"]);
    assert_eq!(t.render(), vec!["  a", "  bbb  c"]);
}

// Table: resolve_widths correctness

#[test]
fn table_resolve_widths_auto() {
    let mut t = Table::new();
    t.row(&["ab", "cdef"]);
    t.row(&["ghijk", "l"]);
    let widths = t.resolve_widths();
    assert_eq!(widths, vec![5, 4]);
}

#[test]
fn table_resolve_widths_fixed_override() {
    let mut t = Table::aligned(&[10, 0]);
    t.row(&["short", "x"]);
    let widths = t.resolve_widths();
    assert_eq!(widths[0], 10);
    assert_eq!(widths[1], 1);
}

#[test]
fn table_resolve_widths_unicode() {
    let mut t = Table::new();
    t.row(&["名前", "abc"]);
    let widths = t.resolve_widths();
    assert_eq!(widths[0], 4);
    assert_eq!(widths[1], 3);
}

#[test]
fn table_max_columns_is_longest_row() {
    let mut t = Table::new();
    assert_eq!(t.max_columns(), 0);
    t.row(&["a"]);
    t.row(&["a", "b", "c"]);
    t.row(&[]);
    assert_eq!(t.max_columns(), 3);
}

// KvGroup

#[test]
fn kvgroup_empty_does_not_panic() {
    let kvs = KvGroup::new();
    assert!(kvs.render().is_empty());
}

#[test]
fn kvgroup_single_pair() {
    let mut kvs = KvGroup::new();
    kvs.add("Key", "Value");
    assert_eq!(kvs.render(), vec!["  Key: Value"]);
}

#[test]
fn kvgroup_varying_key_lengths() {
    let mut kvs = KvGroup::new();
    kvs.add("A", "short key");
    kvs.add("Medium Key", "medium");
    kvs.add("A Very Long Key Name", "long");
    assert_eq!(
        kvs.render(),
        vec![
            "  A                   : short key",
            "  Medium Key          : medium",
            "  A Very Long Key Name: long",
        ]
    );
}

#[test]
fn kvgroup_unicode_keys() {
    let mut kvs = KvGroup::new();
    kvs.add("名前", "Rust");
    kvs.add("バージョン", "1.85");
    kvs.add("OS", "macOS");
    assert_eq!(
        kvs.render(),
        vec!["  名前      : Rust", "  バージョン: 1.85", "  OS        : macOS"]
    );
}

#[test]
fn kvgroup_wide_and_narrow_keys_align() {
    let mut kvs = KvGroup::new();
    kvs.add("日本", "wide");
    kvs.add("abcd", "narrow");
    kvs.add("x", "short");
    let pairs = kvs.aligned_pairs();
    assert_eq!(pairs[0].0, "日本");
    assert_eq!(pairs[1].0, "abcd");
    assert_eq!(pairs[2].0, "x   ");
    for (key, _) in &pairs {
        assert_eq!(display_width(key), 4);
    }
    let lines = kvs.render();
    for line in &lines {
        let colon = line.find(':').unwrap();
        assert_eq!(display_width(&line[..colon]), 6);
    }
}

#[test]
fn kvgroup_keeps_duplicates_in_order() {
    let mut kvs = KvGroup::new();
    kvs.add("k", "1");
    kvs.add("k", "2");
    assert_eq!(kvs.render(), vec!["  k: 1", "  k: 2"]);
}

// KvGroup: max_key_width correctness

#[test]
fn kvgroup_max_key_width_empty() {
    let kvs = KvGroup::new();
    assert_eq!(kvs.max_key_width(), 0);
}

#[test]
fn kvgroup_max_key_width_ascii() {
    let mut kvs = KvGroup::new();
    kvs.add("A", "1");
    kvs.add("Medium Key", "2");
    kvs.add("A Very Long Key Name", "3");
    assert_eq!(kvs.max_key_width(), 20);
}

#[test]
fn kvgroup_max_key_width_cjk() {
    let mut kvs = KvGroup::new();
    kvs.add("名前", "Rust");
    kvs.add("バージョン", "1.85");
    kvs.add("OS", "macOS");
    assert_eq!(kvs.max_key_width(), 10);
}

#[test]
fn kvgroup_max_key_width_mixed() {
    let mut kvs = KvGroup::new();
    kvs.add("Local Cellar", "a");
    kvs.add("External日本", "b");
    assert_eq!(kvs.max_key_width(), 12);
}

// Default impls

#[test]
fn table_default() {
    let t = Table::default();
    assert!(t.render().is_empty());
}

#[test]
fn kvgroup_default() {
    let kvs = KvGroup::default();
    assert!(kvs.render().is_empty());
}

// Display width

#[test]
fn display_width_counts_columns() {
    assert_eq!(display_width(""), 0);
    assert_eq!(display_width("abc"), 3);
    assert_eq!(display_width("名前"), 4);
    assert_eq!(display_width("日本語"), 6);
}
