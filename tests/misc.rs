use scriptlets::cli::{flags_conflict, needs_prefix, ngram_order, ngram_over_max};
use scriptlets::counter::Counter;
use scriptlets::entries::{is_const_ignore, is_hidden, is_hidden_name, is_ignored_name, keep_entry, keep_in_walk};
use scriptlets::reverse::reverse;

#[test]
fn reverse_drops_the_first_item() {
    assert_eq!(reverse(&[0, 1, 2, 3, 4]), vec![4, 3, 2, 1]);
    assert_eq!(reverse(&[9]), Vec::<i32>::new());
    assert_eq!(reverse::<i32>(&[]), Vec::<i32>::new());
    assert_eq!(reverse(&["a".to_string(), "b".to_string()]), vec!["b".to_string()]);
}

#[test]
fn hidden_names() {
    assert!(is_hidden_name(".git"));
    assert!(is_hidden_name(".a"));
    assert!(!is_hidden_name("."));
    assert!(!is_hidden_name("src"));
    assert!(!is_hidden_name(""));
}

#[test]
fn ignored_names() {
    assert!(is_ignored_name(".git"));
    assert!(is_ignored_name(".venv"));
    assert!(!is_ignored_name(".gitignore"));
    assert!(!is_ignored_name("git"));
}

#[test]
fn walk_filter() {
    assert!(keep_in_walk(true, 3, true));
    assert!(keep_in_walk(false, 0, true));
    assert!(!keep_in_walk(false, 1, true));
    assert!(keep_in_walk(false, 1, false));
}

#[test]
fn walk_root_entry() {
    let root = walkdir::WalkDir::new(".").into_iter().next().unwrap().unwrap();
    assert!(!is_hidden(&root));
    assert!(!is_const_ignore(&root));
    assert!(keep_entry(&root, false));
}

#[test]
fn walk_entry_names() {
    let mut saw_src = false;
    for entry in walkdir::WalkDir::new(".").max_depth(1) {
        let entry = entry.unwrap();
        if entry.file_name() == "src" {
            saw_src = true;
            assert!(!is_hidden(&entry));
            assert!(!is_const_ignore(&entry));
        }
    }
    assert!(saw_src);
}

#[test]
fn counter_cycles_through_sevens() {
    let mut c = Counter::new();
    let mut seen = Vec::new();
    for _ in 0..13 {
        c.press();
        seen.push(c.value());
    }
    assert_eq!(seen, vec![7, 14, 21, 28, 35, 42, 49, 56, 63, 70, 77, 0, 7]);
}

#[test]
fn ngram_orders() {
    assert_eq!(ngram_order(None), 1);
    assert_eq!(ngram_order(Some(3)), 16);
    assert_eq!(ngram_order(Some(20)), 20);
    assert!(ngram_over_max(Some(17)));
    assert!(!ngram_over_max(Some(16)));
    assert!(!ngram_over_max(None));
}

#[test]
fn browser_prefix() {
    assert!(needs_prefix("www.rust-lang.org"));
    assert!(needs_prefix("http://example.com"));
    assert!(!needs_prefix("https://www.rust-lang.org"));
    assert!(needs_prefix("https:/"));
}

#[test]
fn exclusive_flags() {
    assert!(!flags_conflict(false, false, false));
    assert!(!flags_conflict(true, false, false));
    assert!(flags_conflict(true, true, false));
    assert!(flags_conflict(false, true, true));
    assert!(flags_conflict(true, true, true));
}
