use scriptlets::combos::{combinatorial_ordered_tree_loop, combinatorial_ordered_tree_recursive, Symbol};

fn draw<const N: usize>(pats: &[[Symbol; N]]) -> Vec<String> {
    pats.iter().map(|p| p.iter().map(|s| s.glyph()).collect()).collect()
}

#[test]
fn recursive_order_for_three() {
    let out = combinatorial_ordered_tree_recursive([Symbol::A; 3], 0);
    assert_eq!(draw(&out), vec!["X__", "XX_", "XXX", "X_X", "_X_", "_XX", "__X"]);
}

#[test]
fn recursive_from_a_later_slot() {
    let out = combinatorial_ordered_tree_recursive([Symbol::B, Symbol::A, Symbol::A], 1);
    assert_eq!(draw(&out), vec!["XX_", "XXX", "X_X"]);
}

#[test]
fn recursive_past_the_end_is_empty() {
    let out = combinatorial_ordered_tree_recursive([Symbol::A; 2], 2);
    assert!(out.is_empty());
}

#[test]
fn loop_order_for_three() {
    let out: Vec<[Symbol; 3]> = combinatorial_ordered_tree_loop();
    assert_eq!(draw(&out), vec!["___", "X__", "_X_", "__X", "_XX", "XX_", "X_X", "XXX"]);
}

#[test]
fn loop_and_recursion_give_the_same_patterns() {
    let mut from_loop = draw(&combinatorial_ordered_tree_loop::<5>());
    let mut from_rec = vec!["_____".to_string()];
    from_rec.extend(draw(&combinatorial_ordered_tree_recursive([Symbol::A; 5], 0)));
    assert_eq!(from_loop.len(), 32);
    from_loop.sort();
    from_rec.sort();
    assert_eq!(from_loop, from_rec);
}

#[test]
fn glyphs() {
    assert_eq!(Symbol::A.glyph(), '_');
    assert_eq!(Symbol::B.glyph(), 'X');
}

#[test]
fn loop_with_no_slots() {
    let out: Vec<[Symbol; 0]> = combinatorial_ordered_tree_loop();
    assert_eq!(out.len(), 1);
}
