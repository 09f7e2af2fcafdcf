use concinnity_gfx::path_order::{PathOrder, unique_dirs};

fn some(dirs: &[&str]) -> Vec<Option<String>> {
    dirs.iter().map(|d| Some(d.to_string())).collect()
}

fn by_rank(a: &str, b: &str) -> PathOrder {
    if a < b {
        PathOrder::Before
    } else if a == b {
        PathOrder::Same
    } else {
        PathOrder::After
    }
}

/// A comparison under which both separators are one and case does not count.
fn either_separator(a: &String, b: &String) -> PathOrder {
    let read = |s: &String| s.replace('\\', "/").to_lowercase();
    by_rank(&read(a), &read(b))
}

#[test]
fn the_comparison_decides_what_is_the_same() {
    let parents = some(&["b\\c", "a", "B/c", "b/c", "A"]);
    assert_eq!(unique_dirs(&parents, &either_separator), vec!["a", "b\\c"]);
    let plain = |a: &String, b: &String| by_rank(a, b);
    assert_eq!(unique_dirs(&parents, &plain), vec!["A", "B/c", "a", "b/c", "b\\c"]);
}

#[test]
fn the_comparison_decides_the_order() {
    let backwards = |a: &String, b: &String| by_rank(b, a);
    assert_eq!(unique_dirs(&some(&["a", "c", "b", "c"]), &backwards), vec!["c", "b", "a"]);
}

#[test]
fn absent_and_empty_directories_are_left_out() {
    let parents = vec![None, Some(String::new()), Some("a".to_string()), None];
    assert_eq!(unique_dirs(&parents, &either_separator), vec!["a"]);
    assert_eq!(unique_dirs(&vec![], &either_separator), Vec::<String>::new());
}
