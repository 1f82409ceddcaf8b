use style_browser::style_tree::StyleTree;

fn lines(v: &[&str]) -> Vec<String> {
    v.iter().map(|s| s.to_string()).collect()
}

#[test]
fn outline_round_trip() {
    let tree = StyleTree::from_lines(&lines(&["A", "\tB", "\tC", "\t\tD"]));
    assert_eq!(tree.children(0), vec![1]);
    assert_eq!(tree.children(1), vec![2, 3]);
    assert_eq!(tree.children(2), Vec::<usize>::new());
    assert_eq!(tree.children(3), vec![4]);
    assert_eq!(tree.children(4), Vec::<usize>::new());
    assert_eq!(tree.name(1), "A");
    assert_eq!(tree.name(2), "B");
    assert_eq!(tree.name(3), "C");
    assert_eq!(tree.name(4), "D");
}

#[test]
fn root_is_base() {
    let tree = StyleTree::new();
    assert_eq!(tree.base(), 0);
    assert_eq!(tree.name(0), "Root");
    assert_eq!(tree.children(0), Vec::<usize>::new());
}

#[test]
fn empty_outline_has_root_only() {
    let tree = StyleTree::from_lines(&Vec::new());
    assert_eq!(tree.name(tree.base()), "Root");
    assert_eq!(tree.children(0), Vec::<usize>::new());
}

#[test]
fn deep_jump_hangs_from_deepest_open_ancestor() {
    let tree = StyleTree::from_lines(&lines(&["A", "\t\t\tB", "C"]));
    assert_eq!(tree.children(0), vec![1, 3]);
    assert_eq!(tree.children(1), vec![2]);
    assert_eq!(tree.name(2), "B");
}

#[test]
fn indented_first_line_hangs_from_root() {
    let tree = StyleTree::from_lines(&lines(&["\t\tA", "B"]));
    assert_eq!(tree.children(0), vec![1, 2]);
    assert_eq!(tree.name(1), "A");
}

#[test]
fn returning_to_shallower_depth_closes_deeper_ancestors() {
    let tree = StyleTree::from_lines(&lines(&["Rock", "\tIndie", "\t\tShoegaze", "\tMetal", "Jazz", "\tBebop"]));
    assert_eq!(tree.children(0), vec![1, 5]);
    assert_eq!(tree.children(1), vec![2, 4]);
    assert_eq!(tree.children(2), vec![3]);
    assert_eq!(tree.children(5), vec![6]);
    assert_eq!(tree.name(6), "Bebop");
}

#[test]
fn names_keep_inner_tabs_and_unicode() {
    let tree = StyleTree::from_lines(&lines(&["Électro\tpop", "\tDrum & Bass"]));
    assert_eq!(tree.name(1), "Électro\tpop");
    assert_eq!(tree.name(2), "Drum & Bass");
}
