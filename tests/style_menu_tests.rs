use style_browser::item::Item;
use style_browser::style_menu::StyleMenu;
use style_browser::style_tree::StyleTree;

fn tree() -> StyleTree {
    let lines: Vec<String> = ["Rock", "\tIndie", "\tMetal", "\tPunk", "Jazz"]
        .iter()
        .map(|s| s.to_string())
        .collect();
    StyleTree::from_lines(&lines)
}

#[test]
fn set_styles_puts_all_first() {
    let t = tree();
    let mut m = StyleMenu::new();
    assert!(m.set_styles(vec![2, 3, 4], &t));
    assert!(*m.sel() == Item::All);
    assert_eq!(m.draw(10).iter().map(|r| r.0.clone()).collect::<Vec<_>>(), vec!["<All>", "Indie", "Metal", "Punk"]);
}

#[test]
fn same_styles_twice_reports_no_change() {
    let t = tree();
    let mut m = StyleMenu::new();
    assert!(m.set_styles(vec![2, 3, 4], &t));
    m.next();
    m.next();
    assert!(!m.set_styles(vec![2, 3, 4], &t));
    assert!(*m.sel() == Item::norm("Metal"));
    assert_eq!(m.style_selection(), vec![3]);
}

#[test]
fn different_styles_reset_cursor() {
    let t = tree();
    let mut m = StyleMenu::new();
    m.set_styles(vec![2, 3, 4], &t);
    m.next();
    assert!(m.set_styles(vec![3, 2, 4], &t));
    assert!(*m.sel() == Item::All);
    m.next();
    assert!(m.set_styles(vec![2, 3], &t));
    assert!(*m.sel() == Item::All);
}

#[test]
fn all_selects_every_style_in_order() {
    let t = tree();
    let mut m = StyleMenu::new();
    m.set_styles(vec![4, 2, 3], &t);
    assert_eq!(m.style_selection(), vec![4, 2, 3]);
}

#[test]
fn single_entry_selects_itself() {
    let t = tree();
    let mut m = StyleMenu::new();
    m.set_styles(vec![2, 3, 4], &t);
    m.prev();
    assert_eq!(m.style_selection(), vec![4]);
}

#[test]
fn emptiness() {
    let t = tree();
    let mut m = StyleMenu::new();
    assert!(m.is_empty());
    m.set_styles(vec![], &t);
    assert!(m.is_empty());
    m.set_styles(vec![1], &t);
    assert!(!m.is_empty());
}

#[test]
fn style_search_ignores_case() {
    let t = tree();
    let mut m = StyleMenu::new();
    m.set_styles(vec![2, 3, 4], &t);
    m.search("UNK");
    assert!(*m.sel() == Item::norm("Punk"));
    m.search("nothing");
    assert!(*m.sel() == Item::norm("Punk"));
}

#[test]
fn style_wraps_around() {
    let t = tree();
    let mut m = StyleMenu::new();
    m.set_styles(vec![2, 3], &t);
    for _ in 0..3 {
        m.next();
    }
    assert!(*m.sel() == Item::All);
    m.prev();
    assert!(*m.sel() == Item::norm("Metal"));
}
