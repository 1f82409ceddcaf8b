use style_browser::item::Item;
use style_browser::menu::Menu;

fn named(v: &[&str]) -> Vec<Item> {
    v.iter().map(|s| Item::from(s)).collect()
}

fn greek() -> Menu {
    let mut m = Menu::new();
    m.set_items(named(&["Alpha", "Beta", "Gamma"]));
    m
}

#[test]
fn item_from_blank_is_empty() {
    assert!(Item::from("") == Item::Empty);
    assert!(Item::from("x") == Item::norm("x"));
    assert!(Item::from("x") != Item::from("X"));
    assert!(Item::All != Item::Empty);
}

#[test]
fn item_text_and_label() {
    assert_eq!(Item::norm("Rock").val(), "Rock");
    assert_eq!(Item::Empty.val(), "");
    assert_eq!(Item::All.val(), "");
    assert_eq!(Item::norm("Rock").label(), "Rock");
    assert_eq!(Item::Empty.label(), "<Empty>");
    assert_eq!(Item::All.label(), "<All>");
}

#[test]
fn search_is_case_insensitive_substring() {
    let mut m = greek();
    m.search("ET");
    assert_eq!(m.i(), 1);
    assert!(*m.sel() == Item::norm("Beta"));
}

#[test]
fn search_without_match_keeps_cursor() {
    let mut m = greek();
    m.next();
    m.next();
    m.search("zzz");
    assert_eq!(m.i(), 2);
}

#[test]
fn search_with_empty_query_keeps_cursor() {
    let mut m = greek();
    m.next();
    m.search("");
    assert_eq!(m.i(), 1);
}

#[test]
fn search_takes_first_match_from_the_top() {
    let mut m = greek();
    m.next();
    m.next();
    m.search("a");
    assert_eq!(m.i(), 0);
}

#[test]
fn search_longer_than_every_entry_finds_nothing() {
    let mut m = greek();
    m.search("Alphabetical");
    assert_eq!(m.i(), 0);
}

#[test]
fn next_wraps_after_n_steps() {
    for start in 0..3 {
        let mut m = greek();
        for _ in 0..start {
            m.next();
        }
        assert_eq!(m.i(), start);
        for _ in 0..3 {
            m.next();
        }
        assert_eq!(m.i(), start);
    }
}

#[test]
fn prev_wraps_after_n_steps() {
    for start in 0..3 {
        let mut m = greek();
        for _ in 0..start {
            m.next();
        }
        for _ in 0..3 {
            m.prev();
        }
        assert_eq!(m.i(), start);
    }
}

#[test]
fn prev_from_first_goes_to_last() {
    let mut m = greek();
    m.prev();
    assert_eq!(m.i(), 2);
    m.next();
    assert_eq!(m.i(), 0);
}

#[test]
fn moves_on_empty_list_do_nothing() {
    let mut m = Menu::new();
    assert!(m.is_empty());
    m.next();
    m.prev();
    m.search("a");
    assert_eq!(m.i(), 0);
    assert!(m.draw(10).is_empty());
}

#[test]
fn set_items_resets_cursor() {
    let mut m = greek();
    m.next();
    m.set_items(named(&["Alpha", "Beta", "Gamma"]));
    assert_eq!(m.i(), 0);
    assert!(!m.is_empty());
}

#[test]
fn selection_of_named_and_blank() {
    let mut m = Menu::new();
    m.set_items(vec![Item::norm("Beta"), Item::Empty]);
    assert_eq!(m.selection(), vec!["Beta"]);
    m.next();
    assert!(m.selection().is_empty());
}

fn many(n: usize) -> Menu {
    let mut m = Menu::new();
    m.set_items((0..n).map(|i| Item::norm(&format!("e{}", i))).collect());
    m
}

fn shown(rows: &[(String, bool)]) -> Vec<String> {
    rows.iter().map(|r| r.0.clone()).collect()
}

#[test]
fn window_starts_at_top_near_top() {
    let m = many(10);
    let rows = m.draw(5);
    assert_eq!(shown(&rows), vec!["e0", "e1", "e2", "e3"]);
    assert!(rows[0].1);
    assert!(!rows[1].1);
}

#[test]
fn window_keeps_cursor_on_center_row() {
    let mut m = many(10);
    for _ in 0..5 {
        m.next();
    }
    let rows = m.draw(5);
    assert_eq!(shown(&rows), vec!["e3", "e4", "e5", "e6"]);
    assert!(rows[2].1);
}

#[test]
fn window_center_row_for_even_height() {
    let mut m = many(10);
    for _ in 0..5 {
        m.next();
    }
    let rows = m.draw(6);
    assert_eq!(shown(&rows), vec!["e3", "e4", "e5", "e6", "e7"]);
    assert!(rows[2].1);
}

#[test]
fn window_shows_last_entry_near_bottom() {
    let mut m = many(10);
    m.prev();
    let rows = m.draw(5);
    assert_eq!(shown(&rows), vec!["e6", "e7", "e8", "e9"]);
    assert!(rows[3].1);
}

#[test]
fn window_of_short_list_shows_all() {
    let mut m = many(3);
    m.prev();
    let rows = m.draw(20);
    assert_eq!(shown(&rows), vec!["e0", "e1", "e2"]);
    assert!(rows[2].1);
}

#[test]
fn window_of_tiny_pane_is_empty() {
    let m = many(3);
    assert!(m.draw(1).is_empty());
    assert!(m.draw(0).is_empty());
}

#[test]
fn window_labels_placeholders() {
    let mut m = Menu::new();
    m.set_items(vec![Item::All, Item::Empty]);
    assert_eq!(shown(&m.draw(4)), vec!["<All>", "<Empty>"]);
}
