use style_browser::screen::{Queue, Request, State, Step, StyleViewScreen, TrackRecord};
use style_browser::style_tree::StyleTree;

fn rock_tree() -> StyleTree {
    let lines: Vec<String> = ["Rock", "\tIndie", "\tMetal"].iter().map(|s| s.to_string()).collect();
    StyleTree::from_lines(&lines)
}

fn names(v: &[&str]) -> Vec<String> {
    v.iter().map(|s| s.to_string()).collect()
}

fn track(file: &str, title: Option<&str>) -> TrackRecord {
    TrackRecord { file: file.to_string(), title: title.map(|t| t.to_string()) }
}

fn labels(rows: &[(String, bool)]) -> Vec<String> {
    rows.iter().map(|r| r.0.clone()).collect()
}

#[test]
fn entering_shows_first_level_and_aggregates_all() {
    let tree = rock_tree();
    let mut screen = StyleViewScreen::new();
    let saved = screen.begin_entrance(&tree);
    assert_eq!(saved, State::Style(0));
    let rows = screen.rows(State::Style(0), 10);
    assert_eq!(labels(&rows), vec!["<All>", "Rock"]);
    assert!(rows[0].1);

    assert!(matches!(screen.entrance_step(&tree), Step::Next));
    assert_eq!(labels(&screen.rows(State::Style(1), 10)), vec!["<All>", "Indie", "Metal"]);

    match screen.entrance_step(&tree) {
        Step::Fetch(Request::Artists { genres }) => assert_eq!(genres, vec![2, 3]),
        _ => panic!("expected a request for artists"),
    }
    screen.receive_artists(vec![names(&["Ann", "Bob"]), names(&["Bob"])]);
    assert_eq!(labels(&screen.rows(State::Artist, 10)), vec!["Ann", "Bob", "Bob"]);

    match screen.entrance_step(&tree) {
        Step::Fetch(Request::Albums { genres, artist }) => {
            assert_eq!(genres, vec![2, 3]);
            assert_eq!(artist, "Ann");
        },
        _ => panic!("expected a request for albums"),
    }
    screen.receive_albums(vec![names(&["First"]), names(&[])]);

    match screen.entrance_step(&tree) {
        Step::Fetch(Request::Tracks { genres, artist, album }) => {
            assert_eq!(genres, vec![2, 3]);
            assert_eq!(artist, "Ann");
            assert_eq!(album, "First");
        },
        _ => panic!("expected a request for tracks"),
    }
    screen.receive_tracks(vec![vec![track("a.flac", Some("One")), track("b.flac", None)], vec![track("c.flac", Some(""))]]);
    assert_eq!(labels(&screen.rows(State::Track, 10)), vec!["One", "<Empty>", "<Empty>"]);
    assert!(matches!(screen.entrance_step(&tree), Step::Done));

    screen.end_entrance(saved);
    assert_eq!(screen.next_state(), Some(State::Style(1)));
    assert_eq!(screen.prev_state(), None);
    assert_eq!(screen.header(State::Style(0)), "Type");
    assert_eq!(screen.header(State::Style(1)), "Style");
    assert_eq!(screen.header(State::Artist), "Artist");
}

#[test]
fn descend_through_leaf_level_asks_for_artists() {
    let tree = rock_tree();
    let mut screen = StyleViewScreen::new();
    let saved = screen.begin_entrance(&tree);
    screen.entrance_step(&tree);
    screen.end_entrance(saved);

    assert_eq!(screen.next_state(), Some(State::Style(1)));
    // Level 1 holds Indie and Metal, which have no children.
    match screen.descend(&tree) {
        Some(Request::Artists { genres }) => assert_eq!(genres, vec![2, 3]),
        _ => panic!("expected a request for artists"),
    }
    assert_eq!(screen.next_state(), Some(State::Artist));
    // No artist has come back yet: the step forward is refused.
    assert!(screen.descend(&tree).is_none());
    assert_eq!(screen.prev_state(), Some(State::Style(0)));
    match screen.move_down(&tree) {
        Some(Request::Artists { genres }) => assert_eq!(genres, vec![2]),
        _ => panic!("expected a request for artists"),
    }
    match screen.move_down(&tree) {
        Some(Request::Artists { genres }) => assert_eq!(genres, vec![3]),
        _ => panic!("expected a request for artists"),
    }
}

#[test]
fn descend_refused_when_next_list_empty() {
    let tree = StyleTree::from_lines(&Vec::new());
    let mut screen = StyleViewScreen::new();
    assert!(screen.next_menu_empty());
    assert!(screen.descend(&tree).is_none());
    assert_eq!(screen.next_state(), Some(State::Artist));
    assert_eq!(screen.prev_state(), None);

    let saved = screen.begin_entrance(&tree);
    match screen.entrance_step(&tree) {
        Step::Fetch(Request::Artists { genres }) => assert!(genres.is_empty()),
        _ => panic!("expected a request for artists"),
    }
    screen.receive_artists(vec![]);
    assert!(matches!(screen.entrance_step(&tree), Step::Done));
    screen.end_entrance(saved);
    assert!(screen.next_menu_empty());
    assert!(screen.descend(&tree).is_none());
    assert_eq!(screen.next_state(), Some(State::Artist));
}

#[test]
fn ascend_refused_only_at_start() {
    let tree = rock_tree();
    let mut screen = StyleViewScreen::new();
    screen.ascend();
    assert_eq!(screen.prev_state(), None);

    let saved = screen.begin_entrance(&tree);
    screen.entrance_step(&tree);
    screen.end_entrance(saved);
    screen.descend(&tree);
    screen.receive_artists(vec![names(&["Ann"])]);
    // At level 1, then artists.
    screen.descend(&tree);
    assert_eq!(screen.prev_state(), Some(State::Style(1)));
    screen.ascend();
    assert_eq!(screen.prev_state(), Some(State::Style(0)));
    screen.ascend();
    assert_eq!(screen.prev_state(), None);
}

#[test]
fn lateral_move_drops_deeper_levels() {
    let lines: Vec<String> = ["Rock", "\tIndie", "\t\tShoegaze", "Jazz"].iter().map(|s| s.to_string()).collect();
    let tree = StyleTree::from_lines(&lines);
    let mut screen = StyleViewScreen::new();
    let saved = screen.begin_entrance(&tree);
    assert!(matches!(screen.entrance_step(&tree), Step::Next));
    assert!(matches!(screen.entrance_step(&tree), Step::Next));
    screen.end_entrance(saved);
    assert_eq!(labels(&screen.rows(State::Style(2), 10)), vec!["<All>", "Shoegaze"]);

    // Rock: level 1 becomes Rock's children and level 2 goes.
    assert!(screen.move_down(&tree).is_none());
    assert_eq!(labels(&screen.rows(State::Style(1), 10)), vec!["<All>", "Indie"]);
    assert!(screen.rows(State::Style(2), 10).is_empty());

    // Jazz has no children: the artists of Jazz are asked for.
    match screen.move_down(&tree) {
        Some(Request::Artists { genres }) => assert_eq!(genres, vec![4]),
        _ => panic!("expected a request for artists"),
    }
    assert!(screen.rows(State::Style(1), 10).is_empty());
    assert_eq!(screen.next_state(), Some(State::Artist));
}

#[test]
fn search_moves_cursor_and_fetches() {
    let lines: Vec<String> = ["Rock", "\tIndie", "Jazz", "\tBebop"].iter().map(|s| s.to_string()).collect();
    let tree = StyleTree::from_lines(&lines);
    let mut screen = StyleViewScreen::new();
    let saved = screen.begin_entrance(&tree);
    screen.end_entrance(saved);
    assert!(screen.search("JAZ", &tree).is_none());
    assert_eq!(labels(&screen.rows(State::Style(1), 10)), vec!["<All>", "Bebop"]);
    assert!(screen.search("zzz", &tree).is_none());
    assert_eq!(labels(&screen.rows(State::Style(1), 10)), vec!["<All>", "Bebop"]);
}

#[test]
fn refresh_with_same_children_keeps_cursor() {
    let tree = rock_tree();
    let mut screen = StyleViewScreen::new();
    let saved = screen.begin_entrance(&tree);
    screen.entrance_step(&tree);
    screen.end_entrance(saved);
    screen.descend(&tree);
    screen.move_down(&tree);
    screen.ascend();
    // Fetching at level 0 again yields the same level 1: its cursor stays on Indie.
    assert!(screen.fetch(&tree).is_none());
    let rows = screen.rows(State::Style(1), 10);
    assert!(rows[1].1);
}

#[test]
fn queue_follows_the_state() {
    let tree = rock_tree();
    let mut screen = StyleViewScreen::new();
    let saved = screen.begin_entrance(&tree);
    screen.entrance_step(&tree);
    screen.entrance_step(&tree);
    screen.receive_artists(vec![names(&["Ann"])]);
    screen.entrance_step(&tree);
    screen.receive_albums(vec![names(&["First"])]);
    screen.entrance_step(&tree);
    screen.receive_tracks(vec![vec![track("a.flac", Some("One")), track("b.flac", Some("Two"))]]);
    screen.end_entrance(saved);

    match screen.queue_request() {
        Some(Queue::Matching { genres, artist, album }) => {
            assert_eq!(genres, vec![1]);
            assert!(artist.is_none());
            assert!(album.is_none());
        },
        _ => panic!("expected the tracks of the level"),
    }
    screen.descend(&tree);
    screen.descend(&tree);
    match screen.queue_request() {
        Some(Queue::Matching { genres, artist, album }) => {
            assert_eq!(genres, vec![2, 3]);
            assert_eq!(artist, Some("Ann".to_string()));
            assert!(album.is_none());
        },
        _ => panic!("expected the tracks of the artist"),
    }
    assert!(screen.descend(&tree).is_some());
    screen.receive_tracks(vec![vec![track("a.flac", Some("One")), track("b.flac", Some("Two"))]]);
    match screen.queue_request() {
        Some(Queue::Matching { artist, album, .. }) => {
            assert_eq!(artist, Some("Ann".to_string()));
            assert_eq!(album, Some("First".to_string()));
        },
        _ => panic!("expected the tracks of the album"),
    }
    screen.descend(&tree);
    screen.move_down(&tree);
    match screen.queue_request() {
        Some(Queue::Track { file }) => assert_eq!(file, "b.flac"),
        _ => panic!("expected one track"),
    }
    assert_eq!(screen.header(State::Track), "Track");
    assert_eq!(screen.name(), "Style View");
}

#[test]
fn headers_by_depth() {
    let screen = StyleViewScreen::new();
    assert_eq!(screen.header(State::Style(2)), "Sub-Style");
    assert_eq!(screen.header(State::Style(3)), "Genre");
    assert_eq!(screen.header(State::Style(4)), "Sub-Genre");
    assert_eq!(screen.header(State::Style(9)), "Tracks");
    assert_eq!(screen.header(State::Album), "Album");
}
