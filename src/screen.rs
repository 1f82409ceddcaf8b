use vstd::prelude::*;
use vstd::string::*;

use crate::item::{Item, ItemModel, item_of_text, item_text};
use crate::menu::{Menu, MenuModel, next_index, prev_index, rows_shown, search_index};
use crate::style_menu::{StyleMenu, StyleMenuModel, fresh_style_menu, selected_styles, set_styles_model};
use crate::style_tree::{Style, StyleTree};

verus! {

/// Where the user is: a level of the taxonomy, or one of the three fixed stages after it.
#[derive(Clone, Copy, PartialEq, Eq, Structural, Debug)]
pub enum State {
    Style(usize),
    Artist,
    Album,
    Track,
}

/// The state one step forward: the next taxonomy level where one has been fetched, else
/// the artists; then albums and tracks; nothing after the tracks.
pub open spec fn next_state_of(s: State, depth: nat) -> Option<State> {
    match s {
        State::Style(i) => if i + 1 < depth {
            Some(State::Style((i + 1) as usize))
        } else {
            Some(State::Artist)
        },
        State::Artist => Some(State::Album),
        State::Album => Some(State::Track),
        State::Track => None,
    }
}

/// The state one step back: nothing before the first taxonomy level; the deepest level
/// fetched before the artists.
pub open spec fn prev_state_of(s: State, depth: nat) -> Option<State> {
    match s {
        State::Style(i) => if i == 0 {
            None
        } else {
            Some(State::Style((i - 1) as usize))
        },
        State::Artist => Some(State::Style(if depth > 0 { (depth - 1) as usize } else { 0 })),
        State::Album => Some(State::Artist),
        State::Track => Some(State::Album),
    }
}

/// A state that a stack of `depth` style lists can stand in.
pub open spec fn state_fits(s: State, depth: nat) -> bool {
    match s {
        State::Style(i) => i < depth || i == 0,
        _ => true,
    }
}

/// The model of a track that the library returned.
pub struct TrackModel {
    pub file: Seq<char>,
    pub title: Option<Seq<char>>,
}

/// The entry a track shows as: its title, or the placeholder when it has none.
pub open spec fn track_item(t: TrackModel) -> ItemModel {
    match t.title {
        Some(s) => item_of_text(s),
        None => ItemModel::Empty,
    }
}

/// A track as the library returned it: the path to enqueue it by, and its title.
pub struct TrackRecord {
    pub file: String,
    pub title: Option<String>,
}

impl View for TrackRecord {
    type V = TrackModel;

    open spec fn view(&self) -> TrackModel {
        TrackModel {
            file: self.file@,
            title: match self.title {
                Some(s) => Some(s@),
                None => None,
            },
        }
    }
}

/// The model of the controller.
pub struct ScreenModel {
    pub state: State,
    pub styles: Seq<StyleMenuModel>,
    pub artists: MenuModel,
    pub albums: MenuModel,
    pub tracks: MenuModel,
    pub songs: Seq<TrackModel>,
}

/// Whether the list that a step forward from `m` would show is empty.
pub open spec fn next_menu_empty_of(m: ScreenModel) -> bool {
    match next_state_of(m.state, m.styles.len()) {
        Some(State::Style(i)) => m.styles[i as int].styles.len() <= 1,
        Some(State::Artist) => m.artists.items.len() == 0,
        Some(State::Album) => m.albums.items.len() == 0,
        Some(State::Track) => m.tracks.items.len() == 0,
        None => true,
    }
}

/// The children of every style of `parents`, parent by parent.
pub open spec fn gathered(tree: StyleTree, parents: Seq<Style>) -> Seq<Style>
    decreases parents.len(),
{
    if parents.len() == 0 {
        Seq::empty()
    } else {
        gathered(tree, parents.drop_last()) + tree.child_list(parents.last())
    }
}

/// The styles whose children make the level after level `i`: those selected at level
/// `i`, or the root when no level has been fetched.
pub open spec fn level_parents(stack: Seq<StyleMenuModel>, i: nat) -> Seq<Style> {
    if i < stack.len() {
        selected_styles(stack[i as int])
    } else {
        seq![0]
    }
}

/// The stack of style lists once the level after level `i` has been fetched as `kids`:
/// with no children, the deeper levels go; a level that already stands after `i` is
/// refreshed in place, and the levels under it go only when it changed; else the new
/// level is pushed. An empty stack gets its first level.
pub open spec fn styles_after_fetch(
    stack: Seq<StyleMenuModel>,
    i: nat,
    kids: Seq<Style>,
    names: Seq<Seq<char>>,
) -> Seq<StyleMenuModel> {
    if kids.len() == 0 {
        if stack.len() > i + 1 {
            stack.subrange(0, i + 1int)
        } else {
            stack
        }
    } else if stack.len() > i + 1 {
        let (m, changed) = set_styles_model(stack[i + 1int], kids, names);
        if changed {
            stack.subrange(0, i + 1int).push(m)
        } else {
            stack
        }
    } else {
        stack.push(fresh_style_menu(kids, names))
    }
}

/// A question for the music library: the values of one tag among the tracks of the
/// given genres and, further on, of an artist and an album.
pub enum RequestModel {
    Artists(Seq<Style>),
    Albums(Seq<Style>, Seq<char>),
    Tracks(Seq<Style>, Seq<char>, Seq<char>),
}

/// A question for the music library. The answer comes back one list per genre, in the
/// order of `genres`: artists and albums as names, tracks as records.
pub enum Request {
    Artists { genres: Vec<Style> },
    Albums { genres: Vec<Style>, artist: String },
    Tracks { genres: Vec<Style>, artist: String, album: String },
}

impl View for Request {
    type V = RequestModel;

    open spec fn view(&self) -> RequestModel {
        match self {
            Request::Artists { genres } => RequestModel::Artists(genres@),
            Request::Albums { genres, artist } => RequestModel::Albums(genres@, artist@),
            Request::Tracks { genres, artist, album } => RequestModel::Tracks(genres@, artist@, album@),
        }
    }
}

pub open spec fn request_view(r: Option<Request>) -> Option<RequestModel> {
    match r {
        Some(q) => Some(q@),
        None => None,
    }
}

/// What to put in the play queue.
pub enum QueueModel {
    Matching(Seq<Style>, Option<Seq<char>>, Option<Seq<char>>),
    Track(Seq<char>),
}

/// What to put in the play queue: every track of the genres (and of the artist and the
/// album, where given), or one track by its path.
pub enum Queue {
    Matching { genres: Vec<Style>, artist: Option<String>, album: Option<String> },
    Track { file: String },
}

pub open spec fn opt_text(s: Option<String>) -> Option<Seq<char>> {
    match s {
        Some(t) => Some(t@),
        None => None,
    }
}

impl View for Queue {
    type V = QueueModel;

    open spec fn view(&self) -> QueueModel {
        match self {
            Queue::Matching { genres, artist, album } => QueueModel::Matching(
                genres@,
                opt_text(*artist),
                opt_text(*album),
            ),
            Queue::Track { file } => QueueModel::Track(file@),
        }
    }
}

pub open spec fn queue_view(r: Option<Queue>) -> Option<QueueModel> {
    match r {
        Some(q) => Some(q@),
        None => None,
    }
}

/// One step of the look-ahead on entering the screen.
pub enum StepModel {
    Done,
    Next,
    Fetch(RequestModel),
}

/// One step of the look-ahead on entering the screen: it is over, it goes on, or it
/// goes on once the library has answered the request.
pub enum Step {
    Done,
    Next,
    Fetch(Request),
}

impl View for Step {
    type V = StepModel;

    open spec fn view(&self) -> StepModel {
        match self {
            Step::Done => StepModel::Done,
            Step::Next => StepModel::Next,
            Step::Fetch(q) => StepModel::Fetch(q@),
        }
    }
}

/// The styles that filter the artists, albums and tracks: those selected at the
/// deepest level fetched.
pub open spec fn genres_of(m: ScreenModel) -> Seq<Style> {
    if m.styles.len() == 0 {
        Seq::empty()
    } else {
        selected_styles(m.styles.last())
    }
}

pub open spec fn artist_text(m: ScreenModel) -> Seq<char> {
    item_text(m.artists.items[m.artists.sel as int])
}

pub open spec fn album_text(m: ScreenModel) -> Seq<char> {
    item_text(m.albums.items[m.albums.sel as int])
}

pub open spec fn artists_request_of(m: ScreenModel) -> RequestModel {
    RequestModel::Artists(genres_of(m))
}

/// The albums of the selected artist; none without an artist.
pub open spec fn albums_request_of(m: ScreenModel) -> Option<RequestModel> {
    if m.artists.items.len() == 0 {
        None
    } else {
        Some(RequestModel::Albums(genres_of(m), artist_text(m)))
    }
}

/// The tracks of the selected artist and album; none without both.
pub open spec fn tracks_request_of(m: ScreenModel) -> Option<RequestModel> {
    if m.artists.items.len() == 0 || m.albums.items.len() == 0 {
        None
    } else {
        Some(RequestModel::Tracks(genres_of(m), artist_text(m), album_text(m)))
    }
}

/// The index of the last level fetched, or 0 when none is.
pub open spec fn last_level(m: ScreenModel) -> nat {
    if m.styles.len() > 0 {
        (m.styles.len() - 1) as nat
    } else {
        0
    }
}

/// What fetching for the current state does: at a taxonomy level it fetches the level
/// after it and, where that has no styles, asks for the artists; at the artists it asks
/// for the albums, at the albums for the tracks.
pub open spec fn fetch_model(m: ScreenModel, tree: StyleTree) -> (ScreenModel, Option<RequestModel>) {
    match m.state {
        State::Style(i) => {
            let kids = gathered(tree, level_parents(m.styles, i as nat));
            let m2 = ScreenModel {
                styles: styles_after_fetch(m.styles, i as nat, kids, tree.names_view()),
                ..m
            };
            (m2, if kids.len() == 0 { Some(artists_request_of(m2)) } else { None })
        },
        State::Artist => (m, albums_request_of(m)),
        State::Album => (m, tracks_request_of(m)),
        State::Track => (m, None),
    }
}

/// The list that a lateral move acts on, with its cursor moved by `f`; at a taxonomy
/// level the deeper levels are dropped.
pub open spec fn with_cursor(m: ScreenModel, f: spec_fn(Seq<ItemModel>, nat) -> nat) -> ScreenModel {
    match m.state {
        State::Style(i) => if i < m.styles.len() {
            let l = m.styles[i as int];
            ScreenModel {
                styles: m.styles.subrange(0, i + 1int).update(
                    i as int,
                    StyleMenuModel { sel: f(l.items, l.sel), ..l },
                ),
                ..m
            }
        } else {
            m
        },
        State::Artist => ScreenModel {
            artists: MenuModel { sel: f(m.artists.items, m.artists.sel), ..m.artists },
            ..m
        },
        State::Album => ScreenModel {
            albums: MenuModel { sel: f(m.albums.items, m.albums.sel), ..m.albums },
            ..m
        },
        State::Track => ScreenModel {
            tracks: MenuModel { sel: f(m.tracks.items, m.tracks.sel), ..m.tracks },
            ..m
        },
    }
}

/// The entries of a list of names returned one list per genre, in order.
pub open spec fn values_items(lists: Seq<Vec<String>>) -> Seq<ItemModel>
    decreases lists.len(),
{
    if lists.len() == 0 {
        Seq::empty()
    } else {
        values_items(lists.drop_last()) + lists.last()@.map_values(|s: String| item_of_text(s@))
    }
}

/// The tracks returned one list per genre, in order.
pub open spec fn tracks_of(lists: Seq<Vec<TrackRecord>>) -> Seq<TrackModel>
    decreases lists.len(),
{
    if lists.len() == 0 {
        Seq::empty()
    } else {
        tracks_of(lists.drop_last()) + lists.last()@.map_values(|t: TrackRecord| t@)
    }
}

/// What the queue action puts in the play queue: at a taxonomy level every track of
/// the styles selected there; at the artists and albums, the tracks of the selection
/// so far; at the tracks, the selected track alone.
pub open spec fn queue_of(m: ScreenModel) -> Option<QueueModel> {
    match m.state {
        State::Style(i) => Some(
            QueueModel::Matching(
                if i < m.styles.len() {
                    selected_styles(m.styles[i as int])
                } else {
                    Seq::empty()
                },
                None,
                None,
            ),
        ),
        State::Artist => if m.artists.items.len() == 0 {
            None
        } else {
            Some(QueueModel::Matching(genres_of(m), Some(artist_text(m)), None))
        },
        State::Album => if m.artists.items.len() == 0 || m.albums.items.len() == 0 {
            None
        } else {
            Some(QueueModel::Matching(genres_of(m), Some(artist_text(m)), Some(album_text(m))))
        },
        State::Track => if m.tracks.items.len() == 0 {
            None
        } else {
            Some(QueueModel::Track(m.songs[m.tracks.sel as int].file))
        },
    }
}

/// The list shown for a state, if there is one.
pub open spec fn pane_of(m: ScreenModel, s: State) -> Option<(Seq<ItemModel>, nat)> {
    match s {
        State::Style(i) => if i < m.styles.len() {
            Some((m.styles[i as int].items, m.styles[i as int].sel))
        } else {
            None
        },
        State::Artist => Some((m.artists.items, m.artists.sel)),
        State::Album => Some((m.albums.items, m.albums.sel)),
        State::Track => Some((m.tracks.items, m.tracks.sel)),
    }
}

/// The header over the list of a state.
pub open spec fn header_of(s: State) -> Seq<char> {
    match s {
        State::Style(0) => "Type"@,
        State::Style(1) => "Style"@,
        State::Style(2) => "Sub-Style"@,
        State::Style(3) => "Genre"@,
        State::Style(4) => "Sub-Genre"@,
        State::Style(_) => "Tracks"@,
        State::Artist => "Artist"@,
        State::Album => "Album"@,
        State::Track => "Track"@,
    }
}

/// Only the first taxonomy level has no state before it.
pub proof fn lemma_only_start_has_no_prev(s: State, depth: nat)
    ensures
        prev_state_of(s, depth) is None <==> s == State::Style(0),
{
}

/// The controller of the three-pane browser: a stack of style lists, one per taxonomy
/// level visited, and the artist, album and track lists after them.
pub struct StyleViewScreen {
    state: State,
    name: String,
    styles: Vec<StyleMenu>,
    artists: Menu,
    albums: Menu,
    tracks: Menu,
    songs: Vec<TrackRecord>,
}

impl View for StyleViewScreen {
    type V = ScreenModel;

    closed spec fn view(&self) -> ScreenModel {
        ScreenModel {
            state: self.state,
            styles: self.styles@.map_values(|m: StyleMenu| m@),
            artists: self.artists@,
            albums: self.albums@,
            tracks: self.tracks@,
            songs: self.songs@.map_values(|t: TrackRecord| t@),
        }
    }
}

impl StyleViewScreen {
    /// Every list is well formed, every style list holds an entry, each track has its
    /// entry, and the state stands on a level that exists.
    pub closed spec fn wf(&self) -> bool {
        &&& forall|k: int| 0 <= k < self.styles@.len() ==> (#[trigger] self.styles@[k]).wf()
            && self.styles@[k]@.items.len() > 0
        &&& self.artists.wf()
        &&& self.albums.wf()
        &&& self.tracks.wf()
        &&& self.tracks@.items == self.songs@.map_values(|t: TrackRecord| track_item(t@))
        &&& state_fits(self.state, self.styles@.len())
        &&& self.name@ == "Style View"@
    }

    pub fn new() -> (r: StyleViewScreen)
        ensures
            r.wf(),
            r@.state == State::Style(0),
            r@.styles.len() == 0,
            r@.artists.items.len() == 0,
            r@.albums.items.len() == 0,
            r@.tracks.items.len() == 0,
            r@.songs.len() == 0,
    {
        proof {
            reveal_strlit("Style View");
        }
        let r = StyleViewScreen {
            name: String::from_str("Style View"),
            state: State::Style(0),
            styles: Vec::new(),
            artists: Menu::new(),
            albums: Menu::new(),
            tracks: Menu::new(),
            songs: Vec::new(),
        };
        assert(r.songs@.map_values(|t: TrackRecord| track_item(t@)) =~= r.tracks@.items);
        assert(r@.styles =~= Seq::<StyleMenuModel>::empty());
        r
    }

    /// The title of the screen.
    pub fn name(&self) -> (r: &str)
        requires
            self.wf(),
        ensures
            r@ == "Style View"@,
    {
        self.name.as_str()
    }

    /// The current state.
    pub fn state(&self) -> (r: State)
        ensures
            r == self@.state,
    {
        self.state
    }

    /// The state a step forward leads to.
    pub fn next_state(&self) -> (r: Option<State>)
        requires
            self.wf(),
        ensures
            r == next_state_of(self@.state, self@.styles.len()),
    {
        match self.state {
            State::Style(i) => if self.styles.len() > 0 && i < self.styles.len() - 1 {
                Some(State::Style(i + 1))
            } else {
                Some(State::Artist)
            },
            State::Artist => Some(State::Album),
            State::Album => Some(State::Track),
            State::Track => None,
        }
    }

    /// The state a step back leads to.
    pub fn prev_state(&self) -> (r: Option<State>)
        requires
            self.wf(),
        ensures
            r == prev_state_of(self@.state, self@.styles.len()),
    {
        match self.state {
            State::Style(i) => if i == 0 {
                None
            } else {
                Some(State::Style(i - 1))
            },
            State::Artist => Some(
                State::Style(
                    if self.styles.len() > 0 {
                        self.styles.len() - 1
                    } else {
                        0
                    },
                ),
            ),
            State::Album => Some(State::Artist),
            State::Track => Some(State::Album),
        }
    }

    /// Whether the list a step forward would show is empty, so that the step is refused.
    pub fn next_menu_empty(&self) -> (r: bool)
        requires
            self.wf(),
        ensures
            r == next_menu_empty_of(self@),
    {
        match self.next_state() {
            Some(State::Style(i)) => self.styles[i].is_empty(),
            Some(State::Artist) => self.artists.is_empty(),
            Some(State::Album) => self.albums.is_empty(),
            Some(State::Track) => self.tracks.is_empty(),
            None => true,
        }
    }

    /// Fetches the level after level `i` (the first level when none is fetched) from the
    /// styles selected at level `i`; returns whether they have no children.
    fn fetch_styles(&mut self, tree: &StyleTree, i: usize) -> (leaf: bool)
        requires
            old(self).wf(),
            tree.wf(),
            i < old(self)@.styles.len() || i == 0,
            old(self)@.state is Style ==> old(self)@.state->0 <= i,
        ensures
            final(self).wf(),
            ({
                let kids = gathered(*tree, level_parents(old(self)@.styles, i as nat));
                &&& leaf == (kids.len() == 0)
                &&& final(self)@ == ScreenModel {
                    styles: styles_after_fetch(old(self)@.styles, i as nat, kids, tree.names_view()),
                    ..old(self)@
                }
            }),
    {
        let parents = if i < self.styles.len() {
            self.styles[i].style_selection()
        } else {
            vec![0]
        };
        assert(parents@ == level_parents(old(self)@.styles, i as nat));
        let mut kids: Vec<Style> = Vec::new();
        let mut k: usize = 0;
        while k < parents.len()
            invariant
                tree.wf(),
                k <= parents@.len(),
                kids@ == gathered(*tree, parents@.subrange(0, k as int)),
                forall|j: int| 0 <= j < kids@.len() ==> (#[trigger] kids@[j]) < tree.len(),
            decreases parents@.len() - k,
        {
            let mut c = tree.children(parents[k]);
            let ghost c0 = c@;
            proof {
                assert(parents@.subrange(0, k + 1).drop_last() =~= parents@.subrange(0, k as int));
            }
            let ghost kids0 = kids@;
            kids.append(&mut c);
            proof {
                assert forall|j: int| 0 <= j < kids@.len() implies (#[trigger] kids@[j]) < tree.len() by {
                    if j >= kids0.len() {
                        assert(tree.is_child(c0[j - kids0.len()] as int, parents@[k as int]));
                    }
                }
            }
            k = k + 1;
        }
        assert(parents@.subrange(0, parents@.len() as int) =~= parents@);
        let ghost old_styles = self@.styles;
        let ghost old_vec = self.styles@;
        if kids.len() == 0 {
            if self.styles.len() > i + 1 {
                self.styles.truncate(i + 1);
                assert(self@.styles =~= old_styles.subrange(0, i + 1));
                assert forall|k: int| 0 <= k < self.styles@.len() implies (#[trigger] self.styles@[k]).wf()
                    && self.styles@[k]@.items.len() > 0 by {
                    assert(self.styles@[k] == old_vec[k]);
                }
            }
            return true;
        }
        if self.styles.len() > i + 1 {
            let changed = self.styles[i + 1].set_styles(kids, tree);
            proof {
                assert forall|k: int| 0 <= k < self.styles@.len() implies (#[trigger] self.styles@[k]).wf()
                    && self.styles@[k]@.items.len() > 0 by {
                    if k != i + 1 {
                        assert(self.styles@[k] == old_vec[k]);
                    }
                }
            }
            if changed {
                self.styles.truncate(i + 2);
                assert(self@.styles =~= styles_after_fetch(old_styles, i as nat, kids@, tree.names_view()));
            } else {
                assert(self@.styles =~= old_styles);
            }
        } else {
            let mut m = StyleMenu::new();
            m.set_styles(kids, tree);
            self.styles.push(m);
            assert(self@.styles =~= old_styles.push(m@));
            assert forall|k: int| 0 <= k < self.styles@.len() implies (#[trigger] self.styles@[k]).wf()
                && self.styles@[k]@.items.len() > 0 by {
                if k < old_vec.len() {
                    assert(self.styles@[k] == old_vec[k]);
                }
            }
        }
        false
    }

    /// The styles selected at the deepest level fetched.
    fn genres(&self) -> (r: Vec<Style>)
        requires
            self.wf(),
        ensures
            r@ == genres_of(self@),
    {
        if self.styles.len() == 0 {
            let r: Vec<Style> = Vec::new();
            assert(r@ =~= Seq::<Style>::empty());
            r
        } else {
            self.styles[self.styles.len() - 1].style_selection()
        }
    }

    /// The request for the artists of the selected genres.
    pub fn fetch_artists(&self) -> (r: Request)
        requires
            self.wf(),
        ensures
            r@ == artists_request_of(self@),
    {
        Request::Artists { genres: self.genres() }
    }

    /// The request for the albums of the selected artist, if one is.
    pub fn fetch_albums(&self) -> (r: Option<Request>)
        requires
            self.wf(),
        ensures
            request_view(r) == albums_request_of(self@),
    {
        if self.artists.is_empty() {
            return None;
        }
        let artist = String::from_str(self.artists.sel().val());
        Some(Request::Albums { genres: self.genres(), artist })
    }

    /// The request for the tracks of the selected artist and album, if both are.
    pub fn fetch_tracks(&self) -> (r: Option<Request>)
        requires
            self.wf(),
        ensures
            request_view(r) == tracks_request_of(self@),
    {
        if self.artists.is_empty() || self.albums.is_empty() {
            return None;
        }
        let artist = String::from_str(self.artists.sel().val());
        let album = String::from_str(self.albums.sel().val());
        Some(Request::Tracks { genres: self.genres(), artist, album })
    }

    /// Fills the artist list with the names returned, one list per genre, in order.
    pub fn receive_artists(&mut self, lists: Vec<Vec<String>>)
        requires
            old(self).wf(),
        ensures
            final(self).wf(),
            final(self)@ == (ScreenModel {
                artists: MenuModel { items: values_items(lists@), sel: 0 },
                ..old(self)@
            }),
    {
        let items = items_of_values(&lists);
        self.artists.set_items(items);
    }

    /// Fills the album list with the names returned, one list per genre, in order.
    pub fn receive_albums(&mut self, lists: Vec<Vec<String>>)
        requires
            old(self).wf(),
        ensures
            final(self).wf(),
            final(self)@ == (ScreenModel {
                albums: MenuModel { items: values_items(lists@), sel: 0 },
                ..old(self)@
            }),
    {
        let items = items_of_values(&lists);
        self.albums.set_items(items);
    }

    /// Keeps the tracks returned, one list per genre, in order, and lists them by title.
    pub fn receive_tracks(&mut self, lists: Vec<Vec<TrackRecord>>)
        requires
            old(self).wf(),
        ensures
            final(self).wf(),
            final(self)@ == (ScreenModel {
                songs: tracks_of(lists@),
                tracks: MenuModel {
                    items: tracks_of(lists@).map_values(|t: TrackModel| track_item(t)),
                    sel: 0,
                },
                ..old(self)@
            }),
    {
        let mut songs: Vec<TrackRecord> = Vec::new();
        let mut items: Vec<Item> = Vec::new();
        let mut k: usize = 0;
        while k < lists.len()
            invariant
                k <= lists@.len(),
                songs@.map_values(|t: TrackRecord| t@) =~= tracks_of(lists@.subrange(0, k as int)),
                items@.map_values(|i: Item| i@) =~= tracks_of(lists@.subrange(0, k as int)).map_values(
                    |t: TrackModel| track_item(t),
                ),
            decreases lists@.len() - k,
        {
            proof {
                assert(lists@.subrange(0, k + 1).drop_last() =~= lists@.subrange(0, k as int));
            }
            let ghost before = tracks_of(lists@.subrange(0, k as int));
            let list = &lists[k];
            let mut j: usize = 0;
            while j < list.len()
                invariant
                    j <= list@.len(),
                    songs@.map_values(|t: TrackRecord| t@) =~= before + list@.subrange(0, j as int).map_values(
                        |t: TrackRecord| t@,
                    ),
                    items@.map_values(|i: Item| i@) =~= (before + list@.subrange(0, j as int).map_values(
                        |t: TrackRecord| t@,
                    )).map_values(|t: TrackModel| track_item(t)),
                decreases list@.len() - j,
            {
                let t = copy_track(&list[j]);
                let item = match &list[j].title {
                    Some(title) => Item::from(title.as_str()),
                    None => Item::Empty,
                };
                let ghost songs0 = songs@;
                let ghost items0 = items@;
                let ghost done = before + list@.subrange(0, j as int).map_values(|t: TrackRecord| t@);
                songs.push(t);
                items.push(item);
                proof {
                    assert(list@.subrange(0, j + 1).map_values(|t: TrackRecord| t@) =~= list@.subrange(
                        0,
                        j as int,
                    ).map_values(|t: TrackRecord| t@).push(list@[j as int]@));
                    assert(songs@.map_values(|t: TrackRecord| t@) =~= songs0.map_values(|t: TrackRecord| t@).push(t@));
                    assert(items@.map_values(|i: Item| i@) =~= items0.map_values(|i: Item| i@).push(item@));
                    assert(item@ == track_item(list@[j as int]@));
                    assert((done.push(list@[j as int]@)).map_values(|t: TrackModel| track_item(t)) =~= done.map_values(
                        |t: TrackModel| track_item(t),
                    ).push(track_item(list@[j as int]@)));
                }
                j = j + 1;
            }
            assert(list@.subrange(0, list@.len() as int) =~= list@);
            k = k + 1;
        }
        assert(lists@.subrange(0, lists@.len() as int) =~= lists@);
        assert(songs@.map_values(|t: TrackRecord| track_item(t@)) =~= songs@.map_values(|t: TrackRecord| t@).map_values(
            |t: TrackModel| track_item(t),
        ));
        self.songs = songs;
        self.tracks.set_items(items);
    }

    /// Fetches for the current state; returns the request that the library must answer
    /// to complete it, if any.
    pub fn fetch(&mut self, tree: &StyleTree) -> (r: Option<Request>)
        requires
            old(self).wf(),
            tree.wf(),
        ensures
            final(self).wf(),
            (final(self)@, request_view(r)) == fetch_model(old(self)@, *tree),
    {
        match self.state {
            State::Style(i) => {
                let leaf = self.fetch_styles(tree, i);
                if leaf {
                    Some(self.fetch_artists())
                } else {
                    None
                }
            },
            State::Artist => self.fetch_albums(),
            State::Album => self.fetch_tracks(),
            State::Track => None,
        }
    }

    /// Steps forward and fetches for the new state, unless the list there is empty: then
    /// nothing changes.
    pub fn descend(&mut self, tree: &StyleTree) -> (r: Option<Request>)
        requires
            old(self).wf(),
            tree.wf(),
        ensures
            final(self).wf(),
            next_menu_empty_of(old(self)@) ==> final(self)@ == old(self)@ && r is None,
            !next_menu_empty_of(old(self)@) ==> {
                &&& final(self)@.state == next_state_of(old(self)@.state, old(self)@.styles.len())->0
                &&& (final(self)@, request_view(r)) == fetch_model(
                    ScreenModel {
                        state: next_state_of(old(self)@.state, old(self)@.styles.len())->0,
                        ..old(self)@
                    },
                    *tree,
                )
            },
    {
        if self.next_menu_empty() {
            return None;
        }
        match self.next_state() {
            Some(s) => {
                self.state = s;
                self.fetch(tree)
            },
            None => None,
        }
    }

    /// Steps back, everywhere but at the first taxonomy level; nothing is fetched.
    pub fn ascend(&mut self)
        requires
            old(self).wf(),
        ensures
            final(self).wf(),
            final(self)@ == (ScreenModel {
                state: match prev_state_of(old(self)@.state, old(self)@.styles.len()) {
                    Some(s) => s,
                    None => old(self)@.state,
                },
                ..old(self)@
            }),
    {
        if let Some(s) = self.prev_state() {
            self.state = s;
        }
    }

    /// Moves the cursor of the current list one entry down and fetches again.
    pub fn move_down(&mut self, tree: &StyleTree) -> (r: Option<Request>)
        requires
            old(self).wf(),
            tree.wf(),
        ensures
            final(self).wf(),
            (final(self)@, request_view(r)) == fetch_model(
                with_cursor(old(self)@, |items: Seq<ItemModel>, sel: nat| next_index(sel, items.len())),
                *tree,
            ),
    {
        let ghost f = |items: Seq<ItemModel>, sel: nat| next_index(sel, items.len());
        match self.state {
            State::Style(i) => if i < self.styles.len() {
                self.styles[i].next();
                self.styles.truncate(i + 1);
                proof {
                    self.lemma_stack_after_move(old(self), i, f);
                }
            },
            State::Artist => self.artists.next(),
            State::Album => self.albums.next(),
            State::Track => self.tracks.next(),
        }
        self.fetch(tree)
    }

    /// Moves the cursor of the current list one entry up and fetches again.
    pub fn move_up(&mut self, tree: &StyleTree) -> (r: Option<Request>)
        requires
            old(self).wf(),
            tree.wf(),
        ensures
            final(self).wf(),
            (final(self)@, request_view(r)) == fetch_model(
                with_cursor(old(self)@, |items: Seq<ItemModel>, sel: nat| prev_index(sel, items.len())),
                *tree,
            ),
    {
        let ghost f = |items: Seq<ItemModel>, sel: nat| prev_index(sel, items.len());
        match self.state {
            State::Style(i) => if i < self.styles.len() {
                self.styles[i].prev();
                self.styles.truncate(i + 1);
                proof {
                    self.lemma_stack_after_move(old(self), i, f);
                }
            },
            State::Artist => self.artists.prev(),
            State::Album => self.albums.prev(),
            State::Track => self.tracks.prev(),
        }
        self.fetch(tree)
    }

    /// Moves the cursor of the current list to the first entry that holds `target`,
    /// ignoring ASCII case, and fetches again.
    pub fn search(&mut self, target: &str, tree: &StyleTree) -> (r: Option<Request>)
        requires
            old(self).wf(),
            tree.wf(),
        ensures
            final(self).wf(),
            (final(self)@, request_view(r)) == fetch_model(
                with_cursor(old(self)@, |items: Seq<ItemModel>, sel: nat| search_index(items, target@, sel)),
                *tree,
            ),
    {
        let ghost f = |items: Seq<ItemModel>, sel: nat| search_index(items, target@, sel);
        match self.state {
            State::Style(i) => if i < self.styles.len() {
                self.styles[i].search(target);
                self.styles.truncate(i + 1);
                proof {
                    self.lemma_stack_after_move(old(self), i, f);
                }
            },
            State::Artist => self.artists.search(target),
            State::Album => self.albums.search(target),
            State::Track => self.tracks.search(target),
        }
        self.fetch(tree)
    }

    proof fn lemma_stack_after_move(
        &self,
        before: &StyleViewScreen,
        i: usize,
        f: spec_fn(Seq<ItemModel>, nat) -> nat,
    )
        requires
            before.wf(),
            before.state == State::Style(i),
            i < before.styles@.len(),
            self.styles@.len() == i + 1,
            forall|k: int| 0 <= k < i ==> self.styles@[k] == before.styles@[k],
            self.styles@[i as int].wf(),
            self.styles@[i as int]@ == (StyleMenuModel {
                sel: f(before.styles@[i as int]@.items, before.styles@[i as int]@.sel),
                ..before.styles@[i as int]@
            }),
            self.state == before.state,
            self.artists == before.artists,
            self.albums == before.albums,
            self.tracks == before.tracks,
            self.songs == before.songs,
            self.name == before.name,
        ensures
            self.wf(),
            self@ == with_cursor(before@, f),
    {
        assert(self@.styles =~= with_cursor(before@, f).styles);
    }

    /// Starts the look-ahead on entering the screen: fetches the level after the deepest
    /// one (the first level when none is), and returns the state to come back to.
    pub fn begin_entrance(&mut self, tree: &StyleTree) -> (saved: State)
        requires
            old(self).wf(),
            tree.wf(),
        ensures
            final(self).wf(),
            saved == old(self)@.state,
            state_fits(saved, final(self)@.styles.len()),
            final(self)@ == (ScreenModel {
                styles: styles_after_fetch(
                    old(self)@.styles,
                    last_level(old(self)@),
                    gathered(*tree, level_parents(old(self)@.styles, last_level(old(self)@))),
                    tree.names_view(),
                ),
                ..old(self)@
            }),
    {
        let saved = self.state;
        let i = if self.styles.len() > 0 {
            self.styles.len() - 1
        } else {
            0
        };
        self.fetch_styles(tree, i);
        saved
    }

    /// One step of the look-ahead. While on the taxonomy it fetches one level deeper;
    /// once a level has no children it moves on to the artists of the deepest level, then
    /// to their albums and tracks, as long as there is a selection to fetch from.
    pub fn entrance_step(&mut self, tree: &StyleTree) -> (r: Step)
        requires
            old(self).wf(),
            tree.wf(),
        ensures
            final(self).wf(),
            final(self)@.styles.len() >= old(self)@.styles.len(),
            match old(self)@.state {
                State::Style(_) => {
                    let i = last_level(old(self)@);
                    let kids = gathered(*tree, level_parents(old(self)@.styles, i));
                    if kids.len() == 0 {
                        &&& final(self)@ == (ScreenModel { state: State::Artist, ..old(self)@ })
                        &&& r@ == StepModel::Fetch(artists_request_of(final(self)@))
                    } else {
                        &&& final(self)@ == (ScreenModel {
                            styles: old(self)@.styles.push(fresh_style_menu(kids, tree.names_view())),
                            ..old(self)@
                        })
                        &&& r@ == StepModel::Next
                    }
                },
                State::Artist => match albums_request_of(old(self)@) {
                    Some(q) => final(self)@ == (ScreenModel { state: State::Album, ..old(self)@ })
                        && r@ == StepModel::Fetch(q),
                    None => final(self)@ == old(self)@ && r@ == StepModel::Done,
                },
                State::Album => match tracks_request_of(old(self)@) {
                    Some(q) => final(self)@ == (ScreenModel { state: State::Track, ..old(self)@ })
                        && r@ == StepModel::Fetch(q),
                    None => final(self)@ == old(self)@ && r@ == StepModel::Done,
                },
                State::Track => final(self)@ == old(self)@ && r@ == StepModel::Done,
            },
    {
        match self.state {
            State::Style(_) => {
                let i = if self.styles.len() > 0 {
                    self.styles.len() - 1
                } else {
                    0
                };
                let leaf = self.fetch_styles(tree, i);
                if leaf {
                    self.state = State::Artist;
                    Step::Fetch(self.fetch_artists())
                } else {
                    Step::Next
                }
            },
            State::Artist => match self.fetch_albums() {
                Some(q) => {
                    self.state = State::Album;
                    Step::Fetch(q)
                },
                None => Step::Done,
            },
            State::Album => match self.fetch_tracks() {
                Some(q) => {
                    self.state = State::Track;
                    Step::Fetch(q)
                },
                None => Step::Done,
            },
            State::Track => Step::Done,
        }
    }

    /// Ends the look-ahead: back to the state it started from.
    pub fn end_entrance(&mut self, saved: State)
        requires
            old(self).wf(),
            state_fits(saved, old(self)@.styles.len()),
        ensures
            final(self).wf(),
            final(self)@ == (ScreenModel { state: saved, ..old(self)@ }),
    {
        self.state = saved;
    }

    /// The header over the list of a state.
    pub fn header(&self, state: State) -> (r: String)
        ensures
            r@ == header_of(state),
    {
        let s = match state {
            State::Style(0) => "Type",
            State::Style(1) => "Style",
            State::Style(2) => "Sub-Style",
            State::Style(3) => "Genre",
            State::Style(4) => "Sub-Genre",
            State::Style(_) => "Tracks",
            State::Artist => "Artist",
            State::Album => "Album",
            State::Track => "Track",
        };
        String::from_str(s)
    }

    /// The rows of the list of a state in a pane of height `h`; none where the state
    /// has no list.
    pub fn rows(&self, state: State, h: usize) -> (r: Vec<(String, bool)>)
        requires
            self.wf(),
        ensures
            match pane_of(self@, state) {
                Some((items, sel)) => rows_shown(r@, items, sel as int, h as int),
                None => r@.len() == 0,
            },
    {
        match state {
            State::Style(i) => if i < self.styles.len() {
                self.styles[i].draw(h)
            } else {
                Vec::new()
            },
            State::Artist => self.artists.draw(h),
            State::Album => self.albums.draw(h),
            State::Track => self.tracks.draw(h),
        }
    }

    /// What the queue action puts in the play queue, if anything.
    pub fn queue_request(&self) -> (r: Option<Queue>)
        requires
            self.wf(),
        ensures
            queue_view(r) == queue_of(self@),
    {
        match self.state {
            State::Style(i) => {
                let genres = if i < self.styles.len() {
                    self.styles[i].style_selection()
                } else {
                    Vec::new()
                };
                proof {
                    if i >= self.styles@.len() {
                        assert(genres@ =~= Seq::<Style>::empty());
                    }
                }
                Some(Queue::Matching { genres, artist: None, album: None })
            },
            State::Artist => {
                if self.artists.is_empty() {
                    return None;
                }
                let artist = String::from_str(self.artists.sel().val());
                Some(Queue::Matching { genres: self.genres(), artist: Some(artist), album: None })
            },
            State::Album => {
                if self.artists.is_empty() || self.albums.is_empty() {
                    return None;
                }
                let artist = String::from_str(self.artists.sel().val());
                let album = String::from_str(self.albums.sel().val());
                Some(Queue::Matching { genres: self.genres(), artist: Some(artist), album: Some(album) })
            },
            State::Track => {
                if self.tracks.is_empty() {
                    return None;
                }
                let i = self.tracks.i();
                assert(self.songs@.map_values(|t: TrackRecord| track_item(t@)).len() == self.songs@.len());
                Some(Queue::Track { file: self.songs[i].file.clone() })
            },
        }
    }
}

/// A copy of a track record.
fn copy_track(t: &TrackRecord) -> (r: TrackRecord)
    ensures
        r@ == t@,
{
    let title = match &t.title {
        Some(s) => Some(s.clone()),
        None => None,
    };
    TrackRecord { file: t.file.clone(), title }
}

/// The entries for names returned one list per genre, in order.
fn items_of_values(lists: &Vec<Vec<String>>) -> (r: Vec<Item>)
    ensures
        r@.map_values(|i: Item| i@) == values_items(lists@),
{
    let mut items: Vec<Item> = Vec::new();
    let mut k: usize = 0;
    while k < lists.len()
        invariant
            k <= lists@.len(),
            items@.map_values(|i: Item| i@) =~= values_items(lists@.subrange(0, k as int)),
        decreases lists@.len() - k,
    {
        proof {
            assert(lists@.subrange(0, k + 1).drop_last() =~= lists@.subrange(0, k as int));
        }
        let ghost before = values_items(lists@.subrange(0, k as int));
        let list = &lists[k];
        let mut j: usize = 0;
        while j < list.len()
            invariant
                j <= list@.len(),
                items@.map_values(|i: Item| i@) =~= before + list@.subrange(0, j as int).map_values(
                    |s: String| item_of_text(s@),
                ),
            decreases list@.len() - j,
        {
            let item = Item::from(list[j].as_str());
            let ghost items0 = items@;
            items.push(item);
            proof {
                assert(items@.map_values(|i: Item| i@) =~= items0.map_values(|i: Item| i@).push(item@));
                assert(list@.subrange(0, j + 1).map_values(|s: String| item_of_text(s@)) =~= list@.subrange(
                    0,
                    j as int,
                ).map_values(|s: String| item_of_text(s@)).push(item_of_text(list@[j as int]@)));
            }
            j = j + 1;
        }
        assert(list@.subrange(0, list@.len() as int) =~= list@);
        k = k + 1;
    }
    assert(lists@.subrange(0, lists@.len() as int) =~= lists@);
    items
}

} // verus!
