use vstd::prelude::*;
use vstd::arithmetic::div_mod::*;

use crate::item::{Item, ItemModel, item_label, item_text};

verus! {

/// A character as a case-insensitive search compares it: ASCII letters fold to upper case.
pub open spec fn fold_char(c: char) -> u32 {
    if 'a' <= c && c <= 'z' {
        (c as u32 - 32) as u32
    } else {
        c as u32
    }
}

/// Whether `needle` occurs in `hay` at position `i`, ignoring ASCII case.
pub open spec fn matches_at(hay: Seq<char>, needle: Seq<char>, i: int) -> bool {
    &&& 0 <= i
    &&& i + needle.len() <= hay.len()
    &&& forall|j: int| 0 <= j < needle.len() ==> fold_char(#[trigger] hay[i + j]) == fold_char(needle[j])
}

/// Whether `needle` occurs anywhere in `hay`, ignoring ASCII case.
pub open spec fn contains_folded(hay: Seq<char>, needle: Seq<char>) -> bool {
    exists|i: int| matches_at(hay, needle, i)
}

/// Whether a search for `q` stops at an entry.
pub open spec fn item_matches(m: ItemModel, q: Seq<char>) -> bool {
    contains_folded(item_text(m), q)
}

/// Where the cursor stands after a search for `q`: at the first matching entry, or where
/// it stood when the query is empty or nothing matches.
pub open spec fn search_index(items: Seq<ItemModel>, q: Seq<char>, sel: nat) -> nat {
    if q.len() > 0 && exists|i: int| 0 <= i < items.len() && #[trigger] item_matches(items[i], q) {
        (choose|i: int|
            0 <= i < items.len() && item_matches(items[i], q) && forall|j: int|
                0 <= j < i ==> !#[trigger] item_matches(items[j], q)) as nat
    } else {
        sel
    }
}

/// The cursor after one step forward in a list of `n` entries, wrapping to the first.
pub open spec fn next_index(sel: nat, n: nat) -> nat {
    if n == 0 {
        sel
    } else if sel + 1 >= n {
        0
    } else {
        sel + 1
    }
}

/// The cursor after one step back in a list of `n` entries, wrapping to the last.
pub open spec fn prev_index(sel: nat, n: nat) -> nat {
    if n == 0 {
        sel
    } else if sel == 0 {
        (n - 1) as nat
    } else {
        (sel - 1) as nat
    }
}

/// The cursor after `k` steps forward.
pub open spec fn next_times(sel: nat, n: nat, k: nat) -> nat
    decreases k,
{
    if k == 0 {
        sel
    } else {
        next_index(next_times(sel, n, (k - 1) as nat), n)
    }
}

/// The cursor after `k` steps back.
pub open spec fn prev_times(sel: nat, n: nat, k: nat) -> nat
    decreases k,
{
    if k == 0 {
        sel
    } else {
        prev_index(prev_times(sel, n, (k - 1) as nat), n)
    }
}

/// The row of a pane of height `h` that the cursor is kept on: the middle row, the upper
/// one of the two middle rows for an even height.
pub open spec fn center_row(h: int) -> int {
    if h % 2 == 0 {
        h / 2 - 1
    } else {
        h / 2
    }
}

/// The first entry shown in a pane of height `h`, one row of which is the header: the
/// window starts at the top near the top of the list, ends at the last entry near its
/// bottom, and keeps the cursor on the center row in between.
pub open spec fn window_start(sel: int, len: int, h: int) -> int {
    let c = center_row(h);
    if sel <= c {
        0
    } else if sel >= len - c {
        if len - (h - 1) > 0 {
            len - (h - 1)
        } else {
            0
        }
    } else {
        sel - c
    }
}

/// How many entries a pane of height `h` shows.
pub open spec fn window_len(sel: int, len: int, h: int) -> int {
    if h <= 1 {
        0
    } else if h - 1 < len - window_start(sel, len, h) {
        h - 1
    } else {
        len - window_start(sel, len, h)
    }
}

/// The rows a pane shows: each entry's label, and whether the cursor is on it.
pub open spec fn rows_shown(rows: Seq<(String, bool)>, items: Seq<ItemModel>, sel: int, h: int) -> bool {
    let start = window_start(sel, items.len() as int, h);
    &&& rows.len() == window_len(sel, items.len() as int, h)
    &&& forall|k: int|
        0 <= k < rows.len() ==> {
            &&& (#[trigger] rows[k]).0@ == item_label(items[start + k])
            &&& rows[k].1 == (start + k == sel)
        }
}

fn fold(c: char) -> (r: u32)
    ensures
        r == fold_char(c),
{
    if 'a' <= c && c <= 'z' {
        c as u32 - 32
    } else {
        c as u32
    }
}

/// Whether `needle` occurs in `hay`, ignoring ASCII case.
fn contains_ignoring_case(hay: &str, needle: &str) -> (r: bool)
    ensures
        r == contains_folded(hay@, needle@),
{
    let h = hay.unicode_len();
    let n = needle.unicode_len();
    if n > h {
        return false;
    }
    let mut i: usize = 0;
    while i <= h - n
        invariant
            h == hay@.len(),
            n == needle@.len(),
            n <= h,
            forall|p: int| 0 <= p < i ==> !matches_at(hay@, needle@, p),
        decreases h - n + 1 - i,
    {
        let mut j: usize = 0;
        let mut ok = true;
        while ok && j < n
            invariant
                h == hay@.len(),
                n == needle@.len(),
                i + n <= h,
                j <= n,
                forall|q: int| 0 <= q < j ==> fold_char(#[trigger] hay@[i + q]) == fold_char(needle@[q]),
                !ok ==> j < n && fold_char(hay@[i + j]) != fold_char(needle@[j as int]),
            decreases n - j + (if ok { 1int } else { 0int }),
        {
            if fold(hay.get_char(i + j)) != fold(needle.get_char(j)) {
                ok = false;
            } else {
                j = j + 1;
            }
        }
        if ok {
            assert(matches_at(hay@, needle@, i as int));
            return true;
        }
        assert(!matches_at(hay@, needle@, i as int));
        i = i + 1;
    }
    false
}

/// The first entry that a search for `target` stops at.
pub(crate) fn first_match(items: &Vec<Item>, target: &str) -> (r: Option<usize>)
    ensures
        match r {
            Some(i) => {
                &&& i < items@.len()
                &&& item_matches(items@[i as int]@, target@)
                &&& forall|j: int| 0 <= j < i ==> !#[trigger] item_matches(items@[j]@, target@)
            },
            None => forall|j: int| 0 <= j < items@.len() ==> !#[trigger] item_matches(items@[j]@, target@),
        },
{
    let mut i: usize = 0;
    while i < items.len()
        invariant
            i <= items@.len(),
            forall|j: int| 0 <= j < i ==> !#[trigger] item_matches(items@[j]@, target@),
        decreases items@.len() - i,
    {
        if contains_ignoring_case(items[i].val(), target) {
            return Some(i);
        }
        i = i + 1;
    }
    None
}

/// The cursor that a search for `target` leaves.
pub(crate) fn search_cursor(items: &Vec<Item>, target: &str, sel: usize) -> (r: usize)
    ensures
        r == search_index(items@.map_values(|i: Item| i@), target@, sel as nat),
        r == sel || r < items@.len(),
{
    let ghost ms = items@.map_values(|i: Item| i@);
    if target.unicode_len() == 0 {
        return sel;
    }
    match first_match(items, target) {
        Some(i) => {
            proof {
                assert(item_matches(ms[i as int], target@));
                let c = choose|c: int|
                    0 <= c < ms.len() && item_matches(ms[c], target@) && forall|j: int|
                        0 <= j < c ==> !#[trigger] item_matches(ms[j], target@);
                assert(0 <= c < ms.len() && item_matches(ms[c], target@));
                if c < i {
                    assert(!item_matches(items@[c]@, target@));
                } else if c > i {
                    assert(!item_matches(ms[i as int], target@));
                }
            }
            i
        },
        None => {
            proof {
                assert forall|j: int| 0 <= j < ms.len() implies !#[trigger] item_matches(ms[j], target@) by {
                    assert(!item_matches(items@[j]@, target@));
                }
            }
            sel
        },
    }
}

/// The rows that a pane of height `h` shows of `items` with the cursor at `sel`.
pub(crate) fn visible_rows(items: &Vec<Item>, sel: usize, h: usize) -> (r: Vec<(String, bool)>)
    requires
        sel <= items@.len(),
    ensures
        rows_shown(r@, items@.map_values(|i: Item| i@), sel as int, h as int),
{
    let ghost ms = items@.map_values(|i: Item| i@);
    let mut r: Vec<(String, bool)> = Vec::new();
    if h <= 1 {
        return r;
    }
    let len = items.len();
    let c: usize = if h % 2 == 0 {
        h / 2 - 1
    } else {
        h / 2
    };
    assert(c as int == center_row(h as int));
    let start: usize = if sel <= c {
        0
    } else if c >= len || sel >= len - c {
        if len > h - 1 {
            len - (h - 1)
        } else {
            0
        }
    } else {
        sel - c
    };
    assert(start as int == window_start(sel as int, len as int, h as int));
    let count: usize = if h - 1 < len - start {
        h - 1
    } else {
        len - start
    };
    let mut k: usize = 0;
    while k < count
        invariant
            ms == items@.map_values(|i: Item| i@),
            len == items@.len(),
            start + count <= len,
            k <= count,
            r@.len() == k,
            forall|q: int|
                0 <= q < k ==> {
                    &&& (#[trigger] r@[q]).0@ == item_label(ms[start + q])
                    &&& r@[q].1 == (start + q == sel)
                },
        decreases count - k,
    {
        let label = items[start + k].label();
        r.push((label, start + k == sel));
        k = k + 1;
    }
    r
}

/// The model of a selection list: its entries and the cursor.
pub struct MenuModel {
    pub items: Seq<ItemModel>,
    pub sel: nat,
}

/// A scrollable list of entries with a cursor on one of them.
pub struct Menu {
    items: Vec<Item>,
    sel: usize,
}

impl View for Menu {
    type V = MenuModel;

    closed spec fn view(&self) -> MenuModel {
        MenuModel { items: self.items@.map_values(|i: Item| i@), sel: self.sel as nat }
    }
}

impl Menu {
    /// The cursor is on an entry whenever there is one.
    pub open spec fn wf(&self) -> bool {
        self@.sel < self@.items.len() || self@.sel == 0
    }

    pub fn new() -> (r: Menu)
        ensures
            r.wf(),
            r@.items.len() == 0,
            r@.sel == 0,
    {
        let r = Menu { items: Vec::new(), sel: 0 };
        assert(r@.items =~= Seq::<ItemModel>::empty());
        r
    }

    /// Moves the cursor to the first entry whose text holds `target`, ignoring ASCII case;
    /// an empty target or one that nothing holds leaves the cursor where it is.
    pub fn search(&mut self, target: &str)
        requires
            old(self).wf(),
        ensures
            final(self).wf(),
            final(self)@.items == old(self)@.items,
            final(self)@.sel == search_index(old(self)@.items, target@, old(self)@.sel),
    {
        let s = search_cursor(&self.items, target, self.sel);
        self.sel = s;
    }

    /// The name under the cursor, or nothing when the cursor is on a placeholder.
    pub fn selection(&self) -> (r: Vec<&str>)
        requires
            self.wf(),
            self@.items.len() > 0,
        ensures
            match self@.items[self@.sel as int] {
                ItemModel::Normal(s) => r@.len() == 1 && r@[0]@ == s,
                _ => r@.len() == 0,
            },
    {
        match &self.items[self.sel] {
            Item::Normal(s) => vec![s.as_str()],
            _ => Vec::new(),
        }
    }

    /// Replaces the entries and puts the cursor on the first.
    pub fn set_items(&mut self, items: Vec<Item>)
        ensures
            final(self).wf(),
            final(self)@.items == items@.map_values(|i: Item| i@),
            final(self)@.sel == 0,
    {
        self.items = items;
        self.sel = 0;
    }

    pub fn is_empty(&self) -> (r: bool)
        ensures
            r == (self@.items.len() == 0),
    {
        self.items.len() == 0
    }

    /// The cursor.
    pub fn i(&self) -> (r: usize)
        ensures
            r == self@.sel,
    {
        self.sel
    }

    /// The entry under the cursor.
    pub fn sel(&self) -> (r: &Item)
        requires
            self.wf(),
            self@.items.len() > 0,
        ensures
            r@ == self@.items[self@.sel as int],
    {
        &self.items[self.sel]
    }

    /// Moves the cursor one entry down, from the last to the first.
    pub fn next(&mut self)
        requires
            old(self).wf(),
        ensures
            final(self).wf(),
            final(self)@.items == old(self)@.items,
            final(self)@.sel == next_index(old(self)@.sel, old(self)@.items.len()),
    {
        if self.items.len() == 0 {
            return;
        }
        if self.sel + 1 >= self.items.len() {
            self.sel = 0;
        } else {
            self.sel = self.sel + 1;
        }
    }

    /// Moves the cursor one entry up, from the first to the last.
    pub fn prev(&mut self)
        requires
            old(self).wf(),
        ensures
            final(self).wf(),
            final(self)@.items == old(self)@.items,
            final(self)@.sel == prev_index(old(self)@.sel, old(self)@.items.len()),
    {
        if self.items.len() == 0 {
            return;
        }
        if self.sel == 0 {
            self.sel = self.items.len() - 1;
        } else {
            self.sel = self.sel - 1;
        }
    }

    /// The rows of a pane of height `h` (header included), top to bottom.
    pub fn draw(&self, h: usize) -> (r: Vec<(String, bool)>)
        requires
            self.wf(),
        ensures
            rows_shown(r@, self@.items, self@.sel as int, h as int),
    {
        visible_rows(&self.items, self.sel, h)
    }
}

/// Stepping forward as many times as the list has entries comes back to the start.
pub proof fn lemma_next_wraps_around(sel: nat, n: nat)
    requires
        sel < n,
    ensures
        next_times(sel, n, n) == sel,
{
    lemma_next_times_mod(sel, n, n);
    lemma_mod_add_multiples_vanish(sel as int, n as int);
    lemma_small_mod(sel, n);
}

/// Stepping back as many times as the list has entries comes back to the start.
pub proof fn lemma_prev_wraps_around(sel: nat, n: nat)
    requires
        sel < n,
    ensures
        prev_times(sel, n, n) == sel,
{
    lemma_prev_times_mod(sel, n, n);
    lemma_mod_add_multiples_vanish(sel - n, n as int);
    lemma_small_mod(sel, n);
}

proof fn lemma_next_times_mod(sel: nat, n: nat, k: nat)
    requires
        sel < n,
    ensures
        next_times(sel, n, k) == (sel + k) as int % (n as int),
    decreases k,
{
    if k == 0 {
        lemma_small_mod(sel, n);
    } else {
        lemma_next_times_mod(sel, n, (k - 1) as nat);
        let x = next_times(sel, n, (k - 1) as nat);
        let a = sel + k - 1;
        lemma_mod_bound(a, n as int);
        lemma_add_mod_noop(a, 1, n as int);
        if n == 1 {
            lemma_mod_bound(a + 1, 1);
        } else {
            lemma_small_mod(1, n);
            if x + 1 < n {
                lemma_small_mod((x + 1) as nat, n);
            } else {
                lemma_mod_self_0(n as int);
            }
        }
    }
}

proof fn lemma_prev_times_mod(sel: nat, n: nat, k: nat)
    requires
        sel < n,
    ensures
        prev_times(sel, n, k) == (sel - k) as int % (n as int),
    decreases k,
{
    if k == 0 {
        lemma_small_mod(sel, n);
    } else {
        lemma_prev_times_mod(sel, n, (k - 1) as nat);
        let x = prev_times(sel, n, (k - 1) as nat);
        let a = sel - k + 1;
        lemma_mod_bound(a, n as int);
        lemma_add_mod_noop(a, -1, n as int);
        lemma_mod_add_multiples_vanish(-1, n as int);
        lemma_small_mod((n - 1) as nat, n);
        if x == 0 {
            lemma_small_mod((n - 1) as nat, n);
        } else {
            lemma_mod_add_multiples_vanish(x - 1, n as int);
            lemma_small_mod((x - 1) as nat, n);
        }
    }
}

} // verus!
