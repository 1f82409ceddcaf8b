use vstd::prelude::*;

use crate::item::{Item, ItemModel, item_of_text};
use crate::menu::{next_index, prev_index, rows_shown, search_cursor, search_index, visible_rows};
use crate::style_tree::{Style, StyleTree};

verus! {

/// The model of a style list: its entries, the style behind each, and the cursor.
pub struct StyleMenuModel {
    pub items: Seq<ItemModel>,
    pub styles: Seq<Option<Style>>,
    pub sel: nat,
}

/// The styles behind the entries of a list of `s`: none for the leading `All`.
pub open spec fn style_pairs(s: Seq<Style>) -> Seq<Option<Style>> {
    seq![None].add(s.map_values(|x: Style| Some(x)))
}

/// The entries of a list of `s`: `All`, then each style's name.
pub open spec fn style_items(s: Seq<Style>, names: Seq<Seq<char>>) -> Seq<ItemModel> {
    seq![ItemModel::All].add(s.map_values(|x: Style| item_of_text(names[x as int])))
}

/// A list of `s`, its cursor on `All`.
pub open spec fn fresh_style_menu(s: Seq<Style>, names: Seq<Seq<char>>) -> StyleMenuModel {
    StyleMenuModel { items: style_items(s, names), styles: style_pairs(s), sel: 0 }
}

/// What setting the styles `s` does to a list, and whether it changed it: a list that
/// already holds exactly these entries stays as it is.
pub open spec fn set_styles_model(m: StyleMenuModel, s: Seq<Style>, names: Seq<Seq<char>>) -> (
    StyleMenuModel,
    bool,
) {
    if m.items == style_items(s, names) && m.styles == style_pairs(s) {
        (m, false)
    } else {
        (fresh_style_menu(s, names), true)
    }
}

/// The concrete styles of a list, in order.
pub open spec fn concrete_styles(st: Seq<Option<Style>>) -> Seq<Style>
    decreases st.len(),
{
    if st.len() == 0 {
        Seq::empty()
    } else {
        let rest = concrete_styles(st.drop_last());
        match st.last() {
            Some(x) => rest.push(x),
            None => rest,
        }
    }
}

/// The styles that the cursor selects: all concrete styles of the list on `All`, else
/// the one under the cursor.
pub open spec fn selected_styles(m: StyleMenuModel) -> Seq<Style> {
    if m.items[m.sel as int] == ItemModel::All {
        concrete_styles(m.styles)
    } else {
        seq![m.styles[m.sel as int]->0]
    }
}

/// A list of styles headed by the synthetic `All` entry.
pub struct StyleMenu {
    items: Vec<Item>,
    styles: Vec<Option<Style>>,
    sel: usize,
}

impl View for StyleMenu {
    type V = StyleMenuModel;

    closed spec fn view(&self) -> StyleMenuModel {
        StyleMenuModel {
            items: self.items@.map_values(|i: Item| i@),
            styles: self.styles@,
            sel: self.sel as nat,
        }
    }
}

impl StyleMenu {
    /// Entries and styles pair up; a non-empty list starts with `All`, which alone has no
    /// style; the cursor is on an entry whenever there is one.
    pub open spec fn wf(&self) -> bool {
        let m = self@;
        &&& m.items.len() == m.styles.len()
        &&& m.sel < m.items.len() || m.sel == 0
        &&& m.items.len() > 0 ==> m.items[0] == ItemModel::All && m.styles[0] is None
        &&& forall|i: int|
            0 < i < m.items.len() ==> (#[trigger] m.styles[i]) is Some && m.items[i] != ItemModel::All
    }

    pub fn new() -> (r: StyleMenu)
        ensures
            r.wf(),
            r@.items.len() == 0,
            r@.styles.len() == 0,
            r@.sel == 0,
    {
        let r = StyleMenu { items: Vec::new(), styles: Vec::new(), sel: 0 };
        assert(r@.items =~= Seq::<ItemModel>::empty());
        r
    }

    /// Whether the list offers no style to descend into: it holds nothing, or `All` alone.
    pub fn is_empty(&self) -> (r: bool)
        requires
            self.wf(),
        ensures
            r == (self@.styles.len() == 0 || (self@.styles.len() == 1 && self@.styles[0] is None
                && self@.items[0] == ItemModel::All)),
            r == (self@.styles.len() <= 1),
    {
        self.styles.len() <= 1
    }

    /// Moves the cursor to the first entry whose name holds `target`, ignoring ASCII case;
    /// an empty target or one that nothing holds leaves the cursor where it is.
    pub fn search(&mut self, target: &str)
        requires
            old(self).wf(),
        ensures
            final(self).wf(),
            final(self)@.items == old(self)@.items,
            final(self)@.styles == old(self)@.styles,
            final(self)@.sel == search_index(old(self)@.items, target@, old(self)@.sel),
    {
        let s = search_cursor(&self.items, target, self.sel);
        self.sel = s;
    }

    /// The entry under the cursor.
    pub fn sel(&self) -> (r: &Item)
        requires
            self.wf(),
            self@.items.len() > 0,
        ensures
            r@ == self@.items[self@.sel as int],
    {
        &self.items[self.sel]
    }

    /// The styles that the cursor selects: on `All`, every style of the list in order;
    /// elsewhere, the style under the cursor.
    pub fn style_selection(&self) -> (r: Vec<Style>)
        requires
            self.wf(),
            self@.items.len() > 0,
        ensures
            r@ == selected_styles(self@),
    {
        if let Item::All = &self.items[self.sel] {
            let mut r: Vec<Style> = Vec::new();
            let mut i: usize = 0;
            while i < self.styles.len()
                invariant
                    i <= self.styles@.len(),
                    r@ == concrete_styles(self.styles@.subrange(0, i as int)),
                decreases self.styles@.len() - i,
            {
                proof {
                    assert(self.styles@.subrange(0, i + 1).drop_last() =~= self.styles@.subrange(0, i as int));
                }
                if let Some(s) = self.styles[i] {
                    r.push(s);
                }
                i = i + 1;
            }
            assert(self.styles@.subrange(0, self.styles@.len() as int) =~= self.styles@);
            r
        } else {
            let s = match self.styles[self.sel] {
                Some(s) => s,
                None => 0,
            };
            let r = vec![s];
            assert(r@ =~= seq![s]);
            r
        }
    }

    /// Whether the list holds exactly the given entries and styles.
    fn items_same(&self, items: &Vec<Item>, styles: &Vec<Option<Style>>) -> (r: bool)
        ensures
            r == (self@.items == items@.map_values(|i: Item| i@) && self@.styles == styles@),
    {
        if self.items.len() != items.len() || self.styles.len() != styles.len() {
            proof {
                if self@.items == items@.map_values(|i: Item| i@) {
                    assert(self@.items.len() == items@.len());
                }
            }
            return false;
        }
        let ghost mine = self@.items;
        let ghost theirs = items@.map_values(|i: Item| i@);
        let mut i: usize = 0;
        while i < items.len()
            invariant
                mine == self@.items,
                theirs == items@.map_values(|i: Item| i@),
                self.items@.len() == items@.len(),
                i <= items@.len(),
                forall|j: int| 0 <= j < i ==> mine[j] == theirs[j],
            decreases items@.len() - i,
        {
            if self.items[i] != items[i] {
                assert(mine[i as int] != theirs[i as int]);
                return false;
            }
            i = i + 1;
        }
        assert(mine =~= theirs);
        let mut i: usize = 0;
        while i < styles.len()
            invariant
                self.styles@.len() == styles@.len(),
                i <= styles@.len(),
                forall|j: int| 0 <= j < i ==> self.styles@[j] == styles@[j],
            decreases styles@.len() - i,
        {
            let same = match (self.styles[i], styles[i]) {
                (Some(a), Some(b)) => a == b,
                (None, None) => true,
                _ => false,
            };
            if !same {
                assert(self@.styles[i as int] != styles@[i as int]);
                return false;
            }
            i = i + 1;
        }
        assert(self@.styles =~= styles@);
        true
    }

    /// Fills the list with `All` followed by the given styles under their names. A list
    /// that already holds exactly these entries is left alone and the call returns false;
    /// otherwise the entries are replaced, the cursor goes to `All`, and it returns true.
    pub fn set_styles(&mut self, styles: Vec<Style>, tree: &StyleTree) -> (r: bool)
        requires
            old(self).wf(),
            tree.wf(),
            forall|i: int| 0 <= i < styles@.len() ==> (#[trigger] styles@[i]) < tree.len(),
        ensures
            final(self).wf(),
            (final(self)@, r) == set_styles_model(old(self)@, styles@, tree.names_view()),
    {
        let ghost s = styles@;
        let mut items: Vec<Item> = vec![Item::All];
        let mut pairs: Vec<Option<Style>> = vec![None];
        let mut i: usize = 0;
        while i < styles.len()
            invariant
                s == styles@,
                tree.wf(),
                forall|i: int| 0 <= i < s.len() ==> (#[trigger] s[i]) < tree.len(),
                i <= s.len(),
                items@.map_values(|i: Item| i@) =~= style_items(s.subrange(0, i as int), tree.names_view()),
                pairs@ =~= style_pairs(s.subrange(0, i as int)),
            decreases s.len() - i,
        {
            let ghost it0 = items@.map_values(|i: Item| i@);
            let ghost pr0 = pairs@;
            items.push(Item::from(tree.name(styles[i])));
            pairs.push(Some(styles[i]));
            proof {
                assert(items@.map_values(|i: Item| i@) =~= it0.push(item_of_text(tree.names_view()[s[i as int] as int])));
                assert(pairs@ =~= pr0.push(Some(s[i as int])));
                assert(s.subrange(0, i + 1) =~= s.subrange(0, i as int).push(s[i as int]));
                assert(style_items(s.subrange(0, i + 1), tree.names_view())
                    =~= style_items(s.subrange(0, i as int), tree.names_view()).push(item_of_text(tree.names_view()[s[i as int] as int])));
                assert(style_pairs(s.subrange(0, i + 1)) =~= style_pairs(s.subrange(0, i as int)).push(Some(s[i as int])));
            }
            i = i + 1;
        }
        assert(s.subrange(0, s.len() as int) =~= s);
        if !self.items_same(&items, &pairs) {
            self.items = items;
            self.styles = pairs;
            self.sel = 0;
            proof {
                let m = self@;
                assert forall|j: int| 0 < j < m.items.len() implies (#[trigger] m.styles[j]) is Some
                    && m.items[j] != ItemModel::All by {
                    assert(m.items[j] == item_of_text(tree.names_view()[s[j - 1] as int]));
                }
            }
            return true;
        }
        false
    }

    /// Moves the cursor one entry down, from the last to the first.
    pub fn next(&mut self)
        requires
            old(self).wf(),
        ensures
            final(self).wf(),
            final(self)@.items == old(self)@.items,
            final(self)@.styles == old(self)@.styles,
            final(self)@.sel == next_index(old(self)@.sel, old(self)@.items.len()),
    {
        if self.items.len() == 0 {
            return;
        }
        if self.sel + 1 >= self.items.len() {
            self.sel = 0;
        } else {
            self.sel = self.sel + 1;
        }
    }

    /// Moves the cursor one entry up, from the first to the last.
    pub fn prev(&mut self)
        requires
            old(self).wf(),
        ensures
            final(self).wf(),
            final(self)@.items == old(self)@.items,
            final(self)@.styles == old(self)@.styles,
            final(self)@.sel == prev_index(old(self)@.sel, old(self)@.items.len()),
    {
        if self.items.len() == 0 {
            return;
        }
        if self.sel == 0 {
            self.sel = self.items.len() - 1;
        } else {
            self.sel = self.sel - 1;
        }
    }

    /// The rows of a pane of height `h` (header included), top to bottom.
    pub fn draw(&self, h: usize) -> (r: Vec<(String, bool)>)
        requires
            self.wf(),
        ensures
            rows_shown(r@, self@.items, self@.sel as int, h as int),
    {
        visible_rows(&self.items, self.sel, h)
    }
}

/// Setting the same styles twice leaves the list as the first call left it, and the
/// second call reports no change; setting styles other than those the list holds always
/// puts the cursor back on `All`.
pub proof fn lemma_set_styles_twice(m: StyleMenuModel, s: Seq<Style>, t: Seq<Style>, names: Seq<Seq<char>>)
    ensures
        ({
            let (m1, _) = set_styles_model(m, s, names);
            set_styles_model(m1, s, names) == (m1, false)
        }),
        m.styles != style_pairs(t) ==> ({
            let (m2, changed) = set_styles_model(m, t, names);
            changed && m2.sel == 0
        }),
{
}

/// With the cursor on `All`, the selection is every concrete style of the list, in order.
pub proof fn lemma_all_selects_every_style(m: StyleMenuModel, s: Seq<Style>, names: Seq<Seq<char>>)
    requires
        m == fresh_style_menu(s, names),
    ensures
        selected_styles(m) == s,
{
    lemma_concrete_of_pairs(s);
}

proof fn lemma_concrete_of_pairs(s: Seq<Style>)
    ensures
        concrete_styles(style_pairs(s)) == s,
    decreases s.len(),
{
    if s.len() == 0 {
        assert(style_pairs(s).drop_last() =~= Seq::<Option<Style>>::empty());
        assert(concrete_styles(Seq::<Option<Style>>::empty()) == Seq::<Style>::empty());
    } else {
        lemma_concrete_of_pairs(s.drop_last());
        assert(style_pairs(s).drop_last() =~= style_pairs(s.drop_last()));
        assert(s.drop_last().push(s.last()) =~= s);
    }
}

} // verus!
