use vstd::prelude::*;
use vstd::string::*;

verus! {

/// What an entry of a selection list stands for.
pub enum ItemModel {
    Normal(Seq<char>),
    Empty,
    All,
}

/// The text that an entry of the given model is searched by.
pub open spec fn item_text(m: ItemModel) -> Seq<char> {
    match m {
        ItemModel::Normal(s) => s,
        _ => Seq::empty(),
    }
}

/// The text that an entry of the given model shows on screen.
pub open spec fn item_label(m: ItemModel) -> Seq<char> {
    match m {
        ItemModel::Normal(s) => s,
        ItemModel::Empty => "<Empty>"@,
        ItemModel::All => "<All>"@,
    }
}

/// The entry that a value read from the library becomes: a blank value is `Empty`.
pub open spec fn item_of_text(s: Seq<char>) -> ItemModel {
    if s.len() == 0 {
        ItemModel::Empty
    } else {
        ItemModel::Normal(s)
    }
}

/// An entry of a selection list: a name, a placeholder for a blank name, or the
/// synthetic entry that stands for every entry of its level.
pub enum Item {
    Normal(String),
    Empty,
    All,
}

impl View for Item {
    type V = ItemModel;

    open spec fn view(&self) -> ItemModel {
        match self {
            Item::Normal(s) => ItemModel::Normal(s@),
            Item::Empty => ItemModel::Empty,
            Item::All => ItemModel::All,
        }
    }
}

impl PartialEq for Item {
    fn eq(&self, o: &Item) -> (r: bool) {
        match self {
            Item::Normal(a) => match o {
                Item::Normal(b) => {
                    let same = <String as PartialEq>::eq(a, b);
                    proof {
                        if same {
                            assert(self@ == o@);
                        }
                    }
                    same
                },
                _ => false,
            },
            Item::Empty => matches!(o, Item::Empty),
            Item::All => matches!(o, Item::All),
        }
    }
}

impl vstd::std_specs::cmp::PartialEqSpecImpl for Item {
    open spec fn obeys_eq_spec() -> bool {
        true
    }

    open spec fn eq_spec(&self, o: &Item) -> bool {
        self@ == o@
    }
}

impl Item {
    /// A named entry.
    pub fn norm(s: &str) -> (r: Item)
        ensures
            r@ == ItemModel::Normal(s@),
    {
        Item::Normal(String::from_str(s))
    }

    /// The entry for a value read from the library: `Empty` for a blank value.
    pub fn from(s: &str) -> (r: Item)
        ensures
            r@ == item_of_text(s@),
    {
        if s.unicode_len() == 0 {
            Item::Empty
        } else {
            Item::norm(s)
        }
    }

    /// The name of a named entry, and the empty text for the other two.
    pub fn val(&self) -> (r: &str)
        ensures
            r@ == item_text(self@),
    {
        match self {
            Item::Normal(s) => s.as_str(),
            _ => {
                proof {
                    reveal_strlit("");
                }
                ""
            },
        }
    }

    /// The text that the entry shows on screen.
    pub fn label(&self) -> (r: String)
        ensures
            r@ == item_label(self@),
    {
        match self {
            Item::Normal(s) => s.clone(),
            Item::Empty => {
                proof {
                    reveal_strlit("<Empty>");
                }
                String::from_str("<Empty>")
            },
            Item::All => {
                proof {
                    reveal_strlit("<All>");
                }
                String::from_str("<All>")
            },
        }
    }
}

} // verus!
