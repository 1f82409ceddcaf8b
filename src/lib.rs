use vstd::prelude::*;

pub mod item;
pub mod menu;
pub mod screen;
pub mod style_menu;
pub mod style_tree;

verus! {

} // verus!
