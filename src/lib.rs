//! A tree view kept in step with a mutable hierarchy of items: each item owns
//! six widgets whose identities a registry pairs with it in both directions,
//! and each tick of change notifications becomes a sequence of widget
//! operations for the host's user-interface toolkit to carry out.
use vstd::prelude::*;

pub mod editor;
pub mod icon;
pub mod order;
pub mod project;
pub mod tree_view;
pub mod widget;

verus! {

} // verus!
