//! Syntax trees for expressions of a CCS-style process calculus, with two
//! textual renderings: a one-line infix notation and an indented tree.
//!
//! Every function is specified over the mathematical view of its arguments
//! (`Seq<char>` for text, [`action::ActionView`] and [`node::NodeView`] for
//! the data types), and every rendering is pinned down character by
//! character by a spec function.

pub mod action;
pub mod laws;
pub mod node;
pub mod order;
pub mod relabel;
pub mod text;
