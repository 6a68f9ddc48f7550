//! Directed channel actions.

use vstd::prelude::*;
use vstd::std_specs::cmp::{PartialEqSpecImpl, PartialOrdSpecImpl};
use core::cmp::Ordering;
use crate::order::{lemma_text_lt_connected, lemma_text_lt_irreflexive, text_less, text_lt};

verus! {

/// The mathematical value of an [`Action`]: a direction and a channel name.
pub enum ActionView {
    In(Seq<char>),
    Out(Seq<char>),
}

impl ActionView {
    /// The action on the same channel in the opposite direction.
    pub open spec fn bar(self) -> ActionView {
        match self {
            ActionView::In(c) => ActionView::Out(c),
            ActionView::Out(c) => ActionView::In(c),
        }
    }

    /// The channel name, whatever the direction.
    pub open spec fn channel(self) -> Seq<char> {
        match self {
            ActionView::In(c) => c,
            ActionView::Out(c) => c,
        }
    }

    /// Whether this is an input action.
    pub open spec fn is_input(self) -> bool {
        self is In
    }

    /// The action in the same direction on another channel.
    pub open spec fn with_new_channel(self, name: Seq<char>) -> ActionView {
        match self {
            ActionView::In(_) => ActionView::In(name),
            ActionView::Out(_) => ActionView::Out(name),
        }
    }

    /// Whether this action comes before `other`: every input comes before
    /// every output, and of two actions in the same direction the one
    /// whose channel name comes first.
    pub open spec fn precedes(self, other: ActionView) -> bool {
        match (self, other) {
            (ActionView::In(a), ActionView::In(b)) => text_lt(a, b),
            (ActionView::In(_), ActionView::Out(_)) => true,
            (ActionView::Out(_), ActionView::In(_)) => false,
            (ActionView::Out(a), ActionView::Out(b)) => text_lt(a, b),
        }
    }

    /// The text of an action: `In{c}` or `Out{c}` for channel `c`.
    pub open spec fn display(self) -> Seq<char> {
        match self {
            ActionView::In(c) => "In{"@ + c + "}"@,
            ActionView::Out(c) => "Out{"@ + c + "}"@,
        }
    }
}

/// An input or an output on a named channel.
#[derive(Debug, Hash, Eq, Ord)]
pub enum Action {
    In(String),
    Out(String),
}

impl View for Action {
    type V = ActionView;

    open spec fn view(&self) -> ActionView {
        match self {
            Action::In(s) => ActionView::In(s@),
            Action::Out(s) => ActionView::Out(s@),
        }
    }
}

impl PartialEq for Action {
    /// Two actions are equal when they have the same direction and the
    /// same channel name.
    fn eq(&self, other: &Action) -> (r: bool) {
        match (self, other) {
            (Action::In(a), Action::In(b)) => *a == *b,
            (Action::Out(a), Action::Out(b)) => *a == *b,
            _ => false,
        }
    }
}

impl PartialEqSpecImpl for Action {
    open spec fn obeys_eq_spec() -> bool {
        true
    }

    open spec fn eq_spec(&self, other: &Action) -> bool {
        self@ == other@
    }
}

impl PartialOrd for Action {
    /// Inputs come before outputs; two actions in the same direction are
    /// ordered by their channel names.
    fn partial_cmp(&self, other: &Action) -> (r: Option<Ordering>) {
        match (self, other) {
            (Action::In(a), Action::In(b)) => Some(order_of(a.as_str(), b.as_str())),
            (Action::In(_), Action::Out(_)) => Some(Ordering::Less),
            (Action::Out(_), Action::In(_)) => Some(Ordering::Greater),
            (Action::Out(a), Action::Out(b)) => Some(order_of(a.as_str(), b.as_str())),
        }
    }
}

impl PartialOrdSpecImpl for Action {
    open spec fn obeys_partial_cmp_spec() -> bool {
        true
    }

    open spec fn partial_cmp_spec(&self, other: &Action) -> Option<Ordering> {
        if self@ == other@ {
            Some(Ordering::Equal)
        } else if self@.precedes(other@) {
            Some(Ordering::Less)
        } else {
            Some(Ordering::Greater)
        }
    }
}

/// How the text `a` stands to the text `b` in the order of channel names.
fn order_of(a: &str, b: &str) -> (r: Ordering)
    ensures
        r == (if a@ == b@ {
            Ordering::Equal
        } else if text_lt(a@, b@) {
            Ordering::Less
        } else {
            Ordering::Greater
        }),
{
    proof {
        lemma_text_lt_irreflexive(a@);
        if a@ != b@ {
            lemma_text_lt_connected(a@, b@);
        }
    }
    if text_less(a, b) {
        Ordering::Less
    } else if text_less(b, a) {
        Ordering::Greater
    } else {
        Ordering::Equal
    }
}

impl Clone for Action {
    /// Returns the same action, with a copy of the channel name.
    fn clone(&self) -> (r: Action)
        ensures
            r@ == self@,
    {
        match self {
            Action::In(s) => Action::In(s.clone()),
            Action::Out(s) => Action::Out(s.clone()),
        }
    }
}

impl Action {
    /// Returns the opposite variant of the action, on the same channel.
    pub fn bar(&self) -> (r: Action)
        ensures
            r@ == self@.bar(),
    {
        match self {
            Action::In(s) => Action::Out(s.clone()),
            Action::Out(s) => Action::In(s.clone()),
        }
    }

    /// Turns the action into its opposite variant, reusing its channel name.
    pub fn into_bar(self) -> (r: Action)
        ensures
            r@ == self@.bar(),
    {
        match self {
            Action::In(s) => Action::Out(s),
            Action::Out(s) => Action::In(s),
        }
    }

    /// Returns the channel name.
    pub fn channel(&self) -> (r: String)
        ensures
            r@ == self@.channel(),
    {
        match self {
            Action::In(s) => s.clone(),
            Action::Out(s) => s.clone(),
        }
    }

    /// Returns the action in the same direction over a new channel.
    pub fn with_new_channel(&self, new_channel: &str) -> (r: Action)
        ensures
            r@ == self@.with_new_channel(new_channel@),
    {
        match self {
            Action::In(_) => Action::In(new_channel.to_owned()),
            Action::Out(_) => Action::Out(new_channel.to_owned()),
        }
    }

    /// Returns the text of the action: `In{c}` or `Out{c}` for channel `c`.
    pub fn display(&self) -> (r: String)
        ensures
            r@ == self@.display(),
    {
        match self {
            Action::In(s) => {
                let mut r = String::from_str("In{");
                r.append(s.as_str());
                r.append("}");
                r
            },
            Action::Out(s) => {
                let mut r = String::from_str("Out{");
                r.append(s.as_str());
                r.append("}");
                r
            },
        }
    }
}

/// Flipping the direction twice gives the action back.
pub proof fn lemma_bar_involution(a: ActionView)
    ensures
        a.bar().bar() == a,
{
}

/// Flipping the direction keeps the channel.
pub proof fn lemma_bar_keeps_channel(a: ActionView)
    ensures
        a.bar().channel() == a.channel(),
        a.bar().is_input() != a.is_input(),
{
}

/// Replacing the channel installs the new name and keeps the direction.
pub proof fn lemma_with_new_channel(a: ActionView, name: Seq<char>)
    ensures
        a.with_new_channel(name).channel() == name,
        a.with_new_channel(name).is_input() == a.is_input(),
{
}

} // verus!
