//! The syntax tree of process expressions and its two renderings.

use vstd::prelude::*;
use vstd::std_specs::cmp::PartialEqSpecImpl;
use crate::action::{Action, ActionView};
use crate::relabel::{ascending, Relabeling};

verus! {

/// The mathematical value of a [`Node`]: the same tree over texts.
pub enum NodeView {
    Recurse(Seq<char>, Box<NodeView>),
    Restrict(Box<NodeView>, ActionView),
    Relabel(Box<NodeView>, Seq<(Seq<char>, Seq<char>)>),
    Compose(Box<NodeView>, Box<NodeView>),
    Choice(Box<NodeView>, Box<NodeView>),
    Prefix(ActionView, Box<NodeView>),
    Name(Seq<char>),
    Nil,
}

/// The text of the entries of a relabeling: for each entry in turn its key,
/// an arrow, its value, a comma and a space.
pub open spec fn relabel_text(entries: Seq<(Seq<char>, Seq<char>)>) -> Seq<char>
    decreases entries.len(),
{
    if entries.len() == 0 {
        Seq::empty()
    } else {
        relabel_text(entries.drop_last()) + entries.last().0 + " \u{2192} "@ + entries.last().1
            + ", "@
    }
}

/// The indentation of a line at depth `depth`: three spaces for each level.
pub open spec fn indent(depth: nat) -> Seq<char>
    decreases depth,
{
    if depth == 0 {
        Seq::empty()
    } else {
        indent((depth - 1) as nat) + "   "@
    }
}

impl NodeView {
    /// The expression on one line, with every composition and every choice
    /// in parentheses.
    pub open spec fn infix(self) -> Seq<char>
        decreases self,
    {
        match self {
            NodeView::Recurse(name, body) => "_rec "@ + name + "."@ + body.infix(),
            NodeView::Restrict(body, action) => body.infix() + "\\"@ + action.display(),
            NodeView::Relabel(body, entries) => body.infix() + "["@ + relabel_text(entries) + "]"@,
            NodeView::Compose(left, right) => "("@ + left.infix() + " | "@ + right.infix() + ")"@,
            NodeView::Choice(left, right) => "("@ + left.infix() + " + "@ + right.infix() + ")"@,
            NodeView::Prefix(action, then) => action.display() + "."@ + then.infix(),
            NodeView::Name(id) => id,
            NodeView::Nil => "nil"@,
        }
    }

    /// The expression as an indented tree whose root stands at depth
    /// `depth`. The lines of a node begin with the indentation of its depth.
    /// A node with a name, an action or a relabeling puts it on a line of
    /// its own, one level deeper; the nodes below any node stand one level
    /// deeper than it.
    pub open spec fn tree_at(self, depth: nat) -> Seq<char>
        decreases self,
    {
        match self {
            NodeView::Recurse(name, body) => indent(depth) + "Recurse(\n"@ + indent(depth + 1)
                + name + ",\n"@ + body.tree_at(depth + 1) + "\n"@ + indent(depth) + ")"@,
            NodeView::Restrict(body, action) => indent(depth) + "Restrict(\n"@ + indent(depth + 1)
                + action.display() + ",\n"@ + body.tree_at(depth + 1) + "\n"@ + indent(depth)
                + ")"@,
            NodeView::Relabel(body, entries) => indent(depth) + "Relabel(\n"@ + indent(depth + 1)
                + relabel_text(entries) + ",\n"@ + body.tree_at(depth + 1) + "\n"@ + indent(depth)
                + ")"@,
            NodeView::Compose(left, right) => indent(depth) + "Compose(\n"@ + left.tree_at(
                depth + 1,
            ) + ",\n"@ + right.tree_at(depth + 1) + "\n"@ + indent(depth) + ")"@,
            NodeView::Choice(left, right) => indent(depth) + "Choice(\n"@ + left.tree_at(depth + 1)
                + ",\n"@ + right.tree_at(depth + 1) + "\n"@ + indent(depth) + ")"@,
            NodeView::Prefix(action, then) => indent(depth) + "Prefix(\n"@ + indent(depth + 1)
                + action.display() + ",\n"@ + then.tree_at(depth + 1) + "\n"@ + indent(depth)
                + ")"@,
            NodeView::Name(id) => indent(depth) + "Name(\""@ + id + "\")"@,
            NodeView::Nil => indent(depth) + "nil"@,
        }
    }

    /// The expression as an indented tree, the root at depth 0.
    pub open spec fn tree_format(self) -> Seq<char> {
        self.tree_at(0)
    }

    /// Every relabeling in the tree has its entries in strictly ascending
    /// order of their keys, so that no key occurs twice.
    pub open spec fn keys_ascending(self) -> bool
        decreases self,
    {
        match self {
            NodeView::Recurse(_, body) => body.keys_ascending(),
            NodeView::Restrict(body, _) => body.keys_ascending(),
            NodeView::Relabel(body, entries) => ascending(entries) && body.keys_ascending(),
            NodeView::Compose(left, right) => left.keys_ascending() && right.keys_ascending(),
            NodeView::Choice(left, right) => left.keys_ascending() && right.keys_ascending(),
            NodeView::Prefix(_, then) => then.keys_ascending(),
            NodeView::Name(_) => true,
            NodeView::Nil => true,
        }
    }
}

/// A process expression. Every node owns the nodes below it.
#[derive(Debug, Eq, Hash)]
pub enum Node {
    /// Binds a recursion variable over a body.
    Recurse(String, Box<Node>),
    /// Hides an action of a body.
    Restrict(Box<Node>, Action),
    /// Renames the channels of a body.
    Relabel(Box<Node>, Relabeling),
    /// Two processes side by side.
    Compose(Box<Node>, Box<Node>),
    /// One of two processes.
    Choice(Box<Node>, Box<Node>),
    /// An action, then a process.
    Prefix(Action, Box<Node>),
    /// A reference to a named process.
    Name(String),
    /// The process that does nothing.
    Nil,
}

impl Node {
    /// The tree over texts that this expression stands for.
    pub open spec fn model(self) -> NodeView
        decreases self,
    {
        match self {
            Node::Recurse(name, body) => NodeView::Recurse(name@, Box::new(body.model())),
            Node::Restrict(body, action) => NodeView::Restrict(Box::new(body.model()), action@),
            Node::Relabel(body, map) => NodeView::Relabel(Box::new(body.model()), map@),
            Node::Compose(left, right) => NodeView::Compose(
                Box::new(left.model()),
                Box::new(right.model()),
            ),
            Node::Choice(left, right) => NodeView::Choice(
                Box::new(left.model()),
                Box::new(right.model()),
            ),
            Node::Prefix(action, then) => NodeView::Prefix(action@, Box::new(then.model())),
            Node::Name(id) => NodeView::Name(id@),
            Node::Nil => NodeView::Nil,
        }
    }
}

impl View for Node {
    type V = NodeView;

    open spec fn view(&self) -> NodeView {
        self.model()
    }
}

impl PartialEq for Node {
    /// Two trees are equal when they have the same shape and hold the same
    /// texts at the same places.
    fn eq(&self, other: &Node) -> (r: bool)
        decreases self,
    {
        match (self, other) {
            (Node::Recurse(name, body), Node::Recurse(other_name, other_body)) => {
                *name == *other_name && (&**body).eq(&**other_body)
            },
            (Node::Restrict(body, action), Node::Restrict(other_body, other_action)) => {
                *action == *other_action && (&**body).eq(&**other_body)
            },
            (Node::Relabel(body, map), Node::Relabel(other_body, other_map)) => {
                *map == *other_map && (&**body).eq(&**other_body)
            },
            (Node::Compose(left, right), Node::Compose(other_left, other_right)) => {
                (&**left).eq(&**other_left) && (&**right).eq(&**other_right)
            },
            (Node::Choice(left, right), Node::Choice(other_left, other_right)) => {
                (&**left).eq(&**other_left) && (&**right).eq(&**other_right)
            },
            (Node::Prefix(action, then), Node::Prefix(other_action, other_then)) => {
                *action == *other_action && (&**then).eq(&**other_then)
            },
            (Node::Name(id), Node::Name(other_id)) => *id == *other_id,
            (Node::Nil, Node::Nil) => true,
            _ => false,
        }
    }
}

impl PartialEqSpecImpl for Node {
    open spec fn obeys_eq_spec() -> bool {
        true
    }

    open spec fn eq_spec(&self, other: &Node) -> bool {
        self@ == other@
    }
}

impl Clone for Node {
    /// Returns a tree of the same shape that holds the same texts.
    fn clone(&self) -> (r: Node)
        ensures
            r@ == self@,
        decreases self,
    {
        match self {
            Node::Recurse(name, body) => Node::Recurse(name.clone(), Box::new((&**body).clone())),
            Node::Restrict(body, action) => Node::Restrict(
                Box::new((&**body).clone()),
                action.clone(),
            ),
            Node::Relabel(body, map) => Node::Relabel(Box::new((&**body).clone()), map.clone()),
            Node::Compose(left, right) => Node::Compose(
                Box::new((&**left).clone()),
                Box::new((&**right).clone()),
            ),
            Node::Choice(left, right) => Node::Choice(
                Box::new((&**left).clone()),
                Box::new((&**right).clone()),
            ),
            Node::Prefix(action, then) => Node::Prefix(
                action.clone(),
                Box::new((&**then).clone()),
            ),
            Node::Name(id) => Node::Name(id.clone()),
            Node::Nil => Node::Nil,
        }
    }
}

/// Returns the text of the entries of `map`, in ascending order of the keys.
pub fn print_map(map: &Relabeling) -> (r: String)
    ensures
        r@ == relabel_text(map@),
        ascending(map@),
{
    let n = map.len();
    let mut r = String::new();
    let mut i: usize = 0;
    while i < n
        invariant
            n == map@.len(),
            i <= n,
            r@ == relabel_text(map@.take(i as int)),
        decreases n - i,
    {
        let (key, value) = map.entry(i);
        r.append(key.as_str());
        r.append(" \u{2192} ");
        r.append(value.as_str());
        r.append(", ");
        i += 1;
        proof {
            let done = map@.take(i as int);
            assert(done.drop_last() =~= map@.take(i - 1));
            assert(done.last() == map@[i - 1]);
        }
    }
    assert(map@.take(n as int) =~= map@);
    r
}

/// Appends the infix notation of `node` to `s`.
pub fn infix_recurse(node: &Node, s: &mut String)
    ensures
        final(s)@ == old(s)@ + node@.infix(),
        node@.keys_ascending(),
    decreases node,
{
    match node {
        Node::Recurse(name, body) => {
            s.append("_rec ");
            s.append(name.as_str());
            s.append(".");
            infix_recurse(body, s);
        },
        Node::Restrict(body, action) => {
            infix_recurse(body, s);
            s.append("\\");
            s.append(action.display().as_str());
        },
        Node::Relabel(body, map) => {
            infix_recurse(body, s);
            s.append("[");
            s.append(print_map(map).as_str());
            s.append("]");
        },
        Node::Compose(left, right) => {
            s.append("(");
            infix_recurse(left, s);
            s.append(" | ");
            infix_recurse(right, s);
            s.append(")");
        },
        Node::Choice(left, right) => {
            s.append("(");
            infix_recurse(left, s);
            s.append(" + ");
            infix_recurse(right, s);
            s.append(")");
        },
        Node::Prefix(action, then) => {
            s.append(action.display().as_str());
            s.append(".");
            infix_recurse(then, s);
        },
        Node::Name(id) => {
            s.append(id.as_str());
        },
        Node::Nil => {
            s.append("nil");
        },
    }
    assert(s@ =~= old(s)@ + node@.infix());
}

/// Returns the indentation one level deeper than `tabs`.
fn one_deeper(tabs: &str, Ghost(depth): Ghost<nat>) -> (deeper: String)
    requires
        tabs@ == indent(depth),
    ensures
        deeper@ == indent(depth + 1),
{
    let mut deeper = String::from_str(tabs);
    deeper.append("   ");
    deeper
}

/// Returns `node` as an indented tree whose lines begin with `tabs`, the
/// indentation of its depth.
fn maxfmt(tabs: &str, node: &Node, Ghost(depth): Ghost<nat>) -> (s: String)
    requires
        tabs@ == indent(depth),
    ensures
        s@ == node@.tree_at(depth),
        node@.keys_ascending(),
    decreases node,
{
    let mut s = String::from_str(tabs);
    let ghost below: nat = depth + 1;
    match node {
        Node::Recurse(name, body) => {
            let deeper = one_deeper(tabs, Ghost(depth));
            let body = maxfmt(deeper.as_str(), body, Ghost(below));
            s.append("Recurse(\n");
            s.append(deeper.as_str());
            s.append(name.as_str());
            s.append(",\n");
            s.append(body.as_str());
            s.append("\n");
            s.append(tabs);
            s.append(")");
        },
        Node::Restrict(body, action) => {
            let deeper = one_deeper(tabs, Ghost(depth));
            let body = maxfmt(deeper.as_str(), body, Ghost(below));
            s.append("Restrict(\n");
            s.append(deeper.as_str());
            s.append(action.display().as_str());
            s.append(",\n");
            s.append(body.as_str());
            s.append("\n");
            s.append(tabs);
            s.append(")");
        },
        Node::Relabel(body, map) => {
            let deeper = one_deeper(tabs, Ghost(depth));
            let body = maxfmt(deeper.as_str(), body, Ghost(below));
            s.append("Relabel(\n");
            s.append(deeper.as_str());
            s.append(print_map(map).as_str());
            s.append(",\n");
            s.append(body.as_str());
            s.append("\n");
            s.append(tabs);
            s.append(")");
        },
        Node::Compose(left, right) => {
            let deeper = one_deeper(tabs, Ghost(depth));
            let left = maxfmt(deeper.as_str(), left, Ghost(below));
            let right = maxfmt(deeper.as_str(), right, Ghost(below));
            s.append("Compose(\n");
            s.append(left.as_str());
            s.append(",\n");
            s.append(right.as_str());
            s.append("\n");
            s.append(tabs);
            s.append(")");
        },
        Node::Choice(left, right) => {
            let deeper = one_deeper(tabs, Ghost(depth));
            let left = maxfmt(deeper.as_str(), left, Ghost(below));
            let right = maxfmt(deeper.as_str(), right, Ghost(below));
            s.append("Choice(\n");
            s.append(left.as_str());
            s.append(",\n");
            s.append(right.as_str());
            s.append("\n");
            s.append(tabs);
            s.append(")");
        },
        Node::Prefix(action, then) => {
            let deeper = one_deeper(tabs, Ghost(depth));
            let then = maxfmt(deeper.as_str(), then, Ghost(below));
            s.append("Prefix(\n");
            s.append(deeper.as_str());
            s.append(action.display().as_str());
            s.append(",\n");
            s.append(then.as_str());
            s.append("\n");
            s.append(tabs);
            s.append(")");
        },
        Node::Name(id) => {
            s.append("Name(\"");
            s.append(id.as_str());
            s.append("\")");
        },
        Node::Nil => {
            s.append("nil");
        },
    }
    assert(s@ =~= node@.tree_at(depth));
    s
}

impl Node {
    /// Returns the expression as an indented tree, one node to a block of
    /// lines, the root without indentation.
    pub fn tree_format(&self) -> (r: String)
        ensures
            r@ == self@.tree_format(),
            self@.keys_ascending(),
    {
        proof {
            reveal_strlit("");
        }
        assert(""@ =~= indent(0));
        maxfmt("", self, Ghost(0))
    }

    /// Returns the expression in infix notation.
    pub fn infix(&self) -> (r: String)
        ensures
            r@ == self@.infix(),
            self@.keys_ascending(),
    {
        let mut s = String::new();
        infix_recurse(self, &mut s);
        assert(s@ =~= self@.infix());
        s
    }
}

} // verus!
