//! What holds of the two renderings of every tree.

use vstd::prelude::*;
use crate::action::ActionView;
use crate::node::{indent, relabel_text, Node, NodeView};
use crate::text::{
    balanced, lemma_balanced_concat, lemma_balanced_wrap, lemma_newlines_concat, lemma_one_line,
    lemma_plain_balanced, line_count, newlines, one_line,
};

verus! {

/// Every key and every value of `entries` satisfies `p`.
pub open spec fn every_entry_text(
    entries: Seq<(Seq<char>, Seq<char>)>,
    p: spec_fn(Seq<char>) -> bool,
) -> bool {
    forall|i: int|
        0 <= i < entries.len() ==> p((#[trigger] entries[i]).0) && p(entries[i].1)
}

impl NodeView {
    /// Every text that the tree holds satisfies `p`: the names, the
    /// channels of the actions, the keys and the values of the relabelings.
    pub open spec fn every_text(self, p: spec_fn(Seq<char>) -> bool) -> bool
        decreases self,
    {
        match self {
            NodeView::Recurse(name, body) => p(name) && body.every_text(p),
            NodeView::Restrict(body, action) => p(action.channel()) && body.every_text(p),
            NodeView::Relabel(body, entries) => every_entry_text(entries, p) && body.every_text(p),
            NodeView::Compose(left, right) => left.every_text(p) && right.every_text(p),
            NodeView::Choice(left, right) => left.every_text(p) && right.every_text(p),
            NodeView::Prefix(action, then) => p(action.channel()) && then.every_text(p),
            NodeView::Name(id) => p(id),
            NodeView::Nil => true,
        }
    }

    /// The number of nodes of the tree.
    pub open spec fn nodes(self) -> nat
        decreases self,
    {
        match self {
            NodeView::Recurse(_, body) => 1 + body.nodes(),
            NodeView::Restrict(body, _) => 1 + body.nodes(),
            NodeView::Relabel(body, _) => 1 + body.nodes(),
            NodeView::Compose(left, right) => 1 + left.nodes() + right.nodes(),
            NodeView::Choice(left, right) => 1 + left.nodes() + right.nodes(),
            NodeView::Prefix(_, then) => 1 + then.nodes(),
            NodeView::Name(_) => 1,
            NodeView::Nil => 1,
        }
    }

    /// The number of nodes that have a node below them: all but the names
    /// and `Nil`.
    pub open spec fn inner_nodes(self) -> nat
        decreases self,
    {
        match self {
            NodeView::Recurse(_, body) => 1 + body.inner_nodes(),
            NodeView::Restrict(body, _) => 1 + body.inner_nodes(),
            NodeView::Relabel(body, _) => 1 + body.inner_nodes(),
            NodeView::Compose(left, right) => 1 + left.inner_nodes() + right.inner_nodes(),
            NodeView::Choice(left, right) => 1 + left.inner_nodes() + right.inner_nodes(),
            NodeView::Prefix(_, then) => 1 + then.inner_nodes(),
            NodeView::Name(_) => 0,
            NodeView::Nil => 0,
        }
    }

    /// The number of nodes that carry, beside the node below them, a name,
    /// an action or a relabeling.
    pub open spec fn labelled_nodes(self) -> nat
        decreases self,
    {
        match self {
            NodeView::Recurse(_, body) => 1 + body.labelled_nodes(),
            NodeView::Restrict(body, _) => 1 + body.labelled_nodes(),
            NodeView::Relabel(body, _) => 1 + body.labelled_nodes(),
            NodeView::Compose(left, right) => left.labelled_nodes() + right.labelled_nodes(),
            NodeView::Choice(left, right) => left.labelled_nodes() + right.labelled_nodes(),
            NodeView::Prefix(_, then) => 1 + then.labelled_nodes(),
            NodeView::Name(_) => 0,
            NodeView::Nil => 0,
        }
    }
}

/// The text of an action is balanced where its channel name is.
pub proof fn lemma_display_balanced(a: ActionView)
    requires
        balanced(a.channel()),
    ensures
        balanced(a.display()),
{
    reveal_strlit("In{");
    reveal_strlit("Out{");
    reveal_strlit("}");
    lemma_plain_balanced("In{"@);
    lemma_plain_balanced("Out{"@);
    lemma_plain_balanced("}"@);
    match a {
        ActionView::In(c) => {
            lemma_balanced_concat("In{"@, c);
            lemma_balanced_concat("In{"@ + c, "}"@);
        },
        ActionView::Out(c) => {
            lemma_balanced_concat("Out{"@, c);
            lemma_balanced_concat("Out{"@ + c, "}"@);
        },
    }
}

/// The text of the entries of a relabeling is balanced where every key and
/// every value is.
pub proof fn lemma_relabel_text_balanced(entries: Seq<(Seq<char>, Seq<char>)>)
    requires
        every_entry_text(entries, |s: Seq<char>| balanced(s)),
    ensures
        balanced(relabel_text(entries)),
    decreases entries.len(),
{
    if entries.len() == 0 {
        lemma_plain_balanced(Seq::<char>::empty());
    } else {
        let before = relabel_text(entries.drop_last());
        let (key, value) = entries.last();
        assert forall|i: int| 0 <= i < entries.drop_last().len() implies balanced(
            (#[trigger] entries.drop_last()[i]).0,
        ) && balanced(entries.drop_last()[i].1) by {
            assert(entries.drop_last()[i] == entries[i]);
        }
        lemma_relabel_text_balanced(entries.drop_last());
        reveal_strlit(" \u{2192} ");
        reveal_strlit(", ");
        lemma_plain_balanced(" \u{2192} "@);
        lemma_plain_balanced(", "@);
        assert(balanced(key) && balanced(value)) by {
            assert(entries[entries.len() - 1] == entries.last());
        }
        lemma_balanced_concat(before, key);
        lemma_balanced_concat(before + key, " \u{2192} "@);
        lemma_balanced_concat(before + key + " \u{2192} "@, value);
        lemma_balanced_concat(before + key + " \u{2192} "@ + value, ", "@);
    }
}

/// The infix notation of a tree has balanced parentheses, provided that
/// each text that the tree holds has: read from left to right, every
/// closing parenthesis meets an open one, and none stays open.
pub proof fn lemma_infix_balanced(t: NodeView)
    requires
        t.every_text(|s: Seq<char>| balanced(s)),
    ensures
        balanced(t.infix()),
    decreases t,
{
    match t {
        NodeView::Recurse(name, body) => {
            lemma_infix_balanced(*body);
            reveal_strlit("_rec ");
            reveal_strlit(".");
            lemma_plain_balanced("_rec "@);
            lemma_plain_balanced("."@);
            lemma_balanced_concat("_rec "@, name);
            lemma_balanced_concat("_rec "@ + name, "."@);
            lemma_balanced_concat("_rec "@ + name + "."@, body.infix());
        },
        NodeView::Restrict(body, action) => {
            lemma_infix_balanced(*body);
            lemma_display_balanced(action);
            reveal_strlit("\\");
            lemma_plain_balanced("\\"@);
            lemma_balanced_concat(body.infix(), "\\"@);
            lemma_balanced_concat(body.infix() + "\\"@, action.display());
        },
        NodeView::Relabel(body, entries) => {
            lemma_infix_balanced(*body);
            lemma_relabel_text_balanced(entries);
            reveal_strlit("[");
            reveal_strlit("]");
            lemma_plain_balanced("["@);
            lemma_plain_balanced("]"@);
            lemma_balanced_concat(body.infix(), "["@);
            lemma_balanced_concat(body.infix() + "["@, relabel_text(entries));
            lemma_balanced_concat(body.infix() + "["@ + relabel_text(entries), "]"@);
        },
        NodeView::Compose(left, right) => {
            lemma_infix_balanced(*left);
            lemma_infix_balanced(*right);
            reveal_strlit(" | ");
            lemma_plain_balanced(" | "@);
            lemma_joined_balanced(left.infix(), " | "@, right.infix());
        },
        NodeView::Choice(left, right) => {
            lemma_infix_balanced(*left);
            lemma_infix_balanced(*right);
            reveal_strlit(" + ");
            lemma_plain_balanced(" + "@);
            lemma_joined_balanced(left.infix(), " + "@, right.infix());
        },
        NodeView::Prefix(action, then) => {
            lemma_infix_balanced(*then);
            lemma_display_balanced(action);
            reveal_strlit(".");
            lemma_plain_balanced("."@);
            lemma_balanced_concat(action.display(), "."@);
            lemma_balanced_concat(action.display() + "."@, then.infix());
        },
        NodeView::Name(id) => {},
        NodeView::Nil => {
            reveal_strlit("nil");
            lemma_plain_balanced("nil"@);
        },
    }
}

/// Two balanced texts with a balanced sign between them, the three in
/// parentheses, are balanced.
proof fn lemma_joined_balanced(left: Seq<char>, sign: Seq<char>, right: Seq<char>)
    requires
        balanced(left),
        balanced(sign),
        balanced(right),
    ensures
        balanced("("@ + left + sign + right + ")"@),
{
    reveal_strlit("(");
    reveal_strlit(")");
    lemma_balanced_concat(left, sign);
    lemma_balanced_concat(left + sign, right);
    lemma_balanced_wrap(left + sign + right);
    assert("("@ =~= seq!['(']);
    assert(")"@ =~= seq![')']);
    assert("("@ + left + sign + right + ")"@ =~= seq!['('] + (left + sign + right) + seq![')']);
}

/// Equal trees have the same infix notation, character for character:
/// the notation depends on nothing but the tree.
pub proof fn lemma_infix_deterministic(a: Node, b: Node)
    requires
        a@ == b@,
    ensures
        a@.infix() == b@.infix(),
{
}

/// The indentation of any depth holds no line break.
pub proof fn lemma_indent_one_line(depth: nat)
    ensures
        newlines(indent(depth)) == 0,
    decreases depth,
{
    if depth > 0 {
        lemma_indent_one_line((depth - 1) as nat);
        reveal_strlit("   ");
        lemma_one_line("   "@);
        lemma_newlines_concat(indent((depth - 1) as nat), "   "@);
    }
}

/// The text of an action is on one line where its channel name is.
pub proof fn lemma_display_one_line(a: ActionView)
    requires
        one_line(a.channel()),
    ensures
        newlines(a.display()) == 0,
{
    reveal_strlit("In{");
    reveal_strlit("Out{");
    reveal_strlit("}");
    lemma_one_line("In{"@);
    lemma_one_line("Out{"@);
    lemma_one_line("}"@);
    lemma_one_line(a.channel());
    match a {
        ActionView::In(c) => {
            lemma_newlines_concat("In{"@, c);
            lemma_newlines_concat("In{"@ + c, "}"@);
        },
        ActionView::Out(c) => {
            lemma_newlines_concat("Out{"@, c);
            lemma_newlines_concat("Out{"@ + c, "}"@);
        },
    }
}

/// The text of the entries of a relabeling is on one line where every key
/// and every value is.
pub proof fn lemma_relabel_text_one_line(entries: Seq<(Seq<char>, Seq<char>)>)
    requires
        every_entry_text(entries, |s: Seq<char>| one_line(s)),
    ensures
        newlines(relabel_text(entries)) == 0,
    decreases entries.len(),
{
    if entries.len() > 0 {
        let before = relabel_text(entries.drop_last());
        let (key, value) = entries.last();
        assert forall|i: int| 0 <= i < entries.drop_last().len() implies one_line(
            (#[trigger] entries.drop_last()[i]).0,
        ) && one_line(entries.drop_last()[i].1) by {
            assert(entries.drop_last()[i] == entries[i]);
        }
        lemma_relabel_text_one_line(entries.drop_last());
        reveal_strlit(" \u{2192} ");
        reveal_strlit(", ");
        lemma_one_line(" \u{2192} "@);
        lemma_one_line(", "@);
        assert(one_line(key) && one_line(value)) by {
            assert(entries[entries.len() - 1] == entries.last());
        }
        lemma_one_line(key);
        lemma_one_line(value);
        lemma_newlines_concat(before, key);
        lemma_newlines_concat(before + key, " \u{2192} "@);
        lemma_newlines_concat(before + key + " \u{2192} "@, value);
        lemma_newlines_concat(before + key + " \u{2192} "@ + value, ", "@);
    }
}

/// A text that ends in its only line break has one line break.
proof fn lemma_opening_line(s: Seq<char>)
    requires
        s.len() > 0,
        s.last() == '\n',
        one_line(s.drop_last()),
    ensures
        newlines(s) == 1,
{
    lemma_one_line(s.drop_last());
}

/// The line breaks of the block of a node with a label: three, and those
/// of the block below it.
proof fn lemma_labelled_block(
    tabs: Seq<char>,
    opening: Seq<char>,
    deeper: Seq<char>,
    label: Seq<char>,
    body: Seq<char>,
)
    requires
        newlines(tabs) == 0,
        newlines(opening) == 1,
        newlines(deeper) == 0,
        newlines(label) == 0,
    ensures
        newlines(tabs + opening + deeper + label + ",\n"@ + body + "\n"@ + tabs + ")"@) == 3
            + newlines(body),
{
    reveal_strlit(",\n");
    reveal_strlit("\n");
    reveal_strlit(")");
    lemma_opening_line(",\n"@);
    lemma_opening_line("\n"@);
    lemma_one_line(")"@);
    lemma_newlines_concat(tabs, opening);
    lemma_newlines_concat(tabs + opening, deeper);
    lemma_newlines_concat(tabs + opening + deeper, label);
    lemma_newlines_concat(tabs + opening + deeper + label, ",\n"@);
    lemma_newlines_concat(tabs + opening + deeper + label + ",\n"@, body);
    lemma_newlines_concat(tabs + opening + deeper + label + ",\n"@ + body, "\n"@);
    lemma_newlines_concat(tabs + opening + deeper + label + ",\n"@ + body + "\n"@, tabs);
    lemma_newlines_concat(
        tabs + opening + deeper + label + ",\n"@ + body + "\n"@ + tabs,
        ")"@,
    );
}

/// The line breaks of the block of a node over two nodes: three, and those
/// of the two blocks below it.
proof fn lemma_pair_block(tabs: Seq<char>, opening: Seq<char>, left: Seq<char>, right: Seq<char>)
    requires
        newlines(tabs) == 0,
        newlines(opening) == 1,
    ensures
        newlines(tabs + opening + left + ",\n"@ + right + "\n"@ + tabs + ")"@) == 3 + newlines(
            left,
        ) + newlines(right),
{
    reveal_strlit(",\n");
    reveal_strlit("\n");
    reveal_strlit(")");
    lemma_opening_line(",\n"@);
    lemma_opening_line("\n"@);
    lemma_one_line(")"@);
    lemma_newlines_concat(tabs, opening);
    lemma_newlines_concat(tabs + opening, left);
    lemma_newlines_concat(tabs + opening + left, ",\n"@);
    lemma_newlines_concat(tabs + opening + left + ",\n"@, right);
    lemma_newlines_concat(tabs + opening + left + ",\n"@ + right, "\n"@);
    lemma_newlines_concat(tabs + opening + left + ",\n"@ + right + "\n"@, tabs);
    lemma_newlines_concat(tabs + opening + left + ",\n"@ + right + "\n"@ + tabs, ")"@);
}

/// The number of lines of the indented tree, provided that no text that
/// the tree holds has a line break: one line for each node, one more for
/// each label (the name, the action or the relabeling that a node carries
/// beside the node below it), and one more for each node that has a node
/// below it, which closes its block on a line of its own. A tree of a
/// single node is rendered on a single line.
pub proof fn lemma_tree_line_count(t: NodeView, depth: nat)
    requires
        t.every_text(|s: Seq<char>| one_line(s)),
    ensures
        line_count(t.tree_at(depth)) == t.nodes() + t.labelled_nodes() + t.inner_nodes(),
        t.inner_nodes() == 0 ==> line_count(t.tree_at(depth)) == t.nodes(),
    decreases t,
{
    let tabs = indent(depth);
    let deeper = indent(depth + 1);
    lemma_indent_one_line(depth);
    lemma_indent_one_line(depth + 1);
    match t {
        NodeView::Recurse(name, body) => {
            lemma_tree_line_count(*body, depth + 1);
            reveal_strlit("Recurse(\n");
            lemma_opening_line("Recurse(\n"@);
            lemma_one_line(name);
            lemma_labelled_block(tabs, "Recurse(\n"@, deeper, name, body.tree_at(depth + 1));
        },
        NodeView::Restrict(body, action) => {
            lemma_tree_line_count(*body, depth + 1);
            reveal_strlit("Restrict(\n");
            lemma_opening_line("Restrict(\n"@);
            lemma_display_one_line(action);
            lemma_labelled_block(
                tabs,
                "Restrict(\n"@,
                deeper,
                action.display(),
                body.tree_at(depth + 1),
            );
        },
        NodeView::Relabel(body, entries) => {
            lemma_tree_line_count(*body, depth + 1);
            reveal_strlit("Relabel(\n");
            lemma_opening_line("Relabel(\n"@);
            lemma_relabel_text_one_line(entries);
            lemma_labelled_block(
                tabs,
                "Relabel(\n"@,
                deeper,
                relabel_text(entries),
                body.tree_at(depth + 1),
            );
        },
        NodeView::Compose(left, right) => {
            lemma_tree_line_count(*left, depth + 1);
            lemma_tree_line_count(*right, depth + 1);
            reveal_strlit("Compose(\n");
            lemma_opening_line("Compose(\n"@);
            lemma_pair_block(
                tabs,
                "Compose(\n"@,
                left.tree_at(depth + 1),
                right.tree_at(depth + 1),
            );
        },
        NodeView::Choice(left, right) => {
            lemma_tree_line_count(*left, depth + 1);
            lemma_tree_line_count(*right, depth + 1);
            reveal_strlit("Choice(\n");
            lemma_opening_line("Choice(\n"@);
            lemma_pair_block(
                tabs,
                "Choice(\n"@,
                left.tree_at(depth + 1),
                right.tree_at(depth + 1),
            );
        },
        NodeView::Prefix(action, then) => {
            lemma_tree_line_count(*then, depth + 1);
            reveal_strlit("Prefix(\n");
            lemma_opening_line("Prefix(\n"@);
            lemma_display_one_line(action);
            lemma_labelled_block(
                tabs,
                "Prefix(\n"@,
                deeper,
                action.display(),
                then.tree_at(depth + 1),
            );
        },
        NodeView::Name(id) => {
            reveal_strlit("Name(\"");
            reveal_strlit("\")");
            lemma_one_line("Name(\""@);
            lemma_one_line("\")"@);
            lemma_one_line(id);
            lemma_newlines_concat(tabs, "Name(\""@);
            lemma_newlines_concat(tabs + "Name(\""@, id);
            lemma_newlines_concat(tabs + "Name(\""@ + id, "\")"@);
        },
        NodeView::Nil => {
            reveal_strlit("nil");
            lemma_one_line("nil"@);
            lemma_newlines_concat(tabs, "nil"@);
        },
    }
}

} // verus!
