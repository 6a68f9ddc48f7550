use ccs_tree::action::Action;
use ccs_tree::node::{infix_recurse, print_map, Node};
use ccs_tree::relabel::Relabeling;

fn name(id: &str) -> Node {
    Node::Name(id.to_string())
}

fn input(ch: &str) -> Action {
    Action::In(ch.to_string())
}

fn output(ch: &str) -> Action {
    Action::Out(ch.to_string())
}

fn relabeling(pairs: &[(&str, &str)]) -> Relabeling {
    let mut map = Relabeling::new();
    for (k, v) in pairs {
        map.insert(k.to_string(), v.to_string());
    }
    map
}

fn sample() -> Node {
    Node::Recurse(
        "X".to_string(),
        Box::new(Node::Choice(
            Box::new(Node::Prefix(input("a"), Box::new(name("X")))),
            Box::new(Node::Compose(
                Box::new(Node::Restrict(Box::new(name("P")), output("b"))),
                Box::new(Node::Relabel(
                    Box::new(Node::Nil),
                    relabeling(&[("y", "z"), ("x", "y")]),
                )),
            )),
        )),
    )
}

fn parentheses_balance(text: &str) -> bool {
    let mut open: i64 = 0;
    for c in text.chars() {
        if c == '(' {
            open += 1;
        } else if c == ')' {
            open -= 1;
            if open < 0 {
                return false;
            }
        }
    }
    open == 0
}

fn count_nodes(node: &Node) -> (usize, usize, usize) {
    match node {
        Node::Recurse(_, b) | Node::Restrict(b, _) | Node::Relabel(b, _) | Node::Prefix(_, b) => {
            let (n, l, i) = count_nodes(b);
            (n + 1, l + 1, i + 1)
        }
        Node::Compose(a, b) | Node::Choice(a, b) => {
            let (n1, l1, i1) = count_nodes(a);
            let (n2, l2, i2) = count_nodes(b);
            (n1 + n2 + 1, l1 + l2, i1 + i2 + 1)
        }
        Node::Name(_) | Node::Nil => (1, 0, 0),
    }
}

#[test]
fn infix_of_nil() {
    assert_eq!(Node::Nil.infix(), "nil");
}

#[test]
fn infix_of_a_name() {
    assert_eq!(name("P").infix(), "P");
}

#[test]
fn infix_of_a_prefix() {
    assert_eq!(Node::Prefix(input("a"), Box::new(Node::Nil)).infix(), "In{a}.nil");
}

#[test]
fn infix_of_a_composition() {
    assert_eq!(Node::Compose(Box::new(name("P")), Box::new(name("Q"))).infix(), "(P | Q)");
}

#[test]
fn infix_of_a_choice() {
    assert_eq!(Node::Choice(Box::new(name("P")), Box::new(name("Q"))).infix(), "(P + Q)");
}

#[test]
fn infix_of_a_restriction() {
    assert_eq!(Node::Restrict(Box::new(name("P")), output("b")).infix(), "P\\Out{b}");
}

#[test]
fn infix_of_a_relabeling() {
    let t = Node::Relabel(Box::new(name("P")), relabeling(&[("x", "y")]));
    assert_eq!(t.infix(), "P[x \u{2192} y, ]");
}

#[test]
fn infix_of_a_relabeling_lists_the_keys_in_ascending_order() {
    let t = Node::Relabel(Box::new(name("P")), relabeling(&[("c", "1"), ("a", "2"), ("b", "3")]));
    assert_eq!(t.infix(), "P[a \u{2192} 2, b \u{2192} 3, c \u{2192} 1, ]");
}

#[test]
fn infix_of_an_empty_relabeling() {
    let t = Node::Relabel(Box::new(name("P")), Relabeling::new());
    assert_eq!(t.infix(), "P[]");
}

#[test]
fn infix_of_a_recursion() {
    let t = Node::Recurse("X".to_string(), Box::new(Node::Prefix(output("a"), Box::new(name("X")))));
    assert_eq!(t.infix(), "_rec X.Out{a}.X");
}

#[test]
fn infix_parenthesises_every_nesting() {
    let t = Node::Compose(
        Box::new(Node::Choice(Box::new(name("A")), Box::new(name("B")))),
        Box::new(Node::Compose(Box::new(name("C")), Box::new(Node::Nil))),
    );
    assert_eq!(t.infix(), "((A + B) | (C | nil))");
}

#[test]
fn infix_of_the_sample() {
    assert_eq!(
        sample().infix(),
        "_rec X.(In{a}.X + (P\\Out{b} | nil[x \u{2192} y, y \u{2192} z, ]))"
    );
}

#[test]
fn infix_is_the_same_on_every_call() {
    let t = sample();
    let first = t.infix();
    assert_eq!(t.infix(), first);
    assert_eq!(t.clone().infix(), first);
    assert_eq!(sample().infix().as_bytes(), first.as_bytes());
}

#[test]
fn infix_has_balanced_parentheses() {
    let trees = vec![
        Node::Nil,
        name("P"),
        sample(),
        Node::Compose(Box::new(sample()), Box::new(sample())),
        Node::Choice(Box::new(name("(P)")), Box::new(Node::Prefix(input("(()())"), Box::new(Node::Nil)))),
    ];
    for t in trees {
        assert!(parentheses_balance(&t.infix()));
    }
}

#[test]
fn infix_repeats_an_unbalanced_name() {
    assert_eq!(name("(").infix(), "(");
    assert!(!parentheses_balance(&name("(").infix()));
}

#[test]
fn infix_recurse_appends_to_what_is_there() {
    let mut s = String::from("already: ");
    infix_recurse(&Node::Compose(Box::new(name("P")), Box::new(Node::Nil)), &mut s);
    assert_eq!(s, "already: (P | nil)");
    infix_recurse(&Node::Nil, &mut s);
    assert_eq!(s, "already: (P | nil)nil");
}

#[test]
fn print_map_ends_every_pair_with_a_separator() {
    assert_eq!(print_map(&Relabeling::new()), "");
    assert_eq!(print_map(&relabeling(&[("x", "y")])), "x \u{2192} y, ");
    assert_eq!(
        print_map(&relabeling(&[("b", "c"), ("a", "a")])),
        "a \u{2192} a, b \u{2192} c, "
    );
}

#[test]
fn print_map_shows_the_last_value_given_to_a_key() {
    assert_eq!(print_map(&relabeling(&[("a", "1"), ("a", "2")])), "a \u{2192} 2, ");
}

#[test]
fn tree_format_of_a_name() {
    assert_eq!(name("P").tree_format(), "Name(\"P\")");
}

#[test]
fn tree_format_of_nil() {
    assert_eq!(Node::Nil.tree_format(), "nil");
}

#[test]
fn tree_format_of_a_composition() {
    let t = Node::Compose(Box::new(name("P")), Box::new(Node::Nil));
    assert_eq!(t.tree_format(), "Compose(\n   Name(\"P\"),\n   nil\n)");
}

#[test]
fn tree_format_of_a_choice() {
    let t = Node::Choice(Box::new(Node::Nil), Box::new(name("Q")));
    assert_eq!(t.tree_format(), "Choice(\n   nil,\n   Name(\"Q\")\n)");
}

#[test]
fn tree_format_of_a_prefix() {
    let t = Node::Prefix(input("a"), Box::new(Node::Nil));
    assert_eq!(t.tree_format(), "Prefix(\n   In{a},\n   nil\n)");
}

#[test]
fn tree_format_of_a_restriction() {
    let t = Node::Restrict(Box::new(name("P")), output("b"));
    assert_eq!(t.tree_format(), "Restrict(\n   Out{b},\n   Name(\"P\")\n)");
}

#[test]
fn tree_format_of_a_recursion() {
    let t = Node::Recurse("X".to_string(), Box::new(name("X")));
    assert_eq!(t.tree_format(), "Recurse(\n   X,\n   Name(\"X\")\n)");
}

#[test]
fn tree_format_of_a_relabeling() {
    let t = Node::Relabel(Box::new(Node::Nil), relabeling(&[("x", "y"), ("a", "b")]));
    assert_eq!(t.tree_format(), "Relabel(\n   a \u{2192} b, x \u{2192} y, ,\n   nil\n)");
}

#[test]
fn tree_format_of_an_empty_relabeling() {
    let t = Node::Relabel(Box::new(Node::Nil), Relabeling::new());
    assert_eq!(t.tree_format(), "Relabel(\n   ,\n   nil\n)");
}

#[test]
fn tree_format_indents_three_spaces_for_each_level() {
    let t = Node::Compose(
        Box::new(Node::Prefix(input("a"), Box::new(name("P")))),
        Box::new(Node::Choice(Box::new(Node::Nil), Box::new(name("Q")))),
    );
    let expected = [
        "Compose(",
        "   Prefix(",
        "      In{a},",
        "      Name(\"P\")",
        "   ),",
        "   Choice(",
        "      nil,",
        "      Name(\"Q\")",
        "   )",
        ")",
    ]
    .join("\n");
    assert_eq!(t.tree_format(), expected);
}

#[test]
fn tree_format_of_the_sample() {
    let expected = [
        "Recurse(",
        "   X,",
        "   Choice(",
        "      Prefix(",
        "         In{a},",
        "         Name(\"X\")",
        "      ),",
        "      Compose(",
        "         Restrict(",
        "            Out{b},",
        "            Name(\"P\")",
        "         ),",
        "         Relabel(",
        "            x \u{2192} y, y \u{2192} z, ,",
        "            nil",
        "         )",
        "      )",
        "   )",
        ")",
    ]
    .join("\n");
    assert_eq!(sample().tree_format(), expected);
}

#[test]
fn tree_format_is_the_same_on_every_call() {
    let t = sample();
    assert_eq!(t.tree_format(), t.tree_format());
    assert_eq!(t.clone().tree_format(), t.tree_format());
}

#[test]
fn tree_format_line_count_follows_the_shape() {
    let trees = vec![
        Node::Nil,
        name("P"),
        Node::Compose(Box::new(Node::Nil), Box::new(Node::Nil)),
        Node::Recurse("X".to_string(), Box::new(Node::Nil)),
        sample(),
        Node::Choice(Box::new(sample()), Box::new(sample())),
    ];
    for t in trees {
        let (nodes, labels, inner) = count_nodes(&t);
        assert_eq!(t.tree_format().lines().count(), nodes + labels + inner);
    }
}

#[test]
fn tree_format_line_counts() {
    assert_eq!(Node::Nil.tree_format().lines().count(), 1);
    assert_eq!(name("P").tree_format().lines().count(), 1);
    let pair = Node::Compose(Box::new(Node::Nil), Box::new(Node::Nil));
    assert_eq!(pair.tree_format().lines().count(), 4);
    let bound = Node::Recurse("X".to_string(), Box::new(Node::Nil));
    assert_eq!(bound.tree_format().lines().count(), 4);
    assert_eq!(sample().tree_format().lines().count(), 19);
}

#[test]
fn tree_format_of_a_deep_tree() {
    let mut t = Node::Nil;
    for _ in 0..300 {
        t = Node::Prefix(input("a"), Box::new(t));
    }
    let text = t.tree_format();
    let lines: Vec<&str> = text.lines().collect();
    assert_eq!(lines.len(), 300 * 3 + 1);
    assert_eq!(lines[0], "Prefix(");
    assert_eq!(lines[1], "   In{a},");
    let innermost = format!("{}nil", "   ".repeat(300));
    assert_eq!(lines[600], innermost);
    assert_eq!(lines[900], ")");
}

#[test]
fn clone_gives_an_equal_tree() {
    let t = sample();
    let copy = t.clone();
    assert_eq!(copy, t);
    assert_eq!(copy.infix(), t.infix());
}

#[test]
fn trees_are_equal_by_shape_and_texts() {
    assert_eq!(sample(), sample());
    assert_ne!(name("P"), name("Q"));
    assert_ne!(
        Node::Compose(Box::new(name("P")), Box::new(name("Q"))),
        Node::Choice(Box::new(name("P")), Box::new(name("Q")))
    );
    assert_ne!(
        Node::Compose(Box::new(name("P")), Box::new(name("Q"))),
        Node::Compose(Box::new(name("Q")), Box::new(name("P")))
    );
}
