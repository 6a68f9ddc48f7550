use ccs_tree::action::Action;
use std::cmp::Ordering;

fn input(name: &str) -> Action {
    Action::In(name.to_string())
}

fn output(name: &str) -> Action {
    Action::Out(name.to_string())
}

#[test]
fn bar_flips_the_direction() {
    assert_eq!(input("a").bar(), output("a"));
    assert_eq!(output("b").bar(), input("b"));
}

#[test]
fn bar_leaves_the_action_untouched() {
    let a = input("a");
    let flipped = a.bar();
    assert_eq!(a, input("a"));
    assert_eq!(flipped, output("a"));
}

#[test]
fn bar_twice_is_the_identity() {
    for a in [input("a"), output("b"), input(""), output("x y"), input("\u{2192}")] {
        assert_eq!(a.bar().bar(), a);
    }
}

#[test]
fn bar_keeps_the_channel() {
    for a in [input("a"), output("b"), input(""), output("chan_1")] {
        assert_eq!(a.bar().channel(), a.channel());
    }
}

#[test]
fn into_bar_agrees_with_bar() {
    for a in [input("a"), output("b"), input(""), output("long channel name")] {
        let expected = a.bar();
        assert_eq!(a.into_bar(), expected);
    }
}

#[test]
fn into_bar_twice_is_the_identity() {
    assert_eq!(input("a").into_bar().into_bar(), input("a"));
    assert_eq!(output("b").into_bar().into_bar(), output("b"));
}

#[test]
fn channel_ignores_the_direction() {
    assert_eq!(input("a").channel(), "a");
    assert_eq!(output("a").channel(), "a");
    assert_eq!(input("").channel(), "");
}

#[test]
fn with_new_channel_installs_the_name() {
    assert_eq!(input("a").with_new_channel("z").channel(), "z");
    assert_eq!(output("a").with_new_channel("z").channel(), "z");
    assert_eq!(output("a").with_new_channel("").channel(), "");
}

#[test]
fn with_new_channel_keeps_the_direction() {
    assert_eq!(input("a").with_new_channel("z"), input("z"));
    assert_eq!(output("a").with_new_channel("z"), output("z"));
}

#[test]
fn with_new_channel_leaves_the_action_untouched() {
    let a = output("a");
    let renamed = a.with_new_channel("b");
    assert_eq!(a, output("a"));
    assert_eq!(renamed, output("b"));
}

#[test]
fn with_new_channel_may_keep_the_name() {
    assert_eq!(input("a").with_new_channel("a"), input("a"));
}

#[test]
fn display_wraps_the_channel_in_braces() {
    assert_eq!(input("a").display(), "In{a}");
    assert_eq!(output("b").display(), "Out{b}");
}

#[test]
fn display_of_an_empty_channel() {
    assert_eq!(input("").display(), "In{}");
    assert_eq!(output("").display(), "Out{}");
}

#[test]
fn display_keeps_the_channel_verbatim() {
    assert_eq!(input("a b{c}").display(), "In{a b{c}}");
    assert_eq!(output("\u{e9}t\u{e9}").display(), "Out{\u{e9}t\u{e9}}");
}

#[test]
fn clone_gives_an_equal_action() {
    let a = input("a");
    let b = a.clone();
    assert_eq!(a, b);
    assert_eq!(output("q").clone(), output("q"));
}

#[test]
fn actions_differ_by_direction_and_by_channel() {
    assert_ne!(input("a"), output("a"));
    assert_ne!(input("a"), input("b"));
}

#[test]
fn inputs_order_before_outputs_then_by_channel() {
    assert!(input("z") < output("a"));
    assert!(input("a") < input("b"));
    assert!(output("a") < output("ab"));
    let mut all = vec![output("b"), input("b"), output("a"), input("a")];
    all.sort();
    assert_eq!(all, vec![input("a"), input("b"), output("a"), output("b")]);
}

#[test]
fn comparison_agrees_with_the_total_order() {
    let all = [
        input(""),
        input("a"),
        input("ab"),
        input("b"),
        input("\u{e9}"),
        output(""),
        output("a"),
        output("ab"),
        output("b"),
        output("\u{2192}"),
    ];
    for a in &all {
        for b in &all {
            assert_eq!(a.partial_cmp(b), Some(a.cmp(b)));
            assert_eq!(a == b, a.cmp(b) == Ordering::Equal);
            assert_eq!(a < b, a.cmp(b) == Ordering::Less);
        }
    }
}

#[test]
fn comparison_of_two_actions() {
    assert_eq!(input("a").partial_cmp(&input("a")), Some(Ordering::Equal));
    assert_eq!(input("a").partial_cmp(&input("b")), Some(Ordering::Less));
    assert_eq!(input("b").partial_cmp(&input("a")), Some(Ordering::Greater));
    assert_eq!(input("b").partial_cmp(&output("a")), Some(Ordering::Less));
    assert_eq!(output("a").partial_cmp(&input("b")), Some(Ordering::Greater));
    assert_eq!(output("a").partial_cmp(&output("aa")), Some(Ordering::Less));
}
