//! Two measures of a text: how its parentheses nest, and how many lines it
//! has.

use vstd::prelude::*;

verus! {

/// What a character adds to the nesting depth: an opening parenthesis one,
/// a closing one minus one, any other nothing.
pub open spec fn paren_step(c: char) -> int {
    if c == '(' {
        1
    } else if c == ')' {
        -1
    } else {
        0
    }
}

/// The nesting depth after `s`: opening parentheses less closing ones.
pub open spec fn paren_depth(s: Seq<char>) -> int
    decreases s.len(),
{
    if s.len() == 0 {
        0
    } else {
        paren_depth(s.drop_last()) + paren_step(s.last())
    }
}

/// Read from depth `start`, no beginning of `s` closes a parenthesis that
/// is not open.
pub open spec fn stays_open(s: Seq<char>, start: int) -> bool {
    forall|n: int| 0 <= n <= s.len() ==> start + paren_depth(#[trigger] s.take(n)) >= 0
}

/// The parentheses of `s` are balanced: read from left to right, each
/// closing one meets an open one, and none stays open at the end.
pub open spec fn balanced(s: Seq<char>) -> bool {
    stays_open(s, 0) && paren_depth(s) == 0
}

/// `s` holds no parenthesis.
pub open spec fn plain(s: Seq<char>) -> bool {
    forall|i: int| 0 <= i < s.len() ==> paren_step(#[trigger] s[i]) == 0
}

/// The depth after two texts in a row is the sum of their depths.
pub proof fn lemma_paren_depth_concat(a: Seq<char>, b: Seq<char>)
    ensures
        paren_depth(a + b) == paren_depth(a) + paren_depth(b),
    decreases b.len(),
{
    if b.len() == 0 {
        assert(a + b =~= a);
    } else {
        assert((a + b).drop_last() =~= a + b.drop_last());
        lemma_paren_depth_concat(a, b.drop_last());
    }
}

/// Two texts in a row stay open where the first does, and the second does
/// from the depth that the first leaves.
pub proof fn lemma_stays_open_concat(a: Seq<char>, b: Seq<char>, start: int)
    requires
        stays_open(a, start),
        stays_open(b, start + paren_depth(a)),
    ensures
        stays_open(a + b, start),
{
    assert forall|n: int| 0 <= n <= (a + b).len() implies start + paren_depth(
        #[trigger] (a + b).take(n),
    ) >= 0 by {
        if n <= a.len() {
            assert((a + b).take(n) =~= a.take(n));
        } else {
            assert((a + b).take(n) =~= a + b.take(n - a.len()));
            lemma_paren_depth_concat(a, b.take(n - a.len()));
        }
    }
}

/// Two balanced texts in a row are balanced.
pub proof fn lemma_balanced_concat(a: Seq<char>, b: Seq<char>)
    requires
        balanced(a),
        balanced(b),
    ensures
        balanced(a + b),
{
    lemma_stays_open_concat(a, b, 0);
    lemma_paren_depth_concat(a, b);
}

/// A text without parentheses is balanced.
pub proof fn lemma_plain_balanced(s: Seq<char>)
    requires
        plain(s),
    ensures
        balanced(s),
    decreases s.len(),
{
    if s.len() > 0 {
        lemma_plain_balanced(s.drop_last());
        assert forall|n: int| 0 <= n <= s.len() implies paren_depth(#[trigger] s.take(n))
            >= 0 by {
            if n < s.len() {
                assert(s.take(n) =~= s.drop_last().take(n));
            } else {
                assert(s.take(n) =~= s);
            }
        }
    } else {
        assert forall|n: int| 0 <= n <= s.len() implies paren_depth(#[trigger] s.take(n))
            >= 0 by {
            assert(s.take(n) =~= s);
        }
    }
}

/// A balanced text between an opening and a closing parenthesis is
/// balanced.
pub proof fn lemma_balanced_wrap(s: Seq<char>)
    requires
        balanced(s),
    ensures
        balanced(seq!['('] + s + seq![')']),
{
    let open = seq!['('];
    let close = seq![')'];
    assert(paren_depth(Seq::<char>::empty()) == 0);
    assert(open.drop_last() =~= Seq::<char>::empty());
    assert(close.drop_last() =~= Seq::<char>::empty());
    assert(paren_depth(open) == 1);
    assert(paren_depth(close) == -1);
    assert forall|n: int| 0 <= n <= open.len() implies paren_depth(#[trigger] open.take(n))
        >= 0 by {
        if n == 0 {
            assert(open.take(n) =~= Seq::<char>::empty());
        } else {
            assert(open.take(n) =~= open);
        }
    }
    assert forall|n: int| 0 <= n <= close.len() implies 1 + paren_depth(#[trigger] close.take(n))
        >= 0 by {
        if n == 0 {
            assert(close.take(n) =~= Seq::<char>::empty());
        } else {
            assert(close.take(n) =~= close);
        }
    }
    lemma_paren_depth_concat(open, s);
    lemma_stays_open_concat(open, s, 0);
    lemma_paren_depth_concat(open + s, close);
    lemma_stays_open_concat(open + s, close, 0);
}

/// The number of line breaks in `s`.
pub open spec fn newlines(s: Seq<char>) -> nat
    decreases s.len(),
{
    if s.len() == 0 {
        0
    } else if s.last() == '\n' {
        newlines(s.drop_last()) + 1
    } else {
        newlines(s.drop_last())
    }
}

/// The number of lines of `s`: one more than it has line breaks.
pub open spec fn line_count(s: Seq<char>) -> nat {
    newlines(s) + 1
}

/// `s` holds no line break.
pub open spec fn one_line(s: Seq<char>) -> bool {
    forall|i: int| 0 <= i < s.len() ==> #[trigger] s[i] != '\n'
}

/// The line breaks of two texts in a row are those of both.
pub proof fn lemma_newlines_concat(a: Seq<char>, b: Seq<char>)
    ensures
        newlines(a + b) == newlines(a) + newlines(b),
    decreases b.len(),
{
    if b.len() == 0 {
        assert(a + b =~= a);
    } else {
        assert((a + b).drop_last() =~= a + b.drop_last());
        lemma_newlines_concat(a, b.drop_last());
    }
}

/// A text on one line has no line break.
pub proof fn lemma_one_line(s: Seq<char>)
    requires
        one_line(s),
    ensures
        newlines(s) == 0,
    decreases s.len(),
{
    if s.len() > 0 {
        lemma_one_line(s.drop_last());
    }
}

} // verus!
