//! What holds of the tokenizer as a whole.
use vstd::prelude::*;

use crate::text::{Class, class, is_digits, is_letters};
use crate::token::{Token, lemma_run, lemma_tokens_wf, run, tokens};

verus! {

broadcast use crate::text::lemma_scalars;

/// No token can run across the border between `a` and `b`.
pub open spec fn apart(a: Seq<char>, b: Seq<char>) -> bool {
    ||| a.len() == 0
    ||| b.len() == 0
    ||| class(a.last()) != class(b[0])
    ||| class(b[0]) == Class::Space
    ||| class(b[0]) == Class::Other
}

/// A run is as long as its class goes on.
proof fn lemma_run_is(s: Seq<char>, k: Class, n: nat)
    requires
        n <= s.len(),
        forall|i: int| 0 <= i < n ==> class(#[trigger] s[i]) == k,
        n < s.len() ==> class(s[n as int]) != k,
    ensures
        run(s, k) == n,
{
    lemma_run(s, k);
    if run(s, k) < n {
        assert(class(s[run(s, k) as int]) == k);
    }
}

/// Where no token runs across the border, the tokens of two texts put together are
/// the tokens of the one followed by those of the other.
pub proof fn law_tokens_apart(a: Seq<char>, b: Seq<char>)
    requires
        apart(a, b),
    ensures
        tokens(a + b) == tokens(a) + tokens(b),
    decreases a.len(),
{
    let s = a + b;
    if a.len() == 0 {
        assert(s =~= b);
        assert(tokens(a) + tokens(b) =~= tokens(b));
    } else {
        let k = class(a[0]);
        assert(s[0] == a[0]);
        let n: nat = if k == Class::Digit || k == Class::Letter {
            run(a, k)
        } else {
            1
        };
        lemma_run(a, k);
        if k == Class::Digit || k == Class::Letter {
            assert forall|i: int| 0 <= i < n implies class(#[trigger] s[i]) == k by {
                assert(s[i] == a[i]);
            }
            if n < a.len() {
                assert(s[n as int] == a[n as int]);
            } else if b.len() > 0 {
                assert(class(a.last()) == k);
                assert(s[n as int] == b[0]);
            }
            lemma_run_is(s, k, n);
        }
        let rest = a.skip(n as int);
        assert(s.take(n as int) =~= a.take(n as int));
        assert(s.skip(n as int) =~= rest + b);
        assert(rest.len() > 0 ==> rest.last() == a.last());
        law_tokens_apart(rest, b);
        assert(tokens(s) =~= tokens(a) + tokens(b));
    }
}

/// Every character is white space.
pub open spec fn is_blank(w: Seq<char>) -> bool {
    forall|i: int| 0 <= i < w.len() ==> class(#[trigger] w[i]) == Class::Space
}

/// White space has no tokens.
pub proof fn lemma_tokens_blank(w: Seq<char>)
    requires
        is_blank(w),
    ensures
        tokens(w) == Seq::<Token>::empty(),
    decreases w.len(),
{
    if w.len() > 0 {
        assert(class(w[0]) == Class::Space);
        lemma_tokens_blank(w.skip(1));
    }
}

/// White space between two texts, however much, keeps their tokens apart and adds none.
pub proof fn law_white_space(a: Seq<char>, w: Seq<char>, b: Seq<char>)
    requires
        is_blank(w),
        w.len() > 0,
    ensures
        tokens(a + w + b) == tokens(a) + tokens(b),
{
    lemma_tokens_blank(w);
    assert(class(w[0]) == Class::Space);
    assert(class(w.last()) == Class::Space);
    law_tokens_apart(a, w);
    law_tokens_apart(a + w, b);
    assert(tokens(a) + Seq::<Token>::empty() =~= tokens(a));
}

/// A white space character has no tokens.
pub proof fn lemma_tokens_space(c: char)
    requires
        class(c) == Class::Space,
    ensures
        tokens(seq![c]) == Seq::<Token>::empty(),
{
    lemma_tokens_blank(seq![c]);
}

/// A run of digits is one token.
pub proof fn lemma_tokens_digits(n: Seq<char>)
    requires
        is_digits(n),
    ensures
        tokens(n) == seq![Token::Num(n)],
{
    reveal_with_fuel(tokens, 2);
    lemma_run_is(n, Class::Digit, n.len());
    assert(n.take(n.len() as int) =~= n);
    assert(n.skip(n.len() as int) =~= Seq::<char>::empty());
    assert(tokens(n) =~= seq![Token::Num(n)]);
}

/// A run of letters is one token.
pub proof fn lemma_tokens_letters(a: Seq<char>)
    requires
        is_letters(a),
    ensures
        tokens(a) == seq![Token::Alpha(a)],
{
    reveal_with_fuel(tokens, 2);
    lemma_run_is(a, Class::Letter, a.len());
    assert(a.take(a.len() as int) =~= a);
    assert(a.skip(a.len() as int) =~= Seq::<char>::empty());
    assert(tokens(a) =~= seq![Token::Alpha(a)]);
}

/// A character of no other class is a token by itself.
pub proof fn lemma_tokens_sep(c: char)
    requires
        class(c) == Class::Other,
    ensures
        tokens(seq![c]) == seq![Token::Sep(c)],
{
    reveal_with_fuel(tokens, 2);
    let s = seq![c];
    assert(s.skip(1) =~= Seq::<char>::empty());
    assert(tokens(s) =~= seq![Token::Sep(c)]);
}

/// What a token may hold: a number digits, a word letters, a separator a character that
/// is neither, nor white space.
pub proof fn law_tokens_are_classed(s: Seq<char>, i: int)
    requires
        0 <= i < tokens(s).len(),
    ensures
        match tokens(s)[i] {
            Token::Num(n) => is_digits(n),
            Token::Alpha(a) => is_letters(a),
            Token::Sep(c) => class(c) == Class::Other,
        },
    decreases s.len(),
{
    lemma_tokens_wf(s);
    assert(tokens(s)[i].wf());
    let k = class(s[0]);
    lemma_run(s, k);
    let n: int = if k == Class::Digit || k == Class::Letter {
        run(s, k) as int
    } else {
        1
    };
    if k == Class::Space {
        law_tokens_are_classed(s.skip(1), i);
    } else if i > 0 {
        assert(tokens(s)[i] == tokens(s.skip(n))[i - 1]);
        law_tokens_are_classed(s.skip(n), i - 1);
    }
}

/// In a text without white space the runs are maximal: no number stands next to a
/// number, and no word next to a word.
pub proof fn law_runs_are_maximal(s: Seq<char>, i: int)
    requires
        forall|j: int| 0 <= j < s.len() ==> class(#[trigger] s[j]) != Class::Space,
        0 <= i,
        i + 1 < tokens(s).len(),
    ensures
        !(tokens(s)[i] is Num && tokens(s)[i + 1] is Num),
        !(tokens(s)[i] is Alpha && tokens(s)[i + 1] is Alpha),
    decreases s.len(),
{
    let k = class(s[0]);
    lemma_run(s, k);
    let n: int = if k == Class::Digit || k == Class::Letter {
        run(s, k) as int
    } else {
        1
    };
    let rest = s.skip(n);
    assert forall|j: int| 0 <= j < rest.len() implies class(#[trigger] rest[j]) != Class::Space by {
        assert(rest[j] == s[j + n]);
    }
    assert(tokens(s)[i + 1] == tokens(rest)[i]);
    if i > 0 {
        assert(tokens(s)[i] == tokens(rest)[i - 1]);
        law_runs_are_maximal(rest, i - 1);
    } else {
        assert(class(rest[0]) != Class::Space);
        assert(rest[0] == s[n]);
    }
}

/// The characters of all tokens, in order.
pub open spec fn spelled(t: Seq<Token>) -> Seq<char>
    decreases t.len(),
{
    if t.len() == 0 {
        seq![]
    } else {
        t[0].text() + spelled(t.skip(1))
    }
}

/// A text without its white space.
pub open spec fn squeezed(s: Seq<char>) -> Seq<char>
    decreases s.len(),
{
    if s.len() == 0 {
        seq![]
    } else if class(s[0]) == Class::Space {
        squeezed(s.skip(1))
    } else {
        seq![s[0]] + squeezed(s.skip(1))
    }
}

/// A run without white space stays when white space is removed.
proof fn lemma_squeezed_run(s: Seq<char>, n: int)
    requires
        0 <= n <= s.len(),
        forall|i: int| 0 <= i < n ==> class(#[trigger] s[i]) != Class::Space,
    ensures
        squeezed(s) == s.take(n) + squeezed(s.skip(n)),
    decreases n,
{
    if n == 0 {
        assert(s.skip(0) =~= s);
        assert(squeezed(s) =~= s.take(0) + squeezed(s));
    } else {
        let r = s.skip(1);
        assert forall|i: int| 0 <= i < n - 1 implies class(#[trigger] r[i]) != Class::Space by {
            assert(r[i] == s[i + 1]);
        }
        lemma_squeezed_run(r, n - 1);
        assert(r.skip(n - 1) =~= s.skip(n));
        assert(seq![s[0]] + r.take(n - 1) =~= s.take(n));
        assert(squeezed(s) =~= s.take(n) + squeezed(s.skip(n)));
    }
}

/// Tokens lose nothing but white space, and add nothing.
pub proof fn law_tokens_spell_the_text(s: Seq<char>)
    ensures
        spelled(tokens(s)) == squeezed(s),
    decreases s.len(),
{
    if s.len() > 0 {
        let k = class(s[0]);
        lemma_run(s, k);
        if k == Class::Space {
            law_tokens_spell_the_text(s.skip(1));
        } else {
            let n: int = if k == Class::Digit || k == Class::Letter {
                run(s, k) as int
            } else {
                1
            };
            law_tokens_spell_the_text(s.skip(n));
            assert forall|i: int| 0 <= i < n implies class(#[trigger] s[i]) != Class::Space by {
                assert(class(s[i]) == k);
            }
            lemma_squeezed_run(s, n);
            assert(s.take(1) =~= seq![s[0]]);
            let t = tokens(s);
            assert(t.skip(1) =~= tokens(s.skip(n)));
            assert(t[0].text() == s.take(n));
        }
    }
}

} // verus!
