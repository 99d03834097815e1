//! Tokens: runs of digits, runs of letters, and single other characters.
//! White space separates tokens and is dropped.
use vstd::prelude::*;

use crate::text::{Class, chars_of, class, classify, is_digit, is_digits, is_letter, is_letters};

verus! {

broadcast use crate::text::lemma_scalars;

/// A token of the input.
#[derive(Debug, Clone, PartialEq)]
pub enum Tok {
    /// A run of ASCII digits.
    Num(String),
    /// A run of ASCII letters.
    Alpha(String),
    /// Any other character that is not white space.
    Sep(char),
}

/// A token as a mathematical value.
pub enum Token {
    Num(Seq<char>),
    Alpha(Seq<char>),
    Sep(char),
}

impl View for Tok {
    type V = Token;

    open spec fn view(&self) -> Token {
        match *self {
            Tok::Num(n) => Token::Num(n@),
            Tok::Alpha(a) => Token::Alpha(a@),
            Tok::Sep(c) => Token::Sep(c),
        }
    }
}

impl Token {
    /// A number holds digits only, a word letters only, and neither is empty.
    pub open spec fn wf(self) -> bool {
        match self {
            Token::Num(n) => is_digits(n),
            Token::Alpha(a) => is_letters(a),
            Token::Sep(_) => true,
        }
    }

    /// The characters that the token was read from.
    pub open spec fn text(self) -> Seq<char> {
        match self {
            Token::Num(n) => n,
            Token::Alpha(a) => a,
            Token::Sep(c) => seq![c],
        }
    }
}

/// The tokens of an executable sequence.
pub open spec fn views(toks: Seq<Tok>) -> Seq<Token> {
    toks.map_values(|t: Tok| t@)
}

/// Every token is well formed.
pub open spec fn all_wf(t: Seq<Token>) -> bool {
    forall|i: int| 0 <= i < t.len() ==> (#[trigger] t[i]).wf()
}

/// A token that is added is added to the view.
proof fn lemma_views_push(toks: Seq<Tok>, t: Tok)
    ensures
        views(toks.push(t)) == views(toks).push(t@),
{
    assert(views(toks.push(t)) =~= views(toks).push(t@));
}

/// The token at `i`, if there is one.
pub open spec fn at(t: Seq<Token>, i: int) -> Option<Token> {
    if 0 <= i < t.len() {
        Some(t[i])
    } else {
        None
    }
}

/// The digits of the token at `i`, if it is a number.
pub open spec fn num_at(t: Seq<Token>, i: int) -> Option<Seq<char>> {
    match at(t, i) {
        Some(Token::Num(n)) => Some(n),
        _ => None,
    }
}

/// The letters of the token at `i`, if it is a word.
pub open spec fn alpha_at(t: Seq<Token>, i: int) -> Option<Seq<char>> {
    match at(t, i) {
        Some(Token::Alpha(a)) => Some(a),
        _ => None,
    }
}

/// Whether the token at `i` is the separator `c`.
pub open spec fn sep_at(t: Seq<Token>, i: int, c: char) -> bool {
    at(t, i) == Some(Token::Sep(c))
}

/// How many characters at the front of `s` are of class `k`, without a gap.
pub open spec fn run(s: Seq<char>, k: Class) -> nat
    decreases s.len(),
{
    if s.len() > 0 && class(s[0]) == k {
        1 + run(s.drop_first(), k)
    } else {
        0
    }
}

/// A run lies within the text, is of its class throughout, and is maximal.
pub proof fn lemma_run(s: Seq<char>, k: Class)
    ensures
        run(s, k) <= s.len(),
        forall|i: int| 0 <= i < run(s, k) ==> class(#[trigger] s[i]) == k,
        run(s, k) < s.len() ==> class(s[run(s, k) as int]) != k,
    decreases s.len(),
{
    if s.len() > 0 && class(s[0]) == k {
        let rest = s.drop_first();
        lemma_run(rest, k);
        assert forall|i: int| 0 <= i < run(s, k) implies class(#[trigger] s[i]) == k by {
            if i > 0 {
                assert(class(rest[i - 1]) == k);
            }
        }
    }
}

/// The tokens of a text.
pub open spec fn tokens(s: Seq<char>) -> Seq<Token>
    decreases s.len(),
{
    if s.len() == 0 {
        seq![]
    } else {
        proof {
            lemma_run(s, class(s[0]));
        }
        match class(s[0]) {
            Class::Digit => {
                let n = run(s, Class::Digit) as int;
                seq![Token::Num(s.take(n))] + tokens(s.skip(n))
            },
            Class::Letter => {
                let n = run(s, Class::Letter) as int;
                seq![Token::Alpha(s.take(n))] + tokens(s.skip(n))
            },
            Class::Space => tokens(s.skip(1)),
            Class::Other => seq![Token::Sep(s[0])] + tokens(s.skip(1)),
        }
    }
}

/// Tokens read from a text are well formed.
pub proof fn lemma_tokens_wf(s: Seq<char>)
    ensures
        all_wf(tokens(s)),
    decreases s.len(),
{
    if s.len() > 0 {
        let k = class(s[0]);
        lemma_run(s, k);
        let n: int = if k == Class::Digit || k == Class::Letter {
            run(s, k) as int
        } else {
            1
        };
        let tail = tokens(s.skip(n));
        lemma_tokens_wf(s.skip(n));
        if k == Class::Digit {
            assert forall|i: int| 0 <= i < n implies is_digit(#[trigger] s.take(n)[i]) by {
                assert(class(s[i]) == k);
            }
        }
        if k == Class::Letter {
            assert forall|i: int| 0 <= i < n implies is_letter(#[trigger] s.take(n)[i]) by {
                assert(class(s[i]) == k);
            }
        }
        if k == Class::Other {
            assert(tokens(s) == seq![Token::Sep(s[0])] + tail);
        } else if k == Class::Digit {
            assert(tokens(s) == seq![Token::Num(s.take(n))] + tail);
        } else if k == Class::Letter {
            assert(tokens(s) == seq![Token::Alpha(s.take(n))] + tail);
        }
    }
}

/// The end of the run of class `k` that starts at `from`, and its text.
fn take_run(chars: &Vec<char>, from: usize, k: Class) -> (r: (String, usize))
    requires
        from <= chars.len(),
    ensures
        r.1 == from + run(chars@.skip(from as int), k),
        r.1 <= chars.len(),
        r.0@ == chars@.subrange(from as int, r.1 as int),
{
    let mut text = String::new();
    let mut j: usize = from;
    while j < chars.len() && classify(chars[j]) == k
        invariant
            from <= j <= chars.len(),
            text@ == chars@.subrange(from as int, j as int),
            run(chars@.skip(from as int), k) == (j - from) + run(chars@.skip(j as int), k),
        decreases chars.len() - j,
    {
        assert(chars@.skip(j as int).drop_first() =~= chars@.skip(j + 1));
        text.push(chars[j]);
        assert(text@ =~= chars@.subrange(from as int, j + 1));
        j = j + 1;
    }
    (text, j)
}

/// Splits a text into its tokens.
pub fn tokenize(s: &str) -> (toks: Vec<Tok>)
    ensures
        views(toks@) == tokens(s@),
        all_wf(views(toks@)),
{
    let chars = chars_of(s);
    let mut toks: Vec<Tok> = Vec::new();
    let mut i: usize = 0;
    assert(chars@.skip(0) =~= chars@);
    assert(views(toks@) =~= Seq::<Token>::empty());
    assert(views(toks@) + tokens(chars@) =~= tokens(chars@));
    while i < chars.len()
        invariant
            i <= chars.len(),
            views(toks@) + tokens(chars@.skip(i as int)) == tokens(chars@),
        decreases chars.len() - i,
    {
        let ghost rest = chars@.skip(i as int);
        let ghost toks0 = toks@;
        let ghost before = views(toks0);
        let c = chars[i];
        match classify(c) {
            Class::Digit => {
                let (text, j) = take_run(&chars, i, Class::Digit);
                assert(text@ =~= rest.take(j - i));
                assert(rest.skip(j - i) =~= chars@.skip(j as int));
                toks.push(Tok::Num(text));
                i = j;
            },
            Class::Letter => {
                let (text, j) = take_run(&chars, i, Class::Letter);
                assert(text@ =~= rest.take(j - i));
                assert(rest.skip(j - i) =~= chars@.skip(j as int));
                toks.push(Tok::Alpha(text));
                i = j;
            },
            Class::Space => {
                assert(rest.skip(1) =~= chars@.skip(i + 1));
                i = i + 1;
            },
            Class::Other => {
                assert(rest.skip(1) =~= chars@.skip(i + 1));
                toks.push(Tok::Sep(c));
                i = i + 1;
            },
        }
        proof {
            if toks@.len() > toks0.len() {
                lemma_views_push(toks0, toks@.last());
            }
        }
        assert(views(toks@) + tokens(chars@.skip(i as int)) =~= before + tokens(rest));
    }
    proof {
        assert(chars@.skip(i as int) =~= Seq::<char>::empty());
        assert(views(toks@) + Seq::<Token>::empty() =~= views(toks@));
        lemma_tokens_wf(s@);
    }
    toks
}

/// The digits of a number.
pub fn as_num(t: &Tok) -> (r: Option<&str>)
    ensures
        match r {
            Some(n) => t@ == Token::Num(n@),
            None => !(t@ is Num),
        },
{
    match t {
        Tok::Num(n) => Some(n.as_str()),
        _ => None,
    }
}

/// The letters of a word.
pub fn as_alpha(t: &Tok) -> (r: Option<&str>)
    ensures
        match r {
            Some(a) => t@ == Token::Alpha(a@),
            None => !(t@ is Alpha),
        },
{
    match t {
        Tok::Alpha(a) => Some(a.as_str()),
        _ => None,
    }
}

/// Whether the token at `i` is the separator `c`.
pub fn is_sep(toks: &[Tok], i: usize, c: char) -> (r: bool)
    ensures
        r == sep_at(views(toks@), i as int, c),
        r ==> i < toks.len(),
{
    match toks.get(i) {
        Some(Tok::Sep(x)) => {
            assert(views(toks@)[i as int] == Token::Sep(*x));
            *x == c
        },
        _ => false,
    }
}

/// The digits of the token at `i`, if it is a number.
pub fn get_num(toks: &[Tok], i: usize) -> (r: Option<&str>)
    ensures
        match r {
            Some(n) => num_at(views(toks@), i as int) == Some(n@) && i < toks.len(),
            None => num_at(views(toks@), i as int) is None,
        },
{
    match toks.get(i) {
        Some(t) => as_num(t),
        None => None,
    }
}

/// The letters of the token at `i`, if it is a word.
pub fn get_alpha(toks: &[Tok], i: usize) -> (r: Option<&str>)
    ensures
        match r {
            Some(a) => alpha_at(views(toks@), i as int) == Some(a@) && i < toks.len(),
            None => alpha_at(views(toks@), i as int) is None,
        },
{
    match toks.get(i) {
        Some(t) => as_alpha(t),
        None => None,
    }
}

/// The token at a position is the one that stands there, and a number, a word or a
/// separator exactly if that one is.
pub proof fn law_lookups(t: Seq<Token>, i: int)
    ensures
        0 <= i < t.len() ==> at(t, i) == Some(t[i]),
        !(0 <= i < t.len()) ==> at(t, i) is None,
        forall|c: char| #[trigger] sep_at(t, i, c) <==> 0 <= i < t.len() && t[i] == Token::Sep(c),
        num_at(t, i) matches Some(n) ==> 0 <= i < t.len() && t[i] == Token::Num(n),
        num_at(t, i) is None ==> !(0 <= i < t.len() && t[i] is Num),
        alpha_at(t, i) matches Some(a) ==> 0 <= i < t.len() && t[i] == Token::Alpha(a),
        alpha_at(t, i) is None ==> !(0 <= i < t.len() && t[i] is Alpha),
{
}

/// The views of tokens are as many, in the same order, and hold the same characters.
pub proof fn law_views(toks: Seq<Tok>, i: int)
    requires
        0 <= i < toks.len(),
    ensures
        views(toks).len() == toks.len(),
        match toks[i] {
            Tok::Num(n) => views(toks)[i] == Token::Num(n@),
            Tok::Alpha(a) => views(toks)[i] == Token::Alpha(a@),
            Tok::Sep(c) => views(toks)[i] == Token::Sep(c),
        },
{
}

} // verus!
