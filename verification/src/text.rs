//! Characters and character sequences: classes, ASCII case, digits.
use vstd::prelude::*;

verus! {

/// What a character is to the tokenizer.
#[derive(Clone, Copy, PartialEq, Eq, Structural)]
pub enum Class {
    Digit,
    Letter,
    Space,
    Other,
}

/// An ASCII decimal digit.
pub open spec fn is_digit(c: char) -> bool {
    '0' <= c <= '9'
}

/// An ASCII letter.
pub open spec fn is_letter(c: char) -> bool {
    'a' <= c <= 'z' || 'A' <= c <= 'Z'
}

/// A character with the Unicode property `White_Space`.
pub open spec fn is_space(c: char) -> bool {
    ||| '\u{9}' <= c <= '\u{d}'
    ||| c == ' '
    ||| c == '\u{85}'
    ||| c == '\u{a0}'
    ||| c == '\u{1680}'
    ||| '\u{2000}' <= c <= '\u{200a}'
    ||| c == '\u{2028}'
    ||| c == '\u{2029}'
    ||| c == '\u{202f}'
    ||| c == '\u{205f}'
    ||| c == '\u{3000}'
}

/// The class of a character. No character is in two of the first three classes.
pub open spec fn class(c: char) -> Class {
    if is_digit(c) {
        Class::Digit
    } else if is_letter(c) {
        Class::Letter
    } else if is_space(c) {
        Class::Space
    } else {
        Class::Other
    }
}

/// The lower-case form of an ASCII letter; any other character is kept.
pub open spec fn lower(c: char) -> char {
    if 'A' <= c <= 'Z' {
        (c as u8 + 32) as char
    } else {
        c
    }
}

/// The upper-case form of an ASCII letter; any other character is kept.
pub open spec fn upper(c: char) -> char {
    if 'a' <= c <= 'z' {
        (c as u8 - 32) as char
    } else {
        c
    }
}

/// A character is a Unicode scalar value.
pub proof fn lemma_scalar(c: char)
    ensures
        0 <= c as int <= 0xd7ff || 0xe000 <= c as int <= 0x10ffff,
{
}

/// The characters of a sequence are Unicode scalar values.
pub broadcast proof fn lemma_scalars(s: Seq<char>, i: int)
    ensures
        0 <= #[trigger] s[i] as int <= 0xd7ff || 0xe000 <= s[i] as int <= 0x10ffff,
{
    lemma_scalar(s[i]);
}

/// The value of a digit.
pub open spec fn digit(c: char) -> int {
    c as int - '0' as int
}

/// The number that a run of digits writes in base ten.
pub open spec fn value(s: Seq<char>) -> int
    decreases s.len(),
{
    if s.len() == 0 {
        0
    } else {
        value(s.drop_last()) * 10 + digit(s.last())
    }
}

/// At least one character, all of them digits.
pub open spec fn is_digits(s: Seq<char>) -> bool {
    &&& s.len() > 0
    &&& forall|i: int| 0 <= i < s.len() ==> is_digit(#[trigger] s[i])
}

/// At least one character, all of them letters.
pub open spec fn is_letters(s: Seq<char>) -> bool {
    &&& s.len() > 0
    &&& forall|i: int| 0 <= i < s.len() ==> is_letter(#[trigger] s[i])
}

/// `s` with every ASCII letter in lower case.
pub open spec fn lowered(s: Seq<char>) -> Seq<char> {
    s.map_values(|c: char| lower(c))
}

/// `s` with every ASCII letter in upper case.
pub open spec fn uppered(s: Seq<char>) -> Seq<char> {
    s.map_values(|c: char| upper(c))
}

/// A natural number in base ten, without leading zeros.
pub open spec fn decimal(v: nat) -> Seq<char>
    decreases v,
{
    if v < 10 {
        seq![(v + '0' as int) as char]
    } else {
        decimal(v / 10).push((v % 10 + '0' as int) as char)
    }
}

/// An outcome with its error message as a character sequence.
pub open spec fn outcome<T>(r: Result<T, String>) -> Result<T, Seq<char>> {
    match r {
        Ok(v) => Ok(v),
        Err(e) => Err(e@),
    }
}

/// The class of `c`.
pub fn classify(c: char) -> (r: Class)
    ensures
        r == class(c),
{
    if '0' <= c && c <= '9' {
        Class::Digit
    } else if ('a' <= c && c <= 'z') || ('A' <= c && c <= 'Z') {
        Class::Letter
    } else if is_whitespace(c) {
        Class::Space
    } else {
        Class::Other
    }
}

/// Whether `c` has the property `White_Space`.
pub fn is_whitespace(c: char) -> (r: bool)
    ensures
        r == is_space(c),
{
    ('\u{9}' <= c && c <= '\u{d}') || c == ' ' || c == '\u{85}' || c == '\u{a0}' || c == '\u{1680}'
        || ('\u{2000}' <= c && c <= '\u{200a}') || c == '\u{2028}' || c == '\u{2029}' || c
        == '\u{202f}' || c == '\u{205f}' || c == '\u{3000}'
}

/// Appends one character: `String::push` puts it at the end.
pub assume_specification[ String::push ](s: &mut String, c: char)
    ensures
        final(s)@ == old(s)@.push(c),
;

/// The characters of `s`.
pub fn chars_of(s: &str) -> (r: Vec<char>)
    ensures
        r@ == s@,
{
    let mut r: Vec<char> = Vec::new();
    for c in it: s.chars()
        invariant
            it.seq() == s@,
            r@ == s@.take(it.index() as int),
    {
        r.push(c);
        assert(r@ =~= s@.take(it.index() + 1));
    }
    assert(s@.take(s@.len() as int) =~= s@);
    r
}

/// A run of digits is ASCII, and so is a run of letters.
pub proof fn lemma_runs_are_ascii(s: Seq<char>)
    ensures
        is_digits(s) || is_letters(s) ==> vstd::utf8::is_ascii_chars(s),
{
}

/// The length of an ASCII string in characters, which is its length in bytes.
pub fn ascii_len(s: &str) -> (r: usize)
    requires
        s.is_ascii(),
    ensures
        r == s@.len(),
{
    proof {
        vstd::utf8::is_ascii_chars_encode_utf8(s@);
    }
    s.as_bytes().len()
}

/// A prefix of a run of digits writes no larger number than the run.
pub proof fn lemma_value_prefix(s: Seq<char>, n: int)
    requires
        forall|i: int| 0 <= i < s.len() ==> is_digit(#[trigger] s[i]),
        0 <= n <= s.len(),
    ensures
        0 <= value(s.take(n)) <= value(s),
    decreases s.len(),
{
    if s.len() == 0 {
        assert(s.take(n) =~= s);
    } else if n == s.len() {
        lemma_value_prefix(s.drop_last(), s.len() - 1);
        assert(s.drop_last().take(s.len() - 1) =~= s.drop_last());
        assert(s.take(n) =~= s);
    } else {
        lemma_value_prefix(s.drop_last(), n);
        assert(s.drop_last().take(n) =~= s.take(n));
    }
}

/// Ten to the power `n`.
pub open spec fn tens(n: nat) -> int
    decreases n,
{
    if n == 0 {
        1
    } else {
        tens((n - 1) as nat) * 10
    }
}

/// The powers of ten that a date needs.
pub proof fn lemma_tens()
    ensures
        tens(0) == 1,
        tens(1) == 10,
        tens(2) == 100,
        tens(3) == 1000,
        tens(4) == 10_000,
        tens(5) == 100_000,
        tens(6) == 1_000_000,
{
    reveal_with_fuel(tens, 7);
}

/// Powers of ten that make up a million.
pub proof fn lemma_million(n: nat)
    requires
        n <= 6,
    ensures
        tens(n) * tens((6 - n) as nat) == 1_000_000,
        tens(n) > 0,
{
    lemma_tens();
    if n == 0 || n == 6 {
        assert(1int * 1_000_000 == 1_000_000);
    } else if n == 1 || n == 5 {
        assert(10int * 100_000 == 1_000_000);
    } else if n == 2 || n == 4 {
        assert(100int * 10_000 == 1_000_000);
    } else {
        assert(1000int * 1000 == 1_000_000);
    }
}

/// A run of `n` digits writes a number below ten to the power `n`.
pub proof fn lemma_value_tens(s: Seq<char>)
    requires
        forall|i: int| 0 <= i < s.len() ==> is_digit(#[trigger] s[i]),
    ensures
        0 <= value(s) < tens(s.len()),
    decreases s.len(),
{
    if s.len() > 0 {
        lemma_value_tens(s.drop_last());
    }
}

/// The bounds on short runs of digits, as plain numbers.
pub proof fn lemma_value_bound(s: Seq<char>)
    requires
        is_digits(s),
    ensures
        0 <= value(s),
        s.len() <= 1 ==> value(s) < 10,
        s.len() <= 2 ==> value(s) < 100,
        s.len() <= 4 ==> value(s) < 10_000,
        s.len() <= 6 ==> value(s) < 1_000_000,
{
    lemma_tens();
    lemma_value_tens(s);
}

/// The number that a run of digits writes, unless it exceeds `max`.
pub fn read_digits(s: &str, max: i64) -> (r: Option<i64>)
    requires
        is_digits(s@),
        max >= 9,
    ensures
        r == (if value(s@) <= max {
            Some(value(s@) as i64)
        } else {
            None
        }),
{
    proof {
        vstd::utf8::is_ascii_chars_encode_utf8(s@);
    }
    let bytes = s.as_bytes();
    let mut v: i64 = 0;
    let mut i: usize = 0;
    assert(s@.take(0).len() == 0);
    while i < bytes.len()
        invariant
            is_digits(s@),
            max >= 9,
            bytes@.len() == s@.len(),
            forall|k: int| 0 <= k < s@.len() ==> s@[k] as u8 == #[trigger] bytes@[k],
            i <= s@.len(),
            v == value(s@.take(i as int)),
            0 <= v <= max,
        decreases bytes.len() - i,
    {
        assert(is_digit(s@[i as int]));
        let d: i64 = (bytes[i] - 48) as i64;
        assert(s@.take(i + 1).drop_last() =~= s@.take(i as int));
        assert(value(s@.take(i + 1)) == v * 10 + d);
        if v > (max - d) / 10 {
            proof {
                lemma_value_prefix(s@, i + 1);
            }
            return None;
        }
        v = v * 10 + d;
        i = i + 1;
    }
    assert(s@.take(i as int) =~= s@);
    Some(v)
}

/// `v` written in base ten.
pub fn decimal_text(v: u64) -> (r: String)
    ensures
        r@ == decimal(v as nat),
    decreases v,
{
    let mut r: String = if v < 10 {
        String::new()
    } else {
        decimal_text(v / 10)
    };
    r.push((48 + (v % 10) as u8) as char);
    assert(v < 10 ==> r@ =~= decimal(v as nat));
    r
}

/// Whether two strings hold the same characters.
pub fn same_text(a: &str, b: &str) -> (r: bool)
    ensures
        r == (a@ == b@),
{
    proof {
        // a text is determined by its encoding
        vstd::utf8::encode_utf8_decode_utf8(a@);
        vstd::utf8::encode_utf8_decode_utf8(b@);
    }
    let x = a.as_bytes();
    let y = b.as_bytes();
    if x.len() != y.len() {
        return false;
    }
    let mut i: usize = 0;
    while i < x.len()
        invariant
            x@ == vstd::utf8::encode_utf8(a@),
            y@ == vstd::utf8::encode_utf8(b@),
            x@.len() == y@.len(),
            i <= x@.len(),
            forall|k: int| 0 <= k < i ==> x@[k] == y@[k],
        decreases x.len() - i,
    {
        if x[i] != y[i] {
            return false;
        }
        i = i + 1;
    }
    assert(x@ =~= y@);
    true
}

/// `a` followed by `b`.
pub fn joined(a: &str, b: &str) -> (r: String)
    ensures
        r@ == a@ + b@,
{
    let mut r = a.to_string();
    r.append(b);
    r
}

/// `s` with every ASCII letter in upper case.
pub fn to_uppercase(s: &str) -> (r: String)
    ensures
        r@ == uppered(s@),
{
    let mut r = String::new();
    for c in it: s.chars()
        invariant
            it.seq() == s@,
            r@ == uppered(s@.take(it.index() as int)),
    {
        let u = if 'a' <= c && c <= 'z' {
            (c as u8 - 32) as char
        } else {
            c
        };
        r.push(u);
        assert(r@ =~= uppered(s@.take(it.index() + 1)));
    }
    assert(s@.take(s@.len() as int) =~= s@);
    r
}

/// `s` with every ASCII letter in lower case.
pub fn to_lowercase(s: &str) -> (r: String)
    ensures
        r@ == lowered(s@),
{
    let mut r = String::new();
    for c in it: s.chars()
        invariant
            it.seq() == s@,
            r@ == lowered(s@.take(it.index() as int)),
    {
        let l = if 'A' <= c && c <= 'Z' {
            (c as u8 + 32) as char
        } else {
            c
        };
        r.push(l);
        assert(r@ =~= lowered(s@.take(it.index() + 1)));
    }
    assert(s@.take(s@.len() as int) =~= s@);
    r
}

/// The first `n` bytes of `s` end between two characters, or there are fewer.
pub open spec fn can_cut(s: Seq<char>, n: int) -> bool {
    let bytes = vstd::utf8::encode_utf8(s);
    bytes.len() < n || vstd::utf8::is_char_boundary(bytes, n)
}

/// The characters in the first `n` bytes of `s`, or in all of them.
pub open spec fn head_of(s: Seq<char>, n: int) -> Seq<char> {
    let bytes = vstd::utf8::encode_utf8(s);
    if bytes.len() < n {
        s
    } else {
        vstd::utf8::decode_utf8(bytes.subrange(0, n))
    }
}

/// No character takes less than a byte.
pub proof fn lemma_encoding_len(s: Seq<char>)
    ensures
        s.len() <= vstd::utf8::encode_utf8(s).len(),
    decreases s.len(),
{
    if s.len() > 0 {
        lemma_encoding_len(s.drop_first());
    }
}

/// The head of a text is a prefix of it; one of `n` characters is the first `n`,
/// and a shorter one that is not the whole text holds a character beyond ASCII.
pub proof fn lemma_head(s: Seq<char>, n: int)
    requires
        n >= 0,
        can_cut(s, n),
    ensures
        head_of(s, n).len() <= n,
        head_of(s, n) == s.take(head_of(s, n).len() as int),
        head_of(s, n).len() <= s.len(),
        head_of(s, n).len() < n ==> head_of(s, n) == s || !vstd::utf8::is_ascii_chars(head_of(s, n)),
        head_of(s, n) != s ==> vstd::utf8::encode_utf8(head_of(s, n)).len() == n,
{
    let bytes = vstd::utf8::encode_utf8(s);
    let h = head_of(s, n);
    lemma_encoding_len(s);
    if bytes.len() >= n {
        vstd::utf8::encode_utf8_valid_utf8(s);
        vstd::utf8::encode_utf8_decode_utf8(s);
        vstd::utf8::valid_utf8_split(bytes, n);
        vstd::utf8::decode_utf8_split(bytes, n);
        vstd::utf8::decode_utf8_encode_utf8(bytes.subrange(0, n));
        lemma_encoding_len(h);
        assert(h =~= s.take(h.len() as int));
        if vstd::utf8::is_ascii_chars(h) {
            vstd::utf8::is_ascii_chars_encode_utf8(h);
        }
    } else {
        assert(h =~= s.take(h.len() as int));
    }
}

/// An ASCII text can be cut anywhere, and a byte of it is a character.
pub proof fn lemma_ascii_head(s: Seq<char>, n: int)
    requires
        n >= 0,
        vstd::utf8::is_ascii_chars(s),
    ensures
        can_cut(s, n),
        head_of(s, n) == (if s.len() < n {
            s
        } else {
            s.take(n)
        }),
{
    let bytes = vstd::utf8::encode_utf8(s);
    vstd::utf8::is_ascii_chars_encode_utf8(s);
    vstd::utf8::encode_utf8_valid_utf8(s);
    if n == bytes.len() {
        vstd::utf8::is_char_boundary_start_end_of_seq(bytes);
    } else if n < bytes.len() {
        assert(s[n] as u8 == bytes[n]);
        vstd::utf8::is_char_boundary_iff_not_is_continuation_byte(bytes, n);
    }
    lemma_head(s, n);
    if s.len() >= n {
        assert(s.take(s.len() as int) =~= s);
    }
}

/// The first `n` bytes of `s`, or all of it.
pub fn head(s: &str, n: usize) -> (r: &str)
    requires
        can_cut(s@, n as int),
    ensures
        r@ == head_of(s@, n as int),
{
    if s.as_bytes().len() < n {
        s
    } else {
        let r = s.split_at(n).0;
        proof {
            vstd::utf8::encode_utf8_decode_utf8(r@);
        }
        r
    }
}

/// Which characters are of which class, by their code points. White space is what
/// Unicode lists under the property `White_Space`.
pub proof fn law_classes(c: char)
    ensures
        class(c) == Class::Digit <==> 48 <= c as int <= 57,
        class(c) == Class::Letter <==> 65 <= c as int <= 90 || 97 <= c as int <= 122,
        class(c) == Class::Space <==> {
            ||| 9 <= c as int <= 13
            ||| c as int == 32
            ||| c as int == 133
            ||| c as int == 160
            ||| c as int == 5760
            ||| 8192 <= c as int <= 8202
            ||| c as int == 8232
            ||| c as int == 8233
            ||| c as int == 8239
            ||| c as int == 8287
            ||| c as int == 12288
        },
        is_digit(c) <==> class(c) == Class::Digit,
        is_letter(c) <==> class(c) == Class::Letter,
        is_space(c) <==> class(c) == Class::Space,
{
}

/// The two cases of a letter lie 32 code points apart; nothing else has a case.
pub proof fn law_letter_cases(c: char)
    ensures
        65 <= c as int <= 90 ==> lower(c) as int == c as int + 32 && upper(c) == c,
        97 <= c as int <= 122 ==> upper(c) as int == c as int - 32 && lower(c) == c,
        !(65 <= c as int <= 90) && !(97 <= c as int <= 122) ==> lower(c) == c && upper(c) == c,
{
}

/// A text keeps its length when its case is changed, and changes character by character.
pub proof fn law_cases_of_a_text(s: Seq<char>, i: int)
    requires
        0 <= i < s.len(),
    ensures
        lowered(s).len() == s.len(),
        uppered(s).len() == s.len(),
        lowered(s)[i] == lower(s[i]),
        uppered(s)[i] == upper(s[i]),
{
}

/// A digit behind a number makes ten times the number and the digit; no digits are 0.
pub proof fn law_digits_in_base_ten(s: Seq<char>, c: char)
    ensures
        value(Seq::empty()) == 0,
        value(s.push(c)) == 10 * value(s) + (c as int - 48),
{
    assert(s.push(c).drop_last() =~= s);
}

/// Leading zeros do not change a number.
pub proof fn law_leading_zero(s: Seq<char>)
    ensures
        value(seq!['0'] + s) == value(s),
    decreases s.len(),
{
    reveal_with_fuel(value, 2);
    let z = seq!['0'] + s;
    if s.len() == 0 {
        assert(z.drop_last() =~= Seq::empty());
    } else {
        law_leading_zero(s.drop_last());
        assert(z.drop_last() =~= seq!['0'] + s.drop_last());
    }
}

/// What is written for a number is read back as that number, and has no leading zero.
pub proof fn law_decimal_reads_back(v: nat)
    ensures
        is_digits(decimal(v)),
        value(decimal(v)) == v,
        v > 0 ==> decimal(v)[0] != '0',
    decreases v,
{
    reveal_with_fuel(value, 2);
    if v < 10 {
        assert(decimal(v).drop_last() =~= Seq::empty());
    } else {
        law_decimal_reads_back(v / 10);
        let d = decimal(v);
        assert(d.drop_last() =~= decimal(v / 10));
        assert(d[0] == decimal(v / 10)[0]);
        assert forall|i: int| 0 <= i < d.len() implies is_digit(#[trigger] d[i]) by {
            if i < d.len() - 1 {
                assert(d[i] == decimal(v / 10)[i]);
            }
        }
    }
}

} // verus!
