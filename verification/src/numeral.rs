//! The lexical pieces of the pipeline's report: white space, and the words
//! that Rust's `f32` parser accepts.
//!
//! `f32::from_str` documents its accepted input as the strings that, once
//! lowercased, match
//!
//! ```text
//! Float  ::= Sign? ( 'inf' | 'infinity' | 'nan' | Number )
//! Number ::= ( Digit+ | Digit+ '.' Digit* | Digit* '.' Digit+ ) Exp?
//! Exp    ::= 'e' Sign? Digit+
//! Sign   ::= [+-]
//! Digit  ::= [0-9]
//! ```
//!
//! `float_literal` states that grammar and `is_float_literal` decides it.
use vstd::prelude::*;

verus! {

/// Unicode White_Space, the property behind `char::is_whitespace`.
pub open spec fn is_white_space(c: char) -> bool {
    let u = c as u32;
    ||| 0x9 <= u <= 0xd
    ||| u == 0x20
    ||| u == 0x85
    ||| u == 0xa0
    ||| u == 0x1680
    ||| 0x2000 <= u <= 0x200a
    ||| u == 0x2028
    ||| u == 0x2029
    ||| u == 0x202f
    ||| u == 0x205f
    ||| u == 0x3000
}

pub fn white_space(c: char) -> (b: bool)
    ensures
        b == is_white_space(c),
{
    let u = c as u32;
    (0x9 <= u && u <= 0xd) || u == 0x20 || u == 0x85 || u == 0xa0 || u == 0x1680 || (0x2000 <= u
        && u <= 0x200a) || u == 0x2028 || u == 0x2029 || u == 0x202f || u == 0x205f || u == 0x3000
}

pub open spec fn is_digit(c: char) -> bool {
    '0' <= c <= '9'
}

pub open spec fn is_sign(c: char) -> bool {
    c == '+' || c == '-'
}

/// ASCII lowercasing.
pub open spec fn lower(c: char) -> char {
    if 'A' <= c <= 'Z' {
        ((c as u32) + 32) as char
    } else {
        c
    }
}

/// The end of the run of digits that starts at `i`.
pub open spec fn digits_end(s: Seq<char>, i: int) -> int
    decreases s.len() - i,
{
    if 0 <= i < s.len() && is_digit(s[i]) {
        digits_end(s, i + 1)
    } else {
        i
    }
}

/// `s` from `i` on is empty or an exponent: `e` or `E`, an optional sign, one
/// or more digits.
pub open spec fn exponent_tail(s: Seq<char>, i: int) -> bool {
    ||| i == s.len()
    ||| {
        &&& i < s.len()
        &&& (s[i] == 'e' || s[i] == 'E')
        &&& {
            let j = if i + 1 < s.len() && is_sign(s[i + 1]) { i + 2 } else { i + 1 };
            j < s.len() && digits_end(s, j) == s.len()
        }
    }
}

/// `s` from `i` on is a `Number` of the grammar.
pub open spec fn number_tail(s: Seq<char>, i: int) -> bool {
    let m = digits_end(s, i);
    if m < s.len() && s[m] == '.' {
        let n = digits_end(s, m + 1);
        (m > i || n > m + 1) && exponent_tail(s, n)
    } else {
        m > i && exponent_tail(s, m)
    }
}

/// `s` from `i` on, lowercased, is `w`.
pub open spec fn lower_tail_is(s: Seq<char>, i: int, w: Seq<char>) -> bool {
    s.len() - i == w.len() && forall|k: int| 0 <= k < w.len() ==> lower(#[trigger] s[i + k]) == w[k]
}

/// `s` from `i` on is `inf`, `infinity` or `nan`, in any case.
pub open spec fn special_tail(s: Seq<char>, i: int) -> bool {
    ||| lower_tail_is(s, i, seq!['i', 'n', 'f'])
    ||| lower_tail_is(s, i, seq!['i', 'n', 'f', 'i', 'n', 'i', 't', 'y'])
    ||| lower_tail_is(s, i, seq!['n', 'a', 'n'])
}

/// `w` is a word that `f32::from_str` accepts.
pub open spec fn float_literal(w: Seq<char>) -> bool {
    let i = if w.len() > 0 && is_sign(w[0]) { 1int } else { 0int };
    number_tail(w, i) || special_tail(w, i)
}

/// `d` is a non-empty run of decimal digits.
pub open spec fn all_digits(d: Seq<char>) -> bool {
    forall|k: int| 0 <= k < d.len() ==> is_digit(#[trigger] d[k])
}

proof fn lemma_digits_end_over(s: Seq<char>, i: int, j: int)
    requires
        0 <= i <= j <= s.len(),
        forall|k: int| i <= k < j ==> is_digit(#[trigger] s[k]),
        j == s.len() || !is_digit(s[j]),
    ensures
        digits_end(s, i) == j,
    decreases j - i,
{
    if i < j {
        lemma_digits_end_over(s, i + 1, j);
    }
}

/// Every run of digits, of any length, with or without a sign, and with or
/// without a fractional part after a point, is a word that `f32::from_str`
/// accepts.
pub proof fn lemma_decimal_words_are_float_literals(d: Seq<char>, f: Seq<char>, sign: Seq<char>)
    requires
        d.len() > 0,
        all_digits(d),
        all_digits(f),
        sign.len() == 0 || sign =~= seq!['-'] || sign =~= seq!['+'],
    ensures
        float_literal(sign + d),
        float_literal(sign + d + seq!['.'] + f),
        f.len() > 0 ==> float_literal(sign + seq!['.'] + f),
{
    let i = sign.len() as int;
    let w1 = sign + d;
    assert(w1.len() > 0 && (is_sign(w1[0]) <==> i == 1));
    lemma_digits_end_over(w1, i, w1.len() as int);
    let w2 = sign + d + seq!['.'] + f;
    let m = i + d.len();
    assert(w2.len() > 0 && (is_sign(w2[0]) <==> i == 1));
    assert(w2[m] == '.');
    lemma_digits_end_over(w2, i, m);
    lemma_digits_end_over(w2, m + 1, w2.len() as int);
    if f.len() > 0 {
        let w3 = sign + seq!['.'] + f;
        assert(w3.len() > 0 && (is_sign(w3[0]) <==> i == 1));
        assert(w3[i] == '.');
        lemma_digits_end_over(w3, i, i);
        lemma_digits_end_over(w3, i + 1, w3.len() as int);
    }
}

fn lower_matches(c: char, t: char) -> (b: bool)
    ensures
        b == (lower(c) == t),
{
    if 'A' <= c && c <= 'Z' {
        (c as u32) + 32 == (t as u32)
    } else {
        c == t
    }
}

fn scan_digits(w: &Vec<char>, i: usize) -> (m: usize)
    requires
        i <= w.len(),
    ensures
        m == digits_end(w@, i as int),
        i <= m <= w.len(),
{
    let mut m = i;
    while m < w.len() && '0' <= w[m] && w[m] <= '9'
        invariant
            i <= m <= w.len(),
            digits_end(w@, i as int) == digits_end(w@, m as int),
        decreases w.len() - m,
    {
        m = m + 1;
    }
    m
}

fn is_exponent_tail(w: &Vec<char>, i: usize) -> (b: bool)
    requires
        i <= w.len(),
    ensures
        b == exponent_tail(w@, i as int),
{
    if i == w.len() {
        return true;
    }
    if w[i] != 'e' && w[i] != 'E' {
        return false;
    }
    let j = if i + 1 < w.len() && (w[i + 1] == '+' || w[i + 1] == '-') { i + 2 } else { i + 1 };
    j < w.len() && scan_digits(w, j) == w.len()
}

fn is_number_tail(w: &Vec<char>, i: usize) -> (b: bool)
    requires
        i <= w.len(),
    ensures
        b == number_tail(w@, i as int),
{
    let m = scan_digits(w, i);
    if m < w.len() && w[m] == '.' {
        let n = scan_digits(w, m + 1);
        (m > i || n > m + 1) && is_exponent_tail(w, n)
    } else {
        m > i && is_exponent_tail(w, m)
    }
}

fn is_lower_tail(w: &Vec<char>, i: usize, target: &Vec<char>) -> (b: bool)
    requires
        i <= w.len(),
    ensures
        b == lower_tail_is(w@, i as int, target@),
{
    if w.len() - i != target.len() {
        return false;
    }
    let mut k: usize = 0;
    while k < target.len()
        invariant
            w.len() - i == target.len(),
            k <= target.len(),
            forall|q: int| 0 <= q < k ==> lower(#[trigger] w@[i + q]) == target@[q],
        decreases target.len() - k,
    {
        if !lower_matches(w[i + k], target[k]) {
            return false;
        }
        k = k + 1;
    }
    true
}

fn is_special_tail(w: &Vec<char>, i: usize) -> (b: bool)
    requires
        i <= w.len(),
    ensures
        b == special_tail(w@, i as int),
{
    let inf: Vec<char> = vec!['i', 'n', 'f'];
    let infinity: Vec<char> = vec!['i', 'n', 'f', 'i', 'n', 'i', 't', 'y'];
    let nan: Vec<char> = vec!['n', 'a', 'n'];
    assert(inf@ =~= seq!['i', 'n', 'f']);
    assert(infinity@ =~= seq!['i', 'n', 'f', 'i', 'n', 'i', 't', 'y']);
    assert(nan@ =~= seq!['n', 'a', 'n']);
    is_lower_tail(w, i, &inf) || is_lower_tail(w, i, &infinity) || is_lower_tail(w, i, &nan)
}

/// Decides whether `w` is a word that `f32::from_str` accepts.
pub fn is_float_literal(w: &Vec<char>) -> (b: bool)
    ensures
        b == float_literal(w@),
{
    let i: usize = if w.len() > 0 && (w[0] == '+' || w[0] == '-') { 1 } else { 0 };
    is_number_tail(w, i) || is_special_tail(w, i)
}

} // verus!
