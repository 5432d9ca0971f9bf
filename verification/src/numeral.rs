//! Numerals: the numbers of a mesh, kept as they are written.
//!
//! The library reads, carries and writes numbers but never calculates with
//! them, so it keeps each one as its text. What counts as a number is the
//! grammar below; it is the one that `str::parse` accepts for a floating point
//! number, letter case aside:
//!
//! ```text
//! Numeral  ::= Sign? ( 'inf' | 'infinity' | 'nan' | Number )
//! Number   ::= Mantissa Exponent?
//! Mantissa ::= Digit+ | Digit+ '.' Digit* | Digit* '.' Digit+
//! Exponent ::= 'e' Sign? Digit+
//! ```

use vstd::prelude::*;
use crate::text::{all_digits, chars_of, is_digit};

verus! {

/// `c` is a plus or a minus sign.
pub open spec fn is_sign(c: char) -> bool {
    c == '+' || c == '-'
}

/// `c` is the lower case letter `letter` or its capital.
pub open spec fn is_letter(c: char, letter: char) -> bool {
    c == letter || c as u32 + 32 == letter as u32
}

/// `s` spells `word`, a word in lower case letters, in whatever case.
pub open spec fn spells(s: Seq<char>, word: Seq<char>) -> bool {
    &&& s.len() == word.len()
    &&& forall|i: int| 0 <= i < s.len() ==> is_letter(#[trigger] s[i], word[i])
}

/// `s` names infinity or what is not a number.
pub open spec fn is_special(s: Seq<char>) -> bool {
    ||| spells(s, seq!['i', 'n', 'f'])
    ||| spells(s, seq!['i', 'n', 'f', 'i', 'n', 'i', 't', 'y'])
    ||| spells(s, seq!['n', 'a', 'n'])
}

/// Digits with at most one point among them, and at least one digit.
pub open spec fn is_mantissa(s: Seq<char>) -> bool {
    ||| s.len() > 0 && all_digits(s)
    ||| exists|i: int|
        0 <= i < s.len() && #[trigger] s[i] == '.' && all_digits(s.take(i)) && all_digits(
            s.skip(i + 1),
        ) && s.len() > 1
}

/// The letter `e`, an optional sign, and at least one digit.
pub open spec fn is_exponent(s: Seq<char>) -> bool {
    &&& s.len() >= 2
    &&& is_letter(s[0], 'e')
    &&& {
        let digits = if is_sign(s[1]) {
            s.skip(2)
        } else {
            s.skip(1)
        };
        digits.len() > 0 && all_digits(digits)
    }
}

/// A mantissa, with or without an exponent after it.
pub open spec fn is_number(s: Seq<char>) -> bool {
    ||| is_mantissa(s)
    ||| exists|j: int|
        0 < j < s.len() && is_mantissa(#[trigger] s.take(j)) && is_exponent(s.skip(j))
}

/// What follows the sign of a numeral, or all of it where it has none.
pub open spec fn unsigned_part(s: Seq<char>) -> Seq<char> {
    if s.len() > 0 && is_sign(s[0]) {
        s.skip(1)
    } else {
        s
    }
}

/// `s` is a numeral.
pub open spec fn is_numeral(s: Seq<char>) -> bool {
    is_number(unsigned_part(s)) || is_special(unsigned_part(s))
}

/// A number as it is written: text that is a numeral.
#[derive(Debug)]
pub struct Numeral {
    text: String,
}

impl View for Numeral {
    type V = Seq<char>;

    closed spec fn view(&self) -> Seq<char> {
        self.text@
    }
}

impl Clone for Numeral {
    fn clone(&self) -> (copy: Self)
        ensures
            copy@ == self@,
    {
        proof {
            use_type_invariant(self);
        }
        Numeral { text: self.text.clone() }
    }
}

impl Numeral {
    #[verifier::type_invariant]
    spec fn well_formed(self) -> bool {
        is_numeral(self.text@)
    }

    /// Takes `token` as a numeral, if it is one.
    pub fn parse(token: &str) -> (r: Option<Numeral>)
        ensures
            r is Some <==> is_numeral(token@),
            r matches Some(n) ==> n@ == token@,
    {
        let chars = chars_of(token);
        if is_numeral_text(&chars) {
            Some(Numeral { text: token.to_owned() })
        } else {
            None
        }
    }

    /// The numeral zero.
    pub fn zero() -> (n: Numeral)
        ensures
            n@ == seq!['0'],
    {
        let text = "0".to_owned();
        proof {
            reveal_strlit("0");
            assert(text@ == seq!['0']);
            assert(is_mantissa(text@));
        }
        Numeral { text }
    }

    /// The text of the numeral.
    pub fn as_str(&self) -> (s: &str)
        ensures
            s@ == self@,
            is_numeral(s@),
    {
        proof {
            use_type_invariant(self);
        }
        self.text.as_str()
    }
}

/// Where the run of digits that starts at `from` ends.
spec fn run_end(s: Seq<char>, from: int) -> int
    decreases s.len() - from,
{
    if 0 <= from < s.len() && is_digit(s[from]) {
        run_end(s, from + 1)
    } else {
        from
    }
}

/// Whether a point follows the digits that `s` begins with.
spec fn has_point(s: Seq<char>) -> bool {
    run_end(s, 0) < s.len() && s[run_end(s, 0)] == '.'
}

/// Where the mantissa that `s` begins with ends, read from left to right:
/// after the digits, the point and the digits that follow the point.
spec fn mantissa_end(s: Seq<char>) -> int {
    if has_point(s) {
        run_end(s, run_end(s, 0) + 1)
    } else {
        run_end(s, 0)
    }
}

/// How many digits the mantissa that `s` begins with has.
spec fn mantissa_digits(s: Seq<char>) -> int {
    if has_point(s) {
        mantissa_end(s) - 1
    } else {
        mantissa_end(s)
    }
}

/// A number, read from left to right: a mantissa with at least one digit,
/// and then nothing more or an exponent.
spec fn scans_as_number(s: Seq<char>) -> bool {
    mantissa_digits(s) > 0 && (mantissa_end(s) == s.len() || is_exponent(s.skip(mantissa_end(s))))
}

proof fn lemma_run_end(s: Seq<char>, from: int)
    requires
        0 <= from <= s.len(),
    ensures
        from <= run_end(s, from) <= s.len(),
        forall|i: int| from <= i < run_end(s, from) ==> is_digit(#[trigger] s[i]),
        run_end(s, from) < s.len() ==> !is_digit(s[run_end(s, from)]),
    decreases s.len() - from,
{
    if from < s.len() && is_digit(s[from]) {
        lemma_run_end(s, from + 1);
    }
}

proof fn lemma_run_end_is(s: Seq<char>, from: int, to: int)
    requires
        0 <= from <= to <= s.len(),
        forall|i: int| from <= i < to ==> is_digit(#[trigger] s[i]),
        to < s.len() ==> !is_digit(s[to]),
    ensures
        run_end(s, from) == to,
    decreases to - from,
{
    if from < to {
        lemma_run_end_is(s, from + 1, to);
    }
}

/// Reading from left to right finds a number exactly where there is one.
proof fn lemma_scan_finds_numbers(s: Seq<char>)
    ensures
        scans_as_number(s) == is_number(s),
{
    if scans_as_number(s) {
        // What the scan took for the mantissa is one.
        let whole = run_end(s, 0);
        let mantissa = s.take(mantissa_end(s));
        lemma_run_end(s, 0);
        if has_point(s) {
            lemma_run_end(s, whole + 1);
            assert(mantissa[whole] == '.');
        }
        assert(is_mantissa(mantissa));
        if mantissa_end(s) == s.len() {
            assert(mantissa == s);
        }
    }
    if is_number(s) {
        // The scan stops where the mantissa of a number ends.
        if is_mantissa(s) {
            assert(s.take(s.len() as int) == s);
            lemma_mantissa_scan(s, s.len() as int);
        } else {
            let j = choose|j: int|
                0 < j < s.len() && is_mantissa(#[trigger] s.take(j)) && is_exponent(s.skip(j));
            assert(s.skip(j)[0] == s[j]);
            lemma_mantissa_scan(s, j);
        }
    }
}

/// Where the first `to` characters are a mantissa and no digit or point
/// follows them, reading from left to right stops at `to`.
proof fn lemma_mantissa_scan(s: Seq<char>, to: int)
    requires
        0 <= to <= s.len(),
        is_mantissa(s.take(to)),
        to < s.len() ==> !is_digit(s[to]) && s[to] != '.',
    ensures
        mantissa_end(s) == to,
        mantissa_digits(s) > 0,
{
    let m = s.take(to);
    if m.len() > 0 && all_digits(m) {
        assert forall|i: int| 0 <= i < to implies is_digit(#[trigger] s[i]) by {
            assert(m[i] == s[i]);
        }
        lemma_run_end_is(s, 0, to);
    } else {
        let p = choose|i: int|
            0 <= i < m.len() && #[trigger] m[i] == '.' && all_digits(m.take(i)) && all_digits(
                m.skip(i + 1),
            ) && m.len() > 1;
        assert(s[p] == m[p]);
        assert forall|i: int| 0 <= i < p implies is_digit(#[trigger] s[i]) by {
            assert(m.take(p)[i] == s[i]);
        }
        lemma_run_end_is(s, 0, p);
        assert forall|i: int| p + 1 <= i < to implies is_digit(#[trigger] s[i]) by {
            assert(m.skip(p + 1)[i - p - 1] == s[i]);
        }
        lemma_run_end_is(s, p + 1, to);
    }
}

fn scan_digits(chars: &Vec<char>, from: usize) -> (to: usize)
    requires
        from <= chars.len(),
    ensures
        to == run_end(chars@, from as int),
        from <= to <= chars.len(),
{
    let mut to = from;
    while to < chars.len() && chars[to] >= '0' && chars[to] <= '9'
        invariant
            from <= to <= chars.len(),
            run_end(chars@, from as int) == run_end(chars@, to as int),
        decreases chars.len() - to,
    {
        to += 1;
    }
    to
}

fn letter_matches(c: char, letter: char) -> (r: bool)
    ensures
        r == is_letter(c, letter),
{
    c == letter || c as u32 + 32 == letter as u32
}

fn is_special_from(chars: &Vec<char>, start: usize) -> (r: bool)
    requires
        start <= chars.len(),
    ensures
        r == is_special(chars@.skip(start as int)),
{
    let ghost s = chars@.skip(start as int);
    let n = chars.len() - start;
    if n == 3 {
        assert(s[0] == chars@[start as int] && s[1] == chars@[start + 1] && s[2] == chars@[start
            + 2]);
        let inf = letter_matches(chars[start], 'i') && letter_matches(chars[start + 1], 'n')
            && letter_matches(chars[start + 2], 'f');
        let nan = letter_matches(chars[start], 'n') && letter_matches(chars[start + 1], 'a')
            && letter_matches(chars[start + 2], 'n');
        inf || nan
    } else if n == 8 {
        assert(s[0] == chars@[start as int] && s[1] == chars@[start + 1] && s[2] == chars@[start
            + 2] && s[3] == chars@[start + 3] && s[4] == chars@[start + 4] && s[5] == chars@[start
            + 5] && s[6] == chars@[start + 6] && s[7] == chars@[start + 7]);
        letter_matches(chars[start], 'i') && letter_matches(chars[start + 1], 'n')
            && letter_matches(chars[start + 2], 'f') && letter_matches(chars[start + 3], 'i')
            && letter_matches(chars[start + 4], 'n') && letter_matches(chars[start + 5], 'i')
            && letter_matches(chars[start + 6], 't') && letter_matches(chars[start + 7], 'y')
    } else {
        false
    }
}

fn is_exponent_from(chars: &Vec<char>, start: usize) -> (r: bool)
    requires
        start <= chars.len(),
    ensures
        r == is_exponent(chars@.skip(start as int)),
{
    let ghost s = chars@.skip(start as int);
    if chars.len() - start < 2 || !letter_matches(chars[start], 'e') {
        return false;
    }
    let sign = chars[start + 1];
    let first: usize = if sign == '+' || sign == '-' {
        start + 2
    } else {
        start + 1
    };
    let ghost digits = chars@.skip(first as int);
    proof {
        assert(digits == s.skip(first - start));
        lemma_run_end(chars@, first as int);
        if run_end(chars@, first as int) == chars.len() {
            assert forall|i: int| 0 <= i < digits.len() implies is_digit(#[trigger] digits[i]) by {
                assert(digits[i] == chars@[first + i]);
            }
        } else {
            assert(digits[run_end(chars@, first as int) - first] == chars@[run_end(
                chars@,
                first as int,
            )]);
        }
    }
    first < chars.len() && scan_digits(chars, first) == chars.len()
}

/// Whether `chars` is a numeral.
fn is_numeral_text(chars: &Vec<char>) -> (r: bool)
    ensures
        r == is_numeral(chars@),
{
    let start: usize = if chars.len() > 0 && (chars[0] == '+' || chars[0] == '-') {
        1
    } else {
        0
    };
    let ghost body = chars@.skip(start as int);
    assert(body == unsigned_part(chars@));
    if is_special_from(chars, start) {
        return true;
    }
    proof {
        lemma_scan_finds_numbers(body);
    }
    // The scan runs on `chars`, the grammar speaks of `body`; the two agree
    // from `start` on.
    let whole = scan_digits(chars, start);
    proof {
        lemma_run_shifts(chars@, start as int, 0);
    }
    let pointed = whole < chars.len() && chars[whole] == '.';
    let end = if pointed {
        proof {
            lemma_run_shifts(chars@, start as int, whole + 1 - start);
        }
        scan_digits(chars, whole + 1)
    } else {
        whole
    };
    let digits = if pointed {
        end - start - 1
    } else {
        end - start
    };
    proof {
        if whole < chars.len() {
            assert(body[whole - start] == chars@[whole as int]);
        }
        assert(body.skip(end - start) == chars@.skip(end as int));
    }
    digits > 0 && (end == chars.len() || is_exponent_from(chars, end))
}

/// A run of digits ends at the same character whether positions are counted
/// from the start of the text or from `start`.
proof fn lemma_run_shifts(s: Seq<char>, start: int, from: int)
    requires
        0 <= start,
        0 <= from,
        start + from <= s.len(),
    ensures
        run_end(s.skip(start), from) + start == run_end(s, start + from),
    decreases s.len() - start - from,
{
    let t = s.skip(start);
    if from < t.len() {
        assert(t[from] == s[start + from]);
        if is_digit(t[from]) {
            lemma_run_shifts(s, start, from + 1);
        }
    }
}

} // verus!
