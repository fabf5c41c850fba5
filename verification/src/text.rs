//! Character classes, maximal runs of characters, and line counting.

use vstd::prelude::*;
use vstd::string::*;

verus! {

/// `c` is one of the ten ASCII decimal digits.
pub open spec fn is_digit(c: char) -> bool {
    '0' <= c <= '9'
}

/// `c` is an ASCII letter.
pub open spec fn is_letter(c: char) -> bool {
    ('a' <= c <= 'z') || ('A' <= c <= 'Z')
}

/// `c` may stand in an identifier: an ASCII letter, an ASCII digit or an underscore.
pub open spec fn is_identifier_char(c: char) -> bool {
    is_letter(c) || is_digit(c) || c == '_'
}

/// `c` is a space, a carriage return or a tab.
pub open spec fn is_blank(c: char) -> bool {
    c == ' ' || c == '\r' || c == '\t'
}

/// The sets of characters that the scanner consumes in maximal runs.
#[derive(Clone, Copy, PartialEq, Eq, Structural, Debug)]
pub enum CharClass {
    /// ASCII decimal digits.
    Digit,
    /// Identifier characters.
    Identifier,
    /// Everything but a newline: the body of a line comment.
    CommentBody,
    /// Everything but a double quote: the body of a string literal.
    StringBody,
}

impl CharClass {
    /// Membership of `c` in the class.
    pub open spec fn holds(self, c: char) -> bool {
        match self {
            CharClass::Digit => is_digit(c),
            CharClass::Identifier => is_identifier_char(c),
            CharClass::CommentBody => c != '\n',
            CharClass::StringBody => c != '"',
        }
    }

    /// Decides membership of `c` in the class.
    pub fn contains(self, c: char) -> (r: bool)
        ensures
            r == self.holds(c),
    {
        match self {
            CharClass::Digit => '0' <= c && c <= '9',
            CharClass::Identifier => {
                ('a' <= c && c <= 'z') || ('A' <= c && c <= 'Z') || ('0' <= c && c <= '9') || c
                    == '_'
            },
            CharClass::CommentBody => c != '\n',
            CharClass::StringBody => c != '"',
        }
    }
}

/// The end of the maximal run of `class` characters that starts at `from`: the
/// least index at or after `from` that is the end of `s` or holds a character
/// outside the class.
pub open spec fn run_end(s: Seq<char>, from: int, class: CharClass) -> int
    decreases s.len() - from,
{
    if 0 <= from < s.len() && class.holds(s[from]) {
        run_end(s, from + 1, class)
    } else {
        from
    }
}

/// `run_end` lies between `from` and the end of `s`, every character before it
/// is in the class, and the character at it, if any, is not.
pub proof fn lemma_run_end(s: Seq<char>, from: int, class: CharClass)
    requires
        0 <= from <= s.len(),
    ensures
        from <= run_end(s, from, class) <= s.len(),
        forall|i: int| from <= i < run_end(s, from, class) ==> class.holds(#[trigger] s[i]),
        run_end(s, from, class) < s.len() ==> !class.holds(s[run_end(s, from, class)]),
    decreases s.len() - from,
{
    if from < s.len() && class.holds(s[from]) {
        lemma_run_end(s, from + 1, class);
    }
}

/// `run_end` is the only index at or after `from` that has class characters
/// alone between `from` and itself and holds none itself.
pub proof fn lemma_run_end_unique(s: Seq<char>, from: int, class: CharClass, end: int)
    requires
        0 <= from <= end <= s.len(),
        forall|i: int| from <= i < end ==> class.holds(#[trigger] s[i]),
        end < s.len() ==> !class.holds(s[end]),
    ensures
        run_end(s, from, class) == end,
    decreases end - from,
{
    if from < end {
        assert(class.holds(s[from]));
        lemma_run_end_unique(s, from + 1, class, end);
    }
}

/// The number of newline characters of `s` strictly before index `pos`.
pub open spec fn newlines_before(s: Seq<char>, pos: int) -> nat
    recommends
        0 <= pos <= s.len(),
{
    s.subrange(0, pos).filter(|c: char| c == '\n').len()
}

/// The one-based number of the line that index `pos` of `s` lies on.
pub open spec fn line_at(s: Seq<char>, pos: int) -> nat
    recommends
        0 <= pos <= s.len(),
{
    newlines_before(s, pos) + 1
}

/// No newline stands before the first character.
pub proof fn lemma_newlines_before_start(s: Seq<char>)
    ensures
        newlines_before(s, 0) == 0,
{
    reveal(Seq::filter);
    assert(s.subrange(0, 0) =~= Seq::<char>::empty());
}

/// Stepping over one character adds one to the count exactly when that
/// character is a newline.
pub proof fn lemma_newlines_before_step(s: Seq<char>, pos: int)
    requires
        0 <= pos < s.len(),
    ensures
        newlines_before(s, pos + 1) == newlines_before(s, pos) + (if s[pos] == '\n' {
            1nat
        } else {
            0nat
        }),
{
    reveal(Seq::filter);
    let longer = s.subrange(0, pos + 1);
    assert(longer.drop_last() =~= s.subrange(0, pos));
    assert(longer.last() == s[pos]);
}

/// There are at most as many newlines before `pos` as characters, and fewer
/// when one of those characters is no newline.
pub proof fn lemma_newlines_before_bound(s: Seq<char>, pos: int)
    requires
        0 <= pos <= s.len(),
    ensures
        newlines_before(s, pos) <= pos,
        (exists|i: int| 0 <= i < pos && #[trigger] s[i] != '\n') ==> newlines_before(s, pos) < pos,
    decreases pos,
{
    if pos == 0 {
        lemma_newlines_before_start(s);
    } else {
        lemma_newlines_before_bound(s, pos - 1);
        lemma_newlines_before_step(s, pos - 1);
        if exists|i: int| 0 <= i < pos && #[trigger] s[i] != '\n' {
            let i = choose|i: int| 0 <= i < pos && #[trigger] s[i] != '\n';
            if i < pos - 1 {
                assert(s[i] != '\n');
            }
        }
    }
}

/// The character that writes the digit `d`.
pub open spec fn digit_char(d: nat) -> char
    recommends
        d < 10,
{
    (('0' as nat) + d) as char
}

/// The decimal numeral of `n`, without leading zeros.
pub open spec fn decimal_text(n: nat) -> Seq<char>
    decreases n,
{
    if n < 10 {
        seq![digit_char(n)]
    } else {
        decimal_text(n / 10).push(digit_char(n % 10))
    }
}

/// Appends the decimal numeral of `n` to `out`.
pub fn push_decimal(out: &mut String, n: usize)
    ensures
        final(out)@ == old(out)@ + decimal_text(n as nat),
    decreases n,
{
    if n >= 10 {
        push_decimal(out, n / 10);
    }
    let digit: u8 = (n % 10) as u8;
    out.push(('0' as u8 + digit) as char);
    assert(out@ =~= old(out)@ + decimal_text(n as nat));
}

/// Tells whether two texts hold the same characters.
pub fn same_text(a: &str, b: &str) -> (r: bool)
    ensures
        r == (a@ == b@),
{
    let n: usize = a.unicode_len();
    if n != b.unicode_len() {
        return false;
    }
    let mut i: usize = 0;
    while i < n
        invariant
            i <= n,
            n == a@.len(),
            n == b@.len(),
            forall|j: int| 0 <= j < i ==> a@[j] == b@[j],
        decreases n - i,
    {
        if a.get_char(i) != b.get_char(i) {
            return false;
        }
        i += 1;
    }
    assert(a@ =~= b@);
    true
}

/// Assumed of `std::string::String::push`, which is not verified here: it
/// appends `ch` to the end of the string and leaves the characters before it
/// as they were.
pub assume_specification[ std::string::String::push ](text: &mut std::string::String, ch: char)
    ensures
        final(text)@ == old(text)@.push(ch),
;

} // verus!
