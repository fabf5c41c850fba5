//! Decimal numbers as number literals write them, exact to the last digit.

use vstd::prelude::*;
use vstd::string::*;
use crate::text::is_digit;

verus! {

/// `s` without its leading zeros, but for the last character, which stays.
pub open spec fn trim_leading_zeros(s: Seq<char>) -> Seq<char>
    decreases s.len(),
{
    if s.len() > 1 && s[0] == '0' {
        trim_leading_zeros(s.drop_first())
    } else {
        s
    }
}

/// `s` without its trailing zeros.
pub open spec fn trim_trailing_zeros(s: Seq<char>) -> Seq<char>
    decreases s.len(),
{
    if s.len() > 0 && s.last() == '0' {
        trim_trailing_zeros(s.drop_last())
    } else {
        s
    }
}

/// The number that the digit `c` writes.
pub open spec fn digit_value(c: char) -> nat
    recommends
        is_digit(c),
{
    (c as nat - '0' as nat) as nat
}

/// The natural number that a run of digits writes; zero for the empty run.
pub open spec fn digits_value(s: Seq<char>) -> nat
    decreases s.len(),
{
    if s.len() == 0 {
        0
    } else {
        digits_value(s.drop_last()) * 10 + digit_value(s.last())
    }
}

/// Ten to the power of `n`.
pub open spec fn pow10(n: nat) -> nat
    decreases n,
{
    if n == 0 {
        1
    } else {
        10 * pow10((n - 1) as nat)
    }
}

/// A decimal number as written: the digits before the point and the digits
/// after it. The number it denotes is exact, however long the digit runs are;
/// nothing is rounded to a binary float.
#[derive(Clone, Copy, PartialEq, Eq, Debug)]
pub struct Decimal<'a> {
    /// The digits of the integer part, as written.
    pub whole: &'a str,
    /// The digits of the fractional part, as written; empty where none was written.
    pub fraction: &'a str,
}

/// The mathematical content of a `Decimal`.
pub struct DecimalView {
    pub whole: Seq<char>,
    pub fraction: Seq<char>,
}

impl DecimalView {
    /// Both parts are runs of ASCII digits and the integer part is not empty.
    pub open spec fn wf(self) -> bool {
        &&& self.whole.len() > 0
        &&& forall|i: int| 0 <= i < self.whole.len() ==> is_digit(#[trigger] self.whole[i])
        &&& forall|i: int| 0 <= i < self.fraction.len() ==> is_digit(#[trigger] self.fraction[i])
    }

    /// The number as a literal writes it: the integer part alone where no
    /// digit follows it, else both parts with the point between them.
    pub open spec fn written(self) -> Seq<char> {
        if self.fraction.len() == 0 {
            self.whole
        } else {
            self.whole + seq!['.'] + self.fraction
        }
    }

    /// The number of digits after the point.
    pub open spec fn scale(self) -> nat {
        self.fraction.len()
    }

    /// The number times ten to the power of `scale`: what all the digits
    /// write when the point is left out.
    pub open spec fn unscaled(self) -> nat {
        digits_value(self.whole + self.fraction)
    }

    /// `self` and `other` denote the same number: as fractions over powers
    /// of ten they are equal.
    pub open spec fn same_number(self, other: DecimalView) -> bool {
        self.unscaled() * pow10(other.scale()) == other.unscaled() * pow10(self.scale())
    }

    /// The fractional part is zero: no digit after the point differs from `0`.
    pub open spec fn is_integral(self) -> bool {
        forall|i: int| 0 <= i < self.fraction.len() ==> #[trigger] self.fraction[i] == '0'
    }

    /// The shortest way to write the number with a digit on each side of the
    /// point: the integer part without leading zeros, and the fractional part
    /// without trailing zeros, or one `0` where nothing else is left of it.
    pub open spec fn shortest(self) -> DecimalView {
        let fraction = trim_trailing_zeros(self.fraction);
        DecimalView {
            whole: trim_leading_zeros(self.whole),
            fraction: if fraction.len() == 0 {
                seq!['0']
            } else {
                fraction
            },
        }
    }

    /// The text that shows the number: its shortest form, with the point.
    pub open spec fn rendered(self) -> Seq<char> {
        self.shortest().whole + seq!['.'] + self.shortest().fraction
    }
}

impl<'a> View for Decimal<'a> {
    type V = DecimalView;

    open spec fn view(&self) -> DecimalView {
        DecimalView { whole: self.whole@, fraction: self.fraction@ }
    }
}

/// Powers of ten are positive, and the exponents of a product add up.
pub proof fn lemma_pow10(m: nat, n: nat)
    ensures
        pow10(m) > 0,
        pow10(m + n) == pow10(m) * pow10(n),
    decreases m,
{
    if m > 0 {
        let less = (m - 1) as nat;
        lemma_pow10(less, n);
        assert(pow10(m + n) == 10 * pow10(less + n));
        assert(pow10(m) == 10 * pow10(less));
        assert(10 * (pow10(less) * pow10(n)) == (10 * pow10(less)) * pow10(n))
            by (nonlinear_arith);
    } else {
        assert(pow10(m) == 1);
        assert(1 * pow10(n) == pow10(n));
    }
}

/// Digits written after others count below them: the value of `a + b` is
/// that of `a`, shifted by the length of `b`, plus that of `b`.
pub proof fn lemma_digits_value_concat(a: Seq<char>, b: Seq<char>)
    ensures
        digits_value(a + b) == digits_value(a) * pow10(b.len()) + digits_value(b),
    decreases b.len(),
{
    if b.len() == 0 {
        assert(a + b =~= a);
        assert(pow10(0) == 1);
        assert(digits_value(a) * 1 == digits_value(a));
    } else {
        let shorter = b.drop_last();
        lemma_digits_value_concat(a, shorter);
        assert((a + b).drop_last() =~= a + shorter);
        assert((a + b).last() == b.last());
        let high = digits_value(a);
        let p = pow10(shorter.len());
        assert(pow10(b.len()) == 10 * p);
        assert(digits_value(a + b) == digits_value(a + shorter) * 10 + digit_value(b.last()));
        assert(digits_value(b) == digits_value(shorter) * 10 + digit_value(b.last()));
        assert((high * p + digits_value(shorter)) * 10 == high * (10 * p) + digits_value(shorter)
            * 10) by (nonlinear_arith);
    }
}

/// Leading zeros do not change the value of a run of digits. What is left
/// without them is the end of the run, and begins with a zero only where it
/// is one character long.
pub proof fn lemma_leading_zeros_keep_value(s: Seq<char>)
    ensures
        digits_value(trim_leading_zeros(s)) == digits_value(s),
        trim_leading_zeros(s).len() <= s.len(),
        s.len() > 0 ==> trim_leading_zeros(s).len() > 0,
        trim_leading_zeros(s).len() > 1 ==> trim_leading_zeros(s)[0] != '0',
        trim_leading_zeros(s) == s.subrange(
            s.len() - trim_leading_zeros(s).len(),
            s.len() as int,
        ),
    decreases s.len(),
{
    if s.len() > 1 && s[0] == '0' {
        let rest = s.drop_first();
        lemma_leading_zeros_keep_value(rest);
        let zero = seq!['0'];
        assert(zero + rest =~= s);
        lemma_digits_value_concat(zero, rest);
        assert(zero.drop_last() =~= Seq::<char>::empty());
        assert(digits_value(zero) == 0) by {
            reveal_with_fuel(digits_value, 2);
        }
        assert(0 * pow10(rest.len()) == 0) by (nonlinear_arith);
        let kept = trim_leading_zeros(rest);
        assert(kept =~= s.subrange(s.len() - kept.len(), s.len() as int));
    } else {
        assert(s =~= s.subrange(0, s.len() as int));
    }
}

/// Each trailing zero multiplies the value of a run of digits by ten. What
/// is left without them is the front of the run and does not end in a zero.
pub proof fn lemma_trailing_zeros_scale_value(s: Seq<char>)
    ensures
        trim_trailing_zeros(s).len() <= s.len(),
        trim_trailing_zeros(s) == s.subrange(0, trim_trailing_zeros(s).len() as int),
        trim_trailing_zeros(s).len() > 0 ==> trim_trailing_zeros(s).last() != '0',
        forall|i: int| trim_trailing_zeros(s).len() <= i < s.len() ==> s[i] == '0',
        digits_value(s) == digits_value(trim_trailing_zeros(s)) * pow10(
            (s.len() - trim_trailing_zeros(s).len()) as nat,
        ),
    decreases s.len(),
{
    if s.len() > 0 && s.last() == '0' {
        let shorter = s.drop_last();
        lemma_trailing_zeros_scale_value(shorter);
        let kept = trim_trailing_zeros(shorter);
        let dropped = (shorter.len() - kept.len()) as nat;
        assert(kept =~= s.subrange(0, kept.len() as int));
        assert forall|i: int| kept.len() <= i < s.len() implies s[i] == '0' by {
            if i < shorter.len() {
                assert(shorter[i] == s[i]);
            }
        }
        assert(pow10(dropped + 1) == 10 * pow10(dropped));
        assert((digits_value(kept) * pow10(dropped)) * 10 + 0 == digits_value(kept) * (10 * pow10(
            dropped,
        ))) by (nonlinear_arith);
    } else {
        assert(s =~= s.subrange(0, s.len() as int));
        assert(digits_value(s) * 1 == digits_value(s)) by (nonlinear_arith);
    }
}

/// The shortest form of a number denotes the same number, and no shorter
/// form has a digit on each side of the point: its integer part begins with
/// a zero only where it is `0`, and its fractional part ends in a zero only
/// where it is `0`.
pub proof fn lemma_shortest_is_same_number(d: DecimalView)
    ensures
        d.same_number(d.shortest()),
        d.wf() ==> d.shortest().wf(),
        d.shortest().whole.len() > 1 ==> d.shortest().whole[0] != '0',
        d.shortest().fraction.len() > 0,
        d.shortest().fraction.len() > 1 ==> d.shortest().fraction.last() != '0',
{
    let short = d.shortest();
    let kept = trim_trailing_zeros(d.fraction);
    let dropped = (d.fraction.len() - kept.len()) as nat;
    lemma_leading_zeros_keep_value(d.whole);
    lemma_trailing_zeros_scale_value(d.fraction);
    lemma_digits_value_concat(d.whole, d.fraction);
    lemma_digits_value_concat(short.whole, short.fraction);
    lemma_pow10(kept.len(), dropped);
    let high = digits_value(d.whole);
    let low = digits_value(kept);
    let pk = pow10(kept.len());
    let pd = pow10(dropped);
    assert(kept.len() + dropped == d.fraction.len());
    assert(d.unscaled() == high * (pk * pd) + low * pd);
    if kept.len() == 0 {
        let zero = seq!['0'];
        assert(zero.drop_last() =~= Seq::<char>::empty());
        assert(digits_value(zero) == 0) by {
            reveal_with_fuel(digits_value, 2);
        }
        assert(pow10(1) == 10) by {
            reveal_with_fuel(pow10, 2);
        }
        assert(short.unscaled() == high * 10);
        assert(pk == 1);
        assert((high * (pk * pd) + low * pd) * 10 == (high * 10) * (pk * pd)) by (nonlinear_arith)
            requires
                low == 0,
        ;
    } else {
        assert(short.unscaled() == high * pk + low);
        assert((high * (pk * pd) + low * pd) * pk == (high * pk + low) * (pk * pd))
            by (nonlinear_arith);
    }
    if d.wf() {
        assert forall|i: int| 0 <= i < short.whole.len() implies is_digit(#[trigger] short.whole[i]) by {
            assert(short.whole[i] == d.whole[d.whole.len() - short.whole.len() + i]);
        }
        assert forall|i: int| 0 <= i < short.fraction.len() implies is_digit(
            #[trigger] short.fraction[i],
        ) by {
            if kept.len() > 0 {
                assert(short.fraction[i] == d.fraction[i]);
            }
        }
    }
}

/// A number shows `0` alone after the point exactly when its fractional part
/// is zero.
pub proof fn lemma_integral_shows_one_zero(d: DecimalView)
    ensures
        d.is_integral() <==> d.shortest().fraction == seq!['0'],
{
    let kept = trim_trailing_zeros(d.fraction);
    lemma_trailing_zeros_scale_value(d.fraction);
    if kept.len() > 0 {
        assert(kept.last() == d.fraction[kept.len() - 1]);
        if d.shortest().fraction == seq!['0'] {
            assert(kept[kept.len() - 1] == seq!['0'][0]);
        }
    }
}

impl<'a> Decimal<'a> {
    /// Renders the number in its shortest form: `1234` as `1234.0`, `12.340` as `12.34`.
    pub fn render(&self) -> (r: String)
        ensures
            r@ == self@.rendered(),
    {
        let whole_len: usize = self.whole.unicode_len();
        let mut first: usize = 0;
        proof {
            assert(self.whole@.subrange(0, whole_len as int) =~= self.whole@);
        }
        while first + 1 < whole_len && self.whole.get_char(first) == '0'
            invariant
                whole_len == self.whole@.len(),
                first <= whole_len,
                whole_len > 0 ==> first < whole_len,
                trim_leading_zeros(self.whole@) == trim_leading_zeros(
                    self.whole@.subrange(first as int, whole_len as int),
                ),
            decreases whole_len - first,
        {
            proof {
                let rest = self.whole@.subrange(first as int, whole_len as int);
                assert(rest.drop_first() =~= self.whole@.subrange(first + 1, whole_len as int));
            }
            first += 1;
        }
        let mut last: usize = self.fraction.unicode_len();
        proof {
            assert(self.fraction@.subrange(0, last as int) =~= self.fraction@);
        }
        while last > 0 && self.fraction.get_char(last - 1) == '0'
            invariant
                last <= self.fraction@.len(),
                trim_trailing_zeros(self.fraction@) == trim_trailing_zeros(
                    self.fraction@.subrange(0, last as int),
                ),
            decreases last,
        {
            proof {
                let rest = self.fraction@.subrange(0, last as int);
                assert(rest.drop_last() =~= self.fraction@.subrange(0, last - 1));
            }
            last -= 1;
        }
        let mut out = String::from_str(self.whole.substring_char(first, whole_len));
        out.append(".");
        if last == 0 {
            out.append("0");
        } else {
            out.append(self.fraction.substring_char(0, last));
        }
        proof {
            reveal_strlit(".");
            reveal_strlit("0");
            assert("."@ =~= seq!['.']);
            assert("0"@ =~= seq!['0']);
        }
        out
    }
}

} // verus!
