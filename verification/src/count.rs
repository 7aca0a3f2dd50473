//! Numbers as text: plain, and grouped by thousands.

use vstd::prelude::*;

verus! {

/// The character of a decimal digit.
pub open spec fn digit(d: int) -> char {
    (('0' as int) + d) as char
}

/// A number in decimal, with no digit before its first.
pub open spec fn decimal(n: nat) -> Seq<char>
    decreases n,
{
    if n < 10 {
        seq![digit(n as int)]
    } else {
        decimal(n / 10).push(digit((n % 10) as int))
    }
}

/// The last digits of a number, so many of them.
pub open spec fn padded(n: nat, width: nat) -> Seq<char>
    decreases width,
{
    if width == 0 {
        Seq::empty()
    } else {
        padded(n / 10, (width - 1) as nat).push(digit((n % 10) as int))
    }
}

/// A number in decimal, with a comma before each three digits that have others before them.
pub open spec fn grouped(n: nat) -> Seq<char>
    decreases n,
{
    if n < 1000 {
        decimal(n)
    } else {
        (grouped(n / 1000) + seq![',']) + padded(n % 1000, 3)
    }
}

/// A text without its commas.
pub open spec fn without_commas(text: Seq<char>) -> Seq<char> {
    text.filter(|c: char| c != ',')
}

fn digit_char(d: u64) -> (c: char)
    requires
        d < 10,
    ensures
        c == digit(d as int),
{
    (48u8 + d as u8) as char
}

/// Put a number in decimal on the end of a text.
pub fn append_decimal(text: &mut String, n: u64)
    ensures
        final(text)@ == old(text)@ + decimal(n as nat),
    decreases n,
{
    let ghost before = text@;
    if n >= 10 {
        append_decimal(text, n / 10);
    }
    text.push(digit_char(n % 10));
    assert(text@ =~= before + decimal(n as nat));
}

/// Put the last digits of a number, so many of them, on the end of a text.
pub fn append_padded(text: &mut String, n: u64, width: usize)
    ensures
        final(text)@ == old(text)@ + padded(n as nat, width as nat),
    decreases width,
{
    let ghost before = text@;
    if width > 0 {
        append_padded(text, n / 10, width - 1);
        text.push(digit_char(n % 10));
    }
    assert(text@ =~= before + padded(n as nat, width as nat));
}

/// Put a number, grouped by thousands, on the end of a text.
pub fn append_count(text: &mut String, n: u64)
    ensures
        final(text)@ == old(text)@ + grouped(n as nat),
    decreases n,
{
    let ghost before = text@;
    if n < 1000 {
        append_decimal(text, n);
    } else {
        append_count(text, n / 1000);
        text.push(',');
        append_padded(text, n % 1000, 3);
        assert(text@ =~= before + grouped(n as nat));
    }
}

/// A count as it is shown.
#[derive(Clone, Copy, Debug, PartialEq, Eq, Structural)]
pub struct DisplayCount(pub u64);

impl DisplayCount {
    /// The count grouped by thousands.
    pub fn text(&self) -> (text: String)
        ensures
            text@ == grouped(self.0 as nat),
    {
        let mut text = String::new();
        append_count(&mut text, self.0);
        assert(Seq::<char>::empty() + grouped(self.0 as nat) =~= grouped(self.0 as nat));
        text
    }
}

proof fn filter_joins(a: Seq<char>, b: Seq<char>)
    ensures
        without_commas(a + b) == without_commas(a) + without_commas(b),
    decreases b.len(),
{
    reveal(Seq::filter);
    if b.len() == 0 {
        assert(a + b =~= a);
        assert(without_commas(a) + without_commas(b) =~= without_commas(a));
    } else {
        assert((a + b).drop_last() =~= a + b.drop_last());
        filter_joins(a, b.drop_last());
        assert(without_commas(a + b) =~= without_commas(a) + without_commas(b));
    }
}

proof fn decimals_hold_no_commas(n: nat)
    ensures
        without_commas(decimal(n)) == decimal(n),
    decreases n,
{
    reveal(Seq::filter);
    if n < 10 {
        let d = decimal(n);
        assert(d.drop_last() =~= Seq::empty());
        assert(without_commas(Seq::<char>::empty()) =~= Seq::empty());
        assert(without_commas(d) =~= d);
    } else {
        decimals_hold_no_commas(n / 10);
        assert(decimal(n).drop_last() =~= decimal(n / 10));
        assert(without_commas(decimal(n)) =~= decimal(n));
    }
}

/// Without its commas a grouped number is the plain one.
pub proof fn grouping_only_adds_commas(n: nat)
    ensures
        without_commas(grouped(n)) == decimal(n),
    decreases n,
{
    if n < 1000 {
        decimals_hold_no_commas(n);
    } else {
        reveal(Seq::filter);
        let rest = n % 1000;
        grouping_only_adds_commas(n / 1000);
        filter_joins(grouped(n / 1000) + seq![','], padded(rest, 3));
        filter_joins(grouped(n / 1000), seq![',']);
        assert(seq![','].drop_last() =~= Seq::<char>::empty());
        assert(without_commas(Seq::<char>::empty()) =~= Seq::empty());
        assert(without_commas(seq![',']) =~= Seq::empty());
        let hundreds = digit(((rest / 10) / 10) as int % 10);
        let tens = digit((rest / 10) as int % 10);
        let ones = digit(rest as int % 10);
        reveal_with_fuel(padded, 4);
        assert(padded(rest, 3) =~= seq![hundreds, tens, ones]);
        let three = seq![hundreds, tens, ones];
        let two = seq![hundreds, tens];
        let one = seq![hundreds];
        assert(three.drop_last() =~= two);
        assert(two.drop_last() =~= one);
        assert(one.drop_last() =~= Seq::<char>::empty());
        assert(without_commas(one) =~= one);
        assert(without_commas(two) =~= two);
        assert(without_commas(three) =~= three);
        assert(n / 10 / 10 / 10 == n / 1000) by (nonlinear_arith);
        assert((rest / 10) % 10 == (n / 10) % 10) by (nonlinear_arith)
            requires
                rest == n % 1000,
        ;
        assert((rest / 10 / 10) % 10 == (n / 10 / 10) % 10) by (nonlinear_arith)
            requires
                rest == n % 1000,
        ;
        assert(rest % 10 == n % 10) by (nonlinear_arith)
            requires
                rest == n % 1000,
        ;
        reveal_with_fuel(decimal, 4);
        assert(decimal(n) =~= decimal(n / 1000) + three);
        assert(without_commas(grouped(n)) =~= decimal(n));
    }
}

/// A number is written in ten digits, the last of them its remainder by ten, with none before the
/// first that counts.
pub proof fn a_number_is_written_in_tens(n: nat, d: int)
    requires
        0 <= d < 10,
    ensures
        n > 0 ==> decimal(10 * n + d as nat) == decimal(n).push(('0' as int + d) as char),
        decimal(d as nat) == seq![('0' as int + d) as char],
        n > 0 ==> decimal(n)[0] != '0',
    decreases n,
{
    assert((10 * n + d) / 10 == n && (10 * n + d) % 10 == d);
    if n >= 10 {
        a_number_is_written_in_tens(n / 10, d);
        assert(decimal(n / 10).len() > 0) by {
            decimals_have_digits(n / 10);
        }
        assert(decimal(n)[0] == decimal(n / 10)[0]);
    }
}

proof fn decimals_have_digits(n: nat)
    ensures
        decimal(n).len() > 0,
        forall|i: int| 0 <= i < decimal(n).len() ==> '0' <= #[trigger] decimal(n)[i] <= '9',
    decreases n,
{
    if n >= 10 {
        decimals_have_digits(n / 10);
    }
}

/// In a grouped number a comma comes after each three digits from its end, nowhere else, and never
/// first.
pub proof fn commas_come_every_three_digits(n: nat, i: int)
    requires
        0 <= i < grouped(n).len(),
    ensures
        grouped(n)[grouped(n).len() - 1 - i] == ',' <==> i % 4 == 3,
        grouped(n)[0] != ',',
    decreases n,
{
    let text = grouped(n);
    if n < 1000 {
        decimals_have_digits(n);
        assert(text.len() <= 3) by {
            reveal_with_fuel(decimal, 4);
        }
        assert('0' <= text[text.len() - 1 - i] <= '9');
    } else {
        let high = grouped(n / 1000);
        reveal_with_fuel(padded, 4);
        let low = padded(n % 1000, 3);
        assert(low.len() == 3);
        assert(forall|k: int| 0 <= k < 3 ==> '0' <= #[trigger] low[k] <= '9');
        assert(text == high + seq![','] + low);
        assert(high.len() > 0) by {
            grouped_numbers_have_digits(n / 1000);
        }
        if i < 3 {
            assert(text[text.len() - 1 - i] == low[2 - i]);
        } else if i == 3 {
            assert(text[text.len() - 1 - i] == ',');
        } else {
            assert(text[text.len() - 1 - i] == high[high.len() - 1 - (i - 4)]);
            commas_come_every_three_digits(n / 1000, i - 4);
        }
        commas_come_every_three_digits(n / 1000, 0);
        assert(text[0] == high[0]);
    }
}

proof fn grouped_numbers_have_digits(n: nat)
    ensures
        grouped(n).len() > 0,
    decreases n,
{
    if n < 1000 {
        decimals_have_digits(n);
    } else {
        grouped_numbers_have_digits(n / 1000);
    }
}

} // verus!
