//! Colours with 8-bit channels, their addition and their CSS text form.

use vstd::prelude::*;

verus! {

/// A colour with red, green and blue channels of 8 bits each.
#[derive(Debug, Clone, Copy, PartialEq, Eq, Structural)]
pub struct Color {
    pub r: u8,
    pub g: u8,
    pub b: u8,
}

/// The character of a decimal digit.
pub open spec fn digit_char(d: nat) -> char {
    if d == 0 { '0' }
    else if d == 1 { '1' }
    else if d == 2 { '2' }
    else if d == 3 { '3' }
    else if d == 4 { '4' }
    else if d == 5 { '5' }
    else if d == 6 { '6' }
    else if d == 7 { '7' }
    else if d == 8 { '8' }
    else { '9' }
}

/// The decimal text of a natural number, most significant digit first,
/// without leading zeros (zero is the single digit `0`).
pub open spec fn decimal(n: nat) -> Seq<char>
    decreases n,
{
    if n < 10 {
        seq![digit_char(n)]
    } else {
        decimal(n / 10).push(digit_char(n % 10))
    }
}

/// The CSS text `rgb(R,G,B)` of a colour, with each channel in decimal.
pub open spec fn color_text(c: Color) -> Seq<char> {
    seq!['r', 'g', 'b', '('] + decimal(c.r as nat) + seq![','] + decimal(c.g as nat) + seq![',']
        + decimal(c.b as nat) + seq![')']
}

/// Whether adding two colours channel by channel stays within 8 bits.
pub open spec fn sum_fits(a: Color, b: Color) -> bool {
    &&& a.r + b.r <= 255
    &&& a.g + b.g <= 255
    &&& a.b + b.b <= 255
}

/// The channel-wise sum of two colours, as integers.
pub open spec fn color_sum(a: Color, b: Color) -> Color
    recommends
        sum_fits(a, b),
{
    Color { r: (a.r + b.r) as u8, g: (a.g + b.g) as u8, b: (a.b + b.b) as u8 }
}

/// The one-character text of a decimal digit.
fn digit_str(d: u8) -> (s: &'static str)
    requires
        d < 10,
    ensures
        s@ == seq![digit_char(d as nat)],
{
    if d == 0 {
        proof { reveal_strlit("0"); }
        "0"
    } else if d == 1 {
        proof { reveal_strlit("1"); }
        "1"
    } else if d == 2 {
        proof { reveal_strlit("2"); }
        "2"
    } else if d == 3 {
        proof { reveal_strlit("3"); }
        "3"
    } else if d == 4 {
        proof { reveal_strlit("4"); }
        "4"
    } else if d == 5 {
        proof { reveal_strlit("5"); }
        "5"
    } else if d == 6 {
        proof { reveal_strlit("6"); }
        "6"
    } else if d == 7 {
        proof { reveal_strlit("7"); }
        "7"
    } else if d == 8 {
        proof { reveal_strlit("8"); }
        "8"
    } else {
        proof { reveal_strlit("9"); }
        "9"
    }
}

/// Appends the decimal text of `v` to `s`.
fn append_decimal(s: &mut String, v: u8)
    ensures
        final(s)@ == old(s)@ + decimal(v as nat),
{
    let hundreds = v / 100;
    let tens = (v / 10) % 10;
    let ones = v % 10;
    proof {
        reveal_with_fuel(decimal, 3);
        assert(v as nat / 10 / 10 == v as nat / 100);
    }
    if v >= 100 {
        s.append(digit_str(hundreds));
        s.append(digit_str(tens));
        s.append(digit_str(ones));
        assert(decimal(v as nat) =~= seq![
            digit_char(hundreds as nat),
            digit_char(tens as nat),
            digit_char(ones as nat),
        ]);
    } else if v >= 10 {
        s.append(digit_str(tens));
        s.append(digit_str(ones));
        assert(decimal(v as nat) =~= seq![digit_char(tens as nat), digit_char(ones as nat)]);
    } else {
        s.append(digit_str(ones));
    }
    assert(final(s)@ =~= old(s)@ + decimal(v as nat));
}

impl Color {
    /// The CSS text of the colour, `rgb(R,G,B)` with decimal channels.
    pub fn serialise(&self) -> (s: String)
        ensures
            s@ == color_text(*self),
    {
        proof {
            reveal_strlit("rgb(");
            reveal_strlit(",");
            reveal_strlit(")");
        }
        let mut s = String::from_str("rgb(");
        append_decimal(&mut s, self.r);
        s.append(",");
        append_decimal(&mut s, self.g);
        s.append(",");
        append_decimal(&mut s, self.b);
        s.append(")");
        assert(s@ =~= color_text(*self));
        s
    }

    /// The channel-wise sum of two colours. Each channel is an 8-bit
    /// integer addition, so the sum must not exceed 255 in any channel.
    pub fn add(&self, color: Color) -> (res: Color)
        requires
            sum_fits(*self, color),
        ensures
            res == color_sum(*self, color),
    {
        Color { r: self.r + color.r, g: self.g + color.g, b: self.b + color.b }
    }
}


/// Whether a character is a decimal digit.
pub open spec fn is_digit(c: char) -> bool {
    '0' <= c <= '9'
}

/// Whether every character of a text is a decimal digit.
pub open spec fn all_digits(s: Seq<char>) -> bool {
    forall|i: int| 0 <= i < s.len() ==> is_digit(#[trigger] s[i])
}

proof fn lemma_digit_char(d: nat)
    requires
        d < 10,
    ensures
        is_digit(digit_char(d)),
        forall|e: nat| e < 10 && #[trigger] digit_char(e) == digit_char(d) ==> e == d,
{
}

proof fn lemma_decimal_digits(n: nat)
    ensures
        all_digits(decimal(n)),
        decimal(n).len() >= 1,
        n >= 10 ==> decimal(n).len() >= 2,
    decreases n,
{
    if n < 10 {
        lemma_digit_char(n);
    } else {
        lemma_decimal_digits(n / 10);
        lemma_digit_char(n % 10);
        assert forall|i: int| 0 <= i < decimal(n).len() implies is_digit(#[trigger] decimal(n)[i]) by {
            if i < decimal(n / 10).len() {
                assert(decimal(n)[i] == decimal(n / 10)[i]);
            }
        }
    }
}

proof fn lemma_decimal_injective(a: nat, b: nat)
    requires
        decimal(a) == decimal(b),
    ensures
        a == b,
    decreases a,
{
    lemma_decimal_digits(a);
    lemma_decimal_digits(b);
    if a < 10 && b < 10 {
        lemma_digit_char(a);
        assert(decimal(a)[0] == digit_char(a));
        assert(decimal(b)[0] == digit_char(b));
    } else if a >= 10 && b >= 10 {
        let da = decimal(a);
        let db = decimal(b);
        assert(da.last() == db.last());
        lemma_digit_char(a % 10);
        assert(digit_char(a % 10) == digit_char(b % 10));
        assert(da.drop_last() =~= decimal(a / 10));
        assert(db.drop_last() =~= decimal(b / 10));
        lemma_decimal_injective(a / 10, b / 10);
        assert(a == 10 * (a / 10) + a % 10);
        assert(b == 10 * (b / 10) + b % 10);
    } else {
        assert(decimal(a).len() != decimal(b).len());
    }
}

/// Two digit texts, each followed by a comma, agree with what follows them
/// when the joined texts agree.
proof fn lemma_split_at_comma(a: Seq<char>, s: Seq<char>, b: Seq<char>, t: Seq<char>)
    requires
        all_digits(a),
        all_digits(b),
        a + seq![','] + s == b + seq![','] + t,
    ensures
        a == b,
        s == t,
{
    let x = a + seq![','] + s;
    let y = b + seq![','] + t;
    if a.len() < b.len() {
        assert(x[a.len() as int] == ',');
        assert(y[a.len() as int] == b[a.len() as int]);
    } else if b.len() < a.len() {
        assert(y[b.len() as int] == ',');
        assert(x[b.len() as int] == a[b.len() as int]);
    }
    assert(a =~= x.subrange(0, a.len() as int));
    assert(b =~= y.subrange(0, b.len() as int));
    assert(s =~= x.subrange(a.len() + 1int, x.len() as int));
    assert(t =~= y.subrange(b.len() + 1int, y.len() as int));
}

/// The three digit fields of a text `rgb(R,G,B)` are determined by the text.
proof fn lemma_fields_determined(
    r1: Seq<char>,
    g1: Seq<char>,
    b1: Seq<char>,
    r2: Seq<char>,
    g2: Seq<char>,
    b2: Seq<char>,
)
    requires
        all_digits(r1),
        all_digits(g1),
        all_digits(r2),
        all_digits(g2),
        seq!['r', 'g', 'b', '('] + r1 + seq![','] + g1 + seq![','] + b1 + seq![')']
            == seq!['r', 'g', 'b', '('] + r2 + seq![','] + g2 + seq![','] + b2 + seq![')'],
    ensures
        r1 == r2,
        g1 == g2,
        b1 == b2,
{
    let p = seq!['r', 'g', 'b', '('];
    let x = p + r1 + seq![','] + g1 + seq![','] + b1 + seq![')'];
    let y = p + r2 + seq![','] + g2 + seq![','] + b2 + seq![')'];
    let ta = g1 + seq![','] + b1 + seq![')'];
    let tb = g2 + seq![','] + b2 + seq![')'];
    assert(r1 + seq![','] + ta =~= x.subrange(4, x.len() as int));
    assert(r2 + seq![','] + tb =~= y.subrange(4, y.len() as int));
    lemma_split_at_comma(r1, ta, r2, tb);
    let ua = b1 + seq![')'];
    let ub = b2 + seq![')'];
    assert(ta =~= g1 + seq![','] + ua);
    assert(tb =~= g2 + seq![','] + ub);
    lemma_split_at_comma(g1, ua, g2, ub);
    assert(b1 =~= ua.drop_last());
    assert(b2 =~= ub.drop_last());
}

/// Distinct colours have distinct CSS texts: the text names the colour.
pub proof fn law_serialise_injective(a: Color, b: Color)
    requires
        color_text(a) == color_text(b),
    ensures
        a == b,
{
    lemma_decimal_digits(a.r as nat);
    lemma_decimal_digits(b.r as nat);
    lemma_decimal_digits(a.g as nat);
    lemma_decimal_digits(b.g as nat);
    lemma_fields_determined(
        decimal(a.r as nat),
        decimal(a.g as nat),
        decimal(a.b as nat),
        decimal(b.r as nat),
        decimal(b.g as nat),
        decimal(b.b as nat),
    );
    lemma_decimal_injective(a.r as nat, b.r as nat);
    lemma_decimal_injective(a.g as nat, b.g as nat);
    lemma_decimal_injective(a.b as nat, b.b as nat);
}

/// Adding colours does not depend on their order.
pub proof fn law_add_commutative(a: Color, b: Color)
    requires
        sum_fits(a, b),
    ensures
        sum_fits(b, a),
        color_sum(a, b) == color_sum(b, a),
{
}

/// Adding three colours does not depend on the grouping.
pub proof fn law_add_associative(a: Color, b: Color, c: Color)
    requires
        sum_fits(a, b),
        sum_fits(color_sum(a, b), c),
    ensures
        sum_fits(b, c),
        sum_fits(a, color_sum(b, c)),
        color_sum(color_sum(a, b), c) == color_sum(a, color_sum(b, c)),
{
}

/// Black adds nothing: it is the identity of colour addition.
pub proof fn law_add_black(a: Color)
    ensures
        sum_fits(a, Color { r: 0, g: 0, b: 0 }),
        color_sum(a, Color { r: 0, g: 0, b: 0 }) == a,
{
}

} // verus!
