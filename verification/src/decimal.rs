//! Zero-padded decimal rendering of counters, as used for page file names.

use vstd::prelude::*;
use vstd::string::*;

verus! {

/// The character of a single decimal digit.
pub open spec fn digit_char(d: nat) -> char {
    if d == 0 { '0' }
    else if d == 1 { '1' }
    else if d == 2 { '2' }
    else if d == 3 { '3' }
    else if d == 4 { '4' }
    else if d == 5 { '5' }
    else if d == 6 { '6' }
    else if d == 7 { '7' }
    else if d == 8 { '8' }
    else { '9' }
}

/// Whether a character is one of the ten decimal digits.
pub open spec fn is_digit(c: char) -> bool {
    '0' <= c <= '9'
}

/// The shortest decimal rendering of `n` (no sign, no leading zeros
/// except for `0` itself).
pub open spec fn decimal(n: nat) -> Seq<char>
    decreases n,
{
    if n < 10 {
        seq![digit_char(n)]
    } else {
        decimal(n / 10).push(digit_char(n % 10))
    }
}

/// `s` preceded by as many `'0'` as it takes to reach `width` characters.
pub open spec fn zero_pad(s: Seq<char>, width: nat) -> Seq<char> {
    if s.len() >= width {
        s
    } else {
        Seq::new((width - s.len()) as nat, |i: int| '0') + s
    }
}

/// The decimal rendering of `n`, zero-padded to at least `width` characters
/// (the `{:0width$}` format of Rust).
pub open spec fn padded_decimal(n: nat, width: nat) -> Seq<char> {
    zero_pad(decimal(n), width)
}

fn digit_str(d: u64) -> (s: &'static str)
    requires
        d < 10,
    ensures
        s@ == seq![digit_char(d as nat)],
{
    if d == 0 {
        proof { reveal_strlit("0"); }
        "0"
    } else if d == 1 {
        proof { reveal_strlit("1"); }
        "1"
    } else if d == 2 {
        proof { reveal_strlit("2"); }
        "2"
    } else if d == 3 {
        proof { reveal_strlit("3"); }
        "3"
    } else if d == 4 {
        proof { reveal_strlit("4"); }
        "4"
    } else if d == 5 {
        proof { reveal_strlit("5"); }
        "5"
    } else if d == 6 {
        proof { reveal_strlit("6"); }
        "6"
    } else if d == 7 {
        proof { reveal_strlit("7"); }
        "7"
    } else if d == 8 {
        proof { reveal_strlit("8"); }
        "8"
    } else {
        proof { reveal_strlit("9"); }
        "9"
    }
}

/// Renders `n` in decimal.
pub fn decimal_string(n: u64) -> (s: String)
    ensures
        s@ == decimal(n as nat),
    decreases n,
{
    if n < 10 {
        String::from_str(digit_str(n))
    } else {
        let mut s = decimal_string(n / 10);
        s.append(digit_str(n % 10));
        s
    }
}


/// Renders `n` in decimal, preceded by zeros up to `width` characters
/// (what `format!("{:0width$}", n)` gives).
pub fn padded_decimal_string(n: u64, width: usize) -> (s: String)
    ensures
        s@ == padded_decimal(n as nat, width as nat),
{
    let digits = decimal_string(n);
    let len = digits.as_str().unicode_len();
    if len >= width {
        return digits;
    }
    let mut s = String::new();
    let mut i: usize = 0;
    while i < width - len
        invariant
            len == digits@.len(),
            len < width,
            i <= width - len,
            s@ == Seq::new(i as nat, |k: int| '0'),
        decreases width - len - i,
    {
        proof { reveal_strlit("0"); }
        s.append("0");
        i = i + 1;
        assert(s@ =~= Seq::new(i as nat, |k: int| '0'));
    }
    let res = s.concat(digits.as_str());
    assert(res@ =~= padded_decimal(n as nat, width as nat));
    res
}

/// Every character of a decimal rendering is a digit, the rendering is
/// never empty, and it starts with `'0'` only when the number is zero.
pub proof fn lemma_decimal_shape(n: nat)
    ensures
        decimal(n).len() >= 1,
        forall|i: int| 0 <= i < decimal(n).len() ==> is_digit(#[trigger] decimal(n)[i]),
        decimal(n)[0] == '0' ==> n == 0,
        n < 10 <==> decimal(n).len() == 1,
    decreases n,
{
    if n >= 10 {
        lemma_decimal_shape(n / 10);
        let p = decimal(n / 10);
        assert(decimal(n) == p.push(digit_char(n % 10)));
        assert forall|i: int| 0 <= i < decimal(n).len() implies is_digit(#[trigger] decimal(n)[i]) by {
            if i < p.len() {
                assert(decimal(n)[i] == p[i]);
            }
        }
        assert(decimal(n)[0] == p[0]);
    }
}

/// The character `digit_char(d)` determines the digit `d`.
pub proof fn lemma_digit_char_injective(a: nat, b: nat)
    requires
        a < 10,
        b < 10,
        digit_char(a) == digit_char(b),
    ensures
        a == b,
{
}

/// Two numbers with the same decimal rendering are equal.
pub proof fn lemma_decimal_injective(a: nat, b: nat)
    requires
        decimal(a) == decimal(b),
    ensures
        a == b,
    decreases a,
{
    lemma_decimal_shape(a);
    lemma_decimal_shape(b);
    if a < 10 {
        if b >= 10 {
            assert(decimal(b).len() >= 2);
        } else {
            lemma_digit_char_injective(a, b);
        }
    } else {
        assert(b >= 10);
        let pa = decimal(a / 10);
        let pb = decimal(b / 10);
        assert(decimal(a).drop_last() =~= pa);
        assert(decimal(b).drop_last() =~= pb);
        assert(decimal(a).last() == digit_char(a % 10));
        assert(decimal(b).last() == digit_char(b % 10));
        lemma_digit_char_injective(a % 10, b % 10);
        lemma_decimal_injective(a / 10, b / 10);
    }
}

/// A zero-padded rendering has the length of the plain rendering or of the
/// padding width, whichever is larger, and consists of digits only.
pub proof fn lemma_padded_decimal_shape(n: nat, width: nat)
    ensures
        padded_decimal(n, width).len() == if decimal(n).len() >= width { decimal(n).len() } else { width },
        padded_decimal(n, width).len() >= width,
        forall|i: int| 0 <= i < padded_decimal(n, width).len() ==> is_digit(#[trigger] padded_decimal(n, width)[i]),
{
    lemma_decimal_shape(n);
    let d = decimal(n);
    if d.len() < width {
        let z = Seq::new((width - d.len()) as nat, |i: int| '0');
        assert forall|i: int| 0 <= i < padded_decimal(n, width).len() implies is_digit(#[trigger] padded_decimal(n, width)[i]) by {
            if i >= z.len() {
                assert(padded_decimal(n, width)[i] == d[i - z.len()]);
            }
        }
    }
}

/// Zero-padding to a common width keeps distinct numbers distinct.
pub proof fn lemma_padded_decimal_injective(a: nat, b: nat, width: nat)
    requires
        padded_decimal(a, width) == padded_decimal(b, width),
    ensures
        a == b,
{
    lemma_decimal_shape(a);
    lemma_decimal_shape(b);
    let da = decimal(a);
    let db = decimal(b);
    let pa = padded_decimal(a, width);
    let pb = padded_decimal(b, width);
    if da.len() == db.len() {
        // equal padding on both sides
        assert(da =~= pa.subrange(pa.len() - da.len(), pa.len() as int));
        assert(db =~= pb.subrange(pb.len() - db.len(), pb.len() as int));
        lemma_decimal_injective(a, b);
    } else if da.len() < db.len() {
        // db would have to start with a padding zero
        let k = pa.len() - db.len();
        assert(pa.len() == pb.len());
        assert(db =~= pb.subrange(pb.len() - db.len(), pb.len() as int));
        assert(pa.len() - da.len() > k);
        assert(db[0] == pb[k]);
        assert(pa[k] == '0');
        assert(b == 0);
        assert(db.len() == 1);
    } else {
        let k = pb.len() - da.len();
        assert(pa.len() == pb.len());
        assert(da =~= pa.subrange(pa.len() - da.len(), pa.len() as int));
        assert(pb.len() - db.len() > k);
        assert(da[0] == pa[k]);
        assert(pb[k] == '0');
        assert(a == 0);
        assert(da.len() == 1);
    }
}


/// `a` sorts strictly before `b` in character order.
pub open spec fn lex_less(a: Seq<char>, b: Seq<char>) -> bool {
    exists|k: int|
        0 <= k <= a.len() && k <= b.len() && #[trigger] a.subrange(0, k) == b.subrange(0, k) && (
        (k < a.len() && k < b.len() && a[k] < b[k]) || (k == a.len() && k < b.len()))
}

/// Larger digits have larger characters.
pub proof fn lemma_digit_char_monotone(a: nat, b: nat)
    requires
        a < b < 10,
    ensures
        digit_char(a) < digit_char(b),
{
}

/// A number below 1000, padded to three digits, spelled out digit by digit.
pub proof fn lemma_three_digits(n: nat)
    requires
        n < 1000,
    ensures
        padded_decimal(n, 3) == seq![digit_char(n / 100), digit_char((n / 10) % 10), digit_char(n % 10)],
{
    if n < 10 {
        assert(decimal(n) == seq![digit_char(n)]);
        assert(padded_decimal(n, 3) =~= seq![digit_char(0), digit_char(0), digit_char(n % 10)]);
    } else if n < 100 {
        assert(decimal(n / 10) == seq![digit_char(n / 10)]);
        assert(decimal(n) =~= seq![digit_char(n / 10), digit_char(n % 10)]);
        assert(padded_decimal(n, 3) =~= seq![digit_char(0), digit_char((n / 10) % 10), digit_char(n % 10)]);
    } else {
        let m = n / 10;
        assert(10 <= m < 100);
        assert(m / 10 == n / 100);
        assert(decimal(m / 10) == seq![digit_char(m / 10)]);
        assert(decimal(m) =~= seq![digit_char(n / 100), digit_char(m % 10)]);
        assert(decimal(n) =~= seq![digit_char(n / 100), digit_char(m % 10), digit_char(n % 10)]);
        assert(padded_decimal(n, 3) =~= decimal(n));
    }
}

/// Below 1000, three-digit zero-padded numbers sort in numeric order, and
/// whatever follows them does not change that.
pub proof fn lemma_three_digit_order(a: nat, b: nat, rest_a: Seq<char>, rest_b: Seq<char>)
    requires
        a < b < 1000,
    ensures
        lex_less(padded_decimal(a, 3) + rest_a, padded_decimal(b, 3) + rest_b),
{
    lemma_three_digits(a);
    lemma_three_digits(b);
    let x = padded_decimal(a, 3) + rest_a;
    let y = padded_decimal(b, 3) + rest_b;
    assert(x[0] == digit_char(a / 100) && y[0] == digit_char(b / 100));
    assert(x[1] == digit_char((a / 10) % 10) && y[1] == digit_char((b / 10) % 10));
    assert(x[2] == digit_char(a % 10) && y[2] == digit_char(b % 10));
    if a / 100 < b / 100 {
        lemma_digit_char_monotone(a / 100, b / 100);
        assert(x.subrange(0, 0) =~= y.subrange(0, 0));
    } else if (a / 10) % 10 < (b / 10) % 10 {
        assert(a / 100 == b / 100);
        lemma_digit_char_monotone((a / 10) % 10, (b / 10) % 10);
        assert(x.subrange(0, 1) =~= y.subrange(0, 1));
    } else {
        assert(a / 100 == b / 100);
        assert((a / 10) % 10 == (b / 10) % 10);
        assert(a % 10 < b % 10);
        lemma_digit_char_monotone(a % 10, b % 10);
        assert(x.subrange(0, 2) =~= y.subrange(0, 2));
    }
}

/// The number a digit character stands for.
pub open spec fn digit_value(c: char) -> int {
    (c as int) - ('0' as int)
}

/// The number a string of digits reads as, most significant digit first.
pub open spec fn decimal_value(s: Seq<char>) -> int
    decreases s.len(),
{
    if s.len() == 0 {
        0
    } else {
        decimal_value(s.drop_last()) * 10 + digit_value(s.last())
    }
}

/// `10` to the power `k`.
pub open spec fn pow10(k: nat) -> nat
    decreases k,
{
    if k == 0 { 1 } else { 10 * pow10((k - 1) as nat) }
}

/// A decimal rendering reads back as the number it renders.
proof fn lemma_decimal_reads_back(n: nat)
    ensures
        decimal_value(decimal(n)) == n,
    decreases n,
{
    if n < 10 {
        let d = decimal(n);
        assert(d.drop_last() =~= Seq::<char>::empty());
        assert(decimal_value(d.drop_last()) == 0);
        assert(d.last() == digit_char(n));
        assert(digit_value(digit_char(n)) == n);
        assert(decimal_value(d) == decimal_value(d.drop_last()) * 10 + digit_value(d.last()));
    } else {
        lemma_decimal_reads_back(n / 10);
        assert(decimal(n).drop_last() =~= decimal(n / 10));
        assert(decimal(n).last() == digit_char(n % 10));
        assert(digit_value(digit_char(n % 10)) == n % 10);
        assert(decimal_value(decimal(n)) == decimal_value(decimal(n / 10)) * 10 + digit_value(digit_char(n % 10)));
        assert(n == (n / 10) * 10 + n % 10);
    }
}

/// A number below `10^k` (with `k >= 1`) renders in at most `k` digits.
proof fn lemma_decimal_len(n: nat, k: nat)
    requires
        k >= 1,
        n < pow10(k),
    ensures
        decimal(n).len() <= k,
    decreases n,
{
    if n >= 10 {
        assert(pow10(0) == 1);
        assert(pow10(1) == 10);
        if k == 1 {
            assert(false);
        }
        assert(pow10(k) == 10 * pow10((k - 1) as nat));
        lemma_decimal_len(n / 10, (k - 1) as nat);
    }
}

/// Leading zeros do not change what a string of digits reads as.
proof fn lemma_leading_zeros_value(m: nat, s: Seq<char>)
    ensures
        decimal_value(Seq::new(m, |i: int| '0') + s) == decimal_value(s),
    decreases s.len(),
{
    let z = Seq::new(m, |i: int| '0');
    if s.len() == 0 {
        assert(z + s =~= z);
        lemma_zeros_value(m);
    } else {
        lemma_leading_zeros_value(m, s.drop_last());
        assert((z + s).drop_last() =~= z + s.drop_last());
        assert((z + s).last() == s.last());
    }
}

/// A string of zeros reads as 0.
proof fn lemma_zeros_value(m: nat)
    ensures
        decimal_value(Seq::new(m, |i: int| '0')) == 0,
    decreases m,
{
    if m > 0 {
        let z = Seq::new(m, |i: int| '0');
        lemma_zeros_value((m - 1) as nat);
        assert(z.drop_last() =~= Seq::new((m - 1) as nat, |i: int| '0'));
    }
}

/// A zero-padded rendering reads back as the number it renders, and a
/// number below `10^width` is rendered in exactly `width` digits.
pub proof fn lemma_padded_decimal_value(n: nat, width: nat)
    ensures
        decimal_value(padded_decimal(n, width)) == n,
        forall|i: int| 0 <= i < padded_decimal(n, width).len() ==> is_digit(#[trigger] padded_decimal(n, width)[i]),
        padded_decimal(n, width).len() >= width,
        width >= 1 && n < pow10(width) ==> padded_decimal(n, width).len() == width,
{
    lemma_decimal_reads_back(n);
    lemma_padded_decimal_shape(n, width);
    let d = decimal(n);
    if d.len() < width {
        lemma_leading_zeros_value((width - d.len()) as nat, d);
    }
    if width >= 1 && n < pow10(width) {
        lemma_decimal_len(n, width);
    }
}

} // verus!
