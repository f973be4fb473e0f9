//! Numbers as text: how they are written and how a port number is read.

use crate::text::chars_of;
use vstd::prelude::*;
use vstd::string::StringExecFns;

verus! {

broadcast use vstd::string::group_string_axioms;

/// The character for one digit, `0` to `9` and then `a` to `f`.
pub open spec fn digit_char(d: nat) -> char {
    if d < 10 {
        (48 + d) as char
    } else {
        (87 + d) as char
    }
}

/// `n` written in base ten.
pub open spec fn decimal(n: nat) -> Seq<char>
    decreases n,
{
    if n < 10 {
        seq![digit_char(n)]
    } else {
        decimal(n / 10).push(digit_char(n % 10))
    }
}

/// `n` written in base sixteen.
pub open spec fn hexadecimal(n: nat) -> Seq<char>
    decreases n,
{
    if n < 16 {
        seq![digit_char(n)]
    } else {
        hexadecimal(n / 16).push(digit_char(n % 16))
    }
}

/// `count` copies of `c`.
pub open spec fn repeated(c: char, count: int) -> Seq<char> {
    Seq::new(if count < 0 { 0nat } else { count as nat }, |i: int| c)
}

/// `s` with zeros in front of it, up to `width` characters.
pub open spec fn zero_padded(s: Seq<char>, width: int) -> Seq<char> {
    repeated('0', width - s.len()) + s
}

/// `s` with spaces behind it, up to `width` characters.
pub open spec fn padded(s: Seq<char>, width: int) -> Seq<char> {
    s + repeated(' ', width - s.len())
}

/// `s` with spaces in front of it, up to `width` characters.
pub open spec fn right_aligned(s: Seq<char>, width: int) -> Seq<char> {
    repeated(' ', width - s.len()) + s
}

/// `i` written in base ten, with a sign where it is negative.
pub open spec fn signed_decimal(i: int) -> Seq<char> {
    if i < 0 {
        seq!['-'] + decimal((-i) as nat)
    } else {
        decimal(i as nat)
    }
}

/// `i` written in base ten with zeros between the sign and the digits, up to
/// `width` characters in all.
pub open spec fn zero_padded_int(i: int, width: int) -> Seq<char> {
    if i < 0 {
        seq!['-'] + zero_padded(decimal((-i) as nat), width - 1)
    } else {
        zero_padded(decimal(i as nat), width)
    }
}

/// The digit `d` as text.
fn digit_text(d: u64) -> (r: &'static str)
    requires
        d < 16,
    ensures
        r@ == seq![digit_char(d as nat)],
{
    proof {
        reveal_strlit("0");
        reveal_strlit("1");
        reveal_strlit("2");
        reveal_strlit("3");
        reveal_strlit("4");
        reveal_strlit("5");
        reveal_strlit("6");
        reveal_strlit("7");
        reveal_strlit("8");
        reveal_strlit("9");
        reveal_strlit("a");
        reveal_strlit("b");
        reveal_strlit("c");
        reveal_strlit("d");
        reveal_strlit("e");
        reveal_strlit("f");
    }
    let r = match d {
        0 => "0",
        1 => "1",
        2 => "2",
        3 => "3",
        4 => "4",
        5 => "5",
        6 => "6",
        7 => "7",
        8 => "8",
        9 => "9",
        10 => "a",
        11 => "b",
        12 => "c",
        13 => "d",
        14 => "e",
        _ => "f",
    };
    assert(r@ =~= seq![digit_char(d as nat)]);
    r
}

/// `n` in base ten.
pub fn decimal_text(n: u64) -> (r: String)
    ensures
        r@ == decimal(n as nat),
    decreases n,
{
    if n < 10 {
        digit_text(n).to_owned()
    } else {
        let mut s = decimal_text(n / 10);
        s.append(digit_text(n % 10));
        assert(s@ =~= decimal((n / 10) as nat).push(digit_char((n % 10) as nat)));
        s
    }
}

/// `n` in base sixteen.
pub fn hexadecimal_text(n: u64) -> (r: String)
    ensures
        r@ == hexadecimal(n as nat),
    decreases n,
{
    if n < 16 {
        digit_text(n).to_owned()
    } else {
        let mut s = hexadecimal_text(n / 16);
        s.append(digit_text(n % 16));
        assert(s@ =~= hexadecimal((n / 16) as nat).push(digit_char((n % 16) as nat)));
        s
    }
}

/// `i` in base ten, signed.
pub fn signed_text(i: i32) -> (r: String)
    ensures
        r@ == signed_decimal(i as int),
{
    if i < 0 {
        let mut s = "-".to_owned();
        let magnitude = (-(i as i64)) as u64;
        s.append(decimal_text(magnitude).as_str());
        proof {
            reveal_strlit("-");
            assert("-"@ =~= seq!['-']);
        }
        s
    } else {
        decimal_text(i as u64)
    }
}

/// `count` copies of a one-character text.
fn repeat_text(unit: &str, count: usize) -> (r: String)
    requires
        unit@.len() == 1,
    ensures
        r@ == repeated(unit@[0], count as int),
{
    let mut s = String::new();
    let mut i: usize = 0;
    while i < count
        invariant
            i <= count,
            unit@.len() == 1,
            s@ =~= repeated(unit@[0], i as int),
        decreases count - i,
    {
        s.append(unit);
        i += 1;
    }
    s
}

/// `n` in base ten with zeros in front, up to `width` characters.
pub fn zero_padded_text(n: u64, width: usize) -> (r: String)
    ensures
        r@ == zero_padded(decimal(n as nat), width as int),
{
    let digits = decimal_text(n);
    zero_pad(digits, width)
}

/// `s` with zeros in front, up to `width` characters.
pub fn zero_pad(s: String, width: usize) -> (r: String)
    ensures
        r@ == zero_padded(s@, width as int),
{
    let have = chars_of(s.as_str()).len();
    proof {
        reveal_strlit("0");
    }
    if have < width {
        let mut out = repeat_text("0", width - have);
        out.append(s.as_str());
        out
    } else {
        assert(zero_padded(s@, width as int) =~= s@);
        s
    }
}

/// `i` in base ten with zeros behind the sign, up to `width` characters.
pub fn zero_padded_int_text(i: i64, width: usize) -> (r: String)
    requires
        i > i64::MIN,
        width > 0,
    ensures
        r@ == zero_padded_int(i as int, width as int),
{
    if i < 0 {
        let mut s = "-".to_owned();
        s.append(zero_padded_text((-i) as u64, width - 1).as_str());
        proof {
            reveal_strlit("-");
            assert("-"@ =~= seq!['-']);
        }
        s
    } else {
        zero_padded_text(i as u64, width)
    }
}

/// `s` with spaces behind it, up to `width` characters.
pub fn pad(s: &str, width: usize) -> (r: String)
    ensures
        r@ == padded(s@, width as int),
{
    let have = chars_of(s).len();
    let mut out = s.to_owned();
    proof {
        reveal_strlit(" ");
    }
    if have < width {
        out.append(repeat_text(" ", width - have).as_str());
    } else {
        assert(padded(s@, width as int) =~= s@);
    }
    out
}

/// `s` with spaces in front of it, up to `width` characters.
pub fn right_align(s: &str, width: usize) -> (r: String)
    ensures
        r@ == right_aligned(s@, width as int),
{
    let have = chars_of(s).len();
    proof {
        reveal_strlit(" ");
    }
    if have < width {
        let mut out = repeat_text(" ", width - have);
        out.append(s);
        out
    } else {
        assert(right_aligned(s@, width as int) =~= s@);
        s.to_owned()
    }
}

/// `full` copies of `#` and then `empty` copies of `-`.
pub fn bar_text(full: usize, empty: usize) -> (r: String)
    ensures
        r@ == repeated('#', full as int) + repeated('-', empty as int),
{
    proof {
        reveal_strlit("#");
        reveal_strlit("-");
    }
    let mut s = repeat_text("#", full);
    s.append(repeat_text("-", empty).as_str());
    s
}

// ---------------------------------------------------------------------------
// Reading
// ---------------------------------------------------------------------------

/// Whether `c` is one of `0` to `9`.
pub open spec fn is_digit(c: char) -> bool {
    '0' <= c <= '9'
}

/// The number that a sequence of digits stands for.
pub open spec fn digits_value(s: Seq<char>) -> nat
    decreases s.len(),
{
    if s.len() == 0 {
        0
    } else {
        digits_value(s.drop_last()) * 10 + ((s.last() as nat) - 48) as nat
    }
}

/// Whether `s` is one or more digits.
pub open spec fn is_digits(s: Seq<char>) -> bool {
    &&& s.len() > 0
    &&& forall|i: int| 0 <= i < s.len() ==> is_digit(#[trigger] s[i])
}

/// The number that `s` stands for: digits, with a plus sign in front or not.
pub open spec fn unsigned_value(s: Seq<char>) -> Option<nat> {
    let digits = if s.len() > 0 && s[0] == '+' {
        s.drop_first()
    } else {
        s
    };
    if is_digits(digits) {
        Some(digits_value(digits))
    } else {
        None
    }
}

/// The number that `s` stands for, where it fits sixteen bits.
pub open spec fn u16_value(s: Seq<char>) -> Option<u16> {
    match unsigned_value(s) {
        Some(n) => if n <= u16::MAX {
            Some(n as u16)
        } else {
            None
        },
        None => None,
    }
}

/// Adding digits never makes the number smaller.
proof fn lemma_digits_grow(s: Seq<char>, n: int)
    requires
        0 <= n <= s.len(),
    ensures
        digits_value(s.take(n)) <= digits_value(s),
    decreases s.len() - n,
{
    if n < s.len() {
        lemma_digits_grow(s.drop_last(), n);
        assert(s.drop_last().take(n) =~= s.take(n));
    } else {
        assert(s.take(n) =~= s);
    }
}

/// Reads a number of at most sixteen bits.
pub fn parse_u16(s: &str) -> (r: Option<u16>)
    ensures
        r == u16_value(s@),
{
    let v = chars_of(s);
    let from: usize = if v.len() > 0 && v[0] == '+' {
        1
    } else {
        0
    };
    let ghost digits = s@.skip(from as int);
    proof {
        if from == 1 {
            assert(digits =~= s@.drop_first());
        } else {
            assert(digits =~= s@);
        }
    }
    if v.len() == from {
        return None;
    }
    let mut value: u32 = 0;
    let mut i: usize = from;
    while i < v.len()
        invariant
            from <= i <= v.len(),
            v@ == s@,
            digits == s@.skip(from as int),
            digits.len() == v.len() - from,
            value <= u16::MAX,
            value == digits_value(digits.take(i - from)),
            forall|j: int| 0 <= j < i - from ==> is_digit(#[trigger] digits[j]),
            unsigned_value(s@) == (if is_digits(digits) {
                Some(digits_value(digits))
            } else {
                None
            }),
        decreases v.len() - i,
    {
        let c = v[i];
        assert(digits[i - from] == c);
        if !('0' <= c && c <= '9') {
            assert(!is_digits(digits));
            return None;
        }
        value = value * 10 + (c as u32 - 48);
        proof {
            let longer = digits.take(i + 1 - from);
            assert(longer.drop_last() =~= digits.take(i - from));
            assert(longer.last() == c);
            lemma_digits_grow(digits, i + 1 - from);
        }
        if value > 65535 {
            return None;
        }
        i += 1;
    }
    assert(digits.take(digits.len() as int) =~= digits);
    Some(value as u16)
}

/// A number written in base ten reads back as itself.
pub proof fn decimal_reads_back(n: nat)
    ensures
        is_digits(decimal(n)),
        unsigned_value(decimal(n)) == Some(n),
    decreases n,
{
    let s = decimal(n);
    if n < 10 {
        assert(s.drop_last() =~= Seq::<char>::empty());
        assert(digits_value(s.drop_last()) == 0);
        assert(s.last() as nat == 48 + n);
    } else {
        decimal_reads_back(n / 10);
        let front = decimal(n / 10);
        assert(front[0] != '+') by {
            assert(is_digit(front[0]));
        }
        assert(s.drop_last() =~= front);
        assert(s.last() as nat == 48 + n % 10);
        assert forall|i: int| 0 <= i < s.len() implies is_digit(#[trigger] s[i]) by {
            if i < front.len() {
                assert(s[i] == front[i]);
            }
        }
        assert(digits_value(s) == digits_value(front) * 10 + n % 10);
    }
    assert(is_digit(s[0]));
}

// ---------------------------------------------------------------------------
// Laws
// ---------------------------------------------------------------------------

/// A number below ten is written as its one digit, and a larger one as its
/// tenth part with the last digit behind it.
pub proof fn numbers_are_written_digit_by_digit(n: u64, r: String, front: String)
    requires
        call_ensures(decimal_text, (n,), r),
        call_ensures(decimal_text, (n / 10,), front),
    ensures
        r@.len() > 0,
        r@.last() as int == 48 + n % 10,
        n < 10 ==> r@.len() == 1,
        n >= 10 ==> r@.drop_last() == front@,
{
    if n >= 10 {
        assert(r@.drop_last() =~= front@);
    }
}

/// A number is written without zeros in front.
pub proof fn no_zeros_lead(n: nat)
    ensures
        decimal(n).len() > 0,
        n > 0 ==> decimal(n)[0] != '0',
        forall|i: int| 0 <= i < decimal(n).len() ==> '0' <= #[trigger] decimal(n)[i] <= '9',
    decreases n,
{
    decimal_reads_back(n);
    assert forall|i: int| 0 <= i < decimal(n).len() implies '0' <= #[trigger] decimal(n)[i]
        <= '9' by {
        assert(is_digit(decimal(n)[i]));
    }
    if n >= 10 {
        no_zeros_lead(n / 10);
        assert(decimal(n)[0] == decimal(n / 10)[0]);
    } else {
        assert(decimal(n)[0] as int == 48 + n);
    }
}

/// In base sixteen too, digit by digit: the last one stands for the remainder,
/// as `0` to `9` or as `a` to `f`, and the rest is the sixteenth part.
pub proof fn hexadecimals_are_written_digit_by_digit(n: u64, r: String, front: String)
    requires
        call_ensures(hexadecimal_text, (n,), r),
        call_ensures(hexadecimal_text, (n / 16,), front),
    ensures
        r@.len() > 0,
        n % 16 < 10 ==> r@.last() as int == 48 + n % 16,
        n % 16 >= 10 ==> r@.last() as int == 97 + (n % 16 - 10),
        n < 16 ==> r@.len() == 1,
        n >= 16 ==> r@.drop_last() == front@,
{
    if n >= 16 {
        assert(r@.drop_last() =~= front@);
    }
}

/// A negative number is a minus sign and its magnitude; any other one is
/// written as it is without a sign.
pub proof fn signs_go_in_front(i: i32, magnitude: u64, r: String, digits: String)
    requires
        magnitude == (if i < 0 {
            -i
        } else {
            i as int
        }),
        call_ensures(signed_text, (i,), r),
        call_ensures(decimal_text, (magnitude,), digits),
    ensures
        i < 0 ==> r@ == seq!['-'] + digits@,
        i >= 0 ==> r@ == digits@,
{
}

/// A signed number reads back: what its text says is the number.
pub proof fn signed_numbers_read_back(i: int)
    ensures
        i >= 0 ==> unsigned_value(signed_decimal(i)) == Some(i as nat),
        i < 0 ==> signed_decimal(i)[0] == '-' && unsigned_value(signed_decimal(i).drop_first())
            == Some((-i) as nat),
{
    if i < 0 {
        decimal_reads_back((-i) as nat);
        assert(signed_decimal(i).drop_first() =~= decimal((-i) as nat));
    } else {
        decimal_reads_back(i as nat);
    }
}

/// Padding puts spaces behind a text until it is wide enough, and leaves a
/// wide text alone.
pub proof fn padding_goes_behind(s: &str, width: usize, r: String)
    requires
        call_ensures(pad, (s, width), r),
    ensures
        s@.is_prefix_of(r@),
        r@.len() == (if s@.len() < width {
            width as nat
        } else {
            s@.len()
        }),
        forall|i: int| s@.len() <= i < r@.len() ==> #[trigger] r@[i] == ' ',
{
    assert(r@.subrange(0, s@.len() as int) =~= s@);
}

/// Aligning to the right puts spaces before a text until it is wide enough, and
/// leaves a wide text alone.
pub proof fn alignment_goes_in_front(s: &str, width: usize, r: String)
    requires
        call_ensures(right_align, (s, width), r),
    ensures
        s@.is_suffix_of(r@),
        r@.len() == (if s@.len() < width {
            width as nat
        } else {
            s@.len()
        }),
        forall|i: int| 0 <= i < r@.len() - s@.len() ==> #[trigger] r@[i] == ' ',
{
    assert(r@.subrange(r@.len() - s@.len(), r@.len() as int) =~= s@);
}

/// Zeros go before a text until it is wide enough.
pub proof fn zeros_go_in_front(s: String, width: usize, r: String)
    requires
        call_ensures(zero_pad, (s, width), r),
    ensures
        s@.is_suffix_of(r@),
        r@.len() == (if s@.len() < width {
            width as nat
        } else {
            s@.len()
        }),
        forall|i: int| 0 <= i < r@.len() - s@.len() ==> #[trigger] r@[i] == '0',
{
    assert(r@.subrange(r@.len() - s@.len(), r@.len() as int) =~= s@);
}

/// Zeros in front do not change what a number's text says.
pub proof fn padded_numbers_read_back(n: nat, width: int)
    ensures
        is_digits(zero_padded(decimal(n), width)),
        digits_value(zero_padded(decimal(n), width)) == n,
{
    decimal_reads_back(n);
    let s = decimal(n);
    let padded = zero_padded(s, width);
    assert forall|i: int| 0 <= i < padded.len() implies is_digit(#[trigger] padded[i]) by {
        let shift = padded.len() - s.len();
        if i >= shift {
            assert(padded[i] == s[i - shift]);
        }
    }
    lemma_zeros_count_nothing(width - s.len(), s);
}

/// Zeros in front count for nothing.
proof fn lemma_zeros_count_nothing(count: int, s: Seq<char>)
    ensures
        digits_value(repeated('0', count) + s) == digits_value(s),
    decreases s.len(), (if count < 0 { 0 } else { count }),
{
    let t = repeated('0', count) + s;
    if s.len() > 0 {
        lemma_zeros_count_nothing(count, s.drop_last());
        assert(t.drop_last() =~= repeated('0', count) + s.drop_last());
        assert(t.last() == s.last());
    } else if count > 0 {
        lemma_zeros_count_nothing(count - 1, s);
        assert(t.drop_last() =~= repeated('0', count - 1) + s);
        assert(t.last() == '0');
    } else {
        assert(t =~= s);
    }
}

/// A bar is as many hash marks as it has full places, then as many dashes as
/// it has empty ones.
pub proof fn bars_are_full_places_and_empty_ones(full: usize, empty: usize, r: String)
    requires
        call_ensures(bar_text, (full, empty), r),
    ensures
        r@.len() == full + empty,
        forall|i: int| 0 <= i < full ==> #[trigger] r@[i] == '#',
        forall|i: int| full <= i < r@.len() ==> #[trigger] r@[i] == '-',
{
}

/// A port number that is written out is read as that number.
pub proof fn written_ports_are_read(s: &str, n: u16, r: Option<u16>)
    requires
        s@ == decimal(n as nat),
        call_ensures(parse_u16, (s,), r),
    ensures
        r == Some(n),
{
    decimal_reads_back(n as nat);
}

/// A number that is too large for sixteen bits is not read.
pub proof fn large_numbers_are_not_read(s: &str, n: nat, r: Option<u16>)
    requires
        n > 65535,
        s@ == decimal(n),
        call_ensures(parse_u16, (s,), r),
    ensures
        r is None,
{
    decimal_reads_back(n);
}

/// One more digit makes ten times the number and the digit, where that still
/// fits sixteen bits.
pub proof fn digits_are_read_in_order(s: &str, longer: &str, d: u16, n: u16, r: Option<u16>)
    requires
        d < 10,
        longer@ == s@.push((48 + d) as char),
        call_ensures(parse_u16, (s,), Some(n)),
        call_ensures(parse_u16, (longer,), r),
    ensures
        r == (if n * 10 + d <= 65535 {
            Some((n * 10 + d) as u16)
        } else {
            None
        }),
{
    let plus = s@.len() > 0 && s@[0] == '+';
    let digits = if plus {
        s@.drop_first()
    } else {
        s@
    };
    let more = digits.push((48 + d) as char);
    assert(s@.len() > 0);
    assert(longer@[0] == s@[0]);
    assert(plus ==> longer@.drop_first() =~= more);
    assert(more.drop_last() =~= digits);
    assert forall|i: int| 0 <= i < more.len() implies is_digit(#[trigger] more[i]) by {
        if i < digits.len() {
            assert(more[i] == digits[i]);
        }
    }
}

/// A plus sign in front of digits changes nothing, and anything that is not a
/// digit makes a text no number.
pub proof fn nothing_but_digits_is_read(s: &str, r: Option<u16>)
    requires
        call_ensures(parse_u16, (s,), r),
        r is Some,
    ensures
        s@.len() > 0,
        s@[0] == '+' ==> s@.len() > 1,
        '0' <= s@[0] <= '9' || s@[0] == '+',
        forall|i: int| 0 < i < s@.len() ==> '0' <= #[trigger] s@[i] <= '9',
{
    if s@[0] == '+' {
        assert forall|i: int| 0 < i < s@.len() implies '0' <= #[trigger] s@[i] <= '9' by {
            assert(is_digit(s@.drop_first()[i - 1]));
        }
    } else {
        assert forall|i: int| 0 <= i < s@.len() implies '0' <= #[trigger] s@[i] <= '9' by {
            assert(is_digit(s@[i]));
        }
    }
}

/// A plus sign in front of a number that starts with a digit is passed over.
pub proof fn plus_signs_are_passed_over(s: &str, signed: &str, a: Option<u16>, b: Option<u16>)
    requires
        s@.len() == 0 || s@[0] != '+',
        signed@ == seq!['+'] + s@,
        call_ensures(parse_u16, (s,), a),
        call_ensures(parse_u16, (signed,), b),
    ensures
        a == b,
{
    assert(signed@.drop_first() =~= s@);
}

/// Zeros go between the sign and the digits of a number, until it is wide
/// enough.
pub proof fn zeros_go_behind_the_sign(i: i64, width: usize, r: String)
    requires
        width > 0,
        i > i64::MIN,
        call_ensures(zero_padded_int_text, (i, width), r),
    ensures
        r@.len() >= width,
        i < 0 ==> r@[0] == '-' && is_digits(r@.drop_first()) && digits_value(r@.drop_first()) == -i,
        i >= 0 ==> is_digits(r@) && digits_value(r@) == i,
        r@.len() > width && i > 0 ==> r@[0] != '0',
        r@.len() > width && i < 0 ==> r@[1] != '0',
{
    if i < 0 {
        let n = (-i) as nat;
        padded_numbers_read_back(n, width - 1);
        no_zeros_lead(n);
        assert(r@.drop_first() =~= zero_padded(decimal(n), width - 1));
    } else {
        padded_numbers_read_back(i as nat, width as int);
        no_zeros_lead(i as nat);
    }
}

/// A number is written out before zeros are put in front of it.
pub proof fn padded_numbers_are_written_out(n: u64, width: usize, digits: String, a: String, b: String)
    requires
        call_ensures(decimal_text, (n,), digits),
        call_ensures(zero_pad, (digits, width), a),
        call_ensures(zero_padded_text, (n, width), b),
    ensures
        a@ == b@,
{
}

} // verus!
