//! Numbers, sizes and ages as a reader sees them.

use vstd::prelude::*;
use vstd::string::*;

verus! {

/// The character of one decimal digit.
pub open spec fn digit_char(digit: nat) -> char {
    (48 + digit) as char
}

/// The decimal numeral of `n`, without leading zeros.
pub open spec fn decimal(n: nat) -> Seq<char>
    decreases n,
{
    if n < 10 {
        seq![digit_char(n)]
    } else {
        decimal(n / 10).push(digit_char(n % 10))
    }
}

/// `n` blanks.
pub open spec fn blanks(n: nat) -> Seq<char> {
    Seq::new(n, |i: int| ' ')
}

/// `text` moved to the right edge of a column of `width` characters; a text
/// that is wider than the column is left as it is.
pub open spec fn right_aligned(text: Seq<char>, width: nat) -> Seq<char> {
    if text.len() >= width {
        text
    } else {
        blanks((width - text.len()) as nat) + text
    }
}

/// The whole number nearest to `n / d`; of two equally near ones, the even one.
pub open spec fn nearest_quotient(n: nat, d: nat) -> nat {
    let q = n / d;
    let r = n % d;
    if 2 * r < d || (2 * r == d && q % 2 == 0) {
        q
    } else {
        q + 1
    }
}

/// The distance between neighbouring double precision numbers at `n`, looked
/// for among `from` and its doublings.
pub open spec fn double_spacing(n: nat, from: nat) -> nat
    decreases n / from,
    when from > 0
{
    if n / from < 0x20_0000_0000_0000 {
        from
    } else {
        proof {
            lemma_halved(n, from);
        }
        double_spacing(n, 2 * from)
    }
}

/// Twice the divisor, a smaller quotient.
pub proof fn lemma_halved(n: nat, d: nat)
    requires
        d > 0,
        n / d > 0,
    ensures
        n / (2 * d) < n / d,
{
    vstd::arithmetic::div_mod::lemma_div_denominator(n as int, d as int, 2);
    assert(d * 2 == 2 * d);
    assert((n / d) / 2 < n / d);
}

/// The double precision number nearest to `n`.
pub open spec fn nearest_double(n: nat) -> nat {
    let spacing = double_spacing(n, 1);
    nearest_quotient(n, spacing) * spacing
}

/// How many bytes the unit of that index stands for.
pub open spec fn unit_size(unit: nat) -> nat {
    if unit == 0 {
        1
    } else if unit == 1 {
        1024
    } else if unit == 2 {
        1048576
    } else if unit == 3 {
        1073741824
    } else {
        1099511627776
    }
}

/// What is printed behind a number of that unit.
pub open spec fn unit_name(unit: nat) -> Seq<char> {
    if unit == 0 {
        "B"@
    } else if unit == 1 {
        "KiB"@
    } else if unit == 2 {
        "MiB"@
    } else if unit == 3 {
        "GiB"@
    } else {
        "TiB"@
    }
}

/// The largest unit that `size` holds at least one of.
pub open spec fn unit_for(size: nat) -> nat {
    if size < 1024 {
        0
    } else if size < 1048576 {
        1
    } else if size < 1073741824 {
        2
    } else if size < 1099511627776 {
        3
    } else {
        4
    }
}

/// A size as it is printed: whole bytes below a kibibyte, and else one decimal
/// of the largest unit that fits, taken of the double nearest to the count.
pub open spec fn bytes_text(count: u64) -> Seq<char> {
    let size = nearest_double(count as nat);
    let unit = unit_for(size);
    if unit == 0 {
        decimal(count as nat) + " B"@
    } else {
        let tenths = nearest_quotient(10 * size, unit_size(unit));
        decimal(tenths / 10) + "."@ + decimal(tenths % 10) + " "@ + unit_name(unit)
    }
}

/// How long ago `at` was, both times in seconds since the epoch.
pub open spec fn ago_text(now: u64, at: u64) -> Seq<char> {
    let elapsed = (now - at) as nat;
    if at > now {
        "just now"@
    } else if elapsed < 60 {
        "moments ago"@
    } else if elapsed < 3600 {
        decimal(elapsed / 60) + " minutes ago"@
    } else if elapsed < 86400 {
        decimal(elapsed / 3600) + " hours ago"@
    } else {
        decimal(elapsed / 86400) + " days ago"@
    }
}

/// `word` as it stands behind a count.
pub open spec fn plural_text(count: nat, word: Seq<char>) -> Seq<char> {
    if count == 1 {
        word
    } else {
        word + "s"@
    }
}

fn digit_text(digit: u64) -> (r: &'static str)
    requires
        digit < 10,
    ensures
        r@ == seq![digit_char(digit as nat)],
{
    proof {
        reveal_strlit("0");
        reveal_strlit("1");
        reveal_strlit("2");
        reveal_strlit("3");
        reveal_strlit("4");
        reveal_strlit("5");
        reveal_strlit("6");
        reveal_strlit("7");
        reveal_strlit("8");
        reveal_strlit("9");
    }
    match digit {
        0 => "0",
        1 => "1",
        2 => "2",
        3 => "3",
        4 => "4",
        5 => "5",
        6 => "6",
        7 => "7",
        8 => "8",
        _ => "9",
    }
}

/// Writes `n` in decimal.
pub fn number(n: u64) -> (r: String)
    ensures
        r@ == decimal(n as nat),
    decreases n,
{
    if n < 10 {
        String::from_str(digit_text(n))
    } else {
        let mut text = number(n / 10);
        text.append(digit_text(n % 10));
        text
    }
}

/// Moves `text` to the right edge of a column.
pub fn align_right(text: &str, width: usize) -> (r: String)
    ensures
        r@ == right_aligned(text@, width as nat),
{
    let len = text.unicode_len();
    let mut out = String::new();
    let mut at: usize = len;
    while at < width
        invariant
            len <= at,
            at <= width || at == len,
            out@ == blanks((at - len) as nat),
        decreases width - at,
    {
        proof {
            reveal_strlit(" ");
        }
        out.append(" ");
        at = at + 1;
        assert(out@ =~= blanks((at - len) as nat));
    }
    out.append(text);
    assert(blanks(0) + text@ =~= text@);
    out
}

fn round_to_quotient(n: u128, d: u128) -> (r: u128)
    requires
        0 < d,
        2 * d <= u128::MAX,
    ensures
        r == nearest_quotient(n as nat, d as nat),
{
    let q: u128 = n / d;
    let r: u128 = n % d;
    if 2 * r < d || (2 * r == d && q % 2 == 0) {
        q
    } else {
        assert(q + 1 <= u128::MAX) by {
            if q == u128::MAX {
                vstd::arithmetic::div_mod::lemma_fundamental_div_mod(n as int, d as int);
                assert(d > 1) by {
                    if d == 1 {
                        assert(r == 0);
                    }
                }
                assert(d * q >= 2 * q) by (nonlinear_arith)
                    requires
                        d >= 2,
                        q >= 0,
                ;
            }
        }
        q + 1
    }
}

fn to_double(n: u64) -> (r: u128)
    ensures
        r == nearest_double(n as nat),
        r <= 0x2_0000_0000_0000_0000,
{
    let wide: u128 = n as u128;
    let mut spacing: u128 = 1;
    assert(wide / 1 == wide);
    while wide / spacing >= 0x20_0000_0000_0000
        invariant
            wide == n,
            1 <= spacing <= 0x1000,
            wide / spacing < 0x1_0000_0000_0000_0000,
            double_spacing(n as nat, 1) == double_spacing(n as nat, spacing as nat),
            spacing > 1 ==> wide / spacing >= 0x10_0000_0000_0000,
            spacing * 0x10_0000_0000_0000 <= 0x1_0000_0000_0000_0000,
        decreases wide / spacing,
    {
        proof {
            lemma_halved(wide as nat, spacing as nat);
            vstd::arithmetic::div_mod::lemma_div_denominator(wide as int, spacing as int, 2);
            assert(spacing * 2 == 2 * spacing);
            vstd::arithmetic::div_mod::lemma_fundamental_div_mod(wide as int, spacing as int);
            assert(spacing * 0x20_0000_0000_0000 <= wide) by (nonlinear_arith)
                requires
                    wide == spacing * (wide / spacing) + wide % spacing,
                    wide / spacing >= 0x20_0000_0000_0000,
                    wide % spacing >= 0,
                    spacing >= 1,
            ;
        }
        spacing = 2 * spacing;
    }
    let whole = round_to_quotient(wide, spacing);
    assert(whole * spacing <= 0x2_0000_0000_0000_0000) by (nonlinear_arith)
        requires
            0 <= whole <= 0x20_0000_0000_0000,
            1 <= spacing <= 0x1000,
    ;
    whole * spacing
}

/// Writes a size in the largest unit that it holds at least one of.
pub fn bytes(count: u64) -> (r: String)
    ensures
        r@ == bytes_text(count),
{
    let size = to_double(count);
    if size < 1024 {
        let mut text = number(count);
        text.append(" B");
        return text;
    }
    let (scale, name): (u128, &'static str) = if size < 1048576 {
        (1024, "KiB")
    } else if size < 1073741824 {
        (1048576, "MiB")
    } else if size < 1099511627776 {
        (1073741824, "GiB")
    } else {
        (1099511627776, "TiB")
    };
    let tenths = round_to_quotient(10 * size, scale);
    assert(tenths < 0x4000_0000_0000_0000) by {
        assert((10 * size) as nat / scale as nat <= (10 * size) as nat / 1024) by {
            vstd::arithmetic::div_mod::lemma_div_is_ordered_by_denominator(
                10 * size as int,
                1024,
                scale as int,
            );
        }
    }
    let mut text = number((tenths / 10) as u64);
    text.append(".");
    text.append(number((tenths % 10) as u64).as_str());
    text.append(" ");
    text.append(name);
    text
}

/// Says roughly how long ago `at` was, both times in seconds since the epoch.
pub fn ago(now: u64, at: u64) -> (r: String)
    ensures
        r@ == ago_text(now, at),
{
    if at > now {
        return String::from_str("just now");
    }
    let elapsed: u64 = now - at;
    if elapsed < 60 {
        String::from_str("moments ago")
    } else if elapsed < 3600 {
        let mut text = number(elapsed / 60);
        text.append(" minutes ago");
        text
    } else if elapsed < 86400 {
        let mut text = number(elapsed / 3600);
        text.append(" hours ago");
        text
    } else {
        let mut text = number(elapsed / 86400);
        text.append(" days ago");
        text
    }
}

/// `word` as it stands behind a count.
pub fn plural(count: usize, word: &str) -> (r: String)
    ensures
        r@ == plural_text(count as nat, word@),
{
    let mut text = String::from_str(word);
    if count != 1 {
        text.append("s");
    }
    text
}

/// The characters of the Unicode property `White_Space`.
pub open spec fn is_white_space(c: char) -> bool {
    let code = c as u32;
    ||| 0x9 <= code <= 0xd
    ||| code == 0x20
    ||| code == 0x85
    ||| code == 0xa0
    ||| code == 0x1680
    ||| 0x2000 <= code <= 0x200a
    ||| code == 0x2028
    ||| code == 0x2029
    ||| code == 0x202f
    ||| code == 0x205f
    ||| code == 0x3000
}

/// `text` without the white space that it starts with.
pub open spec fn trimmed_front(text: Seq<char>) -> Seq<char>
    decreases text.len(),
{
    if text.len() > 0 && is_white_space(text[0]) {
        trimmed_front(text.drop_first())
    } else {
        text
    }
}

/// `text` without the white space that it ends with.
pub open spec fn trimmed_back(text: Seq<char>) -> Seq<char>
    decreases text.len(),
{
    if text.len() > 0 && is_white_space(text.last()) {
        trimmed_back(text.drop_last())
    } else {
        text
    }
}

fn is_blank(c: char) -> (r: bool)
    ensures
        r == is_white_space(c),
{
    let code = c as u32;
    (0x9 <= code && code <= 0xd) || code == 0x20 || code == 0x85 || code == 0xa0 || code == 0x1680
        || (0x2000 <= code && code <= 0x200a) || code == 0x2028 || code == 0x2029 || code == 0x202f
        || code == 0x205f || code == 0x3000
}

/// The text without the white space at either end.
pub fn trim(text: &str) -> (r: String)
    ensures
        r@ == trimmed_back(trimmed_front(text@)),
{
    let mut from: usize = 0;
    let mut to: usize = text.unicode_len();
    assert(text@.skip(0) =~= text@);
    while from < to && is_blank(text.get_char(from))
        invariant
            from <= to,
            to == text@.len(),
            trimmed_front(text@) == trimmed_front(text@.skip(from as int)),
        decreases to - from,
    {
        assert(text@.skip(from as int).drop_first() =~= text@.skip(from + 1));
        from = from + 1;
    }
    let ghost rest = text@.skip(from as int);
    assert(trimmed_front(text@) == rest);
    assert(text@.subrange(from as int, to as int) =~= rest);
    while from < to && is_blank(text.get_char(to - 1))
        invariant
            from <= to <= text@.len(),
            trimmed_back(rest) == trimmed_back(text@.subrange(from as int, to as int)),
        decreases to,
    {
        assert(text@.subrange(from as int, to as int).drop_last() =~= text@.subrange(
            from as int,
            to - 1,
        ));
        to = to - 1;
    }
    String::from_str(text.substring_char(from, to))
}

} // verus!
