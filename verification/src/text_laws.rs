//! What numbers, sizes and ages say when they are read back.

use crate::text::{
    ago_text, bytes_text, decimal, digit_char, double_spacing, is_white_space, lemma_halved,
    nearest_double, nearest_quotient, plural_text, right_aligned, trimmed_back, trimmed_front,
};
use vstd::arithmetic::div_mod::{lemma_fundamental_div_mod, lemma_fundamental_div_mod_converse};
use vstd::arithmetic::power2::{lemma_pow2_pos, lemma_pow2_unfold, pow2};
use vstd::prelude::*;

verus! {

/// A numeral is made of digits, says the number when its digits are read from
/// the left, and starts with a zero only where it is all of it.
pub proof fn law_a_numeral_says_its_number(n: nat)
    ensures
        decimal(n).fold_left(0int, |sum: int, c: char| 10 * sum + (c as int - 48)) == n,
        forall|i: int| 0 <= i < decimal(n).len() ==> '0' <= #[trigger] decimal(n)[i] <= '9',
        decimal(n).len() > 0,
        decimal(n).len() > 1 ==> decimal(n)[0] != '0',
        n > 0 ==> decimal(n)[0] != '0',
    decreases n,
{
    let read = |sum: int, c: char| 10 * sum + (c as int - 48);
    let text = decimal(n);
    if n < 10 {
        assert(text.drop_last() =~= Seq::empty());
        assert(text.last() == digit_char(n));
        reveal_with_fuel(Seq::fold_left, 2);
    } else {
        law_a_numeral_says_its_number(n / 10);
        assert(text.drop_last() =~= decimal(n / 10));
        assert(text.last() == digit_char(n % 10));
        assert(text[0] == decimal(n / 10)[0]);
        reveal_with_fuel(Seq::fold_left, 2);
        assert forall|i: int| 0 <= i < text.len() implies '0' <= #[trigger] text[i] <= '9' by {
            if i < text.len() - 1 {
                assert(text[i] == decimal(n / 10)[i]);
            }
        }
    }
}

/// A text in a column ends at the right edge, stands whole, and has nothing but
/// blanks before it; it is wider than the column only if the text itself is.
pub proof fn law_a_column_ends_at_its_edge(text: Seq<char>, width: nat)
    ensures
        ({
            let r = right_aligned(text, width);
            &&& r.len() == if text.len() > width {
                text.len()
            } else {
                width
            }
            &&& r.skip(r.len() - text.len()) == text
            &&& forall|i: int| 0 <= i < r.len() - text.len() ==> #[trigger] r[i] == ' '
        }),
{
    let r = right_aligned(text, width);
    assert(r.skip(r.len() - text.len()) =~= text);
}

/// No whole number is nearer, and of two that are as near it is the even one.
pub proof fn law_nearest_is_nearest(n: nat, d: nat)
    requires
        d > 0,
    ensures
        ({
            let q = nearest_quotient(n, d);
            &&& -(d as int) <= 2 * (n - q * d) <= d
            &&& (2 * (n - q * d) == d || 2 * (n - q * d) == -(d as int)) ==> q % 2 == 0
        }),
{
    let q = n / d;
    lemma_fundamental_div_mod(n as int, d as int);
    assert((q + 1) * d == q * d + d) by (nonlinear_arith);
    assert(d * q == q * d) by (nonlinear_arith);
}

proof fn lemma_spacing(n: nat, from: nat, e: nat)
    requires
        from == pow2(e),
        from > 1 ==> n >= 0x10_0000_0000_0000 * from,
    ensures
        exists|k: nat| double_spacing(n, from) == #[trigger] pow2(k),
        n / double_spacing(n, from) < 0x20_0000_0000_0000,
        double_spacing(n, from) > 1 ==> n >= 0x10_0000_0000_0000 * double_spacing(n, from),
        double_spacing(n, from) > 0,
    decreases n / from,
{
    lemma_pow2_pos(e);
    lemma_fundamental_div_mod(n as int, from as int);
    if n / from < 0x20_0000_0000_0000 {
        assert(double_spacing(n, from) == pow2(e));
    } else {
        lemma_halved(n, from);
        lemma_pow2_unfold(e + 1);
        assert(from * (n / from) >= from * 0x20_0000_0000_0000) by (nonlinear_arith)
            requires
                n / from >= 0x20_0000_0000_0000,
        ;
        lemma_spacing(n, 2 * from, e + 1);
    }
}

/// The double nearest to a number has a significand of no more than fifty-three
/// bits, and no double is nearer; of two that are as near it is the one with the
/// even significand. It is off by no more than one part in two to the
/// fifty-third, and a number that is below that is kept.
pub proof fn law_a_double_is_near(n: nat)
    ensures
        exists|e: nat|
            {
                &&& nearest_double(n) % #[trigger] pow2(e) == 0
                &&& nearest_double(n) / pow2(e) <= 0x20_0000_0000_0000
                &&& e > 0 ==> n >= 0x10_0000_0000_0000 * pow2(e)
                &&& -(pow2(e) as int) <= 2 * (n - nearest_double(n)) <= pow2(e)
                &&& (2 * (n - nearest_double(n)) == pow2(e) || 2 * (n - nearest_double(n)) == -(
                pow2(e) as int)) ==> (nearest_double(n) / pow2(e)) % 2 == 0
            },
        -(n as int) <= 0x20_0000_0000_0000 * (nearest_double(n) - n) <= n,
        n < 0x20_0000_0000_0000 ==> nearest_double(n) == n,
{
    vstd::arithmetic::power2::lemma2_to64();
    lemma_spacing(n, 1, 0);
    let d = double_spacing(n, 1);
    let k = choose|k: nat| d == #[trigger] pow2(k);
    let m = nearest_quotient(n, d);
    law_nearest_is_nearest(n, d);
    lemma_fundamental_div_mod_converse((m * d) as int, d as int, m as int, 0);
    if k > 0 {
        lemma_pow2_unfold(k);
        lemma_pow2_pos((k - 1) as nat);
    }
    assert(nearest_double(n) / pow2(k) == m);
    assert(nearest_double(n) % pow2(k) == 0);
    if d == 1 {
        assert(n / 1 == n && n % 1 == 0);
        assert(m == n);
        assert(n * 1 == n);
    } else {
        if n < 0x20_0000_0000_0000 {
            assert(n / 1 == n);
            assert(d == 1);
        }
    }
}

/// What is printed of a size of at least one of a unit: one decimal, the nearest
/// one, and the even one of two that are as near.
pub open spec fn is_in_units(text: Seq<char>, size: nat, unit: nat, name: Seq<char>) -> bool {
    exists|tenths: nat|
        {
            &&& text == #[trigger] decimal(tenths / 10) + "."@ + decimal(tenths % 10) + " "@ + name
            &&& -(unit as int) <= 2 * (10 * size - tenths * unit) <= unit
            &&& (2 * (10 * size - tenths * unit) == unit || 2 * (10 * size - tenths * unit) == -(
            unit as int)) ==> tenths % 2 == 0
        }
}

/// Below a kibibyte a size is printed as its bytes. From there on it is printed
/// in the largest unit that it holds at least one of, to the nearest tenth of
/// it; above the tebibytes there is no unit.
pub proof fn law_a_size_is_printed_to_the_nearest_tenth(count: u64)
    ensures
        ({
            let text = bytes_text(count);
            let size = nearest_double(count as nat);
            if count < 1024 {
                text == decimal(count as nat) + " B"@
            } else if count < 1024 * 1024 {
                is_in_units(text, size, 1024, "KiB"@)
            } else if count < 1024 * 1024 * 1024 {
                is_in_units(text, size, 1024 * 1024, "MiB"@)
            } else if count < 1024 * 1024 * 1024 * 1024 {
                is_in_units(text, size, 1024 * 1024 * 1024, "GiB"@)
            } else {
                is_in_units(text, size, 1024 * 1024 * 1024 * 1024, "TiB"@)
            }
        }),
        count < 0x20_0000_0000_0000 ==> nearest_double(count as nat) == count,
{
    let size = nearest_double(count as nat);
    law_a_double_is_near(count as nat);
    if count >= 1024 {
        let unit: nat = if count < 1048576 {
            1024
        } else if count < 1073741824 {
            1048576
        } else if count < 1099511627776 {
            1073741824
        } else {
            1099511627776
        };
        let tenths = nearest_quotient(10 * size, unit);
        law_nearest_is_nearest(10 * size, unit);
        assert(bytes_text(count) == decimal(tenths / 10) + "."@ + decimal(tenths % 10) + " "@ + (
        if unit == 1024 {
            "KiB"@
        } else if unit == 1048576 {
            "MiB"@
        } else if unit == 1073741824 {
            "GiB"@
        } else {
            "TiB"@
        }));
    }
}

/// An age is given in whole minutes, hours or days that have passed, in the
/// largest of these of which one has; a time to come is just now.
pub proof fn law_an_age_is_what_has_passed(now: u64, at: u64)
    ensures
        ({
            let text = ago_text(now, at);
            let passed = now - at;
            if passed < 0 {
                text == "just now"@
            } else if passed < 60 {
                text == "moments ago"@
            } else if passed < 60 * 60 {
                exists|n: nat| #[trigger]
                    decimal(n) + " minutes ago"@ == text && 60 * n <= passed < 60 * (n + 1)
            } else if passed < 24 * 60 * 60 {
                exists|n: nat| #[trigger]
                    decimal(n) + " hours ago"@ == text && 3600 * n <= passed < 3600 * (n + 1)
            } else {
                exists|n: nat| #[trigger]
                    decimal(n) + " days ago"@ == text && 86400 * n <= passed < 86400 * (n + 1)
            }
        }),
{
    if at <= now {
        let passed = (now - at) as nat;
        let text = ago_text(now, at);
        if 60 <= passed < 3600 {
            assert(decimal(passed / 60) + " minutes ago"@ == text);
        } else if 3600 <= passed < 86400 {
            assert(decimal(passed / 3600) + " hours ago"@ == text);
        } else if passed >= 86400 {
            assert(decimal(passed / 86400) + " days ago"@ == text);
        }
    }
}

/// A word behind a count gets an `s`, unless the count is one.
pub proof fn law_one_is_not_plural(count: nat, word: Seq<char>)
    ensures
        plural_text(count, word) == word <==> count == 1,
        count != 1 ==> plural_text(count, word) == word.push('s'),
{
    reveal_strlit("s");
    assert("s"@ =~= seq!['s']);
    assert(word + "s"@ =~= word.push('s'));
    assert(word.push('s').len() == word.len() + 1);
}

/// The characters that are white space.
pub proof fn law_white_space(c: char)
    ensures
        is_white_space(c) <==> seq![
            0x9u32, 0xau32, 0xbu32, 0xcu32, 0xdu32, 0x20u32, 0x85u32, 0xa0u32, 0x1680u32, 0x2000u32,
            0x2001u32, 0x2002u32, 0x2003u32, 0x2004u32, 0x2005u32, 0x2006u32, 0x2007u32, 0x2008u32,
            0x2009u32, 0x200au32, 0x2028u32, 0x2029u32, 0x202fu32, 0x205fu32, 0x3000u32,
        ].contains(c as u32),
{
    let all = seq![
        0x9u32, 0xau32, 0xbu32, 0xcu32, 0xdu32, 0x20u32, 0x85u32, 0xa0u32, 0x1680u32, 0x2000u32,
        0x2001u32, 0x2002u32, 0x2003u32, 0x2004u32, 0x2005u32, 0x2006u32, 0x2007u32, 0x2008u32,
        0x2009u32, 0x200au32, 0x2028u32, 0x2029u32, 0x202fu32, 0x205fu32, 0x3000u32,
    ];
    let code = c as u32;
    if is_white_space(c) {
        let i: int = if code <= 0xd {
            code - 0x9
        } else if code == 0x20 {
            5
        } else if code == 0x85 {
            6
        } else if code == 0xa0 {
            7
        } else if code == 0x1680 {
            8
        } else if code <= 0x200a {
            code - 0x2000 + 9
        } else if code == 0x2028 {
            20
        } else if code == 0x2029 {
            21
        } else if code == 0x202f {
            22
        } else if code == 0x205f {
            23
        } else {
            24
        };
        assert(all[i] == code);
    }
}

proof fn lemma_trimmed_front(text: Seq<char>)
    ensures
        ({
            let r = trimmed_front(text);
            &&& r.len() <= text.len()
            &&& r == text.skip(text.len() - r.len())
            &&& r.len() > 0 ==> !is_white_space(r[0])
            &&& forall|i: int| 0 <= i < text.len() - r.len() ==> is_white_space(#[trigger] text[i])
        }),
    decreases text.len(),
{
    if text.len() > 0 && is_white_space(text[0]) {
        let rest = text.drop_first();
        lemma_trimmed_front(rest);
        let r = trimmed_front(rest);
        assert(rest.skip(rest.len() - r.len()) =~= text.skip(text.len() - r.len()));
        assert forall|i: int| 0 <= i < text.len() - r.len() implies is_white_space(
            #[trigger] text[i],
        ) by {
            if i > 0 {
                assert(rest[i - 1] == text[i]);
            }
        }
    } else {
        assert(text.skip(0) =~= text);
    }
}

proof fn lemma_trimmed_back(text: Seq<char>)
    ensures
        ({
            let r = trimmed_back(text);
            &&& r.len() <= text.len()
            &&& r == text.take(r.len() as int)
            &&& r.len() > 0 ==> !is_white_space(r.last())
            &&& forall|i: int| r.len() <= i < text.len() ==> is_white_space(#[trigger] text[i])
        }),
    decreases text.len(),
{
    if text.len() > 0 && is_white_space(text.last()) {
        let rest = text.drop_last();
        lemma_trimmed_back(rest);
        let r = trimmed_back(rest);
        assert(rest.take(r.len() as int) =~= text.take(r.len() as int));
        assert forall|i: int| r.len() <= i < text.len() implies is_white_space(
            #[trigger] text[i],
        ) by {
            if i < rest.len() {
                assert(rest[i] == text[i]);
            }
        }
    } else {
        assert(text.take(text.len() as int) =~= text);
    }
}

/// A trimmed text is a part of the text, with nothing but white space before and
/// behind it, and with none at its own ends.
pub proof fn law_what_is_trimmed(text: Seq<char>)
    ensures
        ({
            let r = trimmed_back(trimmed_front(text));
            &&& exists|a: int| #![trigger text.subrange(a, a + r.len())]
                {
                    &&& 0 <= a <= a + r.len() <= text.len()
                    &&& r == text.subrange(a, a + r.len())
                    &&& forall|i: int| 0 <= i < a ==> is_white_space(#[trigger] text[i])
                    &&& forall|i: int|
                        a + r.len() <= i < text.len() ==> is_white_space(#[trigger] text[i])
                }
            &&& r.len() > 0 ==> !is_white_space(r[0]) && !is_white_space(r.last())
        }),
{
    let front = trimmed_front(text);
    let r = trimmed_back(front);
    lemma_trimmed_front(text);
    lemma_trimmed_back(front);
    let a = text.len() - front.len();
    assert(r =~= text.subrange(a, a + r.len()));
    assert forall|i: int| a + r.len() <= i < text.len() implies is_white_space(
        #[trigger] text[i],
    ) by {
        assert(front[i - a] == text[i]);
    }
    if r.len() > 0 {
        assert(r[0] == front[0]);
    }
}

} // verus!
