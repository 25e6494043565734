//! What holds of every figure.

use vstd::arithmetic::div_mod::lemma_fundamental_div_mod;
use vstd::prelude::*;
use vstd::string::*;

use crate::figures;
use crate::figures::Unit;
use crate::numbers;
use crate::progress::Duration;

verus! {

/// How far two numbers are apart.
pub open spec fn distance(left: nat, right: nat) -> nat {
    if left >= right {
        (left - right) as nat
    } else {
        (right - left) as nat
    }
}

/// Of `parts` equal parts of a total as many are full as are wholly covered, and all of them
/// once the total is reached.
pub proof fn a_share_counts_the_full_parts(downloaded: nat, total: nat, parts: nat)
    requires
        total > 0,
    ensures
        ({
            let count = figures::share(downloaded, total, parts);
            &&& downloaded <= total ==> count * total <= downloaded * parts < (count + 1) * total
            &&& downloaded >= total ==> count == parts
        }),
{
    let product = downloaded * parts;
    let quotient = product / total;
    let rest = product % total;
    lemma_fundamental_div_mod(product as int, total as int);
    assert(quotient * total <= product < (quotient + 1) * total) by (nonlinear_arith)
        requires
            product == total * quotient + rest,
            0 <= rest < total,
    ;
    if downloaded <= total {
        assert(quotient <= parts) by (nonlinear_arith)
            requires
                quotient * total <= downloaded * parts,
                downloaded <= total,
                total > 0,
        ;
    }
    if downloaded >= total {
        assert(quotient >= parts) by (nonlinear_arith)
            requires
                downloaded * parts < (quotient + 1) * total,
                downloaded >= total,
                total > 0,
        ;
    }
}

/// The count is that of the full ones of `parts` equal parts of `total`, with `downloaded` in
/// it.
pub open spec fn covers(count: nat, downloaded: nat, total: nat, parts: nat) -> bool {
    if downloaded <= total {
        count * total <= downloaded * parts < (count + 1) * total
    } else {
        count == parts
    }
}

/// A share in percent is a whole number, rounded down, with its sign behind it, and at most a
/// hundred; without a total, or with one of nothing, there is none.
pub proof fn a_percentage_is_the_share_rounded_down(downloaded: u64, total: Option<u64>)
    ensures
        ({
            let written = figures::percentage_text(downloaded, total);
            if total is None || total == Some(0u64) {
                written == seq!['N', '/', 'A']
            } else {
                let digits = written.drop_last();
                &&& written.len() > 1
                &&& written.last() == '%'
                &&& numbers::all_digits(digits)
                &&& covers(numbers::digits_value(digits), downloaded as nat, total->0 as nat, 100)
                &&& numbers::digits_value(digits) <= 100
            }
        }),
{
    reveal_strlit("N/A");
    reveal_strlit("%");
    let written = figures::percentage_text(downloaded, total);
    if total is None || total == Some(0u64) {
        assert(written =~= seq!['N', '/', 'A']);
    } else {
        let whole = total->0 as nat;
        let count = figures::share(downloaded as nat, whole, 100);
        a_share_counts_the_full_parts(downloaded as nat, whole, 100);
        numbers::decimal_writes_its_value(count);
        assert(written.drop_last() =~= numbers::decimal(count));
        lemma_covered_parts_are_bounded(count, downloaded as nat, whole, 100);
    }
}

/// No more parts are covered than there are.
proof fn lemma_covered_parts_are_bounded(count: nat, downloaded: nat, total: nat, parts: nat)
    requires
        covers(count, downloaded, total, parts),
        total > 0,
    ensures
        count <= parts,
{
    if downloaded <= total {
        assert(count <= parts) by (nonlinear_arith)
            requires
                count * total <= downloaded * parts,
                downloaded <= total,
                total > 0,
        ;
    }
}

/// The first `count` of twenty cells are full, and the others are empty.
pub open spec fn is_bar(bar: Seq<char>, count: nat) -> bool {
    &&& bar.len() == 20
    &&& count <= 20
    &&& forall|i: int|
        0 <= i < 20 ==> #[trigger] bar[i] == (if i < count {
            '█'
        } else {
            '░'
        })
}

/// A bar has twenty cells: first the full ones, as many as are wholly covered, and then the
/// empty ones. Without a total, or with one of nothing, all are empty.
pub proof fn a_bar_is_full_up_to_the_share(downloaded: u64, total: Option<u64>)
    ensures
        exists|count: nat| #[trigger]
            is_bar(figures::bar_text(downloaded, total), count) && if total is None || total
                == Some(0u64) {
                count == 0
            } else {
                covers(count, downloaded as nat, total->0 as nat, 20)
            },
{
    let count = figures::filled_cells(downloaded, total);
    if !(total is None || total == Some(0u64)) {
        let whole = total->0 as nat;
        a_share_counts_the_full_parts(downloaded as nat, whole, 20);
        lemma_covered_parts_are_bounded(count, downloaded as nat, whole, 20);
    }
    assert(is_bar(figures::bar_text(downloaded, total), count));
}

/// Rounding gives a nearest whole number, and the even one of two that are as near.
pub proof fn rounding_is_to_the_nearest(number: nat, divisor: nat)
    requires
        divisor > 0,
    ensures
        ({
            let rounded = figures::half_even(number, divisor);
            &&& 2 * distance(number, rounded * divisor) <= divisor
            &&& 2 * distance(number, rounded * divisor) == divisor ==> rounded % 2 == 0
        }),
{
    let quotient = number / divisor;
    let rest = number % divisor;
    lemma_fundamental_div_mod(number as int, divisor as int);
    assert(number == quotient * divisor + rest) by (nonlinear_arith)
        requires
            number == divisor * quotient + rest,
    ;
    assert((quotient + 1) * divisor == quotient * divisor + divisor) by (nonlinear_arith);
}

/// Double precision holds a number below the limit as it is, and any other one as the nearest
/// multiple of a power of two that leaves no more than fifty-three bits.
pub proof fn double_precision_keeps_the_first_bits(number: nat)
    ensures
        ({
            let held = figures::nearest_double(number);
            let step = figures::double_step(number);
            &&& number < 9_007_199_254_740_992 ==> held == number
            &&& is_power_of_two(step)
            &&& number < 9_007_199_254_740_992 * step
            &&& step > 1 ==> 9_007_199_254_740_992 * step <= 2 * number
            &&& 2 * distance(number, held) <= step
            &&& held % step == 0
        }),
{
    let step = figures::double_step(number);
    lemma_step(number);
    rounding_is_to_the_nearest(number, step);
    let count = figures::half_even(number, step);
    vstd::arithmetic::div_mod::lemma_mod_multiples_basic(count as int, step as int);
    if number < 9_007_199_254_740_992 {
        assert(step == 1);
        assert(count * 1 == count);
    }
}

/// The number is a power of two.
pub open spec fn is_power_of_two(number: nat) -> bool
    decreases number,
{
    number == 1 || (number > 1 && number % 2 == 0 && is_power_of_two(number / 2))
}

/// The step is the least power of two that leaves no more than fifty-three bits.
proof fn lemma_step(number: nat)
    ensures
        ({
            let step = figures::double_step(number);
            &&& step >= 1
            &&& is_power_of_two(step)
            &&& number < 9_007_199_254_740_992 * step
            &&& step > 1 ==> 9_007_199_254_740_992 * step <= 2 * number
            &&& number < 9_007_199_254_740_992 ==> step == 1
        }),
    decreases number,
{
    if number >= 9_007_199_254_740_992 {
        lemma_step(number / 2);
        let half = figures::double_step(number / 2);
        assert(figures::double_step(number) == 2 * half);
        assert((2 * half) / 2 == half);
        assert(is_power_of_two(2 * half));
    }
}

/// The text is a number of tenths: the whole ones in decimal, a point, and one digit.
pub open spec fn is_in_tenths(written: Seq<char>, count: nat) -> bool {
    &&& written.len() >= 3
    &&& written[written.len() - 2] == '.'
    &&& numbers::all_digits(written.take(written.len() - 2))
    &&& numbers::is_digit(written.last())
    &&& numbers::digits_value(written.take(written.len() - 2).push(written.last())) == count
}

/// A number in tenths is written as that.
proof fn lemma_tenths_are_written(count: nat)
    ensures
        is_in_tenths(
            numbers::decimal(count / 10) + "."@ + numbers::decimal(count % 10),
            count,
        ),
{
    reveal_strlit(".");
    let whole = numbers::decimal(count / 10);
    let rest = numbers::decimal(count % 10);
    let written = whole + "."@ + rest;
    numbers::decimal_writes_its_value(count / 10);
    numbers::decimal_writes_its_value(count % 10);
    assert(rest.len() == 1);
    assert(rest.drop_last() =~= seq![]);
    assert(numbers::digits_value(rest.drop_last()) == 0);
    assert(written.take(written.len() - 2) =~= whole);
    let all = whole.push(rest[0]);
    assert(all.drop_last() =~= whole);
    assert(numbers::digits_value(all) == (count / 10) * 10 + (count % 10));
}

/// The size of each unit is 1024 times that of the one before.
pub proof fn units_are_1024_times_apart()
    ensures
        Unit::Byte.size() == 1,
        Unit::Kibibyte.size() == 1024 * Unit::Byte.size(),
        Unit::Mebibyte.size() == 1024 * Unit::Kibibyte.size(),
        Unit::Gibibyte.size() == 1024 * Unit::Mebibyte.size(),
        Unit::Byte.sign() == seq!['B'],
        Unit::Kibibyte.sign() == seq!['K', 'i', 'B'],
        Unit::Mebibyte.sign() == seq!['M', 'i', 'B'],
        Unit::Gibibyte.sign() == seq!['G', 'i', 'B'],
{
    reveal_strlit("B");
    reveal_strlit("KiB");
    reveal_strlit("MiB");
    reveal_strlit("GiB");
    assert(Unit::Byte.sign() =~= seq!['B']);
    assert(Unit::Kibibyte.sign() =~= seq!['K', 'i', 'B']);
    assert(Unit::Mebibyte.sign() =~= seq!['M', 'i', 'B']);
    assert(Unit::Gibibyte.sign() =~= seq!['G', 'i', 'B']);
}

/// The unit of a size is the largest one that is not larger than the size.
pub proof fn the_unit_is_the_largest_that_fits(bytes: nat, other: Unit)
    ensures
        ({
            let unit = figures::unit_of(bytes);
            &&& unit == Unit::Byte || unit.size() <= bytes
            &&& other.size() <= bytes ==> other.size() <= unit.size()
        }),
{
}

/// The text is this number of bytes in tenths of the unit, to the nearest tenth of what double
/// precision holds.
pub open spec fn is_measured(written: Seq<char>, bytes: nat, unit: Unit) -> bool {
    exists|count: nat| #[trigger]
        is_in_tenths(written, count) && 2 * distance(
            10 * figures::nearest_double(bytes),
            count * unit.size(),
        ) <= unit.size()
}

/// A quotient is written to the nearest tenth.
proof fn lemma_quotient_is_measured(bytes: nat, unit: Unit)
    ensures
        is_measured(figures::quotient_text(bytes, unit.size()), bytes, unit),
{
    let held = figures::nearest_double(bytes);
    let count = figures::tenths(bytes, unit.size());
    lemma_tenths_are_written(count);
    rounding_is_to_the_nearest(held * 10, unit.size());
    assert(is_in_tenths(figures::quotient_text(bytes, unit.size()), count));
}

/// The text is this number of bytes: in tenths of the unit that fits, to the nearest tenth, and
/// below a kibibyte as a whole number.
pub open spec fn is_amount(written: Seq<char>, bytes: nat) -> bool {
    if bytes < 1024 {
        written == numbers::decimal(bytes)
    } else {
        is_measured(written, bytes, figures::unit_of(bytes))
    }
}

/// A size is written in its unit, behind a space.
pub proof fn a_size_is_written_to_the_nearest_tenth(bytes: nat)
    ensures
        exists|value: Seq<char>| #[trigger]
            is_amount(value, bytes) && figures::size_text(bytes) == value + seq![' ']
                + figures::unit_of(bytes).sign(),
{
    reveal_strlit(" ");
    let unit = figures::unit_of(bytes);
    let value = if bytes < 1024 {
        numbers::decimal(bytes)
    } else {
        figures::quotient_text(bytes, unit.size())
    };
    lemma_quotient_is_measured(bytes, unit);
    assert(" "@ =~= seq![' ']);
    assert(is_amount(value, bytes));
}

/// A speed is written in its unit, with the unit of time behind it.
pub proof fn a_speed_is_written_to_the_nearest_tenth(bytes: nat)
    ensures
        exists|value: Seq<char>| #[trigger]
            is_amount(value, bytes) && figures::speed_text(bytes) == value + figures::unit_of(
                bytes,
            ).sign() + seq!['/', 's'],
{
    reveal_strlit("/s");
    let unit = figures::unit_of(bytes);
    let value = if bytes < 1024 {
        numbers::decimal(bytes)
    } else {
        figures::quotient_text(bytes, unit.size())
    };
    lemma_quotient_is_measured(bytes, unit);
    assert("/s"@ =~= seq!['/', 's']);
    assert(is_amount(value, bytes));
}

/// Two sizes are written in the unit of the larger one, which stands behind both.
pub proof fn a_transfer_is_written_in_one_unit(downloaded: nat, total: nat)
    ensures
        exists|unit: Unit, left: Seq<char>, right: Seq<char>|
            (unit == figures::unit_of(downloaded) || unit == figures::unit_of(total))
                && unit.size() >= figures::unit_of(downloaded).size() && unit.size()
                >= figures::unit_of(total).size() && #[trigger] is_measured(left, downloaded, unit)
                && #[trigger] is_measured(right, total, unit) && figures::transfer_text(
                downloaded,
                total,
            ) == left + seq![' ', '/', ' '] + right + seq![' '] + unit.sign(),
{
    reveal_strlit(" / ");
    reveal_strlit(" ");
    let unit = figures::unit_of(
        if downloaded > total {
            downloaded
        } else {
            total
        },
    );
    let left = figures::quotient_text(downloaded, unit.size());
    let right = figures::quotient_text(total, unit.size());
    lemma_quotient_is_measured(downloaded, unit);
    lemma_quotient_is_measured(total, unit);
    assert(" / "@ =~= seq![' ', '/', ' ']);
    assert(" "@ =~= seq![' ']);
    assert(is_measured(left, downloaded, unit) && is_measured(right, total, unit));
}

/// The text is this number in decimal, with a zero before it where it has one digit.
pub open spec fn is_two_digits(written: Seq<char>, number: nat) -> bool {
    &&& numbers::all_digits(written)
    &&& numbers::digits_value(written) == number
    &&& written.len() >= 2
    &&& number < 100 ==> written.len() == 2
}

/// A number with at least two digits is written as that.
proof fn lemma_two_digits(number: nat)
    ensures
        is_two_digits(figures::two_digits(number), number),
{
    reveal_strlit("0");
    let written = figures::two_digits(number);
    numbers::decimal_writes_its_value(number);
    reveal_with_fuel(numbers::decimal, 3);
    if number < 10 {
        assert(written =~= seq!['0', numbers::digit(number)]);
        assert(written.drop_last() =~= seq!['0']);
        assert(written.drop_last().drop_last() =~= seq![]);
        reveal_with_fuel(numbers::digits_value, 3);
    } else if number < 100 {
        assert(numbers::decimal(number / 10).len() == 1);
    } else {
        assert(numbers::decimal(number / 10).len() >= 1);
    }
}

/// A span of time is written as minutes and seconds, both below sixty and with two digits, and
/// with the hours before them from one hour on. Together they are the span.
pub proof fn a_span_is_written_in_hours_minutes_and_seconds(seconds: nat)
    ensures
        ({
            let written = figures::duration_text(seconds);
            exists|hours: nat, minutes: nat, rest: nat, h: Seq<char>, m: Seq<char>, s: Seq<char>|
                hours * 3600 + minutes * 60 + rest == seconds && minutes < 60 && rest < 60
                    && #[trigger] is_two_digits(h, hours) && #[trigger] is_two_digits(m, minutes)
                    && #[trigger] is_two_digits(s, rest) && written == (if hours == 0 {
                    m + seq![':'] + s
                } else {
                    h + seq![':'] + (m + seq![':'] + s)
                })
        }),
{
    reveal_strlit(":");
    let hours = seconds / 3600;
    let minutes = seconds % 3600 / 60;
    let rest = seconds % 60;
    lemma_two_digits(hours);
    lemma_two_digits(minutes);
    lemma_two_digits(rest);
    assert(":"@ =~= seq![':']);
    let h = figures::two_digits(hours);
    let m = figures::two_digits(minutes);
    let s = figures::two_digits(rest);
    assert(hours * 3600 + minutes * 60 + rest == seconds);
    assert(is_two_digits(h, hours) && is_two_digits(m, minutes) && is_two_digits(s, rest));
}

/// The fraction of a second of a span is not shown.
pub proof fn a_span_is_written_in_whole_seconds(span: Duration, written: String)
    requires
        call_ensures(figures::format_duration, (span,), written),
    ensures
        written@ == figures::duration_text(span.secs as nat),
{
}

/// Aligned text takes its column, unless it is longer than that: it stands at the right end, or
/// in the middle with at most one more space behind it than before it, and all else are spaces.
pub proof fn aligned_text_takes_its_column(field: Seq<char>, length: nat)
    ensures
        field.len() >= length ==> figures::right_aligned(field, length) == field
            && figures::centered(field, length) == field,
        field.len() < length ==> {
            let right = figures::right_aligned(field, length);
            let middle = figures::centered(field, length);
            let before = (length - field.len()) as int;
            let half = before / 2;
            &&& right.len() == length
            &&& right.skip(before) == field
            &&& forall|i: int| 0 <= i < before ==> #[trigger] right[i] == ' '
            &&& middle.len() == length
            &&& middle.subrange(half, half + field.len()) == field
            &&& forall|i: int|
                0 <= i < length && !(half <= i < half + field.len()) ==> #[trigger] middle[i]
                    == ' '
        },
{
    if field.len() < length {
        let right = figures::right_aligned(field, length);
        let middle = figures::centered(field, length);
        let before = (length - field.len()) as int;
        let half = before / 2;
        assert(right.skip(before) =~= field);
        assert(middle.subrange(half, half + field.len()) =~= field);
    }
}

} // verus!
