//! Sizes, speeds, spans of time and shares as text.

use vstd::prelude::*;
use vstd::string::*;

use crate::numbers;
use crate::numbers::write_decimal;
use crate::progress::Duration;
use crate::text;
use crate::text::repeat;

verus! {

/// The bytes of a kibibyte.
pub const KIB: u64 = 1024;

/// The bytes of a mebibyte.
pub const MIB: u64 = 1_048_576;

/// The bytes of a gibibyte.
pub const GIB: u64 = 1_073_741_824;

/// The numbers below this one are all held exactly with double precision.
pub const DOUBLE_LIMIT: u64 = 9_007_199_254_740_992;

/// What stands where nothing is known.
pub const UNAVAILABLE: &'static str = "N/A";

/// `number` divided by `divisor`, rounded to the nearest whole number, and to the even one of
/// two that are as near.
pub open spec fn half_even(number: nat, divisor: nat) -> nat {
    let quotient = number / divisor;
    let rest = number % divisor;
    if 2 * rest > divisor || (2 * rest == divisor && quotient % 2 == 1) {
        quotient + 1
    } else {
        quotient
    }
}

/// How far two neighbouring numbers of the size of `number` are apart with double precision.
pub open spec fn double_step(number: nat) -> nat
    decreases number,
{
    if number < DOUBLE_LIMIT {
        1
    } else {
        2 * double_step(number / 2)
    }
}

/// `number` as it is held with double precision.
pub open spec fn nearest_double(number: nat) -> nat {
    half_even(number, double_step(number)) * double_step(number)
}

/// The tenths in `number` divided by `divisor`, with double precision.
pub open spec fn tenths(number: nat, divisor: nat) -> nat {
    half_even(nearest_double(number) * 10, divisor)
}

/// `number` divided by `divisor`, with one decimal place.
pub open spec fn quotient_text(number: nat, divisor: nat) -> Seq<char> {
    numbers::decimal(tenths(number, divisor) / 10) + "."@ + numbers::decimal(
        tenths(number, divisor) % 10,
    )
}

/// The unit in which a size is given.
#[derive(Debug, Clone, Copy, Eq, PartialEq, Structural)]
pub enum Unit {
    Byte,
    Kibibyte,
    Mebibyte,
    Gibibyte,
}

/// The largest unit of which the size holds at least one.
pub open spec fn unit_of(bytes: nat) -> Unit {
    if bytes >= GIB {
        Unit::Gibibyte
    } else if bytes >= MIB {
        Unit::Mebibyte
    } else if bytes >= KIB {
        Unit::Kibibyte
    } else {
        Unit::Byte
    }
}

impl Unit {
    /// The bytes of the unit.
    pub open spec fn size(self) -> nat {
        match self {
            Unit::Byte => 1,
            Unit::Kibibyte => KIB as nat,
            Unit::Mebibyte => MIB as nat,
            Unit::Gibibyte => GIB as nat,
        }
    }

    /// The sign of the unit.
    pub open spec fn sign(self) -> Seq<char> {
        match self {
            Unit::Byte => "B"@,
            Unit::Kibibyte => "KiB"@,
            Unit::Mebibyte => "MiB"@,
            Unit::Gibibyte => "GiB"@,
        }
    }

    /// The bytes of the unit.
    pub fn bytes(self) -> (bytes: u64)
        ensures
            bytes == self.size(),
            bytes > 0,
    {
        match self {
            Unit::Byte => 1,
            Unit::Kibibyte => KIB,
            Unit::Mebibyte => MIB,
            Unit::Gibibyte => GIB,
        }
    }

    /// The sign of the unit.
    pub fn symbol(self) -> (symbol: &'static str)
        ensures
            symbol@ == self.sign(),
    {
        match self {
            Unit::Byte => "B",
            Unit::Kibibyte => "KiB",
            Unit::Mebibyte => "MiB",
            Unit::Gibibyte => "GiB",
        }
    }
}

/// A size in its unit.
pub open spec fn size_text(bytes: nat) -> Seq<char> {
    let unit = unit_of(bytes);
    if unit == Unit::Byte {
        numbers::decimal(bytes) + " "@ + unit.sign()
    } else {
        quotient_text(bytes, unit.size()) + " "@ + unit.sign()
    }
}

/// A speed in its unit.
pub open spec fn speed_text(bytes_per_second: nat) -> Seq<char> {
    let unit = unit_of(bytes_per_second);
    if unit == Unit::Byte {
        numbers::decimal(bytes_per_second) + unit.sign() + "/s"@
    } else {
        quotient_text(bytes_per_second, unit.size()) + unit.sign() + "/s"@
    }
}

/// How much of a size is there, both in the unit of the larger one.
pub open spec fn transfer_text(downloaded: nat, total: nat) -> Seq<char> {
    let unit = unit_of(
        if downloaded > total {
            downloaded
        } else {
            total
        },
    );
    quotient_text(downloaded, unit.size()) + " / "@ + quotient_text(total, unit.size()) + " "@
        + unit.sign()
}

/// A number with at least two digits.
pub open spec fn two_digits(number: nat) -> Seq<char> {
    if number < 10 {
        "0"@ + numbers::decimal(number)
    } else {
        numbers::decimal(number)
    }
}

/// A span of time in minutes and seconds, and in hours too from one hour on.
pub open spec fn duration_text(seconds: nat) -> Seq<char> {
    let clock = two_digits(seconds % 3600 / 60) + ":"@ + two_digits(seconds % 60);
    if seconds < 3600 {
        clock
    } else {
        two_digits(seconds / 3600) + ":"@ + clock
    }
}

/// How many of `parts` equal parts of `total` are full, with `downloaded` in it.
pub open spec fn share(downloaded: nat, total: nat, parts: nat) -> nat {
    if downloaded * parts / total > parts {
        parts
    } else {
        downloaded * parts / total
    }
}

/// A share in percent, where a total is known and is not nothing.
pub open spec fn percentage_text(downloaded: u64, total: Option<u64>) -> Seq<char> {
    match total {
        Some(whole) => if whole == 0 {
            UNAVAILABLE@
        } else {
            numbers::decimal(share(downloaded as nat, whole as nat, 100)) + "%"@
        },
        None => UNAVAILABLE@,
    }
}

/// How many of twenty cells of the bar are full.
pub open spec fn filled_cells(downloaded: u64, total: Option<u64>) -> nat {
    match total {
        Some(whole) => if whole == 0 {
            0
        } else {
            share(downloaded as nat, whole as nat, 20)
        },
        None => 0,
    }
}

/// A bar of twenty cells.
pub open spec fn bar_text(downloaded: u64, total: Option<u64>) -> Seq<char> {
    let filled = filled_cells(downloaded, total);
    text::repeated('█', filled) + text::repeated('░', (20 - filled) as nat)
}

/// `text` behind as many spaces as make it at least `length` long.
pub open spec fn right_aligned(text: Seq<char>, length: nat) -> Seq<char> {
    if text.len() >= length {
        text
    } else {
        text::repeated(' ', (length - text.len()) as nat) + text
    }
}

/// `text` between as many spaces as make it at least `length` long, one more behind it than
/// before it where they do not come out even.
pub open spec fn centered(text: Seq<char>, length: nat) -> Seq<char> {
    if text.len() >= length {
        text
    } else {
        let spaces = (length - text.len()) as nat;
        text::repeated(' ', spaces / 2) + text + text::repeated(' ', (spaces - spaces / 2) as nat)
    }
}

/// Rounding keeps a bound that rounding does not change.
proof fn lemma_half_even_bound(number: nat, divisor: nat, bound: nat)
    requires
        divisor > 0,
        number <= bound * divisor,
    ensures
        half_even(number, divisor) <= bound,
{
    let quotient = number / divisor;
    let rest = number % divisor;
    vstd::arithmetic::div_mod::lemma_fundamental_div_mod(number as int, divisor as int);
    assert(number == divisor * quotient + rest);
    if quotient >= bound {
        assert(divisor * quotient >= bound * divisor) by (nonlinear_arith)
            requires
                quotient >= bound,
                divisor > 0,
        ;
        assert(rest == 0);
        if quotient > bound {
            assert(divisor * quotient >= bound * divisor + divisor) by (nonlinear_arith)
                requires
                    quotient >= bound + 1,
                    divisor > 0,
            ;
        }
    }
}

/// Neighbouring numbers are at most as far apart as the first bits demand.
proof fn lemma_double_step(number: nat)
    ensures
        double_step(number) >= 1,
        number <= u64::MAX ==> double_step(number) <= 2048,
        number < DOUBLE_LIMIT * double_step(number),
{
    reveal_with_fuel(double_step, 13);
    lemma_double_step_covers(number);
}

/// The step is large enough for the first bits to hold the number.
proof fn lemma_double_step_covers(number: nat)
    ensures
        double_step(number) >= 1,
        number < DOUBLE_LIMIT * double_step(number),
    decreases number,
{
    if number >= DOUBLE_LIMIT {
        lemma_double_step_covers(number / 2);
        assert(number < 2 * (DOUBLE_LIMIT * double_step(number / 2)));
        assert(2 * (DOUBLE_LIMIT * double_step(number / 2)) == DOUBLE_LIMIT * (2 * double_step(
            number / 2,
        ))) by (nonlinear_arith);
    }
}

/// `number` divided by `divisor`, rounded half to even.
fn round_half_even(number: u128, divisor: u128) -> (rounded: u128)
    requires
        0 < divisor <= u64::MAX,
        number < u128::MAX,
    ensures
        rounded == half_even(number as nat, divisor as nat),
{
    let quotient: u128 = number / divisor;
    let rest: u128 = number % divisor;
    if 2 * rest > divisor || (2 * rest == divisor && quotient % 2 == 1) {
        assert(quotient <= number) by (nonlinear_arith)
            requires
                quotient == number / divisor,
                divisor > 0,
        ;
        quotient + 1
    } else {
        quotient
    }
}

/// How far two neighbouring numbers of the size of `number` are apart with double precision.
fn step_of(number: u64) -> (step: u64)
    ensures
        step == double_step(number as nat),
        1 <= step <= 2048,
    decreases number,
{
    proof {
        lemma_double_step(number as nat);
    }
    if number < DOUBLE_LIMIT {
        1
    } else {
        let half: u64 = step_of(number / 2);
        assert(double_step(number as nat) == 2 * half);
        2 * half
    }
}

/// The tenths in `number` divided by `divisor`, with double precision.
pub fn count_tenths(number: u64, divisor: u64) -> (count: u128)
    requires
        divisor > 0,
    ensures
        count == tenths(number as nat, divisor as nat),
        count <= 20 * (DOUBLE_LIMIT as nat) * 2048,
{
    let step: u64 = step_of(number);
    let held: u128 = round_half_even(number as u128, step as u128);
    proof {
        lemma_double_step(number as nat);
        lemma_half_even_bound(number as nat, step as nat, DOUBLE_LIMIT as nat);
        assert(held * step <= DOUBLE_LIMIT * 2048) by (nonlinear_arith)
            requires
                held <= DOUBLE_LIMIT,
                step <= 2048,
        ;
    }
    let double: u128 = held * step as u128;
    assert(double == nearest_double(number as nat));
    let count: u128 = round_half_even(double * 10, divisor as u128);
    proof {
        let bound = (10 * DOUBLE_LIMIT * 2048) as nat;
        assert(double * 10 <= bound * divisor) by (nonlinear_arith)
            requires
                double <= DOUBLE_LIMIT * 2048,
                bound == 10 * DOUBLE_LIMIT * 2048,
                divisor > 0,
        ;
        lemma_half_even_bound((double * 10) as nat, divisor as nat, bound);
    }
    count
}

/// `number` divided by `divisor`, with one decimal place.
pub fn write_quotient(number: u64, divisor: u64) -> (written: String)
    requires
        divisor > 0,
    ensures
        written@ == quotient_text(number as nat, divisor as nat),
{
    let count: u128 = count_tenths(number, divisor);
    assert(count / 10 <= 4 * (DOUBLE_LIMIT as nat) * 2048);
    let mut written: String = write_wide_decimal(count / 10);
    written.append(".");
    written.append(write_decimal((count % 10) as u64).as_str());
    written
}

/// `value` in decimal, without leading zeros.
fn write_wide_decimal(value: u128) -> (written: String)
    ensures
        written@ == numbers::decimal(value as nat),
    decreases value,
{
    if value <= u64::MAX as u128 {
        write_decimal(value as u64)
    } else {
        let mut written: String = write_wide_decimal(value / 10);
        written.append(write_decimal((value % 10) as u64).as_str());
        assert(written@ =~= numbers::decimal(value as nat));
        written
    }
}

/// The largest unit of which the size holds at least one.
pub fn byte_unit(bytes: u64) -> (unit: Unit)
    ensures
        unit == unit_of(bytes as nat),
{
    if bytes >= GIB {
        Unit::Gibibyte
    } else if bytes >= MIB {
        Unit::Mebibyte
    } else if bytes >= KIB {
        Unit::Kibibyte
    } else {
        Unit::Byte
    }
}

/// A size in its unit.
pub fn format_bytes(bytes: u64) -> (written: String)
    ensures
        written@ == size_text(bytes as nat),
{
    let unit: Unit = byte_unit(bytes);
    let mut written: String = if unit == Unit::Byte {
        write_decimal(bytes)
    } else {
        write_quotient(bytes, unit.bytes())
    };
    written.append(" ");
    written.append(unit.symbol());
    written
}

/// A speed in its unit.
pub fn format_speed(bytes_per_second: u64) -> (written: String)
    ensures
        written@ == speed_text(bytes_per_second as nat),
{
    let unit: Unit = byte_unit(bytes_per_second);
    let mut written: String = if unit == Unit::Byte {
        write_decimal(bytes_per_second)
    } else {
        write_quotient(bytes_per_second, unit.bytes())
    };
    written.append(unit.symbol());
    written.append("/s");
    written
}

/// How much of a size is there, both in the unit of the larger one.
pub fn format_transfer(downloaded: u64, total: u64) -> (written: String)
    ensures
        written@ == transfer_text(downloaded as nat, total as nat),
{
    let unit: Unit = byte_unit(
        if downloaded > total {
            downloaded
        } else {
            total
        },
    );
    let mut written: String = write_quotient(downloaded, unit.bytes());
    written.append(" / ");
    written.append(write_quotient(total, unit.bytes()).as_str());
    written.append(" ");
    written.append(unit.symbol());
    written
}

/// A number with at least two digits.
fn write_two_digits(number: u64) -> (written: String)
    ensures
        written@ == two_digits(number as nat),
{
    if number < 10 {
        let mut written: String = "0".to_owned();
        written.append(write_decimal(number).as_str());
        written
    } else {
        write_decimal(number)
    }
}

/// A span of time in minutes and seconds, and in hours too from one hour on.
pub fn format_duration(duration: Duration) -> (written: String)
    ensures
        written@ == duration_text(duration.secs as nat),
{
    let seconds: u64 = duration.secs;
    let mut clock: String = write_two_digits(seconds % 3600 / 60);
    clock.append(":");
    clock.append(write_two_digits(seconds % 60).as_str());
    if seconds < 3600 {
        return clock;
    }
    let mut written: String = write_two_digits(seconds / 3600);
    written.append(":");
    written.append(clock.as_str());
    assert(written@ =~= duration_text(seconds as nat));
    written
}

/// How many of `parts` equal parts of `total` are full.
fn count_share(downloaded: u64, total: u64, parts: u64) -> (count: u64)
    requires
        total > 0,
        parts <= 100,
    ensures
        count == share(downloaded as nat, total as nat, parts as nat),
        count <= parts,
{
    assert(downloaded * parts <= u64::MAX * 100) by (nonlinear_arith)
        requires
            downloaded <= u64::MAX,
            parts <= 100,
    ;
    let count: u128 = (downloaded as u128) * (parts as u128) / (total as u128);
    if count > parts as u128 {
        parts
    } else {
        count as u64
    }
}

/// A share in percent, where a total is known and is not nothing.
pub fn percentage(downloaded: u64, total: Option<u64>) -> (written: String)
    ensures
        written@ == percentage_text(downloaded, total),
{
    match total {
        Some(whole) if whole > 0 => {
            let mut written: String = write_decimal(count_share(downloaded, whole, 100));
            written.append("%");
            written
        },
        _ => UNAVAILABLE.to_owned(),
    }
}

/// A bar of twenty cells.
pub fn progress_bar(downloaded: u64, total: Option<u64>) -> (bar: String)
    ensures
        bar@ == bar_text(downloaded, total),
{
    let filled: u64 = match total {
        Some(whole) if whole > 0 => count_share(downloaded, whole, 20),
        _ => 0,
    };
    let mut bar: String = repeat('█', filled as usize);
    bar.append(repeat('░', (20 - filled) as usize).as_str());
    bar
}

/// `text` behind as many spaces as make it at least `length` long.
pub fn align_right(text: &str, length: usize) -> (aligned: String)
    ensures
        aligned@ == right_aligned(text@, length as nat),
{
    let taken: usize = text.unicode_len();
    if taken >= length {
        return text.to_owned();
    }
    let mut aligned: String = repeat(' ', length - taken);
    aligned.append(text);
    aligned
}

/// `text` between as many spaces as make it at least `length` long.
pub fn center(text: &str, length: usize) -> (aligned: String)
    ensures
        aligned@ == centered(text@, length as nat),
{
    let taken: usize = text.unicode_len();
    if taken >= length {
        return text.to_owned();
    }
    let spaces: usize = length - taken;
    let mut aligned: String = repeat(' ', spaces / 2);
    aligned.append(text);
    aligned.append(repeat(' ', spaces - spaces / 2).as_str());
    aligned
}

} // verus!
