//! What holds of every row.

use vstd::prelude::*;
use vstd::string::*;

use crate::cells;
use crate::figures;
use crate::figures::{Unit, UNAVAILABLE};
use crate::numbers;
use crate::progress::{DisplayState, ModelView};
use crate::render;
use crate::render::{FieldsView, LayoutMode, MinimaView, PURPLE, RESET};
use crate::text;

verus! {

/// The character that starts a control sequence of a terminal.
pub const ESCAPE: char = '\u{1b}';

/// How rich a mode is: the more, the richer.
pub open spec fn richness(mode: LayoutMode) -> nat {
    match mode {
        LayoutMode::Full => 5,
        LayoutMode::Small => 4,
        LayoutMode::Minimal => 3,
        LayoutMode::Compact => 2,
        LayoutMode::Plain => 1,
        LayoutMode::Extreme => 0,
    }
}

/// A wider terminal never shows a download in a poorer mode.
pub proof fn a_wider_terminal_shows_no_less(model: ModelView, narrow: nat, wide: nat)
    requires
        narrow <= wide,
    ensures
        richness(render::mode_of(model, narrow)) <= richness(render::mode_of(model, wide)),
{
}

/// The mode is the richest one whose rows fit.
pub proof fn no_richer_mode_fits(minima: MinimaView, usable: nat)
    ensures
        ({
            let rank = richness(render::richest_mode(minima, usable));
            &&& rank < 5 ==> usable < minima.full
            &&& rank < 4 ==> usable < minima.small
            &&& rank < 3 ==> usable < minima.minimal
            &&& rank < 2 ==> usable < minima.compact
            &&& rank < 1 ==> usable < minima.plain
        }),
{
}

/// A file name has at least twenty-three cells in a structured row, and every cell that the row
/// does not need otherwise.
pub proof fn a_structured_row_gives_the_rest_to_the_name(model: ModelView, width: nat)
    requires
        richness(render::mode_of(model, width)) >= 2,
    ensures
        ({
            let mode = render::mode_of(model, width);
            let usable = render::usable_cells(model.state, width);
            let surplus = usable - render::structured_minimum(model, mode);
            &&& surplus >= 0
            &&& render::row_text(model, width) == render::structured_text(
                model,
                mode,
                (23 + surplus) as nat,
            )
        }),
{
}

/// The character controls a terminal and is not shown.
pub open spec fn is_control(character: char) -> bool {
    character < ' '
}

/// The text does not hold the character.
spec fn lacks(control: char, row: Seq<char>) -> bool {
    !row.contains(control)
}

/// Text lacks what its parts lack.
proof fn lemma_lacks_concat(control: char, left: Seq<char>, right: Seq<char>)
    requires
        lacks(control, left),
        lacks(control, right),
    ensures
        lacks(control, left + right),
{
    let all = left + right;
    if all.contains(control) {
        let i = all.index_of(control);
        if i < left.len() {
            assert(left[i] == control);
        } else {
            assert(right[i - left.len()] == control);
        }
    }
}

/// Digits lack control characters.
proof fn lemma_lacks_decimal(control: char, value: nat)
    requires
        is_control(control),
    ensures
        lacks(control, numbers::decimal(value)),
{
    numbers::decimal_writes_its_value(value);
    let digits = numbers::decimal(value);
    if digits.contains(control) {
        let i = digits.index_of(control);
        assert(numbers::is_digit(digits[i]));
    }
}

/// A quotient lacks control characters.
proof fn lemma_lacks_quotient(control: char, number: nat, divisor: nat)
    requires
        is_control(control),
    ensures
        lacks(control, figures::quotient_text(number, divisor)),
{
    reveal_strlit(".");
    let count = figures::tenths(number, divisor);
    let whole = numbers::decimal(count / 10);
    let rest = numbers::decimal(count % 10);
    lemma_lacks_decimal(control, count / 10);
    lemma_lacks_decimal(control, count % 10);
    assert(lacks(control, "."@));
    lemma_lacks_concat(control, whole, "."@);
    lemma_lacks_concat(control, whole + "."@, rest);
}

/// The sign of a unit lacks control characters.
proof fn lemma_lacks_sign(control: char, unit: Unit)
    requires
        is_control(control),
    ensures
        lacks(control, unit.sign()),
{
    reveal_strlit("B");
    reveal_strlit("KiB");
    reveal_strlit("MiB");
    reveal_strlit("GiB");
}

/// Sizes and speeds lack control characters.
proof fn lemma_lacks_sizes(control: char, first: nat, second: nat)
    requires
        is_control(control),
    ensures
        lacks(control, figures::size_text(first)),
        lacks(control, figures::speed_text(first)),
        lacks(control, figures::transfer_text(first, second)),
{
    reveal_strlit(" ");
    reveal_strlit("/s");
    reveal_strlit(" / ");
    assert(lacks(control, " "@) && lacks(control, "/s"@) && lacks(control, " / "@));
    let unit = figures::unit_of(first);
    lemma_lacks_sign(control, unit);
    lemma_lacks_decimal(control, first);
    lemma_lacks_quotient(control, first, unit.size());
    let value = if unit == Unit::Byte {
        numbers::decimal(first)
    } else {
        figures::quotient_text(first, unit.size())
    };
    lemma_lacks_concat(control, value, " "@);
    lemma_lacks_concat(control, value + " "@, unit.sign());
    lemma_lacks_concat(control, value, unit.sign());
    lemma_lacks_concat(control, value + unit.sign(), "/s"@);
    let common = figures::unit_of(
        if first > second {
            first
        } else {
            second
        },
    );
    let left = figures::quotient_text(first, common.size());
    let right = figures::quotient_text(second, common.size());
    lemma_lacks_sign(control, common);
    lemma_lacks_quotient(control, first, common.size());
    lemma_lacks_quotient(control, second, common.size());
    lemma_lacks_concat(control, left, " / "@);
    lemma_lacks_concat(control, left + " / "@, right);
    lemma_lacks_concat(control, left + " / "@ + right, " "@);
    lemma_lacks_concat(control, left + " / "@ + right + " "@, common.sign());
}

/// A span of time lacks control characters.
proof fn lemma_lacks_duration(control: char, seconds: nat)
    requires
        is_control(control),
    ensures
        lacks(control, figures::duration_text(seconds)),
{
    reveal_strlit(":");
    assert(lacks(control, ":"@));
    let minutes = figures::two_digits(seconds % 3600 / 60);
    let rest = figures::two_digits(seconds % 60);
    let hours = figures::two_digits(seconds / 3600);
    lemma_lacks_two_digits(control, seconds % 3600 / 60);
    lemma_lacks_two_digits(control, seconds % 60);
    lemma_lacks_two_digits(control, seconds / 3600);
    lemma_lacks_concat(control, minutes, ":"@);
    lemma_lacks_concat(control, minutes + ":"@, rest);
    lemma_lacks_concat(control, hours, ":"@);
    lemma_lacks_concat(control, hours + ":"@, minutes + ":"@ + rest);
}

/// A number with at least two digits lacks control characters.
proof fn lemma_lacks_two_digits(control: char, number: nat)
    requires
        is_control(control),
    ensures
        lacks(control, figures::two_digits(number)),
{
    reveal_strlit("0");
    assert(lacks(control, "0"@));
    lemma_lacks_decimal(control, number);
    lemma_lacks_concat(control, "0"@, numbers::decimal(number));
}

/// Alignment adds no control character.
proof fn lemma_lacks_alignment(control: char, field: Seq<char>, length: nat)
    requires
        is_control(control),
        lacks(control, field),
    ensures
        lacks(control, figures::right_aligned(field, length)),
        lacks(control, figures::centered(field, length)),
{
    if field.len() < length {
        let spaces = (length - field.len()) as nat;
        let before = text::repeated(' ', spaces);
        let half = text::repeated(' ', spaces / 2);
        let other = text::repeated(' ', (spaces - spaces / 2) as nat);
        assert(lacks(control, before) && lacks(control, half) && lacks(control, other));
        lemma_lacks_concat(control, before, field);
        lemma_lacks_concat(control, half, field);
        lemma_lacks_concat(control, half + field, other);
    }
}

/// All fields lack the character.
spec fn all_lack(control: char, fields: FieldsView) -> bool {
    &&& lacks(control, fields.percentage)
    &&& lacks(control, fields.bar)
    &&& lacks(control, fields.current)
    &&& lacks(control, fields.transfer)
    &&& lacks(control, fields.speed)
    &&& lacks(control, fields.time)
    &&& lacks(control, fields.full_time)
}

/// What a row shows besides the file name lacks control characters.
proof fn lemma_lacks_fields(control: char, model: ModelView)
    requires
        is_control(control),
    ensures
        all_lack(control, render::row_fields(model)),
{
    reveal_strlit("N/A");
    reveal_strlit("%");
    reveal_strlit("DONE ");
    reveal_strlit("ETA  ");
    assert(lacks(control, UNAVAILABLE@));
    assert(lacks(control, "%"@) && lacks(control, "DONE "@) && lacks(control, "ETA  "@));
    let total = match model.total {
        Some(found) => found as nat,
        None => 0,
    };
    let speed = match model.bytes_per_second {
        Some(found) => found as nat,
        None => 0,
    };
    lemma_lacks_sizes(control, model.downloaded as nat, total);
    lemma_lacks_sizes(control, speed, 0);
    let percent = figures::share(model.downloaded as nat, total, 100);
    lemma_lacks_decimal(control, percent);
    lemma_lacks_concat(control, numbers::decimal(percent), "%"@);
    let filled = figures::filled_cells(model.downloaded, model.total);
    let full = text::repeated('█', filled);
    let empty = text::repeated('░', (20 - filled) as nat);
    assert(lacks(control, full) && lacks(control, empty));
    lemma_lacks_concat(control, full, empty);
    lemma_lacks_duration(control, model.elapsed.secs as nat);
    if let Some(eta) = model.eta {
        lemma_lacks_duration(control, eta.secs as nat);
    }
    let time = render::row_time(model);
    lemma_lacks_concat(control, "DONE "@, time);
    lemma_lacks_concat(control, "ETA  "@, time);
}

/// What stands behind the file name lacks control characters.
proof fn lemma_lacks_rest(control: char, state: DisplayState, fields: FieldsView, mode: LayoutMode)
    requires
        is_control(control),
        all_lack(control, fields),
    ensures
        lacks(control, render::structured_rest(state, fields, mode)),
        lacks(control, render::plain_suffix(fields)),
{
    reveal_strlit("  ▐  ");
    reveal_strlit("  ▐ ");
    reveal_strlit("  ");
    reveal_strlit(" ");
    reveal_strlit(" N/A");
    reveal_strlit("   ▐       N/A           ▐     N/A      ▐  N/A");
    let wall = "  ▐  "@;
    let last = "  ▐ "@;
    let two = "  "@;
    let one = " "@;
    let skipped = "   ▐       N/A           ▐     N/A      ▐  N/A"@;
    assert(lacks(control, wall) && lacks(control, last) && lacks(control, two));
    assert(lacks(control, one) && lacks(control, " N/A"@) && lacks(control, skipped));
    lemma_lacks_alignment(control, fields.bar, 24);
    lemma_lacks_alignment(control, fields.percentage, 4);
    lemma_lacks_alignment(control, fields.current, 9);
    lemma_lacks_alignment(control, fields.speed, 10);
    lemma_lacks_alignment(control, fields.transfer, 17);
    let percentage = figures::right_aligned(fields.percentage, 4);
    let current = figures::right_aligned(fields.current, 9);
    let speed = figures::right_aligned(fields.speed, 10);
    let transfer = figures::centered(fields.transfer, 17);
    let bar = figures::right_aligned(fields.bar, 24);
    lemma_lacks_parts(control, seq![wall, bar, skipped]);
    lemma_lacks_parts(
        control, seq![
            wall,
            fields.bar,
            one,
            percentage,
            wall,
            transfer,
            wall,
            speed,
            wall,
            fields.full_time,
        ],
    );
    lemma_lacks_parts(
        control, seq![wall, percentage, wall, current, wall, speed, last, fields.time],
    );
    lemma_lacks_parts(control, seq![wall, percentage, wall, speed, last, fields.time]);
    lemma_lacks_parts(control, seq![two, percentage, two, speed, one, fields.time]);
    lemma_lacks_parts(control, seq![one, fields.percentage, one, fields.speed, one, fields.time]);
    reveal_with_fuel(joined, 11);
}

/// The parts one behind the other.
spec fn joined(parts: Seq<Seq<char>>) -> Seq<char>
    decreases parts.len(),
{
    if parts.len() == 0 {
        seq![]
    } else if parts.len() == 1 {
        parts[0]
    } else {
        joined(parts.drop_last()) + parts.last()
    }
}

/// Parts lack together what each of them lacks.
proof fn lemma_lacks_parts(control: char, parts: Seq<Seq<char>>)
    requires
        is_control(control),
        forall|i: int| 0 <= i < parts.len() ==> lacks(control, #[trigger] parts[i]),
    ensures
        lacks(control, joined(parts)),
    decreases parts.len(),
{
    if parts.len() > 1 {
        let fewer = parts.drop_last();
        assert forall|i: int| 0 <= i < fewer.len() implies lacks(control, #[trigger] fewer[i]) by {
            assert(fewer[i] == parts[i]);
        }
        lemma_lacks_parts(control, fewer);
        lemma_lacks_concat(control, joined(fewer), parts.last());
    }
}

/// Showing text in fewer cells adds no control character.
proof fn lemma_lacks_truncation(control: char, name: Seq<char>, limit: nat)
    requires
        is_control(control),
        lacks(control, name),
    ensures
        lacks(control, cells::truncated(name, limit)),
        lacks(control, cells::padded(name, limit)),
{
    reveal_strlit("...");
    assert(lacks(control, "..."@));
    let dots = text::repeated('.', limit);
    assert(lacks(control, dots));
    if cells::display_cells(name) > limit && limit > 3 {
        let room = (limit - 3) as nat;
        let fit = cells::fitting(cells::prefix_cells(name), room);
        lemma_fitting_bound(cells::prefix_cells(name), room);
        let kept = name.take(fit as int);
        let spaces = text::repeated(' ', (room - cells::display_cells(kept)) as nat);
        if kept.contains(control) {
            let i = kept.index_of(control);
            assert(name[i] == control);
        }
        assert(lacks(control, spaces));
        lemma_lacks_concat(control, kept, spaces);
        lemma_lacks_concat(control, kept + spaces, "..."@);
    }
    let shown = cells::truncated(name, limit);
    let behind = text::repeated(' ', (limit - cells::display_cells(shown)) as nat);
    assert(lacks(control, behind));
    lemma_lacks_concat(control, shown, behind);
}

/// No more counts fit than there are.
proof fn lemma_fitting_bound(counts: Seq<nat>, limit: nat)
    ensures
        cells::fitting(counts, limit) <= counts.len(),
    decreases counts.len(),
{
    if counts.len() > 0 {
        lemma_fitting_bound(counts.drop_first(), limit);
    }
}

/// A row without color holds no control character, be it an escape, a carriage return or a line
/// feed, that the file name does not hold.
pub proof fn a_row_without_color_holds_no_control(control: char, model: ModelView, width: nat)
    requires
        is_control(control),
        !model.filename.contains(control),
    ensures
        !render::row_text(model, width).contains(control),
{
    let usable = render::usable_cells(model.state, width);
    let mode = render::mode_of(model, width);
    let fields = render::row_fields(model);
    reveal_strlit(" ");
    reveal_strlit("📦");
    reveal_strlit("⛓️‍💥");
    let icon = render::icon_text(model.state);
    assert(lacks(control, icon) && lacks(control, " "@));
    lemma_lacks_concat(control, icon, " "@);
    lemma_lacks_fields(control, model);
    lemma_lacks_rest(control, model.state, fields, mode);
    let surplus = (render::MIN_FILENAME_WIDTH + usable - render::structured_minimum(
        model,
        mode,
    )) as nat;
    let padded = cells::padded(model.filename, surplus);
    lemma_lacks_truncation(control, model.filename, surplus);
    lemma_lacks_concat(control, icon + " "@, padded);
    lemma_lacks_concat(
        control, icon + " "@ + padded,
        render::structured_rest(model.state, fields, mode),
    );
    let room = if usable >= render::plain_fixed(model) {
        (usable - render::plain_fixed(model)) as nat
    } else {
        0
    };
    lemma_lacks_plain(control, model, room);
    lemma_lacks_plain(control, model, render::plain_name_minimum(model));
    lemma_lacks_truncation(control, render::shortest_plain(model), usable);
}

/// A plain row lacks control characters that the file name lacks.
proof fn lemma_lacks_plain(control: char, model: ModelView, name_cells: nat)
    requires
        is_control(control),
        lacks(control, model.filename),
    ensures
        lacks(control, render::plain_text(model, name_cells)),
{
    let fields = render::row_fields(model);
    reveal_strlit(" ");
    reveal_strlit("📦");
    reveal_strlit("⛓️‍💥");
    let icon = render::icon_text(model.state);
    let name = cells::truncated(model.filename, name_cells);
    assert(lacks(control, icon) && lacks(control, " "@));
    lemma_lacks_fields(control, model);
    lemma_lacks_rest(control, model.state, fields, LayoutMode::Full);
    lemma_lacks_truncation(control, model.filename, name_cells);
    lemma_lacks_concat(control, icon, " "@);
    lemma_lacks_concat(control, icon + " "@, name);
    lemma_lacks_concat(control, icon + " "@ + name, render::plain_suffix(fields));
}

/// The text holds no control sequence of a terminal.
pub open spec fn is_uncolored(row: Seq<char>) -> bool {
    !row.contains(ESCAPE)
}

/// How many characters of a control sequence are left, from the one behind its bracket on: up
/// to and with the first one from the at sign to the tilde.
pub open spec fn sequence_length(rest: Seq<char>) -> nat
    decreases rest.len(),
{
    if rest.len() == 0 {
        0
    } else if '@' <= rest[0] && rest[0] <= '~' {
        1
    } else {
        1 + sequence_length(rest.drop_first())
    }
}

/// The text without the control sequences of a terminal.
pub open spec fn stripped(row: Seq<char>) -> Seq<char>
    decreases row.len(),
    via stripped_decreases
{
    if row.len() == 0 {
        seq![]
    } else if row.len() > 1 && row[0] == ESCAPE && row[1] == '[' {
        stripped(row.skip(2 + sequence_length(row.skip(2)) as int))
    } else {
        seq![row[0]] + stripped(row.drop_first())
    }
}

#[via_fn]
proof fn stripped_decreases(row: Seq<char>) {
    if row.len() > 1 {
        lemma_sequence_length(row.skip(2));
    }
}

/// A control sequence ends within its text.
proof fn lemma_sequence_length(rest: Seq<char>)
    ensures
        sequence_length(rest) <= rest.len(),
    decreases rest.len(),
{
    if rest.len() > 0 {
        lemma_sequence_length(rest.drop_first());
    }
}

/// The text is a control sequence that sets a color: two digits or one, and the letter m.
spec fn is_color(code: Seq<char>) -> bool {
    &&& 4 <= code.len() <= 5
    &&& code[0] == ESCAPE
    &&& code[1] == '['
    &&& code.last() == 'm'
    &&& forall|i: int| 2 <= i < code.len() - 1 ==> numbers::is_digit(#[trigger] code[i])
}

/// Stripping removes a color before any text.
proof fn lemma_strip_color(code: Seq<char>, rest: Seq<char>)
    requires
        is_color(code),
    ensures
        stripped(code + rest) == stripped(rest),
{
    let all = code + rest;
    let inner = all.skip(2);
    assert(inner[0] == code[2]);
    assert(inner.drop_first()[0] == code[3]);
    if code.len() == 5 {
        assert(inner.drop_first().drop_first()[0] == code[4]);
    }
    reveal_with_fuel(sequence_length, 4);
    assert(numbers::is_digit(code[2]));
    assert(code.len() == 5 ==> numbers::is_digit(code[3]));
    assert(all.skip(2 + sequence_length(inner) as int) =~= rest);
}

/// Stripping leaves uncolored text before any text.
proof fn lemma_strip_plain(plain: Seq<char>, rest: Seq<char>)
    requires
        is_uncolored(plain),
    ensures
        stripped(plain + rest) == plain + stripped(rest),
    decreases plain.len(),
{
    if plain.len() == 0 {
        assert(plain + rest =~= rest);
        assert(plain + stripped(rest) =~= stripped(rest));
    } else {
        let fewer = plain.drop_first();
        if fewer.contains(ESCAPE) {
            let i = fewer.index_of(ESCAPE);
            assert(plain[i + 1] == ESCAPE);
        }
        lemma_strip_plain(fewer, rest);
        assert(plain.contains(plain[0]));
        assert((plain + rest).drop_first() =~= fewer + rest);
        assert(seq![plain[0]] + (fewer + stripped(rest)) =~= plain + stripped(rest));
    }
}

/// The colors are colors.
proof fn lemma_colors(state: DisplayState)
    ensures
        is_color(RESET@),
        is_color(PURPLE@),
        is_color(render::content_color(state)),
{
    reveal_strlit("\u{1b}[0m");
    reveal_strlit("\u{1b}[35m");
    reveal_strlit("\u{1b}[37m");
    reveal_strlit("\u{1b}[32m");
    reveal_strlit("\u{1b}[90m");
    reveal_strlit("\u{1b}[31m");
}

/// Stripping a colored separator leaves the separator, before any text.
proof fn lemma_strip_separator(state: DisplayState, rest: Seq<char>)
    ensures
        stripped(render::colored_separator(render::content_color(state)) + rest) == seq!['▐']
            + stripped(rest),
{
    let color = render::content_color(state);
    reveal_strlit("▐");
    let wall = "▐"@;
    lemma_colors(state);
    assert(wall =~= seq!['▐']);
    assert(is_uncolored(wall));
    let all = render::colored_separator(color) + rest;
    assert(all =~= RESET@ + (PURPLE@ + (wall + (RESET@ + (color + rest)))));
    lemma_strip_color(RESET@, PURPLE@ + (wall + (RESET@ + (color + rest))));
    lemma_strip_color(PURPLE@, wall + (RESET@ + (color + rest)));
    lemma_strip_plain(wall, RESET@ + (color + rest));
    lemma_strip_color(RESET@, color + rest);
    lemma_strip_color(color, rest);
}

/// Stripping text with colored separators leaves the text, before any text.
proof fn lemma_strip_separators(row: Seq<char>, state: DisplayState, rest: Seq<char>)
    requires
        is_uncolored(row),
    ensures
        stripped(
            render::with_separators(
                row,
                render::colored_separator(render::content_color(state)),
            ) + rest,
        ) == row + stripped(rest),
    decreases row.len(),
{
    let wall = render::colored_separator(render::content_color(state));
    if row.len() == 0 {
        assert(render::with_separators(row, wall) + rest =~= rest);
        assert(row + stripped(rest) =~= stripped(rest));
    } else {
        let fewer = row.drop_last();
        let last = row.last();
        let before = render::with_separators(fewer, wall);
        if fewer.contains(ESCAPE) {
            let i = fewer.index_of(ESCAPE);
            assert(row[i] == ESCAPE);
        }
        assert(row.contains(row[row.len() - 1]));
        if last == '▐' {
            lemma_strip_separators(fewer, state, wall + rest);
            lemma_strip_separator(state, rest);
            assert(before + wall + rest =~= before + (wall + rest));
        } else {
            let one = seq![last];
            assert(is_uncolored(one));
            lemma_strip_separators(fewer, state, one + rest);
            lemma_strip_plain(one, rest);
            assert(before.push(last) + rest =~= before + (one + rest));
        }
        assert(row + stripped(rest) =~= fewer + (seq![last] + stripped(rest)));
    }
}

/// Stripping the colors of a row gives back the row, unless it held control sequences before.
pub proof fn stripping_undoes_coloring(row: Seq<char>, state: DisplayState, mode: LayoutMode)
    requires
        is_uncolored(row),
    ensures
        stripped(render::colored(row, state, mode)) == row,
{
    let color = render::content_color(state);
    let body = if mode == LayoutMode::Full || mode == LayoutMode::Small || mode
        == LayoutMode::Minimal {
        render::with_separators(row, render::colored_separator(color))
    } else {
        row
    };
    lemma_colors(state);
    assert(render::colored(row, state, mode) =~= color + (body + RESET@));
    lemma_strip_color(color, body + RESET@);
    lemma_strip_separators(row, state, RESET@);
    lemma_strip_plain(row, RESET@);
    let nothing = Seq::<char>::empty();
    lemma_strip_color(RESET@, nothing);
    assert(RESET@ + nothing =~= RESET@);
    assert(stripped(nothing) =~= nothing);
    assert(row + nothing =~= row);
}

/// A separator in a structured row stands at this place behind the file name.
pub open spec fn is_boundary(mode: LayoutMode, place: int) -> bool {
    match mode {
        LayoutMode::Full => place == 2 || place == 32 || place == 54 || place == 69,
        LayoutMode::Small => place == 2 || place == 11 || place == 25 || place == 40,
        LayoutMode::Minimal => place == 2 || place == 11 || place == 26,
        _ => false,
    }
}

/// The fields are no longer than their columns.
pub open spec fn fit_columns(fields: FieldsView) -> bool {
    &&& fields.percentage.len() <= 4
    &&& fields.current.len() <= 9
    &&& fields.transfer.len() <= 17
    &&& fields.speed.len() <= 10
}

/// A structured row keeps the places of its separators, whatever the state and the fields are,
/// as long as the fields are no longer than their columns.
pub proof fn structured_rows_keep_their_boundaries(
    model: ModelView,
    mode: LayoutMode,
    place: int,
)
    requires
        is_boundary(mode, place),
        fit_columns(render::row_fields(model)),
    ensures
        ({
            let rest = render::structured_rest(model.state, render::row_fields(model), mode);
            place < rest.len() && rest[place] == '▐'
        }),
{
    reveal_strlit("  ▐  ");
    reveal_strlit("  ▐ ");
    reveal_strlit(" ");
    reveal_strlit("N/A");
    reveal_strlit("   ▐       N/A           ▐     N/A      ▐  N/A");
}

/// The bar takes twenty characters, and a share in percent at most four.
pub proof fn bar_and_share_fit_their_columns(downloaded: u64, total: Option<u64>)
    ensures
        figures::bar_text(downloaded, total).len() == 20,
        figures::percentage_text(downloaded, total).len() <= 4,
{
    reveal_strlit("N/A");
    reveal_strlit("%");
    reveal_with_fuel(numbers::decimal, 3);
}

} // verus!
