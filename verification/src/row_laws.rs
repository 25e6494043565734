//! What every row shows, and where.

use vstd::prelude::*;
use vstd::string::*;

use crate::cells;
use crate::figures;
use crate::figures_laws;
use crate::progress::{DisplayState, ModelView};
use crate::render;
use crate::render::{FieldsView, LayoutMode, MinimaView};
use crate::render_laws;
use crate::text;

verus! {

/// What stands where nothing is known.
pub open spec fn unknown() -> Seq<char> {
    seq!['N', '/', 'A']
}

/// The cells of a terminal that a row may take: all of them, but for the two that the icon of a
/// skipped download may take beyond those that are counted for it.
pub open spec fn room(state: DisplayState, width: nat) -> nat {
    if state != DisplayState::Skipped {
        width
    } else if width >= 2 {
        (width - 2) as nat
    } else {
        0
    }
}

/// The cells that a row takes in this mode with a file name of twenty-three cells.
pub open spec fn needed(model: ModelView, mode: LayoutMode) -> nat {
    cells::display_cells(render::structured_text(model, mode, 23))
}

/// The mode is one of columns.
pub open spec fn is_structured(mode: LayoutMode) -> bool {
    mode == LayoutMode::Full || mode == LayoutMode::Small || mode == LayoutMode::Minimal || mode
        == LayoutMode::Compact
}

/// A download is shown in the richest mode of columns that leaves its file name twenty-three
/// cells. Such a row gives the cells that are left to the file name.
pub proof fn the_richest_row_that_fits_is_shown(model: ModelView, width: nat, other: LayoutMode)
    ensures
        ({
            let mode = render::mode_of(model, width);
            let usable = room(model.state, width);
            &&& is_structured(other) && needed(model, other) <= usable ==> render_laws::richness(
                mode,
            ) >= render_laws::richness(other)
            &&& is_structured(mode) ==> {
                &&& needed(model, mode) <= usable
                &&& render::row_text(model, width) == render::structured_text(
                    model,
                    mode,
                    (23 + usable - needed(model, mode)) as nat,
                )
            }
        }),
{
}

/// The file name of a download, or as many cells as it has at most in the shortest plain row.
pub open spec fn short_name_cells(model: ModelView) -> nat {
    if cells::display_cells(model.filename) <= 23 {
        cells::display_cells(model.filename)
    } else {
        23
    }
}

/// Where no row of columns fits, a plain one is shown if it fits with twenty-three cells of the
/// file name or all of it, and gives the file name all the cells that it does not need
/// otherwise. Where not even that fits, it is cut at its end.
pub proof fn a_plain_row_is_shown_where_no_columns_fit(model: ModelView, width: nat)
    ensures
        ({
            let mode = render::mode_of(model, width);
            let usable = room(model.state, width);
            let shortest = render::plain_text(model, short_name_cells(model));
            let fixed = cells::display_cells(render::icon_text(model.state)) + 1
                + cells::display_cells(render::plain_suffix(render::row_fields(model)));
            &&& mode == LayoutMode::Plain ==> cells::display_cells(shortest) <= usable
            &&& mode == LayoutMode::Extreme <==> !is_structured(mode) && usable
                < cells::display_cells(shortest)
            &&& mode == LayoutMode::Plain && fixed <= usable ==> render::row_text(model, width)
                == render::plain_text(model, (usable - fixed) as nat)
            &&& mode == LayoutMode::Extreme ==> render::row_text(model, width) == cells::truncated(
                shortest,
                usable,
            )
        }),
{
}

/// What a row shows is what is known of the download: how much of it is there, how fast it
/// comes, and how long it will take, or how long it took once it is complete.
pub proof fn a_row_shows_what_is_known(model: ModelView)
    requires
        model.state != DisplayState::Skipped,
    ensures
        ({
            let fields = render::row_fields(model);
            let done = model.state == DisplayState::Success;
            &&& fields.percentage == figures::percentage_text(model.downloaded, model.total)
            &&& fields.bar == figures::bar_text(model.downloaded, model.total)
            &&& fields.current == figures::size_text(model.downloaded as nat)
            &&& model.total matches Some(total) ==> fields.transfer == figures::transfer_text(
                model.downloaded as nat,
                total as nat,
            )
            &&& model.total is None ==> fields.transfer == unknown()
            &&& model.bytes_per_second matches Some(speed) ==> fields.speed == figures::speed_text(
                speed as nat,
            )
            &&& model.bytes_per_second is None ==> fields.speed == unknown()
            &&& done ==> fields.time == figures::duration_text(model.elapsed.secs as nat)
                && fields.full_time == seq!['D', 'O', 'N', 'E', ' '] + fields.time
            &&& !done ==> (model.eta matches Some(eta) ==> fields.time == figures::duration_text(
                eta.secs as nat,
            ) && fields.full_time == seq!['E', 'T', 'A', ' ', ' '] + fields.time)
            &&& !done && model.eta is None ==> fields.time == unknown() && fields.full_time
                == unknown()
        }),
{
    reveal_strlit("N/A");
    reveal_strlit("DONE ");
    reveal_strlit("ETA  ");
    assert("N/A"@ =~= unknown());
    assert("DONE "@ =~= seq!['D', 'O', 'N', 'E', ' ']);
    assert("ETA  "@ =~= seq!['E', 'T', 'A', ' ', ' ']);
    if let Some(eta) = model.eta {
        lemma_span_is_known(eta.secs as nat);
    }
}

/// A span of time is not what stands where nothing is known.
proof fn lemma_span_is_known(seconds: nat)
    ensures
        figures::duration_text(seconds) != unknown(),
{
    figures_laws::a_span_is_written_in_hours_minutes_and_seconds(seconds);
    let written = figures::duration_text(seconds);
    let (hours, minutes, rest, h, m, s) = choose|
        hours: nat,
        minutes: nat,
        rest: nat,
        h: Seq<char>,
        m: Seq<char>,
        s: Seq<char>,
    |
        hours * 3600 + minutes * 60 + rest == seconds && minutes < 60 && rest < 60
            && #[trigger] figures_laws::is_two_digits(h, hours)
            && #[trigger] figures_laws::is_two_digits(m, minutes)
            && #[trigger] figures_laws::is_two_digits(s, rest) && written == (if hours == 0 {
            m + seq![':'] + s
        } else {
            h + seq![':'] + (m + seq![':'] + s)
        });
    assert(written.len() >= 5);
}

/// A skipped download shows no figures, and an icon of its own.
pub proof fn a_skipped_download_shows_no_figures(model: ModelView)
    ensures
        model.state == DisplayState::Skipped ==> render::row_fields(model) == (FieldsView {
            percentage: unknown(),
            bar: unknown(),
            current: unknown(),
            transfer: unknown(),
            speed: unknown(),
            time: unknown(),
            full_time: unknown(),
        }),
        render::icon_text(model.state) == (if model.state == DisplayState::Skipped {
            seq!['⛓', '\u{fe0f}', '\u{200d}', '💥']
        } else {
            seq!['📦']
        }),
{
    reveal_strlit("N/A");
    reveal_strlit("⛓️‍💥");
    reveal_strlit("📦");
    assert("N/A"@ =~= unknown());
    assert("⛓️‍💥"@ =~= seq!['⛓', '\u{fe0f}', '\u{200d}', '💥']);
    assert("📦"@ =~= seq!['📦']);
}

/// A row of columns is the icon, a space, the file name in its cells, and the columns.
pub proof fn a_row_of_columns_names_the_file_first(
    model: ModelView,
    mode: LayoutMode,
    name_cells: nat,
)
    ensures
        render::structured_text(model, mode, name_cells) == render::icon_text(model.state) + seq![
            ' ',
        ] + cells::padded(model.filename, name_cells) + render::structured_rest(
            model.state,
            render::row_fields(model),
            mode,
        ),
        render::plain_text(model, name_cells) == render::icon_text(model.state) + seq![' ']
            + cells::truncated(model.filename, name_cells) + render::plain_suffix(
            render::row_fields(model),
        ),
{
    reveal_strlit(" ");
    assert(" "@ =~= seq![' ']);
}

/// The text stands at the right end of the column from `from` to `to`, behind spaces.
pub open spec fn ends_column(row: Seq<char>, from: int, to: int, field: Seq<char>) -> bool {
    &&& 0 <= from <= to - field.len()
    &&& to <= row.len()
    &&& row.subrange(to - field.len(), to) == field
    &&& forall|i: int| from <= i < to - field.len() ==> #[trigger] row[i] == ' '
}

/// The text stands in the middle of the column from `from` to `to`, between spaces.
pub open spec fn centers_column(row: Seq<char>, from: int, to: int, field: Seq<char>) -> bool {
    let start = from + (to - from - field.len()) / 2;
    &&& 0 <= from <= to - field.len()
    &&& to <= row.len()
    &&& row.subrange(start, start + field.len()) == field
    &&& forall|i: int| from <= i < start ==> #[trigger] row[i] == ' '
    &&& forall|i: int| start + field.len() <= i < to ==> #[trigger] row[i] == ' '
}

/// The richest row shows the bar, the share, what is there of the total, the speed and the time
/// with its caption, each in its column.
pub proof fn a_full_row_shows_everything(state: DisplayState, fields: FieldsView)
    requires
        state != DisplayState::Skipped,
        fields.bar.len() == 20,
        render_laws::fit_columns(fields),
    ensures
        ({
            let row = render::structured_rest(state, fields, LayoutMode::Full);
            &&& row.len() == 72 + fields.full_time.len()
            &&& row.subrange(5, 25) == fields.bar
            &&& ends_column(row, 25, 30, fields.percentage)
            &&& centers_column(row, 35, 52, fields.transfer)
            &&& ends_column(row, 57, 67, fields.speed)
            &&& row.skip(72) == fields.full_time
        }),
{
    reveal_strlit("  ▐  ");
    reveal_strlit(" ");
    let row = render::structured_rest(state, fields, LayoutMode::Full);
    let share = figures::right_aligned(fields.percentage, 4);
    let transfer = figures::centered(fields.transfer, 17);
    let speed = figures::right_aligned(fields.speed, 10);
    figures_laws::aligned_text_takes_its_column(fields.percentage, 4);
    figures_laws::aligned_text_takes_its_column(fields.transfer, 17);
    figures_laws::aligned_text_takes_its_column(fields.speed, 10);
    assert(row.subrange(5, 25) =~= fields.bar);
    assert(row.subrange(26, 30) =~= share);
    assert(row.subrange(35, 52) =~= transfer);
    assert(row.subrange(57, 67) =~= speed);
    assert(row.skip(72) =~= fields.full_time);
    lemma_column(row, 25, 26, 30, fields.percentage);
    lemma_column(row, 57, 57, 67, fields.speed);
    let half = (17 - fields.transfer.len()) / 2;
    let start = 35 + half;
    assert(row.subrange(start, start + fields.transfer.len()) =~= transfer.subrange(
        half,
        half + fields.transfer.len(),
    ));
    assert(transfer.subrange(half, half + fields.transfer.len()) =~= fields.transfer);
    assert forall|i: int|
        35 <= i < 52 && !(start <= i < start + fields.transfer.len()) implies #[trigger] row[i]
        == ' ' by {
        assert(row[i] == row.subrange(35, 52)[i - 35]);
        assert(transfer[i - 35] == ' ');
    }
}

/// Text that is aligned in a part of a column, with spaces before that part, ends the column.
proof fn lemma_column(row: Seq<char>, from: int, inner: int, to: int, field: Seq<char>)
    requires
        0 <= from <= inner <= to <= row.len(),
        field.len() <= to - inner,
        row.subrange(inner, to) == figures::right_aligned(field, (to - inner) as nat),
        forall|i: int| from <= i < inner ==> #[trigger] row[i] == ' ',
    ensures
        ends_column(row, from, to, field),
{
    let length = (to - inner) as nat;
    let aligned = figures::right_aligned(field, length);
    figures_laws::aligned_text_takes_its_column(field, length);
    assert(row.subrange(to - field.len(), to) =~= aligned.skip(length - field.len()));
    assert(aligned.skip(length - field.len()) =~= field);
    assert forall|i: int| from <= i < to - field.len() implies #[trigger] row[i] == ' ' by {
        if i >= inner {
            assert(row[i] == row.subrange(inner, to)[i - inner]);
            assert(aligned[i - inner] == ' ');
        }
    }
}

/// The poorer rows of columns show the share, the speed and the time, each in its column, and
/// the first of them what is there too.
pub proof fn poorer_rows_show_less(state: DisplayState, fields: FieldsView)
    requires
        render_laws::fit_columns(fields),
    ensures
        ({
            let row = render::structured_rest(state, fields, LayoutMode::Small);
            &&& row.len() == 42 + fields.time.len()
            &&& ends_column(row, 5, 9, fields.percentage)
            &&& ends_column(row, 14, 23, fields.current)
            &&& ends_column(row, 28, 38, fields.speed)
            &&& row.skip(42) == fields.time
        }),
        ({
            let row = render::structured_rest(state, fields, LayoutMode::Minimal);
            &&& row.len() == 28 + fields.time.len()
            &&& ends_column(row, 5, 9, fields.percentage)
            &&& ends_column(row, 14, 24, fields.speed)
            &&& row.skip(28) == fields.time
        }),
        ({
            let row = render::structured_rest(state, fields, LayoutMode::Compact);
            &&& row.len() == 19 + fields.time.len()
            &&& ends_column(row, 0, 6, fields.percentage)
            &&& ends_column(row, 6, 18, fields.speed)
            &&& row[18] == ' '
            &&& row.skip(19) == fields.time
        }),
{
    reveal_strlit("  ▐  ");
    reveal_strlit("  ▐ ");
    reveal_strlit("  ");
    reveal_strlit(" ");
    let share = figures::right_aligned(fields.percentage, 4);
    let current = figures::right_aligned(fields.current, 9);
    let speed = figures::right_aligned(fields.speed, 10);
    figures_laws::aligned_text_takes_its_column(fields.percentage, 4);
    figures_laws::aligned_text_takes_its_column(fields.current, 9);
    figures_laws::aligned_text_takes_its_column(fields.speed, 10);
    assert(share.len() == 4 && current.len() == 9 && speed.len() == 10);
    let small = render::structured_rest(state, fields, LayoutMode::Small);
    assert(small.subrange(5, 9) =~= share);
    assert(small.subrange(14, 23) =~= current);
    assert(small.subrange(28, 38) =~= speed);
    assert(small.skip(42) =~= fields.time);
    lemma_column(small, 5, 5, 9, fields.percentage);
    lemma_column(small, 14, 14, 23, fields.current);
    lemma_column(small, 28, 28, 38, fields.speed);
    let minimal = render::structured_rest(state, fields, LayoutMode::Minimal);
    assert(minimal.subrange(5, 9) =~= share);
    assert(minimal.subrange(14, 24) =~= speed);
    assert(minimal.skip(28) =~= fields.time);
    lemma_column(minimal, 5, 5, 9, fields.percentage);
    lemma_column(minimal, 14, 14, 24, fields.speed);
    let compact = render::structured_rest(state, fields, LayoutMode::Compact);
    assert(compact.subrange(2, 6) =~= share);
    assert(compact.subrange(8, 18) =~= speed);
    assert(compact.skip(19) =~= fields.time);
    lemma_column(compact, 0, 2, 6, fields.percentage);
    lemma_column(compact, 6, 8, 18, fields.speed);
}

/// The richest row of a skipped download shows that nothing is known in each of its columns.
pub proof fn a_full_row_of_a_skipped_download_shows_nothing(fields: FieldsView)
    requires
        fields.bar == unknown(),
    ensures
        ({
            let row = render::structured_rest(DisplayState::Skipped, fields, LayoutMode::Full);
            &&& row.len() == 75
            &&& ends_column(row, 5, 29, unknown())
            &&& row.subrange(40, 43) == unknown()
            &&& row.subrange(60, 63) == unknown()
            &&& row.subrange(72, 75) == unknown()
            &&& forall|i: int|
                0 <= i < 75 && !(26 <= i < 29 || 40 <= i < 43 || 60 <= i < 63 || 72 <= i < 75
                    || i == 2 || i == 32 || i == 54 || i == 69) ==> #[trigger] row[i] == ' '
        }),
{
    reveal_strlit("  ▐  ");
    reveal_strlit("   ▐       N/A           ▐     N/A      ▐  N/A");
    let row = render::structured_rest(DisplayState::Skipped, fields, LayoutMode::Full);
    let aligned = figures::right_aligned(unknown(), 24);
    figures_laws::aligned_text_takes_its_column(unknown(), 24);
    assert(row.subrange(5, 29) =~= aligned);
    lemma_column(row, 5, 5, 29, unknown());
    assert(row.subrange(40, 43) =~= unknown());
    assert(row.subrange(60, 63) =~= unknown());
    assert(row.subrange(72, 75) =~= unknown());
    assert forall|i: int|
        0 <= i < 75 && !(26 <= i < 29 || 40 <= i < 43 || 60 <= i < 63 || 72 <= i < 75 || i == 2
            || i == 32 || i == 54 || i == 69) implies #[trigger] row[i] == ' ' by {
        if 5 <= i < 26 {
            assert(row[i] == aligned[i - 5]);
        }
    }
}

/// A plain row shows the share, the speed and the time behind the file name, and only that
/// nothing is known where there is no share.
pub proof fn a_plain_row_shows_share_speed_and_time(fields: FieldsView)
    ensures
        render::plain_suffix(fields) == (if fields.percentage == unknown() {
            seq![' '] + unknown()
        } else {
            seq![' '] + fields.percentage + seq![' '] + fields.speed + seq![' '] + fields.time
        }),
{
    reveal_strlit("N/A");
    reveal_strlit(" N/A");
    reveal_strlit(" ");
    assert("N/A"@ =~= unknown());
    assert(" N/A"@ =~= seq![' '] + unknown());
    assert(" "@ =~= seq![' ']);
}

/// The start of a text is what is kept of it in so many cells: it fits, and one character more
/// does not.
pub open spec fn is_kept(name: Seq<char>, count: int, limit: nat) -> bool {
    &&& 0 <= count <= name.len()
    &&& forall|i: int|
        0 < i <= count ==> cells::display_cells(#[trigger] name.take(i)) <= limit
    &&& count < name.len() ==> cells::display_cells(name.take(count + 1)) > limit
}

/// Text that fits is shown whole. Text that does not is cut at its end, where as much of it as
/// fits before three dots is kept, and spaces fill what is left before them. In three cells or
/// fewer only dots are shown.
pub proof fn a_cut_text_keeps_what_fits(name: Seq<char>, limit: nat)
    ensures
        ({
            let shown = cells::truncated(name, limit);
            let fits = cells::display_cells(name) <= limit;
            &&& fits ==> shown == name
            &&& !fits && limit <= 3 ==> shown.len() == limit && forall|i: int|
                0 <= i < limit ==> #[trigger] shown[i] == '.'
            &&& !fits && limit > 3 ==> exists|count: int| #[trigger]
                is_kept(name, count, (limit - 3) as nat) && shown == name.take(count)
                    + text::repeated(
                    ' ',
                    (limit - 3 - cells::display_cells(name.take(count))) as nat,
                ) + seq!['.', '.', '.']
        }),
{
    reveal_strlit("...");
    assert("..."@ =~= seq!['.', '.', '.']);
    if cells::display_cells(name) > limit && limit > 3 {
        let space = (limit - 3) as nat;
        let counts = cells::prefix_cells(name);
        let count = cells::fitting(counts, space) as int;
        lemma_fitting(counts, space);
        assert forall|i: int| 0 < i <= count implies cells::display_cells(#[trigger] name.take(i))
            <= space by {
            assert(counts[i - 1] == cells::display_cells(name.take(i)));
        }
        assert(is_kept(name, count, space));
    }
}

/// What fits is at most the limit, and what comes next is not.
proof fn lemma_fitting(counts: Seq<nat>, limit: nat)
    ensures
        ({
            let count = cells::fitting(counts, limit) as int;
            &&& 0 <= count <= counts.len()
            &&& forall|i: int| 0 <= i < count ==> #[trigger] counts[i] <= limit
            &&& count < counts.len() ==> counts[count] > limit
        }),
    decreases counts.len(),
{
    if counts.len() > 0 && counts[0] <= limit {
        let rest = counts.drop_first();
        lemma_fitting(rest, limit);
        let count = cells::fitting(counts, limit) as int;
        assert forall|i: int| 0 <= i < count implies #[trigger] counts[i] <= limit by {
            if i > 0 {
                assert(rest[i - 1] == counts[i]);
            }
        }
    }
}

/// Text in a column of its own is followed by spaces for the cells that it does not take.
pub proof fn a_padded_text_is_followed_by_spaces(name: Seq<char>, limit: nat)
    ensures
        ({
            let shown = cells::truncated(name, limit);
            let padded = cells::padded(name, limit);
            &&& padded.take(shown.len() as int) == shown
            &&& forall|i: int| shown.len() <= i < padded.len() ==> #[trigger] padded[i] == ' '
            &&& cells::display_cells(shown) <= limit ==> padded.len() == shown.len() + limit
                - cells::display_cells(shown)
        }),
{
    let shown = cells::truncated(name, limit);
    let padded = cells::padded(name, limit);
    assert(padded.take(shown.len() as int) =~= shown);
}

/// Each separator of a row is replaced, and nothing else.
pub proof fn only_separators_are_replaced(left: Seq<char>, right: Seq<char>, wall: Seq<char>)
    ensures
        !left.contains('▐') ==> render::with_separators(left, wall) == left,
        render::with_separators(left + seq!['▐'] + right, wall) == render::with_separators(
            left,
            wall,
        ) + wall + render::with_separators(right, wall),
    decreases right.len(), left.len(),
{
    if !left.contains('▐') && left.len() > 0 {
        let fewer = left.drop_last();
        assert(left.contains(left[left.len() - 1]));
        if fewer.contains('▐') {
            let i = fewer.index_of('▐');
            assert(left[i] == '▐');
        }
        lemma_without_separators(fewer, wall);
        assert(fewer.push(left.last()) =~= left);
    } else if left.len() == 0 {
        assert(render::with_separators(left, wall) =~= left);
    }
    let all = left + seq!['▐'] + right;
    if right.len() == 0 {
        assert(all.drop_last() =~= left);
        assert(render::with_separators(right, wall) =~= seq![]);
        assert(render::with_separators(all, wall) =~= render::with_separators(left, wall) + wall
            + render::with_separators(right, wall));
    } else {
        let fewer = right.drop_last();
        only_separators_are_replaced(left, fewer, wall);
        assert(all.drop_last() =~= left + seq!['▐'] + fewer);
        assert(all.last() == right.last());
        assert(render::with_separators(all, wall) =~= render::with_separators(left, wall) + wall
            + render::with_separators(right, wall));
    }
}

/// A row without separators stays as it is.
proof fn lemma_without_separators(row: Seq<char>, wall: Seq<char>)
    requires
        !row.contains('▐'),
    ensures
        render::with_separators(row, wall) == row,
    decreases row.len(),
{
    if row.len() > 0 {
        let fewer = row.drop_last();
        assert(row.contains(row[row.len() - 1]));
        if fewer.contains('▐') {
            let i = fewer.index_of('▐');
            assert(row[i] == '▐');
        }
        lemma_without_separators(fewer, wall);
        assert(fewer.push(row.last()) =~= row);
    } else {
        assert(render::with_separators(row, wall) =~= row);
    }
}

/// The control sequence of a terminal that sets this color.
pub open spec fn color_code(tens: char, ones: char) -> Seq<char> {
    seq!['\u{1b}', '[', tens, ones, 'm']
}

/// A download is white while it goes on or is paused, green once it is complete, gray where it
/// was skipped, and red where it failed or was interrupted. Its row starts with that color and
/// ends with none, and the walls of a row that has them are purple.
pub proof fn colors_tell_the_state(row: Seq<char>, state: DisplayState, mode: LayoutMode)
    ensures
        ({
            let color = match state {
                DisplayState::Active | DisplayState::Paused => color_code('3', '7'),
                DisplayState::Success => color_code('3', '2'),
                DisplayState::Skipped => color_code('9', '0'),
                DisplayState::Error | DisplayState::Interrupted => color_code('3', '1'),
            };
            let reset = seq!['\u{1b}', '[', '0', 'm'];
            let wall = reset + color_code('3', '5') + seq!['▐'] + reset + color;
            &&& render::content_color(state) == color
            &&& render::colored(row, state, mode) == (if is_structured(mode) && mode
                != LayoutMode::Compact {
                color + render::with_separators(row, wall) + reset
            } else {
                color + row + reset
            })
        }),
{
    reveal_strlit("\u{1b}[0m");
    reveal_strlit("\u{1b}[35m");
    reveal_strlit("\u{1b}[37m");
    reveal_strlit("\u{1b}[32m");
    reveal_strlit("\u{1b}[90m");
    reveal_strlit("\u{1b}[31m");
    reveal_strlit("▐");
    assert("\u{1b}[0m"@ =~= seq!['\u{1b}', '[', '0', 'm']);
    assert("\u{1b}[35m"@ =~= color_code('3', '5'));
    assert("\u{1b}[37m"@ =~= color_code('3', '7'));
    assert("\u{1b}[32m"@ =~= color_code('3', '2'));
    assert("\u{1b}[90m"@ =~= color_code('9', '0'));
    assert("\u{1b}[31m"@ =~= color_code('3', '1'));
    assert("▐"@ =~= seq!['▐']);
}

/// Text takes the cells that it takes on its own where it fits, and all of them where it is cut.
pub proof fn cut_text_takes_all_cells(name: Seq<char>, limit: nat)
    ensures
        cells::shown_cells(name, limit) <= limit,
        cells::display_cells(name) <= limit ==> cells::shown_cells(name, limit)
            == cells::display_cells(name),
        cells::display_cells(name) > limit ==> cells::shown_cells(name, limit) == limit,
{
}

/// The mode that is chosen for so many cells is one whose rows fit in them, but for the poorest
/// one, whose rows are cut.
pub proof fn the_mode_that_is_chosen_fits(minima: MinimaView, usable: nat)
    ensures
        match render::richest_mode(minima, usable) {
            LayoutMode::Full => minima.full <= usable,
            LayoutMode::Small => minima.small <= usable,
            LayoutMode::Minimal => minima.minimal <= usable,
            LayoutMode::Compact => minima.compact <= usable,
            LayoutMode::Plain => minima.plain <= usable,
            LayoutMode::Extreme => usable < minima.plain,
        },
{
}

} // verus!
