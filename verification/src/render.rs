//! The row that shows a download.

use vstd::prelude::*;
use vstd::string::*;

use crate::cells;
use crate::cells::{pad_end, truncate_end};
use crate::figures;
use crate::figures::{
    align_right, center, format_bytes, format_duration, format_speed, format_transfer, percentage,
    progress_bar, UNAVAILABLE,
};
use crate::progress::{DisplayState, Duration, ModelView, ProgressModel};
use crate::text;
use crate::text::{characters, same};

verus! {

/// The cells that a file name has at least in a structured row.
pub const MIN_FILENAME_WIDTH: usize = 23;

/// What ends a color.
pub const RESET: &'static str = "\u{1b}[0m";

/// The color of the separators.
pub const PURPLE: &'static str = "\u{1b}[35m";

/// How much a row shows, from the richest to the poorest.
#[derive(Debug, Clone, Copy, Eq, PartialEq, Structural)]
pub enum LayoutMode {
    /// File name, bar and share, size and total, speed, and time with a caption.
    Full,
    /// File name, share, size, speed and time.
    Small,
    /// File name, share, speed and time.
    Minimal,
    /// What the minimal row shows, without separators.
    Compact,
    /// The same without alignment.
    Plain,
    /// A plain row that is cut at its end.
    Extreme,
}

/// What a row shows besides the file name.
#[derive(Debug)]
pub struct Fields {
    pub percentage: String,
    pub bar: String,
    pub current: String,
    pub transfer: String,
    pub speed: String,
    pub time: String,
    pub full_time: String,
}

/// The model of [`Fields`].
pub ghost struct FieldsView {
    pub percentage: Seq<char>,
    pub bar: Seq<char>,
    pub current: Seq<char>,
    pub transfer: Seq<char>,
    pub speed: Seq<char>,
    pub time: Seq<char>,
    pub full_time: Seq<char>,
}

impl View for Fields {
    type V = FieldsView;

    open spec fn view(&self) -> FieldsView {
        FieldsView {
            percentage: self.percentage@,
            bar: self.bar@,
            current: self.current@,
            transfer: self.transfer@,
            speed: self.speed@,
            time: self.time@,
            full_time: self.full_time@,
        }
    }
}

/// A span of time, where one is known.
pub open spec fn time_text(span: Option<Duration>) -> Seq<char> {
    match span {
        Some(duration) => figures::duration_text(duration.secs as nat),
        None => UNAVAILABLE@,
    }
}

/// The time that a row shows: how long a complete download took, or how long one that is not
/// will take.
pub open spec fn row_time(model: ModelView) -> Seq<char> {
    if model.state == DisplayState::Success {
        time_text(Some(model.elapsed))
    } else {
        time_text(model.eta)
    }
}

/// The time that a row shows, with a caption.
pub open spec fn captioned_time(model: ModelView) -> Seq<char> {
    if model.state == DisplayState::Success {
        "DONE "@ + row_time(model)
    } else if row_time(model) == UNAVAILABLE@ {
        UNAVAILABLE@
    } else {
        "ETA  "@ + row_time(model)
    }
}

/// What a row shows besides the file name.
pub open spec fn row_fields(model: ModelView) -> FieldsView {
    if model.state == DisplayState::Skipped {
        FieldsView {
            percentage: UNAVAILABLE@,
            bar: UNAVAILABLE@,
            current: UNAVAILABLE@,
            transfer: UNAVAILABLE@,
            speed: UNAVAILABLE@,
            time: UNAVAILABLE@,
            full_time: UNAVAILABLE@,
        }
    } else {
        FieldsView {
            percentage: figures::percentage_text(model.downloaded, model.total),
            bar: figures::bar_text(model.downloaded, model.total),
            current: figures::size_text(model.downloaded as nat),
            transfer: match model.total {
                Some(total) => figures::transfer_text(model.downloaded as nat, total as nat),
                None => UNAVAILABLE@,
            },
            speed: match model.bytes_per_second {
                Some(speed) => figures::speed_text(speed as nat),
                None => UNAVAILABLE@,
            },
            time: row_time(model),
            full_time: captioned_time(model),
        }
    }
}

/// The icon of a row.
pub open spec fn icon_text(state: DisplayState) -> Seq<char> {
    if state == DisplayState::Skipped {
        "⛓️‍💥"@
    } else {
        "📦"@
    }
}

/// The cells that terminals draw for the icon beyond those that are counted for it. The broken
/// chain is drawn as two glyphs where a font does not join it.
pub open spec fn icon_reserve(state: DisplayState) -> nat {
    if state == DisplayState::Skipped {
        2
    } else {
        0
    }
}

/// The cells of a terminal of this width that a row may take.
pub open spec fn usable_cells(state: DisplayState, width: nat) -> nat {
    if width >= icon_reserve(state) {
        (width - icon_reserve(state)) as nat
    } else {
        0
    }
}

/// What stands behind the file name in a structured row.
pub open spec fn structured_rest(
    state: DisplayState,
    fields: FieldsView,
    mode: LayoutMode,
) -> Seq<char> {
    match mode {
        LayoutMode::Full => if state == DisplayState::Skipped {
            "  ▐  "@ + figures::right_aligned(fields.bar, 24)
                + "   ▐       N/A           ▐     N/A      ▐  N/A"@
        } else {
            "  ▐  "@ + fields.bar + " "@ + figures::right_aligned(fields.percentage, 4) + "  ▐  "@
                + figures::centered(fields.transfer, 17) + "  ▐  "@ + figures::right_aligned(
                fields.speed,
                10,
            ) + "  ▐  "@ + fields.full_time
        },
        LayoutMode::Small => "  ▐  "@ + figures::right_aligned(fields.percentage, 4) + "  ▐  "@
            + figures::right_aligned(fields.current, 9) + "  ▐  "@ + figures::right_aligned(
            fields.speed,
            10,
        ) + "  ▐ "@ + fields.time,
        LayoutMode::Minimal => "  ▐  "@ + figures::right_aligned(fields.percentage, 4) + "  ▐  "@
            + figures::right_aligned(fields.speed, 10) + "  ▐ "@ + fields.time,
        _ => "  "@ + figures::right_aligned(fields.percentage, 4) + "  "@ + figures::right_aligned(
            fields.speed,
            10,
        ) + " "@ + fields.time,
    }
}

/// A structured row with a file name of this many cells.
pub open spec fn structured_text(model: ModelView, mode: LayoutMode, name_cells: nat) -> Seq<char> {
    icon_text(model.state) + " "@ + cells::padded(model.filename, name_cells) + structured_rest(
        model.state,
        row_fields(model),
        mode,
    )
}

/// What stands behind the file name in a plain row.
pub open spec fn plain_suffix(fields: FieldsView) -> Seq<char> {
    if fields.percentage == UNAVAILABLE@ {
        " N/A"@
    } else {
        " "@ + fields.percentage + " "@ + fields.speed + " "@ + fields.time
    }
}

/// A plain row with a file name of at most this many cells.
pub open spec fn plain_text(model: ModelView, name_cells: nat) -> Seq<char> {
    icon_text(model.state) + " "@ + cells::truncated(model.filename, name_cells) + plain_suffix(
        row_fields(model),
    )
}

/// The cells that a structured row takes at least.
pub open spec fn structured_minimum(model: ModelView, mode: LayoutMode) -> nat {
    cells::display_cells(structured_text(model, mode, MIN_FILENAME_WIDTH as nat))
}

/// The cells that a plain row takes besides the file name.
pub open spec fn plain_fixed(model: ModelView) -> nat {
    cells::display_cells(icon_text(model.state)) + 1 + cells::display_cells(
        plain_suffix(row_fields(model)),
    )
}

/// The cells of the file name in the shortest plain row.
pub open spec fn plain_name_minimum(model: ModelView) -> nat {
    if cells::display_cells(model.filename) < MIN_FILENAME_WIDTH {
        cells::display_cells(model.filename)
    } else {
        MIN_FILENAME_WIDTH as nat
    }
}

/// The shortest plain row.
pub open spec fn shortest_plain(model: ModelView) -> Seq<char> {
    plain_text(model, plain_name_minimum(model))
}

/// The cells that a plain row takes at least.
pub open spec fn plain_minimum(model: ModelView) -> nat {
    cells::display_cells(shortest_plain(model))
}

/// The cells that the rows take at least, from the richest on.
pub ghost struct MinimaView {
    pub full: nat,
    pub small: nat,
    pub minimal: nat,
    pub compact: nat,
    pub plain: nat,
}

/// The cells that the rows of a download take at least.
pub open spec fn row_minima(model: ModelView) -> MinimaView {
    MinimaView {
        full: structured_minimum(model, LayoutMode::Full),
        small: structured_minimum(model, LayoutMode::Small),
        minimal: structured_minimum(model, LayoutMode::Minimal),
        compact: structured_minimum(model, LayoutMode::Compact),
        plain: plain_minimum(model),
    }
}

/// The richest mode whose rows fit in `usable` cells.
pub open spec fn richest_mode(minima: MinimaView, usable: nat) -> LayoutMode {
    if usable >= minima.full {
        LayoutMode::Full
    } else if usable >= minima.small {
        LayoutMode::Small
    } else if usable >= minima.minimal {
        LayoutMode::Minimal
    } else if usable >= minima.compact {
        LayoutMode::Compact
    } else if usable >= minima.plain {
        LayoutMode::Plain
    } else {
        LayoutMode::Extreme
    }
}

/// The mode in which a download is shown on a terminal of this width.
pub open spec fn mode_of(model: ModelView, width: nat) -> LayoutMode {
    richest_mode(row_minima(model), usable_cells(model.state, width))
}

/// The row of a download on a terminal of this width, without color.
pub open spec fn row_text(model: ModelView, width: nat) -> Seq<char> {
    let usable = usable_cells(model.state, width);
    match mode_of(model, width) {
        LayoutMode::Plain => plain_text(
            model,
            if usable >= plain_fixed(model) {
                (usable - plain_fixed(model)) as nat
            } else {
                0
            },
        ),
        LayoutMode::Extreme => cells::truncated(shortest_plain(model), usable),
        mode => structured_text(
            model,
            mode,
            (MIN_FILENAME_WIDTH + usable - structured_minimum(model, mode)) as nat,
        ),
    }
}

/// The color of a download.
pub open spec fn content_color(state: DisplayState) -> Seq<char> {
    match state {
        DisplayState::Active | DisplayState::Paused => "\u{1b}[37m"@,
        DisplayState::Success => "\u{1b}[32m"@,
        DisplayState::Skipped => "\u{1b}[90m"@,
        DisplayState::Error | DisplayState::Interrupted => "\u{1b}[31m"@,
    }
}

/// `row` with `replacement` in place of each separator.
pub open spec fn with_separators(row: Seq<char>, replacement: Seq<char>) -> Seq<char>
    decreases row.len(),
{
    if row.len() == 0 {
        seq![]
    } else if row.last() == '▐' {
        with_separators(row.drop_last(), replacement) + replacement
    } else {
        with_separators(row.drop_last(), replacement).push(row.last())
    }
}

/// A separator in its color, within text of another color.
pub open spec fn colored_separator(color: Seq<char>) -> Seq<char> {
    RESET@ + PURPLE@ + "▐"@ + RESET@ + color
}

/// `row` in the color of the download, with the separators of a structured row in theirs.
pub open spec fn colored(row: Seq<char>, state: DisplayState, mode: LayoutMode) -> Seq<char> {
    let color = content_color(state);
    if mode == LayoutMode::Full || mode == LayoutMode::Small || mode == LayoutMode::Minimal {
        color + with_separators(row, colored_separator(color)) + RESET@
    } else {
        color + row + RESET@
    }
}

impl Fields {
    /// Fields of which nothing is known.
    fn unavailable() -> (fields: Fields)
        ensures
            fields@ == (FieldsView {
                percentage: UNAVAILABLE@,
                bar: UNAVAILABLE@,
                current: UNAVAILABLE@,
                transfer: UNAVAILABLE@,
                speed: UNAVAILABLE@,
                time: UNAVAILABLE@,
                full_time: UNAVAILABLE@,
            }),
    {
        Fields {
            percentage: UNAVAILABLE.to_owned(),
            bar: UNAVAILABLE.to_owned(),
            current: UNAVAILABLE.to_owned(),
            transfer: UNAVAILABLE.to_owned(),
            speed: UNAVAILABLE.to_owned(),
            time: UNAVAILABLE.to_owned(),
            full_time: UNAVAILABLE.to_owned(),
        }
    }

    /// What the row of a download shows besides the file name.
    pub fn from(model: &ProgressModel) -> (fields: Fields)
        ensures
            fields@ == row_fields(model@),
    {
        if model.state == DisplayState::Skipped {
            return Fields::unavailable();
        }
        let transfer: String = match model.total {
            Some(total) => format_transfer(model.downloaded, total),
            None => UNAVAILABLE.to_owned(),
        };
        let speed: String = match model.bytes_per_second {
            Some(bytes_per_second) => format_speed(bytes_per_second),
            None => UNAVAILABLE.to_owned(),
        };
        let span: Option<Duration> = if model.state == DisplayState::Success {
            Some(model.elapsed)
        } else {
            model.eta
        };
        let time: String = match span {
            Some(duration) => format_duration(duration),
            None => UNAVAILABLE.to_owned(),
        };
        let full_time: String = if model.state == DisplayState::Success {
            let mut captioned: String = "DONE ".to_owned();
            captioned.append(time.as_str());
            captioned
        } else if same(time.as_str(), UNAVAILABLE) {
            UNAVAILABLE.to_owned()
        } else {
            let mut captioned: String = "ETA  ".to_owned();
            captioned.append(time.as_str());
            captioned
        };
        Fields {
            percentage: percentage(model.downloaded, model.total),
            bar: progress_bar(model.downloaded, model.total),
            current: format_bytes(model.downloaded),
            transfer,
            speed,
            time,
            full_time,
        }
    }
}

/// The icon of a row.
pub fn icon(state: DisplayState) -> (icon: &'static str)
    ensures
        icon@ == icon_text(state),
{
    if state == DisplayState::Skipped {
        "⛓️‍💥"
    } else {
        "📦"
    }
}

/// The cells of a terminal of this width that a row may take.
pub fn usable_width(state: DisplayState, width: usize) -> (usable: usize)
    ensures
        usable == usable_cells(state, width as nat),
{
    if state == DisplayState::Skipped {
        width.saturating_sub(2)
    } else {
        width
    }
}

/// What stands behind the file name in a structured row.
fn structured_tail(state: DisplayState, fields: &Fields, mode: LayoutMode) -> (tail: String)
    ensures
        tail@ == structured_rest(state, fields@, mode),
{
    match mode {
        LayoutMode::Full => {
            let mut tail: String = "  ▐  ".to_owned();
            if state == DisplayState::Skipped {
                tail.append(align_right(fields.bar.as_str(), 24).as_str());
                tail.append("   ▐       N/A           ▐     N/A      ▐  N/A");
            } else {
                tail.append(fields.bar.as_str());
                tail.append(" ");
                tail.append(align_right(fields.percentage.as_str(), 4).as_str());
                tail.append("  ▐  ");
                tail.append(center(fields.transfer.as_str(), 17).as_str());
                tail.append("  ▐  ");
                tail.append(align_right(fields.speed.as_str(), 10).as_str());
                tail.append("  ▐  ");
                tail.append(fields.full_time.as_str());
            }
            tail
        },
        LayoutMode::Small => {
            let mut tail: String = "  ▐  ".to_owned();
            tail.append(align_right(fields.percentage.as_str(), 4).as_str());
            tail.append("  ▐  ");
            tail.append(align_right(fields.current.as_str(), 9).as_str());
            tail.append("  ▐  ");
            tail.append(align_right(fields.speed.as_str(), 10).as_str());
            tail.append("  ▐ ");
            tail.append(fields.time.as_str());
            tail
        },
        LayoutMode::Minimal => {
            let mut tail: String = "  ▐  ".to_owned();
            tail.append(align_right(fields.percentage.as_str(), 4).as_str());
            tail.append("  ▐  ");
            tail.append(align_right(fields.speed.as_str(), 10).as_str());
            tail.append("  ▐ ");
            tail.append(fields.time.as_str());
            tail
        },
        _ => {
            let mut tail: String = "  ".to_owned();
            tail.append(align_right(fields.percentage.as_str(), 4).as_str());
            tail.append("  ");
            tail.append(align_right(fields.speed.as_str(), 10).as_str());
            tail.append(" ");
            tail.append(fields.time.as_str());
            tail
        },
    }
}

/// What stands behind a file name starts with a space.
proof fn lemma_rest_starts_with_space(state: DisplayState, fields: FieldsView, mode: LayoutMode)
    ensures
        structured_rest(state, fields, mode).len() > 0,
        structured_rest(state, fields, mode)[0] == ' ',
        plain_suffix(fields).len() > 0,
        plain_suffix(fields)[0] == ' ',
{
    reveal_strlit("  ▐  ");
    reveal_strlit("  ");
    reveal_strlit(" ");
    reveal_strlit(" N/A");
}

/// The cells of a row are those of its icon, of the spaces behind it and of the rest.
spec fn parts_add_up(state: DisplayState) -> bool {
    &&& forall|rest: Seq<char>| #[trigger]
        cells::display_cells(icon_text(state) + seq![' '] + rest) == cells::display_cells(
            icon_text(state),
        ) + 1 + cells::display_cells(rest)
    &&& forall|rest: Seq<char>| #[trigger]
        cells::display_cells(icon_text(state) + (seq![' '] + seq![' ']) + rest)
            == cells::display_cells(icon_text(state)) + 2 + cells::display_cells(rest)
}

/// A structured row with this file name.
pub fn structured_line(state: DisplayState, fields: &Fields, mode: LayoutMode, name: &str) -> (row:
    String)
    ensures
        row@ == icon_text(state) + " "@ + name@ + structured_rest(state, fields@, mode),
{
    let mut row: String = icon(state).to_owned();
    row.append(" ");
    row.append(name);
    row.append(structured_tail(state, fields, mode).as_str());
    row
}

/// A plain row with this file name.
pub fn plain_line(state: DisplayState, fields: &Fields, name: &str) -> (row: String)
    ensures
        row@ == icon_text(state) + " "@ + name@ + plain_suffix(fields@),
{
    let mut row: String = icon(state).to_owned();
    row.append(" ");
    row.append(name);
    row.append(plain_tail(fields).as_str());
    row
}

/// A structured row with a file name of this many cells.
fn structured_row(
    model: &ProgressModel,
    fields: &Fields,
    mode: LayoutMode,
    name_cells: usize,
) -> (row: String)
    requires
        fields@ == row_fields(model@),
        parts_add_up(model.state),
    ensures
        row@ == structured_text(model@, mode, name_cells as nat),
        cells::display_cells(row@) == structured_fixed(model@, mode) + name_cells,
{
    let name: String = pad_end(model.filename.as_str(), name_cells);
    let row: String = structured_line(model.state, fields, mode, name.as_str());
    proof {
        reveal_strlit(" ");
        lemma_rest_starts_with_space(model.state, fields@, mode);
        let tail = structured_rest(model.state, fields@, mode);
        let behind = tail.skip(1);
        assert(" "@ =~= seq![' ']);
        assert(tail =~= seq![' '] + behind);
        assert(row@ =~= icon_text(model.state) + seq![' '] + (name@ + seq![' '] + behind));
        assert(cells::display_cells(name@ + seq![' '] + behind) == name_cells + 1
            + cells::display_cells(behind));
    }
    row
}

/// The cells that a structured row takes besides the file name.
pub open spec fn structured_fixed(model: ModelView, mode: LayoutMode) -> nat {
    cells::display_cells(icon_text(model.state)) + 2 + cells::display_cells(
        structured_rest(model.state, row_fields(model), mode).skip(1),
    )
}

/// What stands behind the file name in a plain row.
fn plain_tail(fields: &Fields) -> (tail: String)
    ensures
        tail@ == plain_suffix(fields@),
{
    if same(fields.percentage.as_str(), UNAVAILABLE) {
        return " N/A".to_owned();
    }
    let mut tail: String = " ".to_owned();
    tail.append(fields.percentage.as_str());
    tail.append(" ");
    tail.append(fields.speed.as_str());
    tail.append(" ");
    tail.append(fields.time.as_str());
    tail
}

/// A plain row with a file name of at most this many cells.
fn plain_row_with_filename_width(
    model: &ProgressModel,
    fields: &Fields,
    name_cells: usize,
) -> (row: String)
    requires
        fields@ == row_fields(model@),
        parts_add_up(model.state),
    ensures
        row@ == plain_text(model@, name_cells as nat),
        cells::display_cells(row@) == plain_fixed(model@) + cells::shown_cells(
            model@.filename,
            name_cells as nat,
        ),
{
    let name: String = truncate_end(model.filename.as_str(), name_cells);
    let row: String = plain_line(model.state, fields, name.as_str());
    proof {
        reveal_strlit(" ");
        lemma_rest_starts_with_space(model.state, fields@, LayoutMode::Full);
        let tail = plain_suffix(fields@);
        let behind = tail.skip(1);
        let gap = seq![' '];
        assert(" "@ =~= gap);
        assert(tail =~= gap + behind);
        assert(row@ =~= icon_text(model.state) + gap + (name@ + gap + behind));
        assert(cells::display_cells(name@ + gap + behind) == cells::display_cells(name@) + 1
            + cells::display_cells(behind));
        lemma_leading_space(model.state, behind);
    }
    row
}

/// A space before text adds one cell.
proof fn lemma_leading_space(state: DisplayState, behind: Seq<char>)
    requires
        parts_add_up(state),
    ensures
        cells::display_cells(seq![' '] + behind) == 1 + cells::display_cells(behind),
{
    let gap = seq![' '];
    let icon = icon_text(state);
    assert(icon + gap + (gap + behind) =~= icon + (gap + gap) + behind);
    assert(cells::display_cells(icon + (gap + gap) + behind) == cells::display_cells(icon) + 2
        + cells::display_cells(behind));
    assert(cells::display_cells(icon + gap + (gap + behind)) == cells::display_cells(icon) + 1
        + cells::display_cells(gap + behind));
}

/// The cells that the rows of a download take at least, and those of what is in them.
struct Minima {
    icon: usize,
    full: usize,
    small: usize,
    minimal: usize,
    compact: usize,
    plain: usize,
}

impl Minima {
    /// The model of the minima.
    spec fn view(&self) -> MinimaView {
        MinimaView {
            full: self.full as nat,
            small: self.small as nat,
            minimal: self.minimal as nat,
            compact: self.compact as nat,
            plain: self.plain as nat,
        }
    }
}

/// The richest mode whose rows fit in `usable` cells, by the cells that the rows of each mode
/// take at least.
pub fn select_mode(
    full: usize,
    small: usize,
    minimal: usize,
    compact: usize,
    plain: usize,
    usable: usize,
) -> (mode: LayoutMode)
    ensures
        mode == richest_mode(
            MinimaView {
                full: full as nat,
                small: small as nat,
                minimal: minimal as nat,
                compact: compact as nat,
                plain: plain as nat,
            },
            usable as nat,
        ),
{
    if usable >= full {
        LayoutMode::Full
    } else if usable >= small {
        LayoutMode::Small
    } else if usable >= minimal {
        LayoutMode::Minimal
    } else if usable >= compact {
        LayoutMode::Compact
    } else if usable >= plain {
        LayoutMode::Plain
    } else {
        LayoutMode::Extreme
    }
}

/// The cells that a structured row takes at least.
fn structured_minimum_width(model: &ProgressModel, fields: &Fields, mode: LayoutMode) -> (count:
    usize)
    requires
        fields@ == row_fields(model@),
        parts_add_up(model.state),
    ensures
        count == structured_minimum(model@, mode),
        count == structured_fixed(model@, mode) + MIN_FILENAME_WIDTH,
{
    cells::cells(structured_row(model, fields, mode, MIN_FILENAME_WIDTH).as_str())
}

/// The shortest plain row.
fn shortest_plain_row(model: &ProgressModel, fields: &Fields) -> (row: String)
    requires
        fields@ == row_fields(model@),
        parts_add_up(model.state),
    ensures
        row@ == shortest_plain(model@),
        cells::display_cells(row@) == plain_fixed(model@) + plain_name_minimum(model@),
{
    let taken: usize = cells::cells(model.filename.as_str());
    let name_cells: usize = if taken < MIN_FILENAME_WIDTH {
        taken
    } else {
        MIN_FILENAME_WIDTH
    };
    plain_row_with_filename_width(model, fields, name_cells)
}

/// The cells of the icon of a row.
fn icon_width(state: DisplayState) -> (count: usize)
    ensures
        count == cells::display_cells(icon_text(state)),
        parts_add_up(state),
{
    let count: usize = cells::cells(icon(state));
    proof {
        assert forall|rest: Seq<char>| #[trigger]
            cells::display_cells(icon_text(state) + seq![' '] + rest) == count + 1
                + cells::display_cells(rest) by {
            assert(cells::all_inert(seq![' ']));
        }
        assert forall|rest: Seq<char>| #[trigger]
            cells::display_cells(icon_text(state) + (seq![' '] + seq![' ']) + rest) == count + 2
                + cells::display_cells(rest) by {
            assert(cells::all_inert(seq![' '] + seq![' ']));
        }
    }
    count
}

/// The cells that the rows of a download take at least.
fn measure(model: &ProgressModel, fields: &Fields) -> (minima: Minima)
    requires
        fields@ == row_fields(model@),
    ensures
        minima@ == row_minima(model@),
        minima.icon == cells::display_cells(icon_text(model.state)),
        minima.plain == plain_fixed(model@) + plain_name_minimum(model@),
        parts_add_up(model.state),
{
    Minima {
        icon: icon_width(model.state),
        full: structured_minimum_width(model, fields, LayoutMode::Full),
        small: structured_minimum_width(model, fields, LayoutMode::Small),
        minimal: structured_minimum_width(model, fields, LayoutMode::Minimal),
        compact: structured_minimum_width(model, fields, LayoutMode::Compact),
        plain: cells::cells(shortest_plain_row(model, fields).as_str()),
    }
}

/// The mode in which a download is shown on a terminal of this width: the richest one whose
/// rows fit.
pub fn layout_mode(model: &ProgressModel, width: usize) -> (mode: LayoutMode)
    ensures
        mode == mode_of(model@, width as nat),
{
    let fields: Fields = Fields::from(model);
    let minima: Minima = measure(model, &fields);
    select_mode(
        minima.full,
        minima.small,
        minima.minimal,
        minima.compact,
        minima.plain,
        usable_width(model.state, width),
    )
}

/// The row of a download on a terminal of this width, in color or not. Without color it takes
/// every usable cell in a structured mode and when it is cut, and no more than those in a
/// plain one.
pub fn format_row(model: &ProgressModel, width: usize, color: bool) -> (row: String)
    ensures
        row@ == (if color {
            colored(row_text(model@, width as nat), model.state, mode_of(model@, width as nat))
        } else {
            row_text(model@, width as nat)
        }),
        mode_of(model@, width as nat) != LayoutMode::Plain && !color ==> cells::display_cells(row@)
            == usable_cells(model.state, width as nat),
        !color ==> cells::display_cells(row@) <= usable_cells(model.state, width as nat),
{
    let fields: Fields = Fields::from(model);
    let minima: Minima = measure(model, &fields);
    let usable: usize = usable_width(model.state, width);
    let mode: LayoutMode = select_mode(
        minima.full,
        minima.small,
        minima.minimal,
        minima.compact,
        minima.plain,
        usable,
    );
    let row: String = match mode {
        LayoutMode::Plain => {
            let tail_cells: usize = cells::cells(plain_tail(&fields).as_str());
            let name_cells: usize = usable - minima.icon - 1 - tail_cells;
            plain_row_with_filename_width(model, &fields, name_cells)
        },
        LayoutMode::Extreme => {
            let shortest: String = shortest_plain_row(model, &fields);
            truncate_end(shortest.as_str(), usable)
        },
        _ => {
            let minimum: usize = structured_minimum_width(model, &fields, mode);
            structured_row(model, &fields, mode, usable - minimum + MIN_FILENAME_WIDTH)
        },
    };
    if color {
        colorize(row.as_str(), model.state, mode)
    } else {
        row
    }
}

/// `row` in the color of the download, with the separators of a structured row in theirs.
pub fn colorize(row: &str, state: DisplayState, mode: LayoutMode) -> (colorful: String)
    ensures
        colorful@ == colored(row@, state, mode),
{
    let color: &'static str = match state {
        DisplayState::Active | DisplayState::Paused => "\u{1b}[37m",
        DisplayState::Success => "\u{1b}[32m",
        DisplayState::Skipped => "\u{1b}[90m",
        DisplayState::Error | DisplayState::Interrupted => "\u{1b}[31m",
    };
    let mut colorful: String = color.to_owned();
    if mode == LayoutMode::Full || mode == LayoutMode::Small || mode == LayoutMode::Minimal {
        let mut separator: String = RESET.to_owned();
        separator.append(PURPLE);
        separator.append("▐");
        separator.append(RESET);
        separator.append(color);
        colorful.append(replace_separators(row, separator.as_str()).as_str());
    } else {
        colorful.append(row);
    }
    colorful.append(RESET);
    colorful
}

/// `row` with `replacement` in place of each separator.
fn replace_separators(row: &str, replacement: &str) -> (replaced: String)
    ensures
        replaced@ == with_separators(row@, replacement@),
{
    let all: Vec<char> = characters(row);
    let mut replaced: String = String::new();
    let mut index: usize = 0;
    assert(replaced@ =~= with_separators(all@.take(0), replacement@));
    while index < all.len()
        invariant
            index <= all@.len(),
            all@ == row@,
            replaced@ == with_separators(all@.take(index as int), replacement@),
        decreases all@.len() - index,
    {
        proof {
            assert(all@.take(index + 1).drop_last() =~= all@.take(index as int));
        }
        if all[index] == '▐' {
            replaced.append(replacement);
        } else {
            replaced.push(all[index]);
        }
        index += 1;
    }
    assert(all@.take(index as int) =~= row@);
    replaced
}

} // verus!
