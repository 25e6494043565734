//! What is written of every row, and when.

use vstd::prelude::*;
use vstd::string::*;

use crate::frames;
use crate::frames::{ScreenView, TerminalInfo};
use crate::progress::{Duration, ModelView};
use crate::render;

verus! {

/// What draws a row over the one before, from the start of the line, and clears what is left
/// behind it; or, elsewhere than on a terminal, writes it on a line of its own.
pub open spec fn drawn(row: Seq<char>, interactive: bool) -> Seq<char> {
    if interactive {
        seq!['\r'] + row + seq!['\u{1b}', '[', 'K']
    } else {
        row + seq!['\n']
    }
}

/// A row is drawn as that.
proof fn lemma_drawn(row: Seq<char>, interactive: bool)
    ensures
        frames::frame_text(row, interactive) == drawn(row, interactive),
{
    reveal_strlit("\r");
    reveal_strlit("\n");
    reveal_strlit("\u{1b}[K");
    assert("\r"@ =~= seq!['\r']);
    assert("\n"@ =~= seq!['\n']);
    assert("\u{1b}[K"@ =~= seq!['\u{1b}', '[', 'K']);
}

/// A second has gone by between the two.
pub open spec fn is_a_second_later(now: Duration, before: Duration) -> bool {
    now.secs * 1_000_000_000 + now.nanos >= before.secs * 1_000_000_000 + before.nanos
        + 1_000_000_000
}

/// A row that differs from the one before is written where it is forced, where it is the first
/// one, and where a second has gone by; and nothing is written otherwise, nor after the last row
/// of all. What was written is remembered, and when.
pub proof fn a_row_is_written_when_it_is_due(
    screen: ScreenView,
    row: Seq<char>,
    interactive: bool,
    now: Duration,
    force: bool,
)
    ensures
        ({
            let (after, written) = frames::offered(screen, row, interactive, now, force);
            let waited = screen.written_at is None || is_a_second_later(
                now,
                screen.written_at->0,
            );
            if !screen.finished && screen.last_row != Some(row) && (force || waited) {
                &&& written == Some(drawn(row, interactive))
                &&& after.last_row == Some(row)
                &&& after.written_at == Some(now)
                &&& after.row_open == interactive
                &&& !after.finished
            } else {
                written is None && after == screen
            }
        }),
{
    lemma_drawn(row, interactive);
}

/// A row that is left standing is followed by the end of its line, and drawn before that unless
/// it stands on the line already. Then the screen is as good as new, unless it was the last row
/// of all, after which nothing is left standing again.
pub proof fn a_row_that_is_left_standing_ends_its_line(
    screen: ScreenView,
    row: Seq<char>,
    interactive: bool,
    last: bool,
)
    ensures
        ({
            let (after, written) = frames::closed(screen, row, interactive, last);
            if screen.finished {
                written is None && after == screen
            } else {
                &&& after.last_row is None
                &&& after.written_at is None
                &&& !after.row_open
                &&& after.finished == last
                &&& written == Some(
                    if !interactive {
                        row + seq!['\n']
                    } else if screen.row_open && screen.last_row == Some(row) {
                        seq!['\n']
                    } else {
                        drawn(row, true) + seq!['\n']
                    },
                )
            }
        }),
{
    reveal_strlit("\n");
    assert("\n"@ =~= seq!['\n']);
    lemma_drawn(row, interactive);
    lemma_drawn(row, false);
}

/// After a row was left standing that was not the last one, the next one is written at once,
/// though it be the same and be not forced.
pub proof fn the_row_behind_one_left_standing_is_written_at_once(
    screen: ScreenView,
    row: Seq<char>,
    next: Seq<char>,
    interactive: bool,
    now: Duration,
)
    requires
        !screen.finished,
    ensures
        frames::offered(
            frames::closed(screen, row, interactive, false).0,
            next,
            interactive,
            now,
            false,
        ).1 == Some(drawn(next, interactive)),
{
    lemma_drawn(next, interactive);
}

/// A row is colored on a terminal, and plain elsewhere.
pub proof fn only_a_terminal_is_written_to_in_color(model: ModelView, width: usize)
    ensures
        frames::shown_row(model, TerminalInfo { width, interactive: false }) == render::row_text(
            model,
            width as nat,
        ),
        frames::shown_row(model, TerminalInfo { width, interactive: true }) == render::colored(
            render::row_text(model, width as nat),
            model.state,
            render::mode_of(model, width as nat),
        ),
{
}

/// A new screen holds nothing, and so its first row is written.
pub proof fn the_first_row_is_written(row: Seq<char>, interactive: bool, now: Duration)
    ensures
        frames::offered(frames::blank(), row, interactive, now, false).1 == Some(
            drawn(row, interactive),
        ),
{
    lemma_drawn(row, interactive);
}

/// A row leaves the last column of its terminal free.
pub proof fn a_row_leaves_the_last_column_free(columns: usize, width: usize)
    requires
        call_ensures(frames::row_width, (columns,), width),
    ensures
        columns > 0 ==> width + 1 == columns,
        columns == 0 ==> width == 0,
{
}

} // verus!
