//! When a row is written, and what is written around it.

use vstd::prelude::*;
use vstd::string::*;

use crate::progress::{Duration, ModelView, ProgressModel};
use crate::render;
use crate::render::format_row;
use crate::text::same;

verus! {

/// Where rows are written to.
#[derive(Debug, Clone, Copy, Eq, PartialEq, Structural)]
pub struct TerminalInfo {
    /// The cells of a row.
    pub width: usize,
    /// Rows are shown on a terminal, where one takes the place of the one before.
    pub interactive: bool,
}

impl TerminalInfo {
    /// A terminal of this width.
    pub fn terminal(width: usize) -> (info: TerminalInfo)
        ensures
            info == (TerminalInfo { width, interactive: true }),
    {
        TerminalInfo { width, interactive: true }
    }

    /// Anything but a terminal, with rows of this width.
    pub fn redirected(width: usize) -> (info: TerminalInfo)
        ensures
            info == (TerminalInfo { width, interactive: false }),
    {
        TerminalInfo { width, interactive: false }
    }
}

/// The width of rows on a terminal with so many columns: one cell at the right edge is left
/// free, so that the terminal does not wrap.
pub fn row_width(columns: usize) -> (width: usize)
    ensures
        width == (if columns == 0 {
            0
        } else {
            columns - 1
        }),
{
    columns.saturating_sub(1)
}

/// What is known of the rows that were written.
#[derive(Debug)]
pub struct Screen {
    last_row: Option<String>,
    written_at: Option<Duration>,
    row_open: bool,
    finished: bool,
}

/// The model of [`Screen`].
pub ghost struct ScreenView {
    /// The row that was written last.
    pub last_row: Option<Seq<char>>,
    /// When a row was written last.
    pub written_at: Option<Duration>,
    /// The line of that row has not ended.
    pub row_open: bool,
    /// The last row of all was written.
    pub finished: bool,
}

impl View for Screen {
    type V = ScreenView;

    closed spec fn view(&self) -> ScreenView {
        ScreenView {
            last_row: match self.last_row {
                Some(row) => Some(row@),
                None => None,
            },
            written_at: self.written_at,
            row_open: self.row_open,
            finished: self.finished,
        }
    }
}

/// A screen on which nothing was written.
pub open spec fn blank() -> ScreenView {
    ScreenView { last_row: None, written_at: None, row_open: false, finished: false }
}

/// A row may be written now: it is forced, or it is the first one, or the one before is at
/// least a second old.
pub open spec fn is_due(screen: ScreenView, now: Duration, force: bool) -> bool {
    !screen.finished && (force || match screen.written_at {
        Some(before) => now.nanoseconds() >= before.nanoseconds() + 1_000_000_000,
        None => true,
    })
}

/// What is written for a row: on a terminal it takes the place of the one before, and elsewhere
/// it is a line of its own.
pub open spec fn frame_text(row: Seq<char>, interactive: bool) -> Seq<char> {
    if interactive {
        "\r"@ + row + "\u{1b}[K"@
    } else {
        row + "\n"@
    }
}

/// The row that is written for a download.
pub open spec fn shown_row(model: ModelView, info: TerminalInfo) -> Seq<char> {
    let row = render::row_text(model, info.width as nat);
    if info.interactive {
        render::colored(row, model.state, render::mode_of(model, info.width as nat))
    } else {
        row
    }
}

/// The screen once `row` was offered to it, and what is written: nothing where no row is due or
/// where the row was written last already.
pub open spec fn offered(
    screen: ScreenView,
    row: Seq<char>,
    interactive: bool,
    now: Duration,
    force: bool,
) -> (ScreenView, Option<Seq<char>>) {
    if !is_due(screen, now, force) || screen.last_row == Some(row) {
        (screen, None)
    } else {
        (
            ScreenView {
                last_row: Some(row),
                written_at: Some(now),
                row_open: interactive,
                finished: false,
            },
            Some(frame_text(row, interactive)),
        )
    }
}

/// What is written so that `row` stands on a line that has ended.
pub open spec fn closing_text(screen: ScreenView, row: Seq<char>, interactive: bool) -> Seq<char> {
    if !interactive {
        frame_text(row, false)
    } else if screen.row_open && screen.last_row == Some(row) {
        "\n"@
    } else {
        frame_text(row, true) + "\n"@
    }
}

/// The screen once `row` was left standing, and what is written: nothing after the last row of
/// all.
pub open spec fn closed(
    screen: ScreenView,
    row: Seq<char>,
    interactive: bool,
    last: bool,
) -> (ScreenView, Option<Seq<char>>) {
    if screen.finished {
        (screen, None)
    } else {
        (
            ScreenView { finished: last, ..blank() },
            Some(closing_text(screen, row, interactive)),
        )
    }
}

/// What is written for a row.
pub fn frame(row: &str, interactive: bool) -> (written: String)
    ensures
        written@ == frame_text(row@, interactive),
{
    if interactive {
        let mut written: String = "\r".to_owned();
        written.append(row);
        written.append("\u{1b}[K");
        written
    } else {
        let mut written: String = row.to_owned();
        written.append("\n");
        written
    }
}

/// The text that was written, as a sequence of characters.
pub open spec fn written_view(written: Option<String>) -> Option<Seq<char>> {
    match written {
        Some(text) => Some(text@),
        None => None,
    }
}

impl Screen {
    /// A screen on which nothing was written.
    pub fn new() -> (screen: Screen)
        ensures
            screen@ == blank(),
    {
        Screen { last_row: None, written_at: None, row_open: false, finished: false }
    }

    /// A row may be written now.
    pub fn due(&self, now: Duration, force: bool) -> (due: bool)
        ensures
            due == is_due(self@, now, force),
    {
        if self.finished {
            return false;
        }
        if force {
            return true;
        }
        match self.written_at {
            Some(before) => now.is_a_second_after(before),
            None => true,
        }
    }

    /// The row was written last.
    fn holds(&self, row: &str) -> (held: bool)
        ensures
            held == (self@.last_row == Some(row@)),
    {
        match &self.last_row {
            Some(last) => same(last.as_str(), row),
            None => false,
        }
    }

    /// Offers a row, and says what is to be written and flushed, if anything is.
    pub fn offer(
        &mut self,
        row: String,
        interactive: bool,
        now: Duration,
        force: bool,
    ) -> (written: Option<String>)
        ensures
            (final(self)@, written_view(written)) == offered(
                old(self)@,
                row@,
                interactive,
                now,
                force,
            ),
    {
        if !self.due(now, force) || self.holds(row.as_str()) {
            return None;
        }
        let written: String = frame(row.as_str(), interactive);
        self.last_row = Some(row);
        self.written_at = Some(now);
        self.row_open = interactive;
        Some(written)
    }

    /// Leaves a row standing, the last one of all or not, and says what is to be written and
    /// flushed, if anything is.
    pub fn close(&mut self, row: &str, interactive: bool, last: bool) -> (written: Option<String>)
        ensures
            (final(self)@, written_view(written)) == closed(
                old(self)@,
                row@,
                interactive,
                last,
            ),
    {
        if self.finished {
            return None;
        }
        let written: String = if !interactive {
            frame(row, false)
        } else if self.row_open && self.holds(row) {
            "\n".to_owned()
        } else {
            let mut framed: String = frame(row, true);
            framed.append("\n");
            framed
        };
        self.last_row = None;
        self.written_at = None;
        self.row_open = false;
        self.finished = last;
        Some(written)
    }

    /// Shows a download, and says what is to be written and flushed, if anything is.
    pub fn update(
        &mut self,
        model: &ProgressModel,
        info: TerminalInfo,
        now: Duration,
        force: bool,
    ) -> (written: Option<String>)
        ensures
            (final(self)@, written_view(written)) == offered(
                old(self)@,
                shown_row(model@, info),
                info.interactive,
                now,
                force,
            ),
    {
        if !self.due(now, force) {
            return None;
        }
        let row: String = format_row(model, info.width, info.interactive);
        self.offer(row, info.interactive, now, force)
    }

    /// Leaves a download that is paused standing, and says what is to be written and flushed, if
    /// anything is.
    pub fn suspend(&mut self, model: &ProgressModel, info: TerminalInfo) -> (written: Option<
        String,
    >)
        ensures
            (final(self)@, written_view(written)) == closed(
                old(self)@,
                shown_row(model@, info),
                info.interactive,
                false,
            ),
    {
        let row: String = format_row(model, info.width, info.interactive);
        self.close(row.as_str(), info.interactive, false)
    }

    /// Leaves a download that has ended standing, and says what is to be written and flushed,
    /// if anything is.
    pub fn finish(&mut self, model: &ProgressModel, info: TerminalInfo) -> (written: Option<
        String,
    >)
        ensures
            (final(self)@, written_view(written)) == closed(
                old(self)@,
                shown_row(model@, info),
                info.interactive,
                true,
            ),
    {
        let row: String = format_row(model, info.width, info.interactive);
        self.close(row.as_str(), info.interactive, true)
    }
}

/// A row that is not forced is written no sooner than a second after the one before.
pub proof fn rows_are_a_second_apart(
    screen: ScreenView,
    row: Seq<char>,
    interactive: bool,
    now: Duration,
)
    requires
        offered(screen, row, interactive, now, false).1 is Some,
        screen.written_at is Some,
    ensures
        now.nanoseconds() >= screen.written_at->0.nanoseconds() + 1_000_000_000,
{
}

/// A row that was written last is not written again, forced or not.
pub proof fn an_unchanged_row_is_not_written_again(
    screen: ScreenView,
    row: Seq<char>,
    interactive: bool,
    first: Duration,
    second: Duration,
    force: bool,
)
    ensures
        ({
            let (after, written) = offered(screen, row, interactive, first, true);
            written is Some ==> offered(after, row, interactive, second, force) == (
                after,
                None::<Seq<char>>,
            )
        }),
{
}

/// A forced row that differs from the one before is written at once.
pub proof fn a_forced_row_is_written_at_once(
    screen: ScreenView,
    row: Seq<char>,
    interactive: bool,
    now: Duration,
)
    requires
        !screen.finished,
        screen.last_row != Some(row),
    ensures
        offered(screen, row, interactive, now, true).1 == Some(frame_text(row, interactive)),
{
}

/// After the last row of all nothing is written.
pub proof fn nothing_follows_the_last_row(
    screen: ScreenView,
    last: Seq<char>,
    row: Seq<char>,
    interactive: bool,
    now: Duration,
    force: bool,
    again: bool,
)
    requires
        !screen.finished,
    ensures
        ({
            let after = closed(screen, last, interactive, true).0;
            &&& offered(after, row, interactive, now, force).1 is None
            &&& closed(after, row, interactive, again).1 is None
        }),
{
}

/// The line of the last row ends with the last character that is written, and on a terminal
/// that is the only line feed, unless the row holds one.
pub proof fn the_last_row_ends_its_line(
    screen: ScreenView,
    row: Seq<char>,
    interactive: bool,
    last: bool,
)
    requires
        !screen.finished,
        !row.contains('\n'),
    ensures
        ({
            let written = closed(screen, row, interactive, last).1->0;
            &&& written.len() > 0
            &&& written.last() == '\n'
            &&& !written.drop_last().contains('\n')
        }),
{
    reveal_strlit("\r");
    reveal_strlit("\n");
    reveal_strlit("\u{1b}[K");
    let written = closed(screen, row, interactive, last).1->0;
    let before = written.drop_last();
    if before.contains('\n') {
        let i = before.index_of('\n');
        if interactive {
            assert(before =~= "\r"@ + row + "\u{1b}[K"@ || before =~= seq![]);
            if 1 <= i < 1 + row.len() {
                assert(row[i - 1] == '\n');
            }
        } else {
            assert(before =~= row);
            assert(row[i] == '\n');
        }
    }
}

/// On a terminal a row is drawn over the one before, from the start of the line and in color,
/// and only what is left behind it is cleared.
pub proof fn a_line_is_not_cleared_before_it_is_drawn(model: ModelView, width: usize)
    ensures
        ({
            let written = frame_text(
                shown_row(model, TerminalInfo { width, interactive: true }),
                true,
            );
            &&& written.len() > 7
            &&& written[0] == '\r'
            &&& written.subrange(1, 6) == render::content_color(model.state)
            &&& written.skip(written.len() - 3) == "\u{1b}[K"@
        }),
{
    reveal_strlit("\r");
    reveal_strlit("\u{1b}[K");
    reveal_strlit("\u{1b}[0m");
    reveal_strlit("\u{1b}[37m");
    reveal_strlit("\u{1b}[32m");
    reveal_strlit("\u{1b}[90m");
    reveal_strlit("\u{1b}[31m");
    let color = render::content_color(model.state);
    let row = shown_row(model, TerminalInfo { width, interactive: true });
    assert(color.len() == 5);
    assert(row.take(5) =~= color);
    let written = frame_text(row, true);
    assert(written.subrange(1, 6) =~= row.take(5));
    assert(written.skip(written.len() - 3) =~= "\u{1b}[K"@);
}

/// What is written elsewhere than on a terminal holds no escape and no carriage return, unless
/// the file name does.
pub proof fn redirected_output_is_plain(control: char, model: ModelView, width: usize)
    requires
        control == '\u{1b}' || control == '\r',
        !model.filename.contains(control),
    ensures
        !frame_text(
            shown_row(model, TerminalInfo { width, interactive: false }),
            false,
        ).contains(control),
{
    let row = render::row_text(model, width as nat);
    crate::render_laws::a_row_without_color_holds_no_control(control, model, width as nat);
    reveal_strlit("\n");
    let written = frame_text(row, false);
    if written.contains(control) {
        let i = written.index_of(control);
        if i < row.len() {
            assert(row[i] == control);
        }
    }
}

} // verus!
