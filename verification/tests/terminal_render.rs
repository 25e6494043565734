use std::cell::Cell;
use std::rc::Rc;

use rustypac::frames::{frame, row_width, Screen, TerminalInfo};
use rustypac::progress::{DisplayState, Duration, ProgressModel};
use unicode_width::UnicodeWidthStr;

const FULL: &str = "📦 very_long_filename_t...  ▐  ██████████░░░░░░░░░░  50%  ▐    1.0 / 2.0 GiB    ▐   10.3MiB/s  ▐  ETA  00:30";
const SMALL: &str = "📦 very_long_filename_t...  ▐   50%  ▐    1.0 GiB  ▐   10.3MiB/s  ▐ 00:30";

fn width(text: &str) -> usize {
    UnicodeWidthStr::width(text)
}

fn active_model(filename: &str) -> ProgressModel {
    ProgressModel {
        filename: filename.to_owned(),
        state: DisplayState::Active,
        downloaded: 1 << 30,
        total: Some(2 << 30),
        bytes_per_second: Some(10_800_333),
        elapsed: Duration::from_secs(90),
        eta: Some(Duration::from_secs(30)),
    }
}

fn completed_model(filename: &str) -> ProgressModel {
    ProgressModel {
        filename: filename.to_owned(),
        state: DisplayState::Success,
        downloaded: 2 << 30,
        total: Some(2 << 30),
        bytes_per_second: Some(10_800_333),
        elapsed: Duration::from_secs(120),
        eta: None,
    }
}

#[derive(Clone)]
struct Probe {
    terminal: Rc<Cell<TerminalInfo>>,
    calls: Rc<Cell<usize>>,
}

impl Probe {
    fn new(terminal: TerminalInfo) -> Self {
        Self { terminal: Rc::new(Cell::new(terminal)), calls: Rc::new(Cell::new(0)) }
    }

    fn set(&self, terminal: TerminalInfo) {
        self.terminal.set(terminal);
    }

    fn calls(&self) -> usize {
        self.calls.get()
    }

    fn probe(&self) -> TerminalInfo {
        self.calls.set(self.calls.get() + 1);
        self.terminal.get()
    }
}

struct Renderer {
    screen: Screen,
    probe: Probe,
    now: Duration,
    bytes: Vec<u8>,
    flushes: usize,
}

impl Renderer {
    fn new(probe: Probe) -> Self {
        Self {
            screen: Screen::new(),
            probe,
            now: Duration::zero(),
            bytes: Vec::new(),
            flushes: 0,
        }
    }

    fn write(&mut self, written: Option<String>) {
        if let Some(text) = written {
            self.bytes.extend_from_slice(text.as_bytes());
            self.flushes += 1;
        }
    }

    fn update(&mut self, model: &ProgressModel, force: bool) {
        if !self.screen.due(self.now, force) {
            return;
        }
        let info = self.probe.probe();
        let written = self.screen.update(model, info, self.now, force);
        self.write(written);
    }

    fn suspend(&mut self, model: &ProgressModel) {
        let info = self.probe.probe();
        let written = self.screen.suspend(model, info);
        self.write(written);
    }

    fn finish(&mut self, model: &ProgressModel) {
        let info = self.probe.probe();
        let written = self.screen.finish(model, info);
        self.write(written);
    }
}

fn strip_ansi(text: &str) -> String {
    let mut result = String::new();
    let mut characters = text.chars().peekable();
    while let Some(character) = characters.next() {
        if character == '\u{1b}' && characters.peek() == Some(&'[') {
            characters.next();
            for next in characters.by_ref() {
                if ('@'..='~').contains(&next) {
                    break;
                }
            }
        } else {
            result.push(character);
        }
    }
    result
}

fn line_feeds(bytes: &[u8]) -> usize {
    bytes.iter().filter(|&&byte| byte == b'\n').count()
}

#[test]
fn changed_frames_are_throttled_and_forced_frames_bypass_timing() {
    let mut renderer = Renderer::new(Probe::new(TerminalInfo::terminal(width(FULL))));

    renderer.update(&active_model("first.pkg"), false);
    let after_first = renderer.bytes.clone();
    assert!(after_first.starts_with(b"\r"));
    assert!(after_first.ends_with(b"\x1b[K"));
    assert!(after_first.windows(9).any(|part| part == b"first.pkg"));
    assert_eq!(renderer.flushes, 1);

    renderer.now = Duration::from_millis(999);
    renderer.update(&active_model("too-early.pkg"), false);
    assert_eq!(renderer.bytes, after_first);

    renderer.now = Duration::from_secs(1);
    renderer.update(&active_model("one-second.pkg"), false);
    let after_one_second = renderer.bytes.clone();
    let second_frame = &after_one_second[after_first.len()..];
    assert!(second_frame.starts_with(b"\r"));
    assert!(second_frame.ends_with(b"\x1b[K"));
    assert!(second_frame.windows(14).any(|part| part == b"one-second.pkg"));
    assert!(!second_frame.starts_with(b"\r\x1b[K"));
    assert_eq!(renderer.flushes, 2);

    renderer.now = Duration::from_secs(2);
    renderer.update(&active_model("one-second.pkg"), false);
    assert_eq!(renderer.bytes, after_one_second);

    renderer.now = Duration::from_millis(2_100);
    renderer.update(&active_model("forced.pkg"), true);
    let after_force = renderer.bytes.clone();
    assert!(after_force[after_one_second.len()..]
        .windows(10)
        .any(|part| part == b"forced.pkg"));
    assert_eq!(renderer.flushes, 3);

    renderer.update(&active_model("forced.pkg"), true);
    assert_eq!(renderer.bytes, after_force);
    assert_eq!(renderer.flushes, 3);
}

#[test]
fn forced_resize_reprobes_width_and_redraws_immediately() {
    let probe = Probe::new(TerminalInfo::terminal(width(FULL)));
    let mut renderer = Renderer::new(probe.clone());
    let model = active_model("very_long_filename_that_does_not_fit.zst");

    renderer.update(&model, false);
    let first_frame = renderer.bytes.clone();
    assert_eq!(
        strip_ansi(std::str::from_utf8(&first_frame).unwrap()),
        format!("\r{FULL}")
    );
    assert_eq!(probe.calls(), 1);

    probe.set(TerminalInfo::terminal(width(SMALL)));
    renderer.update(&model, true);
    let resized_frame = std::str::from_utf8(&renderer.bytes[first_frame.len()..]).unwrap();

    assert_eq!(strip_ansi(resized_frame), format!("\r{SMALL}"));
    assert_eq!(probe.calls(), 2);
}

#[test]
fn pty_uses_in_place_ansi_while_redirected_output_uses_flushed_records() {
    let mut terminal_renderer = Renderer::new(Probe::new(TerminalInfo::terminal(width(FULL))));

    terminal_renderer.update(&active_model("terminal.pkg"), false);
    terminal_renderer.finish(&completed_model("terminal.pkg"));
    terminal_renderer.finish(&completed_model("terminal.pkg"));

    let terminal_output = terminal_renderer.bytes;
    assert!(terminal_output.contains(&b'\r'));
    assert!(terminal_output.windows(2).any(|part| part == b"\x1b["));
    assert!(terminal_output.windows(3).any(|part| part == b"\x1b[K"));
    assert!(!terminal_output.windows(4).any(|part| part == b"\r\x1b[K"));
    assert_eq!(line_feeds(&terminal_output), 1);
    assert!(terminal_output.ends_with(b"\n"));

    let mut redirected_renderer =
        Renderer::new(Probe::new(TerminalInfo::redirected(width(FULL))));

    redirected_renderer.update(&active_model("redirected.pkg"), false);
    assert_eq!(line_feeds(&redirected_renderer.bytes), 1);
    assert_eq!(redirected_renderer.flushes, 1);

    redirected_renderer.finish(&completed_model("redirected.pkg"));
    redirected_renderer.finish(&completed_model("redirected.pkg"));
    let redirected_output = redirected_renderer.bytes;
    assert!(!redirected_output.contains(&b'\r'));
    assert!(!redirected_output.contains(&0x1b));
    assert_eq!(line_feeds(&redirected_output), 2);
    assert!(redirected_output.ends_with(b"\n"));
    assert_eq!(redirected_renderer.flushes, 2);
}

#[test]
fn an_unchanged_last_row_only_ends_its_line() {
    let mut renderer = Renderer::new(Probe::new(TerminalInfo::terminal(width(FULL))));
    let model = completed_model("same.pkg");
    renderer.update(&model, false);
    let drawn = renderer.bytes.clone();
    renderer.finish(&model);
    assert_eq!(&renderer.bytes[drawn.len()..], b"\n");
    renderer.update(&active_model("late.pkg"), true);
    assert_eq!(renderer.bytes.len(), drawn.len() + 1);
}

#[test]
fn a_suspended_row_is_left_standing_and_drawn_anew() {
    let mut renderer = Renderer::new(Probe::new(TerminalInfo::terminal(width(FULL))));
    let mut model = active_model("paused.pkg");
    renderer.update(&model, false);
    model.state = DisplayState::Paused;
    renderer.suspend(&model);
    assert!(renderer.bytes.ends_with(b"\n"));
    let suspended = renderer.bytes.clone();
    model.state = DisplayState::Active;
    renderer.update(&model, true);
    assert!(renderer.bytes[suspended.len()..].starts_with(b"\r"));
}

#[test]
fn frames_wrap_rows() {
    assert_eq!(frame("row", true), "\rrow\u{1b}[K");
    assert_eq!(frame("row", false), "row\n");
    assert_eq!(row_width(80), 79);
    assert_eq!(row_width(0), 0);
}

#[test]
fn rows_can_be_offered_as_they_are() {
    let mut screen = Screen::new();
    let offer = |screen: &mut Screen, row: &str, millis: u64, force: bool| {
        screen.offer(row.to_owned(), false, Duration::from_millis(millis), force)
    };
    assert_eq!(offer(&mut screen, "a", 0, false), Some("a\n".to_owned()));
    assert_eq!(offer(&mut screen, "b", 999, false), None);
    assert_eq!(offer(&mut screen, "b", 999, true), Some("b\n".to_owned()));
    assert_eq!(offer(&mut screen, "c", 1_500, false), None);
    assert_eq!(offer(&mut screen, "c", 1_999, false), Some("c\n".to_owned()));
    assert_eq!(screen.close("c", false, true), Some("c\n".to_owned()));
    assert_eq!(screen.close("d", false, true), None);
}
