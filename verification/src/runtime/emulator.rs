//! Per-pane terminal emulator on top of `alacritty_terminal`.
//!
//! Wraps `Term`, the ANSI `Processor` and an event listener behind the narrow
//! contract the rest of the crate needs: feed PTY bytes, resize, scroll, query
//! the modes. What the emulator reports is turned into plain values before
//! anything is decided on it.

use crate::runtime::modes::{fresh_modes, PaneModes};
use crate::text::{
    all_chars, chars_of, is_ctrl, is_space, lemma_trim_keeps, lemma_trimmed_ends, string_of, trim,
    trim_text, without_controls, without_ctrl,
};
use alacritty_terminal::event::{Event, EventListener};
use alacritty_terminal::grid::Scroll;
use alacritty_terminal::term::test::TermSize;
use alacritty_terminal::term::{Config, Term};
use alacritty_terminal::vte::ansi::Processor;
use std::cell::RefCell;
use std::rc::Rc;
use vstd::prelude::*;
use vstd::utf8::encode_utf8;

verus! {

/// `alacritty_terminal::event::Event`, what a terminal tells its listener.
#[verifier::external_type_specification]
#[verifier::external_body]
pub struct ExEvent(Event);

/// `alacritty_terminal::term::Term`, the emulated screen with its modes and
/// its scrollback.
#[verifier::external_type_specification]
#[verifier::external_body]
#[verifier::reject_recursive_types(T)]
pub struct ExTerm<T>(Term<T>);

/// `std::cell::RefCell`, which the listener and the emulator share.
#[verifier::external_type_specification]
#[verifier::external_body]
#[verifier::reject_recursive_types(T)]
pub struct ExRefCell<T: ?Sized>(RefCell<T>);

/// The state of `alacritty_terminal::vte::ansi::Processor`, the parser of
/// escape sequences.
#[verifier::external_body]
pub struct AnsiParser(Processor);

/// Side effects surfaced by `PaneEmulator::process` for the caller to act on.
pub struct EmulatorEvents {
    /// Most recent OSC 0/2 window title in the processed chunk, already
    /// stripped of control characters and surrounding whitespace.
    pub title: Option<String>,
    /// Terminal query responses (DA, DSR, ...) the emulator produced while
    /// processing. Must be written back to the pane's PTY.
    pub pty_writes: Vec<u8>,
}

impl EmulatorEvents {
    pub open spec fn title_text(&self) -> Option<Seq<char>> {
        match self.title {
            Some(title) => Some(title@),
            None => None,
        }
    }
}

impl Default for EmulatorEvents {
    fn default() -> (r: EmulatorEvents)
        ensures
            r.title is None,
            r.pty_writes@ == Seq::<u8>::empty(),
    {
        EmulatorEvents { title: None, pty_writes: Vec::new() }
    }
}

/// Where a scroll request for a pane must be delivered. A program that owns
/// its viewport keeps its transcript in its own memory, so scrolling the grid
/// would move nothing; the scroll has to reach the program as input instead.
#[derive(Debug, Clone, Copy, PartialEq, Eq, Structural)]
pub enum ScrollSink {
    /// The program tracks the mouse and reports in SGR (1006) form: send it
    /// wheel events.
    MouseWheel,
    /// The program is on the alternate screen and left xterm's
    /// `alternateScroll` (1007) enabled: send it arrow keys.
    ArrowKeys,
    /// Nothing claimed the scroll, so the emulator's own scrollback owns it.
    Scrollback,
}

/// What the emulator reports that a pane has a use for.
pub enum TermEvent {
    /// A program set the window title.
    Title(String),
    /// The emulator answers a query of the program.
    PtyWrite(String),
    /// Clipboard, bell, damage and child-process events, which are not part
    /// of a pane's contract.
    Other,
}

/// Event sink handed to `Term`. The listener only gets `&self`, so what it
/// collects lives behind `Rc<RefCell>`; the emulator keeps a second handle and
/// drains it after each chunk.
pub struct EventProxy(Rc<RefCell<Vec<TermEvent>>>);

/// Tells the variants of `alacritty_terminal::event::Event` apart: a title, a
/// reply for the PTY, anything else. Nothing is claimed of the result: the
/// event is opaque.
#[verifier::external_body]
fn term_event(event: Event) -> (r: TermEvent) {
    match event {
        Event::Title(title) => TermEvent::Title(title),
        Event::PtyWrite(text) => TermEvent::PtyWrite(text),
        _ => TermEvent::Other,
    }
}

/// `std::cell::RefCell::replace`: puts a list of events into the cell. The
/// contents of a cell are no part of its value here, so there is nothing to
/// state.
#[verifier::external_body]
fn put_events(log: &Rc<RefCell<Vec<TermEvent>>>, events: Vec<TermEvent>) {
    log.replace(events);
}

/// `std::cell::RefCell::take` on the collected events: hands them over and
/// leaves the list empty. The contents of a cell are no part of its value
/// here, so nothing is claimed of which events come out; what a terminal
/// reported while it was fed is handed out by `feed`.
#[verifier::external_body]
fn take_events(log: &Rc<RefCell<Vec<TermEvent>>>) -> (r: Vec<TermEvent>) {
    log.take()
}

/// `std::cell::RefCell::new` on an empty list. The contents of a cell are no
/// part of its value here, so there is nothing to state.
#[verifier::external_body]
fn new_cell() -> (r: RefCell<Vec<TermEvent>>) {
    RefCell::new(Vec::new())
}

/// `std::rc::Rc::clone`: a second handle to the same cell.
#[verifier::external_body]
fn share(log: &Rc<RefCell<Vec<TermEvent>>>) -> (r: Rc<RefCell<Vec<TermEvent>>>)
    ensures
        r == *log,
{
    log.clone()
}

impl EventListener for EventProxy {
    fn send_event(&self, event: Event) {
        let mut events = take_events(&self.0);
        events.push(term_event(event));
        put_events(&self.0, events);
    }
}

/// A title as it is shown: without control characters and without the white
/// space around it.
pub open spec fn cleaned_title(title: Seq<char>) -> Seq<char> {
    trim_text(without_ctrl(title))
}

/// The title that `events` leave: the last one with anything to show.
pub open spec fn title_of(events: Seq<TermEvent>) -> Option<Seq<char>>
    decreases events.len(),
{
    if events.len() == 0 {
        None
    } else {
        match events.last() {
            TermEvent::Title(title) if cleaned_title(title@).len() > 0 => Some(
                cleaned_title(title@),
            ),
            _ => title_of(events.drop_last()),
        }
    }
}

/// The bytes that `events` ask to write to the PTY, in order.
pub open spec fn writes_of(events: Seq<TermEvent>) -> Seq<u8>
    decreases events.len(),
{
    if events.len() == 0 {
        Seq::empty()
    } else {
        match events.last() {
            TermEvent::PtyWrite(text) => writes_of(events.drop_last()) + encode_utf8(text@),
            _ => writes_of(events.drop_last()),
        }
    }
}

/// What a chunk's events come to.
pub fn collect_events(events: &Vec<TermEvent>) -> (r: EmulatorEvents)
    ensures
        r.title_text() == title_of(events@),
        r.pty_writes@ == writes_of(events@),
{
    let mut title: Option<String> = None;
    let mut pty_writes: Vec<u8> = Vec::new();
    let mut i: usize = 0;
    proof {
        assert(events@.take(0) =~= Seq::<TermEvent>::empty());
    }
    while i < events.len()
        invariant
            i <= events@.len(),
            (match title {
                Some(t) => Some(t@),
                None => None::<Seq<char>>,
            }) == title_of(events@.take(i as int)),
            pty_writes@ == writes_of(events@.take(i as int)),
        decreases events.len() - i,
    {
        proof {
            assert(events@.take(i + 1).drop_last() =~= events@.take(i as int));
            assert(events@.take(i + 1).last() == events@[i as int]);
        }
        match &events[i] {
            TermEvent::Title(text) => {
                let cleaned = trim(&without_controls(&chars_of(text.as_str())));
                if cleaned.len() > 0 {
                    title = Some(string_of(&cleaned));
                }
            },
            TermEvent::PtyWrite(text) => {
                let ghost before = pty_writes@;
                pty_writes.extend_from_slice(text.as_str().as_bytes());
                proof {
                    assert(pty_writes@ =~= before + encode_utf8(text@));
                }
            },
            TermEvent::Other => {},
        }
        i += 1;
    }
    proof {
        assert(events@.take(i as int) =~= events@);
    }
    EmulatorEvents { title, pty_writes }
}

/// Whether `title` can be shown as it stands: it has something in it, no
/// control character, and no white space at its ends.
pub open spec fn presentable(title: Seq<char>) -> bool {
    &&& title.len() > 0
    &&& all_chars(title, |c: char| !is_ctrl(c))
    &&& !is_space(title[0])
    &&& !is_space(title.last())
}

/// A title that reaches a pane is presentable, whatever the program sent.
pub proof fn law_titles_are_presentable(events: Seq<TermEvent>)
    ensures
        title_of(events) matches Some(title) ==> presentable(title),
    decreases events.len(),
{
    if events.len() > 0 {
        law_titles_are_presentable(events.drop_last());
        if let TermEvent::Title(title) = events.last() {
            let keep = |c: char| !is_ctrl(c);
            let visible = without_ctrl(title@);
            assert(all_chars(visible, keep)) by {
                assert forall|i: int| 0 <= i < visible.len() implies keep(#[trigger] visible[i]) by {
                    title@.lemma_filter_pred(keep, i);
                }
            }
            lemma_trim_keeps(visible, keep);
            lemma_trimmed_ends(visible);
        }
    }
}

/// The mode flags of a terminal (`Term::mode`, as bits).
pub uninterp spec fn mode_bits_of(term: Term<EventProxy>) -> u32;

/// The screen size of a terminal, as lines and columns (`Dimensions` of
/// `Term`).
pub uninterp spec fn screen_of(term: Term<EventProxy>) -> (usize, usize);

/// How many lines a terminal's view is scrolled up (`Grid::display_offset`).
pub uninterp spec fn display_offset_of(term: Term<EventProxy>) -> usize;

/// How many lines of history a terminal's grid holds
/// (`Dimensions::history_size`).
pub uninterp spec fn history_size_of(term: Term<EventProxy>) -> usize;

/// Whether feeding `bytes` to `parser` and `term` can leave them as `after` and
/// `parser_after`, with `events` reported to the terminal's listener, in order
/// (`Processor::advance`).
pub uninterp spec fn fed(
    term: Term<EventProxy>,
    parser: AnsiParser,
    bytes: Seq<u8>,
    after: Term<EventProxy>,
    parser_after: AnsiParser,
    events: Seq<TermEvent>,
) -> bool;

/// The listener that a terminal reports to (the third argument of `Term::new`).
pub uninterp spec fn listener_of(term: Term<EventProxy>) -> EventProxy;

/// How many lines of history a terminal was made to keep
/// (`Config::scrolling_history`).
pub uninterp spec fn history_limit_of(term: Term<EventProxy>) -> usize;

/// What a terminal is once its screen has so many lines and columns
/// (`Term::resize`).
pub uninterp spec fn refit(term: Term<EventProxy>, lines: usize, columns: usize) -> Term<
    EventProxy,
>;

pub const SHOW_CURSOR: u32 = 0x1;

pub const APP_CURSOR: u32 = 0x2;

pub const MOUSE_REPORT_CLICK: u32 = 0x8;

pub const BRACKETED_PASTE: u32 = 0x10;

pub const SGR_MOUSE: u32 = 0x20;

pub const MOUSE_MOTION: u32 = 0x40;

pub const LINE_WRAP: u32 = 0x80;

pub const FOCUS_IN_OUT: u32 = 0x800;

pub const ALT_SCREEN: u32 = 0x1000;

pub const MOUSE_DRAG: u32 = 0x2000;

pub const UTF8_MOUSE: u32 = 0x4000;

pub const ALTERNATE_SCROLL: u32 = 0x8000;

/// Any of the three ways to report the mouse.
pub const MOUSE_MODE: u32 = 0x2048;

/// The flags a terminal starts with: visible cursor, autowrap, alternate
/// scroll and urgency hints.
pub const INITIAL_MODE: u32 = 0x28081;

/// Smallest grid the emulator supports. A 1-column grid makes wide-character
/// reflow loop forever on resize.
pub const MIN_COLUMNS: u16 = 2;

pub const MIN_SCREEN_LINES: u16 = 1;

/// Whether so many lines of history can be kept: together with those of the
/// tallest screen they can be counted.
pub open spec fn can_keep(lines: usize) -> bool {
    lines + u16::MAX <= usize::MAX
}

/// `Term::new` with a scrollback of `history` lines: a screen of `lines` by
/// `columns`, in the initial modes, scrolled nowhere and with no history, which
/// reports to `proxy` and will keep so many lines.
#[verifier::external_body]
fn open_term(lines: usize, columns: usize, history: usize, proxy: EventProxy) -> (r: Term<
    EventProxy,
>)
    requires
        1 <= lines <= 65535,
        2 <= columns <= 65535,
        can_keep(history),
    ensures
        screen_of(r) == (lines, columns),
        listener_of(r) == proxy,
        history_limit_of(r) == history,
        mode_bits_of(r) == INITIAL_MODE,
        display_offset_of(r) == 0,
        history_size_of(r) == 0,
{
    let config = Config { scrolling_history: history, ..Config::default() };
    Term::new(config, &TermSize::new(columns, lines), proxy)
}

/// `Processor::new`.
#[verifier::external_body]
fn new_parser() -> (r: AnsiParser) {
    AnsiParser(Processor::new())
}

/// `Processor::advance`, and `std::cell::RefCell::take` on what the terminal's
/// listener collected: parses `bytes` into `term`, which keeps its screen size,
/// its listener and its limit of history, and hands out what was reported.
/// A link without an id is given one from a counter of the process, and the
/// parser can keep a time, so what comes out is tied to what went in without
/// being said to follow from it alone. Between two calls only the movement of
/// the view is reported, which stands for nothing here.
#[verifier::external_body]
fn feed(
    parser: &mut AnsiParser,
    term: &mut Term<EventProxy>,
    bytes: &[u8],
    listener: &EventProxy,
) -> (r: Vec<TermEvent>)
    requires
        listener_of(*old(term)) == *listener,
    ensures
        fed(*old(term), *old(parser), bytes@, *final(term), *final(parser), r@),
        screen_of(*final(term)) == screen_of(*old(term)),
        listener_of(*final(term)) == listener_of(*old(term)),
        history_limit_of(*final(term)) == history_limit_of(*old(term)),
{
    parser.0.advance(term, bytes);
    listener.0.take()
}

/// `Term::resize`: the screen takes the size; the modes, the listener and the
/// limit of history stay. How the lines are wrapped anew is left to the name.
/// It adds the limit and the lines, which `requires` keeps from overflowing.
#[verifier::external_body]
fn resize_term(term: &mut Term<EventProxy>, lines: usize, columns: usize)
    requires
        1 <= lines <= 65535,
        2 <= columns <= 65535,
        can_keep(history_limit_of(*old(term))),
    ensures
        *final(term) == refit(*old(term), lines, columns),
        screen_of(*final(term)) == (lines, columns),
        listener_of(*final(term)) == listener_of(*old(term)),
        history_limit_of(*final(term)) == history_limit_of(*old(term)),
        mode_bits_of(*final(term)) == mode_bits_of(*old(term)),
{
    term.resize(TermSize::new(columns, lines));
}

/// `Term::mode`, as bits.
#[verifier::external_body]
fn mode_bits(term: &Term<EventProxy>) -> (r: u32)
    ensures
        r == mode_bits_of(*term),
{
    term.mode().bits()
}

/// `Grid::display_offset` of the terminal's grid.
#[verifier::external_body]
fn display_offset(term: &Term<EventProxy>) -> (r: usize)
    ensures
        r == display_offset_of(*term),
{
    term.grid().display_offset()
}

/// How to move a terminal's view.
pub enum ViewScroll {
    /// By so many lines, up where positive.
    Delta(i32),
    /// To the live bottom.
    Bottom,
}

/// `Term::scroll_display`: the view moves within the history; nothing else of
/// what is named here changes.
#[verifier::external_body]
fn scroll_display(term: &mut Term<EventProxy>, scroll: ViewScroll)
    requires
        scroll matches ViewScroll::Delta(delta) ==> display_offset_of(*old(term)) <= i32::MAX
            && i32::MIN <= display_offset_of(*old(term)) + delta <= i32::MAX,
    ensures
        display_offset_of(*final(term)) == (match scroll {
            ViewScroll::Delta(delta) => least(
                most(display_offset_of(*old(term)) + delta, 0),
                history_size_of(*old(term)) as int,
            ),
            ViewScroll::Bottom => 0,
        }),
        history_size_of(*final(term)) == history_size_of(*old(term)),
        screen_of(*final(term)) == screen_of(*old(term)),
        mode_bits_of(*final(term)) == mode_bits_of(*old(term)),
        listener_of(*final(term)) == listener_of(*old(term)),
        history_limit_of(*final(term)) == history_limit_of(*old(term)),
{
    term.scroll_display(match scroll {
        ViewScroll::Delta(delta) => Scroll::Delta(delta),
        ViewScroll::Bottom => Scroll::Bottom,
    });
}

/// The smaller of two numbers.
pub open spec fn least(a: int, b: int) -> int {
    if a <= b {
        a
    } else {
        b
    }
}

/// The larger of two numbers.
pub open spec fn most(a: int, b: int) -> int {
    if a >= b {
        a
    } else {
        b
    }
}

/// Where a scroll goes under the mode flags `bits`. Mouse reporting wins over
/// `alternateScroll`, and without SGR form the program expects an encoding
/// that cannot address every column.
pub open spec fn sink_of(bits: u32) -> ScrollSink {
    if bits & MOUSE_MODE != 0 && bits & SGR_MOUSE != 0 {
        ScrollSink::MouseWheel
    } else if bits & ALT_SCREEN != 0 && bits & ALTERNATE_SCROLL != 0 {
        ScrollSink::ArrowKeys
    } else {
        ScrollSink::Scrollback
    }
}

/// Where a scroll goes under the mode flags `bits`.
pub fn scroll_sink_of(bits: u32) -> (r: ScrollSink)
    ensures
        r == sink_of(bits),
{
    if bits & MOUSE_MODE != 0 && bits & SGR_MOUSE != 0 {
        ScrollSink::MouseWheel
    } else if bits & ALT_SCREEN != 0 && bits & ALTERNATE_SCROLL != 0 {
        ScrollSink::ArrowKeys
    } else {
        ScrollSink::Scrollback
    }
}

/// The tracked modes among the mode flags `bits`.
pub open spec fn modes_of(bits: u32) -> PaneModes {
    PaneModes {
        alt_screen: bits & ALT_SCREEN != 0,
        app_cursor: bits & APP_CURSOR != 0,
        bracketed_paste: bits & BRACKETED_PASTE != 0,
        show_cursor: bits & SHOW_CURSOR != 0,
        line_wrap: bits & LINE_WRAP != 0,
        mouse_click: bits & MOUSE_REPORT_CLICK != 0,
        mouse_drag: bits & MOUSE_DRAG != 0,
        mouse_motion: bits & MOUSE_MOTION != 0,
        sgr_mouse: bits & SGR_MOUSE != 0,
        utf8_mouse: bits & UTF8_MOUSE != 0,
        alternate_scroll: bits & ALTERNATE_SCROLL != 0,
        focus_in_out: bits & FOCUS_IN_OUT != 0,
    }
}

/// The tracked modes among the mode flags `bits`.
pub fn pane_modes_of(bits: u32) -> (r: PaneModes)
    ensures
        r == modes_of(bits),
{
    PaneModes {
        alt_screen: bits & ALT_SCREEN != 0,
        app_cursor: bits & APP_CURSOR != 0,
        bracketed_paste: bits & BRACKETED_PASTE != 0,
        show_cursor: bits & SHOW_CURSOR != 0,
        line_wrap: bits & LINE_WRAP != 0,
        mouse_click: bits & MOUSE_REPORT_CLICK != 0,
        mouse_drag: bits & MOUSE_DRAG != 0,
        mouse_motion: bits & MOUSE_MOTION != 0,
        sgr_mouse: bits & SGR_MOUSE != 0,
        utf8_mouse: bits & UTF8_MOUSE != 0,
        alternate_scroll: bits & ALTERNATE_SCROLL != 0,
        focus_in_out: bits & FOCUS_IN_OUT != 0,
    }
}

/// The default modes are those a terminal starts in.
pub proof fn law_default_modes_are_the_initial_ones()
    ensures
        modes_of(INITIAL_MODE) == fresh_modes(),
{
    assert(0x28081u32 & 0x1000 == 0 && 0x28081u32 & 0x2 == 0 && 0x28081u32 & 0x10 == 0
        && 0x28081u32 & 0x1 != 0 && 0x28081u32 & 0x80 != 0 && 0x28081u32 & 0x8 == 0
        && 0x28081u32 & 0x2000 == 0 && 0x28081u32 & 0x40 == 0 && 0x28081u32 & 0x20 == 0
        && 0x28081u32 & 0x4000 == 0 && 0x28081u32 & 0x8000 != 0 && 0x28081u32 & 0x800 == 0)
        by (bit_vector);
}

/// What a scroll is turned into follows from the modes that are announced to
/// a later client: one that was told them delivers scrolls as this one does.
pub proof fn law_sink_follows_from_modes(bits: u32)
    ensures
        sink_of(bits) == ({
            let m = modes_of(bits);
            if (m.mouse_click || m.mouse_drag || m.mouse_motion) && m.sgr_mouse {
                ScrollSink::MouseWheel
            } else if m.alt_screen && m.alternate_scroll {
                ScrollSink::ArrowKeys
            } else {
                ScrollSink::Scrollback
            }
        }),
{
    assert(bits & 0x2048 != 0 <==> (bits & 0x8 != 0 || bits & 0x2000 != 0 || bits & 0x40 != 0))
        by (bit_vector);
}

/// A size clamped to the smallest grid the emulator supports.
pub open spec fn clamped_size(rows: u16, cols: u16) -> (u16, u16) {
    (
        if rows >= MIN_SCREEN_LINES {
            rows
        } else {
            MIN_SCREEN_LINES
        },
        if cols >= MIN_COLUMNS {
            cols
        } else {
            MIN_COLUMNS
        },
    )
}

/// Clamp a requested pane size to the supported minimum grid.
///
/// The same clamp is applied to the backend PTY size and to the recorded
/// sizes, so the PTY, the emulator grid and the record cannot diverge at
/// degenerate layouts.
pub fn effective_size(rows: u16, cols: u16) -> (r: (u16, u16))
    ensures
        r == clamped_size(rows, cols),
{
    (
        if rows >= MIN_SCREEN_LINES {
            rows
        } else {
            MIN_SCREEN_LINES
        },
        if cols >= MIN_COLUMNS {
            cols
        } else {
            MIN_COLUMNS
        },
    )
}

/// Clamping a clamped size changes nothing.
pub proof fn law_clamp_is_idempotent(rows: u16, cols: u16)
    ensures
        clamped_size(clamped_size(rows, cols).0, clamped_size(rows, cols).1) == clamped_size(
            rows,
            cols,
        ),
{
}

/// Read-only view of a pane's screen as currently scrolled.
pub struct ScreenView<'a> {
    pub term: &'a Term<EventProxy>,
}

/// One pane's emulated terminal.
pub struct PaneEmulator {
    pub term: Term<EventProxy>,
    pub parser: AnsiParser,
    pub proxy: EventProxy,
}

/// A pane's terminal, the parser that feeds it and the listener that hears it.
pub struct ScreenModel {
    pub term: Term<EventProxy>,
    pub parser: AnsiParser,
    pub listener: EventProxy,
}

impl ScreenModel {
    /// The screen size, as lines and columns.
    pub open spec fn size(self) -> (usize, usize) {
        screen_of(self.term)
    }

    /// The terminal reports to the listener that is heard, and can take every
    /// size with the history it keeps.
    pub open spec fn wf(self) -> bool {
        &&& listener_of(self.term) == self.listener
        &&& can_keep(history_limit_of(self.term))
    }

    /// Whether this is a screen of so many rows and columns as it is opened: in
    /// the default modes, scrolled nowhere and with no history, of which it
    /// will keep `scrollback_lines`.
    pub open spec fn is_new(self, rows: u16, cols: u16, scrollback_lines: usize) -> bool {
        &&& self.size() == (clamped_size(rows, cols).0 as usize, clamped_size(
            rows,
            cols,
        ).1 as usize)
        &&& modes_of(mode_bits_of(self.term)) == fresh_modes()
        &&& display_offset_of(self.term) == 0
        &&& history_size_of(self.term) == 0
        &&& history_limit_of(self.term) == scrollback_lines
    }

    /// Whether `after` can come of feeding `bytes` to this screen, with `events`
    /// reported.
    pub open spec fn takes_in(
        self,
        bytes: Seq<u8>,
        after: ScreenModel,
        events: Seq<TermEvent>,
    ) -> bool {
        &&& fed(self.term, self.parser, bytes, after.term, after.parser, events)
        &&& after.size() == self.size()
        &&& after.listener == self.listener
        &&& history_limit_of(after.term) == history_limit_of(self.term)
    }

    /// The screen at another size.
    pub open spec fn fitted(self, rows: u16, cols: u16) -> ScreenModel {
        ScreenModel {
            term: refit(
                self.term,
                clamped_size(rows, cols).0 as usize,
                clamped_size(rows, cols).1 as usize,
            ),
            ..self
        }
    }
}

impl PaneEmulator {
    pub open spec fn model(&self) -> ScreenModel {
        ScreenModel { term: self.term, parser: self.parser, listener: self.proxy }
    }

    pub open spec fn wf(&self) -> bool {
        self.model().wf()
    }

    /// Create an emulator with a `rows` x `cols` screen (clamped to the
    /// minimum grid) and `scrollback_lines` of history.
    pub fn new(rows: u16, cols: u16, scrollback_lines: usize) -> (r: PaneEmulator)
        requires
            can_keep(scrollback_lines),
        ensures
            r.wf(),
            r.model().is_new(rows, cols, scrollback_lines),
    {
        let (rows, cols) = effective_size(rows, cols);
        let log = Rc::new(new_cell());
        let listener = EventProxy(share(&log));
        let term = open_term(rows as usize, cols as usize, scrollback_lines, listener);
        proof {
            law_default_modes_are_the_initial_ones();
        }
        PaneEmulator { term, parser: new_parser(), proxy: EventProxy(log) }
    }

    /// Feed raw PTY output through the emulator, updating the screen state.
    /// Returns the side effects (title change, terminal query responses).
    pub fn process(&mut self, bytes: &[u8]) -> (r: EmulatorEvents)
        requires
            old(self).wf(),
        ensures
            final(self).wf(),
            exists|events: Seq<TermEvent>|
                {
                    &&& #[trigger] old(self).model().takes_in(
                        bytes@,
                        final(self).model(),
                        events,
                    )
                    &&& r.title_text() == title_of(events)
                    &&& r.pty_writes@ == writes_of(events)
                },
    {
        let events = feed(&mut self.parser, &mut self.term, bytes, &self.proxy);
        let r = collect_events(&events);
        proof {
            assert(old(self).model().takes_in(bytes@, self.model(), events@));
        }
        r
    }

    /// Resize the emulated screen, reflowing wrapped lines.
    pub fn resize(&mut self, rows: u16, cols: u16)
        requires
            old(self).wf(),
        ensures
            final(self).wf(),
            final(self).model() == old(self).model().fitted(rows, cols),
            final(self).model().size() == (
                clamped_size(rows, cols).0 as usize,
                clamped_size(rows, cols).1 as usize,
            ),
            mode_bits_of(final(self).term) == mode_bits_of(old(self).term),
            history_limit_of(final(self).term) == history_limit_of(old(self).term),
    {
        let (rows, cols) = effective_size(rows, cols);
        resize_term(&mut self.term, rows as usize, cols as usize);
    }

    /// Set the absolute scrollback offset (0 = live bottom, larger = older)
    /// and return the offset actually applied after clamping to the
    /// available history.
    pub fn set_scroll_offset(&mut self, offset: usize) -> (r: usize)
        ensures
            r == least(
                least(offset as int, i32::MAX as int),
                history_size_of(old(self).term) as int,
            ),
            r == display_offset_of(final(self).term),
            history_size_of(final(self).term) == history_size_of(old(self).term),
            history_limit_of(final(self).term) == history_limit_of(old(self).term),
            listener_of(final(self).term) == listener_of(old(self).term),
            final(self).model().size() == old(self).model().size(),
            final(self).parser == old(self).parser,
            final(self).proxy == old(self).proxy,
            mode_bits_of(final(self).term) == mode_bits_of(old(self).term),
            old(self).wf() ==> final(self).wf(),
    {
        if display_offset(&self.term) > 0x7fff_ffff {
            scroll_display(&mut self.term, ViewScroll::Bottom);
        }
        let current: i64 = display_offset(&self.term) as i64;
        let wanted: i64 = if offset > 0x7fff_ffff {
            0x7fff_ffff
        } else {
            offset as i64
        };
        let delta: i32 = (wanted - current) as i32;
        scroll_display(&mut self.term, ViewScroll::Delta(delta));
        display_offset(&self.term)
    }

    /// Current scrollback offset (0 = live bottom).
    pub fn scroll_offset(&self) -> (r: usize)
        ensures
            r == display_offset_of(self.term),
    {
        display_offset(&self.term)
    }

    /// Read-only view of the screen as currently scrolled.
    pub fn view(&self) -> (r: ScreenView<'_>)
        ensures
            *r.term == self.term,
    {
        ScreenView { term: &self.term }
    }

    /// Which input, if any, a scroll request for this pane must be turned
    /// into.
    pub fn scroll_sink(&self) -> (r: ScrollSink)
        ensures
            r == sink_of(mode_bits_of(self.term)),
    {
        scroll_sink_of(mode_bits(&self.term))
    }

    /// Whether the program asked for mouse button reports in SGR form, the
    /// gate for forwarding clicks. A click has no scrollback fallback: it is
    /// either claimed by the program or dropped.
    pub fn wants_mouse_buttons(&self) -> (r: bool)
        ensures
            r == (sink_of(mode_bits_of(self.term)) == ScrollSink::MouseWheel),
    {
        let bits: u32 = mode_bits(&self.term);
        bits & MOUSE_MODE != 0 && bits & SGR_MOUSE != 0
    }

    /// Whether the program enabled DECCKM (application cursor keys), which
    /// changes the arrow-key encoding from `ESC [ A` to `ESC O A`.
    pub fn app_cursor(&self) -> (r: bool)
        ensures
            r == modes_of(mode_bits_of(self.term)).app_cursor,
    {
        mode_bits(&self.term) & APP_CURSOR != 0
    }

    /// The modes a later-attaching client has to be told about.
    pub fn modes(&self) -> (r: PaneModes)
        ensures
            r == modes_of(mode_bits_of(self.term)),
    {
        pane_modes_of(mode_bits(&self.term))
    }
}

/// The title that a chunk leaves is the last one with anything to show; a chunk
/// without one leaves none.
pub proof fn law_last_shown_title_wins(events: Seq<TermEvent>)
    ensures
        title_of(events) is None <==> forall|i: int|
            #![trigger events[i]]
            0 <= i < events.len() ==> (events[i] matches TermEvent::Title(title)
                ==> cleaned_title(title@).len() == 0),
        title_of(events) matches Some(shown) ==> exists|i: int|
            #![trigger events[i]]
            0 <= i < events.len() && (events[i] matches TermEvent::Title(title) && shown
                == cleaned_title(title@) && shown.len() > 0) && forall|j: int|
                i < j < events.len() ==> (#[trigger] events[j] matches TermEvent::Title(title)
                    ==> cleaned_title(title@).len() == 0),
    decreases events.len(),
{
    if events.len() > 0 {
        let rest = events.drop_last();
        law_last_shown_title_wins(rest);
        let last = events.last();
        let n = events.len() - 1;
        assert(events[n] == last);
        assert(forall|i: int| 0 <= i < rest.len() ==> #[trigger] rest[i] == events[i]);
        let shows = last matches TermEvent::Title(title) && cleaned_title(title@).len() > 0;
        if shows {
            let title = last->Title_0;
            assert(events[n] == TermEvent::Title(title));
        } else {
            assert(title_of(events) == title_of(rest));
            if title_of(events) is Some {
                let i = choose|i: int|
                    #![trigger rest[i]]
                    0 <= i < rest.len() && (rest[i] matches TermEvent::Title(title)
                        && title_of(rest)->0 == cleaned_title(title@) && title_of(rest)->0.len()
                        > 0) && forall|j: int|
                        i < j < rest.len() ==> (#[trigger] rest[j] matches TermEvent::Title(title)
                            ==> cleaned_title(title@).len() == 0);
                assert(events[i] == rest[i]);
                assert forall|j: int| i < j < events.len() implies (
                #[trigger] events[j] matches TermEvent::Title(title) ==> cleaned_title(
                    title@,
                ).len() == 0) by {
                    if j < n {
                        assert(rest[j] == events[j]);
                    }
                }
            } else {
                assert forall|i: int| 0 <= i < events.len() implies (
                #[trigger] events[i] matches TermEvent::Title(title) ==> cleaned_title(
                    title@,
                ).len() == 0) by {
                    if i < n {
                        assert(rest[i] == events[i]);
                    }
                }
            }
        }
    }
}

/// A shown title is what is left of the title without its control characters
/// and without the white space around that. A title with neither is shown as
/// it is.
pub proof fn law_clean_titles_are_shown_whole(title: Seq<char>)
    ensures
        cleaned_title(title) == trim_text(
            title.filter(|c: char| !(c as u32 <= 0x1f || 0x7f <= c as u32 <= 0x9f)),
        ),
        title.len() > 0 && title[0] as u32 > 0x20 && title.last() as u32 > 0x20 && (forall|i: int|
            0 <= i < title.len() ==> 0x20 <= #[trigger] title[i] as u32 <= 0x7e)
            ==> cleaned_title(title) == title,
{
    let keep = |c: char| !(c as u32 <= 0x1f || 0x7f <= c as u32 <= 0x9f);
    assert(keep =~= |c: char| !crate::text::is_ctrl(c));
    if title.len() > 0 && title[0] as u32 > 0x20 && title.last() as u32 > 0x20 && (forall|i: int|
        0 <= i < title.len() ==> 0x20 <= #[trigger] title[i] as u32 <= 0x7e) {
        lemma_filter_all(title, keep);
    }
}

proof fn lemma_filter_all(s: Seq<char>, keep: spec_fn(char) -> bool)
    requires
        forall|i: int| 0 <= i < s.len() ==> keep(#[trigger] s[i]),
    ensures
        s.filter(keep) == s,
    decreases s.len(),
{
    reveal(Seq::filter);
    if s.len() > 0 {
        lemma_filter_all(s.drop_last(), keep);
        assert(s =~= s.drop_last().push(s.last()));
    }
}

/// What a chunk asks to write to the PTY is every reply in it, whole and in
/// order, and nothing besides.
pub proof fn law_replies_are_written_whole(
    first: Seq<TermEvent>,
    second: Seq<TermEvent>,
    event: TermEvent,
)
    ensures
        writes_of(first + second) == writes_of(first) + writes_of(second),
        writes_of(seq![event]) == match event {
            TermEvent::PtyWrite(text) => encode_utf8(text@),
            TermEvent::Title(_) => Seq::<u8>::empty(),
            TermEvent::Other => Seq::<u8>::empty(),
        },
        writes_of(Seq::<TermEvent>::empty()) == Seq::<u8>::empty(),
    decreases second.len(),
{
    assert(seq![event].drop_last() =~= Seq::<TermEvent>::empty());
    assert(writes_of(seq![event].drop_last()) =~= Seq::<u8>::empty());
    if second.len() == 0 {
        assert(first + second =~= first);
    } else {
        law_replies_are_written_whole(first, second.drop_last(), event);
        assert((first + second).drop_last() =~= first + second.drop_last());
        assert((first + second).last() == second.last());
    }
}

/// A screen has at least one row and two columns, and otherwise the size that
/// was asked for.
pub proof fn law_only_too_small_sizes_are_clamped(rows: u16, cols: u16)
    ensures
        rows >= 1 ==> clamped_size(rows, cols).0 == rows,
        rows == 0 ==> clamped_size(rows, cols).0 == 1,
        cols >= 2 ==> clamped_size(rows, cols).1 == cols,
        cols < 2 ==> clamped_size(rows, cols).1 == 2,
{
}

/// Each tracked mode is read from its own bit of the terminal's mode flags.
pub proof fn law_each_mode_has_its_bit(bits: u32)
    ensures
        modes_of(bits).show_cursor == (bits & 0x1 != 0),
        modes_of(bits).app_cursor == (bits & 0x2 != 0),
        modes_of(bits).mouse_click == (bits & 0x8 != 0),
        modes_of(bits).bracketed_paste == (bits & 0x10 != 0),
        modes_of(bits).sgr_mouse == (bits & 0x20 != 0),
        modes_of(bits).mouse_motion == (bits & 0x40 != 0),
        modes_of(bits).line_wrap == (bits & 0x80 != 0),
        modes_of(bits).focus_in_out == (bits & 0x800 != 0),
        modes_of(bits).alt_screen == (bits & 0x1000 != 0),
        modes_of(bits).mouse_drag == (bits & 0x2000 != 0),
        modes_of(bits).utf8_mouse == (bits & 0x4000 != 0),
        modes_of(bits).alternate_scroll == (bits & 0x8000 != 0),
{
}

} // verus!
