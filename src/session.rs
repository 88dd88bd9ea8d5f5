use vstd::prelude::*;

use crate::nav::{node_identifier, sat_add, Cursor, Navigator, PAGE_STEP};

verus! {

/// The least time, in milliseconds, between a change and the redraw it asks for.
pub const DEBOUNCE_MS: u64 = 16;

/// A key as the terminal reports it.
#[derive(Debug, Clone, Copy, PartialEq, Eq, Structural)]
pub enum KeyInput {
    Char(char),
    Enter,
    Left,
    Right,
    Up,
    Down,
    Esc,
    Home,
    End,
    PageUp,
    PageDown,
    Other,
}

/// What a mouse did.
#[derive(Debug, Clone, Copy, PartialEq, Eq, Structural)]
pub enum MouseInput {
    ScrollDown,
    ScrollUp,
    Press,
    Other,
}

/// One input event from the terminal.
#[derive(Debug, Clone, Copy, PartialEq, Eq, Structural)]
pub enum Input {
    /// A key event; `press` is false for repeats and releases.
    Key { code: KeyInput, press: bool },
    Mouse { kind: MouseInput, column: u16, row: u16 },
    Resize,
    Other,
}

/// What an input event asks of the tree.
#[derive(Debug, Clone, Copy, PartialEq, Eq, Structural)]
pub enum Action {
    Quit,
    Toggle,
    Collapse,
    Expand,
    Up,
    Down,
    Clear,
    First,
    Last,
    PageUp,
    PageDown,
    Confirm,
    ScrollUp,
    ScrollDown,
    Click(u16, u16),
    Redraw,
    Ignore,
}

/// The key and mouse bindings.
pub open spec fn binding(input: Input) -> Action {
    match input {
        Input::Key { code, press } => if !press {
            Action::Ignore
        } else {
            match code {
                KeyInput::Char(c) => if c == 'q' {
                    Action::Quit
                } else if c == '\n' || c == ' ' {
                    Action::Toggle
                } else if c == 'h' {
                    Action::Collapse
                } else if c == 'l' {
                    Action::Expand
                } else if c == 'j' {
                    Action::Down
                } else if c == 'k' {
                    Action::Up
                } else {
                    Action::Ignore
                },
                KeyInput::Left => Action::Collapse,
                KeyInput::Right => Action::Expand,
                KeyInput::Down => Action::Down,
                KeyInput::Up => Action::Up,
                KeyInput::Esc => Action::Clear,
                KeyInput::Home => Action::First,
                KeyInput::End => Action::Last,
                KeyInput::PageDown => Action::PageDown,
                KeyInput::PageUp => Action::PageUp,
                KeyInput::Enter => Action::Confirm,
                KeyInput::Other => Action::Ignore,
            }
        },
        Input::Mouse { kind, column, row } => match kind {
            MouseInput::ScrollDown => Action::ScrollDown,
            MouseInput::ScrollUp => Action::ScrollUp,
            MouseInput::Press => Action::Click(column, row),
            MouseInput::Other => Action::Ignore,
        },
        Input::Resize => Action::Redraw,
        Input::Other => Action::Ignore,
    }
}

/// The action bound to `input`.
pub fn action_of(input: Input) -> (r: Action)
    ensures
        r == binding(input),
{
    match input {
        Input::Key { code, press } => {
            if !press {
                return Action::Ignore;
            }
            match code {
                KeyInput::Char(c) => if c == 'q' {
                    Action::Quit
                } else if c == '\n' || c == ' ' {
                    Action::Toggle
                } else if c == 'h' {
                    Action::Collapse
                } else if c == 'l' {
                    Action::Expand
                } else if c == 'j' {
                    Action::Down
                } else if c == 'k' {
                    Action::Up
                } else {
                    Action::Ignore
                },
                KeyInput::Left => Action::Collapse,
                KeyInput::Right => Action::Expand,
                KeyInput::Down => Action::Down,
                KeyInput::Up => Action::Up,
                KeyInput::Esc => Action::Clear,
                KeyInput::Home => Action::First,
                KeyInput::End => Action::Last,
                KeyInput::PageDown => Action::PageDown,
                KeyInput::PageUp => Action::PageUp,
                KeyInput::Enter => Action::Confirm,
                KeyInput::Other => Action::Ignore,
            }
        },
        Input::Mouse { kind, column, row } => match kind {
            MouseInput::ScrollDown => Action::ScrollDown,
            MouseInput::ScrollUp => Action::ScrollUp,
            MouseInput::Press => Action::Click(column, row),
            MouseInput::Other => Action::Ignore,
        },
        Input::Resize => Action::Redraw,
        Input::Other => Action::Ignore,
    }
}

/// Milliseconds from `start` to `now`; none if the clock reads earlier.
pub open spec fn elapsed(start: u64, now: u64) -> int {
    if now >= start { now - start } else { 0 }
}

/// Whether the redraw asked for at `pending` is due at `now`.
pub open spec fn redraw_due(pending: Option<u64>, now: u64) -> bool {
    pending matches Some(t) && elapsed(t, now) > DEBOUNCE_MS
}

/// How long to wait for input before looking again at a pending redraw.
pub open spec fn wait_ms(pending: Option<u64>, now: u64) -> int {
    match pending {
        None => DEBOUNCE_MS as int,
        Some(t) => if elapsed(t, now) < DEBOUNCE_MS { DEBOUNCE_MS - elapsed(t, now) } else { 0 },
    }
}

/// The pending redraw after a change at `now`: the first change of a burst
/// sets the time, later ones keep it.
pub open spec fn noted(pending: Option<u64>, now: u64) -> Option<u64> {
    if pending is None { Some(now) } else { pending }
}

/// Redraw scheduling: at most one redraw per window of `DEBOUNCE_MS`, timed
/// from the first change since the last redraw.
pub struct Debounce {
    pub pending: Option<u64>,
}

impl Debounce {
    pub fn new() -> (r: Debounce)
        ensures
            r.pending is None,
    {
        Debounce { pending: None }
    }

    /// Records a change of what is drawn, at time `now`.
    pub fn note_change(&mut self, now: u64)
        ensures
            final(self).pending == noted(old(self).pending, now),
    {
        if self.pending.is_none() {
            self.pending = Some(now);
        }
    }

    /// How long the next wait for input may last.
    pub fn timeout(&self, now: u64) -> (r: u64)
        ensures
            r == wait_ms(self.pending, now),
    {
        match self.pending {
            None => DEBOUNCE_MS,
            Some(t) => DEBOUNCE_MS.saturating_sub(now.saturating_sub(t)),
        }
    }

    /// Whether to redraw now; a redraw clears the pending change.
    pub fn take_redraw(&mut self, now: u64) -> (r: bool)
        ensures
            r == redraw_due(old(self).pending, now),
            final(self).pending == if r { None } else { old(self).pending },
    {
        match self.pending {
            Some(t) => {
                if now.saturating_sub(t) > DEBOUNCE_MS {
                    self.pending = None;
                    true
                } else {
                    false
                }
            },
            None => false,
        }
    }
}


/// Offset after scrolling `nav` down by `lines` rows.
pub open spec fn scrolled_down(nav: Navigator, lines: usize) -> nat {
    let target = sat_add(nav.spec_offset() as int, lines as int);
    (if target < nav.last_offset() { target } else { nav.last_offset() }) as nat
}

/// Offset after scrolling `nav` up by `lines` rows.
pub open spec fn scrolled_up(nav: Navigator, lines: usize) -> nat {
    if nav.spec_offset() >= lines { (nav.spec_offset() - lines) as nat } else { 0 }
}

/// Open flags, cursor and offset of `nav` after the action `a`.
pub open spec fn after(nav: Navigator, a: Action) -> (Seq<bool>, Cursor, nat) {
    let op = nav.spec_open();
    let c = nav.spec_cursor();
    let off = nav.spec_offset();
    let vis = nav.visible();
    match a {
        Action::Toggle => match c {
            Cursor::Project(i) => (op.update(i as int, !op[i as int]), c, off),
            _ => (op, c, off),
        },
        Action::Collapse => match c {
            Cursor::Root => (op, c, off),
            Cursor::Project(i) => if op[i as int] {
                (op.update(i as int, false), c, off)
            } else {
                (op, Cursor::Root, off)
            },
            Cursor::Task(i, _) => (op, Cursor::Project(i), off),
        },
        Action::Expand => (nav.right_step().0, nav.right_step().1, off),
        Action::Confirm => (nav.confirm_step().0, nav.confirm_step().1, off),
        Action::Up => (op, nav.prev_visible(), off),
        Action::Down => (op, nav.next_visible(), off),
        Action::Clear => (op, Cursor::Root, off),
        Action::First => (op, if vis.len() > 0 { vis[0] } else { Cursor::Root }, off),
        Action::Last => (op, if vis.len() > 0 { vis.last() } else { Cursor::Root }, off),
        Action::PageUp => (op, c, scrolled_up(nav, PAGE_STEP)),
        Action::PageDown => (op, c, scrolled_down(nav, PAGE_STEP)),
        Action::ScrollUp => (op, c, scrolled_up(nav, 1)),
        Action::ScrollDown => (op, c, scrolled_down(nav, 1)),
        Action::Click(column, row) => (op, match nav.row_at(column, row) {
            Some(k) => if k < vis.len() { vis[k] } else { c },
            None => c,
        }, off),
        Action::Quit => (op, c, off),
        Action::Redraw => (op, c, off),
        Action::Ignore => (op, c, off),
    }
}

/// Whether the action `a` changes what is drawn of `nav`.
pub open spec fn changes_view(nav: Navigator, a: Action) -> bool {
    a == Action::Redraw || after(nav, a) != (nav.spec_open(), nav.spec_cursor(), nav.spec_offset())
}

/// How one event ends: the session goes on, ends with nothing chosen, or ends
/// with the identifier to run.
#[derive(Debug, Clone, PartialEq, Eq)]
pub enum Outcome {
    Continue,
    Quit,
    Run(String),
}

/// One interactive session: the tree and its pending redraw.
pub struct Session {
    pub nav: Navigator,
    pub debounce: Debounce,
}

impl Session {
    pub fn new(nav: Navigator) -> (r: Session)
        ensures
            r.nav == nav,
            r.debounce.pending is None,
    {
        Session { nav, debounce: Debounce::new() }
    }

    /// Handles one input event that arrived at time `now` (milliseconds).
    pub fn handle(&mut self, input: Input, now: u64) -> (r: Outcome)
        requires
            old(self).nav.wf(),
        ensures
            final(self).nav.wf(),
            final(self).nav.spec_moon() == old(self).nav.spec_moon(),
            final(self).nav.spec_area() == old(self).nav.spec_area(),
            (final(self).nav.spec_open(), final(self).nav.spec_cursor(), final(self).nav.spec_offset())
                == after(old(self).nav, binding(input)),
            binding(input) == Action::Quit ==> r == Outcome::Quit,
            binding(input) == Action::Confirm ==> if final(self).nav.spec_cursor() == Cursor::Root {
                r == Outcome::Continue
            } else {
                r matches Outcome::Run(s) && node_identifier(old(self).nav.spec_moon()@, final(self).nav.spec_cursor()) == Some(s@)
            },
            binding(input) != Action::Quit && binding(input) != Action::Confirm ==> r
                == Outcome::Continue,
            final(self).debounce.pending == if r != Outcome::Continue {
                old(self).debounce.pending
            } else if changes_view(old(self).nav, binding(input)) {
                noted(old(self).debounce.pending, now)
            } else {
                old(self).debounce.pending
            },
    {
        let action = action_of(input);
        let changed = match action {
            Action::Quit => {
                return Outcome::Quit;
            },
            Action::Confirm => {
                match self.nav.confirm() {
                    Some(id) => {
                        return Outcome::Run(id);
                    },
                    None => false,
                }
            },
            Action::Toggle => self.nav.toggle_selected(),
            Action::Collapse => self.nav.key_left(),
            Action::Expand => self.nav.key_right(),
            Action::Up => self.nav.key_up(),
            Action::Down => self.nav.key_down(),
            Action::Clear => self.nav.clear_selection(),
            Action::First => self.nav.select_first(),
            Action::Last => self.nav.select_last(),
            Action::PageUp => self.nav.scroll_up(PAGE_STEP),
            Action::PageDown => self.nav.scroll_down(PAGE_STEP),
            Action::ScrollUp => self.nav.scroll_up(1),
            Action::ScrollDown => self.nav.scroll_down(1),
            Action::Click(column, row) => self.nav.click_at(column, row),
            Action::Redraw => true,
            Action::Ignore => false,
        };
        if changed {
            self.debounce.note_change(now);
        }
        Outcome::Continue
    }
}


/// The event loop's redraw state after the events `events`, each a time and
/// whether that event changed what is drawn (as `changes_view` decides in
/// `Session::handle`). After each event the change is noted, then the loop
/// checks, at the same time, whether a redraw is due and makes it. The result
/// is the pending redraw and the number of redraws made.
pub open spec fn run_events(pending: Option<u64>, events: Seq<(u64, bool)>) -> (Option<u64>, nat)
    decreases events.len(),
{
    if events.len() == 0 {
        (pending, 0)
    } else {
        let (p, n) = run_events(pending, events.drop_last());
        let (t, changed) = events.last();
        let q = if changed { noted(p, t) } else { p };
        if redraw_due(q, t) { (None, n + 1) } else { (q, n) }
    }
}

proof fn lemma_burst_prefix(events: Seq<(u64, bool)>, m: int)
    requires
        0 <= m <= events.len(),
        events.len() > 0,
        forall|k: int|
            0 <= k < events.len() ==> events[0].0 <= #[trigger] events[k].0 <= events[0].0 + DEBOUNCE_MS,
    ensures
        run_events(None, events.take(m)).1 == 0,
        (forall|g: int| 0 <= g < m ==> !(#[trigger] events[g]).1) ==> run_events(None, events.take(m)).0
            is None,
        (exists|g: int| 0 <= g < m && (#[trigger] events[g]).1) ==> exists|f: int|
            0 <= f < m && (#[trigger] events[f]).1 && (forall|g: int| 0 <= g < f ==> !(#[trigger] events[g]).1)
                && run_events(None, events.take(m)).0 == Some(events[f].0),
    decreases m,
{
    if m > 0 {
        lemma_burst_prefix(events, m - 1);
        assert(events.take(m).drop_last() =~= events.take(m - 1));
        let t = events[m - 1].0;
        if exists|g: int| 0 <= g < m - 1 && (#[trigger] events[g]).1 {
            let f = choose|f: int|
                0 <= f < m - 1 && (#[trigger] events[f]).1 && (forall|g: int| 0 <= g < f ==> !(#[trigger] events[g]).1)
                    && run_events(None, events.take(m - 1)).0 == Some(events[f].0);
            assert(events[0].0 <= events[f].0);
            assert(t <= events[0].0 + DEBOUNCE_MS);
        } else if events[m - 1].1 {
            assert(forall|g: int| 0 <= g < m - 1 ==> !(#[trigger] events[g]).1);
        } else {
            assert(forall|g: int| 0 <= g < m ==> !(#[trigger] events[g]).1);
        }
    }
}

/// One redraw per burst: starting with no redraw pending, events that all come
/// within `DEBOUNCE_MS` of the first, at least one of them a change, make no
/// redraw while they come; the redraw then pends from the first change. A
/// check more than `DEBOUNCE_MS` after every event of the burst makes exactly
/// one redraw, and without a new change no later check makes another.
pub proof fn lemma_burst_redraws_once(events: Seq<(u64, bool)>, now: u64, later: u64)
    requires
        events.len() > 0,
        forall|k: int|
            0 <= k < events.len() ==> events[0].0 <= #[trigger] events[k].0 <= events[0].0 + DEBOUNCE_MS,
        exists|k: int| 0 <= k < events.len() && (#[trigger] events[k]).1,
        forall|k: int| 0 <= k < events.len() ==> now > (#[trigger] events[k]).0 + DEBOUNCE_MS,
    ensures
        run_events(None, events).1 == 0,
        exists|f: int|
            0 <= f < events.len() && (#[trigger] events[f]).1 && (forall|g: int|
                0 <= g < f ==> !(#[trigger] events[g]).1) && run_events(None, events).0 == Some(
                events[f].0,
            ),
        run_events(None, events.push((now, false))) == (None::<u64>, 1nat),
        run_events(None, events.push((now, false)).push((later, false))) == (None::<u64>, 1nat),
{
    lemma_burst_prefix(events, events.len() as int);
    assert(events.take(events.len() as int) =~= events);
    let f = choose|f: int|
        0 <= f < events.len() && (#[trigger] events[f]).1 && (forall|g: int| 0 <= g < f ==> !(#[trigger] events[g]).1)
            && run_events(None, events).0 == Some(events[f].0);
    assert(now > events[f].0 + DEBOUNCE_MS);
    assert(events.push((now, false)).drop_last() =~= events);
    assert(events.push((now, false)).push((later, false)).drop_last() =~= events.push((now, false)));
    assert(run_events(None, events.push((now, false))) == (None::<u64>, 1nat));
    assert(!redraw_due(None, later));
}

} // verus!
