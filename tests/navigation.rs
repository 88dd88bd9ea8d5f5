use moon_tree::nav::{Area, Cursor, Navigator};
use moon_tree::report::Moon;
use moon_tree::session::{
    action_of, Action, Debounce, Input, KeyInput, MouseInput, Outcome, Session, DEBOUNCE_MS,
};

fn key(code: KeyInput) -> Input {
    Input::Key { code, press: true }
}

fn nav_of(text: &str) -> Navigator {
    Navigator::new(Moon::generate(text.to_string()).unwrap()).unwrap()
}

fn two_projects() -> Navigator {
    nav_of("a\n\t:x | 1\n\t:y | 2\nb\n\t:z | 3\n")
}

#[test]
fn expand_down_confirm_runs_first_task() {
    let mut s = Session::new(nav_of("kickbase\n\t:build | make\n\t:test | make\n"));
    // open the project, then go back to an empty selection
    assert_eq!(s.handle(key(KeyInput::Right), 0), Outcome::Continue);
    assert_eq!(s.handle(key(KeyInput::Right), 1), Outcome::Continue);
    assert!(s.nav.is_open(0));
    assert_eq!(s.handle(key(KeyInput::Esc), 2), Outcome::Continue);
    assert_eq!(s.nav.cursor(), Cursor::Root);

    assert_eq!(s.handle(key(KeyInput::Right), 3), Outcome::Continue);
    assert_eq!(s.handle(key(KeyInput::Down), 4), Outcome::Continue);
    assert_eq!(s.nav.cursor(), Cursor::Task(0, 0));
    assert_eq!(
        s.handle(key(KeyInput::Enter), 5),
        Outcome::Run("kickbase:build".to_string())
    );
}

#[test]
fn quit_ends_from_any_state() {
    let mut s = Session::new(two_projects());
    assert_eq!(s.handle(key(KeyInput::Char('q')), 0), Outcome::Quit);
    let mut s = Session::new(two_projects());
    s.handle(key(KeyInput::Down), 0);
    s.handle(key(KeyInput::Right), 1);
    s.handle(key(KeyInput::Down), 2);
    assert_eq!(s.nav.cursor(), Cursor::Task(0, 0));
    assert_eq!(s.handle(key(KeyInput::Char('q')), 3), Outcome::Quit);
}

#[test]
fn burst_of_scrolls_redraws_once() {
    let text = (0..20).map(|i| format!("p{i}\n")).collect::<String>();
    let mut s = Session::new(nav_of(&text));
    let scroll = Input::Mouse { kind: MouseInput::ScrollDown, column: 0, row: 0 };
    let mut redraws = 0;
    for t in 0..10u64 {
        assert_eq!(s.handle(scroll, 100 + t), Outcome::Continue);
        if s.debounce.take_redraw(100 + t) {
            redraws += 1;
        }
    }
    assert_eq!(s.nav.offset(), 10);
    assert_eq!(s.debounce.pending, Some(100));
    assert_eq!(s.debounce.timeout(109), DEBOUNCE_MS - 9);
    assert!(!s.debounce.take_redraw(100 + DEBOUNCE_MS));
    for now in [117u64, 118, 150] {
        if s.debounce.take_redraw(now) {
            redraws += 1;
        }
    }
    assert_eq!(redraws, 1);
    assert_eq!(s.debounce.pending, None);
    assert_eq!(s.debounce.timeout(500), DEBOUNCE_MS);
}

#[test]
fn debounce_keeps_first_change() {
    let mut d = Debounce::new();
    d.note_change(5);
    d.note_change(9);
    assert_eq!(d.pending, Some(5));
    assert_eq!(d.timeout(30), 0);
    assert!(d.take_redraw(22));
    assert!(!d.take_redraw(100));
}

#[test]
fn up_and_down_follow_open_projects() {
    let mut n = two_projects();
    assert!(n.key_down());
    assert_eq!(n.cursor(), Cursor::Project(0));
    assert!(n.key_down());
    assert_eq!(n.cursor(), Cursor::Project(1));
    assert!(!n.key_down());
    assert!(n.key_up());
    assert!(n.key_right());
    assert!(n.key_down());
    assert_eq!(n.cursor(), Cursor::Task(0, 0));
    assert!(n.key_down());
    assert!(n.key_down());
    assert_eq!(n.cursor(), Cursor::Project(1));
    assert!(n.key_up());
    assert_eq!(n.cursor(), Cursor::Task(0, 1));
    assert!(n.clear_selection());
    assert!(n.key_up());
    assert_eq!(n.cursor(), Cursor::Project(1));
}

#[test]
fn left_closes_then_goes_to_parent() {
    let mut n = two_projects();
    n.select_first();
    n.key_right();
    n.key_right();
    assert_eq!(n.cursor(), Cursor::Task(0, 0));
    assert!(!n.key_right());
    assert!(n.key_left());
    assert_eq!(n.cursor(), Cursor::Project(0));
    assert!(n.key_left());
    assert!(!n.is_open(0));
    assert!(n.key_left());
    assert_eq!(n.cursor(), Cursor::Root);
    assert!(!n.key_left());
}

#[test]
fn toggle_only_on_projects() {
    let mut n = two_projects();
    assert!(!n.toggle_selected());
    n.select_last();
    assert_eq!(n.cursor(), Cursor::Project(1));
    assert!(n.toggle_selected());
    assert!(n.is_open(1));
    n.select_last();
    assert_eq!(n.cursor(), Cursor::Task(1, 0));
    assert!(!n.toggle_selected());
    assert_eq!(n.visible_len(), 3);
}

#[test]
fn page_keys_scroll_by_three_and_stop_at_last() {
    let mut n = two_projects();
    n.select_first();
    n.key_right();
    assert_eq!(n.visible_len(), 4);
    assert!(n.scroll_down(3));
    assert_eq!(n.offset(), 3);
    assert!(!n.scroll_down(3));
    assert_eq!(n.offset(), 3);
    assert!(n.scroll_up(2));
    assert_eq!(n.offset(), 1);
    assert!(n.scroll_up(3));
    assert_eq!(n.offset(), 0);
    assert_eq!(n.cursor(), Cursor::Project(0));
}

#[test]
fn click_selects_the_drawn_row() {
    let mut n = two_projects();
    n.set_area(Area { x: 1, y: 1, width: 10, height: 5 });
    n.select_first();
    n.key_right();
    assert!(n.click_at(3, 3));
    assert_eq!(n.cursor(), Cursor::Task(0, 1));
    assert!(!n.click_at(3, 5));
    assert!(!n.click_at(0, 2));
    n.scroll_down(1);
    assert!(n.click_at(2, 1));
    assert_eq!(n.cursor(), Cursor::Task(0, 0));
    assert_eq!(n.node_at(3), Cursor::Project(1));
    assert_eq!(n.node_at(4), Cursor::Root);
}

#[test]
fn confirm_on_closed_project_opens_and_returns_its_name() {
    let mut n = two_projects();
    n.select_last();
    assert_eq!(n.confirm(), Some("b".to_string()));
    assert!(n.is_open(1));
    assert_eq!(n.confirm(), Some("b:z".to_string()));
}

#[test]
fn confirm_on_empty_tree_returns_nothing() {
    let mut s = Session::new(nav_of(""));
    assert_eq!(s.handle(key(KeyInput::Enter), 0), Outcome::Continue);
    assert_eq!(s.debounce.pending, None);
}

#[test]
fn resize_asks_for_redraw() {
    let mut s = Session::new(two_projects());
    assert_eq!(s.handle(Input::Resize, 7), Outcome::Continue);
    assert_eq!(s.debounce.pending, Some(7));
    assert_eq!(s.nav.cursor(), Cursor::Root);
}

#[test]
fn key_bindings() {
    assert_eq!(action_of(key(KeyInput::Char('q'))), Action::Quit);
    assert_eq!(action_of(key(KeyInput::Char(' '))), Action::Toggle);
    assert_eq!(action_of(key(KeyInput::Char('h'))), Action::Collapse);
    assert_eq!(action_of(key(KeyInput::Char('l'))), Action::Expand);
    assert_eq!(action_of(key(KeyInput::Char('j'))), Action::Down);
    assert_eq!(action_of(key(KeyInput::Char('k'))), Action::Up);
    assert_eq!(action_of(key(KeyInput::Enter)), Action::Confirm);
    assert_eq!(action_of(key(KeyInput::PageDown)), Action::PageDown);
    assert_eq!(action_of(Input::Key { code: KeyInput::Char('q'), press: false }), Action::Ignore);
    assert_eq!(
        action_of(Input::Mouse { kind: MouseInput::Press, column: 4, row: 2 }),
        Action::Click(4, 2)
    );
}

#[test]
fn enter_with_nothing_selected_keeps_session() {
    let mut s = Session::new(two_projects());
    s.handle(key(KeyInput::Down), 0);
    assert_eq!(s.handle(key(KeyInput::Esc), 1), Outcome::Continue);
    assert_eq!(s.handle(key(KeyInput::Enter), 2), Outcome::Continue);
    assert_eq!(s.nav.cursor(), Cursor::Root);
    assert!(!s.nav.is_open(0));
    assert_eq!(s.handle(key(KeyInput::Char('q')), 3), Outcome::Quit);
}

#[test]
fn confirm_at_root_hands_out_nothing() {
    let mut n = two_projects();
    assert_eq!(n.confirm(), None);
    assert_eq!(n.cursor(), Cursor::Root);
}

#[test]
fn burst_whose_first_event_changes_nothing() {
    let mut s = Session::new(two_projects());
    let up = Input::Mouse { kind: MouseInput::ScrollUp, column: 0, row: 0 };
    let down = Input::Mouse { kind: MouseInput::ScrollDown, column: 0, row: 0 };
    assert_eq!(s.handle(up, 10), Outcome::Continue);
    assert_eq!(s.debounce.pending, None);
    assert!(!s.debounce.take_redraw(10));
    s.handle(down, 12);
    assert!(!s.debounce.take_redraw(12));
    s.handle(up, 20);
    assert!(!s.debounce.take_redraw(20));
    assert_eq!(s.debounce.pending, Some(12));
    assert!(s.debounce.take_redraw(40));
    assert!(!s.debounce.take_redraw(80));
}
