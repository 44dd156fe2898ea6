use lifegame::game::{Args, Game};
use lifegame::geometry::Size;
use lifegame::session::{Action, Direction, Key, Mode, Session};

fn session(width: u16, height: u16) -> Session {
    let args = Args { size: Size { width, height }, random: false, data: None, duration: 100 };
    Session::new(Game::init(args).unwrap())
}

#[test]
fn menu_keys() {
    let mut s = session(4, 4);
    assert_eq!(s.mode, Mode::Menu);
    assert_eq!(s.handle(Key::Char('x')), Action::Continue);
    assert_eq!(s.handle(Key::Char('s')), Action::Save);
    assert_eq!(s.handle(Key::Enter), Action::Continue);
    assert_eq!(s.game.state.time, 1);
    assert_eq!(s.handle(Key::Char('q')), Action::Quit);
}

#[test]
fn editor_moves_wrap_and_toggle() {
    let mut s = session(3, 2);
    s.handle(Key::Char('e'));
    assert_eq!(s.mode, Mode::Editor);
    assert_eq!(s.cursor, (0, 0));
    s.handle(Key::Char('h'));
    assert_eq!(s.cursor, (2, 0));
    s.handle(Key::Arrow(Direction::Up));
    assert_eq!(s.cursor, (2, 1));
    s.handle(Key::Enter);
    assert!(s.game.game[5]);
    s.handle(Key::Char('j'));
    s.handle(Key::Arrow(Direction::Right));
    assert_eq!(s.cursor, (0, 0));
    s.handle(Key::Char('l'));
    s.handle(Key::Char('k'));
    assert_eq!(s.cursor, (1, 1));
    assert_eq!(s.handle(Key::Char('s')), Action::Continue);
    s.handle(Key::Char('q'));
    assert_eq!(s.mode, Mode::Menu);
    assert_eq!(s.game.state.time, 0);
}

#[test]
fn cursor_never_leaves_grid() {
    let mut s = session(4, 3);
    s.handle(Key::Char('e'));
    let keys = [
        Key::Char('h'),
        Key::Char('k'),
        Key::Arrow(Direction::Down),
        Key::Arrow(Direction::Left),
        Key::Char('l'),
        Key::Char('j'),
        Key::Arrow(Direction::Up),
        Key::Arrow(Direction::Right),
    ];
    let mut seed: u32 = 12345;
    for _ in 0..500 {
        seed = seed.wrapping_mul(1103515245).wrapping_add(12345);
        s.handle(keys[(seed >> 16) as usize % keys.len()]);
        assert!(s.cursor.0 < 4 && s.cursor.1 < 3);
    }
}

#[test]
fn editor_not_opened_on_board_without_cells() {
    let mut s = session(0, 0);
    s.handle(Key::Char('e'));
    assert_eq!(s.mode, Mode::Menu);
}

#[test]
fn autorun_ticks_until_interrupted() {
    let mut s = session(5, 5);
    for x in 1..4 {
        s.game.set_pos((x, 2)).unwrap();
    }
    s.handle(Key::Char('a'));
    assert_eq!(s.mode, Mode::AutoRun);
    s.tick();
    s.tick();
    assert_eq!(s.game.state.time, 2);
    s.handle(Key::Enter);
    assert_eq!(s.mode, Mode::AutoRun);
    assert_eq!(s.game.state.time, 2);
    s.handle(Key::Char('q'));
    assert_eq!(s.mode, Mode::Menu);
    assert!(s.game.game[11] && s.game.game[12] && s.game.game[13]);
}

#[test]
fn message_is_shown_once() {
    let mut s = session(2, 2);
    s.report("saved".to_string());
    assert_eq!(s.take_info(), Some("saved".to_string()));
    assert_eq!(s.take_info(), None);
}
