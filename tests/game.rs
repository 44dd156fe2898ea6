use lifegame::game::{Args, Game, GameError, State};
use lifegame::geometry::{neighbors, Size};

fn blank(width: u16, height: u16) -> Game {
    let args = Args { size: Size { width, height }, random: false, data: None, duration: 100 };
    Game::init(args).unwrap()
}

fn cells(bits: &[u8]) -> Vec<bool> {
    bits.iter().map(|&b| b != 0).collect()
}

#[test]
fn test_of_test() -> Result<(), GameError> {
    let args = Args { size: Size::default(), random: false, data: None, duration: 100 };
    let mut game = Game::init(args)?;
    println!("{}", game.show_board());
    game.set_pos((15, 20))?;
    println!("{}", game.show_board());
    assert!(game.game[20 * 160 + 15]);
    Ok(())
}

#[test]
fn blinker_test() -> Result<(), GameError> {
    let args = Args { size: Size { width: 5, height: 5 }, random: false, data: None, duration: 100 };
    let mut game = Game::init(args)?;
    game.set_pos((1, 2))?;
    game.set_pos((2, 2))?;
    game.set_pos((3, 2))?;
    println!("{}", game.show_board());
    game.next();
    println!("{}", game.show_board());
    game.next();
    println!("{}", game.show_board());
    assert_eq!(
        game.game,
        cells(&[0, 0, 0, 0, 0, 0, 0, 0, 0, 0, 0, 1, 1, 1, 0, 0, 0, 0, 0, 0, 0, 0, 0, 0, 0])
    );
    Ok(())
}

#[test]
fn get_pt() -> Result<(), GameError> {
    let args = Args { size: Size { width: 3, height: 3 }, random: false, data: None, duration: 100 };
    let game = Game::init(args)?;
    assert_eq!(game.get_pt(4), [1, 2, 5, 8, 7, 6, 3, 0,]);
    assert_eq!(game.get_pt(0), [6, 7, 1, 4, 3, 5, 2, 8,]);
    assert_eq!(game.get_pt(1), [7, 8, 2, 5, 4, 3, 0, 6,]);
    assert_eq!(game.get_pt(2), [8, 6, 0, 3, 5, 4, 1, 7,]);
    assert_eq!(game.get_pt(3), [0, 1, 4, 7, 6, 8, 5, 2,]);
    assert_eq!(game.get_pt(4), [1, 2, 5, 8, 7, 6, 3, 0,]);
    assert_eq!(game.get_pt(5), [2, 0, 3, 6, 8, 7, 4, 1,]);
    assert_eq!(game.get_pt(6), [3, 4, 7, 1, 0, 2, 8, 5,]);
    assert_eq!(game.get_pt(7), [4, 5, 8, 2, 1, 0, 6, 3,]);
    assert_eq!(game.get_pt(8), [5, 3, 6, 0, 2, 1, 7, 4,]);
    Ok(())
}

#[test]
fn blinker_turns_vertical_after_one_step() {
    let mut game = blank(5, 5);
    for x in 1..4 {
        game.set_pos((x, 2)).unwrap();
    }
    game.next();
    let mut expected = vec![false; 25];
    for i in [7, 12, 17] {
        expected[i] = true;
    }
    assert_eq!(game.game, expected);
    assert_eq!(game.state.time, 1);
    game.next();
    assert_eq!(game.state.time, 2);
}

#[test]
fn corner_neighbours_wrap_around() {
    let size = Size { width: 3, height: 3 };
    assert_eq!(neighbors(size, 0), [6, 7, 1, 4, 3, 5, 2, 8]);
}

#[test]
fn neighbours_distinct_and_in_range() {
    for (w, h) in [(3u16, 3u16), (4, 5), (7, 3), (10, 10)] {
        let size = Size { width: w, height: h };
        let area = w as usize * h as usize;
        for i in 0..area {
            let n = neighbors(size, i);
            for a in 0..8 {
                assert!(n[a] < area);
                for b in 0..8 {
                    if a != b {
                        assert_ne!(n[a], n[b]);
                    }
                }
            }
        }
    }
}

#[test]
fn narrow_board_is_its_own_neighbour() {
    let size = Size { width: 1, height: 4 };
    assert_eq!(neighbors(size, 1), [0, 0, 1, 2, 2, 2, 1, 0]);
}

#[test]
fn lone_cell_dies_and_block_survives() {
    let mut lone = blank(4, 4);
    lone.set_pos((1, 1)).unwrap();
    lone.next();
    assert!(lone.game.iter().all(|&c| !c));

    let mut block = blank(4, 4);
    for p in [(1, 1), (2, 1), (1, 2), (2, 2)] {
        block.set_pos(p).unwrap();
    }
    let before = block.game.clone();
    block.next();
    assert_eq!(block.game, before);
}

#[test]
fn render_is_rows_of_glyphs() {
    let mut game = blank(3, 2);
    game.set_pos((0, 0)).unwrap();
    game.set_pos((2, 1)).unwrap();
    assert_eq!(game.show_board(), "@--\n--@\n");
}

#[test]
fn render_twice_gives_same_text() {
    let mut game = blank(6, 4);
    game.set_pos((3, 1)).unwrap();
    let first = game.show_board();
    let second = game.show_board();
    assert_eq!(first, second);
}

#[test]
fn render_of_board_without_columns_is_blank_lines() {
    assert_eq!(blank(0, 3).show_board(), "\n\n\n");
}

#[test]
fn set_pos_twice_restores_cell() {
    let mut game = blank(4, 3);
    game.set_pos((3, 2)).unwrap();
    assert!(game.game[11]);
    game.set_pos((3, 2)).unwrap();
    assert!(!game.game[11]);
}

#[test]
fn set_pos_off_board_is_out_of_bounds() {
    let mut game = blank(4, 3);
    assert_eq!(game.set_pos((4, 0)), Err(GameError::OutOfBounds));
    assert_eq!(game.check_pos((0, 3)), Err(GameError::OutOfBounds));
    assert_eq!(game.check_pos((3, 2)), Ok(()));
    assert!(game.game.iter().all(|&c| !c));
}

#[test]
fn init_with_wrong_data_length_is_shape_mismatch() {
    let args = Args {
        size: Size { width: 2, height: 2 },
        random: false,
        data: Some(vec![true, false, true]),
        duration: 100,
    };
    assert!(matches!(Game::init(args), Err(GameError::ShapeMismatch)));
}

#[test]
fn init_with_data_keeps_cells() {
    let data = vec![true, false, false, true];
    let args = Args { size: Size { width: 2, height: 2 }, random: false, data: Some(data.clone()), duration: 40 };
    let game = Game::init(args).unwrap();
    assert_eq!(game.game, data);
    assert_eq!(game.state.duration, 40);
    assert_eq!(game.state.len, 4);
    assert_eq!(game.state.time, 0);
}

#[test]
fn random_init_has_one_cell_per_position() {
    let args = Args { size: Size { width: 30, height: 20 }, random: true, data: None, duration: 100 };
    let game = Game::init(args).unwrap();
    assert_eq!(game.game.len(), 600);
}

#[test]
fn state_new_counts_cells() {
    let args = Args { size: Size { width: 160, height: 32 }, random: false, data: None, duration: 100 };
    let state = State::new(&args).unwrap();
    assert_eq!(state.len, 5120);
    assert_eq!(state.time, 0);
}

#[test]
fn move_wraps_on_both_axes() {
    let game = blank(5, 4);
    assert_eq!(game.move_to((0, 0), (-1, 0)), Ok((4, 0)));
    assert_eq!(game.move_to((0, 0), (0, -1)), Ok((0, 3)));
    assert_eq!(game.move_to((4, 3), (1, 1)), Ok((0, 0)));
    assert_eq!(game.move_to((2, 1), (-101, 9)), Ok((1, 2)));
}

#[test]
fn move_on_board_without_cells_fails() {
    let game = blank(0, 4);
    assert_eq!(game.move_to((0, 0), (1, 0)), Err(GameError::OutOfBounds));
}

#[test]
fn default_size_is_160_by_32() {
    let s = Size::default();
    assert_eq!((s.width, s.height), (160, 32));
    assert_eq!(s.cell_count(), Some(5120));
}

#[test]
fn get_reads_cells_and_checks_bounds() {
    let mut game = blank(4, 3);
    game.set_pos((2, 1)).unwrap();
    assert_eq!(game.get((2, 1)), Ok(true));
    assert_eq!(game.get((1, 2)), Ok(false));
    assert_eq!(game.get((4, 1)), Err(GameError::OutOfBounds));
    assert_eq!(game.get((0, 3)), Err(GameError::OutOfBounds));
}
