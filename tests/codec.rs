use lifegame::codec::{decode, encode, LoadError};
use lifegame::game::{Args, Game};
use lifegame::geometry::Size;

#[test]
fn save_text_has_header_and_rows() {
    let size = Size { width: 3, height: 2 };
    let text = encode(size, &vec![true, false, true, false, true, false]);
    assert_eq!(text, b"3:2\n101\n010".to_vec());
}

#[test]
fn save_then_load_gives_same_board() {
    let data = vec![true, false, false, true, true, false, false, false, true, true, true, false];
    let args = Args { size: Size { width: 4, height: 3 }, random: false, data: Some(data.clone()), duration: 100 };
    let game = Game::init(args).unwrap();
    let text = game.save_text();
    let back = Game::from_text(&text, 100).unwrap();
    assert_eq!(back.game, data);
    assert_eq!(back.state.size, Size { width: 4, height: 3 });
}

#[test]
fn save_then_load_empty_board() {
    let size = Size { width: 0, height: 7 };
    let text = encode(size, &vec![]);
    assert_eq!(text, b"0:7".to_vec());
    assert_eq!(decode(&text), Ok((size, vec![])));
}

#[test]
fn load_ignores_newlines_in_data() {
    let r = decode(b"2:2\n1\n0\n0\n1\n");
    assert_eq!(r, Ok((Size { width: 2, height: 2 }, vec![true, false, false, true])));
}

#[test]
fn load_header_with_letters_is_format_error() {
    assert_eq!(decode(b"abc:5\n00000"), Err(LoadError::Format));
}

#[test]
fn load_short_data_is_shape_error() {
    assert_eq!(decode(b"2:2\n101"), Err(LoadError::DataShape));
    assert_eq!(decode(b"2:2\n10101"), Err(LoadError::DataShape));
    assert_eq!(decode(b"3:1"), Err(LoadError::DataShape));
}

#[test]
fn load_stray_character_is_format_error() {
    assert_eq!(decode(b"3:1\n1x1"), Err(LoadError::Format));
    assert_eq!(decode(b"3:1x101"), Err(LoadError::Format));
    assert_eq!(decode(b":1\n1"), Err(LoadError::Format));
    assert_eq!(decode(b"1:\n1"), Err(LoadError::Format));
    assert_eq!(decode(b""), Err(LoadError::Format));
}

#[test]
fn load_oversized_header_is_format_error() {
    assert_eq!(decode(b"65536:1\n1"), Err(LoadError::Format));
}

#[test]
fn from_text_reports_load_errors() {
    assert!(matches!(Game::from_text(b"abc:5", 100), Err(LoadError::Format)));
    assert!(matches!(Game::from_text(b"1:1\n11", 100), Err(LoadError::DataShape)));
}
