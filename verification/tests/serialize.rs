use hexgame::serialize::{
    deserialize_color, load_row, load_stone_matrix, serialize_color, store_row,
    store_stone_matrix, LoadError, StoredGame, VERSION,
};
use hexgame::{Color, Coords, Game, InvalidBoard};

fn stored(version: u8, current_player: u8, stones: Vec<Vec<u8>>) -> StoredGame {
    StoredGame {
        version,
        size: 2,
        current_player,
        stones,
    }
}

#[test]
fn test_serialize() {
    let mut game = Game::new(2);
    game.play(Coords { row: 0, column: 1 }).unwrap();
    game.play(Coords { row: 1, column: 0 }).unwrap();

    let data = game.to_stored();

    assert_eq!(
        data,
        StoredGame {
            version: VERSION,
            size: 2,
            current_player: 1,
            stones: vec![vec![0, 1], vec![2, 0]],
        }
    );
}

#[test]
fn test_deserialize() {
    let data = stored(VERSION, 1, vec![vec![0, 1], vec![2, 0]]);

    let game = Game::from_stored(&data).unwrap();

    assert_eq!(game.get_board().size(), 2);
    assert_eq!(game.get_current_player(), Some(Color::Black));
    assert_eq!(
        game.get_board().get_color(Coords { row: 0, column: 0 }),
        None
    );
    assert_eq!(
        game.get_board().get_color(Coords { row: 0, column: 1 }),
        Some(Color::Black)
    );
    assert_eq!(
        game.get_board().get_color(Coords { row: 1, column: 0 }),
        Some(Color::White)
    );
    assert_eq!(
        game.get_board().get_color(Coords { row: 1, column: 1 }),
        None
    );
}

#[test]
fn test_serialize_white_as_current_player() {
    let mut game = Game::new(2);
    game.play(Coords { row: 0, column: 0 }).unwrap();

    let data = game.to_stored();

    assert_eq!(data.current_player, 2);
}

#[test]
fn test_deserialize_white_as_current_player() {
    let data = stored(VERSION, 2, vec![vec![1, 0], vec![0, 0]]);

    let game = Game::from_stored(&data).unwrap();

    assert_eq!(game.get_current_player(), Some(Color::White));
}

#[test]
fn test_deserialize_without_current_player() {
    let data = stored(VERSION, 0, vec![vec![1, 0], vec![0, 0]]);

    let result = Game::from_stored(&data);

    assert!(result.is_err());
    assert_eq!(
        result.err().unwrap(),
        LoadError::InvalidBoard(InvalidBoard::NoCurrentPlayer)
    );
}

#[test]
fn test_deserialize_with_invalid_version() {
    let data = stored(VERSION + 1, 0, vec![vec![1, 0], vec![0, 0]]);

    let result = Game::from_stored(&data);

    assert!(result.is_err());
    assert_eq!(result.err().unwrap(), LoadError::UnsupportedVersion(2));
}

#[test]
fn test_serialization_to_string_cycle() {
    let mut game = Game::new(3);
    game.play(Coords { row: 0, column: 1 }).unwrap();
    game.play(Coords { row: 1, column: 0 }).unwrap();
    game.play(Coords { row: 1, column: 1 }).unwrap();

    let data = game.to_stored();
    let loaded_game = Game::from_stored(&data).unwrap();

    assert_eq!(game.get_board().size(), loaded_game.get_board().size());
    assert_eq!(game.get_current_player(), loaded_game.get_current_player());
    assert_eq!(
        game.get_board().to_stone_matrix(),
        loaded_game.get_board().to_stone_matrix()
    );
}

#[test]
fn test_color_codes() {
    assert_eq!(serialize_color(&None), 0);
    assert_eq!(serialize_color(&Some(Color::Black)), 1);
    assert_eq!(serialize_color(&Some(Color::White)), 2);
    assert_eq!(deserialize_color(&0), Ok(None));
    assert_eq!(deserialize_color(&1), Ok(Some(Color::Black)));
    assert_eq!(deserialize_color(&2), Ok(Some(Color::White)));
    assert_eq!(deserialize_color(&3), Err(LoadError::InvalidColor(3)));
    assert_eq!(deserialize_color(&255), Err(LoadError::InvalidColor(255)));
}

#[test]
fn test_store_and_load_rows() {
    let row = vec![None, Some(Color::White), Some(Color::Black)];
    assert_eq!(store_row(&row), vec![0, 2, 1]);
    assert_eq!(load_row(&vec![0, 2, 1]), Ok(row.clone()));
    assert_eq!(load_row(&vec![0, 7, 9]), Err(LoadError::InvalidColor(7)));
    let matrix = vec![row.clone(), vec![], vec![Some(Color::Black)]];
    assert_eq!(
        store_stone_matrix(&matrix),
        vec![vec![0, 2, 1], vec![], vec![1]]
    );
    assert_eq!(
        load_stone_matrix(&[vec![0, 2, 1], vec![], vec![1]]),
        Ok(matrix)
    );
    assert_eq!(
        load_stone_matrix(&[vec![0, 2], vec![1, 4, 5], vec![3]]),
        Err(LoadError::InvalidColor(4))
    );
}

#[test]
fn test_deserialize_reports_errors_in_order() {
    // the version comes first
    let data = stored(7, 9, vec![vec![5]]);
    assert_eq!(
        Game::from_stored(&data).err().unwrap(),
        LoadError::UnsupportedVersion(7)
    );
    // then the stones, before the current player
    let data = stored(VERSION, 9, vec![vec![0, 0], vec![0, 5]]);
    assert_eq!(
        Game::from_stored(&data).err().unwrap(),
        LoadError::InvalidColor(5)
    );
    let data = stored(VERSION, 9, vec![vec![0, 0], vec![0, 0]]);
    assert_eq!(
        Game::from_stored(&data).err().unwrap(),
        LoadError::InvalidColor(9)
    );
    // then the shape of the board
    let data = stored(VERSION, 1, vec![vec![0, 0], vec![0]]);
    assert_eq!(
        Game::from_stored(&data).err().unwrap(),
        LoadError::InvalidBoard(InvalidBoard::NotSquare(1, 2))
    );
    let data = stored(VERSION, 1, vec![vec![0]]);
    assert_eq!(
        Game::from_stored(&data).err().unwrap(),
        LoadError::InvalidBoard(InvalidBoard::SizeOutOfBounds(1, 2, 19))
    );
}

#[test]
fn test_deserialize_ignores_the_stored_size() {
    let mut data = stored(VERSION, 1, vec![vec![0, 1, 0], vec![0, 0, 0], vec![0, 0, 2]]);
    data.size = 2;
    let game = Game::from_stored(&data).unwrap();
    assert_eq!(game.get_board().size(), 3);
}

#[test]
fn test_load_error_messages() {
    assert_eq!(
        LoadError::UnsupportedVersion(2).to_string(),
        "Unsupported version: 2"
    );
    assert_eq!(LoadError::InvalidColor(3).to_string(), "Invalid color 3");
    assert_eq!(
        LoadError::InvalidBoard(InvalidBoard::NoCurrentPlayer).to_string(),
        "No current player given, but game has not yet finished"
    );
}
