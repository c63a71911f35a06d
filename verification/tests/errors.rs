use hexgame::{Coords, InvalidBoard, InvalidMove};

#[test]
fn test_invalid_move_messages() {
    assert_eq!(InvalidMove::GameOver.to_string(), "Game has ended");
    assert_eq!(
        InvalidMove::OutOfBounds(Coords::new(3, 2)).to_string(),
        "Coordinates c4 are out of bounds"
    );
    assert_eq!(
        InvalidMove::CellOccupied(Coords::new(0, 0)).to_string(),
        "Cell a1 is already occupied"
    );
}

#[test]
fn test_invalid_board_messages() {
    assert_eq!(
        InvalidBoard::SizeOutOfBounds(20, 2, 19).to_string(),
        "Board size must be between 2 and 19. Found 20"
    );
    assert_eq!(
        InvalidBoard::SizeOutOfBounds(0, 2, 19).to_string(),
        "Board size must be between 2 and 19. Found 0"
    );
    assert_eq!(
        InvalidBoard::NotSquare(1, 2).to_string(),
        "Length of row 1 does not match board size 2"
    );
    assert_eq!(
        InvalidBoard::NoCurrentPlayer.to_string(),
        "No current player given, but game has not yet finished"
    );
}
