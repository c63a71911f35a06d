use vstd::prelude::*;
use crate::board::{
    board_of_matrix, is_matrix_error, is_stone_matrix, matrix_of, rows_of, StoneMatrix,
};
use crate::color::Color;
use crate::coords::CoordValue;
use crate::errors::InvalidBoard;
use crate::game::{loaded_status, Game, Status};
use crate::text::{decimal, push_decimal};

verus! {

/// The version of the stored format.
pub const VERSION: u8 = 1;

/// A game in the form in which it is stored: plain numbers only.
#[derive(Clone, Debug, PartialEq, Eq)]
pub struct StoredGame {
    /// The version of the format, `VERSION` for a game that this library stored.
    pub version: u8,
    /// The size of the board.
    pub size: CoordValue,
    /// The code of the color of the current player, or 0 if the game has ended.
    pub current_player: u8,
    /// The code of the color of every cell, row by row; 0 for an empty cell.
    pub stones: Vec<Vec<u8>>,
}

/// The reason why a stored game could not be loaded.
#[derive(Debug, PartialEq, Eq)]
pub enum LoadError {
    /// The game was stored in a version of the format that is not supported.
    UnsupportedVersion(u8),
    /// A number that stands for a color is not the code of one.
    InvalidColor(u8),
    /// The stones or the current player do not make up a game.
    InvalidBoard(InvalidBoard),
}

impl LoadError {
    /// What the error says.
    pub open spec fn text(&self) -> Seq<char> {
        match self {
            LoadError::UnsupportedVersion(version) => "Unsupported version: "@ + decimal(
                *version as nat,
            ),
            LoadError::InvalidColor(code) => "Invalid color "@ + decimal(*code as nat),
            LoadError::InvalidBoard(error) => error.text(),
        }
    }

    /// Return what the error says.
    pub fn to_string(&self) -> (text: String)
        ensures
            text@ == self.text(),
    {
        match self {
            LoadError::UnsupportedVersion(version) => {
                let mut text = "Unsupported version: ".to_owned();
                push_decimal(&mut text, *version as usize);
                text
            },
            LoadError::InvalidColor(code) => {
                let mut text = "Invalid color ".to_owned();
                push_decimal(&mut text, *code as usize);
                text
            },
            LoadError::InvalidBoard(error) => error.to_string(),
        }
    }
}

/// The code of a color: 0 for none, 1 for Black, 2 for White.
pub open spec fn color_code(color: Option<Color>) -> u8 {
    match color {
        None => 0,
        Some(Color::Black) => 1,
        Some(Color::White) => 2,
    }
}

/// The color that a code stands for.
pub open spec fn color_of_code(code: u8) -> Option<Color> {
    if code == 1 {
        Some(Color::Black)
    } else if code == 2 {
        Some(Color::White)
    } else {
        None
    }
}

/// Whether a number is the code of a color or of none.
pub open spec fn is_color_code(code: u8) -> bool {
    code <= 2
}

/// The codes of a row of stones.
pub open spec fn row_codes(row: Seq<Option<Color>>) -> Seq<u8> {
    row.map_values(|color: Option<Color>| color_code(color))
}

/// The colors that a row of codes stands for.
pub open spec fn row_colors(codes: Seq<u8>) -> Seq<Option<Color>> {
    codes.map_values(|code: u8| color_of_code(code))
}

/// Whether `position` is the first place in the row with a number that is no code.
pub open spec fn is_first_invalid(codes: Seq<u8>, position: int) -> bool {
    &&& 0 <= position < codes.len()
    &&& !is_color_code(codes[position])
    &&& forall|i: int| 0 <= i < position ==> is_color_code(#[trigger] codes[i])
}

/// Whether a row consists of codes only.
pub open spec fn all_color_codes(codes: Seq<u8>) -> bool {
    forall|i: int| 0 <= i < codes.len() ==> is_color_code(#[trigger] codes[i])
}

/// The rows of a stored matrix.
pub open spec fn code_rows(stones: Seq<Vec<u8>>) -> Seq<Seq<u8>> {
    stones.map_values(|row: Vec<u8>| row@)
}

/// Whether `error` names the first number of the stored rows that is no code:
/// the first one of the first row that holds one.
pub open spec fn is_first_invalid_color(rows: Seq<Seq<u8>>, error: LoadError) -> bool {
    exists|r: int, position: int|
        {
            &&& 0 <= r < rows.len()
            &&& forall|i: int| 0 <= i < r ==> all_color_codes(#[trigger] rows[i])
            &&& #[trigger] is_first_invalid(rows[r], position)
            &&& error == LoadError::InvalidColor(rows[r][position])
        }
}

/// The stones that the stored rows stand for.
pub open spec fn stored_stones(stones: Seq<Vec<u8>>) -> Seq<Seq<Option<Color>>> {
    stones.map_values(|row: Vec<u8>| row_colors(row@))
}

/// Whether every stored number stands for a color or for none.
pub open spec fn all_rows_color_codes(stones: Seq<Vec<u8>>) -> bool {
    forall|r: int| 0 <= r < stones.len() ==> all_color_codes((#[trigger] stones[r])@)
}

/// A color that is turned into its code and back is the same color.
pub proof fn lemma_color_code_round_trip(color: Option<Color>)
    ensures
        is_color_code(color_code(color)),
        color_of_code(color_code(color)) == color,
{
}

/// A row of stones that is turned into codes and back is the same row.
pub proof fn lemma_row_codes_round_trip(row: Seq<Option<Color>>)
    ensures
        all_color_codes(row_codes(row)),
        row_colors(row_codes(row)) == row,
{
    assert(row_colors(row_codes(row)) =~= row);
}

/// Return the codes of all rows of a stone matrix.
pub fn store_stone_matrix(stones: &[Vec<Option<Color>>]) -> (stored: Vec<Vec<u8>>)
    ensures
        stored@.len() == stones@.len(),
        forall|r: int| 0 <= r < stones@.len() ==> (#[trigger] stored@[r])@ == row_codes(stones@[r]@),
{
    let mut stored: Vec<Vec<u8>> = Vec::new();
    let mut row: usize = 0;
    while row < stones.len()
        invariant
            row <= stones@.len(),
            stored@.len() == row,
            forall|r: int| 0 <= r < row ==> (#[trigger] stored@[r])@ == row_codes(stones@[r]@),
        decreases stones@.len() - row,
    {
        stored.push(store_row(&stones[row]));
        row = row + 1;
    }
    stored
}

/// Return the codes of a row of stones.
pub fn store_row(row: &Vec<Option<Color>>) -> (stored: Vec<u8>)
    ensures
        stored@ == row_codes(row@),
{
    let mut stored: Vec<u8> = Vec::new();
    let mut column: usize = 0;
    while column < row.len()
        invariant
            column <= row@.len(),
            stored@.len() == column,
            forall|c: int| 0 <= c < column ==> #[trigger] stored@[c] == color_code(row@[c]),
        decreases row@.len() - column,
    {
        stored.push(serialize_color(&row[column]));
        column = column + 1;
    }
    assert(stored@ =~= row_codes(row@));
    stored
}

/// Return the stones that the stored rows stand for, or the first number
/// that stands for no color.
pub fn load_stone_matrix(stones: &[Vec<u8>]) -> (result: Result<StoneMatrix, LoadError>)
    ensures
        match result {
            Ok(loaded) => {
                &&& loaded@.len() == stones@.len()
                &&& forall|r: int|
                    0 <= r < stones@.len() ==> all_color_codes((#[trigger] stones@[r])@)
                &&& forall|r: int|
                    0 <= r < stones@.len() ==> (#[trigger] loaded@[r])@ == row_colors(
                        stones@[r]@,
                    )
            },
            Err(error) => is_first_invalid_color(code_rows(stones@), error),
        },
{
    let mut loaded: Vec<Vec<Option<Color>>> = Vec::new();
    let mut row: usize = 0;
    while row < stones.len()
        invariant
            row <= stones@.len(),
            loaded@.len() == row,
            forall|r: int| 0 <= r < row ==> all_color_codes((#[trigger] stones@[r])@),
            forall|r: int| 0 <= r < row ==> (#[trigger] loaded@[r])@ == row_colors(stones@[r]@),
        decreases stones@.len() - row,
    {
        match load_row(&stones[row]) {
            Ok(colors) => {
                loaded.push(colors);
            },
            Err(error) => {
                proof {
                    let rows = code_rows(stones@);
                    let position = choose|position: int|
                        is_first_invalid(stones@[row as int]@, position) && error
                            == LoadError::InvalidColor(stones@[row as int]@[position]);
                    assert(rows[row as int] == stones@[row as int]@);
                    assert forall|i: int| 0 <= i < row implies all_color_codes(
                        #[trigger] rows[i],
                    ) by {
                        assert(all_color_codes(stones@[i]@));
                    }
                    assert(is_first_invalid(rows[row as int], position));
                }
                return Err(error);
            },
        }
        row = row + 1;
    }
    Ok(loaded)
}

/// Return the stones that a row of codes stands for, or the first number that
/// stands for no color.
pub fn load_row(row: &Vec<u8>) -> (result: Result<Vec<Option<Color>>, LoadError>)
    ensures
        match result {
            Ok(colors) => all_color_codes(row@) && colors@ == row_colors(row@),
            Err(error) => exists|position: int|
                #[trigger] is_first_invalid(row@, position) && error == LoadError::InvalidColor(
                    row@[position],
                ),
        },
{
    let mut colors: Vec<Option<Color>> = Vec::new();
    let mut column: usize = 0;
    while column < row.len()
        invariant
            column <= row@.len(),
            colors@.len() == column,
            forall|c: int| 0 <= c < column ==> is_color_code(#[trigger] row@[c]),
            forall|c: int| 0 <= c < column ==> #[trigger] colors@[c] == color_of_code(row@[c]),
        decreases row@.len() - column,
    {
        match deserialize_color(&row[column]) {
            Ok(color) => {
                colors.push(color);
            },
            Err(error) => {
                assert(is_first_invalid(row@, column as int));
                return Err(error);
            },
        }
        column = column + 1;
    }
    assert(colors@ =~= row_colors(row@));
    Ok(colors)
}

/// Return the code of a color, or of none.
pub fn serialize_color(color: &Option<Color>) -> (code: u8)
    ensures
        code == color_code(*color),
{
    match color {
        None => 0,
        Some(Color::Black) => 1,
        Some(Color::White) => 2,
    }
}

/// Return the color that a code stands for, or say that the number is no code.
pub fn deserialize_color(input: &u8) -> (result: Result<Option<Color>, LoadError>)
    ensures
        match result {
            Ok(color) => is_color_code(*input) && color == color_of_code(*input),
            Err(error) => !is_color_code(*input) && error == LoadError::InvalidColor(*input),
        },
{
    let code = *input;
    if code == 0 {
        Ok(None)
    } else if code == 1 {
        Ok(Some(Color::Black))
    } else if code == 2 {
        Ok(Some(Color::White))
    } else {
        Err(LoadError::InvalidColor(code))
    }
}

impl Game {
    /// Return the game in the form in which it is stored.
    pub fn to_stored(&self) -> (stored: StoredGame)
        requires
            self.wf(),
        ensures
            stored.version == VERSION,
            stored.size == self@.board.size,
            stored.current_player == color_code(
                match self@.status {
                    Status::Ongoing(player) => Some(player),
                    Status::Finished(_) => None,
                },
            ),
            stored.stones@.len() == self@.board.size,
            forall|r: int|
                0 <= r < self@.board.size ==> (#[trigger] stored.stones@[r])@ == row_codes(
                    matrix_of(self@.board)[r],
                ),
    {
        let stones = self.get_board().to_stone_matrix();
        assert forall|r: int| 0 <= r < stones@.len() implies (#[trigger] stones@[r])@ == matrix_of(
            self@.board,
        )[r] by {
            assert(rows_of(stones)[r] == stones@[r]@);
        }
        assert(rows_of(stones).len() == stones@.len());
        StoredGame {
            version: VERSION,
            size: self.get_board().size(),
            current_player: serialize_color(&self.get_current_player()),
            stones: store_stone_matrix(stones.as_slice()),
        }
    }

    /// Load a game from the form in which it is stored. The version is
    /// checked first, then every number that stands for the color of a cell,
    /// then the number that stands for the current player, then the stones
    /// and the current player as `Game::load` checks them. The stored size is
    /// not looked at: the number of rows is the size.
    pub fn from_stored(stored: &StoredGame) -> (result: Result<Game, LoadError>)
        ensures
            match result {
                Ok(game) => {
                    &&& stored.version == VERSION
                    &&& all_rows_color_codes(stored.stones@)
                    &&& is_color_code(stored.current_player)
                    &&& is_stone_matrix(stored_stones(stored.stones@))
                    &&& game.wf()
                    &&& game@.board == board_of_matrix(stored_stones(stored.stones@))
                    &&& Ok::<Status, InvalidBoard>(game@.status) == loaded_status(
                        game@.board,
                        color_of_code(stored.current_player),
                    )
                },
                Err(LoadError::UnsupportedVersion(version)) => version == stored.version && version
                    != VERSION,
                Err(LoadError::InvalidColor(code)) => {
                    &&& stored.version == VERSION
                    &&& if all_rows_color_codes(stored.stones@) {
                        !is_color_code(stored.current_player) && code == stored.current_player
                    } else {
                        is_first_invalid_color(
                            code_rows(stored.stones@),
                            LoadError::InvalidColor(code),
                        )
                    }
                },
                Err(LoadError::InvalidBoard(error)) => {
                    &&& stored.version == VERSION
                    &&& all_rows_color_codes(stored.stones@)
                    &&& is_color_code(stored.current_player)
                    &&& {
                        ||| is_matrix_error(stored_stones(stored.stones@), error)
                        ||| {
                            &&& is_stone_matrix(stored_stones(stored.stones@))
                            &&& loaded_status(
                                board_of_matrix(stored_stones(stored.stones@)),
                                color_of_code(stored.current_player),
                            ) == Err::<Status, InvalidBoard>(error)
                        }
                    }
                },
            },
    {
        if stored.version != VERSION {
            return Err(LoadError::UnsupportedVersion(stored.version));
        }
        let stones = match load_stone_matrix(stored.stones.as_slice()) {
            Ok(stones) => stones,
            Err(error) => {
                proof {
                    let rows = code_rows(stored.stones@);
                    let (r, position) = choose|r: int, position: int|
                        {
                            &&& 0 <= r < rows.len()
                            &&& forall|i: int| 0 <= i < r ==> all_color_codes(#[trigger] rows[i])
                            &&& #[trigger] is_first_invalid(rows[r], position)
                            &&& error == LoadError::InvalidColor(rows[r][position])
                        };
                    assert(!is_color_code(stored.stones@[r]@[position]));
                    assert(!all_color_codes(stored.stones@[r]@));
                }
                return Err(error);
            },
        };
        let current_player = match deserialize_color(&stored.current_player) {
            Ok(player) => player,
            Err(error) => {
                return Err(error);
            },
        };
        proof {
            assert(rows_of(stones) =~= stored_stones(stored.stones@));
        }
        match Game::load(stones, current_player) {
            Ok(game) => Ok(game),
            Err(error) => Err(LoadError::InvalidBoard(error)),
        }
    }
}

} // verus!
