use vstd::prelude::*;
use crate::text::{decimal, push_decimal};

verus! {

/// The type of a single coordinate (row or column).
pub type CoordValue = u8;

/// Coordinates of a single cell of the board, in a zero-based (row, column)
/// format analogous to matrix indices.
///
/// The following diagram shows on the left the format used by `Coords` and on
/// the right the "c4" format similar to Chess that is commonly used in the
/// literature. The order of row index and column index is swapped between both
/// formats: the marked cell has coordinates (1, 3) and d2, respectively.
///
/// ```text
///  0  1  2  3  4           a  b  c  d  e
/// 0\.  .  .  .  .\0       1\.  .  .  .  .\1
///  1\.  .  .  ●  .\1       2\.  .  .  ●  .\2
///   2\.  .  .  .  .\2       3\.  .  .  .  .\3
///    3\.  .  .  .  .\3       4\.  .  .  .  .\4
///     4\.  .  .  .  .\4       5\.  .  .  .  .\5
///        0  1  2  3  4           a  b  c  d  e
/// ```
#[derive(Copy, Clone, Debug, PartialEq, Eq, Structural)]
pub struct Coords {
    /// Zero-based row index, counted from top to bottom.
    pub row: CoordValue,
    /// Zero-based column index, counted from left to right.
    pub column: CoordValue,
}

impl Coords {
    /// Whether these coordinates name a cell of a board with `size` rows and columns.
    pub open spec fn on_board(self, size: int) -> bool {
        self.row < size && self.column < size
    }

    /// Create a new Coords instance. Watch out: the order of the parameters is
    /// different from the commonly used "c4" format.
    pub fn new(row: CoordValue, column: CoordValue) -> (coords: Self)
        ensures
            coords.row == row,
            coords.column == column,
    {
        Self { row, column }
    }

    /// Return whether this coordinate exists on a board of the given size.
    pub fn is_on_board_with_size(&self, size: CoordValue) -> (on_board: bool)
        ensures
            on_board == self.on_board(size as int),
    {
        self.row < size && self.column < size
    }
}

/// The character that names a column in the "c4" format: `a` for the first one.
pub open spec fn column_char(column: int) -> char {
    ('a' as int + column) as char
}

/// The column that a character names in the "c4" format, if it is one of `a` to `z`.
pub open spec fn column_of_char(c: char) -> Option<CoordValue> {
    if 'a' <= c <= 'z' {
        Some((c as int - 'a' as int) as CoordValue)
    } else {
        None
    }
}

/// Convert a character to a single coordinate (characters are used to denote
/// column indices in the "c4" format). Return None if `c` is not in the range a-z.
pub fn parse_column_char(c: char) -> (column: Option<CoordValue>)
    ensures
        column == column_of_char(c),
        column matches Some(found) ==> found < 26 && column_char(found as int) == c,
{
    if 'a' <= c && c <= 'z' {
        Some((c as u8) - 97)
    } else {
        None
    }
}

/// Convert a single coordinate (typically the column index) to the character
/// that is used in the "c4" format.
pub fn to_column_char(column: CoordValue) -> (c: char)
    requires
        'a' as int + column <= u8::MAX,
    ensures
        c == column_char(column as int),
{
    (97u8 + column) as char
}

/// Whether a character is a decimal digit.
pub open spec fn is_digit(c: char) -> bool {
    '0' <= c <= '9'
}

/// Whether a text consists of decimal digits only.
pub open spec fn all_digits(text: Seq<char>) -> bool {
    forall|i: int| 0 <= i < text.len() ==> is_digit(#[trigger] text[i])
}

/// The number that a text of decimal digits denotes.
pub open spec fn digits_value(digits: Seq<char>) -> nat
    decreases digits.len(),
{
    if digits.len() == 0 {
        0
    } else {
        (digits_value(digits.drop_last()) * 10 + (digits.last() as int - '0' as int)) as nat
    }
}

/// The coordinate that a text denotes: one or more decimal digits, after an
/// optional plus sign, whose value fits the type.
pub open spec fn parse_number(text: Seq<char>) -> Option<CoordValue> {
    let digits = if text.len() > 0 && text[0] == '+' {
        text.subrange(1, text.len() as int)
    } else {
        text
    };
    if digits.len() > 0 && all_digits(digits) && digits_value(digits) <= CoordValue::MAX {
        Some(digits_value(digits) as CoordValue)
    } else {
        None
    }
}

/// The coordinates that a text in the "c4" format denotes: the letter of the
/// column, then the number of the row, counted from one.
pub open spec fn parse_coords(text: Seq<char>) -> Option<Coords> {
    if text.len() == 0 {
        None
    } else {
        match (column_of_char(text[0]), parse_number(text.subrange(1, text.len() as int))) {
            (Some(column), Some(number)) => if number > 0 {
                Some(Coords { row: (number - 1) as CoordValue, column })
            } else {
                None
            },
            _ => None,
        }
    }
}

/// The coordinates in the "c4" format.
pub open spec fn coords_text(coords: Coords) -> Seq<char> {
    seq![column_char(coords.column as int)] + decimal((coords.row + 1) as nat)
}

/// What the error says about a text that denotes no coordinates.
pub open spec fn invalid_coords_text(text: Seq<char>) -> Seq<char> {
    "Invalid coordinates: "@ + text
}

/// The value of a text of digits is at least the value of each of its beginnings.
pub proof fn lemma_digits_value_grows(digits: Seq<char>, count: int)
    requires
        all_digits(digits),
        0 <= count <= digits.len(),
    ensures
        digits_value(digits.subrange(0, count)) <= digits_value(digits),
    decreases digits.len(),
{
    if count == digits.len() {
        assert(digits.subrange(0, count) =~= digits);
    } else {
        assert(all_digits(digits.drop_last())) by {
            assert forall|i: int| 0 <= i < digits.drop_last().len() implies is_digit(
                #[trigger] digits.drop_last()[i],
            ) by {
                assert(digits.drop_last()[i] == digits[i]);
            }
        }
        lemma_digits_value_grows(digits.drop_last(), count);
        assert(digits.drop_last().subrange(0, count) =~= digits.subrange(0, count));
        assert(is_digit(digits[digits.len() - 1]));
    }
}

/// Returned by `Coords::from_str` if the string cannot be parsed.
#[derive(Debug)]
pub struct ParseCoordsError {
    description: String,
}

impl ParseCoordsError {
    /// What the error says.
    pub closed spec fn description(&self) -> Seq<char> {
        self.description@
    }

    /// Return what the error says.
    pub fn to_string(&self) -> (text: String)
        ensures
            text@ == self.description(),
    {
        self.description.clone()
    }
}

/// Parse the number of a row from the characters of `text` after the first one.
fn parse_row_number(text: &str, len: usize) -> (number: Option<CoordValue>)
    requires
        len == text@.len(),
        len >= 1,
    ensures
        number == parse_number(text@.subrange(1, len as int)),
{
    let ghost rest = text@.subrange(1, len as int);
    let mut start: usize = 1;
    if len > 1 && text.get_char(1) == '+' {
        start = 2;
    }
    let ghost digits = text@.subrange(start as int, len as int);
    assert(digits =~= if rest.len() > 0 && rest[0] == '+' {
        rest.subrange(1, rest.len() as int)
    } else {
        rest
    });
    if start >= len {
        return None;
    }
    let mut value: u16 = 0;
    let mut position: usize = start;
    while position < len
        invariant
            1 <= start <= position <= len,
            len == text@.len(),
            digits == text@.subrange(start as int, len as int),
            rest == text@.subrange(1, len as int),
            digits == (if rest.len() > 0 && rest[0] == '+' {
                rest.subrange(1, rest.len() as int)
            } else {
                rest
            }),
            all_digits(digits.subrange(0, position - start)),
            value == digits_value(digits.subrange(0, position - start)),
            value <= CoordValue::MAX,
        decreases len - position,
    {
        let c = text.get_char(position);
        assert(c == digits[position - start]);
        if !('0' <= c && c <= '9') {
            assert(!is_digit(digits[position - start]));
            return None;
        }
        let digit = ((c as u8) - 48) as u16;
        let ghost longer = digits.subrange(0, position - start + 1);
        proof {
            assert(longer.drop_last() =~= digits.subrange(0, position - start));
            assert(longer.last() == c);
            assert forall|i: int| 0 <= i < longer.len() implies is_digit(#[trigger] longer[i]) by {
                if i < longer.len() - 1 {
                    assert(longer[i] == digits.subrange(0, position - start)[i]);
                }
            }
        }
        value = value * 10 + digit;
        if value > 255 {
            proof {
                if all_digits(digits) {
                    lemma_digits_value_grows(digits, position - start + 1);
                }
            }
            return None;
        }
        position = position + 1;
    }
    assert(digits.subrange(0, len - start) =~= digits);
    Some(value as CoordValue)
}

impl Coords {
    /// Parse coordinates from the "c4" format.
    pub fn parse(string: &str) -> (result: Result<Coords, ParseCoordsError>)
        ensures
            match result {
                Ok(coords) => parse_coords(string@) == Some(coords),
                Err(error) => parse_coords(string@).is_none() && error.description()
                    == invalid_coords_text(string@),
            },
    {
        let len = string.unicode_len();
        let column = if len == 0 {
            None
        } else {
            parse_column_char(string.get_char(0))
        };
        let row = if len == 0 {
            None
        } else {
            parse_row_number(string, len)
        };
        match (row, column) {
            (Some(number), Some(column)) => {
                if 0 < number {
                    return Ok(Coords { row: number - 1, column });
                }
            },
            _ => {},
        }
        let mut description = "Invalid coordinates: ".to_owned();
        description.append(string);
        Err(ParseCoordsError { description })
    }

    /// Return the coordinates in the "c4" format. Watch out: the column comes first.
    pub fn to_string(&self) -> (text: String)
        requires
            'a' as int + self.column <= u8::MAX,
        ensures
            text@ == coords_text(*self),
    {
        let mut text = String::new();
        text.push(to_column_char(self.column));
        push_decimal(&mut text, self.row as usize + 1);
        assert(text@ =~= coords_text(*self));
        text
    }
}

impl std::str::FromStr for Coords {
    type Err = ParseCoordsError;

    /// Parse coordinates from the "c4" format, as `Coords::parse` does.
    fn from_str(string: &str) -> (result: Result<Self, ParseCoordsError>)
        ensures
            match result {
                Ok(coords) => parse_coords(string@) == Some(coords),
                Err(error) => parse_coords(string@).is_none() && error.description()
                    == invalid_coords_text(string@),
            },
    {
        Coords::parse(string)
    }
}

/// What is said about coordinates that do not lie on the board.
pub open spec fn out_of_range_text(board_size: CoordValue) -> Seq<char> {
    "Coordinates must be in range "@ + coords_text(Coords { row: 0, column: 0 }) + " to "@
        + coords_text(
        Coords { row: (board_size - 1) as CoordValue, column: (board_size - 1) as CoordValue },
    )
}

/// Read the coordinates of a move from a line of input in the "c4" format.
/// The coordinates must lie on a board of the given size. If they do not, or
/// if the line denotes no coordinates, the error says so.
pub fn read_coords(input: &str, board_size: CoordValue) -> (result: Result<Coords, String>)
    requires
        0 < board_size,
        'a' as int + board_size - 1 <= u8::MAX,
    ensures
        match result {
            Ok(coords) => parse_coords(input@) == Some(coords) && coords.on_board(
                board_size as int,
            ),
            Err(message) => match parse_coords(input@) {
                None => message@ == invalid_coords_text(input@),
                Some(coords) => !coords.on_board(board_size as int) && message@
                    == out_of_range_text(board_size),
            },
        },
{
    match Coords::parse(input) {
        Err(error) => Err(error.to_string()),
        Ok(coords) => {
            if coords.is_on_board_with_size(board_size) {
                Ok(coords)
            } else {
                let first = Coords { row: 0, column: 0 };
                let last = Coords { row: board_size - 1, column: board_size - 1 };
                let mut message = "Coordinates must be in range ".to_owned();
                message.append(first.to_string().as_str());
                message.append(" to ");
                message.append(last.to_string().as_str());
                Err(message)
            }
        },
    }
}

} // verus!
