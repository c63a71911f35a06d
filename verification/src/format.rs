use vstd::prelude::*;
use crate::board::{Board, BoardView};
use crate::color::Color;
use crate::coords::{column_char, to_column_char, CoordValue, Coords};
use crate::text::{decimal, push_decimal, push_spaces, spaces};

verus! {

/// The character that shows a cell: `●` for Black, `○` for White, `.` for an empty cell.
pub open spec fn stone_char(color: Option<Color>) -> char {
    match color {
        Some(Color::Black) => '●',
        Some(Color::White) => '○',
        None => '.',
    }
}

/// The labels of the first `columns` columns, each between two spaces.
pub open spec fn labels_upto(columns: nat) -> Seq<char>
    decreases columns,
{
    if columns == 0 {
        Seq::empty()
    } else {
        labels_upto((columns - 1) as nat) + seq![' ', column_char(columns - 1), ' ']
    }
}

/// A line with the labels of all columns, after `indent` spaces.
pub open spec fn column_labels(size: nat, indent: nat) -> Seq<char> {
    spaces(indent) + labels_upto(size) + seq!['\n']
}

/// The first `columns` cells of a row, with two spaces between neighbors.
pub open spec fn stones_upto(view: BoardView, row: int, columns: nat) -> Seq<char>
    decreases columns,
{
    if columns == 0 {
        Seq::empty()
    } else if columns == 1 {
        seq![stone_char(view.colors[row * view.size])]
    } else {
        stones_upto(view, row, (columns - 1) as nat) + seq![
            ' ',
            ' ',
            stone_char(view.colors[row * view.size + columns - 1]),
        ]
    }
}

/// The line of a row: one space of indent for each row above, the number of
/// the row counted from one, the cells between two backslashes, and the
/// number again.
pub open spec fn row_text(view: BoardView, row: nat) -> Seq<char> {
    spaces(row) + decimal(row + 1) + seq!['\\'] + stones_upto(view, row as int, view.size as nat)
        + seq!['\\'] + decimal(row + 1) + seq!['\n']
}

/// The lines of the first `rows` rows.
pub open spec fn rows_upto(view: BoardView, rows: nat) -> Seq<char>
    decreases rows,
{
    if rows == 0 {
        Seq::empty()
    } else {
        rows_upto(view, (rows - 1) as nat) + row_text(view, (rows - 1) as nat)
    }
}

/// The board as text: the labels of the columns, the rows, each shifted one
/// step to the right of the row above, and the labels again.
///
/// ```text
///  a  b  c  d  e
/// 1\.  .  .  .  .\1
///  2\.  ●  .  ○  .\2
///   3\.  .  ●  .  .\3
///    4\.  .  .  ○  .\4
///     5\.  .  .  .  .\5
///        a  b  c  d  e
/// ```
pub open spec fn board_text(view: BoardView) -> Seq<char> {
    column_labels(view.size as nat, 0) + rows_upto(view, view.size as nat) + column_labels(
        view.size as nat,
        (view.size + 1) as nat,
    )
}

/// Append the line with the labels of the columns.
pub fn write_column_labels(text: &mut String, board_size: CoordValue, indent: usize)
    requires
        'a' as int + board_size <= u8::MAX + 1,
    ensures
        final(text)@ == old(text)@ + column_labels(board_size as nat, indent as nat),
{
    write_indent(text, indent);
    let ghost start = text@;
    let mut column: CoordValue = 0;
    while column < board_size
        invariant
            column <= board_size,
            'a' as int + board_size <= u8::MAX + 1,
            text@ == start + labels_upto(column as nat),
        decreases board_size - column,
    {
        text.push(' ');
        text.push(to_column_char(column));
        text.push(' ');
        assert(text@ =~= start + labels_upto((column + 1) as nat));
        column = column + 1;
    }
    text.push('\n');
    assert(text@ =~= old(text)@ + column_labels(board_size as nat, indent as nat));
}

/// Append the line of a row.
pub fn write_row(text: &mut String, board: &Board, row: CoordValue)
    requires
        board.wf(),
        row < board@.size,
    ensures
        final(text)@ == old(text)@ + row_text(board@, row as nat),
{
    let size = board.size();
    write_indent(text, row as usize);
    push_decimal(text, row as usize + 1);
    text.push('\\');
    let ghost start = text@;
    let mut column: CoordValue = 0;
    while column < size
        invariant
            board.wf(),
            size == board@.size,
            row < size,
            column <= size,
            text@ == start + stones_upto(board@, row as int, column as nat),
        decreases size - column,
    {
        if column > 0 {
            text.push(' ');
            text.push(' ');
        }
        let color = board.get_color(Coords { row, column });
        text.push(char_for_color(color));
        assert(text@ =~= start + stones_upto(board@, row as int, (column + 1) as nat));
        column = column + 1;
    }
    text.push('\\');
    push_decimal(text, row as usize + 1);
    text.push('\n');
    assert(text@ =~= old(text)@ + row_text(board@, row as nat));
}

/// Append a run of spaces.
pub fn write_indent(text: &mut String, length: usize)
    ensures
        final(text)@ == old(text)@ + spaces(length as nat),
{
    push_spaces(text, length);
}

/// Return the character that shows a cell.
pub fn char_for_color(color: Option<Color>) -> (c: char)
    ensures
        c == stone_char(color),
{
    match color {
        Some(Color::Black) => '●',
        Some(Color::White) => '○',
        None => '.',
    }
}

impl Board {
    /// Return the board in a human-readable format.
    pub fn to_string(&self) -> (text: String)
        requires
            self.wf(),
        ensures
            text@ == board_text(self@),
    {
        let size = self.size();
        let mut text = String::new();
        write_column_labels(&mut text, size, 0);
        let ghost start = text@;
        let mut row: CoordValue = 0;
        while row < size
            invariant
                self.wf(),
                size == self@.size,
                row <= size,
                text@ == start + rows_upto(self@, row as nat),
            decreases size - row,
        {
            write_row(&mut text, self, row);
            assert(text@ =~= start + rows_upto(self@, (row + 1) as nat));
            row = row + 1;
        }
        write_column_labels(&mut text, size, size as usize + 1);
        assert(text@ =~= board_text(self@));
        text
    }
}

} // verus!
