use vstd::prelude::*;
use crate::board::{
    board_of_matrix, empty_board, is_board_size, is_matrix_error, is_stone_matrix,
    lemma_empty_board_unconnected, lemma_play_keeps_stones, rows_of, Board, BoardView,
    StoneMatrix,
};
use crate::color::Color;
use crate::connectivity::lemma_stone_of_other_color;
use crate::coords::{CoordValue, Coords};
use crate::edges::{edges_of, get_edges_of_color, CoordsOrEdge, Edge};
use crate::errors::{InvalidBoard, InvalidMove};
use crate::hex_cells::{index_of_coords, index_of_edge, lemma_index_of, lemma_index_of_coords};

verus! {

/// Status of a game.
#[derive(Copy, Clone, Debug, PartialEq, Eq, Structural)]
pub enum Status {
    /// Game has not yet ended. The `Color` indicates which player is to make the next turn.
    Ongoing(Color),
    /// Game has been finished. The `Color` indicates which player has won the game.
    /// A game of Hex never ends in a draw.
    Finished(Color),
}

/// Whether the player has connected their two edges.
pub open spec fn has_won(board: BoardView, player: Color) -> bool {
    board.connected(
        CoordsOrEdge::Edge(edges_of(player).0),
        CoordsOrEdge::Edge(edges_of(player).1),
    )
}

/// The status of a game that is loaded with the given stones: finished if
/// Black, or else White, has connected their edges; otherwise it is the turn
/// of the current player, who must be given then.
pub open spec fn loaded_status(board: BoardView, current_player: Option<Color>) -> Result<
    Status,
    InvalidBoard,
> {
    if has_won(board, Color::Black) {
        Ok(Status::Finished(Color::Black))
    } else if has_won(board, Color::White) {
        Ok(Status::Finished(Color::White))
    } else {
        match current_player {
            Some(player) => Ok(Status::Ongoing(player)),
            None => Err(InvalidBoard::NoCurrentPlayer),
        }
    }
}

/// What a game shows: the stones on its board and its status.
pub struct GameView {
    pub board: BoardView,
    pub status: Status,
}

impl GameView {
    /// The board is well formed, the winner of a finished game has connected
    /// their edges, and in an ongoing game nobody has.
    pub open spec fn wf(self) -> bool {
        &&& self.board.wf()
        &&& match self.status {
            Status::Ongoing(_) => !has_won(self.board, Color::Black) && !has_won(
                self.board,
                Color::White,
            ),
            Status::Finished(winner) => has_won(self.board, winner),
        }
    }

    /// Whether the current player may place a stone on `coords`, and if not, why not.
    pub open spec fn play_result(self, coords: Coords) -> Result<(), InvalidMove> {
        match self.status {
            Status::Ongoing(_) => self.board.play_result(coords),
            Status::Finished(_) => Err(InvalidMove::GameOver),
        }
    }

    /// The game after the current player tried to place a stone on `coords`.
    /// A valid move places the stone; it ends the game if the player's two
    /// edges are connected now, and else passes the turn to the opponent. An
    /// invalid move changes nothing.
    pub open spec fn after_play(self, coords: Coords) -> GameView {
        match self.status {
            Status::Ongoing(player) => if self.board.play_result(coords).is_ok() {
                let board = self.board.with_stone(coords, player);
                GameView {
                    board,
                    status: if has_won(board, player) {
                        Status::Finished(player)
                    } else {
                        Status::Ongoing(player.opponent())
                    },
                }
            } else {
                self
            },
            Status::Finished(_) => self,
        }
    }
}

/// A move keeps a game well formed: the player who has connected their edges
/// has won, and as long as nobody has, the game goes on. A finished game
/// refuses every move and stays as it is.
pub proof fn lemma_play_keeps_game(game: GameView, coords: Coords)
    requires
        game.wf(),
    ensures
        game.after_play(coords).wf(),
        game.status is Finished ==> game.play_result(coords) == Err::<(), InvalidMove>(
            InvalidMove::GameOver,
        ) && game.after_play(coords) == game,
        game.after_play(coords).status is Ongoing ==> game.status is Ongoing,
{
    if let Status::Ongoing(player) = game.status {
        if game.board.play_result(coords).is_ok() {
            let size = game.board.size;
            let after = game.board.with_stone(coords, player);
            let other = player.opponent();
            let from = CoordsOrEdge::Edge(edges_of(other).0);
            let to = CoordsOrEdge::Edge(edges_of(other).1);
            lemma_play_keeps_stones(game.board, coords, player, from);
            lemma_index_of_coords(size, coords);
            lemma_index_of(size, from);
            assert(game.board.colors[index_of_edge(size, edges_of(other).0)] == Some(
                edges_of(other).0.owner(),
            ));
            if has_won(after, other) {
                lemma_stone_of_other_color(
                    size,
                    game.board.colors,
                    index_of_coords(size, coords),
                    player,
                    from,
                    to,
                );
            }
        }
    }
}

/// `Game` holds the full state of a game of Hex and allows to manipulate this
/// state by playing valid moves.
///
/// The game state consists of a board (`get_board`) and the current player
/// (`get_current_player`).
#[derive(Clone)]
pub struct Game {
    board: Board,
    status: Status,
}

impl View for Game {
    type V = GameView;

    closed spec fn view(&self) -> GameView {
        GameView { board: self.board@, status: self.status }
    }
}

impl Game {
    /// The board of the game.
    pub closed spec fn spec_board(&self) -> Board {
        self.board
    }

    /// The invariant of a game: its board is well formed and shows what the
    /// game shows, and the status fits the board. `new` and `load` establish
    /// it, every method keeps it.
    pub open spec fn wf(&self) -> bool {
        &&& self.spec_board().wf()
        &&& self.spec_board()@ == self@.board
        &&& self@.wf()
    }

    /// Create a new game with the given board size. Boards are always square.
    ///
    /// Games always start with black.
    pub fn new(size: CoordValue) -> (game: Game)
        requires
            is_board_size(size as int),
        ensures
            game.wf(),
            game@.board == empty_board(size as int),
            game@.status == Status::Ongoing(Color::Black),
    {
        proof {
            lemma_empty_board_unconnected(
                size as int,
                CoordsOrEdge::Edge(Edge::Top),
                CoordsOrEdge::Edge(Edge::Bottom),
            );
            lemma_empty_board_unconnected(
                size as int,
                CoordsOrEdge::Edge(Edge::Left),
                CoordsOrEdge::Edge(Edge::Right),
            );
        }
        Game { board: Board::new(size), status: Status::Ongoing(Color::Black) }
    }

    /// Return the game's board.
    pub fn get_board(&self) -> (board: &Board)
        ensures
            *board == self.spec_board(),
    {
        &self.board
    }

    /// Return the current player, or None if the game has ended.
    pub fn get_current_player(&self) -> (player: Option<Color>)
        ensures
            player == match self@.status {
                Status::Ongoing(color) => Some(color),
                Status::Finished(_) => None,
            },
    {
        match self.status {
            Status::Ongoing(color) => Some(color),
            Status::Finished(_) => None,
        }
    }

    /// Return the game's status.
    pub fn get_status(&self) -> (status: Status)
        ensures
            status == self@.status,
    {
        self.status
    }

    /// Load a game from a `StoneMatrix` and a current player color.
    ///
    /// This method returns an error if `current_player` is None, but the game
    /// has not yet finished. Conversely, if the game has finished,
    /// `current_player` will be ignored.
    pub fn load(stones: StoneMatrix, current_player: Option<Color>) -> (result: Result<
        Self,
        InvalidBoard,
    >)
        ensures
            match result {
                Ok(game) => {
                    &&& is_stone_matrix(rows_of(stones))
                    &&& game.wf()
                    &&& game@.board == board_of_matrix(rows_of(stones))
                    &&& Ok::<Status, InvalidBoard>(game@.status) == loaded_status(
                        game@.board,
                        current_player,
                    )
                },
                Err(error) => {
                    ||| is_matrix_error(rows_of(stones), error)
                    ||| {
                        &&& is_stone_matrix(rows_of(stones))
                        &&& loaded_status(board_of_matrix(rows_of(stones)), current_player) == Err::<
                            Status,
                            InvalidBoard,
                        >(error)
                    }
                },
            },
    {
        let mut board = match Board::from_stone_matrix(stones) {
            Ok(board) => board,
            Err(error) => {
                return Err(error);
            },
        };
        let status = match Self::compute_status(&mut board, current_player) {
            Ok(status) => status,
            Err(error) => {
                return Err(error);
            },
        };
        Ok(Self { board, status })
    }

    /// Let the current player place a stone at the given coordinates.
    /// If the move is invalid, this method returns an error and changes
    /// nothing. A valid move ends the game if it connects the two edges of
    /// the player, and else passes the turn to the opponent.
    pub fn play(&mut self, coords: Coords) -> (result: Result<(), InvalidMove>)
        requires
            old(self).wf(),
        ensures
            final(self).wf(),
            result == old(self)@.play_result(coords),
            final(self)@ == old(self)@.after_play(coords),
            result.is_err() ==> *final(self) == *old(self),
    {
        match self.status {
            Status::Ongoing(current_player) => {
                match self.board.play(coords, current_player) {
                    Ok(()) => {},
                    Err(error) => {
                        return Err(error);
                    },
                }
                if Self::is_finished_after_player(&mut self.board, current_player) {
                    self.status = Status::Finished(current_player);
                } else {
                    proof {
                        lemma_play_keeps_game(old(self)@, coords);
                    }
                    self.status = Status::Ongoing(current_player.opponent_color());
                }
                Ok(())
            },
            Status::Finished(_) => Err(InvalidMove::GameOver),
        }
    }

    /// Return the status of a game with the given board, or say that the
    /// current player is missing.
    fn compute_status(board: &mut Board, current_player: Option<Color>) -> (result: Result<
        Status,
        InvalidBoard,
    >)
        requires
            old(board).wf(),
        ensures
            final(board).wf(),
            final(board)@ == old(board)@,
            result == loaded_status(old(board)@, current_player),
    {
        if Self::is_finished_after_player(board, Color::Black) {
            return Ok(Status::Finished(Color::Black));
        } else if Self::is_finished_after_player(board, Color::White) {
            return Ok(Status::Finished(Color::White));
        }
        match current_player {
            Some(color) => Ok(Status::Ongoing(color)),
            None => Err(InvalidBoard::NoCurrentPlayer),
        }
    }

    /// Return whether the player has connected their two edges.
    fn is_finished_after_player(board: &mut Board, current_player: Color) -> (finished: bool)
        requires
            old(board).wf(),
        ensures
            final(board).wf(),
            final(board)@ == old(board)@,
            finished == has_won(old(board)@, current_player),
    {
        let edges = get_edges_of_color(current_player);
        board.is_in_same_set(edges[0], edges[1])
    }
}

} // verus!
