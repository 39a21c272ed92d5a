//! The rules of chess, as far as a chain needs them: which moves are legal
//! after the moves made so far, and whose turn it is. The `chess` crate
//! generates the moves; this module replays recorded squares against them.

use vstd::prelude::*;

verus! {

/// The side that a player has.
#[derive(Clone, Copy, Debug, PartialEq, Eq, Structural, Hash)]
pub enum Color {
    White,
    Black,
}

/// A kind of piece.
#[derive(Clone, Copy, Debug, PartialEq, Eq, Structural, Hash)]
pub enum Piece {
    Pawn,
    Knight,
    Bishop,
    Rook,
    Queen,
    King,
}

impl Piece {
    /// The piece with the given number: pawn 0, knight 1, bishop 2, rook 3,
    /// queen 4, and king for every other number.
    pub open spec fn of_index(index: usize) -> Piece {
        if index == 0 {
            Piece::Pawn
        } else if index == 1 {
            Piece::Knight
        } else if index == 2 {
            Piece::Bishop
        } else if index == 3 {
            Piece::Rook
        } else if index == 4 {
            Piece::Queen
        } else {
            Piece::King
        }
    }

    /// The piece with the given number.
    pub fn from_index(index: usize) -> (piece: Piece)
        ensures
            piece == Piece::of_index(index),
    {
        if index == 0 {
            Piece::Pawn
        } else if index == 1 {
            Piece::Knight
        } else if index == 2 {
            Piece::Bishop
        } else if index == 3 {
            Piece::Rook
        } else if index == 4 {
            Piece::Queen
        } else {
            Piece::King
        }
    }
}

/// A move: the square that a piece leaves, the square that it reaches (both
/// numbered from 0, a1, to 63, h8, rank by rank), and the piece that a pawn
/// turns into on the last rank.
#[derive(Clone, Copy, Debug, PartialEq, Eq, Structural, Hash)]
pub struct Move {
    pub source: u8,
    pub dest: u8,
    pub promotion: Option<Piece>,
}

impl Move {
    /// A move between two squares, with the piece that is promoted to, if any.
    pub fn new(source: u8, dest: u8, promotion: Option<Piece>) -> (m: Move)
        ensures
            m == (Move { source, dest, promotion }),
    {
        Move { source, dest, promotion }
    }

    /// A move between two squares, the promotion given by the number of the
    /// piece.
    pub fn from_parts(source: u8, dest: u8, promotion: Option<usize>) -> (m: Move)
        ensures
            m == (Move {
                source,
                dest,
                promotion: match promotion {
                    Some(index) => Some(Piece::of_index(index)),
                    None => None,
                },
            }),
    {
        let promotion = match promotion {
            Some(index) => Some(Piece::from_index(index)),
            None => None,
        };
        Move { source, dest, promotion }
    }

    /// The move leaves `start` and reaches `end`.
    pub open spec fn joins(self, start: u8, end: u8) -> bool {
        self.source == start && self.dest == end
    }
}

/// What a player can do when it is their turn. Only moves are recorded in a
/// chain.
#[derive(Clone, Copy, Debug, PartialEq, Eq, Structural, Hash)]
pub enum Action {
    MakeMove(Move),
    OfferDraw(Color),
    AcceptDraw,
    DeclareDraw,
    Resign(Color),
}

/// A game of the `chess` crate: a starting position and the actions taken.
#[verifier::external_type_specification]
#[verifier::external_body]
pub struct ExGame(chess::Game);

/// What a game holds: the moves made in it, in order, where the game began
/// at the initial position and nothing but moves was recorded in it; `None`
/// for every other game.
pub uninterp spec fn game_record(game: chess::Game) -> Option<Seq<Move>>;

/// The legal moves in the position that `moves`, made from the initial
/// position, lead to, in the order in which `MoveGen::new_legal` gives them.
pub uninterp spec fn legal_moves_after(moves: Seq<Move>) -> Seq<Move>;

/// `Game::new`: a game at the initial position, with no move made.
#[verifier::external_body]
fn new_game() -> (game: chess::Game)
    ensures
        game_record(game) == Some(Seq::<Move>::empty()),
{
    chess::Game::new()
}

/// `MoveGen::new_legal` on `Game::current_position`: every legal move, each
/// one handed out as its two squares and its promotion. The position, and so
/// the list, follows from the moves made.
#[verifier::external_body]
fn legal_moves_of(game: &chess::Game) -> (moves: Vec<Move>)
    requires
        game_record(*game) is Some,
    ensures
        moves@ == legal_moves_after(game_record(*game)->Some_0),
{
    chess::MoveGen::new_legal(&game.current_position())
        .map(|m| Move::from_parts(
            m.get_source().to_int(),
            m.get_dest().to_int(),
            m.get_promotion().map(|piece| piece.to_index()),
        ))
        .collect()
}

/// `Game::make_move` with the legal move number `k` of `MoveGen::new_legal`.
/// A game that holds only moves and has a legal move is not over, so the
/// move is taken: the record grows by it.
#[verifier::external_body]
fn make_legal_move(game: &mut chess::Game, k: usize)
    requires
        game_record(*old(game)) is Some,
        k < legal_moves_after(game_record(*old(game))->Some_0).len(),
    ensures
        game_record(*final(game)) == Some(
            game_record(*old(game))->Some_0.push(
                legal_moves_after(game_record(*old(game))->Some_0)[k as int],
            ),
        ),
    no_unwind
{
    if let Some(chosen) = chess::MoveGen::new_legal(&game.current_position()).nth(k) {
        let _ = game.make_move(chosen);
    }
}

/// `Game::side_to_move`: white where the number of moves made is even.
#[verifier::external_body]
fn white_to_move(game: &chess::Game) -> (white: bool)
    requires
        game_record(*game) is Some,
    ensures
        white == (game_record(*game)->Some_0.len() % 2 == 0),
{
    game.side_to_move() == chess::Color::White
}

/// The index of the first move at or after `from` in `legal` that leaves
/// `start` and reaches `end`.
pub open spec fn find_move_from(legal: Seq<Move>, start: u8, end: u8, from: int) -> Option<int>
    decreases legal.len() - from,
{
    if from < 0 || from >= legal.len() {
        None
    } else if legal[from].joins(start, end) {
        Some(from)
    } else {
        find_move_from(legal, start, end, from + 1)
    }
}

/// The index of the first move in `legal` that leaves `start` and reaches
/// `end`.
pub open spec fn find_move(legal: Seq<Move>, start: u8, end: u8) -> Option<int> {
    find_move_from(legal, start, end, 0)
}

/// The moves made so far and the recorded squares of one more: the moves
/// with the one that the squares stand for, which is the first legal move
/// between them, or `None` where no legal move joins them.
pub open spec fn replay_step(moves: Seq<Move>, start: u8, end: u8) -> Option<Seq<Move>> {
    match find_move(legal_moves_after(moves), start, end) {
        Some(k) => Some(moves.push(legal_moves_after(moves)[k])),
        None => None,
    }
}

/// The moves that a list of recorded squares stands for, from the initial
/// position on, or `None` where one of them is not legal in its turn.
pub open spec fn replay(squares: Seq<(u8, u8)>) -> Option<Seq<Move>>
    decreases squares.len(),
{
    if squares.len() == 0 {
        Some(Seq::empty())
    } else {
        match replay(squares.drop_last()) {
            Some(moves) => replay_step(moves, squares.last().0, squares.last().1),
            None => None,
        }
    }
}

/// A replay makes one move for each pair of squares.
pub proof fn lemma_replay_len(squares: Seq<(u8, u8)>)
    ensures
        replay(squares) matches Some(moves) ==> moves.len() == squares.len(),
    decreases squares.len(),
{
    if squares.len() > 0 {
        lemma_replay_len(squares.drop_last());
    }
}

/// Where a list of squares can be replayed, so can each of its beginnings.
pub proof fn lemma_replay_prefix(squares: Seq<(u8, u8)>, n: int)
    requires
        0 <= n <= squares.len(),
        replay(squares) is Some,
    ensures
        replay(squares.take(n)) is Some,
    decreases squares.len(),
{
    if n == squares.len() {
        assert(squares.take(n) =~= squares);
    } else {
        lemma_replay_prefix(squares.drop_last(), n);
        assert(squares.drop_last().take(n) =~= squares.take(n));
    }
}

/// The side to move after `count` moves.
pub open spec fn side_after(count: nat) -> Color {
    if count % 2 == 0 {
        Color::White
    } else {
        Color::Black
    }
}

/// A position: the game from the initial position up to it. Its view is the
/// list of the moves made.
pub struct Position {
    game: chess::Game,
}

impl View for Position {
    type V = Seq<Move>;

    closed spec fn view(&self) -> Seq<Move> {
        game_record(self.game)->Some_0
    }
}

impl Position {
    #[verifier::type_invariant]
    spec fn inv(self) -> bool {
        game_record(self.game) is Some
    }

    /// The initial position.
    pub fn start() -> (position: Position)
        ensures
            position@ == Seq::<Move>::empty(),
    {
        Position { game: new_game() }
    }

    /// The legal moves, in the order of the move generator.
    pub fn legal_moves(&self) -> (moves: Vec<Move>)
        ensures
            moves@ == legal_moves_after(self@),
    {
        proof {
            use_type_invariant(self);
        }
        legal_moves_of(&self.game)
    }

    /// The side to move: white at the start, then black and white in turn.
    pub fn side_to_move(&self) -> (side: Color)
        ensures
            side == side_after(self@.len()),
    {
        proof {
            use_type_invariant(self);
        }
        if white_to_move(&self.game) {
            Color::White
        } else {
            Color::Black
        }
    }

    /// Whether `m` is one of the legal moves.
    pub fn legal(&self, m: Move) -> (legal: bool)
        ensures
            legal == legal_moves_after(self@).contains(m),
    {
        let moves = self.legal_moves();
        let mut i: usize = 0;
        while i < moves.len()
            invariant
                i <= moves.len(),
                moves@ == legal_moves_after(self@),
                forall|j: int| 0 <= j < i ==> moves@[j] != m,
            decreases moves.len() - i,
        {
            if moves[i] == m {
                assert(moves@[i as int] == m);
                return true;
            }
            i += 1;
        }
        false
    }

    /// Makes the first legal move that leaves `start` and reaches `end`.
    /// Where there is none the position stays as it is.
    pub fn play(&mut self, start: u8, end: u8) -> (played: bool)
        ensures
            match replay_step(old(self)@, start, end) {
                Some(moves) => played && final(self)@ == moves,
                None => !played && final(self)@ == old(self)@,
            },
    {
        proof {
            use_type_invariant(&*self);
        }
        let moves = self.legal_moves();
        let mut i: usize = 0;
        while i < moves.len()
            invariant
                i <= moves.len(),
                *self == *old(self),
                game_record(self.game) is Some,
                moves@ == legal_moves_after(self@),
                find_move(moves@, start, end) == find_move_from(moves@, start, end, i as int),
            decreases moves.len() - i,
        {
            if moves[i].source == start && moves[i].dest == end {
                assert(find_move(moves@, start, end) == Some(i as int));
                make_legal_move(&mut self.game, i);
                return true;
            }
            i += 1;
        }
        assert(find_move(moves@, start, end) is None);
        false
    }
}

} // verus!
