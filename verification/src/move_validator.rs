//! Validation of a proposed move against the board, the player's hand and
//! the special-point ledger. Validation is pure: it mutates nothing.

use vstd::prelude::*;
use crate::card::{CardSquareProviderImpl, CardSquareType};
use crate::matrix::{grid_wf, grid_width, spec_rotate, Matrix};
use crate::names::has_name;
use crate::position::INamedPosition;
use crate::squares::{MapSquareType, MST};
use crate::state::{PlayerDeck, PlayerMove};
use crate::team::PlayerTeam;

verus! {

#[derive(Debug, Eq, PartialEq, Clone, Copy, Structural)]
pub enum InvalidMoveError {
    CardNotFound,
    CardNotInHand,
    CannotAffordSpecial,
    CardOutOfBounds,
    CardOnDisallowedSquares,
    NoExpectedSquaresNearCard,
}

/// The rotated shape fits the board at the given position: no component is
/// negative and the shape ends within both board edges.
pub open spec fn within_bounds_spec(
    pos: INamedPosition,
    board: Seq<Seq<MST>>,
    squares: Seq<Seq<CardSquareType>>,
) -> bool {
    &&& pos.x >= 0
    &&& pos.y >= 0
    &&& pos.x + grid_width(squares) <= grid_width(board)
    &&& pos.y + squares.len() <= board.len()
}

/// A board square the card may cover: an empty square for a normal play;
/// for a special play also a filled square of either team, but never a
/// special square, a disabled square or a contested one.
pub open spec fn may_cover(square: MST, special: bool) -> bool {
    square == MST::Empty || (special && (square == MST::FillAlpha || square == MST::FillBravo))
}

/// Every non-empty square of the rotated shape lands on a square it may
/// cover.
pub open spec fn on_correct_squares_spec(
    px: int,
    py: int,
    special: bool,
    board: Seq<Seq<MST>>,
    squares: Seq<Seq<CardSquareType>>,
) -> bool {
    forall|y: int, x: int|
        0 <= y < squares.len() && 0 <= x < grid_width(squares) && squares[y][x]
            != CardSquareType::Empty ==> may_cover(#[trigger] board[py + y][px + x], special)
}

/// A board square that lets the team place next to it: its own special
/// square, and for a normal play also its own filled square.
pub open spec fn is_expected_nearby(square: MST, team: PlayerTeam, special: bool) -> bool {
    if special {
        square == MapSquareType::special_of(team)
    } else {
        square == MapSquareType::special_of(team) || square == MapSquareType::fill_of(team)
    }
}

/// The 8-neighbourhood of board cell `(bx, by)`, clamped to the board,
/// holds a square of the team's adjacency set. The cell itself belongs to
/// the clamped block.
pub open spec fn has_expected_near_spec(
    board: Seq<Seq<MST>>,
    team: PlayerTeam,
    special: bool,
    bx: int,
    by: int,
) -> bool {
    exists|ny: int, nx: int|
        {
            &&& if by == 0 {
                0int
            } else {
                by - 1
            } <= ny <= if by + 1 < board.len() {
                by + 1
            } else {
                by
            }
            &&& if bx == 0 {
                0int
            } else {
                bx - 1
            } <= nx <= if bx + 1 < grid_width(board) {
                bx + 1
            } else {
                bx
            }
            &&& is_expected_nearby(#[trigger] board[ny][nx], team, special)
        }
}

/// Some non-empty square of the rotated shape has a square of the team's
/// adjacency set in its clamped 8-neighbourhood.
pub open spec fn near_expected_squares_spec(
    px: int,
    py: int,
    special: bool,
    board: Seq<Seq<MST>>,
    squares: Seq<Seq<CardSquareType>>,
    team: PlayerTeam,
) -> bool {
    exists|y: int, x: int|
        {
            &&& 0 <= y < squares.len()
            &&& 0 <= x < grid_width(squares)
            &&& #[trigger] squares[y][x] != CardSquareType::Empty
            &&& has_expected_near_spec(board, team, special, px + x, py + y)
        }
}

/// What validation returns, in the order the checks run: the card must be
/// in the hand, then known to the catalog; a placement must then be
/// affordable, within bounds, on squares it may cover, and near a square
/// of the team's adjacency set. A pass needs only the first two checks.
pub open spec fn validate_spec(
    catalog: CardSquareProviderImpl,
    board: Seq<Seq<MST>>,
    available_special_points: int,
    team: PlayerTeam,
    player_move: PlayerMove,
    deck: PlayerDeck,
) -> Result<(), InvalidMoveError> {
    if !has_name(deck.current_hand@, player_move.spec_card_name()) {
        Err(InvalidMoveError::CardNotInHand)
    } else {
        match player_move {
            PlayerMove::PlaceCard { card_name, position, rotation, special } => {
                if !catalog.spec_exists(card_name@) {
                    Err(InvalidMoveError::CardNotFound)
                } else {
                    let card = catalog.spec_get(card_name@);
                    let squares = spec_rotate(card.squares@, rotation.spec_matrix_rotation());
                    if special && card.special_cost > available_special_points {
                        Err(InvalidMoveError::CannotAffordSpecial)
                    } else if !within_bounds_spec(position, board, squares) {
                        Err(InvalidMoveError::CardOutOfBounds)
                    } else if !on_correct_squares_spec(
                        position.x as int,
                        position.y as int,
                        special,
                        board,
                        squares,
                    ) {
                        Err(InvalidMoveError::CardOnDisallowedSquares)
                    } else if !near_expected_squares_spec(
                        position.x as int,
                        position.y as int,
                        special,
                        board,
                        squares,
                        team,
                    ) {
                        Err(InvalidMoveError::NoExpectedSquaresNearCard)
                    } else {
                        Ok(())
                    }
                }
            }
            PlayerMove::Pass { card_name } => {
                if !catalog.spec_exists(card_name@) {
                    Err(InvalidMoveError::CardNotFound)
                } else {
                    Ok(())
                }
            }
        }
    }
}

/// Validates moves against the card catalog.
#[derive(Debug)]
pub struct MoveValidatorImpl {
    pub card_provider: CardSquareProviderImpl,
}

/// Every shape grid of the catalog is well formed, so it can be rotated,
/// and small enough that its cells can be counted.
pub open spec fn catalog_wf(catalog: CardSquareProviderImpl) -> bool {
    forall|i: int|
        0 <= i < catalog.spec_cards().len() ==> {
            &&& grid_wf((#[trigger] catalog.spec_cards()[i]).squares@)
            &&& catalog.spec_cards()[i].squares@.len() * grid_width(
                catalog.spec_cards()[i].squares@,
            ) <= usize::MAX
        }
}

impl MoveValidatorImpl {
    pub fn new(card_square_provider: CardSquareProviderImpl) -> (r: Self)
        ensures
            r.card_provider == card_square_provider,
    {
        MoveValidatorImpl { card_provider: card_square_provider }
    }

    /// Validation is pure: every argument is borrowed, nothing changes, and
    /// the result is exactly what `validate_spec` says for these inputs.
    pub fn validate(
        &self,
        board: &Matrix<MapSquareType>,
        available_special_points: usize,
        team: &PlayerTeam,
        player_move: &PlayerMove,
        deck: &PlayerDeck,
    ) -> (r: Result<(), InvalidMoveError>)
        requires
            board.wf(),
            catalog_wf(self.card_provider),
        ensures
            r == validate_spec(
                self.card_provider,
                board@,
                available_special_points as int,
                *team,
                *player_move,
                *deck,
            ),
    {
        if !crate::names::contains_name(&deck.current_hand, player_move.card_name().as_str()) {
            return Err(InvalidMoveError::CardNotInHand);
        }

        match player_move {
            PlayerMove::PlaceCard { position, rotation, card_name, special } => {
                match self.card_provider.get(card_name.as_str()) {
                    Some(card) => {
                        proof {
                            crate::card::lemma_card_index(
                                self.card_provider.spec_cards(),
                                card_name@,
                            );
                        }
                        if *special && card.special_cost > available_special_points {
                            return Err(InvalidMoveError::CannotAffordSpecial);
                        }

                        let squares = card.squares.rotate_clockwise(rotation.matrix_rotation());

                        if !Self::card_within_bounds(position, board, &squares) {
                            Err(InvalidMoveError::CardOutOfBounds)
                        } else if !Self::card_on_correct_squares(
                            position,
                            *special,
                            board,
                            &squares,
                        ) {
                            Err(InvalidMoveError::CardOnDisallowedSquares)
                        } else if !Self::correct_squares_near_card(
                            position,
                            *special,
                            board,
                            &squares,
                            team,
                        ) {
                            Err(InvalidMoveError::NoExpectedSquaresNearCard)
                        } else {
                            Ok(())
                        }
                    }
                    None => Err(InvalidMoveError::CardNotFound),
                }
            }
            PlayerMove::Pass { card_name } => {
                if !self.card_provider.contains(card_name.as_str()) {
                    Err(InvalidMoveError::CardNotFound)
                } else {
                    Ok(())
                }
            }
        }
    }

    pub fn card_within_bounds(
        position: &INamedPosition,
        board: &Matrix<MapSquareType>,
        card_squares: &Matrix<CardSquareType>,
    ) -> (r: bool)
        ensures
            r == within_bounds_spec(*position, board@, card_squares@),
    {
        if position.x < 0 || position.y < 0 {
            return false;
        }

        let board_size = board.size();
        let card_size = card_squares.size();
        let px = position.x as usize;
        let py = position.y as usize;

        px <= board_size.w && card_size.w <= board_size.w - px && py <= board_size.h
            && card_size.h <= board_size.h - py
    }

    pub fn card_on_correct_squares(
        position: &INamedPosition,
        special: bool,
        board: &Matrix<MapSquareType>,
        card_squares: &Matrix<CardSquareType>,
    ) -> (r: bool)
        requires
            board.wf(),
            card_squares.wf(),
            within_bounds_spec(*position, board@, card_squares@),
        ensures
            r == on_correct_squares_spec(
                position.x as int,
                position.y as int,
                special,
                board@,
                card_squares@,
            ),
    {
        let board_size = board.size();
        let card_size = card_squares.size();
        let px = position.x as usize;
        let py = position.y as usize;
        let mut y: usize = 0;
        while y < card_size.h
            invariant
                board.wf(),
                card_squares.wf(),
                within_bounds_spec(*position, board@, card_squares@),
                px == position.x,
                py == position.y,
                board_size.h == board@.len(),
                board_size.w == grid_width(board@),
                card_size.h == card_squares@.len(),
                card_size.w == grid_width(card_squares@),
                y <= card_size.h,
                forall|yy: int, xx: int|
                    0 <= yy < y && 0 <= xx < card_size.w && card_squares@[yy][xx]
                        != CardSquareType::Empty ==> may_cover(
                        #[trigger] board@[py + yy][px + xx],
                        special,
                    ),
            decreases card_size.h - y,
        {
            let mut x: usize = 0;
            while x < card_size.w
                invariant
                    board.wf(),
                    card_squares.wf(),
                    within_bounds_spec(*position, board@, card_squares@),
                    px == position.x,
                    py == position.y,
                    board_size.h == board@.len(),
                    board_size.w == grid_width(board@),
                    card_size.h == card_squares@.len(),
                    card_size.w == grid_width(card_squares@),
                    y < card_size.h,
                    x <= card_size.w,
                    forall|yy: int, xx: int|
                        0 <= yy < y && 0 <= xx < card_size.w && card_squares@[yy][xx]
                            != CardSquareType::Empty ==> may_cover(
                            #[trigger] board@[py + yy][px + xx],
                            special,
                        ),
                    forall|xx: int|
                        0 <= xx < x && card_squares@[y as int][xx] != CardSquareType::Empty
                            ==> may_cover(#[trigger] board@[py + y][px + xx], special),
                decreases card_size.w - x,
            {
                let cs = card_squares.get(x, y);
                if !matches!(cs, CardSquareType::Empty) {
                    let under = board.get(px + x, py + y);
                    let ok = matches!(under, MST::Empty) || (special && (matches!(
                        under,
                        MST::FillAlpha,
                    ) || matches!(under, MST::FillBravo)));
                    if !ok {
                        proof {
                            assert(card_squares@[y as int][x as int] != CardSquareType::Empty
                                && !may_cover(board@[py + y][px + x], special));
                        }
                        return false;
                    }
                }
                x = x + 1;
            }
            y = y + 1;
        }
        true
    }

    /// Whether the clamped 8-neighbourhood of board cell `(bx, by)` holds a
    /// square of the team's adjacency set.
    fn expected_near(
        board: &Matrix<MapSquareType>,
        team: &PlayerTeam,
        special: bool,
        bx: usize,
        by: usize,
    ) -> (r: bool)
        requires
            board.wf(),
            by < board@.len(),
            bx < grid_width(board@),
        ensures
            r == has_expected_near_spec(board@, *team, special, bx as int, by as int),
    {
        let board_size = board.size();
        let y0 = if by == 0 {
            0
        } else {
            by - 1
        };
        let y1 = if by + 1 < board_size.h {
            by + 1
        } else {
            by
        };
        let x0 = if bx == 0 {
            0
        } else {
            bx - 1
        };
        let x1 = if bx + 1 < board_size.w {
            bx + 1
        } else {
            bx
        };
        let mut ny: usize = y0;
        while ny <= y1
            invariant
                board.wf(),
                by < board@.len(),
                bx < grid_width(board@),
                y0 <= ny,
                board_size.h == board@.len(),
                board_size.w == grid_width(board@),
                y1 < board_size.h,
                x1 < board_size.w,
                y0 == if by == 0 {
                    0int
                } else {
                    by - 1
                },
                y1 == if by + 1 < board@.len() {
                    by + 1
                } else {
                    by as int
                },
                x0 == if bx == 0 {
                    0int
                } else {
                    bx - 1
                },
                x1 == if bx + 1 < grid_width(board@) {
                    bx + 1
                } else {
                    bx as int
                },
                forall|yy: int, xx: int|
                    y0 <= yy < ny && x0 <= xx <= x1 ==> !is_expected_nearby(
                        #[trigger] board@[yy][xx],
                        *team,
                        special,
                    ),
            decreases y1 + 1 - ny,
        {
            let mut nx: usize = x0;
            while nx <= x1
                invariant
                    board.wf(),
                    by < board@.len(),
                    bx < grid_width(board@),
                    y0 <= ny <= y1,
                    x0 <= nx,
                    board_size.h == board@.len(),
                    board_size.w == grid_width(board@),
                    y1 < board_size.h,
                    x1 < board_size.w,
                    y0 == if by == 0 {
                        0int
                    } else {
                        by - 1
                    },
                    y1 == if by + 1 < board@.len() {
                        by + 1
                    } else {
                        by as int
                    },
                    x0 == if bx == 0 {
                        0int
                    } else {
                        bx - 1
                    },
                    x1 == if bx + 1 < grid_width(board@) {
                        bx + 1
                    } else {
                        bx as int
                    },
                    forall|yy: int, xx: int|
                        y0 <= yy < ny && x0 <= xx <= x1 ==> !is_expected_nearby(
                            #[trigger] board@[yy][xx],
                            *team,
                            special,
                        ),
                    forall|xx: int|
                        x0 <= xx < nx ==> !is_expected_nearby(
                            #[trigger] board@[ny as int][xx],
                            *team,
                            special,
                        ),
                decreases x1 + 1 - nx,
            {
                let sq = board.get(nx, ny);
                let hit = match team {
                    PlayerTeam::Alpha => {
                        if special {
                            matches!(sq, MST::SpecialAlpha)
                        } else {
                            matches!(sq, MST::SpecialAlpha) || matches!(sq, MST::FillAlpha)
                        }
                    }
                    PlayerTeam::Bravo => {
                        if special {
                            matches!(sq, MST::SpecialBravo)
                        } else {
                            matches!(sq, MST::SpecialBravo) || matches!(sq, MST::FillBravo)
                        }
                    }
                };
                if hit {
                    proof {
                        assert(is_expected_nearby(board@[ny as int][nx as int], *team, special));
                    }
                    return true;
                }
                nx = nx + 1;
            }
            ny = ny + 1;
        }
        false
    }

    pub fn correct_squares_near_card(
        position: &INamedPosition,
        special: bool,
        board: &Matrix<MapSquareType>,
        card_squares: &Matrix<CardSquareType>,
        team: &PlayerTeam,
    ) -> (r: bool)
        requires
            board.wf(),
            card_squares.wf(),
            within_bounds_spec(*position, board@, card_squares@),
        ensures
            r == near_expected_squares_spec(
                position.x as int,
                position.y as int,
                special,
                board@,
                card_squares@,
                *team,
            ),
    {
        let board_size = board.size();
        let card_size = card_squares.size();
        let px = position.x as usize;
        let py = position.y as usize;
        let mut y: usize = 0;
        while y < card_size.h
            invariant
                board.wf(),
                card_squares.wf(),
                within_bounds_spec(*position, board@, card_squares@),
                px == position.x,
                py == position.y,
                board_size.h == board@.len(),
                board_size.w == grid_width(board@),
                card_size.h == card_squares@.len(),
                card_size.w == grid_width(card_squares@),
                y <= card_size.h,
                forall|yy: int, xx: int|
                    0 <= yy < y && 0 <= xx < card_size.w ==> !(#[trigger] card_squares@[yy][xx]
                        != CardSquareType::Empty && has_expected_near_spec(
                        board@,
                        *team,
                        special,
                        px + xx,
                        py + yy,
                    )),
            decreases card_size.h - y,
        {
            let mut x: usize = 0;
            while x < card_size.w
                invariant
                    board.wf(),
                    card_squares.wf(),
                    within_bounds_spec(*position, board@, card_squares@),
                    px == position.x,
                    py == position.y,
                    board_size.h == board@.len(),
                    board_size.w == grid_width(board@),
                    card_size.h == card_squares@.len(),
                    card_size.w == grid_width(card_squares@),
                    y < card_size.h,
                    x <= card_size.w,
                    forall|yy: int, xx: int|
                        0 <= yy < y && 0 <= xx < card_size.w ==> !(#[trigger] card_squares@[yy][xx]
                            != CardSquareType::Empty && has_expected_near_spec(
                            board@,
                            *team,
                            special,
                            px + xx,
                            py + yy,
                        )),
                    forall|xx: int|
                        0 <= xx < x ==> !(#[trigger] card_squares@[y as int][xx]
                            != CardSquareType::Empty && has_expected_near_spec(
                            board@,
                            *team,
                            special,
                            px + xx,
                            py + y,
                        )),
                decreases card_size.w - x,
            {
                let cs = card_squares.get(x, y);
                if !matches!(cs, CardSquareType::Empty) {
                    if Self::expected_near(board, team, special, px + x, py + y) {
                        proof {
                            assert(card_squares@[y as int][x as int] != CardSquareType::Empty
                                && has_expected_near_spec(
                                board@,
                                *team,
                                special,
                                px + x,
                                py + y,
                            ));
                        }
                        return true;
                    }
                }
                x = x + 1;
            }
            y = y + 1;
        }
        false
    }
}

} // verus!
