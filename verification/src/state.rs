//! The match state machine: decks and hands, pending moves, simultaneous
//! resolution, scoring and the special-point ledger.

use vstd::prelude::*;
use crate::card::{catalogs_like, lemma_catalogs_like_index, CardSquareProviderImpl, CardSquareType};
use crate::counting::{count_pos, lemma_count_pos_bounds, lemma_rowmajor};
use crate::matrix::{grid_width, spec_rotate, Matrix, MatrixRotation};
use crate::move_validator::{
    catalog_wf, validate_spec, within_bounds_spec, InvalidMoveError, MoveValidatorImpl,
};
use crate::names::{
    distinct_names, has_name, insert_name, lemma_names_minus, lemma_push_entry,
    lemma_remove_entry, names_difference, names_minus, remove_name, subset_names,
};
use crate::position::INamedPosition;
use crate::squares::{MapSquareType, MST};
use crate::team::{PerTeam, PlayerTeam};

verus! {

pub const HAND_SIZE: usize = 4;

pub const DECK_SIZE: usize = 15;

pub const TURN_COUNT: usize = DECK_SIZE - (HAND_SIZE - 1);

#[derive(Debug, Eq, PartialEq, Clone, Copy, Structural)]
pub enum GameError {
    InvalidMove(InvalidMoveError),
    CardNotFound,
    IncorrectDeckSize,
    GameEnded,
    MapNotFound,
}

#[derive(Clone, Copy, Debug, Eq, PartialEq, Structural)]
pub enum CardRotation {
    Deg0,
    Deg90,
    Deg180,
    Deg270,
}

impl CardRotation {
    /// The grid rotation a card rotation performs.
    pub open spec fn spec_matrix_rotation(self) -> MatrixRotation {
        match self {
            CardRotation::Deg0 => MatrixRotation::Deg0,
            CardRotation::Deg90 => MatrixRotation::Deg90,
            CardRotation::Deg180 => MatrixRotation::Deg180,
            CardRotation::Deg270 => MatrixRotation::Deg270,
        }
    }

    pub fn matrix_rotation(&self) -> (r: MatrixRotation)
        ensures
            r == self.spec_matrix_rotation(),
    {
        match self {
            CardRotation::Deg0 => MatrixRotation::Deg0,
            CardRotation::Deg90 => MatrixRotation::Deg90,
            CardRotation::Deg180 => MatrixRotation::Deg180,
            CardRotation::Deg270 => MatrixRotation::Deg270,
        }
    }
}

/// A move a player submits for a turn: place a card, or pass holding one.
#[derive(Clone, Debug, Eq, PartialEq)]
pub enum PlayerMove {
    PlaceCard { card_name: String, position: INamedPosition, rotation: CardRotation, special: bool },
    Pass { card_name: String },
}

impl PlayerMove {
    /// The name of the card the move plays or discards.
    pub open spec fn spec_card_name(&self) -> Seq<char> {
        match self {
            PlayerMove::PlaceCard { card_name, .. } => card_name@,
            PlayerMove::Pass { card_name } => card_name@,
        }
    }

    pub fn card_name(&self) -> (r: &String)
        ensures
            r@ == self.spec_card_name(),
    {
        match self {
            PlayerMove::PlaceCard { card_name, .. } => card_name,
            PlayerMove::Pass { card_name } => card_name,
        }
    }

    /// A copy of this move carrying the same data.
    pub fn duplicate(&self) -> (r: PlayerMove)
        ensures
            r == *self,
    {
        match self {
            PlayerMove::PlaceCard { card_name, position, rotation, special } => {
                PlayerMove::PlaceCard {
                    card_name: card_name.clone(),
                    position: *position,
                    rotation: *rotation,
                    special: *special,
                }
            }
            PlayerMove::Pass { card_name } => PlayerMove::Pass { card_name: card_name.clone() },
        }
    }
}

/// A player's cards, the up-to-HAND_SIZE of them in hand, and the pile
/// already drawn.
#[derive(Debug)]
pub struct PlayerDeck {
    pub cards: Vec<String>,
    pub used_cards: Vec<String>,
    pub current_hand: Vec<String>,
}

impl PlayerDeck {
    /// The deck invariant: names are distinct, the used pile and the hand
    /// draw from the deck, no card is both used and in hand, and the hand
    /// never exceeds its size.
    pub open spec fn wf(&self) -> bool {
        &&& distinct_names(self.cards@)
        &&& distinct_names(self.used_cards@)
        &&& distinct_names(self.current_hand@)
        &&& subset_names(self.used_cards@, self.cards@)
        &&& subset_names(self.current_hand@, self.cards@)
        &&& forall|n: Seq<char>|
            has_name(self.current_hand@, n) ==> !has_name(self.used_cards@, n)
        &&& self.current_hand@.len() <= HAND_SIZE
    }

    /// The cards not yet drawn into any hand.
    pub open spec fn spec_available(&self) -> Seq<String> {
        names_minus(self.cards@, self.used_cards@)
    }

    /// The cards a replacement may be drawn from: neither used nor in hand.
    pub open spec fn spec_upcoming(&self) -> Seq<String> {
        names_minus(names_minus(self.cards@, self.used_cards@), self.current_hand@)
    }

    /// After playing `played`, no replacement is left: every deck card is
    /// already used, is the played card itself, or sits in the hand.
    pub open spec fn no_replacement_left(&self, played: Seq<char>) -> bool {
        forall|i: int|
            0 <= i < self.cards@.len() ==> {
                ||| has_name(self.used_cards@, (#[trigger] self.cards@[i])@)
                ||| self.cards@[i]@ == played
                ||| has_name(self.current_hand@, self.cards@[i]@)
            }
    }

    pub fn new(cards: Vec<String>) -> (r: Self)
        ensures
            r.cards@ == cards@,
            r.used_cards@ =~= Seq::<String>::empty(),
            r.current_hand@ =~= Seq::<String>::empty(),
            distinct_names(cards@) ==> r.wf(),
    {
        PlayerDeck { cards, used_cards: Vec::new(), current_hand: Vec::new() }
    }

    /// The cards not yet drawn, in deck order.
    pub fn available_cards(&self) -> (r: Vec<String>)
        ensures
            r@ == self.spec_available(),
    {
        names_difference(&self.cards, &self.used_cards)
    }

    /// The cards neither used nor in hand, in deck order.
    pub fn upcoming_cards(&self) -> (r: Vec<String>)
        ensures
            r@ == self.spec_upcoming(),
    {
        let available = names_difference(&self.cards, &self.used_cards);
        names_difference(&available, &self.current_hand)
    }

    /// Deals a fresh hand: up to HAND_SIZE cards drawn uniformly at
    /// random, without replacement, from the cards not yet used. The hand
    /// it held before is discarded.
    pub fn assign_cards(&mut self) -> (r: &Vec<String>)
        requires
            old(self).wf(),
        ensures
            final(self).wf(),
            final(self).cards@ == old(self).cards@,
            final(self).used_cards@ == old(self).used_cards@,
            r == &final(self).current_hand,
            distinct_names(final(self).current_hand@),
            subset_names(final(self).current_hand@, old(self).spec_available()),
            final(self).current_hand@.len() == if old(self).spec_available().len() <= HAND_SIZE {
                old(self).spec_available().len() as int
            } else {
                HAND_SIZE as int
            },
    {
        proof {
            lemma_names_minus(self.cards@, self.used_cards@);
        }
        let mut avail = self.available_cards();
        let ghost avail0 = avail@;
        let mut hand: Vec<String> = Vec::new();
        let mut k: usize = 0;
        while k < HAND_SIZE
            invariant
                k <= HAND_SIZE,
                distinct_names(avail@),
                distinct_names(hand@),
                subset_names(avail@, avail0),
                subset_names(hand@, avail0),
                forall|n: Seq<char>| has_name(hand@, n) ==> !has_name(avail@, n),
                hand@.len() + avail@.len() == avail0.len(),
                hand@.len() == if avail0.len() <= k {
                    avail0.len() as int
                } else {
                    k as int
                },
            decreases HAND_SIZE - k,
        {
            if avail.len() > 0 {
                let ghost pre_avail = avail@;
                let ghost pre_hand = hand@;
                let i = crate::rng::random_index(avail.len());
                let picked = avail.remove(i);
                proof {
                    lemma_remove_entry(pre_avail, i as int);
                    assert(has_name(pre_avail, picked@));
                    assert(!has_name(pre_hand, picked@));
                    lemma_push_entry(pre_hand, picked);
                }
                hand.push(picked);
                proof {
                    assert forall|a: int| 0 <= a < hand@.len() implies has_name(
                        avail0,
                        (#[trigger] hand@[a])@,
                    ) by {
                        if a < hand@.len() - 1 {
                            assert(hand@[a] == pre_hand[a]);
                        } else {
                            assert(hand@[a]@ == pre_avail[i as int]@);
                        }
                    }
                    assert forall|n: Seq<char>| has_name(hand@, n) implies !has_name(
                        avail@,
                        n,
                    ) by {
                        assert(has_name(pre_hand, n) || n == pre_avail[i as int]@);
                    }
                    assert forall|a: int| 0 <= a < avail@.len() implies has_name(
                        avail0,
                        (#[trigger] avail@[a])@,
                    ) by {
                        assert(has_name(pre_avail, avail@[a]@));
                        let b = choose|b: int|
                            0 <= b < pre_avail.len() && (#[trigger] pre_avail[b])@ == avail@[a]@;
                        assert(has_name(avail0, pre_avail[b]@));
                    }
                }
            }
            k = k + 1;
        }
        proof {
            lemma_names_minus(self.cards@, self.used_cards@);
            assert forall|a: int| 0 <= a < hand@.len() implies has_name(
                self.cards@,
                (#[trigger] hand@[a])@,
            ) by {
                assert(has_name(avail0, hand@[a]@));
            }
            assert forall|n: Seq<char>| has_name(hand@, n) implies !has_name(
                self.used_cards@,
                n,
            ) by {
                assert(has_name(avail0, n));
            }
        }
        self.current_hand = hand;
        &self.current_hand
    }

    /// Marks the played card used, removes it from the hand and, when a
    /// card is still neither used nor in hand, draws one uniformly at
    /// random as the replacement and adds it to the hand.
    pub fn draw_new_card(&mut self, card_to_replace: &str) -> (r: Option<String>)
        requires
            old(self).wf(),
            has_name(old(self).cards@, card_to_replace@),
            has_name(old(self).current_hand@, card_to_replace@),
        ensures
            final(self).wf(),
            final(self).cards@ == old(self).cards@,
            forall|n: Seq<char>|
                has_name(final(self).used_cards@, n) <==> (has_name(old(self).used_cards@, n) || n
                    == card_to_replace@),
            r is None <==> old(self).no_replacement_left(card_to_replace@),
            r is None ==> forall|n: Seq<char>|
                has_name(final(self).current_hand@, n) <==> (has_name(old(self).current_hand@, n)
                    && n != card_to_replace@),
            r is Some ==> {
                &&& has_name(old(self).cards@, r->0@)
                &&& !has_name(old(self).used_cards@, r->0@)
                &&& !has_name(old(self).current_hand@, r->0@)
                &&& r->0@ != card_to_replace@
                &&& forall|n: Seq<char>|
                    has_name(final(self).current_hand@, n) <==> ((has_name(
                        old(self).current_hand@,
                        n,
                    ) && n != card_to_replace@) || n == r->0@)
            },
    {
        insert_name(&mut self.used_cards, card_to_replace);
        remove_name(&mut self.current_hand, card_to_replace);
        proof {
            assert forall|a: int| 0 <= a < self.used_cards@.len() implies has_name(
                self.cards@,
                (#[trigger] self.used_cards@[a])@,
            ) by {
                let n = self.used_cards@[a]@;
                assert(has_name(self.used_cards@, n));
                if n != card_to_replace@ {
                    assert(has_name(old(self).used_cards@, n));
                    let b = choose|b: int|
                        0 <= b < old(self).used_cards@.len() && (#[trigger] old(
                            self,
                        ).used_cards@[b])@ == n;
                    assert(has_name(old(self).cards@, old(self).used_cards@[b]@));
                }
            }
            assert forall|a: int| 0 <= a < self.current_hand@.len() implies has_name(
                self.cards@,
                (#[trigger] self.current_hand@[a])@,
            ) by {
                let n = self.current_hand@[a]@;
                assert(has_name(self.current_hand@, n));
                assert(has_name(old(self).current_hand@, n));
                let b = choose|b: int|
                    0 <= b < old(self).current_hand@.len() && (#[trigger] old(
                        self,
                    ).current_hand@[b])@ == n;
                assert(has_name(old(self).cards@, old(self).current_hand@[b]@));
            }
            assert forall|n: Seq<char>| has_name(self.current_hand@, n) implies !has_name(
                self.used_cards@,
                n,
            ) by {
                assert(has_name(old(self).current_hand@, n) && n != card_to_replace@);
            }
            assert(self.wf());
        }
        let upcoming = self.upcoming_cards();
        proof {
            lemma_names_minus(self.cards@, self.used_cards@);
            lemma_names_minus(
                names_minus(self.cards@, self.used_cards@),
                self.current_hand@,
            );
        }
        if upcoming.len() == 0 {
            proof {
                assert forall|i: int| 0 <= i < old(self).cards@.len() implies {
                    ||| has_name(old(self).used_cards@, (#[trigger] old(self).cards@[i])@)
                    ||| old(self).cards@[i]@ == card_to_replace@
                    ||| has_name(old(self).current_hand@, old(self).cards@[i]@)
                } by {
                    let n = old(self).cards@[i]@;
                    assert(has_name(self.cards@, n));
                    assert(!has_name(upcoming@, n));
                }
            }
            None
        } else {
            let ghost pre_hand = self.current_hand@;
            let i = crate::rng::random_index(upcoming.len());
            let chosen = upcoming[i].clone();
            proof {
                assert(has_name(upcoming@, chosen@));
                assert(!has_name(pre_hand, chosen@));
                lemma_push_entry(pre_hand, chosen);
            }
            let result = chosen.clone();
            self.current_hand.push(chosen);
            proof {
                assert forall|a: int| 0 <= a < self.current_hand@.len() implies has_name(
                    self.cards@,
                    (#[trigger] self.current_hand@[a])@,
                ) by {
                    let n = self.current_hand@[a]@;
                    assert(has_name(self.current_hand@, n));
                    if n != result@ {
                        assert(has_name(pre_hand, n));
                        let b = choose|b: int|
                            0 <= b < pre_hand.len() && (#[trigger] pre_hand[b])@ == n;
                    }
                }
                assert forall|n: Seq<char>| has_name(self.current_hand@, n) implies !has_name(
                    self.used_cards@,
                    n,
                ) by {
                    if n != result@ {
                        assert(has_name(pre_hand, n));
                    }
                }
                assert(!has_name(old(self).used_cards@, result@));
                assert(has_name(old(self).cards@, result@));
                assert(result@ != card_to_replace@);
                if has_name(old(self).current_hand@, result@) {
                    assert(has_name(pre_hand, result@));
                }
                assert(!(old(self).no_replacement_left(card_to_replace@))) by {
                    assert(has_name(self.cards@, result@));
                    let ci = choose|ci: int|
                        0 <= ci < self.cards@.len() && (#[trigger] self.cards@[ci])@ == result@;
                }
            }
            Some(result)
        }
    }
}

/// The rotated shape a placement puts on the board; a pass has no shape.
pub open spec fn shape_of(catalog: CardSquareProviderImpl, mv: PlayerMove) -> Seq<
    Seq<CardSquareType>,
> {
    match mv {
        PlayerMove::PlaceCard { card_name, rotation, .. } => spec_rotate(
            catalog.spec_get(card_name@).squares@,
            rotation.spec_matrix_rotation(),
        ),
        PlayerMove::Pass { .. } => Seq::empty(),
    }
}

/// What a shape anchored at `(px, py)` writes at board cell `(x, y)`
/// before conflict resolution: the team's square for a non-empty shape
/// cell, nothing elsewhere.
pub open spec fn placed(
    shape: Seq<Seq<CardSquareType>>,
    px: int,
    py: int,
    team: PlayerTeam,
    x: int,
    y: int,
) -> Option<MST> {
    if px <= x < px + grid_width(shape) && py <= y < py + shape.len() && shape[y - py][x - px]
        != CardSquareType::Empty {
        Some(MapSquareType::spec_from_card_square(shape[y - py][x - px], team))
    } else {
        None
    }
}

/// What a move writes at board cell `(x, y)` before conflict resolution.
pub open spec fn move_contribution(
    catalog: CardSquareProviderImpl,
    team: PlayerTeam,
    mv: PlayerMove,
    x: int,
    y: int,
) -> Option<MST> {
    match mv {
        PlayerMove::PlaceCard { position, .. } => placed(
            shape_of(catalog, mv),
            position.x as int,
            position.y as int,
            team,
            x,
            y,
        ),
        PlayerMove::Pass { .. } => None,
    }
}

/// The cells of a shape that are not empty.
pub open spec fn nonempty_pred(g: Seq<Seq<CardSquareType>>) -> spec_fn(int, int) -> bool {
    |x: int, y: int| g[y][x] != CardSquareType::Empty
}

/// How many squares of a shape are not empty.
pub open spec fn count_nonempty(g: Seq<Seq<CardSquareType>>) -> int {
    count_pos(grid_width(g), g.len() * grid_width(g), nonempty_pred(g))
}

/// The square count of a move: the non-empty squares of its card's
/// untrimmed shape. A pass counts the card it holds back as well.
pub open spec fn move_square_count(catalog: CardSquareProviderImpl, mv: PlayerMove) -> int {
    count_nonempty(catalog.spec_get(mv.spec_card_name()).squares@)
}

/// One write to the overlay: an existing special suppresses an incoming
/// fill; with matching square counts, two squares of the same family
/// contest the cell; otherwise the newcomer lands.
pub open spec fn write_cell(e: MST, c: Option<MST>, neutralize: bool) -> MST {
    match c {
        Option::None => e,
        Option::Some(n) => {
            if e.spec_is_special() && n.spec_is_fill() {
                e
            } else if neutralize && ((e.spec_is_fill() && n.spec_is_fill()) || (
            e.spec_is_special() && n.spec_is_special())) {
                MST::Neutral
            } else {
                n
            }
        }
    }
}

/// What a board cell resolves to when both teams' contributions and square
/// counts are known. Defined without any processing order: a special beats
/// a fill whatever the counts; equal counts turn a same-family clash into
/// a contested cell; otherwise the move with more squares wins the clash.
pub open spec fn resolved(a: Option<MST>, b: Option<MST>, ca: int, cb: int) -> Option<MST> {
    match (a, b) {
        (Option::None, Option::None) => Option::None,
        (Option::Some(va), Option::None) => Option::Some(va),
        (Option::None, Option::Some(vb)) => Option::Some(vb),
        (Option::Some(va), Option::Some(vb)) => {
            if va.spec_is_special() && vb.spec_is_fill() {
                Option::Some(va)
            } else if vb.spec_is_special() && va.spec_is_fill() {
                Option::Some(vb)
            } else if ca == cb {
                Option::Some(MST::Neutral)
            } else if ca > cb {
                Option::Some(vb)
            } else {
                Option::Some(va)
            }
        }
    }
}

/// Resolution does not care which team is named first.
pub proof fn lemma_resolution_order_independent(a: Option<MST>, b: Option<MST>, ca: int, cb: int)
    ensures
        resolved(a, b, ca, cb) == resolved(b, a, cb, ca),
{
}

/// A special square always beats a fill square on the same cell,
/// whichever move had more squares.
pub proof fn lemma_special_dominates(sp: MST, fill: MST, ca: int, cb: int)
    requires
        sp.spec_is_special(),
        fill.spec_is_fill(),
    ensures
        resolved(Some(sp), Some(fill), ca, cb) == Some(sp),
        resolved(Some(fill), Some(sp), ca, cb) == Some(sp),
{
}

/// With equal square counts, two squares of the same family contest the
/// cell.
pub proof fn lemma_tie_same_family_neutral(a: MST, b: MST, c: int)
    requires
        (a.spec_is_fill() && b.spec_is_fill()) || (a.spec_is_special() && b.spec_is_special()),
    ensures
        resolved(Some(a), Some(b), c, c) == Some(MST::Neutral),
{
}

/// A cell that neither move touches keeps its board value.
pub proof fn lemma_untouched_cell_keeps(a: Option<MST>, b: Option<MST>, ca: int, cb: int)
    requires
        a is None,
        b is None,
    ensures
        resolved(a, b, ca, cb) is None,
{
}

/// A placement that covers only squares it may cover writes nothing onto a
/// disabled cell: together with `lemma_untouched_cell_keeps`, a disabled
/// cell of the map stays disabled through a turn of validated moves.
pub proof fn lemma_valid_move_spares_disabled(
    catalog: CardSquareProviderImpl,
    board: Seq<Seq<MST>>,
    team: PlayerTeam,
    mv: PlayerMove,
    x: int,
    y: int,
)
    requires
        0 <= y < board.len(),
        0 <= x < grid_width(board),
        board[y][x] == MST::Disabled,
        match mv {
            PlayerMove::PlaceCard { position, special, .. } => crate::move_validator::on_correct_squares_spec(
                position.x as int,
                position.y as int,
                special,
                board,
                shape_of(catalog, mv),
            ),
            PlayerMove::Pass { .. } => true,
        },
    ensures
        move_contribution(catalog, team, mv, x, y) is None,
{
    match mv {
        PlayerMove::PlaceCard { position, special, .. } => {
            let shape = shape_of(catalog, mv);
            if move_contribution(catalog, team, mv, x, y) is Some {
                let sy = y - position.y;
                let sx = x - position.x;
                assert(0 <= sy < shape.len() && 0 <= sx < grid_width(shape));
                assert(shape[sy][sx] != CardSquareType::Empty);
                assert(crate::move_validator::may_cover(
                    board[position.y + sy][position.x + sx],
                    special,
                ));
                assert(position.y + sy == y && position.x + sx == x);
            }
        }
        PlayerMove::Pass { .. } => {}
    }
}

/// Every cell within the clamped 8-neighbourhood of `(x, y)` holds
/// something: the cell is walled in.
pub open spec fn spec_surrounded(board: Seq<Seq<MST>>, x: int, y: int) -> bool {
    forall|ny: int, nx: int|
        {
            (#[trigger] trigger_pair(ny, nx)) && (if y == 0 {
                0int
            } else {
                y - 1
            }) <= ny <= (if y + 1 < board.len() {
                y + 1
            } else {
                y
            }) && (if x == 0 {
                0int
            } else {
                x - 1
            }) <= nx <= (if x + 1 < grid_width(board) {
                x + 1
            } else {
                x
            }) ==> board[ny][nx] != MST::Empty
        }
}

/// A marker that names a pair of quantified cells, used as a quantifier
/// trigger.
pub open spec fn trigger_pair(a: int, b: int) -> bool {
    true
}

/// The cells holding a walled-in special square of the team.
pub open spec fn earned_pred(board: Seq<Seq<MST>>, team: PlayerTeam) -> spec_fn(
    int,
    int,
) -> bool {
    |x: int, y: int| board[y][x] == MapSquareType::special_of(team) && spec_surrounded(
        board,
        x,
        y,
    )
}

/// How many special squares of the team are walled in: each earns a
/// special point.
pub open spec fn spec_earned(board: Seq<Seq<MST>>, team: PlayerTeam) -> int {
    count_pos(grid_width(board), board.len() * grid_width(board), earned_pred(board, team))
}

/// The cells the team owns.
pub open spec fn owned_pred(board: Seq<Seq<MST>>, team: PlayerTeam) -> spec_fn(
    int,
    int,
) -> bool {
    |x: int, y: int| board[y][x] == MapSquareType::special_of(team) || board[y][x]
        == MapSquareType::fill_of(team)
}

/// How many cells of the board the team owns.
pub open spec fn spec_score(board: Seq<Seq<MST>>, team: PlayerTeam) -> int {
    count_pos(grid_width(board), board.len() * grid_width(board), owned_pred(board, team))
}

/// Owned, contested, empty and disabled cells partition the board: the two
/// scores, the contested cells, the empty cells and the disabled cells sum
/// to the cell count.
pub proof fn lemma_score_partition(board: Seq<Seq<MST>>)
    ensures
        spec_score(board, PlayerTeam::Alpha) + spec_score(board, PlayerTeam::Bravo) + count_value(
            board,
            MST::Neutral,
        ) + count_value(board, MST::Empty) + count_value(board, MST::Disabled) == board.len()
            * grid_width(board),
{
    let w = grid_width(board);
    let h = board.len() as int;
    if w <= 0 {
        assert(h * 0 == 0) by (nonlinear_arith);
        assert(h * w == 0);
    } else {
        assert(h * w >= 0) by (nonlinear_arith)
            requires
                h >= 0,
                w > 0,
        ;
        lemma_partition_step(board, h * w);
    }
}

/// The cells holding the given square.
pub open spec fn value_pred(board: Seq<Seq<MST>>, v: MST) -> spec_fn(int, int) -> bool {
    |x: int, y: int| board[y][x] == v
}

/// How many cells hold the given square.
pub open spec fn count_value(board: Seq<Seq<MST>>, v: MST) -> int {
    count_pos(grid_width(board), board.len() * grid_width(board), value_pred(board, v))
}

proof fn lemma_partition_step(board: Seq<Seq<MST>>, k: int)
    requires
        k >= 0,
        grid_width(board) > 0,
    ensures
        count_pos(grid_width(board), k, owned_pred(board, PlayerTeam::Alpha)) + count_pos(
            grid_width(board),
            k,
            owned_pred(board, PlayerTeam::Bravo),
        ) + count_pos(grid_width(board), k, value_pred(board, MST::Neutral)) + count_pos(
            grid_width(board),
            k,
            value_pred(board, MST::Empty),
        ) + count_pos(grid_width(board), k, value_pred(board, MST::Disabled)) == k,
    decreases k,
{
    if k > 0 {
        lemma_partition_step(board, k - 1);
    }
}

/// The turn's scratch overlay after one move is stamped on it.
fn write_move_to_overlay(
    overlay: &mut Matrix<MapSquareType>,
    squares: &Matrix<CardSquareType>,
    px: usize,
    py: usize,
    team: &PlayerTeam,
    neutralize: bool,
)
    requires
        old(overlay).wf(),
        squares.wf(),
        px + grid_width(squares@) <= old(overlay).spec_width(),
        py + squares@.len() <= old(overlay)@.len(),
    ensures
        final(overlay).wf(),
        final(overlay)@.len() == old(overlay)@.len(),
        final(overlay).spec_width() == old(overlay).spec_width(),
        forall|y: int, x: int|
            0 <= y < old(overlay)@.len() && 0 <= x < old(overlay).spec_width()
                ==> #[trigger] final(overlay)@[y][x] == write_cell(
                old(overlay)@[y][x],
                placed(squares@, px as int, py as int, *team, x, y),
                neutralize,
            ),
{
    let shape_size = squares.size();
    let own_size = overlay.size();
    let mut sy: usize = 0;
    while sy < shape_size.h
        invariant
            overlay.wf(),
            squares.wf(),
            shape_size.h == squares@.len(),
            shape_size.w == grid_width(squares@),
            own_size.h == overlay@.len(),
            own_size.w == overlay.spec_width(),
            overlay@.len() == old(overlay)@.len(),
            overlay.spec_width() == old(overlay).spec_width(),
            px + shape_size.w <= own_size.w,
            py + shape_size.h <= own_size.h,
            sy <= shape_size.h,
            forall|y: int, x: int|
                0 <= y < overlay@.len() && 0 <= x < overlay.spec_width()
                    ==> #[trigger] overlay@[y][x] == if py <= y < py + sy && px <= x < px
                    + shape_size.w {
                    write_cell(
                        old(overlay)@[y][x],
                        placed(squares@, px as int, py as int, *team, x, y),
                        neutralize,
                    )
                } else {
                    old(overlay)@[y][x]
                },
        decreases shape_size.h - sy,
    {
        let mut sx: usize = 0;
        while sx < shape_size.w
            invariant
                overlay.wf(),
                squares.wf(),
                shape_size.h == squares@.len(),
                shape_size.w == grid_width(squares@),
                own_size.h == overlay@.len(),
                own_size.w == overlay.spec_width(),
                overlay@.len() == old(overlay)@.len(),
                overlay.spec_width() == old(overlay).spec_width(),
                px + shape_size.w <= own_size.w,
                py + shape_size.h <= own_size.h,
                sy < shape_size.h,
                sx <= shape_size.w,
                forall|y: int, x: int|
                    0 <= y < overlay@.len() && 0 <= x < overlay.spec_width()
                        ==> #[trigger] overlay@[y][x] == if (py <= y < py + sy && px <= x < px
                        + shape_size.w) || (y == py + sy && px <= x < px + sx) {
                        write_cell(
                            old(overlay)@[y][x],
                            placed(squares@, px as int, py as int, *team, x, y),
                            neutralize,
                        )
                    } else {
                        old(overlay)@[y][x]
                    },
            decreases shape_size.w - sx,
        {
            let item = squares.get(sx, sy);
            let bx = px + sx;
            let by = py + sy;
            if !matches!(item, CardSquareType::Empty) {
                let existing_square = overlay.get(bx, by);
                let new_square = MapSquareType::from_card_square(item, team);
                if existing_square.is_special() && new_square.is_fill() {
                    proof {
                        assert(overlay@[by as int][bx as int] == write_cell(
                            old(overlay)@[by as int][bx as int],
                            placed(squares@, px as int, py as int, *team, bx as int, by as int),
                            neutralize,
                        ));
                    }
                } else if neutralize && ((existing_square.is_fill() && new_square.is_fill()) || (
                existing_square.is_special() && new_square.is_special())) {
                    overlay.set(bx, by, MST::Neutral);
                } else {
                    overlay.set(bx, by, new_square);
                }
            }
            sx = sx + 1;
        }
        sy = sy + 1;
    }
}

/// Copies every non-empty overlay cell over the board cell beneath it.
fn compose_updates(board: &mut Matrix<MapSquareType>, updates: &Matrix<MapSquareType>)
    requires
        old(board).wf(),
        updates.wf(),
        updates@.len() == old(board)@.len(),
        updates.spec_width() == old(board).spec_width(),
    ensures
        final(board).wf(),
        final(board)@.len() == old(board)@.len(),
        final(board).spec_width() == old(board).spec_width(),
        forall|y: int, x: int|
            0 <= y < old(board)@.len() && 0 <= x < old(board).spec_width()
                ==> #[trigger] final(board)@[y][x] == if updates@[y][x] != MST::Empty {
                updates@[y][x]
            } else {
                old(board)@[y][x]
            },
{
    let own_size = board.size();
    let mut y: usize = 0;
    while y < own_size.h
        invariant
            board.wf(),
            updates.wf(),
            own_size.h == board@.len(),
            own_size.w == board.spec_width(),
            board@.len() == old(board)@.len(),
            board.spec_width() == old(board).spec_width(),
            updates@.len() == board@.len(),
            updates.spec_width() == board.spec_width(),
            y <= own_size.h,
            forall|yy: int, xx: int|
                0 <= yy < board@.len() && 0 <= xx < board.spec_width()
                    ==> #[trigger] board@[yy][xx] == if yy < y && updates@[yy][xx] != MST::Empty {
                    updates@[yy][xx]
                } else {
                    old(board)@[yy][xx]
                },
        decreases own_size.h - y,
    {
        let mut x: usize = 0;
        while x < own_size.w
            invariant
                board.wf(),
                updates.wf(),
                own_size.h == board@.len(),
                own_size.w == board.spec_width(),
                board@.len() == old(board)@.len(),
                board.spec_width() == old(board).spec_width(),
                updates@.len() == board@.len(),
                updates.spec_width() == board.spec_width(),
                y < own_size.h,
                x <= own_size.w,
                forall|yy: int, xx: int|
                    0 <= yy < board@.len() && 0 <= xx < board.spec_width()
                        ==> #[trigger] board@[yy][xx] == if (yy < y || (yy == y && xx < x))
                        && updates@[yy][xx] != MST::Empty {
                        updates@[yy][xx]
                    } else {
                        old(board)@[yy][xx]
                    },
            decreases own_size.w - x,
        {
            let u = updates.get(x, y);
            if !matches!(u, MST::Empty) {
                board.set(x, y, u);
            }
            x = x + 1;
        }
        y = y + 1;
    }
}

/// Whether the clamped 8-neighbourhood of `(bx, by)` holds no empty cell.
fn surrounded_cell(board: &Matrix<MapSquareType>, bx: usize, by: usize) -> (r: bool)
    requires
        board.wf(),
        by < board@.len(),
        bx < grid_width(board@),
    ensures
        r == spec_surrounded(board@, bx as int, by as int),
{
    let board_size = board.size();
    let y0 = if by == 0 {
        0
    } else {
        by - 1
    };
    let y1 = if by + 1 < board_size.h {
        by + 1
    } else {
        by
    };
    let x0 = if bx == 0 {
        0
    } else {
        bx - 1
    };
    let x1 = if bx + 1 < board_size.w {
        bx + 1
    } else {
        bx
    };
    let mut ny: usize = y0;
    while ny <= y1
        invariant
            board.wf(),
            by < board@.len(),
            bx < grid_width(board@),
            board_size.h == board@.len(),
            board_size.w == grid_width(board@),
            y1 < board_size.h,
            x1 < board_size.w,
            y0 <= ny,
            y0 == if by == 0 {
                0int
            } else {
                by - 1
            },
            y1 == if by + 1 < board@.len() {
                by + 1
            } else {
                by as int
            },
            x0 == if bx == 0 {
                0int
            } else {
                bx - 1
            },
            x1 == if bx + 1 < grid_width(board@) {
                bx + 1
            } else {
                bx as int
            },
            forall|yy: int, xx: int|
                trigger_pair(yy, xx) && y0 <= yy < ny && x0 <= xx <= x1 ==> board@[yy][xx]
                    != MST::Empty,
        decreases y1 + 1 - ny,
    {
        let mut nx: usize = x0;
        while nx <= x1
            invariant
                board.wf(),
                by < board@.len(),
                bx < grid_width(board@),
                board_size.h == board@.len(),
                board_size.w == grid_width(board@),
                y1 < board_size.h,
                x1 < board_size.w,
                y0 <= ny <= y1,
                x0 <= nx,
                y0 == if by == 0 {
                    0int
                } else {
                    by - 1
                },
                y1 == if by + 1 < board@.len() {
                    by + 1
                } else {
                    by as int
                },
                x0 == if bx == 0 {
                    0int
                } else {
                    bx - 1
                },
                x1 == if bx + 1 < grid_width(board@) {
                    bx + 1
                } else {
                    bx as int
                },
                forall|yy: int, xx: int|
                    trigger_pair(yy, xx) && y0 <= yy < ny && x0 <= xx <= x1 ==> board@[yy][xx]
                        != MST::Empty,
                forall|xx: int|
                    trigger_pair(ny as int, xx) && x0 <= xx < nx ==> board@[ny as int][xx]
                        != MST::Empty,
            decreases x1 + 1 - nx,
        {
            let sq = board.get(nx, ny);
            if matches!(sq, MST::Empty) {
                proof {
                    assert(trigger_pair(ny as int, nx as int));
                }
                return false;
            }
            proof {
                assert(trigger_pair(ny as int, nx as int));
            }
            nx = nx + 1;
        }
        ny = ny + 1;
    }
    proof {
        assert forall|ny: int, nx: int|
            trigger_pair(ny, nx) && y0 <= ny <= y1 && x0 <= nx <= x1 implies board@[ny][nx]
            != MST::Empty by {}
    }
    true
}

/// Counts the non-empty squares of a card shape.
fn count_nonempty_squares(m: &Matrix<CardSquareType>) -> (r: usize)
    requires
        m.wf(),
        m@.len() * grid_width(m@) <= usize::MAX,
    ensures
        r == count_nonempty(m@),
{
    let size = m.size();
    let ghost p = nonempty_pred(m@);
    let mut count: usize = 0;
    let mut y: usize = 0;
    while y < size.h
        invariant
            m.wf(),
            size.h == m@.len(),
            size.w == grid_width(m@),
            m@.len() * grid_width(m@) <= usize::MAX,
            y <= size.h,
            count == count_pos(size.w as int, y * size.w, p),
            p == nonempty_pred(m@),
        decreases size.h - y,
    {
        let mut x: usize = 0;
        proof {
            assert((y + 1) * size.w <= size.h * size.w) by (nonlinear_arith)
                requires
                    y < size.h,
                    size.w >= 0,
            ;
            assert(y * size.w + size.w == (y + 1) * size.w) by (nonlinear_arith);
            lemma_count_pos_bounds(size.w as int, y * size.w, p);
        }
        while x < size.w
            invariant
                m.wf(),
                size.h == m@.len(),
                size.w == grid_width(m@),
                m@.len() * grid_width(m@) <= usize::MAX,
                y < size.h,
                x <= size.w,
                y * size.w + x <= size.h * size.w,
                count == count_pos(size.w as int, y * size.w + x, p),
                p == nonempty_pred(m@),
            decreases size.w - x,
        {
            proof {
                lemma_rowmajor(x as int, y as int, size.w as int);
                lemma_count_pos_bounds(size.w as int, y * size.w + x, p);
                assert((y + 1) * size.w <= size.h * size.w) by (nonlinear_arith)
                    requires
                        y < size.h,
                        size.w >= 0,
                ;
            }
            if !matches!(m.get(x, y), CardSquareType::Empty) {
                count = count + 1;
            }
            x = x + 1;
        }
        y = y + 1;
    }
    proof {
        assert(y * size.w == size.h * size.w);
    }
    count
}

/// Counts the cells the team owns.
fn count_owned(board: &Matrix<MapSquareType>, team: &PlayerTeam) -> (r: usize)
    requires
        board.wf(),
        board@.len() * grid_width(board@) <= usize::MAX,
    ensures
        r == spec_score(board@, *team),
{
    let size = board.size();
    let ghost p = owned_pred(board@, *team);
    let mut count: usize = 0;
    let mut y: usize = 0;
    while y < size.h
        invariant
            board.wf(),
            size.h == board@.len(),
            size.w == grid_width(board@),
            board@.len() * grid_width(board@) <= usize::MAX,
            y <= size.h,
            count == count_pos(size.w as int, y * size.w, p),
            p == owned_pred(board@, *team),
        decreases size.h - y,
    {
        let mut x: usize = 0;
        proof {
            assert((y + 1) * size.w <= size.h * size.w) by (nonlinear_arith)
                requires
                    y < size.h,
                    size.w >= 0,
            ;
            assert(y * size.w + size.w == (y + 1) * size.w) by (nonlinear_arith);
            lemma_count_pos_bounds(size.w as int, y * size.w, p);
        }
        while x < size.w
            invariant
                board.wf(),
                size.h == board@.len(),
                size.w == grid_width(board@),
                board@.len() * grid_width(board@) <= usize::MAX,
                y < size.h,
                x <= size.w,
                y * size.w + x <= size.h * size.w,
                count == count_pos(size.w as int, y * size.w + x, p),
                p == owned_pred(board@, *team),
            decreases size.w - x,
        {
            proof {
                lemma_rowmajor(x as int, y as int, size.w as int);
                lemma_count_pos_bounds(size.w as int, y * size.w + x, p);
                assert((y + 1) * size.w <= size.h * size.w) by (nonlinear_arith)
                    requires
                        y < size.h,
                        size.w >= 0,
                ;
            }
            let sq = board.get(x, y);
            let owned = match team {
                PlayerTeam::Alpha => matches!(sq, MST::SpecialAlpha) || matches!(
                    sq,
                    MST::FillAlpha,
                ),
                PlayerTeam::Bravo => matches!(sq, MST::SpecialBravo) || matches!(
                    sq,
                    MST::FillBravo,
                ),
            };
            if owned {
                count = count + 1;
            }
            x = x + 1;
        }
        y = y + 1;
    }
    proof {
        assert(y * size.w == size.h * size.w);
    }
    count
}

/// Counts the walled-in special squares of the team.
fn count_earned(board: &Matrix<MapSquareType>, team: &PlayerTeam) -> (r: usize)
    requires
        board.wf(),
        board@.len() * grid_width(board@) <= usize::MAX,
    ensures
        r == spec_earned(board@, *team),
{
    let size = board.size();
    let ghost p = earned_pred(board@, *team);
    let mut count: usize = 0;
    let mut y: usize = 0;
    while y < size.h
        invariant
            board.wf(),
            size.h == board@.len(),
            size.w == grid_width(board@),
            board@.len() * grid_width(board@) <= usize::MAX,
            y <= size.h,
            count == count_pos(size.w as int, y * size.w, p),
            p == earned_pred(board@, *team),
        decreases size.h - y,
    {
        let mut x: usize = 0;
        proof {
            assert((y + 1) * size.w <= size.h * size.w) by (nonlinear_arith)
                requires
                    y < size.h,
                    size.w >= 0,
            ;
            assert(y * size.w + size.w == (y + 1) * size.w) by (nonlinear_arith);
            lemma_count_pos_bounds(size.w as int, y * size.w, p);
        }
        while x < size.w
            invariant
                board.wf(),
                size.h == board@.len(),
                size.w == grid_width(board@),
                board@.len() * grid_width(board@) <= usize::MAX,
                y < size.h,
                x <= size.w,
                y * size.w + x <= size.h * size.w,
                count == count_pos(size.w as int, y * size.w + x, p),
                p == earned_pred(board@, *team),
            decreases size.w - x,
        {
            proof {
                lemma_rowmajor(x as int, y as int, size.w as int);
                lemma_count_pos_bounds(size.w as int, y * size.w + x, p);
                assert((y + 1) * size.w <= size.h * size.w) by (nonlinear_arith)
                    requires
                        y < size.h,
                        size.w >= 0,
                ;
            }
            let sq = board.get(x, y);
            let is_own_special = match team {
                PlayerTeam::Alpha => matches!(sq, MST::SpecialAlpha),
                PlayerTeam::Bravo => matches!(sq, MST::SpecialBravo),
            };
            if is_own_special {
                if surrounded_cell(board, x, y) {
                    count = count + 1;
                }
            }
            x = x + 1;
        }
        y = y + 1;
    }
    proof {
        assert(y * size.w == size.h * size.w);
    }
    count
}

/// What one turn's application hands back: the two applied moves and, per
/// team, the replacement card drawn, if the deck still had one.
#[derive(Debug, PartialEq, Eq)]
pub struct ApplyMovesResult {
    pub applied_moves: PerTeam<PlayerMove>,
    pub next_cards: PerTeam<Option<String>>,
}

/// A pending move the state can apply without failing: its card is known
/// to the catalog, belongs to the deck, and a placement fits the board.
pub open spec fn move_applyable(
    catalog: CardSquareProviderImpl,
    board: Seq<Seq<MST>>,
    deck: PlayerDeck,
    mv: PlayerMove,
) -> bool {
    &&& catalog.spec_exists(mv.spec_card_name())
    &&& has_name(deck.cards@, mv.spec_card_name())
    &&& has_name(deck.current_hand@, mv.spec_card_name())
    &&& match mv {
        PlayerMove::PlaceCard { position, .. } => within_bounds_spec(
            position,
            board,
            shape_of(catalog, mv),
        ),
        PlayerMove::Pass { .. } => true,
    }
}

/// A move the validator accepts can be applied against the state's own
/// catalog, which holds the same cards as the validator's.
pub proof fn lemma_validate_ok_applyable(
    vcat: CardSquareProviderImpl,
    scat: CardSquareProviderImpl,
    board: Seq<Seq<MST>>,
    available: int,
    team: PlayerTeam,
    mv: PlayerMove,
    deck: PlayerDeck,
)
    requires
        deck.wf(),
        catalogs_like(vcat, scat),
        validate_spec(vcat, board, available, team, mv, deck) is Ok,
    ensures
        move_applyable(scat, board, deck, mv),
{
    assert(has_name(deck.current_hand@, mv.spec_card_name()));
    let i = choose|i: int|
        0 <= i < deck.current_hand@.len() && (#[trigger] deck.current_hand@[i])@
            == mv.spec_card_name();
    assert(has_name(deck.cards@, deck.current_hand@[i]@));
    lemma_catalogs_like_index(vcat.spec_cards(), scat.spec_cards(), mv.spec_card_name());
    crate::card::lemma_card_index(vcat.spec_cards(), mv.spec_card_name());
    match mv {
        PlayerMove::PlaceCard { card_name, rotation, .. } => {
            assert(crate::card::card_like(vcat.spec_get(card_name@), scat.spec_get(card_name@)));
            assert(shape_of(vcat, mv) == shape_of(scat, mv));
        }
        PlayerMove::Pass { .. } => {}
    }
}

/// The state of one match: the board, both decks, the pending moves, the
/// special-point ledger and the turn counter, beside the catalog and the
/// validator it checks moves with.
#[derive(Debug)]
pub struct GameState {
    pub board: Matrix<MapSquareType>,
    pub next_moves: PerTeam<Option<PlayerMove>>,
    pub special_points: PerTeam<usize>,
    pub used_special_points: PerTeam<usize>,
    pub decks: PerTeam<PlayerDeck>,
    pub remaining_turns: usize,
    pub square_provider: CardSquareProviderImpl,
    pub move_validator: MoveValidatorImpl,
}

impl GameState {
    /// A stored pending move of the team, if any, can be applied.
    pub open spec fn pending_ok(&self, team: PlayerTeam) -> bool {
        match self.next_moves.spec_get(team) {
            Option::Some(m) => move_applyable(
                self.square_provider,
                self.board@,
                self.decks.spec_get(team),
                m,
            ),
            Option::None => true,
        }
    }

    /// The state invariant: the board is rectangular and countable, both
    /// decks are well formed, the catalog is usable and the validator
    /// checks against the same catalog, and any pending move can be
    /// applied.
    pub open spec fn wf(&self) -> bool {
        &&& self.board.wf()
        &&& self.board@.len() * grid_width(self.board@) <= usize::MAX
        &&& self.decks.alpha.wf()
        &&& self.decks.bravo.wf()
        &&& self.remaining_turns <= TURN_COUNT
        &&& catalog_wf(self.square_provider)
        &&& catalog_wf(self.move_validator.card_provider)
        &&& catalogs_like(self.move_validator.card_provider, self.square_provider)
        &&& self.pending_ok(PlayerTeam::Alpha)
        &&& self.pending_ok(PlayerTeam::Bravo)
    }

    /// Builds the state for a fresh match: the given board, empty pending
    /// moves, zeroed ledgers, the full decks, and TURN_COUNT turns to play.
    pub fn new(
        board: Matrix<MapSquareType>,
        square_provider: CardSquareProviderImpl,
        move_validator: MoveValidatorImpl,
        decks: PerTeam<Vec<String>>,
    ) -> (r: Self)
        requires
            board.wf(),
            board@.len() * grid_width(board@) <= usize::MAX,
            catalog_wf(square_provider),
            catalog_wf(move_validator.card_provider),
            catalogs_like(move_validator.card_provider, square_provider),
            distinct_names(decks.alpha@),
            distinct_names(decks.bravo@),
        ensures
            r.wf(),
            r.board@ == board@,
            r.next_moves.alpha is None,
            r.next_moves.bravo is None,
            r.special_points.alpha == 0 && r.special_points.bravo == 0,
            r.used_special_points.alpha == 0 && r.used_special_points.bravo == 0,
            r.decks.alpha.cards@ == decks.alpha@,
            r.decks.bravo.cards@ == decks.bravo@,
            r.decks.alpha.used_cards@.len() == 0 && r.decks.alpha.current_hand@.len() == 0,
            r.decks.bravo.used_cards@.len() == 0 && r.decks.bravo.current_hand@.len() == 0,
            r.remaining_turns == TURN_COUNT,
            r.square_provider == square_provider,
            r.move_validator == move_validator,
    {
        let PerTeam { alpha, bravo } = decks;
        GameState {
            board,
            next_moves: PerTeam::new(None, None),
            special_points: PerTeam::new(0, 0),
            used_special_points: PerTeam::new(0, 0),
            decks: PerTeam::new(PlayerDeck::new(alpha), PlayerDeck::new(bravo)),
            remaining_turns: TURN_COUNT,
            square_provider,
            move_validator,
        }
    }

    /// Whether the match is over: no turns remain.
    pub fn completed(&self) -> (r: bool)
        ensures
            r == (self.remaining_turns == 0),
    {
        self.remaining_turns == 0
    }

    /// How many cells each team owns.
    pub fn score(&self) -> (r: PerTeam<usize>)
        requires
            self.wf(),
        ensures
            r.alpha == spec_score(self.board@, PlayerTeam::Alpha),
            r.bravo == spec_score(self.board@, PlayerTeam::Bravo),
    {
        PerTeam::new(
            count_owned(&self.board, &PlayerTeam::Alpha),
            count_owned(&self.board, &PlayerTeam::Bravo),
        )
    }

    /// Deals both teams their opening hands and returns them.
    pub fn assign_initial_hands(&mut self) -> (r: PerTeam<Vec<String>>)
        requires
            old(self).wf(),
            old(self).next_moves.alpha is None,
            old(self).next_moves.bravo is None,
        ensures
            final(self).wf(),
            final(self).board@ == old(self).board@,
            final(self).next_moves == old(self).next_moves,
            final(self).special_points == old(self).special_points,
            final(self).used_special_points == old(self).used_special_points,
            final(self).remaining_turns == old(self).remaining_turns,
            final(self).square_provider == old(self).square_provider,
            final(self).move_validator == old(self).move_validator,
            r.alpha@ == final(self).decks.alpha.current_hand@,
            r.bravo@ == final(self).decks.bravo.current_hand@,
            final(self).decks.alpha.cards@ == old(self).decks.alpha.cards@,
            final(self).decks.bravo.cards@ == old(self).decks.bravo.cards@,
            final(self).decks.alpha.used_cards@ == old(self).decks.alpha.used_cards@,
            final(self).decks.bravo.used_cards@ == old(self).decks.bravo.used_cards@,
            distinct_names(final(self).decks.alpha.current_hand@),
            distinct_names(final(self).decks.bravo.current_hand@),
            subset_names(
                final(self).decks.alpha.current_hand@,
                old(self).decks.alpha.spec_available(),
            ),
            subset_names(
                final(self).decks.bravo.current_hand@,
                old(self).decks.bravo.spec_available(),
            ),
            final(self).decks.alpha.current_hand@.len() == if old(
                self,
            ).decks.alpha.spec_available().len() <= HAND_SIZE {
                old(self).decks.alpha.spec_available().len() as int
            } else {
                HAND_SIZE as int
            },
            final(self).decks.bravo.current_hand@.len() == if old(
                self,
            ).decks.bravo.spec_available().len() <= HAND_SIZE {
                old(self).decks.bravo.spec_available().len() as int
            } else {
                HAND_SIZE as int
            },
    {
        let alpha_deck = self.decks.get_mut(&PlayerTeam::Alpha);
        let alpha_hand = alpha_deck.assign_cards().clone();
        let bravo_deck = self.decks.get_mut(&PlayerTeam::Bravo);
        let bravo_hand = bravo_deck.assign_cards().clone();
        PerTeam::new(alpha_hand, bravo_hand)
    }

    /// The special points the team can still spend: earned less spent,
    /// never below zero.
    pub open spec fn spec_available_points(&self, team: PlayerTeam) -> int {
        if self.special_points.spec_get(team) >= self.used_special_points.spec_get(team) {
            self.special_points.spec_get(team) - self.used_special_points.spec_get(team)
        } else {
            0
        }
    }

    fn available_special_points(&self, team: &PlayerTeam) -> (r: usize)
        ensures
            r == self.spec_available_points(*team),
    {
        let earned = *self.special_points.get(team);
        let spent = *self.used_special_points.get(team);
        if earned >= spent {
            earned - spent
        } else {
            0
        }
    }

    /// Stores the team's move for this turn after validating it. With no
    /// turns left the match has ended and nothing is accepted; a rejected
    /// move changes nothing; an accepted move replaces any move the team
    /// had pending.
    pub fn propose_move(&mut self, team: PlayerTeam, player_move: PlayerMove) -> (r: Result<
        (),
        GameError,
    >)
        requires
            old(self).wf(),
        ensures
            final(self).wf(),
            old(self).remaining_turns == 0 ==> r == Err::<(), GameError>(GameError::GameEnded)
                && *final(self) == *old(self),
            old(self).remaining_turns > 0 ==> {
                let v = validate_spec(
                    old(self).move_validator.card_provider,
                    old(self).board@,
                    old(self).spec_available_points(team),
                    team,
                    player_move,
                    old(self).decks.spec_get(team),
                );
                match v {
                    Result::Ok(()) => {
                        &&& r is Ok
                        &&& final(self).next_moves.spec_get(team) == Some(player_move)
                        &&& final(self).next_moves.spec_get(team.other_spec()) == old(
                            self,
                        ).next_moves.spec_get(team.other_spec())
                        &&& final(self).board@ == old(self).board@
                        &&& final(self).special_points == old(self).special_points
                        &&& final(self).used_special_points == old(self).used_special_points
                        &&& final(self).decks == old(self).decks
                        &&& final(self).remaining_turns == old(self).remaining_turns
                        &&& final(self).square_provider == old(self).square_provider
                        &&& final(self).move_validator == old(self).move_validator
                    }
                    Result::Err(e) => {
                        &&& r == Err::<(), GameError>(GameError::InvalidMove(e))
                        &&& *final(self) == *old(self)
                    }
                }
            },
    {
        if self.remaining_turns == 0 {
            return Err(GameError::GameEnded);
        }

        let available = self.available_special_points(&team);
        let validation = self.move_validator.validate(
            &self.board,
            available,
            &team,
            &player_move,
            self.decks.get(&team),
        );
        match validation {
            Ok(()) => {
                proof {
                    lemma_validate_ok_applyable(
                        self.move_validator.card_provider,
                        self.square_provider,
                        self.board@,
                        self.spec_available_points(team),
                        team,
                        player_move,
                        self.decks.spec_get(team),
                    );
                }
                self.next_moves.set(&team, Some(player_move));
                Ok(())
            }
            Err(err) => Err(GameError::InvalidMove(err)),
        }
    }

    /// Whether both teams have a move pending.
    pub fn all_players_have_moved(&self) -> (r: bool)
        ensures
            r == (self.next_moves.alpha is Some && self.next_moves.bravo is Some),
    {
        self.next_moves.get(&PlayerTeam::Alpha).is_some() && self.next_moves.get(
            &PlayerTeam::Bravo,
        ).is_some()
    }

    /// Installs the given board and recomputes each team's earned special
    /// points from scratch: one per walled-in special square.
    pub fn update_board(&mut self, board: Matrix<MapSquareType>)
        requires
            old(self).wf(),
            old(self).next_moves.alpha is None,
            old(self).next_moves.bravo is None,
            board.wf(),
            board@.len() * grid_width(board@) <= usize::MAX,
        ensures
            final(self).wf(),
            final(self).board@ == board@,
            final(self).special_points.alpha == spec_earned(board@, PlayerTeam::Alpha),
            final(self).special_points.bravo == spec_earned(board@, PlayerTeam::Bravo),
            final(self).next_moves == old(self).next_moves,
            final(self).used_special_points == old(self).used_special_points,
            final(self).decks == old(self).decks,
            final(self).remaining_turns == old(self).remaining_turns,
            final(self).square_provider == old(self).square_provider,
            final(self).move_validator == old(self).move_validator,
    {
        let alpha_earned = count_earned(&board, &PlayerTeam::Alpha);
        let bravo_earned = count_earned(&board, &PlayerTeam::Bravo);
        self.special_points = PerTeam::new(alpha_earned, bravo_earned);
        self.board = board;
    }
}

/// Whether a move is a placement with its special flag set.
pub open spec fn is_special_place(mv: PlayerMove) -> bool {
    match mv {
        PlayerMove::PlaceCard { special, .. } => special,
        PlayerMove::Pass { .. } => false,
    }
}

/// The special cost of the card a move names.
pub open spec fn spec_move_cost(catalog: CardSquareProviderImpl, mv: PlayerMove) -> int {
    catalog.spec_get(mv.spec_card_name()).special_cost as int
}

/// Addition that stops at the top of the machine range, as the ledger
/// books it.
pub open spec fn sat_add(a: int, b: int) -> int {
    if a + b <= usize::MAX {
        a + b
    } else {
        usize::MAX as int
    }
}

/// What one turn does to one deck: the played card joins the used pile and
/// leaves the hand, and the drawn card, when there is one, was neither
/// used nor in hand and joins the hand.
pub open spec fn deck_drawn_ok(
    pre: PlayerDeck,
    post: PlayerDeck,
    played: Seq<char>,
    drawn: Option<String>,
) -> bool {
    &&& post.wf()
    &&& post.cards@ == pre.cards@
    &&& forall|n: Seq<char>|
        has_name(post.used_cards@, n) <==> (has_name(pre.used_cards@, n) || n == played)
    &&& (drawn is None <==> pre.no_replacement_left(played))
    &&& (drawn is None ==> forall|n: Seq<char>|
        has_name(post.current_hand@, n) <==> (has_name(pre.current_hand@, n) && n != played))
    &&& (drawn is Some ==> {
        &&& has_name(pre.cards@, drawn->0@)
        &&& !has_name(pre.used_cards@, drawn->0@)
        &&& !has_name(pre.current_hand@, drawn->0@)
        &&& drawn->0@ != played
        &&& forall|n: Seq<char>|
            has_name(post.current_hand@, n) <==> ((has_name(pre.current_hand@, n) && n != played)
                || n == drawn->0@)
    })
}

/// A contribution is always a fill or special square of the moving team.
proof fn lemma_contribution_kind(
    catalog: CardSquareProviderImpl,
    team: PlayerTeam,
    mv: PlayerMove,
    x: int,
    y: int,
)
    ensures
        move_contribution(catalog, team, mv, x, y) is Some ==> {
            let v = move_contribution(catalog, team, mv, x, y)->0;
            v.spec_is_fill() || v.spec_is_special()
        },
{
}

/// Writing the larger move first and the smaller second turns an empty
/// overlay cell into exactly what resolution says, and resolution never
/// leaves an empty square behind a touched cell.
proof fn lemma_two_writes_resolved(a: Option<MST>, b: Option<MST>, ca: int, cb: int)
    requires
        a is Some ==> a->0.spec_is_fill() || a->0.spec_is_special(),
        b is Some ==> b->0.spec_is_fill() || b->0.spec_is_special(),
    ensures
        ca >= cb ==> write_cell(write_cell(MST::Empty, a, ca == cb), b, ca == cb) == match resolved(
            a,
            b,
            ca,
            cb,
        ) {
            Option::Some(v) => v,
            Option::None => MST::Empty,
        },
        cb > ca ==> write_cell(write_cell(MST::Empty, b, false), a, false) == match resolved(
            a,
            b,
            ca,
            cb,
        ) {
            Option::Some(v) => v,
            Option::None => MST::Empty,
        },
        resolved(a, b, ca, cb) is Some ==> resolved(a, b, ca, cb)->0 != MST::Empty,
        resolved(a, b, ca, cb) is None <==> (a is None && b is None),
{
}

impl GameState {
        /// Applies both pending moves at once: marks their cards used and draws
    /// replacements, books the spent special points, resolves the two
    /// placements onto the board with the larger card first, recomputes
    /// each team's earned special points, and spends one turn.
    ///
    /// Every board cell ends as `resolved` says of the two contributions
    /// and square counts; a cell neither move touches keeps its value.
    pub fn apply_moves(&mut self) -> (r: ApplyMovesResult)
        requires
            old(self).wf(),
            old(self).next_moves.alpha is Some,
            old(self).next_moves.bravo is Some,
            old(self).remaining_turns >= 1,
        ensures
            final(self).wf(),
            r.applied_moves.alpha == old(self).next_moves.alpha->0,
            r.applied_moves.bravo == old(self).next_moves.bravo->0,
            final(self).next_moves.alpha is None,
            final(self).next_moves.bravo is None,
            final(self).remaining_turns == old(self).remaining_turns - 1,
            final(self).square_provider == old(self).square_provider,
            final(self).move_validator == old(self).move_validator,
            final(self).used_special_points.alpha == sat_add(
                old(self).used_special_points.alpha as int,
                if is_special_place(old(self).next_moves.alpha->0) {
                    spec_move_cost(old(self).square_provider, old(self).next_moves.alpha->0)
                } else {
                    0
                },
            ),
            final(self).used_special_points.bravo == sat_add(
                old(self).used_special_points.bravo as int,
                if is_special_place(old(self).next_moves.bravo->0) {
                    spec_move_cost(old(self).square_provider, old(self).next_moves.bravo->0)
                } else {
                    0
                },
            ),
            final(self).board@.len() == old(self).board@.len(),
            grid_width(final(self).board@) == grid_width(old(self).board@),
            forall|y: int, x: int|
                0 <= y < old(self).board@.len() && 0 <= x < grid_width(old(self).board@)
                    ==> #[trigger] final(self).board@[y][x] == match resolved(
                    move_contribution(
                        old(self).square_provider,
                        PlayerTeam::Alpha,
                        old(self).next_moves.alpha->0,
                        x,
                        y,
                    ),
                    move_contribution(
                        old(self).square_provider,
                        PlayerTeam::Bravo,
                        old(self).next_moves.bravo->0,
                        x,
                        y,
                    ),
                    move_square_count(old(self).square_provider, old(self).next_moves.alpha->0),
                    move_square_count(old(self).square_provider, old(self).next_moves.bravo->0),
                ) {
                    Option::Some(v) => v,
                    Option::None => old(self).board@[y][x],
                },
            final(self).special_points.alpha == spec_earned(final(self).board@, PlayerTeam::Alpha),
            final(self).special_points.bravo == spec_earned(final(self).board@, PlayerTeam::Bravo),
            deck_drawn_ok(
                old(self).decks.alpha,
                final(self).decks.alpha,
                old(self).next_moves.alpha->0.spec_card_name(),
                r.next_cards.alpha,
            ),
            deck_drawn_ok(
                old(self).decks.bravo,
                final(self).decks.bravo,
                old(self).next_moves.bravo->0.spec_card_name(),
                r.next_cards.bravo,
            ),
    {
        let ghost cat = self.square_provider;
        let alpha_move = match self.next_moves.get(&PlayerTeam::Alpha) {
            Some(m) => m.duplicate(),
            None => vstd::pervasive::unreached(),
        };
        let bravo_move = match self.next_moves.get(&PlayerTeam::Bravo) {
            Some(m) => m.duplicate(),
            None => vstd::pervasive::unreached(),
        };
        self.next_moves = PerTeam::new(None, None);

        proof {
            crate::card::lemma_card_index(cat.spec_cards(), alpha_move.spec_card_name());
            crate::card::lemma_card_index(cat.spec_cards(), bravo_move.spec_card_name());
        }
        let alpha_card = match self.square_provider.get(alpha_move.card_name().as_str()) {
            Some(c) => c,
            None => vstd::pervasive::unreached(),
        };
        let bravo_card = match self.square_provider.get(bravo_move.card_name().as_str()) {
            Some(c) => c,
            None => vstd::pervasive::unreached(),
        };
        let ca = count_nonempty_squares(&alpha_card.squares);
        let cb = count_nonempty_squares(&bravo_card.squares);
        proof {
            assert(ca == move_square_count(cat, alpha_move));
            assert(cb == move_square_count(cat, bravo_move));
        }
        let neutralize = ca == cb;

        let alpha_next = self.decks.alpha.draw_new_card(alpha_move.card_name().as_str());
        let bravo_next = self.decks.bravo.draw_new_card(bravo_move.card_name().as_str());

        if matches!(&alpha_move, PlayerMove::PlaceCard { special: true, .. }) {
            let spent = self.used_special_points.alpha;
            self.used_special_points.alpha = if spent <= usize::MAX - alpha_card.special_cost {
                spent + alpha_card.special_cost
            } else {
                usize::MAX
            };
        }
        if matches!(&bravo_move, PlayerMove::PlaceCard { special: true, .. }) {
            let spent = self.used_special_points.bravo;
            self.used_special_points.bravo = if spent <= usize::MAX - bravo_card.special_cost {
                spent + bravo_card.special_cost
            } else {
                usize::MAX
            };
        }

        let board_size = self.board.size();
        let mut board_updates = Matrix::filled_with(board_size, MST::Empty);
        let ghost amv = old(self).next_moves.alpha->0;
        let ghost bmv = old(self).next_moves.bravo->0;
        proof {
            assert(board_updates@.len() == self.board@.len());
            if self.board@.len() > 0 {
                assert(grid_width(board_updates@) == grid_width(self.board@));
            }
        }

        if ca >= cb {
            Self::stamp_move(&mut board_updates, &alpha_move, alpha_card, &PlayerTeam::Alpha, neutralize, Ghost(cat));
            proof {
                assert forall|y: int, x: int|
                    0 <= y < board_updates@.len() && 0 <= x < grid_width(board_updates@) implies
                    #[trigger] board_updates@[y][x] == write_cell(
                        MST::Empty,
                        move_contribution(cat, PlayerTeam::Alpha, amv, x, y),
                        neutralize,
                    ) by {}
            }
            Self::stamp_move(&mut board_updates, &bravo_move, bravo_card, &PlayerTeam::Bravo, neutralize, Ghost(cat));
            proof {
                assert forall|y: int, x: int|
                    0 <= y < board_updates@.len() && 0 <= x < grid_width(board_updates@) implies
                    #[trigger] board_updates@[y][x] == write_cell(
                        write_cell(
                            MST::Empty,
                            move_contribution(cat, PlayerTeam::Alpha, amv, x, y),
                            neutralize,
                        ),
                        move_contribution(cat, PlayerTeam::Bravo, bmv, x, y),
                        neutralize,
                    ) by {}
            }
        } else {
            Self::stamp_move(&mut board_updates, &bravo_move, bravo_card, &PlayerTeam::Bravo, false, Ghost(cat));
            Self::stamp_move(&mut board_updates, &alpha_move, alpha_card, &PlayerTeam::Alpha, false, Ghost(cat));
            proof {
                assert forall|y: int, x: int|
                    0 <= y < board_updates@.len() && 0 <= x < grid_width(board_updates@) implies
                    #[trigger] board_updates@[y][x] == write_cell(
                        write_cell(
                            MST::Empty,
                            move_contribution(cat, PlayerTeam::Bravo, bmv, x, y),
                            false,
                        ),
                        move_contribution(cat, PlayerTeam::Alpha, amv, x, y),
                        false,
                    ) by {}
            }
        }

        let mut new_board = self.board.duplicate();
        compose_updates(&mut new_board, &board_updates);
        proof {
            assert forall|y: int, x: int|
                0 <= y < old(self).board@.len() && 0 <= x < grid_width(old(self).board@) implies
                #[trigger] new_board@[y][x] == match resolved(
                    move_contribution(cat, PlayerTeam::Alpha, amv, x, y),
                    move_contribution(cat, PlayerTeam::Bravo, bmv, x, y),
                    ca as int,
                    cb as int,
                ) {
                    Option::Some(v) => v,
                    Option::None => old(self).board@[y][x],
                } by {
                lemma_contribution_kind(cat, PlayerTeam::Alpha, amv, x, y);
                lemma_contribution_kind(cat, PlayerTeam::Bravo, bmv, x, y);
                lemma_two_writes_resolved(
                    move_contribution(cat, PlayerTeam::Alpha, amv, x, y),
                    move_contribution(cat, PlayerTeam::Bravo, bmv, x, y),
                    ca as int,
                    cb as int,
                );
            }
        }
        self.update_board(new_board);

        self.remaining_turns = self.remaining_turns - 1;

        ApplyMovesResult {
            applied_moves: PerTeam::new(alpha_move, bravo_move),
            next_cards: PerTeam::new(alpha_next, bravo_next),
        }
    }

    /// Stamps one move onto the turn overlay; a pass stamps nothing.
    fn stamp_move(
        overlay: &mut Matrix<MapSquareType>,
        mv: &PlayerMove,
        card: crate::card::Card,
        team: &PlayerTeam,
        neutralize: bool,
        Ghost(cat): Ghost<CardSquareProviderImpl>,
    )
        requires
            old(overlay).wf(),
            crate::matrix::grid_wf(card.squares@),
            card.squares@ == cat.spec_get(mv.spec_card_name()).squares@,
            mv matches PlayerMove::PlaceCard { .. } ==> {
                let shape = shape_of(cat, *mv);
                match *mv {
                    PlayerMove::PlaceCard { position, .. } => {
                        &&& position.x >= 0
                        &&& position.y >= 0
                        &&& position.x + grid_width(shape) <= old(overlay).spec_width()
                        &&& position.y + shape.len() <= old(overlay)@.len()
                    }
                    PlayerMove::Pass { .. } => true,
                }
            },
        ensures
            final(overlay).wf(),
            final(overlay)@.len() == old(overlay)@.len(),
            final(overlay).spec_width() == old(overlay).spec_width(),
            forall|y: int, x: int|
                0 <= y < old(overlay)@.len() && 0 <= x < old(overlay).spec_width()
                    ==> #[trigger] final(overlay)@[y][x] == write_cell(
                    old(overlay)@[y][x],
                    move_contribution(cat, *team, *mv, x, y),
                    neutralize,
                ),
    {
        match mv {
            PlayerMove::PlaceCard { position, rotation, .. } => {
                let squares = card.squares.rotate_clockwise(rotation.matrix_rotation());
                let px = position.x as usize;
                let py = position.y as usize;
                proof {
                    assert(squares@ == shape_of(cat, *mv));
                }
                write_move_to_overlay(overlay, &squares, px, py, team, neutralize);
            }
            PlayerMove::Pass { .. } => {
            }
        }
    }
}

} // verus!
