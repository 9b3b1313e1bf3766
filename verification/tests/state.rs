use tableturfer::card::{Card, CardRarity, CardSquareProviderImpl, CST};
use tableturfer::matrix::{Matrix, MatrixSize};
use tableturfer::move_validator::MoveValidatorImpl;
use tableturfer::position::INamedPosition;
use tableturfer::squares::MST;
use tableturfer::state::{CardRotation, GameState, PlayerDeck, PlayerMove};
use tableturfer::team::{PerTeam, PlayerTeam};

fn test_card(name: &str, number: usize, rarity: CardRarity, special_cost: usize, rows: Vec<Vec<CST>>) -> Card {
    Card {
        category: "test_cards".to_string(),
        name: name.to_string(),
        number,
        rarity,
        season: 1,
        special_cost,
        squares: Matrix::new(rows),
    }
}

fn test_provider() -> CardSquareProviderImpl {
    CardSquareProviderImpl::new(vec![
        test_card(
            "card_1",
            1,
            CardRarity::Common,
            2,
            vec![
                vec![CST::Empty, CST::Fill],
                vec![CST::Empty, CST::Special],
                vec![CST::Fill, CST::Fill],
            ],
        ),
        test_card(
            "card_2",
            2,
            CardRarity::Rare,
            1,
            vec![vec![CST::Fill, CST::Fill], vec![CST::Fill, CST::Special]],
        ),
        test_card("card_3", 3, CardRarity::Common, 1, vec![vec![CST::Fill]]),
        test_card(
            "card_4",
            4,
            CardRarity::Fresh,
            3,
            vec![vec![CST::Fill, CST::Fill], vec![CST::Special, CST::Empty]],
        ),
    ])
}

fn create() -> GameState {
    GameState::new(
        Matrix::filled_with(MatrixSize::new(6, 6), MST::Empty),
        test_provider(),
        MoveValidatorImpl::new(test_provider()),
        PerTeam::new(
            vec!["card_1".to_string(), "card_2".to_string()],
            vec!["card_3".to_string(), "card_4".to_string()],
        ),
    )
}

fn place(card_name: &str, x: isize, y: isize, rotation: CardRotation, special: bool) -> PlayerMove {
    PlayerMove::PlaceCard {
        card_name: card_name.to_string(),
        position: INamedPosition::new(x, y),
        rotation,
        special,
    }
}

#[test]
fn apply_moves() {
    let mut state = create();
    state.next_moves.alpha = Some(place("card_1", 1, 1, CardRotation::Deg0, false));
    state.next_moves.bravo = Some(place("card_2", 0, 1, CardRotation::Deg90, false));
    let moves = PerTeam::new(
        place("card_1", 1, 1, CardRotation::Deg0, false),
        place("card_2", 0, 1, CardRotation::Deg90, false),
    );

    let result = state.apply_moves();

    assert_eq!(state.next_moves, PerTeam::new(None, None));
    assert_eq!(result.applied_moves, moves);
    assert_eq!(
        state.board,
        Matrix::new(vec![
            vec![MST::Empty, MST::Empty, MST::Empty, MST::Empty, MST::Empty, MST::Empty],
            vec![MST::FillBravo, MST::FillBravo, MST::FillAlpha, MST::Empty, MST::Empty, MST::Empty],
            vec![MST::SpecialBravo, MST::FillBravo, MST::SpecialAlpha, MST::Empty, MST::Empty, MST::Empty],
            vec![MST::Empty, MST::FillAlpha, MST::FillAlpha, MST::Empty, MST::Empty, MST::Empty],
            vec![MST::Empty, MST::Empty, MST::Empty, MST::Empty, MST::Empty, MST::Empty],
            vec![MST::Empty, MST::Empty, MST::Empty, MST::Empty, MST::Empty, MST::Empty],
        ])
    );
}

#[test]
fn apply_overlapping_moves_same_card_cost() {
    let mut state = create();
    state.next_moves.alpha = Some(place("card_1", 1, 1, CardRotation::Deg0, false));
    state.next_moves.bravo = Some(place("card_2", 1, 1, CardRotation::Deg90, false));

    state.apply_moves();

    assert_eq!(
        state.board,
        Matrix::new(vec![
            vec![MST::Empty, MST::Empty, MST::Empty, MST::Empty, MST::Empty, MST::Empty],
            vec![MST::Empty, MST::FillBravo, MST::Neutral, MST::Empty, MST::Empty, MST::Empty],
            vec![MST::Empty, MST::SpecialBravo, MST::SpecialAlpha, MST::Empty, MST::Empty, MST::Empty],
            vec![MST::Empty, MST::FillAlpha, MST::FillAlpha, MST::Empty, MST::Empty, MST::Empty],
            vec![MST::Empty, MST::Empty, MST::Empty, MST::Empty, MST::Empty, MST::Empty],
            vec![MST::Empty, MST::Empty, MST::Empty, MST::Empty, MST::Empty, MST::Empty],
        ])
    );
}

#[test]
fn apply_identical_moves() {
    let mut state = create();
    state.next_moves.alpha = Some(place("card_1", 1, 1, CardRotation::Deg180, false));
    state.next_moves.bravo = Some(place("card_1", 1, 1, CardRotation::Deg180, false));

    state.apply_moves();

    assert_eq!(
        state.board,
        Matrix::new(vec![
            vec![MST::Empty, MST::Empty, MST::Empty, MST::Empty, MST::Empty, MST::Empty],
            vec![MST::Empty, MST::Neutral, MST::Neutral, MST::Empty, MST::Empty, MST::Empty],
            vec![MST::Empty, MST::Neutral, MST::Empty, MST::Empty, MST::Empty, MST::Empty],
            vec![MST::Empty, MST::Neutral, MST::Empty, MST::Empty, MST::Empty, MST::Empty],
            vec![MST::Empty, MST::Empty, MST::Empty, MST::Empty, MST::Empty, MST::Empty],
            vec![MST::Empty, MST::Empty, MST::Empty, MST::Empty, MST::Empty, MST::Empty],
        ])
    );
}

#[test]
fn apply_overlapping_moves_over_existing_squares() {
    let mut state = create();
    state.board.set(0, 0, MST::FillBravo);
    state.board.set(2, 1, MST::FillAlpha);
    state.next_moves.alpha = Some(place("card_1", 1, 1, CardRotation::Deg0, false));
    state.next_moves.bravo = Some(place("card_2", 1, 1, CardRotation::Deg90, false));

    state.apply_moves();

    assert_eq!(
        state.board,
        Matrix::new(vec![
            vec![MST::FillBravo, MST::Empty, MST::Empty, MST::Empty, MST::Empty, MST::Empty],
            vec![MST::Empty, MST::FillBravo, MST::Neutral, MST::Empty, MST::Empty, MST::Empty],
            vec![MST::Empty, MST::SpecialBravo, MST::SpecialAlpha, MST::Empty, MST::Empty, MST::Empty],
            vec![MST::Empty, MST::FillAlpha, MST::FillAlpha, MST::Empty, MST::Empty, MST::Empty],
            vec![MST::Empty, MST::Empty, MST::Empty, MST::Empty, MST::Empty, MST::Empty],
            vec![MST::Empty, MST::Empty, MST::Empty, MST::Empty, MST::Empty, MST::Empty],
        ])
    );
}

#[test]
fn apply_overlapping_moves() {
    let mut state = create();
    state.next_moves.alpha = Some(place("card_1", 1, 1, CardRotation::Deg0, false));
    state.next_moves.bravo = Some(place("card_4", 1, 2, CardRotation::Deg0, false));

    state.apply_moves();

    assert_eq!(
        state.board,
        Matrix::new(vec![
            vec![MST::Empty, MST::Empty, MST::Empty, MST::Empty, MST::Empty, MST::Empty],
            vec![MST::Empty, MST::Empty, MST::FillAlpha, MST::Empty, MST::Empty, MST::Empty],
            vec![MST::Empty, MST::FillBravo, MST::SpecialAlpha, MST::Empty, MST::Empty, MST::Empty],
            vec![MST::Empty, MST::SpecialBravo, MST::FillAlpha, MST::Empty, MST::Empty, MST::Empty],
            vec![MST::Empty, MST::Empty, MST::Empty, MST::Empty, MST::Empty, MST::Empty],
            vec![MST::Empty, MST::Empty, MST::Empty, MST::Empty, MST::Empty, MST::Empty],
        ])
    );
}

#[test]
fn apply_overlapping_moves_ignores_insertion_order() {
    let mut state = create();
    state.next_moves.bravo = Some(place("card_4", 1, 2, CardRotation::Deg0, false));
    state.next_moves.alpha = Some(place("card_1", 1, 1, CardRotation::Deg0, false));

    state.apply_moves();

    assert_eq!(
        state.board,
        Matrix::new(vec![
            vec![MST::Empty, MST::Empty, MST::Empty, MST::Empty, MST::Empty, MST::Empty],
            vec![MST::Empty, MST::Empty, MST::FillAlpha, MST::Empty, MST::Empty, MST::Empty],
            vec![MST::Empty, MST::FillBravo, MST::SpecialAlpha, MST::Empty, MST::Empty, MST::Empty],
            vec![MST::Empty, MST::SpecialBravo, MST::FillAlpha, MST::Empty, MST::Empty, MST::Empty],
            vec![MST::Empty, MST::Empty, MST::Empty, MST::Empty, MST::Empty, MST::Empty],
            vec![MST::Empty, MST::Empty, MST::Empty, MST::Empty, MST::Empty, MST::Empty],
        ])
    );
}

#[test]
fn apply_overlapping_moves_and_special_squares() {
    let mut state = create();
    state.next_moves.alpha = Some(place("card_1", 1, 1, CardRotation::Deg0, false));
    state.next_moves.bravo = Some(place("card_4", 1, 2, CardRotation::Deg180, false));

    state.apply_moves();

    assert_eq!(
        state.board,
        Matrix::new(vec![
            vec![MST::Empty, MST::Empty, MST::Empty, MST::Empty, MST::Empty, MST::Empty],
            vec![MST::Empty, MST::Empty, MST::FillAlpha, MST::Empty, MST::Empty, MST::Empty],
            vec![MST::Empty, MST::Empty, MST::SpecialBravo, MST::Empty, MST::Empty, MST::Empty],
            vec![MST::Empty, MST::FillBravo, MST::FillBravo, MST::Empty, MST::Empty, MST::Empty],
            vec![MST::Empty, MST::Empty, MST::Empty, MST::Empty, MST::Empty, MST::Empty],
            vec![MST::Empty, MST::Empty, MST::Empty, MST::Empty, MST::Empty, MST::Empty],
        ])
    );
}

#[test]
fn apply_overlapping_moves_and_special_squares_ignores_insertion_order() {
    let mut state = create();
    state.next_moves.bravo = Some(place("card_4", 1, 2, CardRotation::Deg180, false));
    state.next_moves.alpha = Some(place("card_1", 1, 1, CardRotation::Deg0, false));

    state.apply_moves();

    assert_eq!(
        state.board,
        Matrix::new(vec![
            vec![MST::Empty, MST::Empty, MST::Empty, MST::Empty, MST::Empty, MST::Empty],
            vec![MST::Empty, MST::Empty, MST::FillAlpha, MST::Empty, MST::Empty, MST::Empty],
            vec![MST::Empty, MST::Empty, MST::SpecialBravo, MST::Empty, MST::Empty, MST::Empty],
            vec![MST::Empty, MST::FillBravo, MST::FillBravo, MST::Empty, MST::Empty, MST::Empty],
            vec![MST::Empty, MST::Empty, MST::Empty, MST::Empty, MST::Empty, MST::Empty],
            vec![MST::Empty, MST::Empty, MST::Empty, MST::Empty, MST::Empty, MST::Empty],
        ])
    );
}

#[test]
fn apply_special_moves() {
    let mut state = create();
    state.used_special_points = PerTeam::new(1, 2);
    state.next_moves.bravo = Some(place("card_4", 1, 2, CardRotation::Deg180, true));
    state.next_moves.alpha = Some(place("card_1", 1, 1, CardRotation::Deg0, true));

    state.apply_moves();

    assert_eq!(state.used_special_points, PerTeam::new(3, 5));
}

#[test]
fn updates_special_counts() {
    let mut state = create();
    let mut new_board = Matrix::filled_with(MatrixSize::new(6, 6), MST::Empty);
    new_board.set(0, 0, MST::FillAlpha);
    new_board.set(0, 1, MST::Disabled);
    new_board.set(0, 2, MST::Neutral);
    new_board.set(1, 0, MST::FillBravo);
    new_board.set(1, 1, MST::SpecialAlpha);
    new_board.set(1, 2, MST::SpecialBravo);
    new_board.set(2, 0, MST::FillAlpha);
    new_board.set(2, 1, MST::FillAlpha);
    new_board.set(2, 2, MST::FillAlpha);

    state.update_board(new_board.clone());

    assert_eq!(state.board, new_board);
    assert_eq!(state.special_points, PerTeam::new(1, 0));
}

#[test]
fn handles_special_squares_on_any_position() {
    let mut state = create();
    let mut new_board = Matrix::filled_with(MatrixSize::new(4, 4), MST::SpecialAlpha);
    new_board.set(1, 2, MST::SpecialBravo);

    state.update_board(new_board.clone());

    assert_eq!(state.board, new_board);
    assert_eq!(state.special_points, PerTeam::new(15, 1));
}

fn set(items: Vec<&str>) -> Vec<String> {
    items.into_iter().map(|s| s.to_string()).collect()
}

#[test]
fn available_cards() {
    let mut deck = PlayerDeck::new(set(vec!["card_1", "card_2", "card_3", "card_4"]));

    assert_eq!(deck.available_cards(), set(vec!["card_1", "card_2", "card_3", "card_4"]));

    deck.used_cards = set(vec!["card_2", "card_4"]);

    assert_eq!(deck.available_cards(), set(vec!["card_1", "card_3"]));
}

#[test]
fn upcoming_cards() {
    let mut deck = PlayerDeck::new(set(vec!["card_1", "card_2", "card_3", "card_4", "card_5"]));
    deck.current_hand = set(vec!["card_1", "card_2"]);
    deck.used_cards = set(vec!["card_2", "card_3"]);

    assert_eq!(deck.upcoming_cards(), set(vec!["card_4", "card_5"]));
}

// Equal square counts: the cell both cards fill is contested, and every
// other cell takes its own team's colour, however the moves were stored.
#[test]
fn equal_counts_overlap_turns_neutral() {
    let provider = CardSquareProviderImpl::new(vec![test_card(
        "bar_3",
        7,
        CardRarity::Common,
        1,
        vec![vec![CST::Fill], vec![CST::Fill], vec![CST::Fill]],
    )]);
    let mut state = GameState::new(
        Matrix::filled_with(MatrixSize::new(6, 6), MST::Empty),
        provider,
        MoveValidatorImpl::new(CardSquareProviderImpl::new(vec![test_card(
            "bar_3",
            7,
            CardRarity::Common,
            1,
            vec![vec![CST::Fill], vec![CST::Fill], vec![CST::Fill]],
        )])),
        PerTeam::new(vec!["bar_3".to_string()], vec!["bar_3".to_string()]),
    );
    state.next_moves.alpha = Some(place("bar_3", 1, 1, CardRotation::Deg0, false));
    state.next_moves.bravo = Some(place("bar_3", 1, 1, CardRotation::Deg90, false));

    state.apply_moves();

    assert_eq!(state.board.get(1, 1), MST::Neutral);
    assert_eq!(state.board.get(1, 2), MST::FillAlpha);
    assert_eq!(state.board.get(1, 3), MST::FillAlpha);
    assert_eq!(state.board.get(2, 1), MST::FillBravo);
    assert_eq!(state.board.get(3, 1), MST::FillBravo);
}

// Unequal square counts: the larger card's special square wins the cell
// the smaller card would merely fill.
#[test]
fn larger_card_special_beats_smaller_card_fill() {
    let cards = vec![
        test_card(
            "wide_5",
            11,
            CardRarity::Common,
            1,
            vec![vec![CST::Special, CST::Fill, CST::Fill, CST::Fill, CST::Fill]],
        ),
        test_card(
            "bar_h3",
            12,
            CardRarity::Common,
            1,
            vec![vec![CST::Fill, CST::Fill, CST::Fill]],
        ),
    ];
    let copies = vec![
        test_card(
            "wide_5",
            11,
            CardRarity::Common,
            1,
            vec![vec![CST::Special, CST::Fill, CST::Fill, CST::Fill, CST::Fill]],
        ),
        test_card(
            "bar_h3",
            12,
            CardRarity::Common,
            1,
            vec![vec![CST::Fill, CST::Fill, CST::Fill]],
        ),
    ];
    let mut state = GameState::new(
        Matrix::filled_with(MatrixSize::new(7, 7), MST::Empty),
        CardSquareProviderImpl::new(cards),
        MoveValidatorImpl::new(CardSquareProviderImpl::new(copies)),
        PerTeam::new(vec!["wide_5".to_string()], vec!["bar_h3".to_string()]),
    );
    state.next_moves.alpha = Some(place("wide_5", 1, 1, CardRotation::Deg0, false));
    state.next_moves.bravo = Some(place("bar_h3", 1, 1, CardRotation::Deg0, false));

    state.apply_moves();

    assert_eq!(state.board.get(1, 1), MST::SpecialAlpha);
    assert_eq!(state.board.get(2, 1), MST::FillBravo);
    assert_eq!(state.board.get(3, 1), MST::FillBravo);
    assert_eq!(state.board.get(4, 1), MST::FillAlpha);
    assert_eq!(state.board.get(5, 1), MST::FillAlpha);
}

// The two scores, the contested cells, the empty cells and the disabled
// cells always partition the board.
#[test]
fn scores_partition_the_board() {
    let mut state = create();
    state.next_moves.alpha = Some(place("card_1", 1, 1, CardRotation::Deg0, false));
    state.next_moves.bravo = Some(place("card_2", 1, 1, CardRotation::Deg90, false));
    state.apply_moves();

    let score = state.score();
    let mut neutrals = 0usize;
    let mut empties = 0usize;
    let mut disabled = 0usize;
    for y in 0..6usize {
        for x in 0..6usize {
            match state.board.get(x, y) {
                MST::Neutral => neutrals += 1,
                MST::Empty => empties += 1,
                MST::Disabled => disabled += 1,
                _ => {}
            }
        }
    }
    assert_eq!(score.alpha + score.bravo + neutrals + empties + disabled, 36);
}

#[test]
fn dealt_hands_come_from_the_deck() {
    let names: Vec<String> = (0..15).map(|i| format!("card_{i}")).collect();
    let mut deck = PlayerDeck::new(names.clone());
    let hand = deck.assign_cards().clone();

    assert_eq!(hand.len(), 4);
    for card in &hand {
        assert!(names.contains(card));
    }
    for i in 0..hand.len() {
        for j in 0..hand.len() {
            if i != j {
                assert_ne!(hand[i], hand[j]);
            }
        }
    }
}

#[test]
fn drawing_replaces_the_played_card() {
    let names: Vec<String> = (0..15).map(|i| format!("card_{i}")).collect();
    let mut deck = PlayerDeck::new(names.clone());
    let hand = deck.assign_cards().clone();
    let played = hand[0].clone();

    let drawn = deck.draw_new_card(played.as_str()).expect("a card is left to draw");

    assert!(deck.used_cards.contains(&played));
    assert!(!deck.current_hand.contains(&played));
    assert!(deck.current_hand.contains(&drawn));
    assert_ne!(drawn, played);
    assert!(!hand.contains(&drawn));
}

#[test]
fn game_ends_when_turns_run_out() {
    let mut state = create();
    state.remaining_turns = 0;
    let result = state.propose_move(
        PlayerTeam::Alpha,
        PlayerMove::Pass { card_name: "card_1".to_string() },
    );
    assert_eq!(result, Err(tableturfer::state::GameError::GameEnded));
}
