use tableturfer::card::{Card, CardRarity, CardSquareProviderImpl, CST};
use tableturfer::matrix::Matrix;
use tableturfer::move_validator::{InvalidMoveError, MoveValidatorImpl};
use tableturfer::position::INamedPosition;
use tableturfer::squares::{MapSquareType, MST};
use tableturfer::state::{CardRotation, PlayerDeck, PlayerMove};
use tableturfer::team::PlayerTeam;

fn test_card(name: &str, number: usize, rarity: CardRarity, special_cost: usize, rows: Vec<Vec<CST>>) -> Card {
    Card {
        category: "test_cards".to_string(),
        name: name.to_string(),
        number,
        rarity,
        season: 1,
        special_cost,
        squares: Matrix::new(rows),
    }
}

fn test_provider() -> CardSquareProviderImpl {
    CardSquareProviderImpl::new(vec![
        test_card(
            "card_1",
            1,
            CardRarity::Common,
            2,
            vec![
                vec![CST::Empty, CST::Fill],
                vec![CST::Empty, CST::Special],
                vec![CST::Fill, CST::Fill],
            ],
        ),
        test_card(
            "card_2",
            2,
            CardRarity::Rare,
            1,
            vec![vec![CST::Fill, CST::Fill], vec![CST::Fill, CST::Special]],
        ),
        test_card("card_3", 3, CardRarity::Common, 1, vec![vec![CST::Fill]]),
        test_card(
            "card_4",
            4,
            CardRarity::Fresh,
            3,
            vec![vec![CST::Fill, CST::Fill], vec![CST::Special, CST::Empty]],
        ),
    ])
}

fn player_move(card_name: &str, position: INamedPosition, rotation: CardRotation, special: bool) -> PlayerMove {
    PlayerMove::PlaceCard {
        card_name: card_name.to_owned(),
        position,
        rotation,
        special,
    }
}

fn player_deck(card_name: &str) -> PlayerDeck {
    let mut result = PlayerDeck::new(vec![card_name.to_owned()]);
    result.current_hand = vec![card_name.to_owned()];
    result
}

fn board() -> Matrix<MapSquareType> {
    Matrix::new(vec![
        vec![MST::Disabled, MST::Disabled, MST::Disabled, MST::Disabled, MST::Disabled, MST::Disabled, MST::Disabled],
        vec![MST::Disabled, MST::SpecialAlpha, MST::Empty, MST::Empty, MST::Empty, MST::FillAlpha, MST::Disabled],
        vec![MST::Disabled, MST::Empty, MST::Empty, MST::Empty, MST::Empty, MST::Empty, MST::Disabled],
        vec![MST::Disabled, MST::Empty, MST::Empty, MST::Empty, MST::Empty, MST::Empty, MST::Disabled],
        vec![MST::Disabled, MST::Empty, MST::Empty, MST::Empty, MST::Empty, MST::Empty, MST::Disabled],
        vec![MST::Disabled, MST::SpecialBravo, MST::Empty, MST::Empty, MST::Empty, MST::FillBravo, MST::Disabled],
        vec![MST::Disabled, MST::Disabled, MST::Disabled, MST::Disabled, MST::Disabled, MST::Disabled, MST::Disabled],
    ])
}

#[test]
fn validate_card_not_in_hand() {
    let result = MoveValidatorImpl::new(test_provider()).validate(
        &board(),
        0,
        &PlayerTeam::Alpha,
        &player_move("card_999", INamedPosition::new(0, 0), CardRotation::Deg0, false),
        &player_deck("card_000"),
    );

    assert_eq!(result, Err(InvalidMoveError::CardNotInHand));
}

#[test]
fn validate_card_not_found() {
    let result = MoveValidatorImpl::new(test_provider()).validate(
        &board(),
        0,
        &PlayerTeam::Alpha,
        &player_move("card_999", INamedPosition::new(0, 0), CardRotation::Deg0, false),
        &player_deck("card_999"),
    );

    assert_eq!(result, Err(InvalidMoveError::CardNotFound));
}

#[test]
fn validate_can_afford_special() {
    let mv = player_move("card_1", INamedPosition::new(1, 1), CardRotation::Deg0, true);
    let mut board = board();
    board.set(2, 1, MapSquareType::FillAlpha);
    board.set(2, 2, MapSquareType::FillBravo);

    assert_eq!(
        MoveValidatorImpl::new(test_provider()).validate(
            &board,
            2,
            &PlayerTeam::Alpha,
            &mv,
            &player_deck("card_1"),
        ),
        Ok(())
    );
}

#[test]
fn move_validator_validate_can_afford_special() {
    let mv = player_move("card_1", INamedPosition::new(2, 3), CardRotation::Deg0, true);
    let mut board = board();
    board.set(3, 3, MapSquareType::FillAlpha);
    board.set(3, 4, MapSquareType::FillBravo);

    assert_eq!(
        MoveValidatorImpl::new(test_provider()).validate(
            &board,
            2,
            &PlayerTeam::Bravo,
            &mv,
            &player_deck("card_1"),
        ),
        Ok(())
    );
}

#[test]
fn validate_special_too_expensive() {
    let mv = player_move("card_2", INamedPosition::new(0, 0), CardRotation::Deg0, true);

    assert_eq!(
        MoveValidatorImpl::new(test_provider()).validate(
            &board(),
            0,
            &PlayerTeam::Alpha,
            &mv,
            &player_deck("card_2"),
        ),
        Err(InvalidMoveError::CannotAffordSpecial)
    );
}

#[test]
fn validate_out_of_bounds() {
    for (x, y) in [(2isize, -3isize), (2, 15), (-2, 2), (12, 2)] {
        assert_eq!(
            MoveValidatorImpl::new(test_provider()).validate(
                &board(),
                0,
                &PlayerTeam::Alpha,
                &player_move("card_1", INamedPosition::new(x, y), CardRotation::Deg0, false),
                &player_deck("card_1"),
            ),
            Err(InvalidMoveError::CardOutOfBounds)
        );
    }
}

#[test]
fn validate_card_on_disabled_tiles() {
    for (x, y) in [(1isize, 0isize), (0, 2), (5, 2), (2, 4)] {
        assert_eq!(
            MoveValidatorImpl::new(test_provider()).validate(
                &board(),
                0,
                &PlayerTeam::Alpha,
                &player_move("card_1", INamedPosition::new(x, y), CardRotation::Deg0, false),
                &player_deck("card_1"),
            ),
            Err(InvalidMoveError::CardOnDisallowedSquares)
        );
    }
}

#[test]
fn validate_no_adjacent_tiles() {
    for (x, y) in [(1isize, 3isize), (5, 3), (3, 1), (3, 5), (3, 3)] {
        assert_eq!(
            MoveValidatorImpl::new(test_provider()).validate(
                &board(),
                0,
                &PlayerTeam::Alpha,
                &player_move("card_3", INamedPosition::new(x, y), CardRotation::Deg0, false),
                &player_deck("card_3"),
            ),
            Err(InvalidMoveError::NoExpectedSquaresNearCard)
        );
    }
}

#[test]
fn validate_covers_existing_tiles() {
    for (x, y) in [(1isize, 1isize), (4, 1), (1, 4), (4, 4)] {
        assert_eq!(
            MoveValidatorImpl::new(test_provider()).validate(
                &board(),
                0,
                &PlayerTeam::Alpha,
                &player_move("card_2", INamedPosition::new(x, y), CardRotation::Deg0, false),
                &player_deck("card_2"),
            ),
            Err(InvalidMoveError::CardOnDisallowedSquares)
        );
    }
}

#[test]
fn validate_next_to_own_team_squares() {
    for (x, y) in [(1isize, 1isize), (3, 1)] {
        assert_eq!(
            MoveValidatorImpl::new(test_provider()).validate(
                &board(),
                0,
                &PlayerTeam::Alpha,
                &player_move("card_1", INamedPosition::new(x, y), CardRotation::Deg0, false),
                &player_deck("card_1"),
            ),
            Ok(())
        );
    }
}

#[test]
fn validate_next_to_opposing_team_squares() {
    for (x, y) in [(2isize, 3isize), (3, 3)] {
        assert_eq!(
            MoveValidatorImpl::new(test_provider()).validate(
                &board(),
                0,
                &PlayerTeam::Alpha,
                &player_move("card_1", INamedPosition::new(x, y), CardRotation::Deg0, false),
                &player_deck("card_1"),
            ),
            Err(InvalidMoveError::NoExpectedSquaresNearCard)
        );
    }
}

#[test]
fn validate_pass_needs_known_card_only() {
    let result = MoveValidatorImpl::new(test_provider()).validate(
        &board(),
        0,
        &PlayerTeam::Alpha,
        &PlayerMove::Pass { card_name: "card_1".to_owned() },
        &player_deck("card_1"),
    );

    assert_eq!(result, Ok(()));
}

// Board 7 by 7 with its interior empty; a 3-by-2 all-fill card placed at
// (5, 5) runs off the lower edge.
#[test]
fn validator_rejects_placement_past_the_edge() {
    let provider = CardSquareProviderImpl::new(vec![test_card(
        "tall_card",
        9,
        CardRarity::Common,
        1,
        vec![
            vec![CST::Fill, CST::Fill],
            vec![CST::Fill, CST::Fill],
            vec![CST::Fill, CST::Fill],
        ],
    )]);
    let board = Matrix::filled_with(tableturfer::matrix::MatrixSize::new(7, 7), MST::Empty);

    let result = MoveValidatorImpl::new(provider).validate(
        &board,
        0,
        &PlayerTeam::Alpha,
        &player_move("tall_card", INamedPosition::new(5, 5), CardRotation::Deg0, false),
        &player_deck("tall_card"),
    );

    assert_eq!(result, Err(InvalidMoveError::CardOutOfBounds));
}
