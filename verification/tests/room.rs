use tableturfer::card::{Card, CardRarity, CardSquareProviderImpl, CST};
use tableturfer::connection::{authorize_action, create_welcome_event, team_for_user, username_is_valid};
use tableturfer::map::{MapProviderImpl, TableturfMap};
use tableturfer::matrix::{Matrix, MatrixSize};
use tableturfer::messages::{RoomEvent, SocketAction, SocketError, SocketEvent};
use tableturfer::close_code::SocketCloseCode;
use tableturfer::room_store::{Room, SocketRoomStore};
use tableturfer::squares::MST;
use tableturfer::state::{GameError, PlayerMove, DECK_SIZE, TURN_COUNT};
use tableturfer::team::PlayerTeam;

fn small_card(name: &str, number: usize) -> Card {
    Card {
        category: "test_cards".to_string(),
        name: name.to_string(),
        number,
        rarity: CardRarity::Common,
        season: 1,
        special_cost: 1,
        squares: Matrix::new(vec![vec![CST::Fill]]),
    }
}

fn card_catalog() -> CardSquareProviderImpl {
    CardSquareProviderImpl::new((0..DECK_SIZE).map(|i| small_card(&format!("card_{i}"), i)).collect())
}

fn map_catalog() -> MapProviderImpl {
    let mut squares = Matrix::filled_with(MatrixSize::new(6, 6), MST::Empty);
    squares.set(0, 0, MST::SpecialAlpha);
    squares.set(5, 5, MST::SpecialBravo);
    MapProviderImpl::new(vec![TableturfMap { name: "Rectangle".to_string(), squares }])
}

fn full_deck() -> Vec<String> {
    (0..DECK_SIZE).map(|i| format!("card_{i}")).collect()
}

// Create and join: the creator receives a fresh four-character code; the
// joiner becomes the opponent and both stand in the welcome.
#[test]
fn create_and_join() {
    let c1: u128 = 1;
    let c2: u128 = 2;
    let mut store = SocketRoomStore::new();
    let code = store.create(c1, card_catalog(), map_catalog()).expect("a code is drawn");

    assert_eq!(code.len(), 4);
    for ch in code.chars() {
        assert!(ch.is_ascii_uppercase() || ch.is_ascii_digit());
    }

    let events = store.get_and_join_if_exists(code.as_str(), c2).expect("the room is open");
    assert_eq!(events.len(), 2);
    assert!(matches!(&events[0], RoomEvent::UserJoin { id, .. } if *id == c2));
    assert!(matches!(&events[1], RoomEvent::OpponentChange(Some(id)) if *id == c2));

    let room = store.get(code.as_str()).expect("the room is open");
    let welcome = create_welcome_event(room, c2, code.clone());
    match welcome {
        SocketEvent::Welcome { id, room_code, users, owner, opponent, started, .. } => {
            assert_eq!(id, c2);
            assert_eq!(room_code, code);
            assert_eq!(users.len(), 2);
            assert_eq!(owner, c1);
            assert_eq!(opponent, Some(c2));
            assert!(!started);
        }
        _ => panic!("expected a welcome"),
    }
}

// Owner handover: when the owner leaves, the earliest joiner takes over
// and the next one becomes the opponent, in that order of announcements.
#[test]
fn owner_handover() {
    let (c1, c2, c3): (u128, u128, u128) = (1, 2, 3);
    let mut store = SocketRoomStore::new();
    let code = store.create(c1, card_catalog(), map_catalog()).unwrap();
    store.get_and_join_if_exists(code.as_str(), c2).unwrap();
    store.get_and_join_if_exists(code.as_str(), c3).unwrap();

    let events = store.remove_user_from_room(code.as_str(), c1);

    assert_eq!(events.len(), 3);
    assert_eq!(events[0], RoomEvent::UserLeave(c1));
    assert_eq!(events[1], RoomEvent::OwnerChange(c2));
    assert_eq!(events[2], RoomEvent::OpponentChange(Some(c3)));

    let room = store.get(code.as_str()).unwrap();
    assert_eq!(room.owner_id, c2);
    assert_eq!(room.opponent_id, Some(c3));
}

// A room whose last member leaves is evicted from the registry.
#[test]
fn empty_room_is_evicted() {
    let c1: u128 = 7;
    let mut store = SocketRoomStore::new();
    let code = store.create(c1, card_catalog(), map_catalog()).unwrap();

    let events = store.remove_user_from_room(code.as_str(), c1);

    assert_eq!(events, vec![RoomEvent::UserLeave(c1)]);
    assert!(store.get(code.as_str()).is_none());
}

#[test]
fn set_map_rejects_unknown_maps() {
    let mut room = Room::new(1, card_catalog(), map_catalog());
    let result = room.set_map("Nowhere".to_string());
    assert_eq!(result, Err(SocketError::GameError(GameError::MapNotFound)));
}

#[test]
fn set_deck_rejects_wrong_sizes_and_unknown_cards() {
    let mut room = Room::new(1, card_catalog(), map_catalog());
    assert_eq!(
        room.set_deck(1, vec!["card_0".to_string()]),
        Err(SocketError::GameError(GameError::IncorrectDeckSize))
    );
    let mut with_unknown = full_deck();
    with_unknown[3] = "card_999".to_string();
    assert_eq!(
        room.set_deck(1, with_unknown),
        Err(SocketError::GameError(GameError::CardNotFound))
    );
}

#[test]
fn start_game_needs_an_opponent_and_decks() {
    let mut room = Room::new(1, card_catalog(), map_catalog());
    assert!(matches!(room.start_game(), Err(SocketError::MissingOpponent)));

    room.add_user(2);
    assert!(matches!(room.start_game(), Err(SocketError::DecksNotChosen)));

    room.set_deck(1, full_deck()).unwrap();
    room.set_deck(2, full_deck()).unwrap();
    let (events, hands) = room.start_game().unwrap();
    assert_eq!(events, vec![RoomEvent::StartGame]);
    assert_eq!(hands.alpha.len(), 4);
    assert_eq!(hands.bravo.len(), 4);
    assert!(room.game_state.is_some());

    // The lobby is gone: a second start is refused until the room returns.
    assert!(matches!(room.start_game(), Err(SocketError::RoomStarted)));
}

// End of game: after TURN_COUNT rounds the next proposal is refused with
// GameEnded, the last turn is followed by the end-of-game score, and the
// owner's return to the room clears both decks.
#[test]
fn end_of_game() {
    let (c1, c2): (u128, u128) = (1, 2);
    let mut room = Room::new(c1, card_catalog(), map_catalog());
    room.add_user(c2);
    room.set_deck(c1, full_deck()).unwrap();
    room.set_deck(c2, full_deck()).unwrap();
    room.start_game().unwrap();

    let mut last_events: Vec<RoomEvent> = Vec::new();
    for _round in 0..TURN_COUNT {
        let alpha_card = room.game_state.as_ref().unwrap().decks.alpha.current_hand[0].clone();
        let first = room
            .propose_move(PlayerTeam::Alpha, PlayerMove::Pass { card_name: alpha_card })
            .unwrap();
        assert!(matches!(first.events[0], RoomEvent::MoveReceived { team: PlayerTeam::Alpha, .. }));

        let bravo_card = room.game_state.as_ref().unwrap().decks.bravo.current_hand[0].clone();
        let second = room
            .propose_move(PlayerTeam::Bravo, PlayerMove::Pass { card_name: bravo_card })
            .unwrap();
        assert!(matches!(second.events[1], RoomEvent::MovesApplied { .. }));
        last_events = second.events;
    }

    assert_eq!(room.game_state.as_ref().unwrap().remaining_turns, 0);
    assert!(matches!(last_events.last().unwrap(), RoomEvent::EndGame { .. }));

    let late = room.propose_move(
        PlayerTeam::Alpha,
        PlayerMove::Pass { card_name: "card_0".to_string() },
    );
    assert!(matches!(late, Err(SocketError::GameError(GameError::GameEnded))));

    let events = room.return_to_room();
    assert_eq!(events, vec![RoomEvent::ReturnToRoom]);
    assert!(room.game_state.is_none());
    for (_, user) in &room.users {
        assert!(user.deck.is_none());
    }
}

#[test]
fn authorization_matrix() {
    let room = Room::new(1, card_catalog(), map_catalog());

    assert_eq!(
        authorize_action(&SocketAction::StartGame, &room, 2),
        Err(SocketError::UserNotRoomOwner)
    );
    assert_eq!(
        authorize_action(&SocketAction::ProposeMove(PlayerMove::Pass { card_name: "card_0".to_string() }), &room, 2),
        Err(SocketError::UserNotPlaying)
    );
    assert_eq!(authorize_action(&SocketAction::Ping, &room, 2), Ok(()));
    assert_eq!(authorize_action(&SocketAction::StartGame, &room, 1), Ok(()));
    assert_eq!(
        authorize_action(&SocketAction::SetDeck { id: "d".to_string(), cards: Vec::new() }, &room, 1),
        Ok(())
    );
}

#[test]
fn teams_follow_the_seats() {
    let mut room = Room::new(1, card_catalog(), map_catalog());
    room.add_user(2);
    room.add_user(3);
    assert_eq!(team_for_user(&room, 1), Some(PlayerTeam::Alpha));
    assert_eq!(team_for_user(&room, 2), Some(PlayerTeam::Bravo));
    assert_eq!(team_for_user(&room, 3), None);
}

#[test]
fn usernames_must_be_short_and_present() {
    assert!(!username_is_valid(None));
    assert!(!username_is_valid(Some("")));
    assert!(username_is_valid(Some("a")));
    assert!(username_is_valid(Some("exactly_25_characters_aaa")));
    assert!(!username_is_valid(Some("a_username_far_too_long_to_accept")));

    // The limit counts characters, not bytes.
    let wide = "é".repeat(25);
    assert!(username_is_valid(Some(wide.as_str())));
    let too_wide = "é".repeat(26);
    assert!(!username_is_valid(Some(too_wide.as_str())));
}

#[test]
fn propose_move_needs_a_started_game() {
    let mut room = Room::new(1, card_catalog(), map_catalog());
    let result = room.propose_move(
        PlayerTeam::Alpha,
        PlayerMove::Pass { card_name: "card_0".to_string() },
    );
    assert!(matches!(result, Err(SocketError::RoomNotStarted)));
}

#[test]
fn invalid_moves_leave_the_game_unchanged() {
    let (c1, c2): (u128, u128) = (1, 2);
    let mut room = Room::new(c1, card_catalog(), map_catalog());
    room.add_user(c2);
    room.set_deck(c1, full_deck()).unwrap();
    room.set_deck(c2, full_deck()).unwrap();
    room.start_game().unwrap();

    let board_before = room.game_state.as_ref().unwrap().board.clone();
    let result = room.propose_move(
        PlayerTeam::Alpha,
        PlayerMove::Pass { card_name: "card_not_in_hand".to_string() },
    );
    assert!(matches!(
        result,
        Err(SocketError::GameError(GameError::InvalidMove(
            tableturfer::move_validator::InvalidMoveError::CardNotInHand
        )))
    ));
    assert_eq!(room.game_state.as_ref().unwrap().board, board_before);
    assert!(room.game_state.as_ref().unwrap().next_moves.alpha.is_none());
}

#[test]
fn close_codes_carry_their_reasons() {
    let not_found = SocketCloseCode::RoomNotFound("ABCD".to_string());
    assert_eq!(not_found.code(), 4000);
    assert_eq!(not_found.reason(), "Could not find room \"ABCD\"");
    let bad_name = SocketCloseCode::InvalidUsername;
    assert_eq!(bad_name.code(), 4001);
    assert_eq!(bad_name.reason(), "Either no username or an invalid username was supplied.");
}
