//! What a connection decides before and while it sits in a room: whether
//! its username passes, which actions it may take, which team it plays
//! for, and the welcome it is greeted with.

use vstd::prelude::*;
use vstd::std_specs::iter::IteratorSpec;
use crate::messages::{SocketAction, SocketError, SocketEvent};
use crate::room_store::{Room, RoomUser};
use crate::team::PlayerTeam;

verus! {

/// The parameters a connection request carries.
#[derive(Debug)]
pub struct SocketRouteParams {
    pub room: Option<String>,
    pub username: Option<String>,
}

/// The length a username may have, in characters.
pub const USERNAME_LIMIT: usize = 25;

/// Counts the characters of `s`, stopping once `cap` of them are seen.
fn char_count_up_to(s: &str, cap: usize) -> (r: usize)
    ensures
        r <= cap,
        r < cap ==> r == s@.len(),
        r == cap ==> s@.len() >= cap,
{
    broadcast use vstd::string::next_postcondition, vstd::string::axiom_spec_iter;

    let mut it = s.chars();
    let mut count: usize = 0;
    while count < cap
        invariant
            count <= cap,
            count <= s@.len(),
            it.obeys_prophetic_iter_laws(),
            it.remaining() =~= s@.skip(count as int),
        decreases cap - count,
    {
        match it.next() {
            Some(_) => {
                proof {
                    assert(s@.skip(count as int).drop_first() =~= s@.skip(count + 1));
                }
                count = count + 1;
            }
            None => {
                proof {
                    assert(s@.skip(count as int).len() == 0);
                }
                return count;
            }
        }
    }
    count
}

/// A username passes when it is present and holds one to USERNAME_LIMIT
/// characters.
pub open spec fn spec_username_is_valid(username: Option<&str>) -> bool {
    match username {
        Option::Some(u) => 1 <= u@.len() <= USERNAME_LIMIT,
        Option::None => false,
    }
}

pub fn username_is_valid(username: Option<&str>) -> (r: bool)
    ensures
        r == spec_username_is_valid(username),
{
    match username {
        Some(u) => {
            let seen = char_count_up_to(u, USERNAME_LIMIT + 1);
            1 <= seen && seen <= USERNAME_LIMIT
        }
        None => false,
    }
}

/// Which team the user plays for: the owner is Alpha, the opponent Bravo,
/// and everyone else watches.
pub fn team_for_user(room: &Room, id: u128) -> (r: Option<PlayerTeam>)
    ensures
        room.owner_id == id ==> r == Some(PlayerTeam::Alpha),
        room.owner_id != id && room.opponent_id == Some(id) ==> r == Some(PlayerTeam::Bravo),
        room.owner_id != id && room.opponent_id != Some(id) ==> r is None,
{
    if room.owner_id == id {
        Some(PlayerTeam::Alpha)
    } else if room.is_opponent(id) {
        Some(PlayerTeam::Bravo)
    } else {
        None
    }
}

/// Whether the user may take the action: owner actions need the owner,
/// player actions the owner or the opponent; an authorization failure
/// says only which standing was missing.
pub fn authorize_action(action: &SocketAction, room: &Room, id: u128) -> (r: Result<
    (),
    SocketError,
>)
    ensures
        action.spec_is_owner_action() && room.owner_id != id ==> r == Err::<(), SocketError>(
            SocketError::UserNotRoomOwner,
        ),
        !(action.spec_is_owner_action() && room.owner_id != id) && action.spec_is_player_action()
            && room.owner_id != id && room.opponent_id != Some(id) ==> r == Err::<(), SocketError>(
            SocketError::UserNotPlaying,
        ),
        !(action.spec_is_owner_action() && room.owner_id != id) && !(action.spec_is_player_action()
            && room.owner_id != id && room.opponent_id != Some(id)) ==> r is Ok,
{
    if action.is_owner_action() && room.owner_id != id {
        Err(SocketError::UserNotRoomOwner)
    } else if action.is_player_action() && room.owner_id != id && !room.is_opponent(id) {
        Err(SocketError::UserNotPlaying)
    } else {
        Ok(())
    }
}

/// The welcome a fresh connection receives: the room as it stands, under
/// the code it was reached by.
pub fn create_welcome_event(room: &Room, id: u128, room_code: String) -> (r: SocketEvent)
    ensures
        r matches SocketEvent::Welcome {
            id: wid,
            room_code: wcode,
            users,
            owner,
            opponent,
            map,
            started,
            config,
        } && wid == id && wcode@ == room_code@ && owner == room.owner_id && opponent
            == room.opponent_id && map@ == room.map@ && started == (room.game_state is Some)
            && users@.len() == room.users@.len() && forall|i: int|
            0 <= i < users@.len() ==> (#[trigger] users@[i]).0 == room.users@[i].0,
{
    let mut users: Vec<(u128, RoomUser)> = Vec::new();
    let mut i: usize = 0;
    while i < room.users.len()
        invariant
            i <= room.users@.len(),
            users@.len() == i,
            forall|j: int| 0 <= j < i ==> (#[trigger] users@[j]).0 == room.users@[j].0,
        decreases room.users@.len() - i,
    {
        let entry = (room.users[i].0, room.users[i].1.duplicate());
        users.push(entry);
        i = i + 1;
    }
    let started = room.game_started();
    SocketEvent::Welcome {
        id,
        room_code,
        users,
        owner: room.owner_id,
        opponent: room.opponent_id,
        map: room.map.clone(),
        started,
        config: match &room.config {
            Some(c) => Some(c.clone()),
            None => None,
        },
    }
}

} // verus!
