//! Rooms and the registry that holds them by code. A room gathers users,
//! names an owner (team Alpha) and at most one opponent (team Bravo),
//! carries the chosen map and, once a game starts, the match state.

use vstd::prelude::*;
use crate::card::{catalogs_like, CardSquareProviderImpl};
use crate::map::{MapProviderImpl, DEFAULT_GAME_MAP};
use crate::matrix::{grid_wf, grid_width};
use crate::messages::{RoomEvent, SocketError};
use crate::move_validator::{catalog_wf, MoveValidatorImpl};
use crate::names::{clone_names, dedup_names, distinct_names, lemma_names_dedup, names_dedup};
use crate::state::{
    deck_drawn_ok, spec_score, GameError, GameState, PlayerMove, DECK_SIZE, HAND_SIZE,
    TURN_COUNT,
};
use crate::team::{PerTeam, PlayerTeam};

verus! {

/// One member of a room: when they joined, and the deck they chose, if
/// any.
#[derive(Debug, PartialEq, Eq)]
pub struct RoomUser {
    pub joined_at: u64,
    pub deck: Option<Vec<String>>,
}

impl RoomUser {
    /// A copy of this user record carrying the same data.
    pub fn duplicate(&self) -> (r: RoomUser)
        ensures
            r.joined_at == self.joined_at,
            r.deck is Some <==> self.deck is Some,
            r.deck is Some ==> r.deck->0@ == self.deck->0@,
    {
        RoomUser {
            joined_at: self.joined_at,
            deck: match &self.deck {
                Some(d) => Some(clone_names(d)),
                None => None,
            },
        }
    }
}

/// Whether some member entry carries the given id.
pub open spec fn spec_has_user(users: Seq<(u128, RoomUser)>, id: u128) -> bool {
    exists|i: int| 0 <= i < users.len() && (#[trigger] users[i]).0 == id
}

/// Member ids and join stamps are each distinct.
pub open spec fn users_distinct(users: Seq<(u128, RoomUser)>) -> bool {
    forall|i: int, j: int|
        0 <= i < j < users.len() ==> (#[trigger] users[i]).0 != (#[trigger] users[j]).0 && users[
            i
        ].1.joined_at != users[j].1.joined_at
}

/// A stored deck is usable: its names are distinct, there are exactly
/// DECK_SIZE of them, and the catalog knows each.
pub open spec fn deck_ok(catalog: CardSquareProviderImpl, deck: Seq<String>) -> bool {
    &&& distinct_names(deck)
    &&& deck.len() == DECK_SIZE
    &&& forall|i: int| 0 <= i < deck.len() ==> catalog.spec_exists((#[trigger] deck[i])@)
}

/// Every map of the catalog has a rectangular, countable board.
pub open spec fn map_catalog_wf(maps: MapProviderImpl) -> bool {
    forall|i: int|
        0 <= i < maps.spec_maps().len() ==> {
            &&& grid_wf((#[trigger] maps.spec_maps()[i]).squares@)
            &&& maps.spec_maps()[i].squares@.len() * grid_width(maps.spec_maps()[i].squares@)
                <= usize::MAX
        }
}

/// A room: its members, the owner and the opponent, the chosen map, the
/// optional running match, and the catalogs it consults.
#[derive(Debug)]
pub struct Room {
    pub owner_id: u128,
    pub opponent_id: Option<u128>,
    pub users: Vec<(u128, RoomUser)>,
    pub map: String,
    pub game_state: Option<GameState>,
    pub config: Option<String>,
    pub card_provider: CardSquareProviderImpl,
    pub map_provider: MapProviderImpl,
    pub join_seq: u64,
}

impl Room {
    /// The room invariant: members are distinct and joined in distinct,
    /// still-unspent moments; the owner is a member; the opponent, when
    /// named, is another member; stored decks are usable; the catalogs are
    /// usable; a running match is well formed.
    pub open spec fn wf(&self) -> bool {
        &&& users_distinct(self.users@)
        &&& forall|i: int|
            0 <= i < self.users@.len() ==> (#[trigger] self.users@[i]).1.joined_at < self.join_seq
        &&& self.users@.len() > 0 ==> spec_has_user(self.users@, self.owner_id)
        &&& match self.opponent_id {
            Option::Some(o) => spec_has_user(self.users@, o) && o != self.owner_id,
            Option::None => true,
        }
        &&& forall|i: int|
            0 <= i < self.users@.len() && (#[trigger] self.users@[i]).1.deck is Some ==> deck_ok(
                self.card_provider,
                self.users@[i].1.deck->0@,
            )
        &&& catalog_wf(self.card_provider)
        &&& map_catalog_wf(self.map_provider)
        &&& match self.game_state {
            Option::Some(g) => g.wf(),
            Option::None => true,
        }
    }

    /// A fresh room: the creating user is owner and only member, no
    /// opponent yet, the default map, and no game running.
    pub fn new(
        owner_id: u128,
        card_provider: CardSquareProviderImpl,
        map_provider: MapProviderImpl,
    ) -> (r: Room)
        requires
            catalog_wf(card_provider),
            map_catalog_wf(map_provider),
        ensures
            r.wf(),
            r.owner_id == owner_id,
            r.opponent_id is None,
            r.users@.len() == 1,
            r.users@[0].0 == owner_id,
            r.users@[0].1.deck is None,
            r.map@ == DEFAULT_GAME_MAP@,
            r.game_state is None,
            r.config is None,
    {
        let mut users: Vec<(u128, RoomUser)> = Vec::new();
        users.push((owner_id, RoomUser { joined_at: 0, deck: None }));
        Room {
            owner_id,
            opponent_id: None,
            users,
            map: DEFAULT_GAME_MAP.to_owned(),
            game_state: None,
            config: None,
            card_provider,
            map_provider,
            join_seq: 1,
        }
    }

    /// Whether a match is running or finished but not yet left.
    pub fn game_started(&self) -> (r: bool)
        ensures
            r == (self.game_state is Some),
    {
        self.game_state.is_some()
    }

    /// Whether the given user is the current opponent.
    pub fn is_opponent(&self, id: u128) -> (r: bool)
        ensures
            r == (self.opponent_id == Some(id)),
    {
        match &self.opponent_id {
            Some(o) => *o == id,
            None => false,
        }
    }

    /// Whether the given user is a member.
    pub fn has_user(&self, id: u128) -> (r: bool)
        ensures
            r == spec_has_user(self.users@, id),
    {
        let mut i: usize = 0;
        while i < self.users.len()
            invariant
                i <= self.users@.len(),
                forall|j: int| 0 <= j < i ==> (#[trigger] self.users@[j]).0 != id,
            decreases self.users@.len() - i,
        {
            if self.users[i].0 == id {
                return true;
            }
            i = i + 1;
        }
        false
    }

    /// Adds a newcomer, stamps their joining moment, and announces them;
    /// in the lobby the first to arrive after the owner becomes the
    /// opponent.
    pub fn add_user(&mut self, id: u128) -> (r: Vec<RoomEvent>)
        requires
            old(self).wf(),
            old(self).users@.len() > 0,
            !spec_has_user(old(self).users@, id),
            old(self).join_seq < u64::MAX,
        ensures
            final(self).wf(),
            user_added_ok(*old(self), *final(self), id, r@),
    {
        let mut events: Vec<RoomEvent> = Vec::new();
        let user = RoomUser { joined_at: self.join_seq, deck: None };
        let announced = user.duplicate();
        proof {
            assert(announced == user);
        }
        self.users.push((id, user));
        self.join_seq = self.join_seq + 1;
        events.push(RoomEvent::UserJoin { id, user: announced });

        let may_seat = match &self.opponent_id {
            None => true,
            Some(_) => false,
        };
        if may_seat && !self.game_started() {
            self.opponent_id = Some(id);
            events.push(RoomEvent::OpponentChange(Some(id)));
        }
        proof {
            assert forall|i: int, j: int| 0 <= i < j < self.users@.len() implies (
            #[trigger] self.users@[i]).0 != (#[trigger] self.users@[j]).0 && self.users@[
            i].1.joined_at != self.users@[j].1.joined_at by {
                if j < self.users@.len() - 1 {
                    assert(self.users@[i] == old(self).users@[i]);
                    assert(self.users@[j] == old(self).users@[j]);
                } else {
                    assert(self.users@[i] == old(self).users@[i]);
                }
            }
            assert(spec_has_user(self.users@, self.owner_id)) by {
                let k = choose|k: int|
                    0 <= k < old(self).users@.len() && (#[trigger] old(self).users@[k]).0 == old(self).owner_id;
                assert(self.users@[k].0 == self.owner_id);
            }
            match self.opponent_id {
                Option::Some(o) => {
                    if old(self).opponent_id is Some {
                        let k = choose|k: int|
                            0 <= k < old(self).users@.len() && (#[trigger] old(self).users@[k]).0
                                == o;
                        assert(self.users@[k].0 == o);
                    } else if old(self).game_state is None {
                        assert(self.users@[self.users@.len() - 1].0 == o);
                    }
                }
                Option::None => {}
            }
        }
        events
    }

    /// Chooses the map for the next game: rejected when the catalog does
    /// not know it, or while a game is running.
    pub fn set_map(&mut self, map: String) -> (r: Result<Vec<RoomEvent>, SocketError>)
        requires
            old(self).wf(),
        ensures
            final(self).wf(),
            !old(self).map_provider.spec_exists(map@) ==> r == Err::<Vec<RoomEvent>, SocketError>(
                SocketError::GameError(GameError::MapNotFound),
            ) && *final(self) == *old(self),
            old(self).map_provider.spec_exists(map@) && old(self).game_state is Some ==> r == Err::<
                Vec<RoomEvent>,
                SocketError,
            >(SocketError::RoomStarted) && *final(self) == *old(self),
            old(self).map_provider.spec_exists(map@) && old(self).game_state is None ==> {
                &&& r is Ok
                &&& final(self).map@ == map@
                &&& final(self).users@ == old(self).users@
                &&& final(self).owner_id == old(self).owner_id
                &&& final(self).opponent_id == old(self).opponent_id
                &&& final(self).game_state == old(self).game_state
                &&& r->Ok_0@.len() == 1
                &&& r->Ok_0@[0] matches RoomEvent::MapChange(m) && m@ == map@
            },
    {
        if !self.map_provider.contains(map.as_str()) {
            return Err(SocketError::GameError(GameError::MapNotFound));
        }

        if !self.game_started() {
            let mut events: Vec<RoomEvent> = Vec::new();
            let announced = map.clone();
            self.map = map;
            events.push(RoomEvent::MapChange(announced));
            Ok(events)
        } else {
            Err(SocketError::RoomStarted)
        }
    }

    /// Ends the post-game phase: drops the match, clears every stored
    /// deck, and sends everyone back to the lobby.
    pub fn return_to_room(&mut self) -> (r: Vec<RoomEvent>)
        requires
            old(self).wf(),
            old(self).users@.len() > 0,
        ensures
            final(self).wf(),
            final(self).game_state is None,
            final(self).users@.len() == old(self).users@.len(),
            forall|i: int|
                0 <= i < final(self).users@.len() ==> {
                    &&& (#[trigger] final(self).users@[i]).0 == old(self).users@[i].0
                    &&& final(self).users@[i].1.joined_at == old(self).users@[i].1.joined_at
                    &&& final(self).users@[i].1.deck is None
                },
            final(self).owner_id == old(self).owner_id,
            final(self).opponent_id == old(self).opponent_id,
            final(self).map == old(self).map,
            r@.len() == 1,
            r@[0] == RoomEvent::ReturnToRoom,
    {
        self.game_state = None;
        let mut i: usize = 0;
        while i < self.users.len()
            invariant
                old(self).wf(),
                self.users@.len() == old(self).users@.len(),
                self.owner_id == old(self).owner_id,
                self.opponent_id == old(self).opponent_id,
                self.join_seq == old(self).join_seq,
                self.card_provider == old(self).card_provider,
                self.map_provider == old(self).map_provider,
                self.map == old(self).map,
                self.game_state is None,
                i <= self.users@.len(),
                forall|j: int|
                    0 <= j < self.users@.len() ==> {
                        &&& (#[trigger] self.users@[j]).0 == old(self).users@[j].0
                        &&& self.users@[j].1.joined_at == old(self).users@[j].1.joined_at
                    },
                forall|j: int| 0 <= j < i ==> (#[trigger] self.users@[j]).1.deck is None,
                users_distinct(old(self).users@) ==> users_distinct(self.users@),
            decreases self.users@.len() - i,
        {
            let id = self.users[i].0;
            let stamp = self.users[i].1.joined_at;
            let cleared = (id, RoomUser { joined_at: stamp, deck: None });
            let ghost pre = self.users@;
            self.users.remove(i);
            proof {
                assert(self.users@ =~= pre.remove(i as int));
            }
            self.users.insert(i, cleared);
            proof {
                assert(self.users@ =~= pre.update(i as int, cleared));
            }
            i = i + 1;
        }
        proof {
            assert(spec_has_user(self.users@, self.owner_id)) by {
                let k = choose|k: int|
                    0 <= k < old(self).users@.len() && (#[trigger] old(self).users@[k]).0 == old(self).owner_id;
                assert(self.users@[k].0 == self.owner_id);
            }
            match self.opponent_id {
                Option::Some(o) => {
                    let k = choose|k: int|
                        0 <= k < old(self).users@.len() && (#[trigger] old(self).users@[k]).0 == o;
                    assert(self.users@[k].0 == o);
                }
                Option::None => {}
            }
        }
        let mut events: Vec<RoomEvent> = Vec::new();
        events.push(RoomEvent::ReturnToRoom);
        events
    }
}

/// The position of a member no one joined before.
fn oldest_member_index(users: &Vec<(u128, RoomUser)>) -> (r: usize)
    requires
        users@.len() > 0,
    ensures
        r < users@.len(),
        forall|j: int|
            0 <= j < users@.len() ==> users@[r as int].1.joined_at <= (
            #[trigger] users@[j]).1.joined_at,
{
    let mut best: usize = 0;
    let mut i: usize = 1;
    while i < users.len()
        invariant
            users@.len() > 0,
            best < i,
            i <= users@.len(),
            forall|j: int|
                0 <= j < i ==> users@[best as int].1.joined_at <= (
                #[trigger] users@[j]).1.joined_at,
        decreases users@.len() - i,
    {
        if users[i].1.joined_at < users[best].1.joined_at {
            best = i;
        }
        i = i + 1;
    }
    best
}

/// The position of the member, other than `excl`, no such member joined
/// before; `None` when every member is `excl`.
fn oldest_other_index(users: &Vec<(u128, RoomUser)>, excl: u128) -> (r: Option<usize>)
    ensures
        r is None <==> forall|j: int| 0 <= j < users@.len() ==> (#[trigger] users@[j]).0 == excl,
        r is Some ==> {
            &&& r->0 < users@.len()
            &&& users@[r->0 as int].0 != excl
            &&& forall|j: int|
                0 <= j < users@.len() && (#[trigger] users@[j]).0 != excl
                    ==> users@[r->0 as int].1.joined_at <= users@[j].1.joined_at
        },
{
    let mut best: Option<usize> = None;
    let mut i: usize = 0;
    while i < users.len()
        invariant
            i <= users@.len(),
            best is None ==> forall|j: int| 0 <= j < i ==> (#[trigger] users@[j]).0 == excl,
            best is Some ==> {
                &&& best->0 < i
                &&& users@[best->0 as int].0 != excl
                &&& forall|j: int|
                    0 <= j < i && (#[trigger] users@[j]).0 != excl
                        ==> users@[best->0 as int].1.joined_at <= users@[j].1.joined_at
            },
        decreases users@.len() - i,
    {
        if users[i].0 != excl {
            let better = match best {
                Some(b) => users[i].1.joined_at < users[b].1.joined_at,
                None => true,
            };
            if better {
                best = Some(i);
            }
        }
        i = i + 1;
    }
    best
}


/// What joining does to a room: the newcomer is appended with a fresh
/// join stamp and no deck, nothing else about the membership or the seats
/// moves, except that an empty opponent seat in the lobby goes to the
/// newcomer; the events announce exactly that, arrival first.
pub open spec fn user_added_ok(pre: Room, post: Room, id: u128, events: Seq<RoomEvent>) -> bool {
    &&& post.users.len() == pre.users.len() + 1
    &&& post.users[post.users.len() - 1].0 == id
    &&& post.users[post.users.len() - 1].1.deck is None
    &&& forall|i: int| 0 <= i < pre.users.len() ==> #[trigger] post.users[i] == pre.users[i]
    &&& post.owner_id == pre.owner_id
    &&& post.game_state == pre.game_state
    &&& post.map == pre.map
    &&& post.opponent_id == if pre.opponent_id is None && pre.game_state is None {
        Some(id)
    } else {
        pre.opponent_id
    }
    &&& events.len() == if pre.opponent_id is None && pre.game_state is None {
        2int
    } else {
        1int
    }
    &&& events[0] == (RoomEvent::UserJoin {
        id,
        user: RoomUser { joined_at: pre.join_seq, deck: None },
    })
    &&& (pre.opponent_id is None && pre.game_state is None ==> events[1] == (
    RoomEvent::OpponentChange(Some(id))))
}

/// What leaving does to a room: a stranger's departure changes nothing;
/// a member's entry is removed and announced, and a vacant owner or
/// opponent seat is refilled by the member no one joined before, each
/// announcement in order.
pub open spec fn user_removal_ok(pre: Room, post: Room, id: u128, events: Seq<RoomEvent>) -> bool {
    &&& post.game_state == pre.game_state
    &&& post.map == pre.map
    &&& (!spec_has_user(pre.users@, id) ==> post == pre && events.len() == 0)
    &&& (spec_has_user(pre.users@, id) ==> {
        &&& exists|i: int|
            {
                &&& 0 <= i < pre.users@.len()
                &&& (#[trigger] pre.users@[i]).0 == id
                &&& post.users@ == pre.users@.remove(i)
            }
        &&& events.len() >= 1
        &&& events[0] == RoomEvent::UserLeave(id)
    })
    &&& (spec_has_user(pre.users@, id) && post.users@.len() == 0 ==> events.len() == 1)
    &&& (spec_has_user(pre.users@, id) && post.users@.len() > 0 && pre.owner_id == id ==> {
        &&& exists|k: int|
            {
                &&& 0 <= k < post.users@.len()
                &&& (#[trigger] post.users@[k]).0 == post.owner_id
                &&& forall|j: int|
                    0 <= j < post.users@.len() ==> post.users@[k].1.joined_at <= (
                    #[trigger] post.users@[j]).1.joined_at
            }
        &&& events[1] == RoomEvent::OwnerChange(post.owner_id)
        &&& if pre.opponent_id == Some(post.owner_id) {
            &&& events.len() == 3
            &&& events[2] == RoomEvent::OpponentChange(post.opponent_id)
            &&& opponent_reassigned_ok(post.users@, post.owner_id, post.opponent_id)
        } else {
            events.len() == 2 && post.opponent_id == pre.opponent_id
        }
    })
    &&& (spec_has_user(pre.users@, id) && post.users@.len() > 0 && pre.owner_id != id
        && pre.opponent_id == Some(id) ==> {
        &&& post.owner_id == pre.owner_id
        &&& events.len() == 2
        &&& events[1] == RoomEvent::OpponentChange(post.opponent_id)
        &&& opponent_reassigned_ok(post.users@, post.owner_id, post.opponent_id)
    })
    &&& (spec_has_user(pre.users@, id) && post.users@.len() > 0 && pre.owner_id != id
        && pre.opponent_id != Some(id) ==> {
        &&& post.owner_id == pre.owner_id
        &&& post.opponent_id == pre.opponent_id
        &&& events.len() == 1
    })
}

impl Room {
    /// Removes a member and announces it; when the owner or the opponent
    /// leaves, the member no one joined before takes the vacant seat, so a
    /// room with members always has its owner among them.
    pub fn remove_user(&mut self, id: u128) -> (r: Vec<RoomEvent>)
        requires
            old(self).wf(),
        ensures
            final(self).wf(),
            user_removal_ok(*old(self), *final(self), id, r@),
    {
        let mut events: Vec<RoomEvent> = Vec::new();
        let found = user_index(&self.users, id);
        let idx = match found {
            Some(i) => i,
            None => {
                return events;
            }
        };
        let ghost pre_users = self.users@;
        let ghost vi = idx as int;
        self.users.remove(idx);
        proof {
            lemma_users_remove(pre_users, vi);
        }
        events.push(RoomEvent::UserLeave(id));

        if self.users.len() > 0 {
            if self.owner_id == id {
                let k = oldest_member_index(&self.users);
                let new_owner = self.users[k].0;
                self.owner_id = new_owner;
                events.push(RoomEvent::OwnerChange(new_owner));
                let opponent_was_new_owner = match &self.opponent_id {
                    Some(o) => *o == new_owner,
                    None => false,
                };
                if opponent_was_new_owner {
                    let cand = oldest_other_index(&self.users, new_owner);
                    match cand {
                        Some(c) => {
                            self.opponent_id = Some(self.users[c].0);
                        }
                        None => {
                            self.opponent_id = None;
                        }
                    }
                    events.push(RoomEvent::OpponentChange(self.opponent_id));
                }
            } else {
                let is_opp = match &self.opponent_id {
                    Some(o) => *o == id,
                    None => false,
                };
                if is_opp {
                    let cand = oldest_other_index(&self.users, self.owner_id);
                    match cand {
                        Some(c) => {
                            self.opponent_id = Some(self.users[c].0);
                        }
                        None => {
                            self.opponent_id = None;
                        }
                    }
                    events.push(RoomEvent::OpponentChange(self.opponent_id));
                }
            }
        }
        proof {
            assert forall|k: int|
                0 <= k < self.users@.len() implies (#[trigger] self.users@[k]).1.joined_at
                < self.join_seq by {
                assert(self.users@[k] == if k < vi {
                    pre_users[k]
                } else {
                    pre_users[k + 1]
                });
            }
            assert forall|k: int|
                0 <= k < self.users@.len() && (#[trigger] self.users@[k]).1.deck is Some implies
                deck_ok(self.card_provider, self.users@[k].1.deck->0@) by {
                assert(self.users@[k] == if k < vi {
                    pre_users[k]
                } else {
                    pre_users[k + 1]
                });
            }
            if self.users@.len() > 0 && old(self).owner_id != id {
                assert(spec_has_user(self.users@, self.owner_id));
            }
            match self.opponent_id {
                Option::Some(o) => {
                    if self.opponent_id == old(self).opponent_id {
                        assert(o != id);
                        assert(spec_has_user(self.users@, o));
                    }
                }
                Option::None => {}
            }
        }
        events
    }
}

/// A freshly seated opponent is a member other than the owner whom no
/// other such member preceded; `None` only when the owner is the sole
/// member.
pub open spec fn opponent_reassigned_ok(
    users: Seq<(u128, RoomUser)>,
    owner: u128,
    opponent: Option<u128>,
) -> bool {
    match opponent {
        Option::Some(o) => {
            &&& o != owner
            &&& exists|k: int|
                {
                    &&& 0 <= k < users.len()
                    &&& (#[trigger] users[k]).0 == o
                    &&& forall|j: int|
                        0 <= j < users.len() && (#[trigger] users[j]).0 != owner
                            ==> users[k].1.joined_at <= users[j].1.joined_at
                }
        }
        Option::None => forall|j: int| 0 <= j < users.len() ==> (#[trigger] users[j]).0 == owner,
    }
}

/// Removing a member keeps the others, their distinctness and their
/// stamps, and nothing else.
proof fn lemma_users_remove(users: Seq<(u128, RoomUser)>, i: int)
    requires
        users_distinct(users),
        0 <= i < users.len(),
    ensures
        users_distinct(users.remove(i)),
        !spec_has_user(users.remove(i), users[i].0),
        forall|id: u128|
            spec_has_user(users.remove(i), id) <==> (spec_has_user(users, id) && id != users[i].0),
        forall|k: int|
            0 <= k < users.remove(i).len() ==> #[trigger] users.remove(i)[k] == if k < i {
                users[k]
            } else {
                users[k + 1]
            },
{
    let r = users.remove(i);
    assert forall|a: int, b: int| 0 <= a < b < r.len() implies (#[trigger] r[a]).0 != (
    #[trigger] r[b]).0 && r[a].1.joined_at != r[b].1.joined_at by {
        let sa = if a < i {
            a
        } else {
            a + 1
        };
        let sb = if b < i {
            b
        } else {
            b + 1
        };
        assert(r[a] == users[sa] && r[b] == users[sb]);
    }
    assert forall|id: u128| spec_has_user(r, id) implies (spec_has_user(users, id) && id
        != users[i].0) by {
        let j = choose|j: int| 0 <= j < r.len() && (#[trigger] r[j]).0 == id;
        let sj = if j < i {
            j
        } else {
            j + 1
        };
        assert(r[j] == users[sj]);
    }
    assert forall|id: u128| spec_has_user(users, id) && id != users[i].0 implies spec_has_user(
        r,
        id,
    ) by {
        let j = choose|j: int| 0 <= j < users.len() && (#[trigger] users[j]).0 == id;
        let rj = if j < i {
            j
        } else {
            j - 1
        };
        assert(r[rj] == users[j]);
    }
}

/// The position of the member with the given id, if any.
fn user_index(users: &Vec<(u128, RoomUser)>, id: u128) -> (r: Option<usize>)
    ensures
        r is None <==> !spec_has_user(users@, id),
        r is Some ==> r->0 < users@.len() && users@[r->0 as int].0 == id,
{
    let mut i: usize = 0;
    while i < users.len()
        invariant
            i <= users@.len(),
            forall|j: int| 0 <= j < i ==> (#[trigger] users@[j]).0 != id,
        decreases users@.len() - i,
    {
        if users[i].0 == id {
            return Some(i);
        }
        i = i + 1;
    }
    None
}

/// The position of the first member entry with the given id, or -1.
pub open spec fn spec_user_index(users: Seq<(u128, RoomUser)>, id: u128) -> int
    decreases users.len(),
{
    if users.len() == 0 {
        -1
    } else if users[0].0 == id {
        0
    } else {
        let rest = spec_user_index(users.drop_first(), id);
        if rest < 0 {
            -1
        } else {
            rest + 1
        }
    }
}

pub proof fn lemma_user_index(users: Seq<(u128, RoomUser)>, id: u128)
    ensures
        spec_user_index(users, id) >= 0 ==> {
            &&& spec_user_index(users, id) < users.len()
            &&& users[spec_user_index(users, id)].0 == id
        },
        spec_user_index(users, id) >= 0 <==> spec_has_user(users, id),
    decreases users.len(),
{
    if users.len() > 0 && users[0].0 != id {
        lemma_user_index(users.drop_first(), id);
        if spec_has_user(users, id) {
            let i = choose|i: int| 0 <= i < users.len() && (#[trigger] users[i]).0 == id;
            assert(users.drop_first()[i - 1] == users[i]);
            assert(spec_has_user(users.drop_first(), id));
        }
        if spec_user_index(users, id) >= 0 {
            let j = spec_user_index(users.drop_first(), id);
            assert(users[j + 1] == users.drop_first()[j]);
        }
    }
}

/// The stored deck of the given member, when both exist.
pub open spec fn spec_user_deck(users: Seq<(u128, RoomUser)>, id: u128) -> Option<Vec<String>> {
    if spec_user_index(users, id) >= 0 {
        users[spec_user_index(users, id)].1.deck
    } else {
        Option::None
    }
}

impl Room {
    /// Stores a player's chosen deck: refused while a game runs, when the
    /// names do not make exactly DECK_SIZE distinct cards, or when the
    /// catalog does not know one of them. Repeated names collapse to their
    /// first mention. A non-member's choice is accepted and forgotten.
    pub fn set_deck(&mut self, id: u128, deck: Vec<String>) -> (r: Result<
        Vec<RoomEvent>,
        SocketError,
    >)
        requires
            old(self).wf(),
        ensures
            final(self).wf(),
            old(self).game_state is Some ==> r == Err::<Vec<RoomEvent>, SocketError>(
                SocketError::RoomStarted,
            ) && *final(self) == *old(self),
            old(self).game_state is None && names_dedup(deck@).len() != DECK_SIZE ==> r == Err::<
                Vec<RoomEvent>,
                SocketError,
            >(SocketError::GameError(GameError::IncorrectDeckSize)) && *final(self) == *old(self),
            old(self).game_state is None && names_dedup(deck@).len() == DECK_SIZE && !(forall|
                i: int,
            |
                0 <= i < names_dedup(deck@).len() ==> old(self).card_provider.spec_exists(
                    (#[trigger] names_dedup(deck@)[i])@,
                )) ==> r == Err::<Vec<RoomEvent>, SocketError>(
                SocketError::GameError(GameError::CardNotFound),
            ) && *final(self) == *old(self),
            old(self).game_state is None && names_dedup(deck@).len() == DECK_SIZE && (forall|i: int|
                0 <= i < names_dedup(deck@).len() ==> old(self).card_provider.spec_exists(
                    (#[trigger] names_dedup(deck@)[i])@,
                )) ==> {
                &&& r is Ok
                &&& final(self).owner_id == old(self).owner_id
                &&& final(self).opponent_id == old(self).opponent_id
                &&& final(self).game_state == old(self).game_state
                &&& final(self).map == old(self).map
                &&& final(self).users@.len() == old(self).users@.len()
                &&& !spec_has_user(old(self).users@, id) ==> final(self).users@ == old(self).users@ && r->Ok_0@.len() == 0
                &&& spec_has_user(old(self).users@, id) ==> {
                    &&& forall|k: int|
                        0 <= k < final(self).users@.len() ==> {
                            &&& (#[trigger] final(self).users@[k]).0 == old(self).users@[k].0
                            &&& final(self).users@[k].1.joined_at == old(self).users@[k].1.joined_at
                            &&& (final(self).users@[k].0 != id ==> final(self).users@[k].1.deck
                                == old(self).users@[k].1.deck)
                            &&& (final(self).users@[k].0 == id ==> final(self).users@[k].1.deck is Some && final(self).users@[k].1.deck->0@
                                == names_dedup(deck@))
                        }
                    &&& r->Ok_0@.len() == 1
                    &&& r->Ok_0@[0] matches RoomEvent::UserUpdate { id: eid, user } && eid == id
                        && user.deck is Some && user.deck->0@ == names_dedup(deck@)
                }
            },
    {
        if self.game_started() {
            return Err(SocketError::RoomStarted);
        }
        let deduped = dedup_names(&deck);
        proof {
            lemma_names_dedup(deck@);
        }
        if deduped.len() != DECK_SIZE {
            return Err(SocketError::GameError(GameError::IncorrectDeckSize));
        }
        let mut i: usize = 0;
        while i < deduped.len()
            invariant
                old(self).wf(),
                old(self).game_state is None,
                names_dedup(deck@).len() == DECK_SIZE,
                i <= deduped@.len(),
                deduped@ == names_dedup(deck@),
                forall|j: int|
                    0 <= j < i ==> self.card_provider.spec_exists((#[trigger] deduped@[j])@),
                *self == *old(self),
            decreases deduped@.len() - i,
        {
            if !self.card_provider.contains(deduped[i].as_str()) {
                return Err(SocketError::GameError(GameError::CardNotFound));
            }
            i = i + 1;
        }

        let at = user_index(&self.users, id);
        match at {
            Some(k) => {
                let stamp = self.users[k].1.joined_at;
                let updated = RoomUser { joined_at: stamp, deck: Some(deduped) };
                let announced = updated.duplicate();
                let ghost pre = self.users@;
                self.users.remove(k);
                proof {
                    assert(self.users@ =~= pre.remove(k as int));
                }
                self.users.insert(k, (id, updated));
                proof {
                    assert(self.users@ =~= pre.update(k as int, (id, updated)));
                    assert(pre[k as int].0 == id);
                    assert forall|a: int, b: int| 0 <= a < b < self.users@.len() implies (
                    #[trigger] self.users@[a]).0 != (#[trigger] self.users@[b]).0 && self.users@[
                    a].1.joined_at != self.users@[b].1.joined_at by {
                        assert(pre[a].0 == self.users@[a].0 && pre[b].0 == self.users@[b].0);
                        assert(pre[a].1.joined_at == self.users@[a].1.joined_at);
                        assert(pre[b].1.joined_at == self.users@[b].1.joined_at);
                    }
                    assert(spec_has_user(self.users@, self.owner_id)) by {
                        let w = choose|w: int|
                            0 <= w < pre.len() && (#[trigger] pre[w]).0 == self.owner_id;
                        assert(self.users@[w].0 == self.owner_id);
                    }
                    match self.opponent_id {
                        Option::Some(o) => {
                            let w = choose|w: int|
                                0 <= w < pre.len() && (#[trigger] pre[w]).0 == o;
                            assert(self.users@[w].0 == o);
                        }
                        Option::None => {}
                    }
                }
                let mut events: Vec<RoomEvent> = Vec::new();
                events.push(RoomEvent::UserUpdate { id, user: announced });
                Ok(events)
            }
            None => {
                let events: Vec<RoomEvent> = Vec::new();
                Ok(events)
            }
        }
    }
}

/// What one proposal hands back: the events to broadcast, and per team the
/// secret replacement-card message to send that player alone, after the
/// broadcasts.
#[derive(Debug)]
pub struct ProposeMoveOutcome {
    pub events: Vec<RoomEvent>,
    pub next_cards: PerTeam<Option<RoomEvent>>,
}

impl Room {
    /// Starts the match, only from the lobby: needs an opponent and a deck
    /// from both players; the chosen map, with the name `random` drawn from
    /// the whole catalog, seeds the board; both hands are dealt, to be
    /// handed secretly to their players. With all of that in place the
    /// start is owed.
    pub fn start_game(&mut self) -> (r: Result<(Vec<RoomEvent>, PerTeam<Vec<String>>), SocketError>)
        requires
            old(self).wf(),
        ensures
            final(self).wf(),
            old(self).game_state is Some ==> r is Err && r->Err_0 == SocketError::RoomStarted
                && *final(self) == *old(self),
            old(self).game_state is None && old(self).opponent_id is None ==> r is Err
                && r->Err_0 == SocketError::MissingOpponent && *final(self) == *old(self),
            old(self).game_state is None && old(self).opponent_id is Some && (spec_user_deck(
                old(self).users@,
                old(self).owner_id,
            ) is None || spec_user_deck(old(self).users@, old(self).opponent_id->0) is None)
                ==> r is Err && r->Err_0 == SocketError::DecksNotChosen && *final(self) == *old(self),
            // Success is owed: with the lobby seated, both decks chosen and
            // the chosen map available, the game starts.
            old(self).game_state is None && old(self).opponent_id is Some && spec_user_deck(
                old(self).users@,
                old(self).owner_id,
            ) is Some && spec_user_deck(old(self).users@, old(self).opponent_id->0) is Some && (old(self).map@ == "random"@ ==> old(self).map_provider.spec_maps().len() > 0) && (old(self).map@ != "random"@ ==> old(self).map_provider.spec_exists(old(self).map@)) ==> r is Ok,
            r is Ok ==> {
                &&& old(self).opponent_id is Some
                &&& final(self).game_state is Some
                &&& final(self).game_state->0.remaining_turns == TURN_COUNT
                &&& final(self).game_state->0.next_moves.alpha is None
                &&& final(self).game_state->0.next_moves.bravo is None
                &&& final(self).game_state->0.decks.alpha.cards@ == spec_user_deck(
                    old(self).users@,
                    old(self).owner_id,
                )->0@
                &&& final(self).game_state->0.decks.bravo.cards@ == spec_user_deck(
                    old(self).users@,
                    old(self).opponent_id->0,
                )->0@
                &&& (old(self).map@ != "random"@ ==> old(self).map_provider.spec_exists(
                    old(self).map@,
                ) && final(self).game_state->0.board@ == old(self).map_provider.spec_get(
                    old(self).map@,
                ).squares@)
                &&& (old(self).map@ == "random"@ ==> exists|i: int|
                    0 <= i < old(self).map_provider.spec_maps().len() && final(self).game_state->0.board@ == (#[trigger] old(self).map_provider.spec_maps()[i]).squares@)
                &&& r->Ok_0.0@.len() == 1
                &&& r->Ok_0.0@[0] == RoomEvent::StartGame
                &&& r->Ok_0.1.alpha@ == final(self).game_state->0.decks.alpha.current_hand@
                &&& r->Ok_0.1.bravo@ == final(self).game_state->0.decks.bravo.current_hand@
                &&& final(self).game_state->0.decks.alpha.current_hand@.len() == HAND_SIZE
                &&& final(self).game_state->0.decks.bravo.current_hand@.len() == HAND_SIZE
                &&& final(self).users@ == old(self).users@
                &&& final(self).owner_id == old(self).owner_id
                &&& final(self).opponent_id == old(self).opponent_id
                &&& final(self).map == old(self).map
            },
            old(self).game_state is None && old(self).opponent_id is Some && spec_user_deck(
                old(self).users@,
                old(self).owner_id,
            ) is Some && spec_user_deck(old(self).users@, old(self).opponent_id->0) is Some ==> (
            r is Err ==> r->Err_0 == SocketError::GameError(GameError::MapNotFound) && *final(self)
                == *old(self)),
    {
        if self.game_started() {
            return Err(SocketError::RoomStarted);
        }
        let opponent = match &self.opponent_id {
            Some(o) => *o,
            None => {
                return Err(SocketError::MissingOpponent);
            }
        };
        proof {
            lemma_user_index(self.users@, self.owner_id);
            lemma_user_index(self.users@, opponent);
        }
        let oi = match user_index(&self.users, self.owner_id) {
            Some(i) => i,
            None => {
                return vstd::pervasive::unreached();
            }
        };
        let pi = match user_index(&self.users, opponent) {
            Some(i) => i,
            None => {
                return vstd::pervasive::unreached();
            }
        };
        proof {
            assert(spec_user_index(self.users@, self.owner_id) >= 0);
            assert(self.users@[spec_user_index(self.users@, self.owner_id)].0 == self.owner_id);
            assert(self.users@[oi as int].0 == self.owner_id);
            assert forall|a: int, b: int|
                0 <= a < self.users@.len() && 0 <= b < self.users@.len() && (
                #[trigger] self.users@[a]).0 == (#[trigger] self.users@[b]).0 implies a == b by {
                if a != b {
                    assert(users_distinct(self.users@));
                }
            }
        }
        let owner_deck = match &self.users[oi].1.deck {
            Some(d) => clone_names(d),
            None => {
                return Err(SocketError::DecksNotChosen);
            }
        };
        let opp_deck = match &self.users[pi].1.deck {
            Some(d) => clone_names(d),
            None => {
                return Err(SocketError::DecksNotChosen);
            }
        };

        let is_random = crate::strutil::str_eq(self.map.as_str(), "random");
        let chosen_map = if is_random {
            self.map_provider.pick_random()
        } else {
            self.map_provider.get(self.map.as_str())
        };
        proof {
            if !is_random {
                crate::map::lemma_map_index(self.map_provider.spec_maps(), self.map@);
            }
        }
        let map = match chosen_map {
            Some(m) => m,
            None => {
                return Err(SocketError::GameError(GameError::MapNotFound));
            }
        };

        let state_catalog = self.card_provider.duplicate();
        let validator_catalog = self.card_provider.duplicate();
        proof {
            lemma_like_catalogs_usable(self.card_provider, state_catalog);
            lemma_like_catalogs_usable(self.card_provider, validator_catalog);
            lemma_catalogs_like_trans(validator_catalog, self.card_provider, state_catalog);
            assert(crate::matrix::grid_wf(map.squares@) && map.squares@.len()
                * crate::matrix::grid_width(map.squares@) <= usize::MAX) by {
                let idx = choose|idx: int|
                    0 <= idx < self.map_provider.spec_maps().len() && crate::map::map_like(
                        map,
                        #[trigger] self.map_provider.spec_maps()[idx],
                    );
            }
        }
        let validator = MoveValidatorImpl::new(validator_catalog);
        let mut game_state = GameState::new(
            map.squares,
            state_catalog,
            validator,
            PerTeam::new(owner_deck, opp_deck),
        );
        let mut events: Vec<RoomEvent> = Vec::new();
        events.push(RoomEvent::StartGame);
        proof {
            assert(game_state.decks.alpha.used_cards@ =~= Seq::<String>::empty());
            assert(game_state.decks.bravo.used_cards@ =~= Seq::<String>::empty());
            lemma_empty_minus(game_state.decks.alpha.cards@);
            lemma_empty_minus(game_state.decks.bravo.cards@);
            assert(deck_ok(self.card_provider, self.users@[oi as int].1.deck->0@));
            assert(deck_ok(self.card_provider, self.users@[pi as int].1.deck->0@));
            assert(game_state.decks.alpha.spec_available().len() == DECK_SIZE);
            assert(game_state.decks.bravo.spec_available().len() == DECK_SIZE);
        }
        let hands = game_state.assign_initial_hands();
        self.game_state = Some(game_state);
        Ok((events, hands))
    }
}

/// Subtracting nothing keeps the whole list.
proof fn lemma_empty_minus(a: Seq<String>)
    ensures
        crate::names::names_minus(a, Seq::<String>::empty()) == a,
    decreases a.len(),
{
    if a.len() > 0 {
        lemma_empty_minus(a.drop_last());
        assert(crate::names::names_minus(a, Seq::<String>::empty()) =~= a);
    }
}

/// A copy of a usable catalog is usable.
proof fn lemma_like_catalogs_usable(a: CardSquareProviderImpl, b: CardSquareProviderImpl)
    requires
        catalog_wf(a),
        catalogs_like(a, b),
    ensures
        catalog_wf(b),
{
    assert forall|i: int| 0 <= i < b.spec_cards().len() implies {
        &&& crate::matrix::grid_wf((#[trigger] b.spec_cards()[i]).squares@)
        &&& b.spec_cards()[i].squares@.len() * crate::matrix::grid_width(
            b.spec_cards()[i].squares@,
        ) <= usize::MAX
    } by {
        assert(crate::card::card_like(a.spec_cards()[i], b.spec_cards()[i]));
    }
}

/// Catalog likeness chains across a shared middle catalog.
proof fn lemma_catalogs_like_trans(
    a: CardSquareProviderImpl,
    b: CardSquareProviderImpl,
    c: CardSquareProviderImpl,
)
    requires
        catalogs_like(b, a),
        catalogs_like(b, c),
    ensures
        catalogs_like(a, c),
{
    assert forall|i: int| 0 <= i < a.spec_cards().len() implies crate::card::card_like(
        #[trigger] a.spec_cards()[i],
        c.spec_cards()[i],
    ) by {
        assert(crate::card::card_like(b.spec_cards()[i], a.spec_cards()[i]));
        assert(crate::card::card_like(b.spec_cards()[i], c.spec_cards()[i]));
    }
}

impl Room {
    /// Takes a player's move for the running turn: refused before a game
    /// starts or when the validator objects. Once both players have
    /// moved, the turn resolves at once: the moves and the score are
    /// broadcast, the match may end, and each player is owed their
    /// secretly drawn replacement card after the broadcasts.
    pub fn propose_move(&mut self, team: PlayerTeam, player_move: PlayerMove) -> (r: Result<
        ProposeMoveOutcome,
        SocketError,
    >)
        requires
            old(self).wf(),
        ensures
            final(self).wf(),
            final(self).users@ == old(self).users@,
            final(self).owner_id == old(self).owner_id,
            final(self).opponent_id == old(self).opponent_id,
            final(self).map == old(self).map,
            old(self).game_state is None ==> r is Err && r->Err_0 == SocketError::RoomNotStarted
                && *final(self) == *old(self),
            old(self).game_state is Some ==> {
                let g0 = old(self).game_state->0;
                &&& (g0.remaining_turns == 0 ==> r is Err && r->Err_0 == SocketError::GameError(
                    GameError::GameEnded,
                ) && *final(self) == *old(self))
                &&& (g0.remaining_turns > 0 ==> match validate_room_move(g0, team, player_move) {
                    Result::Err(e) => r is Err && r->Err_0 == SocketError::GameError(
                        GameError::InvalidMove(e),
                    ) && *final(self) == *old(self),
                    Result::Ok(()) => {
                        &&& r is Ok
                        &&& final(self).game_state is Some
                        &&& r->Ok_0.events@.len() >= 1
                        &&& r->Ok_0.events@[0] == (RoomEvent::MoveReceived {
                            team,
                            remaining_turns: g0.remaining_turns,
                        })
                        &&& (g0.next_moves.spec_get(team.other_spec()) is None ==> {
                            &&& r->Ok_0.events@.len() == 1
                            &&& final(self).game_state->0.next_moves.spec_get(team) == Some(
                                player_move,
                            )
                            &&& final(self).game_state->0.remaining_turns == g0.remaining_turns
                            &&& r->Ok_0.next_cards.alpha is None
                            &&& r->Ok_0.next_cards.bravo is None
                        })
                        &&& (g0.next_moves.spec_get(team.other_spec()) is Some ==> {
                            let g1 = final(self).game_state->0;
                            let amv = if team is Alpha {
                                player_move
                            } else {
                                g0.next_moves.alpha->0
                            };
                            let bmv = if team is Bravo {
                                player_move
                            } else {
                                g0.next_moves.bravo->0
                            };
                            &&& g1.remaining_turns == g0.remaining_turns - 1
                            &&& g1.next_moves.alpha is None
                            &&& g1.next_moves.bravo is None
                            &&& r->Ok_0.events@[1] matches RoomEvent::MovesApplied {
                                moves,
                                score,
                            } && moves.alpha == amv && moves.bravo == bmv && score.alpha
                                == spec_score(g1.board@, PlayerTeam::Alpha) && score.bravo
                                == spec_score(g1.board@, PlayerTeam::Bravo)
                            &&& (g1.remaining_turns == 0 ==> r->Ok_0.events@.len() == 3
                                && (r->Ok_0.events@[2] matches RoomEvent::EndGame { score }
                                && score.alpha == spec_score(g1.board@, PlayerTeam::Alpha)
                                && score.bravo == spec_score(g1.board@, PlayerTeam::Bravo)))
                            &&& (g1.remaining_turns > 0 ==> r->Ok_0.events@.len() == 2)
                            &&& unicast_ok(
                                r->Ok_0.next_cards.alpha,
                                g0.decks.alpha,
                                g1.decks.alpha,
                                amv.spec_card_name(),
                            )
                            &&& unicast_ok(
                                r->Ok_0.next_cards.bravo,
                                g0.decks.bravo,
                                g1.decks.bravo,
                                bmv.spec_card_name(),
                            )
                        })
                    }
                })
            },
    {
        let mut state = match self.game_state.take() {
            Some(g) => g,
            None => {
                return Err(SocketError::RoomNotStarted);
            }
        };
        let ghost g0 = old(self).game_state->0;
        let result = state.propose_move(team, player_move.duplicate());
        match result {
            Ok(()) => {
                let mut events: Vec<RoomEvent> = Vec::new();
                events.push(
                    RoomEvent::MoveReceived { team, remaining_turns: state.remaining_turns },
                );
                let mut next_cards: PerTeam<Option<RoomEvent>> = PerTeam::new(None, None);
                if state.all_players_have_moved() {
                    let moves = state.apply_moves();
                    let score = state.score();
                    let replacing_alpha = moves.applied_moves.alpha.card_name().clone();
                    let replacing_bravo = moves.applied_moves.bravo.card_name().clone();
                    events.push(
                        RoomEvent::MovesApplied {
                            moves: moves.applied_moves,
                            score: PerTeam::new(*score.get(&PlayerTeam::Alpha), *score.get(
                                &PlayerTeam::Bravo,
                            )),
                        },
                    );
                    if state.completed() {
                        let end_score = state.score();
                        events.push(RoomEvent::EndGame { score: end_score });
                    }
                    next_cards = PerTeam::new(
                        match moves.next_cards.alpha {
                            Some(c) => Some(
                                RoomEvent::NextCardDrawn {
                                    new_card: c,
                                    replacing: replacing_alpha,
                                },
                            ),
                            None => None,
                        },
                        match moves.next_cards.bravo {
                            Some(c) => Some(
                                RoomEvent::NextCardDrawn {
                                    new_card: c,
                                    replacing: replacing_bravo,
                                },
                            ),
                            None => None,
                        },
                    );
                }
                self.game_state = Some(state);
                Ok(ProposeMoveOutcome { events, next_cards })
            }
            Err(err) => {
                self.game_state = Some(state);
                Err(SocketError::GameError(err))
            }
        }
    }
}

/// The validator's verdict on a move, as the running match would judge it.
pub open spec fn validate_room_move(
    g: GameState,
    team: PlayerTeam,
    player_move: PlayerMove,
) -> Result<(), crate::move_validator::InvalidMoveError> {
    crate::move_validator::validate_spec(
        g.move_validator.card_provider,
        g.board@,
        g.spec_available_points(team),
        team,
        player_move,
        g.decks.spec_get(team),
    )
}

/// The secret message owed to one player after a turn: exactly when their
/// deck still had a card to draw, a NextCardDrawn naming the drawn card
/// and the card it replaces.
pub open spec fn unicast_ok(
    ev: Option<RoomEvent>,
    pre: crate::state::PlayerDeck,
    post: crate::state::PlayerDeck,
    played: Seq<char>,
) -> bool {
    match ev {
        Option::Some(e) => {
            &&& e matches RoomEvent::NextCardDrawn { new_card, replacing } && replacing@ == played
                && deck_drawn_ok(pre, post, played, Some(new_card))
        }
        Option::None => deck_drawn_ok(pre, post, played, Option::<String>::None),
    }
}

/// A room code has exactly four characters, each an uppercase letter or a
/// digit.
pub open spec fn code_alphabet() -> Seq<char> {
    seq![
        'A', 'B', 'C', 'D', 'E', 'F', 'G', 'H', 'I', 'J', 'K', 'L', 'M', 'N', 'O', 'P', 'Q', 'R',
        'S', 'T', 'U', 'V', 'W', 'X', 'Y', 'Z', '0', '1', '2', '3', '4', '5', '6', '7', '8', '9',
    ]
}

pub open spec fn is_room_code(code: Seq<char>) -> bool {
    &&& code.len() == 4
    &&& forall|i: int| 0 <= i < code.len() ==> code_alphabet().contains(#[trigger] code[i])
}

/// The character the code alphabet holds at the given place.
fn code_char(i: usize) -> (c: char)
    requires
        i < 36,
    ensures
        c == code_alphabet()[i as int],
{
    let c = match i {
        0 => 'A',
        1 => 'B',
        2 => 'C',
        3 => 'D',
        4 => 'E',
        5 => 'F',
        6 => 'G',
        7 => 'H',
        8 => 'I',
        9 => 'J',
        10 => 'K',
        11 => 'L',
        12 => 'M',
        13 => 'N',
        14 => 'O',
        15 => 'P',
        16 => 'Q',
        17 => 'R',
        18 => 'S',
        19 => 'T',
        20 => 'U',
        21 => 'V',
        22 => 'W',
        23 => 'X',
        24 => 'Y',
        25 => 'Z',
        26 => '0',
        27 => '1',
        28 => '2',
        29 => '3',
        30 => '4',
        31 => '5',
        32 => '6',
        33 => '7',
        34 => '8',
        _ => '9',
    };
    c
}

/// Draws a four-character room code uniformly; whether it is unique is the
/// caller's concern.
fn generate_room_code() -> (r: String)
    ensures
        is_room_code(r@),
{
    let mut code = String::new();
    let mut i: usize = 0;
    while i < 4
        invariant
            i <= 4,
            code@.len() == i,
            forall|j: int| 0 <= j < i ==> code_alphabet().contains(#[trigger] code@[j]),
        decreases 4 - i,
    {
        let k = crate::rng::random_index(36);
        let c = code_char(k);
        crate::strutil::push_char(&mut code, c);
        i = i + 1;
    }
    code
}

/// Whether some entry of the registry carries the given code.
pub open spec fn spec_has_code(rooms: Seq<(String, Room)>, code: Seq<char>) -> bool {
    exists|i: int| 0 <= i < rooms.len() && (#[trigger] rooms[i]).0@ == code
}

/// The registry of open rooms, looked up by their short codes.
pub struct SocketRoomStore {
    rooms: Vec<(String, Room)>,
}

impl SocketRoomStore {
    /// The registry's entries, in insertion order.
    pub closed spec fn spec_rooms(&self) -> Seq<(String, Room)> {
        self.rooms@
    }

    /// Codes are distinct room codes; every held room is well formed and
    /// lively.
    pub open spec fn wf(&self) -> bool {
        &&& forall|i: int, j: int|
            0 <= i < j < self.spec_rooms().len() ==> (#[trigger] self.spec_rooms()[i]).0@ != (
            #[trigger] self.spec_rooms()[j]).0@
        &&& forall|i: int|
            0 <= i < self.spec_rooms().len() ==> is_room_code(
                (#[trigger] self.spec_rooms()[i]).0@,
            )
        &&& forall|i: int|
            0 <= i < self.spec_rooms().len() ==> (#[trigger] self.spec_rooms()[i]).1.wf() && self.spec_rooms()[i].1.users@.len() > 0
    }

    /// An empty registry.
    pub fn new() -> (r: Self)
        ensures
            r.wf(),
            r.spec_rooms().len() == 0,
    {
        SocketRoomStore { rooms: Vec::new() }
    }

    fn contains_code(&self, code: &str) -> (r: bool)
        ensures
            r == spec_has_code(self.spec_rooms(), code@),
    {
        let mut i: usize = 0;
        while i < self.rooms.len()
            invariant
                i <= self.spec_rooms().len(),
                forall|j: int| 0 <= j < i ==> (#[trigger] self.spec_rooms()[j]).0@ != code@,
            decreases self.spec_rooms().len() - i,
        {
            if crate::strutil::str_eq(self.rooms[i].0.as_str(), code) {
                return true;
            }
            i = i + 1;
        }
        false
    }

    fn code_index(&self, code: &str) -> (r: Option<usize>)
        ensures
            r is None <==> !spec_has_code(self.spec_rooms(), code@),
            r is Some ==> r->0 < self.spec_rooms().len() && self.spec_rooms()[r->0 as int].0@
                == code@,
    {
        let mut i: usize = 0;
        while i < self.rooms.len()
            invariant
                i <= self.spec_rooms().len(),
                forall|j: int| 0 <= j < i ==> (#[trigger] self.spec_rooms()[j]).0@ != code@,
            decreases self.spec_rooms().len() - i,
        {
            if crate::strutil::str_eq(self.rooms[i].0.as_str(), code) {
                return Some(i);
            }
            i = i + 1;
        }
        None
    }

    /// Opens a room for the given connection under a freshly drawn code,
    /// retrying on collisions; gives up only when a bounded number of
    /// draws all collide, which a registry of realistic size never has.
    pub fn create(
        &mut self,
        conn_id: u128,
        card_provider: CardSquareProviderImpl,
        map_provider: MapProviderImpl,
    ) -> (r: Option<String>)
        requires
            old(self).wf(),
            catalog_wf(card_provider),
            map_catalog_wf(map_provider),
        ensures
            final(self).wf(),
            r is None ==> *final(self) == *old(self),
            r is Some ==> {
                &&& is_room_code(r->0@)
                &&& !spec_has_code(old(self).spec_rooms(), r->0@)
                &&& final(self).spec_rooms().len() == old(self).spec_rooms().len() + 1
                &&& forall|i: int|
                    0 <= i < old(self).spec_rooms().len() ==> #[trigger] final(self).spec_rooms()[i] == old(self).spec_rooms()[i]
                &&& final(self).spec_rooms().last().0@ == r->0@
                &&& final(self).spec_rooms().last().1.owner_id == conn_id
                &&& final(self).spec_rooms().last().1.users@.len() == 1
                &&& final(self).spec_rooms().last().1.game_state is None
            },
    {
        let mut attempts: usize = 0;
        while attempts < 10000
            invariant
                self.wf(),
                *self == *old(self),
                catalog_wf(card_provider),
                map_catalog_wf(map_provider),
            decreases 10000 - attempts,
        {
            let code = generate_room_code();
            if !self.contains_code(code.as_str()) {
                let room = Room::new(conn_id, card_provider, map_provider);
                let announced = code.clone();
                let ghost pre = self.rooms@;
                self.rooms.push((code, room));
                proof {
                    assert forall|i: int, j: int|
                        0 <= i < j < self.spec_rooms().len() implies (
                    #[trigger] self.spec_rooms()[i]).0@ != (#[trigger] self.spec_rooms()[j]).0@ by {
                        if j < self.spec_rooms().len() - 1 {
                            assert(self.spec_rooms()[i] == pre[i]);
                            assert(self.spec_rooms()[j] == pre[j]);
                        } else {
                            assert(self.spec_rooms()[i] == pre[i]);
                        }
                    }
                }
                return Some(announced);
            }
            attempts = attempts + 1;
        }
        None
    }

    /// Joins the given user to the room under the code, if one is open and
    /// the user is a stranger to it: the entry is replaced by the room with
    /// the user added, the announced events are returned, and every other
    /// entry stands untouched.
    pub fn get_and_join_if_exists(&mut self, room_code: &str, conn_id: u128) -> (r: Option<
        Vec<RoomEvent>,
    >)
        requires
            old(self).wf(),
        ensures
            final(self).wf(),
            r is None ==> final(self).spec_rooms() == old(self).spec_rooms(),
            !spec_has_code(old(self).spec_rooms(), room_code@) ==> r is None,
            forall|i: int|
                0 <= i < old(self).spec_rooms().len() && (#[trigger] old(self).spec_rooms()[i]).0@ == room_code@ ==> {
                    let pre = old(self).spec_rooms()[i].1;
                    if !spec_has_user(pre.users@, conn_id) && pre.join_seq < u64::MAX {
                        &&& r is Some
                        &&& final(self).spec_rooms().len() == old(self).spec_rooms().len()
                        &&& (forall|j: int|
                            0 <= j < old(self).spec_rooms().len() && j != i ==> #[trigger] final(self).spec_rooms()[j] == old(self).spec_rooms()[j])
                        &&& final(self).spec_rooms()[i].0 == old(self).spec_rooms()[i].0
                        &&& user_added_ok(pre, final(self).spec_rooms()[i].1, conn_id, r->0@)
                    } else {
                        r is None
                    }
                },
    {
        let at = self.code_index(room_code);
        let i = match at {
            Some(i) => i,
            None => {
                return None;
            }
        };
        proof {
            lemma_code_unique(self.rooms@, room_code@, i as int);
        }
        let ghost pre = self.rooms@;
        let (code, mut room) = self.rooms.remove(i);
        if room.has_user(conn_id) || room.join_seq == u64::MAX {
            self.rooms.insert(i, (code, room));
            proof {
                assert(self.rooms@ =~= pre);
            }
            return None;
        }
        let events = room.add_user(conn_id);
        let ghost joined = room;
        self.rooms.insert(i, (code, room));
        proof {
            assert(self.rooms@ =~= pre.update(i as int, (pre[i as int].0, joined)));
            assert forall|a: int, b: int| 0 <= a < b < self.rooms@.len() implies (
            #[trigger] self.rooms@[a]).0@ != (#[trigger] self.rooms@[b]).0@ by {
                assert(self.rooms@[a].0 == pre[a].0 && self.rooms@[b].0 == pre[b].0);
            }
            assert forall|a: int| 0 <= a < self.rooms@.len() implies is_room_code(
                (#[trigger] self.rooms@[a]).0@,
            ) && self.rooms@[a].1.wf() && self.rooms@[a].1.users@.len() > 0 by {
                if a != i {
                    assert(self.rooms@[a] == pre[a]);
                }
            }
        }
        Some(events)
    }

    /// A look at the room under the given code.
    pub fn get(&self, room_code: &str) -> (r: Option<&Room>)
        ensures
            r is Some <==> spec_has_code(self.spec_rooms(), room_code@),
            r is Some ==> exists|i: int|
                0 <= i < self.spec_rooms().len() && (#[trigger] self.spec_rooms()[i]).0@
                    == room_code@ && r->0 == &self.spec_rooms()[i].1,
    {
        let at = self.code_index(room_code);
        match at {
            Some(i) => {
                proof {
                    assert(self.spec_rooms()[i as int].0@ == room_code@);
                }
                Some(&self.rooms[i].1)
            }
            None => None,
        }
    }

    /// Takes the room under the code out of the registry, to be put back
    /// with `put_room` once an action has run against it.
    pub fn take_room(&mut self, room_code: &str) -> (r: Option<(String, Room)>)
        requires
            old(self).wf(),
        ensures
            final(self).wf(),
            r is None ==> *final(self) == *old(self) && !spec_has_code(
                old(self).spec_rooms(),
                room_code@,
            ),
            r is Some ==> {
                &&& (r matches Some((c, rm)) && c@ == room_code@ && is_room_code(c@) && rm.wf()
                    && rm.users@.len() > 0)
                &&& !spec_has_code(final(self).spec_rooms(), room_code@)
                &&& final(self).spec_rooms().len() == old(self).spec_rooms().len() - 1
            },
    {
        let at = self.code_index(room_code);
        let i = match at {
            Some(i) => i,
            None => {
                return None;
            }
        };
        let ghost pre = self.rooms@;
        let entry = self.rooms.remove(i);
        proof {
            lemma_rooms_remove(pre, i as int);
        }
        Some(entry)
    }

    /// Puts a room taken with `take_room` back under its code.
    pub fn put_room(&mut self, code: String, room: Room)
        requires
            old(self).wf(),
            !spec_has_code(old(self).spec_rooms(), code@),
            is_room_code(code@),
            room.wf(),
            room.users@.len() > 0,
        ensures
            final(self).wf(),
            final(self).spec_rooms().len() == old(self).spec_rooms().len() + 1,
            spec_has_code(final(self).spec_rooms(), code@),
            forall|i: int|
                0 <= i < old(self).spec_rooms().len() ==> #[trigger] final(self).spec_rooms()[i]
                    == old(self).spec_rooms()[i],
    {
        let ghost pre = self.rooms@;
        self.rooms.push((code, room));
        proof {
            assert forall|a: int, b: int| 0 <= a < b < self.rooms@.len() implies (
            #[trigger] self.rooms@[a]).0@ != (#[trigger] self.rooms@[b]).0@ by {
                if b < self.rooms@.len() - 1 {
                    assert(self.rooms@[a] == pre[a]);
                    assert(self.rooms@[b] == pre[b]);
                } else {
                    assert(self.rooms@[a] == pre[a]);
                }
            }
            assert(self.rooms@.last().0@ == code@);
        }
    }

    /// Removes the user from the room under the code and hands back what
    /// the room announced; a room left with no members is evicted from the
    /// registry, and every other entry stands untouched. An unknown code
    /// changes nothing.
    pub fn remove_user_from_room(&mut self, room_code: &str, conn_id: u128) -> (r: Vec<RoomEvent>)
        requires
            old(self).wf(),
        ensures
            final(self).wf(),
            !spec_has_code(old(self).spec_rooms(), room_code@) ==> *final(self) == *old(self)
                && r@.len() == 0,
            forall|i: int|
                0 <= i < old(self).spec_rooms().len() && (#[trigger] old(self).spec_rooms()[i]).0@ == room_code@ ==> exists|post: Room|
                    #![auto]
                    {
                        &&& user_removal_ok(old(self).spec_rooms()[i].1, post, conn_id, r@)
                        &&& (post.users@.len() > 0 ==> {
                            &&& final(self).spec_rooms().len() == old(self).spec_rooms().len()
                            &&& (forall|j: int|
                                0 <= j < old(self).spec_rooms().len() && j != i
                                    ==> #[trigger] final(self).spec_rooms()[j] == old(self).spec_rooms()[j])
                            &&& final(self).spec_rooms()[i].0 == old(self).spec_rooms()[i].0
                            &&& final(self).spec_rooms()[i].1 == post
                        })
                        &&& (post.users@.len() == 0 ==> final(self).spec_rooms() == old(self).spec_rooms().remove(i))
                    },
    {
        let at = self.code_index(room_code);
        let i = match at {
            Some(i) => i,
            None => {
                let events: Vec<RoomEvent> = Vec::new();
                return events;
            }
        };
        proof {
            lemma_code_unique(self.rooms@, room_code@, i as int);
        }
        let ghost pre = self.rooms@;
        let (code, mut room) = self.rooms.remove(i);
        proof {
            lemma_rooms_remove(pre, i as int);
        }
        let events = room.remove_user(conn_id);
        let ghost post = room;
        if room.users.len() > 0 {
            self.rooms.insert(i, (code, room));
            proof {
                assert(self.rooms@ =~= pre.update(i as int, (pre[i as int].0, post)));
            }
            proof {
                assert forall|a: int, b: int| 0 <= a < b < self.rooms@.len() implies (
                #[trigger] self.rooms@[a]).0@ != (#[trigger] self.rooms@[b]).0@ by {
                    assert(self.rooms@[a].0 == pre[a].0 && self.rooms@[b].0 == pre[b].0);
                }
                assert forall|a: int| 0 <= a < self.rooms@.len() implies is_room_code(
                    (#[trigger] self.rooms@[a]).0@,
                ) && self.rooms@[a].1.wf() && self.rooms@[a].1.users@.len() > 0 by {
                    if a != i {
                        assert(self.rooms@[a] == pre[a]);
                    }
                }
                assert(spec_has_code(self.rooms@, room_code@)) by {
                    assert(self.rooms@[i as int].0@ == room_code@);
                }
            }
        }
        events
    }
}


/// Under distinct codes, at most one registry entry carries a given code.
proof fn lemma_code_unique(rooms: Seq<(String, Room)>, code: Seq<char>, i: int)
    requires
        0 <= i < rooms.len(),
        rooms[i].0@ == code,
        forall|a: int, b: int|
            0 <= a < b < rooms.len() ==> (#[trigger] rooms[a]).0@ != (#[trigger] rooms[b]).0@,
    ensures
        forall|k: int| 0 <= k < rooms.len() && (#[trigger] rooms[k]).0@ == code ==> k == i,
{
}

/// Removing a registry entry keeps the other codes apart and their rooms
/// sound, and drops the removed code.
proof fn lemma_rooms_remove(rooms: Seq<(String, Room)>, i: int)
    requires
        0 <= i < rooms.len(),
        forall|a: int, b: int|
            0 <= a < b < rooms.len() ==> (#[trigger] rooms[a]).0@ != (#[trigger] rooms[b]).0@,
        forall|a: int| 0 <= a < rooms.len() ==> is_room_code((#[trigger] rooms[a]).0@),
        forall|a: int|
            0 <= a < rooms.len() ==> (#[trigger] rooms[a]).1.wf() && rooms[a].1.users@.len() > 0,
    ensures
        forall|a: int, b: int|
            0 <= a < b < rooms.remove(i).len() ==> (#[trigger] rooms.remove(i)[a]).0@ != (
            #[trigger] rooms.remove(i)[b]).0@,
        forall|a: int|
            0 <= a < rooms.remove(i).len() ==> is_room_code((#[trigger] rooms.remove(i)[a]).0@),
        forall|a: int|
            0 <= a < rooms.remove(i).len() ==> (#[trigger] rooms.remove(i)[a]).1.wf()
                && rooms.remove(i)[a].1.users@.len() > 0,
        !spec_has_code(rooms.remove(i), rooms[i].0@),
        forall|c: Seq<char>|
            spec_has_code(rooms.remove(i), c) <==> (spec_has_code(rooms, c) && c != rooms[i].0@),
{
    let r = rooms.remove(i);
    assert forall|a: int, b: int| 0 <= a < b < r.len() implies (#[trigger] r[a]).0@ != (
    #[trigger] r[b]).0@ by {
        let sa = if a < i {
            a
        } else {
            a + 1
        };
        let sb = if b < i {
            b
        } else {
            b + 1
        };
        assert(r[a] == rooms[sa] && r[b] == rooms[sb]);
    }
    assert forall|a: int| 0 <= a < r.len() implies is_room_code((#[trigger] r[a]).0@) && r[a].1.wf()
        && r[a].1.users@.len() > 0 by {
        let sa = if a < i {
            a
        } else {
            a + 1
        };
        assert(r[a] == rooms[sa]);
    }
    assert forall|c: Seq<char>| spec_has_code(r, c) implies (spec_has_code(rooms, c) && c
        != rooms[i].0@) by {
        let j = choose|j: int| 0 <= j < r.len() && (#[trigger] r[j]).0@ == c;
        let sj = if j < i {
            j
        } else {
            j + 1
        };
        assert(r[j] == rooms[sj]);
    }
    assert forall|c: Seq<char>| spec_has_code(rooms, c) && c != rooms[i].0@ implies spec_has_code(
        r,
        c,
    ) by {
        let j = choose|j: int| 0 <= j < rooms.len() && (#[trigger] rooms[j]).0@ == c;
        let rj = if j < i {
            j
        } else {
            j - 1
        };
        assert(r[rj] == rooms[j]);
    }
}

} // verus!
