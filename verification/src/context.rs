//! The registry of rooms and clients: which client plays in which room, and
//! the lifecycle of both.

use vstd::prelude::*;

use crate::assoc::{
    TextKey,     distinct_keys, entries_map, find_key, lemma_entries_dom, lemma_entries_finite, lemma_entries_index,
    lemma_entries_push, lemma_entries_remove, lemma_entries_update,
};
use crate::error::AppError;
use crate::event::{player_data, PlayerData, RoomEvent, RoundStartData};
use crate::geo::{Coordinates, Location};
use crate::handle::{self, new_session, Handle};
use crate::colors::{DistinctColors, PlayerColor, MAX_DISTINCT_TRIES};
use crate::room::{
    self, allowed_chars, guess_submitted, member_recolored, member_joined, member_removed, member_renamed, ready_submitted,
    room_opened, round_started, MemberAttributes, PlayerGuess, Room,
};
use crate::name_gen::NameGenerator;
use crate::srgb::Srgb8;

verus! {

/// Every room is well formed.
pub open spec fn rooms_wf(rooms: Map<Seq<char>, Room>) -> bool {
    forall|r: Seq<char>| #[trigger] rooms.contains_key(r) ==> rooms[r].wf()
}

/// Every client is a member of the room its handle names, under the
/// handle's username.
pub open spec fn clients_placed(rooms: Map<Seq<char>, Room>, clients: Map<Seq<char>, Handle>) -> bool {
    forall|c: Seq<char>| #[trigger]
        clients.contains_key(c) ==> {
            let r = clients[c].room@;
            &&& rooms.contains_key(r)
            &&& rooms[r].member_map().contains_key(c)
            &&& rooms[r].member_map()[c].username == clients[c].username
        }
}

/// Every member of a room is a client whose handle names that room.
pub open spec fn members_registered(
    rooms: Map<Seq<char>, Room>,
    clients: Map<Seq<char>, Handle>,
) -> bool {
    forall|r: Seq<char>, c: Seq<char>|
        rooms.contains_key(r) && #[trigger] rooms[r].member_map().contains_key(c) ==> {
            &&& clients.contains_key(c)
            &&& clients[c].room@ == r
        }
}

/// `rooms2` is `rooms` after client `c` left room `r`: the room is dropped if
/// no member remains, and otherwise only loses that member.
pub open spec fn rooms_after_leave(
    rooms: Map<Seq<char>, Room>,
    r: Seq<char>,
    c: Seq<char>,
    rooms2: Map<Seq<char>, Room>,
) -> bool {
    if rooms[r].member_map().remove(c) == Map::<Seq<char>, MemberAttributes>::empty() {
        rooms2 == rooms.remove(r)
    } else {
        &&& rooms2 == rooms.insert(r, rooms2[r])
        &&& member_removed(rooms[r], rooms2[r], c)
    }
}

/// `rooms2` and `clients2` are the registry `rooms`, `clients` after client
/// `c` was removed: its handle is gone, and it left its room.
pub open spec fn client_removed(
    rooms: Map<Seq<char>, Room>,
    clients: Map<Seq<char>, Handle>,
    rooms2: Map<Seq<char>, Room>,
    clients2: Map<Seq<char>, Handle>,
    c: Seq<char>,
) -> bool {
    if !clients.contains_key(c) {
        rooms2 == rooms && clients2 == clients
    } else {
        &&& clients2 == clients.remove(c)
        &&& rooms_after_leave(rooms, clients[c].room@, c, rooms2)
    }
}

/// A room has no members exactly when its member map is empty.
proof fn lemma_empty_members(room: Room)
    requires
        room.wf(),
    ensures
        (room.members@.len() == 0) <==> room.member_map() == Map::<Seq<char>, MemberAttributes>::empty(),
{
    if room.members@.len() == 0 {
        assert(room.member_map() =~= Map::<Seq<char>, MemberAttributes>::empty());
    } else {
        lemma_entries_index(room.members@, 0);
        assert(!Map::<Seq<char>, MemberAttributes>::empty().contains_key(room.members@[0].0@));
    }
}

/// Removing a client keeps clients and room members in agreement.
proof fn lemma_removal_wf(
    rooms: Map<Seq<char>, Room>,
    clients: Map<Seq<char>, Handle>,
    rooms2: Map<Seq<char>, Room>,
    clients2: Map<Seq<char>, Handle>,
    c: Seq<char>,
)
    requires
        rooms_wf(rooms),
        clients_placed(rooms, clients),
        members_registered(rooms, clients),
        client_removed(rooms, clients, rooms2, clients2, c),
    ensures
        rooms_wf(rooms2),
        clients_placed(rooms2, clients2),
        members_registered(rooms2, clients2),
{
    if clients.contains_key(c) {
        let r = clients[c].room@;
        let kept = rooms[r].member_map().remove(c) != Map::<Seq<char>, MemberAttributes>::empty();
        assert forall|r2: Seq<char>| #[trigger] rooms2.contains_key(r2) implies rooms2[r2].wf() by {
            if r2 != r {
                assert(rooms.contains_key(r2));
            }
        }
        assert forall|c2: Seq<char>| #[trigger] clients2.contains_key(c2) implies ({
            let r2 = clients2[c2].room@;
            &&& rooms2.contains_key(r2)
            &&& rooms2[r2].member_map().contains_key(c2)
            &&& rooms2[r2].member_map()[c2].username == clients2[c2].username
        }) by {
            assert(clients.contains_key(c2));
            assert(c2 != c);
            let r2 = clients[c2].room@;
            if r2 == r {
                assert(rooms[r].member_map().remove(c).contains_key(c2));
                assert(kept);
            }
        }
        assert forall|r2: Seq<char>, c2: Seq<char>|
            rooms2.contains_key(r2) && #[trigger] rooms2[r2].member_map().contains_key(c2) implies {
            &&& clients2.contains_key(c2)
            &&& clients2[c2].room@ == r2
        } by {
            if r2 == r {
                assert(kept);
                assert(rooms[r].member_map().contains_key(c2));
                assert(c2 != c);
            } else {
                assert(rooms.contains_key(r2));
                assert(rooms2[r2] == rooms[r2]);
                assert(rooms[r2].member_map().contains_key(c2));
                if c2 == c {
                    assert(clients[c].room@ == r2);
                }
            }
        }
    }
}

/// Replacing a room by one with the same roster keeps the registry in agreement.
proof fn lemma_room_update_wf(
    rooms: Map<Seq<char>, Room>,
    clients: Map<Seq<char>, Handle>,
    r: Seq<char>,
    room2: Room,
)
    requires
        rooms_wf(rooms),
        clients_placed(rooms, clients),
        members_registered(rooms, clients),
        rooms.contains_key(r),
        room2.wf(),
        room2.member_map().dom() == rooms[r].member_map().dom(),
        forall|k: Seq<char>| #[trigger]
            rooms[r].member_map().contains_key(k) ==> room2.member_map()[k].username
                == rooms[r].member_map()[k].username,
    ensures
        rooms_wf(rooms.insert(r, room2)),
        clients_placed(rooms.insert(r, room2), clients),
        members_registered(rooms.insert(r, room2), clients),
{
    let rooms2 = rooms.insert(r, room2);
    assert forall|c: Seq<char>| #[trigger] clients.contains_key(c) implies ({
        let r2 = clients[c].room@;
        &&& rooms2.contains_key(r2)
        &&& rooms2[r2].member_map().contains_key(c)
        &&& rooms2[r2].member_map()[c].username == clients[c].username
    }) by {
        if clients[c].room@ == r {
            assert(rooms[r].member_map().contains_key(c));
        }
    }
    assert forall|r2: Seq<char>, c: Seq<char>|
        rooms2.contains_key(r2) && #[trigger] rooms2[r2].member_map().contains_key(c) implies {
        &&& clients.contains_key(c)
        &&& clients[c].room@ == r2
    } by {
        if r2 == r {
            assert(rooms[r].member_map().contains_key(c));
        } else {
            assert(rooms[r2].member_map().contains_key(c));
        }
    }
}

/// Adding a new room whose only member is a new client keeps the registry in
/// agreement.
proof fn lemma_insert_wf(
    rooms: Map<Seq<char>, Room>,
    clients: Map<Seq<char>, Handle>,
    r: Seq<char>,
    room: Room,
    c: Seq<char>,
    h: Handle,
)
    requires
        rooms_wf(rooms),
        clients_placed(rooms, clients),
        members_registered(rooms, clients),
        !rooms.contains_key(r),
        !clients.contains_key(c),
        room.wf(),
        room.member_map().dom() == set![c],
        room.member_map()[c].username == h.username,
        h.room@ == r,
    ensures
        rooms_wf(rooms.insert(r, room)),
        clients_placed(rooms.insert(r, room), clients.insert(c, h)),
        members_registered(rooms.insert(r, room), clients.insert(c, h)),
{
    let rooms2 = rooms.insert(r, room);
    let clients2 = clients.insert(c, h);
    assert(room.member_map().contains_key(c));
    assert forall|c2: Seq<char>| #[trigger] clients2.contains_key(c2) implies ({
        let r2 = clients2[c2].room@;
        &&& rooms2.contains_key(r2)
        &&& rooms2[r2].member_map().contains_key(c2)
        &&& rooms2[r2].member_map()[c2].username == clients2[c2].username
    }) by {
        if c2 != c {
            assert(clients.contains_key(c2));
            assert(rooms.contains_key(clients[c2].room@));
        }
    }
    assert forall|r2: Seq<char>, c2: Seq<char>|
        rooms2.contains_key(r2) && #[trigger] rooms2[r2].member_map().contains_key(c2) implies {
        &&& clients2.contains_key(c2)
        &&& clients2[c2].room@ == r2
    } by {
        if r2 == r {
            assert(room.member_map().dom().contains(c2));
        } else {
            assert(rooms[r2].member_map().contains_key(c2));
        }
    }
}

/// Renaming a client in its handle and in its room keeps the registry in
/// agreement.
proof fn lemma_rename_wf(
    rooms: Map<Seq<char>, Room>,
    clients: Map<Seq<char>, Handle>,
    c: Seq<char>,
    room2: Room,
    h2: Handle,
)
    requires
        rooms_wf(rooms),
        clients_placed(rooms, clients),
        members_registered(rooms, clients),
        clients.contains_key(c),
        h2.room@ == clients[c].room@,
        room2.wf(),
        room2.member_map() == rooms[clients[c].room@].member_map().insert(
            c,
            MemberAttributes { username: h2.username, ..rooms[clients[c].room@].member_map()[c] },
        ),
    ensures
        rooms_wf(rooms.insert(clients[c].room@, room2)),
        clients_placed(rooms.insert(clients[c].room@, room2), clients.insert(c, h2)),
        members_registered(rooms.insert(clients[c].room@, room2), clients.insert(c, h2)),
{
    let r = clients[c].room@;
    let rooms2 = rooms.insert(r, room2);
    let clients2 = clients.insert(c, h2);
    assert forall|c2: Seq<char>| #[trigger] clients2.contains_key(c2) implies ({
        let r2 = clients2[c2].room@;
        &&& rooms2.contains_key(r2)
        &&& rooms2[r2].member_map().contains_key(c2)
        &&& rooms2[r2].member_map()[c2].username == clients2[c2].username
    }) by {
        if c2 != c {
            assert(clients.contains_key(c2));
            if clients[c2].room@ == r {
                assert(rooms[r].member_map().contains_key(c2));
            }
        } else {
            assert(rooms[r].member_map().contains_key(c));
        }
    }
    assert forall|r2: Seq<char>, c2: Seq<char>|
        rooms2.contains_key(r2) && #[trigger] rooms2[r2].member_map().contains_key(c2) implies {
        &&& clients2.contains_key(c2)
        &&& clients2[c2].room@ == r2
    } by {
        if r2 == r {
            if c2 != c {
                assert(rooms[r].member_map().contains_key(c2));
            }
        } else {
            assert(rooms[r2].member_map().contains_key(c2));
        }
    }
}

/// Moving a client from room `r` to another room `t` keeps the registry in
/// agreement.
proof fn lemma_move_wf(
    rooms: Map<Seq<char>, Room>,
    clients: Map<Seq<char>, Handle>,
    c: Seq<char>,
    t: Seq<char>,
    rooms_mid: Map<Seq<char>, Room>,
    room_t2: Room,
    srgb: Srgb8,
    h2: Handle,
)
    requires
        rooms_wf(rooms),
        clients_placed(rooms, clients),
        members_registered(rooms, clients),
        clients.contains_key(c),
        clients[c].room@ != t,
        rooms.contains_key(t),
        rooms_after_leave(rooms, clients[c].room@, c, rooms_mid),
        member_joined(rooms[t], room_t2, c, clients[c].username, srgb),
        h2.room@ == t,
        h2.username == clients[c].username,
    ensures
        rooms_wf(rooms_mid.insert(t, room_t2)),
        clients_placed(rooms_mid.insert(t, room_t2), clients.insert(c, h2)),
        members_registered(rooms_mid.insert(t, room_t2), clients.insert(c, h2)),
{
    let r = clients[c].room@;
    let rooms2 = rooms_mid.insert(t, room_t2);
    let clients2 = clients.insert(c, h2);
    let kept = rooms[r].member_map().remove(c) != Map::<Seq<char>, MemberAttributes>::empty();
    assert(!rooms[t].member_map().contains_key(c));
    assert forall|r2: Seq<char>| #[trigger] rooms2.contains_key(r2) implies rooms2[r2].wf() by {
        if r2 != t && r2 != r {
            assert(rooms.contains_key(r2));
        }
    }
    assert forall|c2: Seq<char>| #[trigger] clients2.contains_key(c2) implies ({
        let r2 = clients2[c2].room@;
        &&& rooms2.contains_key(r2)
        &&& rooms2[r2].member_map().contains_key(c2)
        &&& rooms2[r2].member_map()[c2].username == clients2[c2].username
    }) by {
        if c2 != c {
            assert(clients.contains_key(c2));
            let r2 = clients[c2].room@;
            assert(rooms[r2].member_map().contains_key(c2));
            if r2 == r {
                assert(rooms[r].member_map().remove(c).contains_key(c2));
                assert(kept);
            }
        }
    }
    assert forall|r2: Seq<char>, c2: Seq<char>|
        rooms2.contains_key(r2) && #[trigger] rooms2[r2].member_map().contains_key(c2) implies {
        &&& clients2.contains_key(c2)
        &&& clients2[c2].room@ == r2
    } by {
        if r2 == t {
            if c2 != c {
                assert(rooms[t].member_map().contains_key(c2));
            }
        } else if r2 == r {
            assert(kept);
            assert(rooms[r].member_map().contains_key(c2));
            assert(c2 != c);
        } else {
            assert(rooms.contains_key(r2));
            assert(rooms[r2].member_map().contains_key(c2));
            if c2 == c {
                assert(clients[c].room@ == r2);
            }
        }
    }
}

/// Replacing a client's handle by one naming the same room under the same
/// name keeps the registry in agreement.
proof fn lemma_client_update_wf(
    rooms: Map<Seq<char>, Room>,
    clients: Map<Seq<char>, Handle>,
    c: Seq<char>,
    h2: Handle,
)
    requires
        clients_placed(rooms, clients),
        members_registered(rooms, clients),
        clients.contains_key(c),
        h2.room@ == clients[c].room@,
        h2.username == clients[c].username,
    ensures
        clients_placed(rooms, clients.insert(c, h2)),
        members_registered(rooms, clients.insert(c, h2)),
{
    let clients2 = clients.insert(c, h2);
    assert forall|c2: Seq<char>| #[trigger] clients2.contains_key(c2) implies ({
        let r2 = clients2[c2].room@;
        &&& rooms.contains_key(r2)
        &&& rooms[r2].member_map().contains_key(c2)
        &&& rooms[r2].member_map()[c2].username == clients2[c2].username
    }) by {
        assert(clients.contains_key(c2));
    }
    assert forall|r2: Seq<char>, c2: Seq<char>|
        rooms.contains_key(r2) && #[trigger] rooms[r2].member_map().contains_key(c2) implies {
        &&& clients2.contains_key(c2)
        &&& clients2[c2].room@ == r2
    } by {
        assert(clients.contains_key(c2));
    }
}

/// What [`Model::connect`] gives: the room joined, the event that starts the
/// stream, the stream's session, and whether a scheduled cleanup of the room
/// was called off.
pub struct Connected {
    pub room_id: room::Id,
    pub initial: RoomEvent,
    pub session: u128,
    pub had_cleanup: bool,
}

/// What [`Model::disconnect`] gives: the room the client left and the event
/// announcing it, if the client was removed, and whether the room is idle.
pub struct Disconnected {
    pub left: Option<(room::Id, RoomEvent)>,
    pub idle: bool,
}

/// What [`Model::create_room`] gives: the new room, the client's name and
/// color, and the room the client left with the event announcing it, if it
/// was in one.
pub struct Created {
    pub room_id: room::Id,
    pub username: String,
    pub color: PlayerColor,
    pub left: Option<(room::Id, RoomEvent)>,
}

/// The event stream `session` of room `r` is client `c`'s current one.
pub open spec fn stream_is_current(
    clients: Map<Seq<char>, Handle>,
    c: Seq<char>,
    r: Seq<char>,
    session: u128,
) -> bool {
    &&& clients.contains_key(c)
    &&& clients[c].room@ == r
    &&& clients[c].session == Some(session)
}

/// The rooms after an event stream of room `r` closed.
pub open spec fn stream_closed(rooms: Map<Seq<char>, Room>, r: Seq<char>) -> Map<Seq<char>, Room> {
    if rooms.contains_key(r) {
        let room = rooms[r];
        rooms.insert(
            r,
            Room {
                active_connections: if room.active_connections == 0 {
                    0
                } else {
                    (room.active_connections - 1) as usize
                },
                ..room
            },
        )
    } else {
        rooms
    }
}

/// The clients that play outside room `r`.
pub open spec fn clients_outside(clients: Map<Seq<char>, Handle>, r: Seq<char>) -> Map<Seq<char>, Handle> {
    Map::new(|k: Seq<char>| clients.contains_key(k) && clients[k].room@ != r, |k: Seq<char>| clients[k])
}

/// What [`Model::move_client_to_room`] gives: the moved client as its new
/// room shows it, and the events announcing its arrival and its departure
/// from its former room (none if it was already in the room).
pub struct Moved {
    pub player: PlayerData,
    pub joined: Option<RoomEvent>,
    pub left: Option<(room::Id, RoomEvent)>,
}

/// The username a new client asked for, if it asked for a non-empty one.
pub open spec fn wanted_name(requested: Option<String>) -> Option<String> {
    match requested {
        Some(n) => if n@.len() > 0 {
            Some(n)
        } else {
            None
        },
        None => None,
    }
}

/// Every non-empty name a client asks for is kept, whatever its length or
/// characters; only an empty name, or none, leaves the name to be generated.
pub proof fn lemma_requested_name_kept(n: String)
    ensures
        n@.len() > 0 ==> wanted_name(Some(n)) == Some(n),
        n@.len() == 0 ==> wanted_name(Some(n)) is None,
        wanted_name(None) is None,
{
}

/// The username a new client asked for, if it asked for a non-empty one;
/// otherwise a name is to be generated.
pub fn requested_username(requested: Option<String>) -> (r: Option<String>)
    ensures
        r == wanted_name(requested),
{
    match requested {
        Some(n) => if n.as_str().is_empty() {
            None
        } else {
            Some(n)
        },
        None => None,
    }
}

/// A text of the form that random room identifiers have: [`room::ROOM_ID_LENGTH`]
/// allowed characters.
pub open spec fn drawable_room_id(k: Seq<char>) -> bool {
    &&& k.len() == room::ROOM_ID_LENGTH
    &&& forall|i: int| 0 <= i < room::ROOM_ID_LENGTH ==> allowed_chars().contains(#[trigger] k[i])
}

/// Every identifier of the drawn form is taken by some room.
pub open spec fn all_room_ids_in_use(rooms: Map<Seq<char>, Room>) -> bool {
    forall|k: Seq<char>| drawable_room_id(k) ==> #[trigger] rooms.contains_key(k)
}

/// Some client goes by `n`.
pub open spec fn name_in_use(clients: Map<Seq<char>, Handle>, n: Seq<char>) -> bool {
    exists|c: Seq<char>| #[trigger] clients.contains_key(c) && clients[c].username@ == n
}

/// `n` is an adjective and a noun of the word lists joined by a hyphen.
pub open spec fn generated_form(words: (Seq<Seq<char>>, Seq<Seq<char>>), n: Seq<char>) -> bool {
    exists|i: int, j: int|
        0 <= i < words.0.len() && 0 <= j < words.1.len() && n == #[trigger] words.0[i] + seq!['-']
            + #[trigger] words.1[j]
}

/// Every name of the generated form is taken: for each adjective and noun of
/// the word lists, some client goes by their hyphenated join.
pub open spec fn all_generated_names_in_use(
    clients: Map<Seq<char>, Handle>,
    words: (Seq<Seq<char>>, Seq<Seq<char>>),
) -> bool {
    forall|i: int, j: int|
        0 <= i < words.0.len() && 0 <= j < words.1.len() ==> name_in_use(
            clients,
            #[trigger] words.0[i] + seq!['-'] + #[trigger] words.1[j],
        )
}

/// Why [`Model::create_room`] opened no room.
#[derive(Debug, Clone, Copy, PartialEq, Eq, Structural)]
pub enum CreateError {
    /// Every name of the generated form is taken.
    NoFreeName,
    /// Every room identifier of the drawn form is taken.
    NoFreeRoomId,
}

/// How many names [`Model::generate_unique_name`] draws at most.
pub const NAME_TRIES: usize = 32;

/// How many identifiers [`Model::fresh_room_id`] draws at most.
pub const ROOM_ID_TRIES: usize = 64;

/// All rooms and the clients playing in them.
pub struct Model {
    pub rooms: Vec<(room::Id, Room)>,
    pub clients: Vec<(handle::Id, Handle)>,
}

impl Model {
    /// The rooms by identifier.
    pub open spec fn room_map(&self) -> Map<Seq<char>, Room> {
        entries_map(self.rooms@)
    }

    /// The clients' handles by identifier.
    pub open spec fn client_map(&self) -> Map<Seq<char>, Handle> {
        entries_map(self.clients@)
    }

    /// No identifier twice, every room well formed, and clients and room
    /// members in agreement.
    pub open spec fn wf(&self) -> bool {
        &&& distinct_keys(self.rooms@)
        &&& distinct_keys(self.clients@)
        &&& rooms_wf(self.room_map())
        &&& clients_placed(self.room_map(), self.client_map())
        &&& members_registered(self.room_map(), self.client_map())
    }

    /// No rooms and no clients.
    pub fn new() -> (m: Self)
        ensures
            m.wf(),
            m.room_map() == Map::<Seq<char>, Room>::empty(),
            m.client_map() == Map::<Seq<char>, Handle>::empty(),
    {
        let m = Model { rooms: Vec::new(), clients: Vec::new() };
        assert(m.room_map() =~= Map::<Seq<char>, Room>::empty());
        assert(m.client_map() =~= Map::<Seq<char>, Handle>::empty());
        m
    }

    /// Remove a client: its handle goes, it leaves its room, and a room left
    /// without members is dropped. Gives the room it left and the event
    /// announcing the departure; `None` if there is no such client.
    pub fn remove_client(&mut self, client_id: &handle::Id) -> (left: Option<(room::Id, RoomEvent)>)
        requires
            old(self).wf(),
        ensures
            final(self).wf(),
            client_removed(
                old(self).room_map(),
                old(self).client_map(),
                final(self).room_map(),
                final(self).client_map(),
                client_id@,
            ),
            !old(self).client_map().contains_key(client_id@) ==> left is None,
            old(self).client_map().contains_key(client_id@) ==> ({
                let r = old(self).client_map()[client_id@].room@;
                left matches Some((rid, ev)) && rid@ == r && ev == RoomEvent::PlayerLeft {
                    client_id: *client_id,
                    username: old(self).room_map()[r].member_map()[client_id@].username,
                }
            }),
    {
        let ghost rooms0 = self.room_map();
        let ghost clients0 = self.client_map();
        let ghost old_clients = self.clients@;
        let ghost old_rooms = self.rooms@;
        let ci = find_key(&self.clients, client_id);
        if ci.is_none() {
            proof {
                lemma_entries_dom(old_clients, client_id@);
            }
            return None;
        }
        let i = ci.unwrap();
        proof {
            lemma_entries_index(old_clients, i as int);
            lemma_entries_remove(old_clients, i as int);
        }
        let (_, handle) = self.clients.remove(i);
        let ghost r = handle.room@;
        let rj = find_key(&self.rooms, &handle.room);
        if rj.is_none() {
            proof {
                lemma_entries_dom(old_rooms, r);
                assert(false);
            }
            return None;
        }
        let j = rj.unwrap();
        proof {
            lemma_entries_index(old_rooms, j as int);
        }
        let ghost rid = self.rooms@[j as int].0;
        let ev = self.rooms[j].1.remove_member(client_id);
        let ghost room1 = self.rooms@[j as int].1;
        proof {
            lemma_entries_update(old_rooms, j as int, (rid, room1));
            assert(self.rooms@ == old_rooms.update(j as int, (rid, room1)));
            lemma_empty_members(room1);
        }
        if self.rooms[j].1.members.len() == 0 {
            proof {
                lemma_entries_remove(self.rooms@, j as int);
                assert(self.room_map().remove(r) =~= rooms0.remove(r));
            }
            self.rooms.remove(j);
            proof {
                assert(self.room_map() =~= rooms0.remove(r));
            }
        } else {
            proof {
                assert(self.room_map() == rooms0.insert(r, room1));
            }
        }
        proof {
            lemma_removal_wf(rooms0, clients0, self.room_map(), self.client_map(), client_id@);
        }
        Some((handle.room, ev.unwrap()))
    }

    /// The index of a room.
    fn room_index(&self, room_id: &room::Id) -> (r: Option<usize>)
        requires
            self.wf(),
        ensures
            match r {
                Some(j) => j < self.rooms@.len() && self.rooms@[j as int].0@ == room_id@
                    && self.room_map().contains_key(room_id@) && self.room_map()[room_id@]
                    == self.rooms@[j as int].1,
                None => !self.room_map().contains_key(room_id@),
            },
    {
        let r = find_key(&self.rooms, room_id);
        proof {
            lemma_entries_dom(self.rooms@, room_id@);
            if let Some(j) = r {
                lemma_entries_index(self.rooms@, j as int);
            }
        }
        r
    }

    /// The index of a client.
    fn client_index(&self, client_id: &handle::Id) -> (r: Option<usize>)
        requires
            self.wf(),
        ensures
            match r {
                Some(i) => i < self.clients@.len() && self.clients@[i as int].0@ == client_id@
                    && self.client_map().contains_key(client_id@) && self.client_map()[client_id@]
                    == self.clients@[i as int].1,
                None => !self.client_map().contains_key(client_id@),
            },
    {
        let r = find_key(&self.clients, client_id);
        proof {
            lemma_entries_dom(self.clients@, client_id@);
            if let Some(i) = r {
                lemma_entries_index(self.clients@, i as int);
            }
        }
        r
    }

    /// The room with the given identifier.
    pub fn room(&self, room_id: &room::Id) -> (r: Result<&Room, AppError>)
        requires
            self.wf(),
        ensures
            match r {
                Ok(room) => self.room_map().contains_key(room_id@) && *room == self.room_map()[room_id@],
                Err(e) => !self.room_map().contains_key(room_id@) && e is RoomNotFound,
            },
    {
        match self.room_index(room_id) {
            Some(j) => Ok(&self.rooms[j].1),
            None => Err(AppError::RoomNotFound),
        }
    }

    /// Whether a room with the given identifier exists.
    pub fn has_room(&self, room_id: &room::Id) -> (r: bool)
        requires
            self.wf(),
        ensures
            r == self.room_map().contains_key(room_id@),
    {
        self.room_index(room_id).is_some()
    }

    /// The handle of a client, if it is registered.
    pub fn client(&self, client_id: &handle::Id) -> (r: Option<&Handle>)
        requires
            self.wf(),
        ensures
            match r {
                Some(h) => self.client_map().contains_key(client_id@) && *h == self.client_map()[client_id@],
                None => !self.client_map().contains_key(client_id@),
            },
    {
        match self.client_index(client_id) {
            Some(i) => Some(&self.clients[i].1),
            None => None,
        }
    }

    /// The room a client plays in.
    pub fn client_room(&self, client_id: &handle::Id) -> (r: Result<&Room, AppError>)
        requires
            self.wf(),
        ensures
            match r {
                Ok(room) => self.client_map().contains_key(client_id@) && *room == self.room_map()[self.client_map()[client_id@].room@],
                Err(e) => !self.client_map().contains_key(client_id@) && e is UnknownClient,
            },
    {
        match self.client_index(client_id) {
            None => Err(AppError::UnknownClient),
            Some(i) => {
                let j = self.room_index(&self.clients[i].1.room);
                match j {
                    Some(j) => Ok(&self.rooms[j].1),
                    None => {
                        proof {
                            assert(self.client_map().contains_key(client_id@));
                        }
                        Err(AppError::UnknownClient)
                    },
                }
            },
        }
    }

    /// The members of a room, as `PlayerData`, in the room's order.
    pub fn room_players(&self, room_id: &room::Id) -> (r: Result<Vec<PlayerData>, AppError>)
        requires
            self.wf(),
        ensures
            match r {
                Ok(v) => self.room_map().contains_key(room_id@) && v@.len() == self.room_map()[room_id@].members@.len()
                    && forall|i: int| 0 <= i < v@.len() ==> #[trigger] v@[i] == player_data(self.room_map()[room_id@].members@[i].1),
                Err(e) => !self.room_map().contains_key(room_id@) && e is RoomNotFound,
            },
    {
        let room = self.room(room_id)?;
        Ok(room.players())
    }

    /// Whether some client goes by the given username.
    pub fn username_taken(&self, username: &str) -> (r: bool)
        requires
            self.wf(),
        ensures
            r == exists|c: Seq<char>| #[trigger] self.client_map().contains_key(c) && self.client_map()[c].username@ == username@,
    {
        let name = username.to_owned();
        let mut i: usize = 0;
        let mut taken = false;
        while i < self.clients.len()
            invariant
                0 <= i <= self.clients@.len(),
                name@ == username@,
                taken == exists|j: int| 0 <= j < i && (#[trigger] self.clients@[j]).1.username@ == username@,
            decreases self.clients@.len() - i,
        {
            if self.clients[i].1.username == name {
                taken = true;
            }
            proof {
                if !taken {
                    assert forall|j: int| 0 <= j < i + 1 implies (#[trigger] self.clients@[j]).1.username@ != username@ by {
                    }
                }
            }
            i = i + 1;
        }
        proof {
            if taken {
                let j = choose|j: int| 0 <= j < i && (#[trigger] self.clients@[j]).1.username@ == username@;
                lemma_entries_index(self.clients@, j);
                assert(self.client_map().contains_key(self.clients@[j].0@));
            }
            if exists|c: Seq<char>| #[trigger] self.client_map().contains_key(c) && self.client_map()[c].username@ == username@ {
                let c = choose|c: Seq<char>| #[trigger] self.client_map().contains_key(c) && self.client_map()[c].username@ == username@;
                lemma_entries_dom(self.clients@, c);
                let j = choose|j: int| 0 <= j < self.clients@.len() && (#[trigger] self.clients@[j]).0@ == c;
                lemma_entries_index(self.clients@, j);
            }
        }
        taken
    }

    /// A generated name `adjective-noun` that no client goes by. Names are
    /// drawn at random, at most [`NAME_TRIES`] times; if every draw is taken,
    /// the names are tried in order of the word lists. `None` only if every
    /// name of that form is taken.
    pub fn generate_unique_name(&self, names: &NameGenerator) -> (r: Option<String>)
        requires
            self.wf(),
            names@.0.len() > 0,
            names@.1.len() > 0,
        ensures
            r matches Some(name) ==> generated_form(names@, name@) && !name_in_use(self.client_map(), name@),
            r is None ==> all_generated_names_in_use(self.client_map(), names@),
    {
        let mut tries: usize = 0;
        while tries < NAME_TRIES
            invariant
                self.wf(),
                names@.0.len() > 0,
                names@.1.len() > 0,
                tries <= NAME_TRIES,
            decreases NAME_TRIES - tries,
        {
            let name = names.generate();
            assert(generated_form(names@, name@));
            if !self.username_taken(name.as_str()) {
                return Some(name);
            }
            tries = tries + 1;
        }
        let (na, nn) = names.word_counts();
        let mut i: usize = 0;
        while i < na
            invariant
                self.wf(),
                na == names@.0.len(),
                nn == names@.1.len(),
                i <= na,
                forall|a: int, b: int|
                    0 <= a < i && 0 <= b < nn ==> name_in_use(
                        self.client_map(),
                        #[trigger] names@.0[a] + seq!['-'] + #[trigger] names@.1[b],
                    ),
            decreases na - i,
        {
            let mut j: usize = 0;
            while j < nn
                invariant
                    self.wf(),
                    na == names@.0.len(),
                    nn == names@.1.len(),
                    i < na,
                    j <= nn,
                    forall|a: int, b: int|
                        0 <= a < i && 0 <= b < nn ==> name_in_use(
                            self.client_map(),
                            #[trigger] names@.0[a] + seq!['-'] + #[trigger] names@.1[b],
                        ),
                    forall|b: int|
                        0 <= b < j ==> name_in_use(
                            self.client_map(),
                            names@.0[i as int] + seq!['-'] + #[trigger] names@.1[b],
                        ),
                decreases nn - j,
            {
                let name = names.name_at(i, j);
                if !self.username_taken(name.as_str()) {
                    assert(generated_form(names@, name@));
                    return Some(name);
                }
                j = j + 1;
            }
            i = i + 1;
        }
        None
    }

    /// A room identifier of the drawn form that no room has. Identifiers are
    /// drawn at random, at most [`ROOM_ID_TRIES`] times; if every draw is
    /// taken, the identifiers are tried in order. `None` only if every
    /// identifier of that form is taken.
    pub fn fresh_room_id(&self) -> (r: Option<room::Id>)
        requires
            self.wf(),
        ensures
            r is None ==> all_room_ids_in_use(self.room_map()),
            r matches Some(id) ==> !self.room_map().contains_key(id@) && drawable_room_id(id@),
    {
        let mut tries: usize = 0;
        while tries < ROOM_ID_TRIES
            invariant
                self.wf(),
                tries <= ROOM_ID_TRIES,
            decreases ROOM_ID_TRIES - tries,
        {
            let id = room::Id::random();
            if !self.has_room(&id) {
                return Some(id);
            }
            tries = tries + 1;
        }
        let mut n: u32 = 0;
        while n < room::ROOM_ID_COUNT
            invariant
                self.wf(),
                n <= room::ROOM_ID_COUNT,
                forall|m: int| 0 <= m < n ==> self.room_map().contains_key(#[trigger] room::nth_room_id(m)),
            decreases room::ROOM_ID_COUNT - n,
        {
            let id = room::Id::nth(n);
            if !self.has_room(&id) {
                proof {
                    let k = id@;
                    assert(k =~= room::nth_room_id(n as int));
                    assert(k.len() == room::ROOM_ID_LENGTH);
                    assert forall|i: int| 0 <= i < room::ROOM_ID_LENGTH implies allowed_chars().contains(
                        #[trigger] k[i],
                    ) by {
                        let d = if i == 0 {
                            (n / 32768) % 32
                        } else if i == 1 {
                            (n / 1024) % 32
                        } else if i == 2 {
                            (n / 32) % 32
                        } else {
                            n % 32
                        };
                        assert(k[i] == allowed_chars()[d as int]);
                    }
                }
                return Some(id);
            }
            n = n + 1;
        }
        proof {
            assert forall|k: Seq<char>| drawable_room_id(k) implies #[trigger] self.room_map().contains_key(k) by {
                let m = room::lemma_room_id_numbered(k);
                assert(self.room_map().contains_key(room::nth_room_id(m)));
            }
        }
        None
    }

    /// Record that a cleanup of the room is scheduled. Gives whether one was
    /// already scheduled (which the new one replaces), or `None` if there is
    /// no such room.
    pub fn arm_cleanup(&mut self, room_id: &room::Id) -> (r: Option<bool>)
        requires
            old(self).wf(),
        ensures
            final(self).wf(),
            final(self).client_map() == old(self).client_map(),
            !old(self).room_map().contains_key(room_id@) ==> r is None && final(self).room_map() == old(self).room_map(),
            old(self).room_map().contains_key(room_id@) ==> r == Some(old(self).room_map()[room_id@].cleanup_pending)
                && final(self).room_map() == old(self).room_map().insert(room_id@, Room { cleanup_pending: true, ..old(self).room_map()[room_id@] }),
    {
        let ghost rooms0 = self.room_map();
        let ghost old_rooms = self.rooms@;
        match self.room_index(room_id) {
            None => None,
            Some(j) => {
                let ghost rid = old_rooms[j as int].0;
                let replaced = self.rooms[j].1.arm_cleanup();
                proof {
                    let room2 = self.rooms@[j as int].1;
                    lemma_entries_update(old_rooms, j as int, (rid, room2));
                    assert(self.rooms@ == old_rooms.update(j as int, (rid, room2)));
                    assert(room2 == Room { cleanup_pending: true, ..rooms0[room_id@] });
                    lemma_room_update_wf(rooms0, self.client_map(), room_id@, room2);
                }
                Some(replaced)
            },
        }
    }

    /// Open an event stream for a client: its room counts one more live
    /// stream (calling off a scheduled cleanup) and the client's handle records
    /// the stream's new session.
    pub fn connect(&mut self, client_id: &handle::Id) -> (r: Result<Connected, AppError>)
        requires
            old(self).wf(),
            old(self).client_map().contains_key(client_id@) ==> old(self).room_map()[old(
                self,
            ).client_map()[client_id@].room@].active_connections < usize::MAX,
        ensures
            final(self).wf(),
            !old(self).client_map().contains_key(client_id@) ==> (r matches Err(e) && e is UnknownClient)
                && *final(self) == *old(self),
            old(self).client_map().contains_key(client_id@) ==> ({
                let h = old(self).client_map()[client_id@];
                let room = old(self).room_map()[h.room@];
                &&& r matches Ok(cn)
                &&& cn.room_id == h.room
                &&& cn.had_cleanup == room.cleanup_pending
                &&& cn.initial == RoomEvent::RoundStart(
                    RoundStartData { pano_id: room.location.pano_id, round: room.round },
                )
                &&& final(self).client_map() == old(self).client_map().insert(
                    client_id@,
                    Handle { session: Some(cn.session), ..h },
                )
                &&& final(self).room_map() == old(self).room_map().insert(
                    h.room@,
                    Room {
                        active_connections: (room.active_connections + 1) as usize,
                        cleanup_pending: false,
                        ..room
                    },
                )
            }),
    {
        let ghost rooms0 = self.room_map();
        let ghost clients0 = self.client_map();
        let ghost old_rooms = self.rooms@;
        let ghost old_clients = self.clients@;
        let i = match self.client_index(client_id) {
            None => return Err(AppError::UnknownClient),
            Some(i) => i,
        };
        let room_id = self.clients[i].1.room.clone();
        let j = match self.room_index(&room_id) {
            None => {
                proof {
                    assert(clients0.contains_key(client_id@));
                }
                return Err(AppError::RoomNotFound);
            },
            Some(j) => j,
        };
        let ghost rid = old_rooms[j as int].0;
        let had_cleanup = self.rooms[j].1.connect();
        let round = self.rooms[j].1.round;
        let pano_id = self.rooms[j].1.location.pano_id.clone();
        proof {
            let room2 = self.rooms@[j as int].1;
            lemma_entries_update(old_rooms, j as int, (rid, room2));
            assert(self.rooms@ == old_rooms.update(j as int, (rid, room2)));
            assert(room2 == Room {
                active_connections: (rooms0[room_id@].active_connections + 1) as usize,
                cleanup_pending: false,
                ..rooms0[room_id@]
            });
            lemma_room_update_wf(rooms0, clients0, room_id@, room2);
        }
        let session = new_session();
        let ghost cid = old_clients[i as int].0;
        self.clients[i].1.session = Some(session);
        proof {
            let h2 = self.clients@[i as int].1;
            lemma_entries_update(old_clients, i as int, (cid, h2));
            assert(self.clients@ == old_clients.update(i as int, (cid, h2)));
            lemma_client_update_wf(self.room_map(), clients0, client_id@, h2);
        }
        Ok(Connected {
            room_id,
            initial: RoomEvent::RoundStart(RoundStartData { pano_id, round }),
            session,
            had_cleanup,
        })
    }

    /// Close an event stream of `room_id`: the room counts one live stream
    /// less; if the stream was the client's current one in that room, the
    /// client is removed. Gives the departure (if any) and whether the room
    /// is now idle, so that its cleanup is due.
    pub fn disconnect(&mut self, client_id: &handle::Id, room_id: &room::Id, session: u128) -> (r:
        Disconnected)
        requires
            old(self).wf(),
        ensures
            final(self).wf(),
            ({
                let rooms1 = stream_closed(old(self).room_map(), room_id@);
                let active = stream_is_current(old(self).client_map(), client_id@, room_id@, session);
                &&& active ==> client_removed(
                    rooms1,
                    old(self).client_map(),
                    final(self).room_map(),
                    final(self).client_map(),
                    client_id@,
                )
                &&& active ==> (r.left matches Some((rid, ev)) && rid@ == room_id@ && ev
                    == RoomEvent::PlayerLeft {
                    client_id: *client_id,
                    username: old(self).room_map()[room_id@].member_map()[client_id@].username,
                })
                &&& !active ==> final(self).room_map() == rooms1 && final(self).client_map() == old(
                    self,
                ).client_map() && r.left is None
            }),
            r.idle == (final(self).room_map().contains_key(room_id@) && final(self).room_map()[room_id@].active_connections == 0),
    {
        let ghost rooms0 = self.room_map();
        let ghost clients0 = self.client_map();
        let ghost old_rooms = self.rooms@;
        match self.room_index(room_id) {
            Some(j) => {
                let ghost rid = old_rooms[j as int].0;
                self.rooms[j].1.disconnect();
                proof {
                    let room2 = self.rooms@[j as int].1;
                    lemma_entries_update(old_rooms, j as int, (rid, room2));
                    assert(self.rooms@ == old_rooms.update(j as int, (rid, room2)));
                    assert(room2 == stream_closed(rooms0, room_id@)[room_id@]);
                    lemma_room_update_wf(rooms0, clients0, room_id@, room2);
                    assert(self.room_map() =~= stream_closed(rooms0, room_id@));
                }
            },
            None => {
                proof {
                    assert(self.room_map() =~= stream_closed(rooms0, room_id@));
                }
            },
        }
        let active = match self.client_index(client_id) {
            Some(i) => {
                let same_room = self.clients[i].1.room.same_key(room_id);
                let same_session = match self.clients[i].1.session {
                    Some(s) => s == session,
                    None => false,
                };
                same_room && same_session
            },
            None => false,
        };
        let left = if active {
            self.remove_client(client_id)
        } else {
            None
        };
        let idle = match self.room_index(room_id) {
            Some(j) => self.rooms[j].1.is_idle(),
            None => false,
        };
        Disconnected { left, idle }
    }

    /// A client says it is ready for the next round. Gives whether every
    /// member of its room now is.
    pub fn submit_ready(&mut self, client_id: &handle::Id) -> (r: Result<bool, AppError>)
        requires
            old(self).wf(),
        ensures
            final(self).wf(),
            !old(self).client_map().contains_key(client_id@) ==> (r matches Err(e) && e is UnknownClient)
                && *final(self) == *old(self),
            old(self).client_map().contains_key(client_id@) ==> ({
                let rid = old(self).client_map()[client_id@].room@;
                &&& r matches Ok(all)
                &&& final(self).client_map() == old(self).client_map()
                &&& final(self).room_map() == old(self).room_map().insert(rid, final(self).room_map()[rid])
                &&& ready_submitted(old(self).room_map()[rid], final(self).room_map()[rid], client_id@, all)
            }),
    {
        let ghost rooms0 = self.room_map();
        let ghost clients0 = self.client_map();
        let ghost old_rooms = self.rooms@;
        let i = match self.client_index(client_id) {
            None => return Err(AppError::UnknownClient),
            Some(i) => i,
        };
        let j = match self.room_index(&self.clients[i].1.room) {
            None => {
                proof {
                    assert(clients0.contains_key(client_id@));
                }
                return Err(AppError::RoomNotFound);
            },
            Some(j) => j,
        };
        let ghost r = self.clients@[i as int].1.room@;
        let ghost rid = old_rooms[j as int].0;
        let all = self.rooms[j].1.submit_ready(client_id);
        proof {
            let room2 = self.rooms@[j as int].1;
            lemma_entries_update(old_rooms, j as int, (rid, room2));
            assert(self.rooms@ == old_rooms.update(j as int, (rid, room2)));
            assert(room2.member_map().dom() =~= rooms0[r].member_map().dom());
            lemma_room_update_wf(rooms0, clients0, r, room2);
        }
        Ok(all)
    }

    /// Move a client's room to its next round at `location`; gives the event
    /// announcing the round.
    pub fn start_next_round(&mut self, client_id: &handle::Id, location: Location) -> (r: Result<
        RoomEvent,
        AppError,
    >)
        requires
            old(self).wf(),
            old(self).client_map().contains_key(client_id@) ==> old(self).room_map()[old(
                self,
            ).client_map()[client_id@].room@].round < usize::MAX,
        ensures
            final(self).wf(),
            !old(self).client_map().contains_key(client_id@) ==> (r matches Err(e) && e is UnknownClient)
                && *final(self) == *old(self),
            old(self).client_map().contains_key(client_id@) ==> ({
                let rid = old(self).client_map()[client_id@].room@;
                &&& r matches Ok(ev)
                &&& final(self).client_map() == old(self).client_map()
                &&& final(self).room_map() == old(self).room_map().insert(rid, final(self).room_map()[rid])
                &&& round_started(old(self).room_map()[rid], final(self).room_map()[rid], location, ev)
            }),
    {
        let ghost rooms0 = self.room_map();
        let ghost clients0 = self.client_map();
        let ghost old_rooms = self.rooms@;
        let i = match self.client_index(client_id) {
            None => return Err(AppError::UnknownClient),
            Some(i) => i,
        };
        let j = match self.room_index(&self.clients[i].1.room) {
            None => {
                proof {
                    assert(clients0.contains_key(client_id@));
                }
                return Err(AppError::RoomNotFound);
            },
            Some(j) => j,
        };
        let ghost r = self.clients@[i as int].1.room@;
        let ghost rid = old_rooms[j as int].0;
        let ev = self.rooms[j].1.start_next_round(location);
        proof {
            let room2 = self.rooms@[j as int].1;
            lemma_entries_update(old_rooms, j as int, (rid, room2));
            assert(self.rooms@ == old_rooms.update(j as int, (rid, room2)));
            assert(room2.member_map().dom() =~= rooms0[r].member_map().dom());
            lemma_room_update_wf(rooms0, clients0, r, room2);
        }
        Ok(ev)
    }

    /// A client guesses `guess`, worth `points`. When that completes the
    /// round, gives everyone's guesses.
    pub fn submit_guess(&mut self, client_id: &handle::Id, guess: Coordinates, points: u16) -> (r:
        Result<Option<Vec<PlayerGuess>>, AppError>)
        requires
            old(self).wf(),
            old(self).client_map().contains_key(client_id@) ==> old(self).room_map()[old(
                self,
            ).client_map()[client_id@].room@].member_map()[client_id@].score + points <= u32::MAX,
        ensures
            final(self).wf(),
            !old(self).client_map().contains_key(client_id@) ==> (r matches Err(e) && e is UnknownClient)
                && *final(self) == *old(self),
            old(self).client_map().contains_key(client_id@) ==> ({
                let rid = old(self).client_map()[client_id@].room@;
                &&& r matches Ok(res)
                &&& final(self).client_map() == old(self).client_map()
                &&& final(self).room_map() == old(self).room_map().insert(rid, final(self).room_map()[rid])
                &&& guess_submitted(old(self).room_map()[rid], final(self).room_map()[rid], client_id@, guess, points, res)
            }),
    {
        let ghost rooms0 = self.room_map();
        let ghost clients0 = self.client_map();
        let ghost old_rooms = self.rooms@;
        let i = match self.client_index(client_id) {
            None => return Err(AppError::UnknownClient),
            Some(i) => i,
        };
        let j = match self.room_index(&self.clients[i].1.room) {
            None => {
                proof {
                    assert(clients0.contains_key(client_id@));
                }
                return Err(AppError::RoomNotFound);
            },
            Some(j) => j,
        };
        let ghost r = self.clients@[i as int].1.room@;
        let ghost rid = old_rooms[j as int].0;
        let res = self.rooms[j].1.submit_guess(client_id, guess, points);
        proof {
            let room2 = self.rooms@[j as int].1;
            lemma_entries_update(old_rooms, j as int, (rid, room2));
            assert(self.rooms@ == old_rooms.update(j as int, (rid, room2)));
            lemma_room_update_wf(rooms0, clients0, r, room2);
        }
        Ok(res)
    }

    /// Open a new room `room_id` at `location` whose only member is the
    /// client `client_id`, which must not be registered yet; the client is
    /// registered as playing there. The color is the override if given, else
    /// a draw from `colors`. Gives the client's color.
    pub fn insert_new_room<F: Fn(usize) -> Option<Srgb8>>(
        &mut self,
        location: Location,
        client_id: handle::Id,
        username: String,
        color_override: Option<Srgb8>,
        colors: DistinctColors,
        probe: F,
        room_id: room::Id,
    ) -> (color: PlayerColor)
        requires
            old(self).wf(),
            !old(self).client_map().contains_key(client_id@),
            !old(self).room_map().contains_key(room_id@),
            color_override is None ==> forall|i: usize| #[trigger] call_requires(probe, (i,)),
            color_override is None ==> colors@.next_index + MAX_DISTINCT_TRIES <= usize::MAX,
        ensures
            final(self).wf(),
            final(self).client_map() == old(self).client_map().insert(
                client_id@,
                Handle { room: room_id, username, color, session: None },
            ),
            final(self).room_map() == old(self).room_map().insert(room_id@, final(self).room_map()[room_id@]),
            room_opened(final(self).room_map()[room_id@], location, client_id, username, color_override, colors@, probe),
            final(self).room_map()[room_id@].members@[0].1.color == color,
    {
        let ghost rooms0 = self.room_map();
        let ghost clients0 = self.client_map();
        let room = Room::new(location, client_id.clone(), username.clone(), color_override, colors, probe);
        let color = room.members[0].1.color;
        let handle = Handle { room: room_id.clone(), username, color, session: None };
        proof {
            assert(room.members@ =~= seq![room.members@[0]]);
            assert(room.members@.drop_last() =~= Seq::<(handle::Id, MemberAttributes)>::empty());
            assert(entries_map(room.members@.drop_last()) =~= Map::<Seq<char>, MemberAttributes>::empty());
            assert(room.member_map() == entries_map(room.members@.drop_last()).insert(
                room.members@[0].0@,
                room.members@[0].1,
            ));
            assert(room.member_map().dom() =~= set![client_id@]);
            lemma_entries_dom(self.rooms@, room_id@);
            lemma_entries_push(self.rooms@, (room_id, room));
            lemma_entries_dom(self.clients@, client_id@);
            lemma_entries_push(self.clients@, (client_id, handle));
            lemma_insert_wf(rooms0, clients0, room_id@, room, client_id@, handle);
        }
        self.rooms.push((room_id, room));
        self.clients.push((client_id, handle));
        color
    }

    /// Start a client afresh in a room of its own: its name is the one it
    /// asked for if not empty, else a generated one that no client goes by; it leaves the room it
    /// was in, if any; and a room with a fresh identifier is opened at
    /// `location` with the client as its only member, its color being the
    /// override if given, else a draw from `colors`. Gives the room, the name
    /// and the color. Changing nothing, it fails only when every generated
    /// name, or every room identifier, is taken.
    pub fn create_room<F: Fn(usize) -> Option<Srgb8>>(
        &mut self,
        location: Location,
        client_id: handle::Id,
        requested: Option<String>,
        color_override: Option<Srgb8>,
        colors: DistinctColors,
        probe: F,
        names: &NameGenerator,
    ) -> (r: Result<Created, CreateError>)
        requires
            old(self).wf(),
            wanted_name(requested) is None ==> names@.0.len() > 0 && names@.1.len() > 0,
            color_override is None ==> forall|i: usize| #[trigger] call_requires(probe, (i,)),
            color_override is None ==> colors@.next_index + MAX_DISTINCT_TRIES <= usize::MAX,
        ensures
            final(self).wf(),
            r is Err ==> *final(self) == *old(self),
            r matches Err(e) && e is NoFreeName ==> wanted_name(requested) is None
                && all_generated_names_in_use(old(self).client_map(), names@),
            r matches Err(e) && e is NoFreeRoomId ==> all_room_ids_in_use(old(self).room_map()),
            r matches Ok(cr) ==> {
                let rid = cr.room_id;
                let name = cr.username;
                let color = cr.color;
                &&& wanted_name(requested) matches Some(n) ==> name == n
                &&& wanted_name(requested) is None ==> generated_form(names@, name@)
                    && !name_in_use(old(self).client_map(), name@)
                &&& !old(self).room_map().contains_key(rid@)
                &&& drawable_room_id(rid@)
                &&& exists|rooms1: Map<Seq<char>, Room>, clients1: Map<Seq<char>, Handle>|
                    #[trigger] client_removed(old(self).room_map(), old(self).client_map(), rooms1, clients1, client_id@)
                    && final(self).client_map() == clients1.insert(
                        client_id@,
                        Handle { room: rid, username: name, color, session: None },
                    ) && final(self).room_map() == rooms1.insert(rid@, final(self).room_map()[rid@])
                &&& room_opened(final(self).room_map()[rid@], location, client_id, name, color_override, colors@, probe)
                &&& final(self).room_map()[rid@].members@[0].1.color == color
                &&& !old(self).client_map().contains_key(client_id@) ==> cr.left is None
                &&& old(self).client_map().contains_key(client_id@) ==> ({
                    let r = old(self).client_map()[client_id@].room@;
                    cr.left matches Some((lid, ev)) && lid@ == r && ev == RoomEvent::PlayerLeft {
                        client_id,
                        username: old(self).room_map()[r].member_map()[client_id@].username,
                    }
                })
            },
    {
        let username = match requested_username(requested) {
            Some(n) => n,
            None => match self.generate_unique_name(names) {
                Some(n) => n,
                None => return Err(CreateError::NoFreeName),
            },
        };
        let room_id = match self.fresh_room_id() {
            Some(id) => id,
            None => return Err(CreateError::NoFreeRoomId),
        };
        let ghost rooms0 = self.room_map();
        let ghost clients0 = self.client_map();
        let left = self.remove_client(&client_id);
        let ghost rooms1 = self.room_map();
        let ghost clients1 = self.client_map();
        proof {
            if clients0.contains_key(client_id@) {
                let r = clients0[client_id@].room@;
                assert(rooms0.contains_key(r));
                assert(!rooms1.contains_key(room_id@));
            }
        }
        let color = self.insert_new_room(
            location,
            client_id.clone(),
            username.clone(),
            color_override,
            colors,
            probe,
            room_id.clone(),
        );
        proof {
            assert(client_removed(rooms0, clients0, rooms1, clients1, client_id@));
        }
        Ok(Created { room_id, username, color, left })
    }

    /// Whether a client other than `client_id` goes by `username`.
    fn name_taken_by_other(&self, client_id: &handle::Id, username: &String) -> (r: bool)
        requires
            self.wf(),
        ensures
            r == exists|c: Seq<char>| #[trigger] self.client_map().contains_key(c) && c != client_id@
                && self.client_map()[c].username@ == username@,
    {
        let mut i: usize = 0;
        let mut taken = false;
        while i < self.clients.len()
            invariant
                0 <= i <= self.clients@.len(),
                taken == exists|j: int| 0 <= j < i && (#[trigger] self.clients@[j]).0@ != client_id@
                    && self.clients@[j].1.username@ == username@,
            decreases self.clients@.len() - i,
        {
            if !self.clients[i].0.same_key(client_id) && self.clients[i].1.username == *username {
                taken = true;
            }
            proof {
                if !taken {
                    assert forall|j: int| 0 <= j < i + 1 implies !((#[trigger] self.clients@[j]).0@
                        != client_id@ && self.clients@[j].1.username@ == username@) by {}
                }
            }
            i = i + 1;
        }
        proof {
            if taken {
                let j = choose|j: int| 0 <= j < i && (#[trigger] self.clients@[j]).0@ != client_id@
                    && self.clients@[j].1.username@ == username@;
                lemma_entries_index(self.clients@, j);
                assert(self.client_map().contains_key(self.clients@[j].0@));
            }
            if exists|c: Seq<char>| #[trigger] self.client_map().contains_key(c) && c != client_id@
                && self.client_map()[c].username@ == username@ {
                let c = choose|c: Seq<char>| #[trigger] self.client_map().contains_key(c) && c
                    != client_id@ && self.client_map()[c].username@ == username@;
                lemma_entries_dom(self.clients@, c);
                let j = choose|j: int| 0 <= j < self.clients@.len() && (#[trigger] self.clients@[j]).0@ == c;
                lemma_entries_index(self.clients@, j);
            }
        }
        taken
    }

    /// Rename a client, in its handle and in its room; refused if another
    /// client goes by that name.
    pub fn set_name(&mut self, client_id: &handle::Id, username: String) -> (r: Result<(), AppError>)
        requires
            old(self).wf(),
        ensures
            final(self).wf(),
            !old(self).client_map().contains_key(client_id@) ==> (r matches Err(e) && e is UnknownClient)
                && *final(self) == *old(self),
            old(self).client_map().contains_key(client_id@) ==> ({
                let h = old(self).client_map()[client_id@];
                let taken = exists|c: Seq<char>| #[trigger] old(self).client_map().contains_key(c) && c
                    != client_id@ && old(self).client_map()[c].username@ == username@;
                &&& taken ==> (r matches Err(e) && e is UsernameTaken) && *final(self) == *old(self)
                &&& !taken ==> r is Ok
                &&& !taken ==> final(self).client_map() == old(self).client_map().insert(
                    client_id@,
                    Handle { username, ..h },
                )
                &&& !taken ==> final(self).room_map() == old(self).room_map().insert(h.room@, final(self).room_map()[h.room@])
                &&& !taken ==> member_renamed(old(self).room_map()[h.room@], final(self).room_map()[h.room@], client_id@, username)
            }),
    {
        let ghost rooms0 = self.room_map();
        let ghost clients0 = self.client_map();
        let ghost old_rooms = self.rooms@;
        let ghost old_clients = self.clients@;
        let i = match self.client_index(client_id) {
            None => return Err(AppError::UnknownClient),
            Some(i) => i,
        };
        if self.name_taken_by_other(client_id, &username) {
            return Err(AppError::UsernameTaken);
        }
        let j = match self.room_index(&self.clients[i].1.room) {
            None => {
                proof {
                    assert(clients0.contains_key(client_id@));
                }
                return Err(AppError::RoomNotFound);
            },
            Some(j) => j,
        };
        let ghost r = self.clients@[i as int].1.room@;
        let ghost rid = old_rooms[j as int].0;
        let ghost cid = old_clients[i as int].0;
        self.rooms[j].1.set_member_name(client_id, username.clone());
        self.clients[i].1.username = username;
        proof {
            let room2 = self.rooms@[j as int].1;
            lemma_entries_update(old_rooms, j as int, (rid, room2));
            assert(self.rooms@ == old_rooms.update(j as int, (rid, room2)));
            let h2 = self.clients@[i as int].1;
            lemma_entries_update(old_clients, i as int, (cid, h2));
            assert(self.clients@ == old_clients.update(i as int, (cid, h2)));
            lemma_rename_wf(rooms0, clients0, client_id@, room2, h2);
        }
        Ok(())
    }

    /// Give a client its own color, in its handle and in its room.
    pub fn set_color(&mut self, client_id: &handle::Id, srgb: Srgb8) -> (r: Result<(), AppError>)
        requires
            old(self).wf(),
        ensures
            final(self).wf(),
            !old(self).client_map().contains_key(client_id@) ==> (r matches Err(e) && e is UnknownClient)
                && *final(self) == *old(self),
            old(self).client_map().contains_key(client_id@) ==> ({
                let h = old(self).client_map()[client_id@];
                &&& r is Ok
                &&& final(self).client_map() == old(self).client_map().insert(
                    client_id@,
                    Handle { color: PlayerColor { srgb, custom: true }, ..h },
                )
                &&& final(self).room_map() == old(self).room_map().insert(h.room@, final(self).room_map()[h.room@])
                &&& member_recolored(old(self).room_map()[h.room@], final(self).room_map()[h.room@], client_id@, srgb)
            }),
    {
        let ghost rooms0 = self.room_map();
        let ghost clients0 = self.client_map();
        let ghost old_rooms = self.rooms@;
        let ghost old_clients = self.clients@;
        let i = match self.client_index(client_id) {
            None => return Err(AppError::UnknownClient),
            Some(i) => i,
        };
        let j = match self.room_index(&self.clients[i].1.room) {
            None => {
                proof {
                    assert(clients0.contains_key(client_id@));
                }
                return Err(AppError::RoomNotFound);
            },
            Some(j) => j,
        };
        let ghost r = self.clients@[i as int].1.room@;
        let ghost rid = old_rooms[j as int].0;
        let ghost cid = old_clients[i as int].0;
        self.rooms[j].1.set_member_color(client_id, srgb);
        self.clients[i].1.color = PlayerColor::custom(srgb);
        proof {
            let room2 = self.rooms@[j as int].1;
            lemma_entries_update(old_rooms, j as int, (rid, room2));
            assert(self.rooms@ == old_rooms.update(j as int, (rid, room2)));
            assert(room2.member_map().dom() =~= rooms0[r].member_map().dom());
            lemma_room_update_wf(rooms0, clients0, r, room2);
            let h2 = self.clients@[i as int].1;
            lemma_entries_update(old_clients, i as int, (cid, h2));
            assert(self.clients@ == old_clients.update(i as int, (cid, h2)));
            lemma_client_update_wf(self.room_map(), clients0, client_id@, h2);
        }
        Ok(())
    }

    /// Set the configuration of the room a client plays in.
    pub fn set_config(&mut self, client_id: &handle::Id, config: room::Config) -> (r: Result<(), AppError>)
        requires
            old(self).wf(),
        ensures
            final(self).wf(),
            final(self).client_map() == old(self).client_map(),
            !old(self).client_map().contains_key(client_id@) ==> (r matches Err(e) && e is UnknownClient)
                && *final(self) == *old(self),
            old(self).client_map().contains_key(client_id@) ==> ({
                let rid = old(self).client_map()[client_id@].room@;
                &&& r is Ok
                &&& final(self).room_map() == old(self).room_map().insert(
                    rid,
                    Room { config, ..old(self).room_map()[rid] },
                )
            }),
    {
        let ghost rooms0 = self.room_map();
        let ghost clients0 = self.client_map();
        let ghost old_rooms = self.rooms@;
        let i = match self.client_index(client_id) {
            None => return Err(AppError::UnknownClient),
            Some(i) => i,
        };
        let j = match self.room_index(&self.clients[i].1.room) {
            None => {
                proof {
                    assert(clients0.contains_key(client_id@));
                }
                return Err(AppError::RoomNotFound);
            },
            Some(j) => j,
        };
        let ghost r = self.clients@[i as int].1.room@;
        let ghost rid = old_rooms[j as int].0;
        self.rooms[j].1.set_config(config);
        proof {
            let room2 = self.rooms@[j as int].1;
            lemma_entries_update(old_rooms, j as int, (rid, room2));
            assert(self.rooms@ == old_rooms.update(j as int, (rid, room2)));
            lemma_room_update_wf(rooms0, clients0, r, room2);
        }
        Ok(())
    }

    /// Move a client into an existing room, keeping its name and its color
    /// (which it keeps as its own). Its former room loses it, and is dropped
    /// if no member remains. Moving into the room it is in changes nothing.
    pub fn move_client_to_room(&mut self, client_id: &handle::Id, new_room_id: &room::Id) -> (r:
        Result<Moved, AppError>)
        requires
            old(self).wf(),
        ensures
            final(self).wf(),
            !old(self).client_map().contains_key(client_id@) ==> (r matches Err(e) && e is UnknownClient)
                && *final(self) == *old(self),
            old(self).client_map().contains_key(client_id@) && !old(self).room_map().contains_key(
                new_room_id@,
            ) ==> (r matches Err(e) && e is RoomNotFound) && *final(self) == *old(self),
            old(self).client_map().contains_key(client_id@) && old(self).room_map().contains_key(
                new_room_id@,
            ) ==> ({
                let h = old(self).client_map()[client_id@];
                let t = new_room_id@;
                &&& h.room@ == t ==> *final(self) == *old(self) && (r matches Ok(mv) && mv.joined is None
                    && mv.left is None && mv.player == player_data(old(self).room_map()[t].member_map()[client_id@]))
                &&& h.room@ != t ==> (r matches Ok(mv) && mv.player == (PlayerData {
                    username: h.username,
                    color: h.color.srgb,
                    score: 0,
                }) && mv.joined == Some(RoomEvent::PlayerJoined {
                    client_id: *client_id,
                    data: PlayerData { username: h.username, color: h.color.srgb, score: 0 },
                }) && (mv.left matches Some((rid, ev)) && rid@ == h.room@ && ev == RoomEvent::PlayerLeft {
                    client_id: *client_id,
                    username: old(self).room_map()[h.room@].member_map()[client_id@].username,
                }))
                &&& h.room@ != t ==> final(self).client_map() == old(self).client_map().insert(
                    client_id@,
                    Handle { room: *new_room_id, ..h },
                )
                &&& h.room@ != t ==> final(self).room_map().contains_key(t)
                &&& h.room@ != t ==> rooms_after_leave(old(self).room_map(), h.room@, client_id@, final(self).room_map().insert(t, old(self).room_map()[t]))
                &&& h.room@ != t ==> member_joined(old(self).room_map()[t], final(self).room_map()[t], client_id@, h.username, h.color.srgb)
            }),
    {
        let ghost rooms0 = self.room_map();
        let ghost clients0 = self.client_map();
        let ghost old_rooms = self.rooms@;
        let ghost old_clients = self.clients@;
        let i = match self.client_index(client_id) {
            None => return Err(AppError::UnknownClient),
            Some(i) => i,
        };
        let t = match self.room_index(new_room_id) {
            None => return Err(AppError::RoomNotFound),
            Some(t) => t,
        };
        if self.clients[i].1.room.same_key(new_room_id) {
            let room = &self.rooms[t].1;
            proof {
                lemma_entries_dom(room.members@, client_id@);
            }
            let found = find_key(&room.members, client_id);
            let mi = found.unwrap();
            proof {
                lemma_entries_index(room.members@, mi as int);
            }
            let player = PlayerData::from(&room.members[mi].1);
            return Ok(Moved { player, joined: None, left: None });
        }
        let username = self.clients[i].1.username.clone();
        let srgb = self.clients[i].1.color.srgb;
        let old_room_id = self.clients[i].1.room.clone();
        let ghost r = old_room_id@;
        let j = match self.room_index(&old_room_id) {
            None => {
                proof {
                    assert(clients0.contains_key(client_id@));
                }
                return Err(AppError::RoomNotFound);
            },
            Some(j) => j,
        };
        let ghost rid = old_rooms[j as int].0;
        let left_ev = self.rooms[j].1.remove_member(client_id);
        let ghost room1 = self.rooms@[j as int].1;
        proof {
            lemma_entries_update(old_rooms, j as int, (rid, room1));
            assert(self.rooms@ == old_rooms.update(j as int, (rid, room1)));
            lemma_empty_members(room1);
        }
        if self.rooms[j].1.members.len() == 0 {
            proof {
                lemma_entries_remove(self.rooms@, j as int);
                assert(self.room_map().remove(r) =~= rooms0.remove(r));
            }
            self.rooms.remove(j);
            proof {
                assert(self.room_map() =~= rooms0.remove(r));
            }
        }
        let ghost rooms_mid = self.room_map();
        let ghost mid_rooms = self.rooms@;
        proof {
            assert(rooms_after_leave(rooms0, r, client_id@, rooms_mid));
            assert(rooms_mid.contains_key(new_room_id@));
            lemma_entries_dom(mid_rooms, new_room_id@);
        }
        let found = find_key(&self.rooms, new_room_id);
        let k = found.unwrap();
        proof {
            lemma_entries_index(mid_rooms, k as int);
        }
        let ghost kid = mid_rooms[k as int].0;
        let joined = self.rooms[k].1.add_member(
            client_id,
            username.clone(),
            Some(srgb),
            |_i: usize| -> Option<Srgb8> { None },
        );
        let ghost room_t2 = self.rooms@[k as int].1;
        proof {
            lemma_entries_update(mid_rooms, k as int, (kid, room_t2));
            assert(self.rooms@ == mid_rooms.update(k as int, (kid, room_t2)));
            assert(self.room_map() == rooms_mid.insert(new_room_id@, room_t2));
            assert(rooms_mid[new_room_id@] == rooms0[new_room_id@]);
            assert(member_joined(rooms0[new_room_id@], room_t2, client_id@, username, srgb));
            assert(self.room_map().insert(new_room_id@, rooms0[new_room_id@]) =~= rooms_mid);
        }
        let ghost cid = old_clients[i as int].0;
        self.clients[i].1.room = new_room_id.clone();
        proof {
            let h2 = self.clients@[i as int].1;
            lemma_entries_update(old_clients, i as int, (cid, h2));
            assert(self.clients@ == old_clients.update(i as int, (cid, h2)));
            lemma_move_wf(rooms0, clients0, client_id@, new_room_id@, rooms_mid, room_t2, srgb, h2);
        }
        Ok(Moved {
            player: PlayerData { username: username.clone(), color: srgb, score: 0 },
            joined: Some(joined),
            left: Some((old_room_id, left_ev.unwrap())),
        })
    }

    /// The clients that do not play in room `room_id`.
    fn clients_not_in(&self, room_id: &room::Id) -> (kept: Vec<(handle::Id, Handle)>)
        requires
            distinct_keys(self.clients@),
        ensures
            distinct_keys(kept@),
            entries_map(kept@) == clients_outside(self.client_map(), room_id@),
    {
        let mut kept: Vec<(handle::Id, Handle)> = Vec::new();
        let mut i: usize = 0;
        while i < self.clients.len()
            invariant
                distinct_keys(self.clients@),
                0 <= i <= self.clients@.len(),
                distinct_keys(kept@),
                entries_map(kept@) == clients_outside(entries_map(self.clients@.subrange(0, i as int)), room_id@),
            decreases self.clients@.len() - i,
        {
            let ghost prefix = self.clients@.subrange(0, i as int);
            let ghost next = self.clients@.subrange(0, i + 1);
            proof {
                assert(next.drop_last() =~= prefix);
                assert(entries_map(next) == entries_map(prefix).insert(self.clients@[i as int].0@, self.clients@[i as int].1));
                lemma_entries_dom(prefix, self.clients@[i as int].0@);
                assert forall|j: int| 0 <= j < prefix.len() implies (#[trigger] prefix[j]).0@ != self.clients@[i as int].0@ by {
                    assert(prefix[j] == self.clients@[j]);
                }
            }
            if !self.clients[i].1.room.same_key(room_id) {
                let entry = (self.clients[i].0.clone(), self.clients[i].1.clone());
                proof {
                    lemma_entries_push(kept@, entry);
                }
                kept.push(entry);
                proof {
                    assert(entries_map(kept@) =~= clients_outside(entries_map(next), room_id@));
                }
            } else {
                proof {
                    assert(entries_map(kept@) =~= clients_outside(entries_map(next), room_id@));
                }
            }
            i = i + 1;
        }
        proof {
            assert(self.clients@.subrange(0, i as int) =~= self.clients@);
        }
        kept
    }

    /// Drop a room if no live event stream is subscribed to it, together with
    /// the clients playing in it. Gives whether it was dropped.
    pub fn drop_room_if_idle(&mut self, room_id: &room::Id) -> (dropped: bool)
        requires
            old(self).wf(),
        ensures
            final(self).wf(),
            dropped == (old(self).room_map().contains_key(room_id@) && old(self).room_map()[room_id@].active_connections == 0),
            dropped ==> final(self).room_map() == old(self).room_map().remove(room_id@),
            dropped ==> final(self).client_map() == old(self).client_map().remove_keys(
                old(self).room_map()[room_id@].member_map().dom(),
            ),
            !dropped ==> *final(self) == *old(self),
    {
        let ghost rooms0 = self.room_map();
        let ghost clients0 = self.client_map();
        let j = match self.room_index(room_id) {
            None => return false,
            Some(j) => j,
        };
        if !self.rooms[j].1.is_idle() {
            return false;
        }
        let kept = self.clients_not_in(room_id);
        proof {
            lemma_entries_remove(self.rooms@, j as int);
        }
        self.rooms.remove(j);
        self.clients = kept;
        proof {
            let r = room_id@;
            assert(clients_outside(clients0, r) =~= clients0.remove_keys(rooms0[r].member_map().dom())) by {
                assert forall|k: Seq<char>| clients0.contains_key(k) implies (clients0[k].room@ == r
                    <==> rooms0[r].member_map().contains_key(k)) by {
                    if clients0[k].room@ == r {
                    }
                    if rooms0[r].member_map().contains_key(k) {
                    }
                }
            }
            let rooms2 = self.room_map();
            let clients2 = self.client_map();
            assert(rooms2 == rooms0.remove(r));
            assert forall|c: Seq<char>| #[trigger] clients2.contains_key(c) implies ({
                let r2 = clients2[c].room@;
                &&& rooms2.contains_key(r2)
                &&& rooms2[r2].member_map().contains_key(c)
                &&& rooms2[r2].member_map()[c].username == clients2[c].username
            }) by {
                assert(clients0.contains_key(c));
            }
            assert forall|r2: Seq<char>, c: Seq<char>|
                rooms2.contains_key(r2) && #[trigger] rooms2[r2].member_map().contains_key(c) implies {
                &&& clients2.contains_key(c)
                &&& clients2[c].room@ == r2
            } by {
                assert(rooms0[r2].member_map().contains_key(c));
            }
        }
        true
    }
}

/// In a well formed registry every member of a room is a client whose handle
/// names that room, so no client is a member of two rooms.
pub proof fn lemma_member_of_one_room(m: Model, c: Seq<char>, r1: Seq<char>, r2: Seq<char>)
    requires
        m.wf(),
        m.room_map().contains_key(r1),
        m.room_map()[r1].member_map().contains_key(c),
        m.room_map().contains_key(r2),
        m.room_map()[r2].member_map().contains_key(c),
    ensures
        r1 == r2,
        m.client_map().contains_key(c),
        m.client_map()[c].room@ == r1,
{
}

/// When a client that is the only member of its room is removed, its room
/// goes too.
pub proof fn lemma_sole_member_room_dropped(
    rooms: Map<Seq<char>, Room>,
    clients: Map<Seq<char>, Handle>,
    rooms2: Map<Seq<char>, Room>,
    clients2: Map<Seq<char>, Handle>,
    c: Seq<char>,
)
    requires
        client_removed(rooms, clients, rooms2, clients2, c),
        clients.contains_key(c),
        rooms[clients[c].room@].member_map().dom() == set![c],
    ensures
        !rooms2.contains_key(clients[c].room@),
{
    let r = clients[c].room@;
    assert(rooms[r].member_map().remove(c) =~= Map::<Seq<char>, MemberAttributes>::empty());
}

/// A client that is the only member of its room and starts over in a new
/// room (as [`Model::create_room`] leaves the registry) leaves the number of
/// rooms as it was: its former room does not linger.
pub proof fn lemma_restart_keeps_room_count(m: Model, m2: Model, c: Seq<char>, new_id: Seq<char>)
    requires
        m.wf(),
        m.client_map().contains_key(c),
        m.room_map()[m.client_map()[c].room@].member_map().dom() == set![c],
        !m.room_map().contains_key(new_id),
        exists|rooms1: Map<Seq<char>, Room>, clients1: Map<Seq<char>, Handle>|
            #[trigger] client_removed(m.room_map(), m.client_map(), rooms1, clients1, c)
            && m2.room_map() == rooms1.insert(new_id, m2.room_map()[new_id]),
    ensures
        m2.room_map().len() == m.room_map().len(),
{
    let (rooms1, clients1) = choose|rooms1: Map<Seq<char>, Room>, clients1: Map<Seq<char>, Handle>|
        #[trigger] client_removed(m.room_map(), m.client_map(), rooms1, clients1, c)
        && m2.room_map() == rooms1.insert(new_id, m2.room_map()[new_id]);
    let r = m.client_map()[c].room@;
    lemma_entries_finite(m.rooms@);
    lemma_sole_member_room_dropped(m.room_map(), m.client_map(), rooms1, clients1, c);
    assert(rooms1 == m.room_map().remove(r));
    assert(rooms1.dom() == m.room_map().dom().remove(r));
    assert(!rooms1.contains_key(new_id));
}

/// The rooms of a registry are finitely many.
pub proof fn lemma_rooms_finite(m: Model)
    ensures
        m.room_map().dom().finite(),
{
    lemma_entries_finite(m.rooms@);
}

/// After a client opens an event stream, that stream is its current one; once
/// it opens another, the first is no longer current, so its closing no longer
/// removes the client.
pub proof fn lemma_latest_stream_is_current(
    clients: Map<Seq<char>, Handle>,
    clients2: Map<Seq<char>, Handle>,
    clients3: Map<Seq<char>, Handle>,
    c: Seq<char>,
    s1: u128,
    s2: u128,
)
    requires
        clients.contains_key(c),
        clients2 == clients.insert(c, Handle { session: Some(s1), ..clients[c] }),
        clients3 == clients2.insert(c, Handle { session: Some(s2), ..clients2[c] }),
        s1 != s2,
    ensures
        stream_is_current(clients2, c, clients[c].room@, s1),
        !stream_is_current(clients3, c, clients[c].room@, s1),
        stream_is_current(clients3, c, clients[c].room@, s2),
{
}

} // verus!
