//! Rooms: the members playing at one location, their scores, guesses and
//! readiness, and the rounds they play.

use vstd::prelude::*;
use vstd::multiset::Multiset;

use crate::assoc::{
    distinct_keys, entries_map, find_key, lemma_entries_all, lemma_entries_dom, lemma_entries_finite, lemma_entries_index,
    lemma_entries_map_values, lemma_entries_push, lemma_entries_remove, lemma_entries_update, TextKey,
};
use crate::colors::{assigned, drawn, ColorsView, DistinctColors, PlayerColor, MAX_DISTINCT_TRIES};
use crate::event::{player_data, PlayerData, PlayerResult, RoomEvent, RoundEndData, RoundStartData};
use crate::geo::{Coordinates, Location};
use crate::handle;
use crate::random::random_below;
use crate::srgb::Srgb8;
use crate::srgb::push_char;

verus! {

/// The length of a room identifier.
pub const ROOM_ID_LENGTH: usize = 4;

/// The characters of random room identifiers: upper-case letters and digits
/// without 0, 1, O and I, which are easily confused.
pub open spec fn allowed_chars() -> Seq<char> {
    seq![
        'A', 'B', 'C', 'D', 'E', 'F', 'G', 'H', 'J', 'K', 'L', 'M', 'N', 'P', 'Q', 'R',
        'S', 'T', 'U', 'V', 'W', 'X', 'Y', 'Z', '2', '3', '4', '5', '6', '7', '8', '9',
    ]
}

fn allowed_char(i: usize) -> (c: char)
    requires
        i < 32,
    ensures
        c == allowed_chars()[i as int],
{
    let table: [char; 32] = [
        'A', 'B', 'C', 'D', 'E', 'F', 'G', 'H', 'J', 'K', 'L', 'M', 'N', 'P', 'Q', 'R',
        'S', 'T', 'U', 'V', 'W', 'X', 'Y', 'Z', '2', '3', '4', '5', '6', '7', '8', '9',
    ];
    assert(table@ =~= allowed_chars());
    table[i]
}

/// How many identifiers of [`ROOM_ID_LENGTH`] allowed characters there are.
pub const ROOM_ID_COUNT: u32 = 1048576;

/// The identifier numbered `n`: the base-32 digits of `n`, most significant
/// first, written with the allowed characters.
pub open spec fn nth_room_id(n: int) -> Seq<char> {
    seq![
        allowed_chars()[(n / 32768) % 32],
        allowed_chars()[(n / 1024) % 32],
        allowed_chars()[(n / 32) % 32],
        allowed_chars()[n % 32],
    ]
}

proof fn lemma_digits(d0: int, d1: int, d2: int, d3: int)
    by (nonlinear_arith)
    requires
        0 <= d0 < 32,
        0 <= d1 < 32,
        0 <= d2 < 32,
        0 <= d3 < 32,
    ensures
        ({
            let n = d0 * 32768 + d1 * 1024 + d2 * 32 + d3;
            &&& 0 <= n < 1048576
            &&& (n / 32768) % 32 == d0
            &&& (n / 1024) % 32 == d1
            &&& (n / 32) % 32 == d2
            &&& n % 32 == d3
        }),
{
}

/// Every identifier of [`ROOM_ID_LENGTH`] allowed characters has a number
/// below [`ROOM_ID_COUNT`].
pub proof fn lemma_room_id_numbered(k: Seq<char>) -> (n: int)
    requires
        k.len() == ROOM_ID_LENGTH,
        forall|i: int| 0 <= i < ROOM_ID_LENGTH ==> allowed_chars().contains(#[trigger] k[i]),
    ensures
        0 <= n < ROOM_ID_COUNT,
        nth_room_id(n) == k,
{
    let a = allowed_chars();
    assert(a.contains(k[0]) && a.contains(k[1]) && a.contains(k[2]) && a.contains(k[3]));
    a.index_of_first_ensures(k[0]);
    a.index_of_first_ensures(k[1]);
    a.index_of_first_ensures(k[2]);
    a.index_of_first_ensures(k[3]);
    let d0 = a.index_of_first(k[0]).unwrap();
    let d1 = a.index_of_first(k[1]).unwrap();
    let d2 = a.index_of_first(k[2]).unwrap();
    let d3 = a.index_of_first(k[3]).unwrap();
    lemma_digits(d0, d1, d2, d3);
    let n = d0 * 32768 + d1 * 1024 + d2 * 32 + d3;
    assert(nth_room_id(n) =~= k);
    n
}

/// Reading a room identifier: a text of exactly [`ROOM_ID_LENGTH`] characters
/// is accepted; otherwise the reading fails with the number of characters.
pub open spec fn parse_room_id(s: Seq<char>) -> Result<Seq<char>, nat> {
    if s.len() == ROOM_ID_LENGTH {
        Ok(s)
    } else {
        Err(s.len())
    }
}

/// The unique identifier for a room.
#[derive(Debug, PartialEq, Eq, Hash)]
pub struct Id(String);

impl View for Id {
    type V = Seq<char>;

    closed spec fn view(&self) -> Seq<char> {
        self.0@
    }
}

impl TextKey for Id {
    fn same_key(&self, other: &Self) -> (r: bool) {
        self.0 == other.0
    }
}

impl Clone for Id {
    fn clone(&self) -> (r: Self)
        ensures
            r == *self,
    {
        Id(self.0.clone())
    }
}

impl Id {
    /// The identifier with the given text, which must be exactly
    /// [`ROOM_ID_LENGTH`] characters long; otherwise the number of characters.
    pub fn parse(s: String) -> (r: Result<Id, usize>)
        ensures
            match r {
                Ok(id) => parse_room_id(s@) == Ok::<Seq<char>, nat>(id@),
                Err(n) => parse_room_id(s@) == Err::<Seq<char>, nat>(n as nat),
            },
    {
        let len = s.as_str().unicode_len();
        if len != ROOM_ID_LENGTH {
            return Err(len);
        }
        Ok(Id(s))
    }

    /// A random identifier of [`ROOM_ID_LENGTH`] allowed characters.
    pub fn random() -> (id: Id)
        ensures
            id@.len() == ROOM_ID_LENGTH,
            forall|i: int| 0 <= i < ROOM_ID_LENGTH ==> allowed_chars().contains(#[trigger] id@[i]),
    {
        let mut s = String::new();
        let mut n: usize = 0;
        while n < ROOM_ID_LENGTH
            invariant
                0 <= n <= ROOM_ID_LENGTH,
                s@.len() == n,
                forall|i: int| 0 <= i < n ==> allowed_chars().contains(#[trigger] s@[i]),
            decreases ROOM_ID_LENGTH - n,
        {
            let k = random_below(32);
            let c = allowed_char(k);
            assert(allowed_chars()[k as int] == c);
            push_char(&mut s, c);
            assert(s@[n as int] == c);
            n = n + 1;
        }
        Id(s)
    }

    /// The identifier numbered `n` in the order of [`nth_room_id`].
    pub fn nth(n: u32) -> (id: Id)
        requires
            n < ROOM_ID_COUNT,
        ensures
            id@ == nth_room_id(n as int),
    {
        let mut s = String::new();
        push_char(&mut s, allowed_char((n / 32768 % 32) as usize));
        push_char(&mut s, allowed_char((n / 1024 % 32) as usize));
        push_char(&mut s, allowed_char((n / 32 % 32) as usize));
        push_char(&mut s, allowed_char((n % 32) as usize));
        assert(s@ =~= nth_room_id(n as int));
        Id(s)
    }

    /// The identifier's text.
    pub fn as_str(&self) -> (s: &str)
        ensures
            s@ == self@,
    {
        self.0.as_str()
    }
}

/// The configuration of a room.
pub struct Config {}

/// The attributes of a member of a room.
pub struct MemberAttributes {
    /// The display name of the member.
    pub username: String,
    /// The current score of the member in the room.
    pub score: u32,
    /// The member's guess for the current round, if they have made one.
    pub guess: Option<Coordinates>,
    /// The color assigned to the member.
    pub color: PlayerColor,
    /// Whether the member is ready to move on to the next round.
    pub ready_next_round: bool,
}

/// A member who has just joined.
pub open spec fn new_member(username: String, color: PlayerColor) -> MemberAttributes {
    MemberAttributes { username, score: 0, guess: None, color, ready_next_round: false }
}

impl MemberAttributes {
    pub fn new(username: String, color: PlayerColor) -> (m: Self)
        ensures
            m == new_member(username, color),
    {
        Self { username, score: 0, guess: None, color, ready_next_round: false }
    }
}

impl Clone for MemberAttributes {
    fn clone(&self) -> (r: Self)
        ensures
            r == *self,
    {
        MemberAttributes {
            username: self.username.clone(),
            score: self.score,
            guess: self.guess,
            color: self.color,
            ready_next_round: self.ready_next_round,
        }
    }
}

/// A member's guess at the end of a round.
pub struct PlayerGuess {
    pub player: PlayerData,
    pub guess_location: Coordinates,
}

/// The event that ends a round: the real location, and for each guess, in
/// order, the guesser with the distance and points of its guess.
pub fn round_end(
    real_location: Coordinates,
    guesses: &Vec<PlayerGuess>,
    distances: &Vec<u64>,
    scores: &Vec<u32>,
) -> (e: RoomEvent)
    requires
        distances@.len() == guesses@.len(),
        scores@.len() == guesses@.len(),
    ensures
        e matches RoomEvent::RoundEnd(d) && d.real_location == real_location
            && d.player_results@.len() == guesses@.len()
            && forall|i: int| 0 <= i < guesses@.len() ==> #[trigger] d.player_results@[i] == (PlayerResult {
                player: guesses@[i].player,
                round_score: scores@[i],
                distance: distances@[i],
                guess_location: guesses@[i].guess_location,
            }),
{
    let mut player_results: Vec<PlayerResult> = Vec::new();
    let mut i: usize = 0;
    while i < guesses.len()
        invariant
            distances@.len() == guesses@.len(),
            scores@.len() == guesses@.len(),
            0 <= i <= guesses@.len(),
            player_results@.len() == i,
            forall|j: int| 0 <= j < i ==> #[trigger] player_results@[j] == (PlayerResult {
                player: guesses@[j].player,
                round_score: scores@[j],
                distance: distances@[j],
                guess_location: guesses@[j].guess_location,
            }),
        decreases guesses@.len() - i,
    {
        let player = guesses[i].player.clone();
        player_results.push(PlayerResult {
            player,
            round_score: scores[i],
            distance: distances[i],
            guess_location: guesses[i].guess_location,
        });
        i = i + 1;
    }
    RoomEvent::RoundEnd(RoundEndData { real_location, player_results })
}

/// The members after `id` guesses `guess` for `points` points.
pub open spec fn after_guess(
    members: Seq<(handle::Id, MemberAttributes)>,
    id: Seq<char>,
    guess: Coordinates,
    points: u16,
) -> Seq<(handle::Id, MemberAttributes)> {
    members.map_values(
        |p: (handle::Id, MemberAttributes)|
            if p.0@ == id {
                (p.0, MemberAttributes { score: (p.1.score + points) as u32, guess: Some(guess), ..p.1 })
            } else {
                p
            },
    )
}

/// Every member has a guess.
pub open spec fn all_guessed(members: Seq<(handle::Id, MemberAttributes)>) -> bool {
    forall|i: int| 0 <= i < members.len() ==> (#[trigger] members[i]).1.guess is Some
}

/// The members with their guesses cleared.
pub open spec fn guesses_cleared(members: Seq<(handle::Id, MemberAttributes)>) -> Seq<
    (handle::Id, MemberAttributes),
> {
    members.map_values(
        |p: (handle::Id, MemberAttributes)| (p.0, MemberAttributes { guess: None, ..p.1 }),
    )
}

/// Each member's data and guess.
pub open spec fn round_guesses(members: Seq<(handle::Id, MemberAttributes)>) -> Seq<PlayerGuess> {
    members.map_values(
        |p: (handle::Id, MemberAttributes)|
            PlayerGuess { player: player_data(p.1), guess_location: p.1.guess.unwrap() },
    )
}

/// The member, ready for the next round.
pub open spec fn ready(m: MemberAttributes) -> MemberAttributes {
    MemberAttributes { ready_next_round: true, ..m }
}

/// Every member is ready for the next round.
pub open spec fn everyone_ready(members: Map<Seq<char>, MemberAttributes>) -> bool {
    forall|k: Seq<char>| #[trigger] members.contains_key(k) ==> members[k].ready_next_round
}

/// The member with readiness cleared.
pub open spec fn unready(m: MemberAttributes) -> MemberAttributes {
    MemberAttributes { ready_next_round: false, ..m }
}

/// Clears every member's readiness.
fn clear_ready(members: &mut Vec<(handle::Id, MemberAttributes)>)
    ensures
        final(members)@ == old(members)@.map_values(
            |p: (handle::Id, MemberAttributes)| (p.0, unready(p.1)),
        ),
{
    let ghost start = members@;
    let mut i: usize = 0;
    while i < members.len()
        invariant
            0 <= i <= members@.len(),
            members@.len() == start.len(),
            forall|j: int|
                0 <= j < start.len() ==> #[trigger] members@[j] == if j < i {
                    (start[j].0, unready(start[j].1))
                } else {
                    start[j]
                },
        decreases members@.len() - i,
    {
        members[i].1.ready_next_round = false;
        i = i + 1;
    }
    assert(members@ =~= start.map_values(|p: (handle::Id, MemberAttributes)| (p.0, unready(p.1))));
}

/// Clears every member's guess.
fn clear_guesses(members: &mut Vec<(handle::Id, MemberAttributes)>)
    ensures
        final(members)@ == guesses_cleared(old(members)@),
{
    let ghost start = members@;
    let mut i: usize = 0;
    while i < members.len()
        invariant
            0 <= i <= members@.len(),
            members@.len() == start.len(),
            forall|j: int|
                0 <= j < start.len() ==> #[trigger] members@[j] == if j < i {
                    guesses_cleared(start)[j]
                } else {
                    start[j]
                },
        decreases members@.len() - i,
    {
        members[i].1.guess = None;
        i = i + 1;
    }
    assert(members@ =~= guesses_cleared(start));
}

/// Whether every member is ready.
fn all_ready(members: &Vec<(handle::Id, MemberAttributes)>) -> (r: bool)
    ensures
        r == forall|x: int| 0 <= x < members@.len() ==> (#[trigger] members@[x]).1.ready_next_round,
{
    let mut all = true;
    let mut j: usize = 0;
    while j < members.len()
        invariant
            0 <= j <= members@.len(),
            all == forall|x: int| 0 <= x < j ==> (#[trigger] members@[x]).1.ready_next_round,
        decreases members@.len() - j,
    {
        if !members[j].1.ready_next_round {
            all = false;
        }
        j = j + 1;
    }
    all
}

/// Whether every member has a guess.
fn all_have_guess(members: &Vec<(handle::Id, MemberAttributes)>) -> (r: bool)
    ensures
        r == all_guessed(members@),
{
    let mut all = true;
    let mut j: usize = 0;
    while j < members.len()
        invariant
            0 <= j <= members@.len(),
            all == forall|x: int| 0 <= x < j ==> (#[trigger] members@[x]).1.guess is Some,
        decreases members@.len() - j,
    {
        if members[j].1.guess.is_none() {
            all = false;
        }
        j = j + 1;
    }
    all
}

/// Each member's data and guess.
fn collect_guesses(members: &Vec<(handle::Id, MemberAttributes)>) -> (r: Vec<PlayerGuess>)
    requires
        all_guessed(members@),
    ensures
        r@ == round_guesses(members@),
{
    let mut results: Vec<PlayerGuess> = Vec::new();
    let mut k: usize = 0;
    while k < members.len()
        invariant
            all_guessed(members@),
            0 <= k <= members@.len(),
            results@.len() == k,
            forall|x: int| 0 <= x < k ==> #[trigger] results@[x] == round_guesses(members@)[x],
        decreases members@.len() - k,
    {
        let player = PlayerData::from(&members[k].1);
        let guess_location = members[k].1.guess.unwrap();
        results.push(PlayerGuess { player, guess_location });
        k = k + 1;
    }
    assert(results@ =~= round_guesses(members@));
    results
}

/// `b` is room `a` after the member `c` left: the member is gone and its
/// color freed, and nothing else changed.
pub open spec fn member_removed(a: Room, b: Room, c: Seq<char>) -> bool {
    let m = a.member_map()[c];
    &&& b.wf()
    &&& b.member_map() == a.member_map().remove(c)
    &&& b.colors@ == ColorsView {
        occupied: a.colors@.occupied.remove_value(m.color.srgb),
        ..a.colors@
    }
    &&& b.round == a.round
    &&& b.location == a.location
    &&& b.active_connections == a.active_connections
    &&& b.cleanup_pending == a.cleanup_pending
}

/// `b` has the members of `a`, under the same names and colors.
pub open spec fn same_roster(a: Room, b: Room) -> bool {
    &&& b.wf()
    &&& b.member_map().dom() == a.member_map().dom()
    &&& forall|k: Seq<char>| #[trigger]
        a.member_map().contains_key(k) ==> b.member_map()[k].username == a.member_map()[k].username
            && b.member_map()[k].color == a.member_map()[k].color
}

/// Members that keep their identifiers, names and colors in place keep the
/// roster.
proof fn lemma_same_roster(
    s: Seq<(handle::Id, MemberAttributes)>,
    t: Seq<(handle::Id, MemberAttributes)>,
)
    requires
        distinct_keys(s),
        t.len() == s.len(),
        forall|i: int|
            0 <= i < s.len() ==> (#[trigger] t[i]).0 == s[i].0 && t[i].1.username == s[i].1.username
                && t[i].1.color == s[i].1.color,
    ensures
        distinct_keys(t),
        entries_map(t).dom() == entries_map(s).dom(),
        forall|k: Seq<char>| #[trigger]
            entries_map(s).contains_key(k) ==> entries_map(t)[k].username == entries_map(s)[k].username
                && entries_map(t)[k].color == entries_map(s)[k].color,
{
    assert forall|i: int, j: int| 0 <= i < j < t.len() implies (#[trigger] t[i]).0@ != (#[trigger] t[j]).0@ by {
        assert(t[i].0 == s[i].0);
        assert(t[j].0 == s[j].0);
    }
    assert forall|k: Seq<char>| entries_map(t).contains_key(k) <==> entries_map(s).contains_key(k) by {
        lemma_entries_dom(s, k);
        lemma_entries_dom(t, k);
        if entries_map(s).contains_key(k) {
            let i = choose|i: int| 0 <= i < s.len() && (#[trigger] s[i]).0@ == k;
            assert(t[i].0@ == k);
        }
        if entries_map(t).contains_key(k) {
            let i = choose|i: int| 0 <= i < t.len() && (#[trigger] t[i]).0@ == k;
            assert(s[i].0@ == k);
        }
    }
    assert(entries_map(t).dom() =~= entries_map(s).dom());
    assert forall|k: Seq<char>| #[trigger] entries_map(s).contains_key(k) implies entries_map(t)[k].username
        == entries_map(s)[k].username && entries_map(t)[k].color == entries_map(s)[k].color by {
        lemma_entries_dom(s, k);
        let i = choose|i: int| 0 <= i < s.len() && (#[trigger] s[i]).0@ == k;
        lemma_entries_index(s, i);
        lemma_entries_index(t, i);
    }
}

/// `room` is a new room at `location` whose only member is `client_id`,
/// colored as [`DistinctColors::assign`] colors it from `colors`.
pub open spec fn room_opened<F: Fn(usize) -> Option<Srgb8>>(
    room: Room,
    location: Location,
    client_id: handle::Id,
    username: String,
    color_override: Option<Srgb8>,
    colors: ColorsView,
    probe: F,
) -> bool {
    &&& room.wf()
    &&& room.members@.len() == 1
    &&& room.members@[0].0 == client_id
    &&& room.members@[0].1 == new_member(username, room.members@[0].1.color)
    &&& assigned(colors, room.colors@, color_override, probe, room.members@[0].1.color)
    &&& room.round == 0
    &&& room.location == location
    &&& room.active_connections == 0
    &&& !room.cleanup_pending
}

/// `b` is room `a` after client `c` joined under `username` with its own
/// color `srgb`.
pub open spec fn member_joined(a: Room, b: Room, c: Seq<char>, username: String, srgb: Srgb8) -> bool {
    &&& b.wf()
    &&& b.member_map() == a.member_map().insert(
        c,
        new_member(username, PlayerColor { srgb, custom: true }),
    )
    &&& b.colors@ == ColorsView { occupied: a.colors@.occupied.push(srgb), ..a.colors@ }
    &&& b.round == a.round
    &&& b.location == a.location
    &&& b.active_connections == a.active_connections
    &&& b.cleanup_pending == a.cleanup_pending
}

/// `b` is room `a` with member `c` renamed to `username`.
pub open spec fn member_renamed(a: Room, b: Room, c: Seq<char>, username: String) -> bool {
    &&& b.wf()
    &&& b.member_map() == a.member_map().insert(
        c,
        MemberAttributes { username, ..a.member_map()[c] },
    )
    &&& b.colors == a.colors
    &&& b.round == a.round
    &&& b.location == a.location
    &&& b.active_connections == a.active_connections
    &&& b.cleanup_pending == a.cleanup_pending
}

/// `b` is room `a` with member `c` recolored to its own color `srgb`: the
/// old color is freed and the new one occupied.
pub open spec fn member_recolored(a: Room, b: Room, c: Seq<char>, srgb: Srgb8) -> bool {
    let m = a.member_map()[c];
    &&& b.wf()
    &&& b.member_map() == a.member_map().insert(
        c,
        MemberAttributes { color: PlayerColor { srgb, custom: true }, ..m },
    )
    &&& b.colors@ == ColorsView {
        occupied: a.colors@.occupied.remove_value(m.color.srgb).push(srgb),
        ..a.colors@
    }
    &&& b.round == a.round
    &&& b.location == a.location
    &&& b.active_connections == a.active_connections
    &&& b.cleanup_pending == a.cleanup_pending
}

/// `b` is room `a` after member `c` said it is ready; `all_ready` tells
/// whether every member now is.
pub open spec fn ready_submitted(a: Room, b: Room, c: Seq<char>, all_ready: bool) -> bool {
    &&& b.wf()
    &&& b.member_map() == a.member_map().insert(c, ready(a.member_map()[c]))
    &&& all_ready == everyone_ready(b.member_map())
    &&& b.colors == a.colors
    &&& b.active_connections == a.active_connections
    &&& b.cleanup_pending == a.cleanup_pending
    &&& b.round == a.round
    &&& b.location == a.location
}

/// `b` is room `a` in its next round at `location`, which `ev` announces.
pub open spec fn round_started(a: Room, b: Room, location: Location, ev: RoomEvent) -> bool {
    &&& b.wf()
    &&& b.member_map() == a.member_map().map_values(|m: MemberAttributes| unready(m))
    &&& b.location == location
    &&& b.round == a.round + 1
    &&& ev == RoomEvent::RoundStart(RoundStartData { pano_id: location.pano_id, round: b.round })
    &&& b.colors == a.colors
    &&& b.active_connections == a.active_connections
    &&& b.cleanup_pending == a.cleanup_pending
}

/// `b` is room `a` after member `c` guessed `guess` for `points`; when that
/// completes the round, `r` holds everyone's guesses and the guesses are
/// cleared.
pub open spec fn guess_submitted(
    a: Room,
    b: Room,
    c: Seq<char>,
    guess: Coordinates,
    points: u16,
    r: Option<Vec<PlayerGuess>>,
) -> bool {
    let mid = after_guess(a.members@, c, guess, points);
    &&& !all_guessed(mid) ==> r is None && b.members@ == mid
    &&& all_guessed(mid) ==> (r matches Some(v) && v@ == round_guesses(mid))
    &&& all_guessed(mid) ==> b.members@ == guesses_cleared(mid)
    &&& same_roster(a, b)
    &&& b.colors == a.colors
    &&& b.active_connections == a.active_connections
    &&& b.cleanup_pending == a.cleanup_pending
    &&& b.round == a.round
    &&& b.location == a.location
}

/// A room exists in a particular location, housing members who all play there.
pub struct Room {
    /// The members, each under its client identifier.
    pub members: Vec<(handle::Id, MemberAttributes)>,
    /// The number of rounds played.
    pub round: usize,
    /// The room's current location.
    pub location: Location,
    /// The generator of the members' colors.
    pub colors: DistinctColors,
    /// The room's rules (none yet).
    pub config: Config,
    /// Number of live event streams subscribed to this room.
    pub active_connections: usize,
    /// Whether a cleanup of the room is scheduled.
    pub cleanup_pending: bool,
}

impl Room {
    /// The members by client identifier.
    pub open spec fn member_map(&self) -> Map<Seq<char>, MemberAttributes> {
        entries_map(self.members@)
    }

    /// No client is a member twice.
    pub open spec fn wf(&self) -> bool {
        distinct_keys(self.members@)
    }

    /// A room at `location` whose only member is `client_id`, colored by the
    /// override if given, else by a draw from `colors`.
    pub fn new<F: Fn(usize) -> Option<Srgb8>>(
        location: Location,
        client_id: handle::Id,
        username: String,
        color_override: Option<Srgb8>,
        colors: DistinctColors,
        probe: F,
    ) -> (room: Self)
        requires
            color_override is None ==> forall|i: usize| #[trigger] call_requires(probe, (i,)),
            color_override is None ==> colors@.next_index + MAX_DISTINCT_TRIES <= usize::MAX,
        ensures
            room_opened(room, location, client_id, username, color_override, colors@, probe),
    {
        let mut colors = colors;
        let color = colors.assign(color_override, probe);
        let mut members = Vec::new();
        members.push((client_id, MemberAttributes::new(username, color)));
        Self {
            members,
            round: 0,
            location,
            colors,
            config: Config {},
            active_connections: 0,
            cleanup_pending: false,
        }
    }

    /// Register a new live event stream. Any scheduled cleanup is called off;
    /// the result tells whether there was one.
    pub fn connect(&mut self) -> (had_cleanup: bool)
        requires
            old(self).active_connections < usize::MAX,
        ensures
            final(self).active_connections == old(self).active_connections + 1,
            !final(self).cleanup_pending,
            had_cleanup == old(self).cleanup_pending,
            final(self).members == old(self).members,
            final(self).round == old(self).round,
            final(self).location == old(self).location,
            final(self).colors == old(self).colors,
    {
        self.active_connections = self.active_connections + 1;
        let had = self.cleanup_pending;
        self.cleanup_pending = false;
        had
    }

    /// Unregister a live event stream.
    pub fn disconnect(&mut self)
        ensures
            final(self).active_connections == if old(self).active_connections == 0 {
                0
            } else {
                old(self).active_connections - 1
            },
            final(self).cleanup_pending == old(self).cleanup_pending,
            final(self).members == old(self).members,
            final(self).round == old(self).round,
            final(self).location == old(self).location,
            final(self).colors == old(self).colors,
    {
        self.active_connections = self.active_connections.saturating_sub(1);
    }

    /// A room is idle when no live event stream is subscribed to it.
    pub fn is_idle(&self) -> (r: bool)
        ensures
            r == (self.active_connections == 0),
    {
        self.active_connections == 0
    }

    /// Record that a cleanup is scheduled; the result tells whether one was
    /// already scheduled, which the new one replaces.
    pub fn arm_cleanup(&mut self) -> (replaced: bool)
        ensures
            replaced == old(self).cleanup_pending,
            final(self).cleanup_pending,
            final(self).active_connections == old(self).active_connections,
            final(self).members == old(self).members,
            final(self).round == old(self).round,
            final(self).location == old(self).location,
            final(self).colors == old(self).colors,
    {
        let had = self.cleanup_pending;
        self.cleanup_pending = true;
        had
    }

    pub fn set_config(&mut self, config: Config)
        ensures
            *final(self) == (Room { config, ..*old(self) }),
    {
        self.config = config;
    }

    /// Add a member, or replace the member with the same identifier. Its color
    /// is the override if given, else a draw from the room's colors. Gives the
    /// event announcing the member.
    pub fn add_member<F: Fn(usize) -> Option<Srgb8>>(
        &mut self,
        client_id: &handle::Id,
        username: String,
        color_override: Option<Srgb8>,
        probe: F,
    ) -> (ev: RoomEvent)
        requires
            old(self).wf(),
            color_override is None ==> forall|i: usize| #[trigger] call_requires(probe, (i,)),
            color_override is None ==> old(self).colors@.next_index + MAX_DISTINCT_TRIES <= usize::MAX,
        ensures
            final(self).wf(),
            final(self).member_map().contains_key(client_id@),
            ({
                let m = final(self).member_map()[client_id@];
                &&& m == new_member(username, m.color)
                &&& final(self).member_map() == old(self).member_map().insert(client_id@, m)
                &&& assigned(old(self).colors@, final(self).colors@, color_override, probe, m.color)
                &&& ev == RoomEvent::PlayerJoined {
                    client_id: *client_id,
                    data: PlayerData { username, color: m.color.srgb, score: 0 },
                }
            }),
            final(self).active_connections == old(self).active_connections,
            final(self).cleanup_pending == old(self).cleanup_pending,
            final(self).round == old(self).round,
            final(self).location == old(self).location,
    {
        let color = self.colors.assign(color_override, probe);
        let name = username.clone();
        let member = MemberAttributes::new(username, color);
        let entry = (client_id.clone(), member);
        let ghost old_members = self.members@;
        match find_key(&self.members, client_id) {
            Some(i) => {
                proof {
                    lemma_entries_update(old_members, i as int, entry);
                }
                self.members.set(i, entry);
            },
            None => {
                proof {
                    lemma_entries_dom(old_members, client_id@);
                    lemma_entries_push(old_members, entry);
                }
                self.members.push(entry);
            },
        }
        proof {
            assert(self.member_map() == entries_map(old_members).insert(client_id@, new_member(name, color)));
        }
        RoomEvent::PlayerJoined {
            client_id: client_id.clone(),
            data: PlayerData { username: name, color: color.srgb, score: 0 },
        }
    }

    /// Snapshot of every member as `PlayerData`, in the order of the members.
    pub fn players(&self) -> (r: Vec<PlayerData>)
        ensures
            r@.len() == self.members@.len(),
            forall|i: int| 0 <= i < r@.len() ==> #[trigger] r@[i] == player_data(self.members@[i].1),
    {
        let mut r: Vec<PlayerData> = Vec::new();
        let mut i: usize = 0;
        while i < self.members.len()
            invariant
                0 <= i <= self.members@.len(),
                r@.len() == i,
                forall|j: int| 0 <= j < i ==> #[trigger] r@[j] == player_data(self.members@[j].1),
            decreases self.members@.len() - i,
        {
            r.push(PlayerData::from(&self.members[i].1));
            i = i + 1;
        }
        r
    }

    /// Remove a member and free its color. Gives the event announcing the
    /// departure, or `None` (and changes nothing) if there is no such member.
    pub fn remove_member(&mut self, client_id: &handle::Id) -> (ev: Option<RoomEvent>)
        requires
            old(self).wf(),
        ensures
            final(self).wf(),
            !old(self).member_map().contains_key(client_id@) ==> ev is None && *final(self) == *old(self),
            old(self).member_map().contains_key(client_id@) ==> ({
                let m = old(self).member_map()[client_id@];
                &&& member_removed(*old(self), *final(self), client_id@)
                &&& ev == Some(RoomEvent::PlayerLeft { client_id: *client_id, username: m.username })
            }),
    {
        let ghost old_members = self.members@;
        match find_key(&self.members, client_id) {
            None => {
                proof {
                    lemma_entries_dom(old_members, client_id@);
                }
                None
            },
            Some(i) => {
                proof {
                    lemma_entries_index(old_members, i as int);
                    lemma_entries_remove(old_members, i as int);
                }
                let (_, member) = self.members.remove(i);
                self.colors.remove_occupied(member.color.srgb);
                Some(RoomEvent::PlayerLeft { client_id: client_id.clone(), username: member.username })
            },
        }
    }

    /// Mark a member ready for the next round. Gives whether every member is
    /// now ready; `false` (changing nothing) if there is no such member.
    pub fn submit_ready(&mut self, client_id: &handle::Id) -> (all_ready: bool)
        requires
            old(self).wf(),
        ensures
            final(self).wf(),
            !old(self).member_map().contains_key(client_id@) ==> !all_ready && *final(self) == *old(self),
            old(self).member_map().contains_key(client_id@) ==> ready_submitted(
                *old(self),
                *final(self),
                client_id@,
                all_ready,
            ),
    {
        let ghost old_members = self.members@;
        let found = find_key(&self.members, client_id);
        if found.is_none() {
            proof {
                lemma_entries_dom(old_members, client_id@);
            }
            return false;
        }
        let i = found.unwrap();
        proof {
            lemma_entries_index(old_members, i as int);
        }
        let mut entry = (self.members[i].0.clone(), self.members[i].1.clone());
        entry.1.ready_next_round = true;
        proof {
            lemma_entries_update(old_members, i as int, entry);
        }
        self.members.set(i, entry);
        let all = all_ready(&self.members);
        proof {
            lemma_entries_all(self.members@, |m: MemberAttributes| m.ready_next_round);
        }
        all
    }

    /// Move to the next round at `new_location`: every member becomes not
    /// ready, the round count goes up, and the round's start is announced.
    pub fn start_next_round(&mut self, new_location: Location) -> (ev: RoomEvent)
        requires
            old(self).wf(),
            old(self).round < usize::MAX,
        ensures
            round_started(*old(self), *final(self), new_location, ev),
    {
        let pano_id = new_location.pano_id.clone();
        self.location = new_location;
        let ghost old_members = self.members@;
        clear_ready(&mut self.members);
        proof {
            lemma_entries_map_values(old_members, self.members@, |m: MemberAttributes| unready(m));
        }
        self.round = self.round + 1;
        RoomEvent::RoundStart(RoundStartData { pano_id, round: self.round })
    }

    /// Record a member's guess, worth `points`. When every member has then
    /// guessed, the round ends: the result lists each member's data and guess,
    /// and all guesses are cleared. Without such a member nothing changes.
    pub fn submit_guess(&mut self, client_id: &handle::Id, guess: Coordinates, points: u16) -> (r:
        Option<Vec<PlayerGuess>>)
        requires
            old(self).wf(),
            old(self).member_map().contains_key(client_id@) ==> old(self).member_map()[client_id@].score
                + points <= u32::MAX,
        ensures
            final(self).wf(),
            !old(self).member_map().contains_key(client_id@) ==> r is None && *final(self) == *old(self),
            old(self).member_map().contains_key(client_id@) ==> guess_submitted(
                *old(self),
                *final(self),
                client_id@,
                guess,
                points,
                r,
            ),
    {
        let ghost old_members = self.members@;
        let found = find_key(&self.members, client_id);
        if found.is_none() {
            proof {
                lemma_entries_dom(old_members, client_id@);
            }
            return None;
        }
        let i = found.unwrap();
        proof {
            lemma_entries_index(old_members, i as int);
        }
        let ghost mid = after_guess(old_members, client_id@, guess, points);
        let mut entry = (self.members[i].0.clone(), self.members[i].1.clone());
        entry.1.score = entry.1.score + points as u32;
        entry.1.guess = Some(guess);
        let ghost entry_g = entry;
        self.members.set(i, entry);
        proof {
            assert forall|j: int| 0 <= j < old_members.len() && j != i implies old_members[j].0@
                != client_id@ by {
                if j < i {
                    assert(old_members[j].0@ != old_members[i as int].0@);
                } else {
                    assert(old_members[i as int].0@ != old_members[j].0@);
                }
            }
            assert(self.members@ =~= mid);
            lemma_entries_update(old_members, i as int, entry_g);
        }
        let all = all_have_guess(&self.members);
        if !all {
            proof {
                lemma_same_roster(old_members, self.members@);
            }
            return None;
        }
        let results = collect_guesses(&self.members);
        clear_guesses(&mut self.members);
        proof {
            lemma_entries_map_values(mid, guesses_cleared(mid), |m: MemberAttributes| MemberAttributes { guess: None, ..m });
            lemma_same_roster(old_members, self.members@);
        }
        Some(results)
    }

    /// Rename a member.
    pub fn set_member_name(&mut self, client_id: &handle::Id, username: String)
        requires
            old(self).wf(),
            old(self).member_map().contains_key(client_id@),
        ensures
            member_renamed(*old(self), *final(self), client_id@, username),
    {
        let ghost old_members = self.members@;
        proof {
            lemma_entries_dom(old_members, client_id@);
        }
        let found = find_key(&self.members, client_id);
        let i = found.unwrap();
        proof {
            lemma_entries_index(old_members, i as int);
        }
        let mut entry = (self.members[i].0.clone(), self.members[i].1.clone());
        entry.1.username = username;
        proof {
            lemma_entries_update(old_members, i as int, entry);
        }
        self.members.set(i, entry);
    }

    /// Give a member its own color: the old one is freed and the new one
    /// occupied.
    pub fn set_member_color(&mut self, client_id: &handle::Id, srgb: Srgb8)
        requires
            old(self).wf(),
            old(self).member_map().contains_key(client_id@),
        ensures
            member_recolored(*old(self), *final(self), client_id@, srgb),
    {
        let ghost old_members = self.members@;
        proof {
            lemma_entries_dom(old_members, client_id@);
        }
        let found = find_key(&self.members, client_id);
        let i = found.unwrap();
        proof {
            lemma_entries_index(old_members, i as int);
        }
        let mut entry = (self.members[i].0.clone(), self.members[i].1.clone());
        self.colors.remove_occupied(entry.1.color.srgb);
        self.colors.push_occupied(srgb);
        entry.1.color = PlayerColor::custom(srgb);
        proof {
            lemma_entries_update(old_members, i as int, entry);
        }
        self.members.set(i, entry);
    }
}

/// Every identifier that [`Id::random`] makes is accepted when read back.
pub proof fn lemma_random_id_reads_back(s: Seq<char>)
    requires
        s.len() == ROOM_ID_LENGTH,
        forall|i: int| 0 <= i < ROOM_ID_LENGTH ==> allowed_chars().contains(#[trigger] s[i]),
    ensures
        parse_room_id(s) == Ok::<Seq<char>, nat>(s),
{
}

/// A guess adds its points to the guessing member's score and records the
/// guess; the other members are unchanged.
pub proof fn lemma_guess_scores(
    members: Seq<(handle::Id, MemberAttributes)>,
    id: Seq<char>,
    guess: Coordinates,
    points: u16,
    i: int,
)
    requires
        0 <= i < members.len(),
        members[i].1.score + points <= u32::MAX,
    ensures
        members[i].0@ == id ==> after_guess(members, id, guess, points)[i].1.score == members[i].1.score
            + points && after_guess(members, id, guess, points)[i].1.guess == Some(guess),
        members[i].0@ != id ==> after_guess(members, id, guess, points)[i] == members[i],
{
}

/// Once a round has ended, no member has a guess left.
pub proof fn lemma_round_end_clears_guesses(a: Room, b: Room, c: Seq<char>, guess: Coordinates, points: u16, r: Option<Vec<PlayerGuess>>)
    requires
        guess_submitted(a, b, c, guess, points, r),
        r is Some,
    ensures
        forall|i: int| 0 <= i < b.members@.len() ==> (#[trigger] b.members@[i]).1.guess is None,
{
    let mid = after_guess(a.members@, c, guess, points);
    if !all_guessed(mid) {
        assert(r is None);
    }
}

/// After a new round starts, no member is ready for the next one.
pub proof fn lemma_new_round_nobody_ready(a: Room, b: Room, location: Location, ev: RoomEvent)
    requires
        round_started(a, b, location, ev),
    ensures
        forall|k: Seq<char>| #[trigger] b.member_map().contains_key(k) ==> !b.member_map()[k].ready_next_round,
{
}

/// The members whose color is `c`.
pub open spec fn holders(members: Map<Seq<char>, MemberAttributes>, c: Srgb8) -> Set<Seq<char>> {
    members.dom().filter(|k: Seq<char>| members[k].color.srgb == c)
}

/// The colors registered as occupied are, counted with repetition, the
/// members' colors: each color occurs as often as members have it.
pub open spec fn colors_in_step(room: Room) -> bool {
    forall|c: Srgb8|
        #[trigger] room.colors@.occupied.to_multiset().count(c) == holders(room.member_map(), c).len()
}

proof fn lemma_holders_finite(room: Room, c: Srgb8)
    ensures
        holders(room.member_map(), c).finite(),
{
    lemma_entries_finite(room.members@);
    assert(holders(room.member_map(), c) =~= room.member_map().dom().intersect(
        Set::new(|k: Seq<char>| room.member_map()[k].color.srgb == c),
    ));
}

proof fn lemma_remove_value_multiset(s: Seq<Srgb8>, x: Srgb8)
    requires
        s.contains(x),
    ensures
        s.remove_value(x).to_multiset() == s.to_multiset().remove(x),
{
    s.index_of_first_ensures(x);
    let i = s.index_of_first(x).unwrap();
    vstd::seq_lib::to_multiset_remove(s, i);
}

/// A member joining with a color that becomes occupied keeps the colors in
/// step with the members.
proof fn lemma_join_in_step(a: Room, b: Room, c: Seq<char>, m: MemberAttributes)
    requires
        colors_in_step(a),
        !a.member_map().contains_key(c),
        b.member_map() == a.member_map().insert(c, m),
        b.colors@.occupied == a.colors@.occupied.push(m.color.srgb),
    ensures
        colors_in_step(b),
{
    vstd::seq_lib::to_multiset_build(a.colors@.occupied, m.color.srgb);
    assert forall|x: Srgb8| #[trigger] b.colors@.occupied.to_multiset().count(x) == holders(b.member_map(), x).len() by {
        lemma_holders_finite(a, x);
        assert(a.colors@.occupied.to_multiset().count(x) == holders(a.member_map(), x).len());
        if x == m.color.srgb {
            assert(holders(b.member_map(), x) =~= holders(a.member_map(), x).insert(c));
        } else {
            assert(holders(b.member_map(), x) =~= holders(a.member_map(), x));
        }
    }
}

/// A member leaving, its color freed, keeps the colors in step with the
/// members.
proof fn lemma_leave_in_step(a: Room, b: Room, c: Seq<char>)
    requires
        colors_in_step(a),
        a.member_map().contains_key(c),
        b.member_map() == a.member_map().remove(c),
        b.colors@.occupied == a.colors@.occupied.remove_value(a.member_map()[c].color.srgb),
    ensures
        colors_in_step(b),
{
    let x0 = a.member_map()[c].color.srgb;
    lemma_holders_finite(a, x0);
    assert(holders(a.member_map(), x0).contains(c));
    assert(a.colors@.occupied.to_multiset().count(x0) == holders(a.member_map(), x0).len());
    vstd::seq_lib::to_multiset_contains(a.colors@.occupied, x0);
    lemma_remove_value_multiset(a.colors@.occupied, x0);
    assert forall|x: Srgb8| #[trigger] b.colors@.occupied.to_multiset().count(x) == holders(b.member_map(), x).len() by {
        lemma_holders_finite(a, x);
        assert(a.colors@.occupied.to_multiset().count(x) == holders(a.member_map(), x).len());
        if x == x0 {
            assert(holders(b.member_map(), x) =~= holders(a.member_map(), x).remove(c));
        } else {
            assert(holders(b.member_map(), x) =~= holders(a.member_map(), x));
        }
    }
}

/// A room opened from a generator with no color occupied has its colors in
/// step with its member, unless the generator gave up and the member got the
/// fallback color, which is not registered.
pub proof fn lemma_opened_in_step<F: Fn(usize) -> Option<Srgb8>>(
    room: Room,
    location: Location,
    client_id: handle::Id,
    username: String,
    color_override: Option<Srgb8>,
    colors: ColorsView,
    probe: F,
)
    requires
        room_opened(room, location, client_id, username, color_override, colors, probe),
        colors.occupied.len() == 0,
        !(color_override is None && drawn(colors, room.colors@, probe, None)),
    ensures
        colors_in_step(room),
{
    let m = room.members@[0].1;
    let c = room.members@[0].0@;
    assert(room.colors@.occupied =~= seq![m.color.srgb]);
    assert(room.members@ =~= seq![room.members@[0]]);
    assert(room.members@.drop_last() =~= Seq::<(handle::Id, MemberAttributes)>::empty());
    assert(entries_map(room.members@.drop_last()) =~= Map::<Seq<char>, MemberAttributes>::empty());
    assert(room.member_map() == entries_map(room.members@.drop_last()).insert(c, m));
    assert(room.member_map().dom() =~= set![c]);
    assert(room.member_map()[c] == m);
    assert(seq![m.color.srgb] =~= Seq::<Srgb8>::empty().push(m.color.srgb));
    vstd::seq_lib::to_multiset_build(Seq::<Srgb8>::empty(), m.color.srgb);
    assert(Seq::<Srgb8>::empty().to_multiset() =~= Multiset::<Srgb8>::empty()) by {
        broadcast use vstd::multiset::group_multiset_axioms;
        vstd::seq_lib::to_multiset_len(Seq::<Srgb8>::empty());
        vstd::multiset::lemma_multiset_empty_len(Seq::<Srgb8>::empty().to_multiset());
    }
    assert forall|x: Srgb8| #[trigger] room.colors@.occupied.to_multiset().count(x) == holders(room.member_map(), x).len() by {
        broadcast use vstd::multiset::group_multiset_axioms;
        if x == m.color.srgb {
            assert(holders(room.member_map(), x) =~= set![c]);
        } else {
            assert(holders(room.member_map(), x) =~= Set::<Seq<char>>::empty());
        }
    }
}

/// A new member joining a room whose colors are in step with its members
/// keeps them in step, unless the generator gave up and the member got the
/// fallback color, which is not registered.
pub proof fn lemma_add_member_in_step<F: Fn(usize) -> Option<Srgb8>>(
    a: Room,
    b: Room,
    c: Seq<char>,
    m: MemberAttributes,
    color_override: Option<Srgb8>,
    probe: F,
)
    requires
        colors_in_step(a),
        !a.member_map().contains_key(c),
        b.member_map() == a.member_map().insert(c, m),
        assigned(a.colors@, b.colors@, color_override, probe, m.color),
        !(color_override is None && drawn(a.colors@, b.colors@, probe, None)),
    ensures
        colors_in_step(b),
{
    lemma_join_in_step(a, b, c, m);
}

/// A member leaving keeps the colors in step with the members.
pub proof fn lemma_remove_member_in_step(a: Room, b: Room, c: Seq<char>)
    requires
        colors_in_step(a),
        a.member_map().contains_key(c),
        member_removed(a, b, c),
    ensures
        colors_in_step(b),
{
    lemma_leave_in_step(a, b, c);
}

/// A member taking a color of its own keeps the colors in step with the
/// members.
pub proof fn lemma_recolor_in_step(a: Room, b: Room, c: Seq<char>, srgb: Srgb8)
    requires
        colors_in_step(a),
        a.member_map().contains_key(c),
        member_recolored(a, b, c, srgb),
    ensures
        colors_in_step(b),
{
    let m = a.member_map()[c];
    let mid = Room {
        members: b.members,
        colors: b.colors,
        ..a
    };
    let mid_map = a.member_map().remove(c);
    // through the room without the member
    let ghost occ_mid = a.colors@.occupied.remove_value(m.color.srgb);
    assert(b.colors@.occupied == occ_mid.push(srgb));
    lemma_holders_finite(a, m.color.srgb);
    assert(holders(a.member_map(), m.color.srgb).contains(c));
    assert(a.colors@.occupied.to_multiset().count(m.color.srgb) == holders(a.member_map(), m.color.srgb).len());
    vstd::seq_lib::to_multiset_contains(a.colors@.occupied, m.color.srgb);
    lemma_remove_value_multiset(a.colors@.occupied, m.color.srgb);
    vstd::seq_lib::to_multiset_build(occ_mid, srgb);
    assert forall|x: Srgb8| #[trigger] b.colors@.occupied.to_multiset().count(x) == holders(b.member_map(), x).len() by {
        lemma_holders_finite(a, x);
        assert(a.colors@.occupied.to_multiset().count(x) == holders(a.member_map(), x).len());
        let h = holders(a.member_map(), x);
        if x == m.color.srgb && x == srgb {
            assert(holders(b.member_map(), x) =~= h);
        } else if x == m.color.srgb {
            assert(holders(b.member_map(), x) =~= h.remove(c));
        } else if x == srgb {
            assert(holders(b.member_map(), x) =~= h.insert(c));
        } else {
            assert(holders(b.member_map(), x) =~= h);
        }
    }
}

/// Changes that keep every member's color and the occupied colors keep the
/// colors in step with the members (renaming, readiness, guesses, rounds,
/// connections).
pub proof fn lemma_same_colors_in_step(a: Room, b: Room)
    requires
        colors_in_step(a),
        b.colors@.occupied == a.colors@.occupied,
        b.member_map().dom() == a.member_map().dom(),
        forall|k: Seq<char>| #[trigger] a.member_map().contains_key(k) ==> b.member_map()[k].color == a.member_map()[k].color,
    ensures
        colors_in_step(b),
{
    assert forall|x: Srgb8| #[trigger] b.colors@.occupied.to_multiset().count(x) == holders(b.member_map(), x).len() by {
        assert(a.colors@.occupied.to_multiset().count(x) == holders(a.member_map(), x).len());
        assert(holders(b.member_map(), x) =~= holders(a.member_map(), x));
    }
}

/// A guess adds its points to the guesser's score and to no one else's; a
/// member's name, color and readiness stay as they were. Ending the round
/// clears every guess and nothing more, so scores carry over to the next
/// round; otherwise the guesser's guess is recorded and the others' kept.
pub proof fn lemma_guess_keeps_scores(
    a: Room,
    b: Room,
    c: Seq<char>,
    guess: Coordinates,
    points: u16,
    r: Option<Vec<PlayerGuess>>,
)
    requires
        a.wf(),
        a.member_map().contains_key(c),
        a.member_map()[c].score + points <= u32::MAX,
        guess_submitted(a, b, c, guess, points, r),
    ensures
        b.member_map().dom() == a.member_map().dom(),
        forall|k: Seq<char>| #[trigger] a.member_map().contains_key(k) ==> {
            let m = a.member_map()[k];
            let n = b.member_map()[k];
            &&& n.score == m.score + (if k == c { points as int } else { 0 })
            &&& n.username == m.username
            &&& n.color == m.color
            &&& n.ready_next_round == m.ready_next_round
            &&& r is Some ==> n.guess is None
            &&& r is None && k == c ==> n.guess == Some(guess)
            &&& r is None && k != c ==> n.guess == m.guess
        },
{
    let s = a.members@;
    let mid = after_guess(s, c, guess, points);
    assert forall|k: Seq<char>| #[trigger] a.member_map().contains_key(k) implies {
        let m = a.member_map()[k];
        let n = b.member_map()[k];
        &&& n.score == m.score + (if k == c { points as int } else { 0 })
        &&& n.username == m.username
        &&& n.color == m.color
        &&& n.ready_next_round == m.ready_next_round
        &&& r is Some ==> n.guess is None
        &&& r is None && k == c ==> n.guess == Some(guess)
        &&& r is None && k != c ==> n.guess == m.guess
    } by {
        lemma_entries_dom(s, k);
        let i = choose|i: int| 0 <= i < s.len() && (#[trigger] s[i]).0@ == k;
        lemma_entries_index(s, i);
        assert(mid.len() == s.len());
        assert(mid[i].0 == s[i].0);
        if all_guessed(mid) {
            assert(b.members@ == guesses_cleared(mid));
            assert(b.members@[i] == guesses_cleared(mid)[i]);
        } else {
            assert(b.members@ == mid);
        }
        assert(b.members@.len() == s.len());
        assert(b.members@[i].0 == s[i].0);
        lemma_entries_index(b.members@, i);
        if all_guessed(mid) {
            assert(r is Some);
        } else {
            assert(r is None);
        }
    }
}

/// Starting a round counts it, moves the room to the new location, and
/// clears every member's readiness, keeping each member's score, name, color
/// and guess.
pub proof fn lemma_new_round_keeps_scores(a: Room, b: Room, location: Location, ev: RoomEvent)
    requires
        round_started(a, b, location, ev),
    ensures
        b.round == a.round + 1,
        b.location == location,
        b.member_map().dom() == a.member_map().dom(),
        forall|k: Seq<char>| #[trigger] a.member_map().contains_key(k) ==> b.member_map()[k]
            == (MemberAttributes { ready_next_round: false, ..a.member_map()[k] }),
{
}

/// After a member says it is ready, that member is ready and the answer is
/// whether every other member already was: true exactly when every member
/// of the room is now ready.
pub proof fn lemma_ready_answer(a: Room, b: Room, c: Seq<char>, all: bool)
    requires
        a.member_map().contains_key(c),
        ready_submitted(a, b, c, all),
    ensures
        b.member_map().dom() == a.member_map().dom(),
        b.member_map()[c].ready_next_round,
        all <==> forall|k: Seq<char>| #[trigger] a.member_map().contains_key(k) && k != c
            ==> a.member_map()[k].ready_next_round,
        all <==> forall|k: Seq<char>| #[trigger] b.member_map().contains_key(k)
            ==> b.member_map()[k].ready_next_round,
{
    assert(b.member_map().dom() =~= a.member_map().dom());
    if all {
        assert forall|k: Seq<char>| #[trigger] a.member_map().contains_key(k) && k != c implies a.member_map()[k].ready_next_round by {
            assert(b.member_map().contains_key(k));
        }
    }
    if forall|k: Seq<char>| #[trigger] a.member_map().contains_key(k) && k != c
        ==> a.member_map()[k].ready_next_round {
        assert forall|k: Seq<char>| #[trigger] b.member_map().contains_key(k) implies b.member_map()[k].ready_next_round by {
            if k != c {
                assert(a.member_map().contains_key(k));
            }
        }
    }
}

} // verus!
