//! Events that rooms broadcast, and who is to receive them.

use vstd::prelude::*;

use crate::geo::{Coordinates, PanoId};
use crate::handle;
use crate::room::MemberAttributes;
use crate::srgb::Srgb8;

verus! {

/// What a client is shown of a member of its room.
pub struct PlayerData {
    pub username: String,
    pub color: Srgb8,
    pub score: u32,
}

/// What a client is shown of a member.
pub open spec fn player_data(m: MemberAttributes) -> PlayerData {
    PlayerData { username: m.username, color: m.color.srgb, score: m.score }
}

impl PlayerData {
    pub fn from(m: &MemberAttributes) -> (d: PlayerData)
        ensures
            d == player_data(*m),
    {
        PlayerData { username: m.username.clone(), color: m.color.srgb, score: m.score }
    }
}

impl Clone for PlayerData {
    fn clone(&self) -> (r: Self)
        ensures
            r == *self,
    {
        PlayerData { username: self.username.clone(), color: self.color, score: self.score }
    }
}

pub struct RoundStartData {
    pub pano_id: PanoId,
    pub round: usize,
}

/// The outcome of a round for one member. `distance` is the bit pattern of an
/// `f64` number of kilometres.
pub struct PlayerResult {
    pub player: PlayerData,
    pub round_score: u32,
    pub distance: u64,
    pub guess_location: Coordinates,
}

pub struct RoundEndData {
    pub real_location: Coordinates,
    pub player_results: Vec<PlayerResult>,
}

pub enum RoomEvent {
    RoundStart(RoundStartData),
    RoundEnd(RoundEndData),
    PlayerJoined { client_id: handle::Id, data: PlayerData },
    PlayerLeft { client_id: handle::Id, username: String },
}

/// Who is to receive an event.
pub enum Recipients {
    All,
    Only(Vec<handle::Id>),
    Except(Vec<handle::Id>),
}

/// [`Recipients`] with its client sets as sets of identifier texts.
pub ghost enum RecipientsView {
    All,
    Only(Set<Seq<char>>),
    Except(Set<Seq<char>>),
}

/// The texts of the given identifiers.
pub open spec fn id_set(v: Seq<handle::Id>) -> Set<Seq<char>> {
    Set::new(|k: Seq<char>| exists|i: int| 0 <= i < v.len() && (#[trigger] v[i])@ == k)
}

impl View for Recipients {
    type V = RecipientsView;

    open spec fn view(&self) -> RecipientsView {
        match self {
            Recipients::All => RecipientsView::All,
            Recipients::Only(v) => RecipientsView::Only(id_set(v@)),
            Recipients::Except(v) => RecipientsView::Except(id_set(v@)),
        }
    }
}

/// Whether the client with identifier text `id` is among the recipients.
pub open spec fn receives(r: RecipientsView, id: Seq<char>) -> bool {
    match r {
        RecipientsView::All => true,
        RecipientsView::Only(s) => s.contains(id),
        RecipientsView::Except(s) => !s.contains(id),
    }
}

impl Recipients {
    /// Everyone but the given client.
    pub fn except_one(id: handle::Id) -> (r: Self)
        ensures
            r@ == RecipientsView::Except(set![id@]),
    {
        let v = vec![id];
        assert(id_set(v@) =~= set![id@]) by {
            assert(v@[0] == id);
        }
        Recipients::Except(v)
    }

    /// Only the given client.
    pub fn only_one(id: handle::Id) -> (r: Self)
        ensures
            r@ == RecipientsView::Only(set![id@]),
    {
        let v = vec![id];
        assert(id_set(v@) =~= set![id@]) by {
            assert(v@[0] == id);
        }
        Recipients::Only(v)
    }
}

/// The delivery policy of an event: news of a member joining or leaving goes
/// to everyone but that member; round news goes to everyone.
pub open spec fn event_recipients(e: RoomEvent) -> RecipientsView {
    match e {
        RoomEvent::PlayerJoined { client_id, .. } => RecipientsView::Except(set![client_id@]),
        RoomEvent::PlayerLeft { client_id, .. } => RecipientsView::Except(set![client_id@]),
        RoomEvent::RoundStart(_) => RecipientsView::All,
        RoomEvent::RoundEnd(_) => RecipientsView::All,
    }
}

impl RoomEvent {
    /// The delivery policy is a property of the event variant.
    pub fn recipients(&self) -> (r: Recipients)
        ensures
            r@ == event_recipients(*self),
    {
        match self {
            RoomEvent::PlayerJoined { client_id, .. } => Recipients::except_one(client_id.clone()),
            RoomEvent::PlayerLeft { client_id, .. } => Recipients::except_one(client_id.clone()),
            RoomEvent::RoundStart(_) => Recipients::All,
            RoomEvent::RoundEnd(_) => Recipients::All,
        }
    }
}

/// An event together with its recipients.
pub struct EventEnvelope {
    pub event: RoomEvent,
    pub recipients: Recipients,
}

impl EventEnvelope {
    pub fn from(event: RoomEvent) -> (e: EventEnvelope)
        ensures
            e.event == event,
            e.recipients@ == event_recipients(event),
    {
        let recipients = event.recipients();
        EventEnvelope { event, recipients }
    }
}

/// News about a member reaches every client except that member.
pub proof fn lemma_member_news_skips_member(e: RoomEvent, id: Seq<char>)
    requires
        e is PlayerJoined || e is PlayerLeft,
    ensures
        receives(event_recipients(e), id) <==> id != (match e {
            RoomEvent::PlayerJoined { client_id, .. } => client_id@,
            RoomEvent::PlayerLeft { client_id, .. } => client_id@,
            _ => id,
        }),
{
}

} // verus!
