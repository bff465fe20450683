//! Clients and their identifiers.

use vstd::prelude::*;

use crate::assoc::TextKey;
use crate::colors::PlayerColor;
use crate::random::{random_uuid, uuid_digit, uuid_hyphenated, uuid_text};
use crate::srgb::lower_hex_char;
use crate::room;

verus! {

/// A handle to a particular client.
pub struct Handle {
    /// The room the client is participating in.
    pub room: room::Id,
    /// The chosen username of the client.
    pub username: String,
    /// The color assigned to the client, persisted across rooms.
    pub color: PlayerColor,
    /// The live event stream of the client, if one is open.
    pub session: Option<u128>,
}

impl Clone for Handle {
    fn clone(&self) -> (r: Self)
        ensures
            r == *self,
    {
        Handle {
            room: self.room.clone(),
            username: self.username.clone(),
            color: self.color,
            session: self.session,
        }
    }
}

/// The unique identifier for a [`Handle`].
#[derive(Debug, PartialEq, Eq, Hash)]
pub struct Id(pub String);

/// The name of the cookie by which a client identifies itself.
pub const ID_COOKIE_NAME: &'static str = "client-id";

impl View for Id {
    type V = Seq<char>;

    open spec fn view(&self) -> Seq<char> {
        self.0@
    }
}

impl TextKey for Id {
    fn same_key(&self, other: &Self) -> (r: bool) {
        self.0 == other.0
    }
}

impl Clone for Id {
    fn clone(&self) -> (r: Self)
        ensures
            r == *self,
    {
        Id(self.0.clone())
    }
}

impl Id {
    /// A fresh random identifier: the hyphenated text of a random version-4
    /// UUID, whose version digit is `4` and whose variant digit is one of
    /// `8`, `9`, `a`, `b`.
    pub fn generate() -> (id: Id)
        ensures
            exists|n: u128| id@ == #[trigger] uuid_hyphenated(n),
            id@[14] == '4',
            id@[19] == '8' || id@[19] == '9' || id@[19] == 'a' || id@[19] == 'b',
    {
        let n = random_uuid();
        let t = uuid_text(n);
        proof {
            let v = (n >> 60u128) & 0xf;
            assert(8 <= v <= 11) by (bit_vector)
                requires
                    (n >> 62u128) & 0x3 == 2,
                    v == (n >> 60u128) & 0xf,
            ;
            assert(uuid_digit(n, 12) == 4);
            assert(uuid_digit(n, 16) == v);
            assert(t@[14] == lower_hex_char(uuid_digit(n, 12)));
            assert(t@[19] == lower_hex_char(uuid_digit(n, 16)));
        }
        Id(t)
    }

    /// The identifier with the given text; every text is accepted.
    pub fn try_from(value: &str) -> (r: Result<Id, u16>)
        ensures
            r matches Ok(id) && id@ == value@,
    {
        Ok(Id(value.to_owned()))
    }
}

/// A fresh random number naming an event stream.
pub fn new_session() -> u128 {
    random_uuid()
}

} // verus!
