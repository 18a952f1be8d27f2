//! The distributed store: its records, its commands and what follows from
//! its replies.
//!
//! The store keeps one record for the entry room of a message under the
//! name of the message, and one record for each room under the name, a dot
//! and the identifier of the room. Every record expires after the same time.
//! Nothing here talks to the key-value service: an operation is a command,
//! or a run of commands, for the caller to send, and a function that says
//! what the reply means.

pub mod error;
pub mod model;
pub mod record;

pub use self::error::Error;

use self::record::decode;
use self::record::encode;
use self::record::record;
use self::record::unrecord;
use crate::messages::origin;
use crate::messages::place_at;
use crate::messages::room_of;
use crate::messages::xid::id_text;
use crate::messages::xid::Identifier;
use crate::messages::Message;
use crate::messages::Place;
use crate::messages::Pos;
use crate::messages::Room;
use crate::messages::RoomView;
use crate::text::push_char;
use crate::text::push_hex;
use vstd::prelude::*;

verus! {

/// The character between the name of a message and the identifier of a room
/// in the key of a record.
pub const KEY_SEPARATOR: char = '.';

/// A command for the key-value service.
#[derive(Clone, Debug, PartialEq, Eq)]
pub enum Command {
    /// Asks whether a key is present.
    Exists {
        /// The key.
        key: String,
    },
    /// Asks for the value of a key.
    Get {
        /// The key.
        key: String,
    },
    /// Sets the value of a key, which expires after a number of seconds.
    SetEx {
        /// The key.
        key: String,
        /// The value.
        value: Vec<u8>,
        /// The seconds after which the key expires.
        seconds: u64,
    },
}

/// What a command holds.
pub enum CommandView {
    /// Asks whether a key is present.
    Exists {
        /// The key.
        key: Seq<char>,
    },
    /// Asks for the value of a key.
    Get {
        /// The key.
        key: Seq<char>,
    },
    /// Sets the value of a key, which expires after a number of seconds.
    SetEx {
        /// The key.
        key: Seq<char>,
        /// The value.
        value: Seq<u8>,
        /// The seconds after which the key expires.
        seconds: u64,
    },
}

impl View for Command {
    type V = CommandView;

    open spec fn view(&self) -> CommandView {
        match self {
            Command::Exists { key } => CommandView::Exists { key: key@ },
            Command::Get { key } => CommandView::Get { key: key@ },
            Command::SetEx { key, value, seconds } => CommandView::SetEx {
                key: key@,
                value: value@,
                seconds: *seconds,
            },
        }
    }
}

/// The reply of the key-value service to a command.
#[derive(Clone, Debug, PartialEq, Eq)]
pub enum Reply {
    /// Whether the key is present.
    Exists(bool),
    /// The value of the key, if the key is present.
    Get(Option<Vec<u8>>),
    /// The value was set.
    SetEx,
    /// No connection could be had, or the command failed.
    Failed,
}

/// What a reply holds.
pub enum ReplyView {
    /// Whether the key is present.
    Exists(bool),
    /// The value of the key, if the key is present.
    Get(Option<Seq<u8>>),
    /// The value was set.
    SetEx,
    /// No connection could be had, or the command failed.
    Failed,
}

impl Command {
    /// A copy of this command.
    pub fn duplicate(&self) -> (r: Command)
        ensures
            r@ == self@,
    {
        match self {
            Command::Exists { key } => Command::Exists { key: key.clone() },
            Command::Get { key } => Command::Get { key: key.clone() },
            Command::SetEx { key, value, seconds } => {
                let mut copy: Vec<u8> = Vec::new();
                let mut i: usize = 0;
                while i < value.len()
                    invariant
                        i <= value.len(),
                        copy@ == value@.take(i as int),
                    decreases value.len() - i,
                {
                    copy.push(value[i]);
                    assert(value@.take(i + 1) =~= value@.take(i as int).push(value@[i as int]));
                    i = i + 1;
                }
                assert(value@.take(i as int) =~= value@);
                Command::SetEx { key: key.clone(), value: copy, seconds: *seconds }
            },
        }
    }
}

impl View for Reply {
    type V = ReplyView;

    open spec fn view(&self) -> ReplyView {
        match self {
            Reply::Exists(present) => ReplyView::Exists(*present),
            Reply::Get(None) => ReplyView::Get(None),
            Reply::Get(Some(value)) => ReplyView::Get(Some(value@)),
            Reply::SetEx => ReplyView::SetEx,
            Reply::Failed => ReplyView::Failed,
        }
    }
}

/// The key of the record of the room `id` of the message `name`.
pub open spec fn room_key(name: Seq<char>, id: Identifier) -> Seq<char> {
    name + seq![KEY_SEPARATOR] + id_text(id)
}

/// The key under which a room of the message `name` is read: the name for
/// the entry room, the key of the room for any other.
pub open spec fn read_key(name: Seq<char>, id: Option<Identifier>) -> Seq<char> {
    match id {
        None => name,
        Some(id) => room_key(name, id),
    }
}

/// What a reply to the question whether a message exists means.
pub open spec fn existence(reply: ReplyView) -> Result<bool, Error> {
    match reply {
        ReplyView::Exists(present) => Ok(present),
        ReplyView::Failed => Err(Error::Connection),
        _ => Err(Error::InternalError),
    }
}

/// What a reply to the request for a room means: no room where the key is
/// absent, the room of the record where it is present, a read error where
/// the value is no record.
pub open spec fn room_read(reply: ReplyView) -> Result<Option<RoomView>, Error> {
    match reply {
        ReplyView::Get(None) => Ok(None),
        ReplyView::Get(Some(value)) => match unrecord(value) {
            Some(room) => Ok(Some(room)),
            None => Err(Error::ReadError),
        },
        ReplyView::Failed => Err(Error::Connection),
        _ => Err(Error::InternalError),
    }
}

/// The command that writes the record of the room `places[i]` of the
/// message `name`.
pub open spec fn room_write(
    name: Seq<char>,
    places: Seq<Place>,
    seconds: u64,
    i: int,
) -> CommandView {
    CommandView::SetEx {
        key: room_key(name, places[i].cell.id),
        value: record(room_of(places, i)),
        seconds,
    }
}

/// The commands that store a message, in their order: the question whether
/// the name is present, the record of the entry room under the name, and
/// the record of every room under its key.
pub open spec fn plan(name: Seq<char>, places: Seq<Place>, seconds: u64) -> Seq<CommandView> {
    seq![
        CommandView::Exists { key: name },
        CommandView::SetEx {
            key: name,
            value: record(room_of(places, place_at(places, origin(), 0))),
            seconds,
        },
    ] + Seq::new(places.len(), |i: int| room_write(name, places, seconds, i))
}

/// What each of `commands` holds.
pub open spec fn views(commands: Seq<Command>) -> Seq<CommandView> {
    Seq::new(commands.len(), |i: int| commands[i]@)
}

/// A distributed store.
#[derive(Clone, Debug)]
pub struct Store {
    /// Where the key-value service is found.
    connection_info: String,
    /// The time-to-live for records, in milliseconds.
    ttl: u64,
}

/// The storing of a message in progress: the commands of the plan, how many
/// of them were answered, and the error that ended it, if one did.
#[derive(Debug)]
pub struct Put {
    /// The commands to send, in their order.
    commands: Vec<Command>,
    /// The number of commands that were answered as hoped.
    next: usize,
    /// The error that ended the storing.
    failed: Option<Error>,
}

/// What the storing of a message in progress holds.
pub struct PutView {
    /// The commands to send, in their order.
    pub plan: Seq<CommandView>,
    /// The number of commands that were answered as hoped.
    pub next: nat,
    /// The error that ended the storing.
    pub failed: Option<Error>,
}

impl PutView {
    /// The command that is to be sent next, if the storing has not ended.
    pub open spec fn pending(self) -> Option<CommandView> {
        if self.failed is None && self.next < self.plan.len() {
            Some(self.plan[self.next as int])
        } else {
            None
        }
    }

    /// How the storing has ended, if it has.
    pub open spec fn outcome(self) -> Option<Result<(), Error>> {
        match self.failed {
            Some(e) => Some(Err(e)),
            None => if self.next >= self.plan.len() {
                Some(Ok(()))
            } else {
                None
            },
        }
    }

    /// The storing after the reply to the pending command.
    ///
    /// A name that is present ends it with `Exists`, a failed question with
    /// `Connection`, a failed write with `WriteError`, a reply that does
    /// not answer the command with `InternalError`. After its end nothing
    /// changes.
    pub open spec fn advanced(self, reply: ReplyView) -> PutView {
        match self.pending() {
            None => self,
            Some(command) => match (command, reply) {
                (CommandView::Exists { .. }, ReplyView::Exists(false)) => PutView {
                    next: self.next + 1,
                    ..self
                },
                (CommandView::Exists { .. }, ReplyView::Exists(true)) => PutView {
                    failed: Some(Error::Exists),
                    ..self
                },
                (CommandView::Exists { .. }, ReplyView::Failed) => PutView {
                    failed: Some(Error::Connection),
                    ..self
                },
                (CommandView::SetEx { .. }, ReplyView::SetEx) => PutView {
                    next: self.next + 1,
                    ..self
                },
                (CommandView::SetEx { .. }, ReplyView::Failed) => PutView {
                    failed: Some(Error::WriteError),
                    ..self
                },
                _ => PutView { failed: Some(Error::InternalError), ..self },
            },
        }
    }
}

impl View for Put {
    type V = PutView;

    closed spec fn view(&self) -> PutView {
        PutView { plan: views(self.commands@), next: self.next as nat, failed: self.failed }
    }
}

impl Put {
    /// The command that is to be sent next, if the storing has not ended.
    pub fn command(&self) -> (r: Option<&Command>)
        ensures
            r is Some <==> self@.pending() is Some,
            r matches Some(command) ==> Some(command@) == self@.pending(),
    {
        if self.failed.is_none() && self.next < self.commands.len() {
            Some(&self.commands[self.next])
        } else {
            None
        }
    }

    /// Takes the reply to the pending command.
    pub fn advance(&mut self, reply: &Reply)
        ensures
            final(self)@ == old(self)@.advanced(reply@),
    {
        if self.failed.is_some() || self.next >= self.commands.len() {
            return ;
        }
        match (&self.commands[self.next], reply) {
            (Command::Exists { .. }, Reply::Exists(false)) => {
                self.next = self.next + 1;
            },
            (Command::Exists { .. }, Reply::Exists(true)) => {
                self.failed = Some(Error::Exists);
            },
            (Command::Exists { .. }, Reply::Failed) => {
                self.failed = Some(Error::Connection);
            },
            (Command::SetEx { .. }, Reply::SetEx) => {
                self.next = self.next + 1;
            },
            (Command::SetEx { .. }, Reply::Failed) => {
                self.failed = Some(Error::WriteError);
            },
            _ => {
                self.failed = Some(Error::InternalError);
            },
        }
    }

    /// How the storing has ended, if it has.
    pub fn outcome(&self) -> (r: Option<Result<(), Error>>)
        ensures
            r == self@.outcome(),
    {
        match self.failed {
            Some(e) => Some(Err(e)),
            None => if self.next >= self.commands.len() {
                Some(Ok(()))
            } else {
                None
            },
        }
    }
}

impl Store {
    /// Where the key-value service is found, as a value of contracts.
    pub closed spec fn spec_connection_info(self) -> Seq<char> {
        self.connection_info@
    }

    /// The time-to-live for records in milliseconds, as a value of
    /// contracts.
    pub closed spec fn spec_ttl(self) -> u64 {
        self.ttl
    }

    /// The whole seconds after which a record expires.
    pub open spec fn spec_seconds(self) -> u64 {
        self.spec_ttl() / 1000
    }

    /// Creates a new store.
    ///
    /// # Arguments
    /// *  `connection_info` - A connection string.
    /// *  `ttl` - The time-to-live for records, in milliseconds.
    pub fn new(connection_info: String, ttl: u64) -> (r: Self)
        ensures
            r.spec_connection_info() == connection_info@,
            r.spec_ttl() == ttl,
    {
        Store { connection_info, ttl }
    }

    /// Where the key-value service is found.
    pub fn connection_info(&self) -> (r: &str)
        ensures
            r@ == self.spec_connection_info(),
    {
        self.connection_info.as_str()
    }

    /// The time-to-live for records, in milliseconds.
    pub fn ttl(&self) -> (r: u64)
        ensures
            r == self.spec_ttl(),
    {
        self.ttl
    }

    /// The whole seconds after which a record expires.
    pub fn seconds(&self) -> (r: u64)
        ensures
            r == self.spec_seconds(),
    {
        self.ttl / 1000
    }

    /// Generates the key for a room in a message.
    ///
    /// # Arguments
    /// *  `message_name` - The name of the message.
    /// *  `id` - The ID of the room.
    pub fn key(&self, message_name: &str, id: Identifier) -> (r: String)
        ensures
            r@ == room_key(message_name@, id),
    {
        let mut r = message_name.to_owned();
        push_char(&mut r, KEY_SEPARATOR);
        push_hex(&mut r, id.0);
        r
    }

    /// The command that reads a room description from the store: the entry
    /// room where `id` is absent.
    ///
    /// # Arguments
    /// *  `message_name` - The name of the message.
    /// *  `id` - The room ID.
    pub fn get(&self, message_name: &str, id: Option<Identifier>) -> (r: Command)
        ensures
            r@ == (CommandView::Get { key: read_key(message_name@, id) }),
    {
        match id {
            Some(id) => Command::Get { key: self.key(message_name, id) },
            None => Command::Get { key: message_name.to_owned() },
        }
    }

    /// What the reply to the command of `get` means.
    pub fn get_reply(reply: &Reply) -> (r: Result<Option<Room>, Error>)
        ensures
            match r {
                Ok(Some(room)) => room_read(reply@) == Ok::<Option<RoomView>, Error>(Some(room@)),
                Ok(None) => room_read(reply@) == Ok::<Option<RoomView>, Error>(None),
                Err(e) => room_read(reply@) == Err::<Option<RoomView>, Error>(e),
            },
    {
        match reply {
            Reply::Get(None) => Ok(None),
            Reply::Get(Some(value)) => match decode(value) {
                Some(room) => Ok(Some(room)),
                None => Err(Error::ReadError),
            },
            Reply::Failed => Err(Error::Connection),
            _ => Err(Error::InternalError),
        }
    }

    /// The command that checks whether a message exists.
    ///
    /// # Arguments
    /// *  `message_name` - The name of the message.
    pub fn contains(&self, message_name: &str) -> (r: Command)
        ensures
            r@ == (CommandView::Exists { key: message_name@ }),
    {
        Command::Exists { key: message_name.to_owned() }
    }

    /// What the reply to the command of `contains` means.
    pub fn contains_reply(reply: &Reply) -> (r: Result<bool, Error>)
        ensures
            r == existence(reply@),
    {
        match reply {
            Reply::Exists(present) => Ok(*present),
            Reply::Failed => Err(Error::Connection),
            _ => Err(Error::InternalError),
        }
    }

    /// Begins to store an entire message in the store.
    ///
    /// The storing will fail if a message with the given name already
    /// exists.
    ///
    /// # Arguments
    /// *  `message` - The message to store.
    pub fn put_message(&self, message: &Message) -> (r: Put)
        ensures
            r@ == (PutView {
                plan: plan(message.spec_name(), message.spec_places(), self.spec_seconds()),
                next: 0,
                failed: None,
            }),
    {
        proof {
            use_type_invariant(message);
            message.lemma_valid();
        }
        let ghost name = message.spec_name();
        let ghost places = message.spec_places();
        let seconds = self.seconds();
        let mut commands: Vec<Command> = Vec::new();
        commands.push(Command::Exists { key: message.name().to_owned() });
        // First store the entrance room...
        let entrance = match message.describe(Pos { col: 0, row: 0 }) {
            Some(entrance) => entrance,
            None => {
                return Put { commands, next: 0, failed: Some(Error::InternalError) };
            },
        };
        commands.push(
            Command::SetEx { key: message.name().to_owned(), value: encode(&entrance), seconds },
        );
        // ...then all the others
        let rooms = message.rooms();
        let mut i: usize = 0;
        while i < rooms.len()
            invariant
                i <= rooms.len(),
                name == message.spec_name(),
                places == message.spec_places(),
                rooms@.len() == places.len(),
                forall|j: int|
                    0 <= j < rooms@.len() ==> (#[trigger] rooms@[j])@ == room_of(places, j),
                commands@.len() == 2 + i,
                views(commands@).take(2) == plan(name, places, seconds).take(2),
                forall|j: int|
                    0 <= j < i ==> (#[trigger] commands@[2 + j])@ == room_write(
                        name,
                        places,
                        seconds,
                        j,
                    ),
            decreases rooms.len() - i,
        {
            let ghost before = commands@;
            let room = &rooms[i];
            commands.push(
                Command::SetEx {
                    key: self.key(message.name(), room.xid),
                    value: encode(room),
                    seconds,
                },
            );
            proof {
                assert(views(commands@).take(2) =~= views(before).take(2));
                assert forall|j: int| 0 <= j < i + 1 implies (#[trigger] commands@[2 + j])@
                    == room_write(name, places, seconds, j) by {
                    if j < i {
                        assert(commands@[2 + j] == before[2 + j]);
                    }
                }
            }
            i = i + 1;
        }
        proof {
            let all = plan(name, places, seconds);
            assert(views(commands@).take(2)[0] == all.take(2)[0]);
            assert(views(commands@).take(2)[1] == all.take(2)[1]);
            assert forall|k: int| 0 <= k < all.len() implies views(commands@)[k] == all[k] by {
                if k >= 2 {
                    assert(commands@[2 + (k - 2)]@ == room_write(name, places, seconds, k - 2));
                }
            }
            assert(views(commands@) =~= all);
        }
        Put { commands, next: 0, failed: None }
    }
}

} // verus!
