//! Reading the room of the session.
//!
//! The room is the one whose identifier the session holds. A session that
//! holds none is shown the entry room of the message, and the identifier of
//! that room is stored in it.

use super::current_id;
use super::has_room;
use super::lemma_place_at;
use super::origin;
use super::place_at;
use super::room_of;
use super::Place;
use super::xid;
use super::xid::Identifier;
use super::Action;
use super::ActionView;
use super::Room;
use super::RoomView;
use crate::store;
use crate::store::existence;
use crate::store::model::answer;
use crate::store::model::law_put_then_read;
use crate::store::model::put_through;
use crate::store::model::recordable;
use crate::store::model::start;
use crate::store::room_key;
use crate::store::read_key;
use crate::store::room_read;
use crate::store::CommandView;
use crate::store::Reply;
use crate::store::ReplyView;
use crate::store::Store;
use vstd::prelude::*;

verus! {

/// The parameters passed in the path.
#[derive(Debug)]
pub struct Path {
    /// The name of the message.
    pub message_name: String,
}

/// The possible error values.
#[derive(Clone, Copy, Debug, PartialEq, Eq, Structural)]
pub enum Error {
    /// The message is unknown.
    UnknownMessage,
    /// The room is unknown.
    UnknownRoom,
    /// An internal error occurred.
    InternalError,
}

/// The text of an error.
pub open spec fn error_text(error: Error) -> Seq<char> {
    match error {
        Error::UnknownMessage => "unknown message"@,
        Error::UnknownRoom => "unknown room"@,
        Error::InternalError => "internal error"@,
    }
}

/// The status code that an error is answered with.
pub open spec fn error_status(error: Error) -> u16 {
    match error {
        Error::UnknownMessage => 404,
        Error::UnknownRoom => 404,
        Error::InternalError => 500,
    }
}

impl Error {
    /// The text of this error.
    pub fn to_string(&self) -> (r: String)
        ensures
            r@ == error_text(*self),
    {
        match self {
            Error::UnknownMessage => "unknown message".to_owned(),
            Error::UnknownRoom => "unknown room".to_owned(),
            Error::InternalError => "internal error".to_owned(),
        }
    }

    /// The status code that this error is answered with.
    pub fn status_code(&self) -> (r: u16)
        ensures
            r == error_status(*self),
    {
        match self {
            Error::UnknownMessage => 404,
            Error::UnknownRoom => 404,
            Error::InternalError => 500,
        }
    }
}

impl From<xid::Error> for Error {
    /// A cookie that cannot be read leaves the room unknown.
    fn from(_source: xid::Error) -> (r: Self) {
        Error::UnknownRoom
    }
}

impl vstd::std_specs::convert::FromSpecImpl<xid::Error> for Error {
    open spec fn obeys_from_spec() -> bool {
        true
    }

    open spec fn from_spec(_source: xid::Error) -> Self {
        Error::UnknownRoom
    }
}

impl<T> From<std::sync::PoisonError<T>> for Error {
    /// A lock that was poisoned is an internal error.
    fn from(_source: std::sync::PoisonError<T>) -> (r: Self) {
        Error::InternalError
    }
}

impl<T> vstd::std_specs::convert::FromSpecImpl<std::sync::PoisonError<T>> for Error {
    open spec fn obeys_from_spec() -> bool {
        true
    }

    open spec fn from_spec(_source: std::sync::PoisonError<T>) -> Self {
        Error::InternalError
    }
}

impl From<store::Error> for Error {
    /// An error of the store is an internal error.
    fn from(_source: store::Error) -> (r: Self) {
        Error::InternalError
    }
}

impl vstd::std_specs::convert::FromSpecImpl<store::Error> for Error {
    open spec fn obeys_from_spec() -> bool {
        true
    }

    open spec fn from_spec(_source: store::Error) -> Self {
        Error::InternalError
    }
}

/// How far a reading has come.
#[derive(Debug)]
pub enum Stage {
    /// The store is asked whether the message exists.
    Message,
    /// The session is asked for the identifier of the current room.
    Identity,
    /// The store is asked for the current room: the entry room where the
    /// session has no identifier.
    Current(Option<Identifier>),
    /// The session is asked to store the identifier of the entry room,
    /// which was read.
    Persist(Room),
    /// The reading has ended.
    Done(Result<Room, Error>),
}

/// What a stage holds.
pub enum StageView {
    /// The store is asked whether the message exists.
    Message,
    /// The session is asked for the identifier of the current room.
    Identity,
    /// The store is asked for the current room.
    Current(Option<Identifier>),
    /// The session is asked to store the identifier of the entry room.
    Persist(RoomView),
    /// The reading has ended.
    Done(Result<RoomView, Error>),
}

impl View for Stage {
    type V = StageView;

    open spec fn view(&self) -> StageView {
        match self {
            Stage::Message => StageView::Message,
            Stage::Identity => StageView::Identity,
            Stage::Current(id) => StageView::Current(*id),
            Stage::Persist(room) => StageView::Persist(room@),
            Stage::Done(Ok(room)) => StageView::Done(Ok(room@)),
            Stage::Done(Err(e)) => StageView::Done(Err(*e)),
        }
    }
}

/// A reading in progress.
#[derive(Debug)]
pub struct Read {
    /// The name of the message.
    name: String,
    /// How far the reading has come.
    stage: Stage,
}

/// What a reading in progress holds.
pub struct ReadView {
    /// The name of the message.
    pub name: Seq<char>,
    /// How far the reading has come.
    pub stage: StageView,
}

impl ReadView {
    /// The reading at `stage`.
    pub open spec fn at(self, stage: StageView) -> ReadView {
        ReadView { stage, ..self }
    }

    /// The reading ended with `error`.
    pub open spec fn failed(self, error: Error) -> ReadView {
        self.at(StageView::Done(Err(error)))
    }

    /// What the reading needs next.
    pub open spec fn action(self) -> ActionView {
        match self.stage {
            StageView::Message => ActionView::Send(CommandView::Exists { key: self.name }),
            StageView::Identity => ActionView::LoadId,
            StageView::Current(id) => ActionView::Send(
                CommandView::Get { key: read_key(self.name, id) },
            ),
            StageView::Persist(room) => ActionView::StoreId(room.xid),
            StageView::Done(_) => ActionView::Finish,
        }
    }

    /// The reading after a reply of the store.
    ///
    /// A message that is absent is unknown. A room that is absent is
    /// unknown. A room that was read for a session with an identifier ends
    /// the reading; the entry room, read for a session without one, is
    /// first stored in the session. An error of the store, and a reply that
    /// nothing waits for, is an internal error.
    pub open spec fn after_reply(self, reply: ReplyView) -> ReadView {
        match self.stage {
            StageView::Message => match existence(reply) {
                Ok(true) => self.at(StageView::Identity),
                Ok(false) => self.failed(Error::UnknownMessage),
                Err(_) => self.failed(Error::InternalError),
            },
            StageView::Current(id) => match room_read(reply) {
                Ok(Some(room)) => if id is Some {
                    self.at(StageView::Done(Ok(room)))
                } else {
                    self.at(StageView::Persist(room))
                },
                Ok(None) => self.failed(Error::UnknownRoom),
                Err(_) => self.failed(Error::InternalError),
            },
            StageView::Done(_) => self,
            _ => self.failed(Error::InternalError),
        }
    }

    /// The reading after the session has told the identifier of the
    /// current room. A cookie that is malformed leaves the room unknown.
    pub open spec fn after_identity(
        self,
        loaded: Option<Result<Identifier, xid::Error>>,
    ) -> ReadView {
        match self.stage {
            StageView::Identity => match current_id(loaded) {
                Ok(id) => self.at(StageView::Current(id)),
                Err(_) => self.failed(Error::UnknownRoom),
            },
            StageView::Done(_) => self,
            _ => self.failed(Error::InternalError),
        }
    }

    /// The reading after the session was asked to store the identifier of
    /// the entry room. An identifier that was not stored leaves the room
    /// unknown.
    pub open spec fn after_stored(self, result: Result<Identifier, xid::Error>) -> ReadView {
        match self.stage {
            StageView::Persist(room) => match result {
                Ok(_) => self.at(StageView::Done(Ok(room))),
                Err(_) => self.failed(Error::UnknownRoom),
            },
            StageView::Done(_) => self,
            _ => self.failed(Error::InternalError),
        }
    }
}

impl View for Read {
    type V = ReadView;

    closed spec fn view(&self) -> ReadView {
        ReadView { name: self.name@, stage: self.stage@ }
    }
}

/// Begins the reading of the room of the session within the message of
/// `path`.
pub fn handle(path: &Path) -> (r: Read)
    ensures
        r@ == (ReadView { name: path.message_name@, stage: StageView::Message }),
{
    Read { name: path.message_name.clone(), stage: Stage::Message }
}

impl Read {
    /// What the reading needs next.
    pub fn action(&self, store: &Store) -> (r: Action)
        ensures
            r@ == self@.action(),
    {
        match &self.stage {
            Stage::Message => Action::Send(store.contains(self.name.as_str())),
            Stage::Identity => Action::LoadId,
            Stage::Current(id) => Action::Send(store.get(self.name.as_str(), *id)),
            Stage::Persist(room) => Action::StoreId(room.xid),
            Stage::Done(_) => Action::Finish,
        }
    }

    /// Takes a reply of the store.
    pub fn reply(self, reply: &Reply) -> (r: Read)
        ensures
            r@ == self@.after_reply(reply@),
    {
        let Read { name, stage } = self;
        let stage = match stage {
            Stage::Message => match Store::contains_reply(reply) {
                Ok(true) => Stage::Identity,
                Ok(false) => Stage::Done(Err(Error::UnknownMessage)),
                Err(_) => Stage::Done(Err(Error::InternalError)),
            },
            Stage::Current(id) => match Store::get_reply(reply) {
                Ok(Some(room)) => if id.is_some() {
                    Stage::Done(Ok(room))
                } else {
                    Stage::Persist(room)
                },
                Ok(None) => Stage::Done(Err(Error::UnknownRoom)),
                Err(_) => Stage::Done(Err(Error::InternalError)),
            },
            Stage::Done(end) => Stage::Done(end),
            _ => Stage::Done(Err(Error::InternalError)),
        };
        Read { name, stage }
    }

    /// Takes what the session holds as the identifier of the current room.
    pub fn identity(self, loaded: Option<Result<Identifier, xid::Error>>) -> (r: Read)
        ensures
            r@ == self@.after_identity(loaded),
    {
        let Read { name, stage } = self;
        let stage = match stage {
            Stage::Identity => match super::current(loaded) {
                Ok(id) => Stage::Current(id),
                Err(_) => Stage::Done(Err(Error::UnknownRoom)),
            },
            Stage::Done(end) => Stage::Done(end),
            _ => Stage::Done(Err(Error::InternalError)),
        };
        Read { name, stage }
    }

    /// Takes the result of storing the identifier of the entry room in the
    /// session.
    pub fn stored(self, result: Result<Identifier, xid::Error>) -> (r: Read)
        ensures
            r@ == self@.after_stored(result),
    {
        let Read { name, stage } = self;
        let stage = match stage {
            Stage::Persist(room) => match result {
                Ok(_) => Stage::Done(Ok(room)),
                Err(_) => Stage::Done(Err(Error::UnknownRoom)),
            },
            Stage::Done(end) => Stage::Done(end),
            _ => Stage::Done(Err(Error::InternalError)),
        };
        Read { name, stage }
    }

    /// Ends the reading: the response where it has come to its end, and an
    /// internal error where it was left before that.
    pub fn finish(self) -> (r: Result<Room, Error>)
        ensures
            match r {
                Ok(room) => self@.stage == StageView::Done(Ok(room@)),
                Err(e) => self@.stage == StageView::Done(Err(e)) || (!(self@.stage is Done) && e
                    == Error::InternalError),
            },
    {
        match self.stage {
            Stage::Done(end) => end,
            _ => Err(Error::InternalError),
        }
    }

    /// The response, once the reading has ended.
    pub fn response(self) -> (r: Option<Result<Room, Error>>)
        ensures
            match r {
                Some(Ok(room)) => self@.stage == StageView::Done(Ok(room@)),
                Some(Err(e)) => self@.stage == StageView::Done(Err(e)),
                None => !(self@.stage is Done),
            },
    {
        match self.stage {
            Stage::Done(end) => Some(end),
            _ => None,
        }
    }
}

/// A session without an identifier is shown the entry room, and the
/// identifier that it is asked to store is that of the entry room.
pub proof fn law_first_read_stores_entry(read: ReadView, value: Seq<u8>, room: RoomView)
    requires
        read.stage == StageView::Current(None),
        crate::store::record::unrecord(value) == Some(room),
    ensures
        read.action() == ActionView::Send(CommandView::Get { key: read.name }),
        read.after_reply(ReplyView::Get(Some(value))).action() == ActionView::StoreId(room.xid),
        read.after_reply(ReplyView::Get(Some(value))).after_stored(
            Ok::<Identifier, xid::Error>(room.xid),
        ).stage == StageView::Done(Ok::<RoomView, Error>(room)),
{
}

/// A session with an identifier is shown the room of that identifier, and
/// nothing is stored in it.
pub proof fn law_later_read_stores_nothing(
    read: ReadView,
    id: Identifier,
    value: Seq<u8>,
    room: RoomView,
)
    requires
        read.stage == StageView::Current(Some(id)),
        crate::store::record::unrecord(value) == Some(room),
    ensures
        read.action() == ActionView::Send(
            CommandView::Get { key: crate::store::room_key(read.name, id) },
        ),
        read.after_reply(ReplyView::Get(Some(value))).stage == StageView::Done(
            Ok::<RoomView, Error>(room),
        ),
{
}

/// The reading of a message that was stored, by a session without an
/// identifier: the store is asked for the message, the session for the
/// identifier, the store for the entry room; the session is asked to store
/// the identifier of the entry room, and the reading ends with that room.
pub proof fn law_first_read_of_stored_message(
    name: Seq<char>,
    places: Seq<Place>,
    seconds: u64,
    contents: Map<Seq<char>, Seq<u8>>,
)
    requires
        has_room(places, origin()),
        recordable(places),
        !contents.contains_key(name),
    ensures
        ({
            let after = put_through(start(name, places, seconds), contents).1;
            let entry = room_of(places, place_at(places, origin(), 0));
            let begun = ReadView { name, stage: StageView::Message };
            let known = begun.after_reply(answer(after, CommandView::Exists { key: name }));
            let told = known.after_identity(None);
            let shown = told.after_reply(answer(after, CommandView::Get { key: name }));
            &&& begun.action() == ActionView::Send(CommandView::Exists { key: name })
            &&& known.action() == ActionView::LoadId
            &&& told.action() == ActionView::Send(CommandView::Get { key: name })
            &&& shown.action() == ActionView::StoreId(entry.xid)
            &&& shown.after_stored(Ok(entry.xid)).stage == StageView::Done(Ok(entry))
        }),
{
    lemma_place_at(places, origin(), 0);
    law_put_then_read(name, places, seconds, contents, place_at(places, origin(), 0));
}

/// The reading of a message that was stored, by a session that holds the
/// identifier of one of its rooms: the reading ends with a room of the
/// message that carries the identifier, and the session is asked for
/// nothing but what it holds.
pub proof fn law_later_read_of_stored_message(
    name: Seq<char>,
    places: Seq<Place>,
    seconds: u64,
    contents: Map<Seq<char>, Seq<u8>>,
    i: int,
)
    requires
        has_room(places, origin()),
        recordable(places),
        !contents.contains_key(name),
        0 <= i < places.len(),
    ensures
        ({
            let after = put_through(start(name, places, seconds), contents).1;
            let id = places[i].cell.id;
            let here = CommandView::Get { key: room_key(name, id) };
            let begun = ReadView { name, stage: StageView::Message };
            let known = begun.after_reply(answer(after, CommandView::Exists { key: name }));
            let told = known.after_identity(Some(Ok(id)));
            let shown = told.after_reply(answer(after, here));
            &&& told.action() == ActionView::Send(here)
            &&& shown.action() == ActionView::Finish
            &&& exists|j: int|
                0 <= j < places.len() && places[j].cell.id == id && shown.stage
                    == StageView::Done(Ok(#[trigger] room_of(places, j)))
        }),
{
    law_put_then_read(name, places, seconds, contents, i);
}

} // verus!
