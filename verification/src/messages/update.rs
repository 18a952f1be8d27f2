//! Moving from the room of the session to one of its neighbours.
//!
//! A move is legal if the room asked for is among the neighbours that the
//! current room lists. A legal move is stored in the session and answered
//! with the description of the new room. An illegal move is refused and
//! changes nothing.

use super::current_id;
use super::has_room;
use super::leads_to;
use super::lemma_place_at;
use super::lemma_seen;
use super::origin;
use super::place_at;
use super::room_of;
use super::Place;
use super::xid;
use super::xid::Identifier;
use super::Action;
use super::ActionView;
use super::Room;
use super::RoomView;
use crate::store;
use crate::store::existence;
use crate::store::model::answer;
use crate::store::model::law_put_then_read;
use crate::store::model::put_through;
use crate::store::model::recordable;
use crate::store::model::start;
use crate::store::room_key;
use crate::store::read_key;
use crate::store::room_read;
use crate::store::CommandView;
use crate::store::Reply;
use crate::store::ReplyView;
use crate::store::Store;
use vstd::prelude::*;

verus! {

/// The parameters passed in the path.
#[derive(Debug)]
pub struct Path {
    /// The name of the message.
    pub message_name: String,
}

/// A request to move to a room.
#[derive(Debug)]
pub struct Request {
    /// The identifier of the room to which to move.
    pub xid: Identifier,
}

/// The possible error values.
#[derive(Clone, Copy, Debug, PartialEq, Eq, Structural)]
pub enum Error {
    /// The message name is invalid.
    UnknownMessage,
    /// The room is unknown.
    UnknownRoom,
    /// The specified transition is illegal.
    IllegalTransition,
    /// An internal error occurred.
    InternalError,
}

/// The text of an error.
pub open spec fn error_text(error: Error) -> Seq<char> {
    match error {
        Error::UnknownMessage => "unknown message"@,
        Error::UnknownRoom => "unknown room"@,
        Error::IllegalTransition => "illegal transition"@,
        Error::InternalError => "internal error"@,
    }
}

/// The status code that an error is answered with.
pub open spec fn error_status(error: Error) -> u16 {
    match error {
        Error::UnknownMessage => 404,
        Error::UnknownRoom => 404,
        Error::IllegalTransition => 404,
        Error::InternalError => 500,
    }
}

impl Error {
    /// The text of this error.
    pub fn to_string(&self) -> (r: String)
        ensures
            r@ == error_text(*self),
    {
        match self {
            Error::UnknownMessage => "unknown message".to_owned(),
            Error::UnknownRoom => "unknown room".to_owned(),
            Error::IllegalTransition => "illegal transition".to_owned(),
            Error::InternalError => "internal error".to_owned(),
        }
    }

    /// The status code that this error is answered with.
    pub fn status_code(&self) -> (r: u16)
        ensures
            r == error_status(*self),
    {
        match self {
            Error::UnknownMessage => 404,
            Error::UnknownRoom => 404,
            Error::IllegalTransition => 404,
            Error::InternalError => 500,
        }
    }
}

impl From<xid::Error> for Error {
    /// A cookie that cannot be read leaves the room unknown.
    fn from(_source: xid::Error) -> (r: Self) {
        Error::UnknownRoom
    }
}

impl vstd::std_specs::convert::FromSpecImpl<xid::Error> for Error {
    open spec fn obeys_from_spec() -> bool {
        true
    }

    open spec fn from_spec(_source: xid::Error) -> Self {
        Error::UnknownRoom
    }
}

impl<T> From<std::sync::PoisonError<T>> for Error {
    /// A lock that was poisoned is an internal error.
    fn from(_source: std::sync::PoisonError<T>) -> (r: Self) {
        Error::InternalError
    }
}

impl<T> vstd::std_specs::convert::FromSpecImpl<std::sync::PoisonError<T>> for Error {
    open spec fn obeys_from_spec() -> bool {
        true
    }

    open spec fn from_spec(_source: std::sync::PoisonError<T>) -> Self {
        Error::InternalError
    }
}

impl From<store::Error> for Error {
    /// An error of the store is an internal error.
    fn from(_source: store::Error) -> (r: Self) {
        Error::InternalError
    }
}

impl vstd::std_specs::convert::FromSpecImpl<store::Error> for Error {
    open spec fn obeys_from_spec() -> bool {
        true
    }

    open spec fn from_spec(_source: store::Error) -> Self {
        Error::InternalError
    }
}

/// How far a move has come.
#[derive(Debug)]
pub enum Stage {
    /// The store is asked whether the message exists.
    Message,
    /// The session is asked for the identifier of the current room.
    Identity,
    /// The store is asked for the current room: the entry room where the
    /// session has no identifier.
    Current(Option<Identifier>),
    /// The session is asked to store the identifier of the new room.
    Persist,
    /// The store is asked for the new room.
    Next,
    /// The move has ended.
    Done(Result<Room, Error>),
}

/// What a stage holds.
pub enum StageView {
    /// The store is asked whether the message exists.
    Message,
    /// The session is asked for the identifier of the current room.
    Identity,
    /// The store is asked for the current room.
    Current(Option<Identifier>),
    /// The session is asked to store the identifier of the new room.
    Persist,
    /// The store is asked for the new room.
    Next,
    /// The move has ended.
    Done(Result<RoomView, Error>),
}

impl View for Stage {
    type V = StageView;

    open spec fn view(&self) -> StageView {
        match self {
            Stage::Message => StageView::Message,
            Stage::Identity => StageView::Identity,
            Stage::Current(id) => StageView::Current(*id),
            Stage::Persist => StageView::Persist,
            Stage::Next => StageView::Next,
            Stage::Done(Ok(room)) => StageView::Done(Ok(room@)),
            Stage::Done(Err(e)) => StageView::Done(Err(*e)),
        }
    }
}

/// A move in progress.
#[derive(Debug)]
pub struct Update {
    /// The name of the message.
    name: String,
    /// The identifier of the room to which to move.
    target: Identifier,
    /// How far the move has come.
    stage: Stage,
}

/// What a move in progress holds.
pub struct UpdateView {
    /// The name of the message.
    pub name: Seq<char>,
    /// The identifier of the room to which to move.
    pub target: Identifier,
    /// How far the move has come.
    pub stage: StageView,
}

/// Whether a move from `room` to the room `target` is legal: `target` is
/// among the neighbours that `room` lists.
pub open spec fn legal(room: RoomView, target: Identifier) -> bool {
    room.see.contains(target)
}

impl UpdateView {
    /// The move at `stage`.
    pub open spec fn at(self, stage: StageView) -> UpdateView {
        UpdateView { stage, ..self }
    }

    /// The move ended with `error`.
    pub open spec fn failed(self, error: Error) -> UpdateView {
        self.at(StageView::Done(Err(error)))
    }

    /// What the move needs next.
    pub open spec fn action(self) -> ActionView {
        match self.stage {
            StageView::Message => ActionView::Send(CommandView::Exists { key: self.name }),
            StageView::Identity => ActionView::LoadId,
            StageView::Current(id) => ActionView::Send(
                CommandView::Get { key: read_key(self.name, id) },
            ),
            StageView::Persist => ActionView::StoreId(self.target),
            StageView::Next => ActionView::Send(
                CommandView::Get { key: read_key(self.name, Some(self.target)) },
            ),
            StageView::Done(_) => ActionView::Finish,
        }
    }

    /// The move after a reply of the store.
    ///
    /// A message that is absent is unknown. A room that is absent is
    /// unknown. A current room that does not list the room asked for makes
    /// the move illegal. An error of the store, and a reply that nothing
    /// waits for, is an internal error.
    pub open spec fn after_reply(self, reply: ReplyView) -> UpdateView {
        match self.stage {
            StageView::Message => match existence(reply) {
                Ok(true) => self.at(StageView::Identity),
                Ok(false) => self.failed(Error::UnknownMessage),
                Err(_) => self.failed(Error::InternalError),
            },
            StageView::Current(_) => match room_read(reply) {
                Ok(Some(room)) => match validated(room, self.target) {
                    Ok(_) => self.at(StageView::Persist),
                    Err(e) => self.failed(e),
                },
                Ok(None) => self.failed(Error::UnknownRoom),
                Err(_) => self.failed(Error::InternalError),
            },
            StageView::Next => match room_read(reply) {
                Ok(Some(room)) => self.at(StageView::Done(Ok(room))),
                Ok(None) => self.failed(Error::UnknownRoom),
                Err(_) => self.failed(Error::InternalError),
            },
            StageView::Done(_) => self,
            _ => self.failed(Error::InternalError),
        }
    }

    /// The move after the session has told the identifier of the current
    /// room. A cookie that is malformed leaves the room unknown.
    pub open spec fn after_identity(
        self,
        loaded: Option<Result<Identifier, xid::Error>>,
    ) -> UpdateView {
        match self.stage {
            StageView::Identity => match current_id(loaded) {
                Ok(id) => self.at(StageView::Current(id)),
                Err(_) => self.failed(Error::UnknownRoom),
            },
            StageView::Done(_) => self,
            _ => self.failed(Error::InternalError),
        }
    }

    /// The move after the session was asked to store the identifier of the
    /// new room. An identifier that was not stored leaves the room unknown.
    pub open spec fn after_stored(self, result: Result<Identifier, xid::Error>) -> UpdateView {
        match self.stage {
            StageView::Persist => match result {
                Ok(_) => self.at(StageView::Next),
                Err(_) => self.failed(Error::UnknownRoom),
            },
            StageView::Done(_) => self,
            _ => self.failed(Error::InternalError),
        }
    }
}

impl View for Update {
    type V = UpdateView;

    closed spec fn view(&self) -> UpdateView {
        UpdateView { name: self.name@, target: self.target, stage: self.stage@ }
    }
}

/// What the validation of a move from `room` to the room `target` gives:
/// the identifier to store where the move is legal, the error otherwise.
pub open spec fn validated(room: RoomView, target: Identifier) -> Result<Identifier, Error> {
    if legal(room, target) {
        Ok(target)
    } else {
        Err(Error::IllegalTransition)
    }
}

/// Validates a move from the room `current` to the room `target`.
///
/// A legal move gives the identifier that the session is to hold from now
/// on. An illegal move is refused; the session is to keep what it holds.
pub fn validate(current: &Room, target: Identifier) -> (r: Result<Identifier, Error>)
    ensures
        r == validated(current@, target),
{
    if current.sees(target) {
        Ok(target)
    } else {
        Err(Error::IllegalTransition)
    }
}

/// Begins a move within the message of `path` to the room of `req`.
pub fn handle(path: &Path, req: &Request) -> (r: Update)
    ensures
        r@ == (UpdateView { name: path.message_name@, target: req.xid, stage: StageView::Message }),
{
    Update { name: path.message_name.clone(), target: req.xid, stage: Stage::Message }
}

impl Update {
    /// What the move needs next.
    pub fn action(&self, store: &Store) -> (r: Action)
        ensures
            r@ == self@.action(),
    {
        match &self.stage {
            Stage::Message => Action::Send(store.contains(self.name.as_str())),
            Stage::Identity => Action::LoadId,
            Stage::Current(id) => Action::Send(store.get(self.name.as_str(), *id)),
            Stage::Persist => Action::StoreId(self.target),
            Stage::Next => Action::Send(store.get(self.name.as_str(), Some(self.target))),
            Stage::Done(_) => Action::Finish,
        }
    }

    /// Takes a reply of the store.
    pub fn reply(self, reply: &Reply) -> (r: Update)
        ensures
            r@ == self@.after_reply(reply@),
    {
        let Update { name, target, stage } = self;
        let stage = match stage {
            Stage::Message => match Store::contains_reply(reply) {
                Ok(true) => Stage::Identity,
                Ok(false) => Stage::Done(Err(Error::UnknownMessage)),
                Err(_) => Stage::Done(Err(Error::InternalError)),
            },
            Stage::Current(_) => match Store::get_reply(reply) {
                Ok(Some(room)) => match validate(&room, target) {
                    Ok(_) => Stage::Persist,
                    Err(e) => Stage::Done(Err(e)),
                },
                Ok(None) => Stage::Done(Err(Error::UnknownRoom)),
                Err(_) => Stage::Done(Err(Error::InternalError)),
            },
            Stage::Next => match Store::get_reply(reply) {
                Ok(Some(room)) => Stage::Done(Ok(room)),
                Ok(None) => Stage::Done(Err(Error::UnknownRoom)),
                Err(_) => Stage::Done(Err(Error::InternalError)),
            },
            Stage::Done(end) => Stage::Done(end),
            _ => Stage::Done(Err(Error::InternalError)),
        };
        Update { name, target, stage }
    }

    /// Takes what the session holds as the identifier of the current room.
    pub fn identity(self, loaded: Option<Result<Identifier, xid::Error>>) -> (r: Update)
        ensures
            r@ == self@.after_identity(loaded),
    {
        let Update { name, target, stage } = self;
        let stage = match stage {
            Stage::Identity => match super::current(loaded) {
                Ok(id) => Stage::Current(id),
                Err(_) => Stage::Done(Err(Error::UnknownRoom)),
            },
            Stage::Done(end) => Stage::Done(end),
            _ => Stage::Done(Err(Error::InternalError)),
        };
        Update { name, target, stage }
    }

    /// Takes the result of storing the identifier of the new room in the
    /// session.
    pub fn stored(self, result: Result<Identifier, xid::Error>) -> (r: Update)
        ensures
            r@ == self@.after_stored(result),
    {
        let Update { name, target, stage } = self;
        let stage = match stage {
            Stage::Persist => match result {
                Ok(_) => Stage::Next,
                Err(_) => Stage::Done(Err(Error::UnknownRoom)),
            },
            Stage::Done(end) => Stage::Done(end),
            _ => Stage::Done(Err(Error::InternalError)),
        };
        Update { name, target, stage }
    }

    /// Ends the move: the response where it has come to its end, and an
    /// internal error where it was left before that.
    pub fn finish(self) -> (r: Result<Room, Error>)
        ensures
            match r {
                Ok(room) => self@.stage == StageView::Done(Ok(room@)),
                Err(e) => self@.stage == StageView::Done(Err(e)) || (!(self@.stage is Done) && e
                    == Error::InternalError),
            },
    {
        match self.stage {
            Stage::Done(end) => end,
            _ => Err(Error::InternalError),
        }
    }

    /// The response, once the move has ended.
    pub fn response(self) -> (r: Option<Result<Room, Error>>)
        ensures
            match r {
                Some(Ok(room)) => self@.stage == StageView::Done(Ok(room@)),
                Some(Err(e)) => self@.stage == StageView::Done(Err(e)),
                None => !(self@.stage is Done),
            },
    {
        match self.stage {
            Stage::Done(end) => Some(end),
            _ => None,
        }
    }
}

/// A move to a room that the current room does not list is refused as
/// illegal, and nothing more is asked of the session or the store: the
/// identifier that the session holds stays.
pub proof fn law_illegal_move_changes_nothing(
    update: UpdateView,
    value: Seq<u8>,
    room: RoomView,
)
    requires
        update.stage is Current,
        crate::store::record::unrecord(value) == Some(room),
        !legal(room, update.target),
    ensures
        update.after_reply(ReplyView::Get(Some(value))).stage == StageView::Done(
            Err::<RoomView, Error>(Error::IllegalTransition),
        ),
        update.after_reply(ReplyView::Get(Some(value))).action() == ActionView::Finish,
{
}

/// The session is asked to store an identifier only after the store has
/// shown a current room that lists it, and it is the identifier asked for.
pub proof fn law_only_legal_moves_are_stored(update: UpdateView, reply: ReplyView)
    requires
        update.after_reply(reply).action() is StoreId,
        !(update.stage is Persist),
    ensures
        update.stage is Current,
        room_read(reply) matches Ok(Some(room)) && legal(room, update.target),
        update.after_reply(reply).action() == ActionView::StoreId(update.target),
{
}

/// A move within a message that was stored, step by step.
///
/// The session holds the identifier of a room of the message. The store is
/// asked for the message, the session for the identifier, the store for a
/// room that carries the identifier. Where that room lists the room asked
/// for, the session is asked to store the new identifier, and the move ends
/// with a room of the message that carries it. Where it does not, the move
/// is refused as illegal, and neither the session nor the store is asked
/// for anything more.
pub proof fn law_move_in_stored_message(
    name: Seq<char>,
    places: Seq<Place>,
    seconds: u64,
    contents: Map<Seq<char>, Seq<u8>>,
    i: int,
    target: Identifier,
)
    requires
        has_room(places, origin()),
        recordable(places),
        !contents.contains_key(name),
        0 <= i < places.len(),
    ensures
        ({
            let after = put_through(start(name, places, seconds), contents).1;
            let id = places[i].cell.id;
            let begun = UpdateView { name, target, stage: StageView::Message };
            let known = begun.after_reply(answer(after, CommandView::Exists { key: name }));
            let told = known.after_identity(Some(Ok(id)));
            let here = CommandView::Get { key: room_key(name, id) };
            let there = CommandView::Get { key: room_key(name, target) };
            let checked = told.after_reply(answer(after, here));
            let arrived = checked.after_stored(Ok(target)).after_reply(answer(after, there));
            &&& begun.action() == ActionView::Send(CommandView::Exists { key: name })
            &&& known.action() == ActionView::LoadId
            &&& told.action() == ActionView::Send(here)
            &&& exists|j: int|
                0 <= j < places.len() && places[j].cell.id == id && if legal(
                    #[trigger] room_of(places, j),
                    target,
                ) {
                    &&& checked.action() == ActionView::StoreId(target)
                    &&& checked.after_stored(Ok(target)).action() == ActionView::Send(there)
                    &&& exists|k: int|
                        0 <= k < places.len() && places[k].cell.id == target && arrived.stage
                            == StageView::Done(Ok(#[trigger] room_of(places, k)))
                } else {
                    &&& checked.stage == StageView::Done(Err(Error::IllegalTransition))
                    &&& checked.action() == ActionView::Finish
                }
        }),
{
    let after = put_through(start(name, places, seconds), contents).1;
    let id = places[i].cell.id;
    let here = CommandView::Get { key: room_key(name, id) };
    let there = CommandView::Get { key: room_key(name, target) };
    law_put_then_read(name, places, seconds, contents, i);
    let j = choose|j: int|
        0 <= j < places.len() && places[j].cell.id == id && room_read(answer(after, here)) == Ok::<
            Option<RoomView>,
            store::Error,
        >(Some(#[trigger] room_of(places, j)));
    if legal(room_of(places, j), target) {
        let steps = places[j].neighbors@;
        lemma_seen(places, steps, target);
        let n = choose|n: int|
            0 <= n < steps.len() && leads_to(places, #[trigger] steps[n], target);
        let found = place_at(places, steps[n], 0);
        lemma_place_at(places, steps[n], 0);
        law_put_then_read(name, places, seconds, contents, found);
        let k = choose|k: int|
            0 <= k < places.len() && places[k].cell.id == target && room_read(
                answer(after, there),
            ) == Ok::<Option<RoomView>, store::Error>(Some(#[trigger] room_of(places, k)));
        assert(0 <= k < places.len() && places[k].cell.id == target);
    }
    assert(0 <= j < places.len() && places[j].cell.id == id);
}

} // verus!
