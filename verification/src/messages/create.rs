//! Creating a message.
//!
//! A message is created from a name and a text of one to sixty-four bytes.
//! It is generated and stored unless a message of the same name exists.
//! Afterwards the identifier cookie of the session is removed: it belongs
//! to another message.

use super::Action;
use super::ActionView;
use super::has_room;
use super::lemma_place_at;
use super::origin;
use super::place_at;
use super::Message;
use super::Place;
use crate::store;
use crate::store::existence;
use crate::store::model::answer;
use crate::store::model::kept;
use crate::store::model::law_put_then_read;
use crate::store::model::put_through;
use crate::store::model::recordable;
use crate::store::model::remaining;
use crate::store::model::start;
use crate::store::plan;
use crate::store::CommandView;
use crate::store::Put;
use crate::store::PutView;
use crate::store::Reply;
use crate::store::ReplyView;
use crate::store::Store;
use vstd::prelude::*;
use vstd::string::StringExecFns;
use vstd::utf8::encode_utf8;

verus! {

/// The maximum length of a message, in bytes.
pub const MAX_LENGTH: usize = 64;

/// A request to create a message.
#[derive(Debug)]
pub struct Request {
    /// The name of the message.
    pub name: String,
    /// The actual message.
    pub text: String,
}

/// The response: the name of the message that was created.
#[derive(Clone, Debug, PartialEq, Eq)]
pub struct Response(pub String);

/// The possible error values.
#[derive(Clone, Copy, Debug, PartialEq, Eq, Structural)]
pub enum Error {
    /// The message is invalid.
    MessageInvalid,
    /// A message with the same name already exists.
    AlreadyExists,
    /// An internal error occurred.
    InternalError,
}

/// The text of an error.
pub open spec fn error_text(error: Error) -> Seq<char> {
    match error {
        Error::MessageInvalid => "message invalid"@,
        Error::AlreadyExists => "already exists"@,
        Error::InternalError => "internal error"@,
    }
}

/// The status code that an error is answered with.
pub open spec fn error_status(error: Error) -> u16 {
    match error {
        Error::MessageInvalid => 400,
        Error::AlreadyExists => 409,
        Error::InternalError => 500,
    }
}

/// Whether a text can be the text of a message: it has one byte at least
/// and sixty-four at most.
pub open spec fn valid_text(text: Seq<char>) -> bool {
    1 <= encode_utf8(text).len() <= MAX_LENGTH
}

/// The location of a message that was created: the host of the request, or
/// the word `host` where the request names none, then the path of the
/// request and the name of the message.
pub open spec fn location_of(
    host: Option<Seq<char>>,
    path: Seq<char>,
    name: Seq<char>,
) -> Seq<char> {
    "http://"@ + match host {
        Some(host) => host,
        None => "host"@,
    } + path + name
}

impl Error {
    /// The text of this error.
    pub fn to_string(&self) -> (r: String)
        ensures
            r@ == error_text(*self),
    {
        match self {
            Error::MessageInvalid => "message invalid".to_owned(),
            Error::AlreadyExists => "already exists".to_owned(),
            Error::InternalError => "internal error".to_owned(),
        }
    }

    /// The status code that this error is answered with.
    pub fn status_code(&self) -> (r: u16)
        ensures
            r == error_status(*self),
    {
        match self {
            Error::MessageInvalid => 400,
            Error::AlreadyExists => 409,
            Error::InternalError => 500,
        }
    }
}

impl<T> From<std::sync::PoisonError<T>> for Error {
    /// A lock that was poisoned is an internal error.
    fn from(_source: std::sync::PoisonError<T>) -> (r: Self) {
        Error::InternalError
    }
}

impl<T> vstd::std_specs::convert::FromSpecImpl<std::sync::PoisonError<T>> for Error {
    open spec fn obeys_from_spec() -> bool {
        true
    }

    open spec fn from_spec(_source: std::sync::PoisonError<T>) -> Self {
        Error::InternalError
    }
}

impl From<store::Error> for Error {
    /// An error of the store is an internal error.
    fn from(_source: store::Error) -> (r: Self) {
        Error::InternalError
    }
}

impl vstd::std_specs::convert::FromSpecImpl<store::Error> for Error {
    open spec fn obeys_from_spec() -> bool {
        true
    }

    open spec fn from_spec(_source: store::Error) -> Self {
        Error::InternalError
    }
}

impl Response {
    /// The location of the message that was created, for a request to
    /// `host` at `path`.
    pub fn location(&self, host: Option<&str>, path: &str) -> (r: String)
        ensures
            r@ == location_of(
                match host {
                    Some(host) => Some(host@),
                    None => None,
                },
                path@,
                self.0@,
            ),
    {
        let mut r = "http://".to_owned();
        match host {
            Some(host) => r.append(host),
            None => r.append("host"),
        }
        r.append(path);
        r.append(self.0.as_str());
        r
    }
}

/// How far a creation has come.
#[derive(Debug)]
pub enum Stage {
    /// The store is asked whether the message exists.
    Message,
    /// The message is being generated.
    Generate,
    /// The message is being stored.
    Store(Put),
    /// The identifier cookie of the session is being removed.
    Clear,
    /// The creation has ended.
    Done(Result<Response, Error>),
}

/// What a stage holds.
pub enum StageView {
    /// The store is asked whether the message exists.
    Message,
    /// The message is being generated.
    Generate,
    /// The message is being stored.
    Store(PutView),
    /// The identifier cookie of the session is being removed.
    Clear,
    /// The creation has ended with an error, or with the name of the
    /// message.
    Done(Result<Seq<char>, Error>),
}

impl View for Stage {
    type V = StageView;

    open spec fn view(&self) -> StageView {
        match self {
            Stage::Message => StageView::Message,
            Stage::Generate => StageView::Generate,
            Stage::Store(put) => StageView::Store(put@),
            Stage::Clear => StageView::Clear,
            Stage::Done(Ok(response)) => StageView::Done(Ok(response.0@)),
            Stage::Done(Err(e)) => StageView::Done(Err(*e)),
        }
    }
}

/// A creation in progress.
#[derive(Debug)]
pub struct Create {
    /// The name of the message.
    name: String,
    /// How far the creation has come.
    stage: Stage,
}

/// What a creation in progress holds.
pub struct CreateView {
    /// The name of the message.
    pub name: Seq<char>,
    /// How far the creation has come.
    pub stage: StageView,
}

impl CreateView {
    /// The creation at `stage`.
    pub open spec fn at(self, stage: StageView) -> CreateView {
        CreateView { stage, ..self }
    }

    /// The creation ended with `error`.
    pub open spec fn failed(self, error: Error) -> CreateView {
        self.at(StageView::Done(Err(error)))
    }

    /// What the creation needs next.
    pub open spec fn action(self) -> ActionView {
        match self.stage {
            StageView::Message => ActionView::Send(CommandView::Exists { key: self.name }),
            StageView::Generate => ActionView::Generate,
            StageView::Store(put) => match put.pending() {
                Some(command) => ActionView::Send(command),
                None => ActionView::Finish,
            },
            StageView::Clear => ActionView::ClearId,
            StageView::Done(_) => ActionView::Finish,
        }
    }

    /// The creation after a reply of the store.
    ///
    /// A message that is present exists already. Any error of the store,
    /// also while the message is stored, is an internal error, and so is a
    /// reply that nothing waits for. Once the last command is answered,
    /// the cookie is removed.
    pub open spec fn after_reply(self, reply: ReplyView) -> CreateView {
        match self.stage {
            StageView::Message => match existence(reply) {
                Ok(false) => self.at(StageView::Generate),
                Ok(true) => self.failed(Error::AlreadyExists),
                Err(_) => self.failed(Error::InternalError),
            },
            StageView::Store(put) => match put.advanced(reply).outcome() {
                None => self.at(StageView::Store(put.advanced(reply))),
                Some(Ok(_)) => self.at(StageView::Clear),
                Some(Err(_)) => self.failed(Error::InternalError),
            },
            StageView::Done(_) => self,
            _ => self.failed(Error::InternalError),
        }
    }

    /// The creation after the message was generated: its storing begins.
    pub open spec fn after_generated(self, put: PutView) -> CreateView {
        match self.stage {
            StageView::Generate => self.at(StageView::Store(put)),
            StageView::Done(_) => self,
            _ => self.failed(Error::InternalError),
        }
    }

    /// The creation after the message could not be generated: it ends with
    /// an internal error.
    pub open spec fn after_ungenerated(self) -> CreateView {
        match self.stage {
            StageView::Done(_) => self,
            _ => self.failed(Error::InternalError),
        }
    }

    /// The creation after the cookie was removed: it ends with the name of
    /// the message.
    pub open spec fn after_cleared(self) -> CreateView {
        match self.stage {
            StageView::Clear => self.at(StageView::Done(Ok(self.name))),
            StageView::Done(_) => self,
            _ => self.failed(Error::InternalError),
        }
    }
}

impl View for Create {
    type V = CreateView;

    closed spec fn view(&self) -> CreateView {
        CreateView { name: self.name@, stage: self.stage@ }
    }
}

/// Begins the creation of a message. A text that is empty or longer than
/// sixty-four bytes ends it at once.
pub fn handle(req: &Request) -> (r: Create)
    ensures
        r@ == (CreateView {
            name: req.name@,
            stage: if valid_text(req.text@) {
                StageView::Message
            } else {
                StageView::Done(Err(Error::MessageInvalid))
            },
        }),
{
    let length = req.text.as_str().as_bytes().len();
    let stage = if length > MAX_LENGTH || length < 1 {
        Stage::Done(Err(Error::MessageInvalid))
    } else {
        Stage::Message
    };
    Create { name: req.name.clone(), stage }
}

impl Create {
    /// What the creation needs next.
    pub fn action(&self, store: &Store) -> (r: Action)
        ensures
            r@ == self@.action(),
    {
        match &self.stage {
            Stage::Message => Action::Send(store.contains(self.name.as_str())),
            Stage::Generate => Action::Generate,
            Stage::Store(put) => match put.command() {
                Some(command) => Action::Send(command.duplicate()),
                None => Action::Finish,
            },
            Stage::Clear => Action::ClearId,
            Stage::Done(_) => Action::Finish,
        }
    }

    /// Takes a reply of the store.
    pub fn reply(self, reply: &Reply) -> (r: Create)
        ensures
            r@ == self@.after_reply(reply@),
    {
        let Create { name, stage } = self;
        let stage = match stage {
            Stage::Message => match Store::contains_reply(reply) {
                Ok(false) => Stage::Generate,
                Ok(true) => Stage::Done(Err(Error::AlreadyExists)),
                Err(_) => Stage::Done(Err(Error::InternalError)),
            },
            Stage::Store(put) => {
                let mut put = put;
                put.advance(reply);
                match put.outcome() {
                    None => Stage::Store(put),
                    Some(Ok(_)) => Stage::Clear,
                    Some(Err(_)) => Stage::Done(Err(Error::InternalError)),
                }
            },
            Stage::Done(end) => Stage::Done(end),
            _ => Stage::Done(Err(Error::InternalError)),
        };
        Create { name, stage }
    }

    /// Takes the message that was generated, and begins to store it.
    pub fn generated(self, store: &Store, message: &Message) -> (r: Create)
        ensures
            r@ == self@.after_generated(
                PutView {
                    plan: plan(message.spec_name(), message.spec_places(), store.spec_seconds()),
                    next: 0,
                    failed: None,
                },
            ),
    {
        let Create { name, stage } = self;
        let stage = match stage {
            Stage::Generate => Stage::Store(store.put_message(message)),
            Stage::Done(end) => Stage::Done(end),
            _ => Stage::Done(Err(Error::InternalError)),
        };
        Create { name, stage }
    }

    /// Takes the news that the message could not be generated.
    pub fn ungenerated(self) -> (r: Create)
        ensures
            r@ == self@.after_ungenerated(),
    {
        let Create { name, stage } = self;
        let stage = match stage {
            Stage::Done(end) => Stage::Done(end),
            _ => Stage::Done(Err(Error::InternalError)),
        };
        Create { name, stage }
    }

    /// Takes the news that the identifier cookie was removed.
    pub fn cleared(self) -> (r: Create)
        ensures
            r@ == self@.after_cleared(),
    {
        let Create { name, stage } = self;
        let stage = match stage {
            Stage::Clear => Stage::Done(Ok(Response(name.clone()))),
            Stage::Done(end) => Stage::Done(end),
            _ => Stage::Done(Err(Error::InternalError)),
        };
        Create { name, stage }
    }

    /// Ends the creation: the response where it has come to its end, and an
    /// internal error where it was left before that.
    pub fn finish(self) -> (r: Result<Response, Error>)
        ensures
            match r {
                Ok(response) => self@.stage == StageView::Done(Ok(response.0@)),
                Err(e) => self@.stage == StageView::Done(Err(e)) || (!(self@.stage is Done) && e
                    == Error::InternalError),
            },
    {
        match self.stage {
            Stage::Done(end) => end,
            _ => Err(Error::InternalError),
        }
    }

    /// The response, once the creation has ended.
    pub fn response(self) -> (r: Option<Result<Response, Error>>)
        ensures
            match r {
                Some(Ok(response)) => self@.stage == StageView::Done(Ok(response.0@)),
                Some(Err(e)) => self@.stage == StageView::Done(Err(e)),
                None => !(self@.stage is Done),
            },
    {
        match self.stage {
            Stage::Done(end) => Some(end),
            _ => None,
        }
    }
}

/// A message whose name is present is not created again, and nothing is
/// written or generated for it.
pub proof fn law_create_rejects_present_name(create: CreateView)
    requires
        create.stage is Message,
    ensures
        create.after_reply(ReplyView::Exists(true)).stage == StageView::Done(
            Err::<Seq<char>, Error>(Error::AlreadyExists),
        ),
        create.after_reply(ReplyView::Exists(true)).action() == ActionView::Finish,
{
}

/// The cookie is removed only after the last record of the message was
/// written, and the creation then ends with the name of the message.
pub proof fn law_create_clears_after_storing(create: CreateView, reply: ReplyView)
    requires
        create.after_reply(reply).action() is ClearId,
        !(create.stage is Clear),
    ensures
        create.stage matches StageView::Store(put) && put.advanced(reply).outcome() == Some(
            Ok::<(), store::Error>(()),
        ),
        create.after_reply(reply).after_cleared().stage == StageView::Done(
            Ok::<Seq<char>, Error>(create.name),
        ),
{
}

/// The commands of the storing that a creation has still to send.
pub open spec fn unsent(create: CreateView) -> nat {
    match create.stage {
        StageView::Store(put) => remaining(put),
        _ => 0,
    }
}

/// A creation that is storing its message, and the service, after every
/// pending command of the storing was sent and answered.
pub open spec fn stored_through(create: CreateView, contents: Map<Seq<char>, Seq<u8>>) -> (
    CreateView,
    Map<Seq<char>, Seq<u8>>,
)
    decreases unsent(create),
{
    match create.action() {
        ActionView::Send(command) => if create.stage is Store {
            stored_through(create.after_reply(answer(contents, command)), kept(contents, command))
        } else {
            (create, contents)
        },
        _ => (create, contents),
    }
}

/// A creation that stores its message sends what the storing sends, and
/// goes on to remove the cookie if the storing ends well, and ends with an
/// internal error if it does not.
proof fn lemma_create_follows_put(create: CreateView, contents: Map<Seq<char>, Seq<u8>>)
    requires
        create.stage is Store,
        create.stage->Store_0.pending() is Some,
    ensures
        stored_through(create, contents).1 == put_through(create.stage->Store_0, contents).1,
        stored_through(create, contents).0 == match put_through(
            create.stage->Store_0,
            contents,
        ).0.outcome() {
            Some(Ok(_)) => create.at(StageView::Clear),
            _ => create.failed(Error::InternalError),
        },
    decreases unsent(create),
{
    let put = create.stage->Store_0;
    let command = put.pending()->Some_0;
    let next = create.after_reply(answer(contents, command));
    let advanced = put.advanced(answer(contents, command));
    let held = kept(contents, command);
    assert(create.action() == ActionView::Send(command));
    assert(stored_through(create, contents) == stored_through(next, held));
    assert(put_through(put, contents) == put_through(advanced, held));
    if advanced.outcome() is None {
        assert(next.stage == StageView::Store(advanced));
        assert(next.at(StageView::Clear) == create.at(StageView::Clear));
        assert(next.failed(Error::InternalError) == create.failed(Error::InternalError));
        lemma_create_follows_put(next, held);
    } else {
        assert(advanced.pending() is None);
        assert(put_through(advanced, held) == (advanced, held));
        assert(!(next.stage is Store));
        assert(stored_through(next, held) == (next, held));
    }
}

/// The creation of a message whose name is absent, from the moment the
/// message was generated: every record of the message is written, the
/// cookie is removed, and the creation ends with the name of the message.
pub proof fn law_create_stores_message(
    create: CreateView,
    places: Seq<Place>,
    seconds: u64,
    contents: Map<Seq<char>, Seq<u8>>,
)
    requires
        create.stage is Generate,
        has_room(places, origin()),
        recordable(places),
        !contents.contains_key(create.name),
    ensures
        ({
            let put = start(create.name, places, seconds);
            let (stored, after) = stored_through(create.after_generated(put), contents);
            &&& after == put_through(put, contents).1
            &&& stored.action() == ActionView::ClearId
            &&& stored.after_cleared().stage == StageView::Done(Ok(create.name))
        }),
{
    let put = start(create.name, places, seconds);
    assert(put.pending() == Some(put.plan[0]));
    lemma_create_follows_put(create.after_generated(put), contents);
    lemma_place_at(places, origin(), 0);
    law_put_then_read(create.name, places, seconds, contents, place_at(places, origin(), 0));
}

} // verus!
