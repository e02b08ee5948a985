//! A channel of numbered JSON requests and replies, shared by the two remote protocols.
//!
//! The socket itself stays outside: a [`Wire`] numbers the requests and says what to send, and a
//! [`Pending`] request judges each message that comes in until its reply is there.
use vstd::prelude::*;

use serde_json::Value;

use crate::error::Error;
use crate::error::ErrorView;
use crate::json;
use crate::json::Json;
use crate::json::JsonNumber;

verus! {

/// Bound on a single blocking socket read, in seconds, so a wedged browser cannot hang the caller
/// forever.
pub const READ_TIMEOUT_SECONDS: u64 = 30;

/// The request counter of one connection. One request is in flight at a time, and its reply is
/// told by an id that grows with each request.
pub struct Wire {
    last_id: u64,
}

impl Wire {
    /// The id of the latest request, zero before the first.
    pub closed spec fn last_id(&self) -> u64 {
        self.last_id
    }

    /// The counter of a fresh connection.
    pub fn connect() -> (r: Self)
        ensures
            r.last_id() == 0,
    {
        Wire { last_id: 0 }
    }

    /// Whether the request numbers are used up.
    pub fn is_exhausted(&self) -> (r: bool)
        ensures
            r == (self.last_id() == u64::MAX),
    {
        self.last_id == u64::MAX
    }

    /// Number `object` as the next request: an `id` is put in, in place of any it had.
    pub fn request(&mut self, object: serde_json::Map<String, Value>) -> (r: Pending)
        requires
            old(self).last_id() < u64::MAX,
        ensures
            final(self).last_id() == old(self).last_id() + 1,
            r.id() == final(self).last_id(),
            r.text() == frame_text(json::entries(object), r.id()),
    {
        self.last_id = self.last_id + 1;
        let mut numbered: serde_json::Map<String, Value> = object;
        json::put(&mut numbered, "id", json::number_value(self.last_id));
        let text: String = json::render(&json::object_value(numbered));
        Pending { id: self.last_id, text }
    }
}

/// The text of the request that carries `entries` under the id `id`.
pub open spec fn frame_text(entries: Map<Seq<char>, Json>, id: u64) -> Seq<char> {
    json::rendered(
        Json::Object(entries.insert("id"@, Json::Number(JsonNumber::Unsigned(id)))),
    )
}

/// A message from the browser.
pub enum Incoming {
    /// The browser closes the connection.
    Close,
    /// A text message.
    Text(String),
    /// A message of any other kind.
    Other,
}

/// What an [`Incoming`] message holds.
pub enum IncomingView {
    Close,
    Text(Seq<char>),
    Other,
}

impl View for Incoming {
    type V = IncomingView;

    open spec fn view(&self) -> IncomingView {
        match *self {
            Incoming::Close => IncomingView::Close,
            Incoming::Text(text) => IncomingView::Text(text@),
            Incoming::Other => IncomingView::Other,
        }
    }
}

/// What becomes of a message while a reply is awaited.
pub enum Received {
    /// It is the reply.
    Reply(Value),
    /// It is an event or belongs to something else: the next message is awaited.
    Skip,
    /// No reply will come.
    Failed(Error),
}

/// What a [`Received`] holds.
pub enum ReceivedView {
    Reply(Json),
    Skip,
    Failed(ErrorView),
}

impl View for Received {
    type V = ReceivedView;

    open spec fn view(&self) -> ReceivedView {
        match *self {
            Received::Reply(frame) => ReceivedView::Reply(json::content(frame)),
            Received::Skip => ReceivedView::Skip,
            Received::Failed(error) => ReceivedView::Failed(error@),
        }
    }
}

/// A request in flight.
pub struct Pending {
    id: u64,
    text: String,
}

impl Pending {
    /// The number of the request.
    pub closed spec fn id(&self) -> u64 {
        self.id
    }

    /// The message that carries the request.
    pub closed spec fn text(&self) -> Seq<char> {
        self.text@
    }

    /// The message to send.
    pub fn message(&self) -> (r: &str)
        ensures
            r@ == self.text(),
    {
        self.text.as_str()
    }

    /// Judge one message from the browser: the reply with the matching id, an event or an unrelated
    /// frame to discard, or the end of the wait.
    pub fn receive(&self, message: Incoming) -> (r: Received)
        ensures
            r@ == received(self.id(), message@),
    {
        match message {
            Incoming::Close => Received::Failed(
                Error::Malformed {
                    protocol: "ws",
                    detail: "connection closed by the browser".to_owned(),
                },
            ),
            Incoming::Other => Received::Skip,
            Incoming::Text(text) => self.take_frame(json::parse(text.as_str())),
        }
    }

    /// Judge the frame read from a text message, or the message of the error that reading it gave.
    pub fn take_frame(&self, frame: Result<Value, String>) -> (r: Received)
        ensures
            r@ == framed(self.id(), frame_view(frame)),
    {
        match frame {
            Err(detail) => Received::Failed(Error::Malformed { protocol: "ws", detail }),
            Ok(frame) => {
                let id: Option<u64> = match json::get(&frame, "id") {
                    Some(id) => id.as_u64(),
                    None => None,
                };
                if id == Some(self.id) {
                    Received::Reply(frame)
                } else {
                    Received::Skip
                }
            },
        }
    }
}

/// What a frame, or the error in its place, holds.
pub open spec fn frame_view(frame: Result<Value, String>) -> Result<Json, Seq<char>> {
    match frame {
        Ok(frame) => Ok(json::content(frame)),
        Err(detail) => Err(detail@),
    }
}

/// The id that a frame carries, where it is a whole number from zero up.
pub open spec fn id_of(frame: Json) -> Option<u64> {
    match frame.field("id"@) {
        Some(id) => id.unsigned(),
        None => None,
    }
}

/// What becomes of a message while the reply to request `id` is awaited.
pub open spec fn received(id: u64, message: IncomingView) -> ReceivedView {
    match message {
        IncomingView::Close => ReceivedView::Failed(
            ErrorView::Malformed {
                protocol: "ws"@,
                detail: "connection closed by the browser"@,
            },
        ),
        IncomingView::Other => ReceivedView::Skip,
        IncomingView::Text(text) => framed(id, json::parsed(text)),
    }
}

/// What becomes of a frame while the reply to request `id` is awaited.
pub open spec fn framed(id: u64, frame: Result<Json, Seq<char>>) -> ReceivedView {
    match frame {
        Err(detail) => ReceivedView::Failed(ErrorView::Malformed { protocol: "ws"@, detail }),
        Ok(frame) => if id_of(frame) == Some(id) {
            ReceivedView::Reply(frame)
        } else {
            ReceivedView::Skip
        },
    }
}

/// The entries of a command: its method, its parameters, and one more text where there is one.
pub open spec fn command_entries(
    method: Seq<char>,
    params: Json,
    extra: Option<(Seq<char>, Seq<char>)>,
) -> Map<Seq<char>, Json> {
    let object = map!["method"@ => Json::Text(method)].insert("params"@, params);
    match extra {
        Some((key, value)) => object.insert(key, Json::Text(value)),
        None => object,
    }
}

/// What an extra entry of a command holds.
pub open spec fn extra_view(extra: Option<(&str, &str)>) -> Option<(Seq<char>, Seq<char>)> {
    match extra {
        Some((key, value)) => Some((key@, value@)),
        None => None,
    }
}

/// Build a `{ method, params, [extra] }` command object; the id is added by [`Wire::request`].
pub fn command(method: &str, params: Value, extra: Option<(&str, &str)>) -> (r: serde_json::Map<
    String,
    Value,
>)
    ensures
        json::entries(r) == command_entries(method@, json::content(params), extra_view(extra)),
{
    let mut object: serde_json::Map<String, Value> = json::empty_object();
    json::put(&mut object, "method", json::text_value(method));
    json::put(&mut object, "params", params);
    if let Some((key, value)) = extra {
        json::put(&mut object, key, json::text_value(value));
    }
    object
}

/// What a protocol call gave, seen through what its value holds and the view of its error.
pub open spec fn seen_json(result: Result<Value, Error>) -> Result<Json, ErrorView> {
    match result {
        Ok(value) => Ok(json::content(value)),
        Err(error) => Err(error@),
    }
}

// --- Laws of the exchange. --------------------------------------------------------------------

/// What waiting for the reply to request `id` gives, where these messages come in: nothing yet, or
/// the reply, or the error that ends the wait.
pub open spec fn exchange(id: u64, messages: Seq<IncomingView>) -> Option<Result<Json, ErrorView>>
    decreases messages.len(),
{
    if messages.len() == 0 {
        None
    } else {
        match received(id, messages[0]) {
            ReceivedView::Reply(frame) => Some(Ok(frame)),
            ReceivedView::Failed(error) => Some(Err(error)),
            ReceivedView::Skip => exchange(id, messages.drop_first()),
        }
    }
}

/// A message that is no reply to request `id` and ends no wait: one that is not text, or a frame
/// under another id or none.
pub open spec fn unrelated(id: u64, message: IncomingView) -> bool {
    match message {
        IncomingView::Close => false,
        IncomingView::Other => true,
        IncomingView::Text(text) => json::parsed(text) matches Ok(frame) && id_of(frame) != Some(
            id,
        ),
    }
}

/// A request gets the first frame that carries its id; events and unrelated frames before it are
/// discarded, and what comes after it is left alone.
pub proof fn lemma_reply_is_first_match(
    id: u64,
    before: Seq<IncomingView>,
    text: Seq<char>,
    frame: Json,
    after: Seq<IncomingView>,
)
    requires
        forall|i: int| 0 <= i < before.len() ==> unrelated(id, #[trigger] before[i]),
        json::parsed(text) == Ok::<Json, Seq<char>>(frame),
        id_of(frame) == Some(id),
    ensures
        exchange(id, before + seq![IncomingView::Text(text)] + after) == Some(
            Ok::<Json, ErrorView>(frame),
        ),
    decreases before.len(),
{
    let messages = before + seq![IncomingView::Text(text)] + after;
    if before.len() == 0 {
        assert(messages[0] == IncomingView::Text(text));
    } else {
        assert(messages[0] == before[0]);
        assert(unrelated(id, before[0]));
        assert forall|i: int| 0 <= i < before.drop_first().len() implies unrelated(
            id,
            #[trigger] before.drop_first()[i],
        ) by {
            assert(unrelated(id, before[i + 1]));
        }
        lemma_reply_is_first_match(id, before.drop_first(), text, frame, after);
        assert(messages.drop_first() =~= before.drop_first() + seq![IncomingView::Text(text)]
            + after);
    }
}

/// The frame that a request gets carries its id.
pub proof fn lemma_reply_carries_id(id: u64, messages: Seq<IncomingView>)
    ensures
        exchange(id, messages) matches Some(Ok(frame)) ==> id_of(frame) == Some(id),
    decreases messages.len(),
{
    if messages.len() > 0 {
        lemma_reply_carries_id(id, messages.drop_first());
    }
}

/// The reply to one request is never taken for the reply to another: it is skipped there.
pub proof fn lemma_reply_answers_one_request(id: u64, other: u64, message: IncomingView)
    requires
        id != other,
        received(id, message) is Reply,
    ensures
        received(other, message) is Skip,
{
}

/// The message of a request carries every entry of its object, and its number under `id` in place
/// of whatever stood there: it is the text of any object that holds just these.
pub proof fn lemma_request_carries_its_entries(
    entries: Map<Seq<char>, Json>,
    id: u64,
    numbered: Map<Seq<char>, Json>,
)
    requires
        numbered.dom() == entries.dom().insert("id"@),
        numbered["id"@] == Json::Number(JsonNumber::Unsigned(id)),
        forall|key: Seq<char>|
            key != "id"@ && #[trigger] entries.contains_key(key) ==> numbered[key] == entries[key],
    ensures
        frame_text(entries, id) == json::rendered(Json::Object(numbered)),
{
    assert(numbered =~= entries.insert("id"@, Json::Number(JsonNumber::Unsigned(id))));
}

/// A command holds its method, its parameters and the extra text, each under its own key and as it
/// was given, and nothing else.
pub proof fn lemma_command_holds_what_it_is_given(
    method: Seq<char>,
    params: Json,
    key: Seq<char>,
    value: Seq<char>,
)
    requires
        key != "method"@,
        key != "params"@,
    ensures
        ({
            let plain = command_entries(method, params, None);
            let extended = command_entries(method, params, Some((key, value)));
            &&& plain.dom() == set!["method"@, "params"@]
            &&& plain["method"@] == Json::Text(method)
            &&& plain["params"@] == params
            &&& extended.dom() == set!["method"@, "params"@, key]
            &&& extended["method"@] == Json::Text(method)
            &&& extended["params"@] == params
            &&& extended[key] == Json::Text(value)
        }),
{
    reveal_strlit("method");
    reveal_strlit("params");
    assert("method"@[0] != "params"@[0]);
    let plain = command_entries(method, params, None);
    let extended = command_entries(method, params, Some((key, value)));
    assert(plain.dom() =~= set!["method"@, "params"@]);
    assert(extended.dom() =~= set!["method"@, "params"@, key]);
}

/// A frame is the reply to a request exactly where it is an object with the number of the request
/// under `id`, and then it is handed on whole; any other frame is skipped.
pub proof fn lemma_reply_is_told_by_its_number(id: u64, frame: Map<Seq<char>, Json>)
    ensures
        frame.contains_key("id"@) && frame["id"@] == Json::Number(JsonNumber::Unsigned(id))
            ==> framed(id, Ok(Json::Object(frame))) == ReceivedView::Reply(Json::Object(frame)),
        !(frame.contains_key("id"@) && frame["id"@] == Json::Number(JsonNumber::Unsigned(id)))
            ==> framed(id, Ok(Json::Object(frame))) == ReceivedView::Skip,
{
}

/// Every message has its consequence: a close ends the wait, what is no text is skipped, a text that
/// is no JSON ends the wait with what is wrong with it, and a frame that is no object is skipped.
pub proof fn lemma_every_message_is_judged(id: u64, text: Seq<char>, detail: Seq<char>, frame: Json)
    ensures
        received(id, IncomingView::Close) matches ReceivedView::Failed(error) && error is Malformed,
        received(id, IncomingView::Other) is Skip,
        json::parsed(text) == Err::<Json, Seq<char>>(detail) ==> received(
            id,
            IncomingView::Text(text),
        ) == ReceivedView::Failed(ErrorView::Malformed { protocol: "ws"@, detail }),
        json::parsed(text) == Ok::<Json, Seq<char>>(frame) && frame !is Object ==> received(
            id,
            IncomingView::Text(text),
        ) is Skip,
        json::parsed(text) == Ok::<Json, Seq<char>>(frame) && frame is Object ==> received(
            id,
            IncomingView::Text(text),
        ) == framed(id, Ok(frame)),
{
}

} // verus!
