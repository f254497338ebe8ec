//! The decisions of a feed session: connect with the streaming token,
//! subscribe, start the keepalive, then hand every received message to the
//! book until the stream ends or fails. The caller performs each action and
//! reports what came of it as the next event.
use vstd::prelude::*;
use vstd::string::*;
use crate::book::{BookView, OrderBook};
use crate::message::{change_member, message_spec, type_member};

verus! {

/// Where the streaming token is requested.
pub const TOKEN_URL: &'static str = "https://api.kucoin.com/api/v1/bullet-public";

/// The streaming endpoint; the token goes in its query.
pub const ENDPOINT: &'static str = "wss://ws-api-spot.kucoin.com/";

/// The one subscription request, sent right after connecting.
pub const SUBSCRIBE_MESSAGE: &'static str = "{\"id\": \"1\", \"type\": \"subscribe\", \"topic\": \"/contractMarket/level2:ETHUSDTM\", \"privateChannel\": false, \"response\": true}";

/// The keepalive message.
pub const PING_MESSAGE: &'static str = "{\"id\": \"123456789:)\", \"type\": \"ping\"}";

/// Seconds between two keepalive messages.
pub const PING_INTERVAL_SECS: u64 = 10;

/// Where a session stands.
#[derive(PartialEq, Eq, Structural, Clone, Copy, Debug)]
pub enum Phase {
    Idle,
    Connecting,
    Subscribed,
    Streaming,
    Closed,
    Failed,
}

/// What happened since the last action.
pub enum Event {
    /// The session is asked to start.
    Start,
    /// The connection is established.
    Connected,
    /// The connection could not be established.
    ConnectFailed,
    /// The subscription request was sent.
    SubscribeSent,
    /// The subscription request could not be sent.
    SubscribeFailed,
    /// A text message arrived.
    Message(String),
    /// One read failed; the stream goes on.
    ReadError,
    /// The transport failed for good.
    TransportFailed,
    /// The stream ended.
    StreamEnded,
}

/// What the caller is to do next.
pub enum Action {
    /// Connect to this URL.
    Connect(String),
    /// Send the subscription request.
    SendSubscribe,
    /// Start the periodic keepalive and read the stream.
    StartKeepalive,
    /// Keep reading.
    Continue,
    /// Report the read error and keep reading.
    ReportError,
    /// The session is over: the stream ended.
    Finish,
    /// The session is over: it failed.
    Fail,
    /// The event does not apply in this phase; nothing changed.
    Ignore,
}

/// The characters between the endpoint and the token.
pub open spec fn token_query() -> Seq<char> {
    seq!['?', 't', 'o', 'k', 'e', 'n', '=']
}

/// The URL of the stream for a token.
pub open spec fn url_spec(endpoint: Seq<char>, token: Seq<char>) -> Seq<char> {
    endpoint + token_query() + token
}

/// The phase after an event.
pub open spec fn next_phase(p: Phase, e: Event) -> Phase {
    match (p, e) {
        (Phase::Idle, Event::Start) => Phase::Connecting,
        (Phase::Connecting, Event::Connected) => Phase::Subscribed,
        (Phase::Connecting, Event::ConnectFailed) => Phase::Failed,
        (Phase::Subscribed, Event::SubscribeSent) => Phase::Streaming,
        (Phase::Subscribed, Event::SubscribeFailed) => Phase::Failed,
        (Phase::Streaming, Event::StreamEnded) => Phase::Closed,
        (Phase::Streaming, Event::TransportFailed) => Phase::Failed,
        _ => p,
    }
}

/// Whether `a` is the action owed for event `e` in phase `p`.
pub open spec fn action_fits(p: Phase, e: Event, token: Seq<char>, a: Action) -> bool {
    match (p, e) {
        (Phase::Idle, Event::Start) => a matches Action::Connect(u) && u@ == url_spec(
            ENDPOINT@,
            token,
        ),
        (Phase::Connecting, Event::Connected) => a is SendSubscribe,
        (Phase::Connecting, Event::ConnectFailed) => a is Fail,
        (Phase::Subscribed, Event::SubscribeSent) => a is StartKeepalive,
        (Phase::Subscribed, Event::SubscribeFailed) => a is Fail,
        (Phase::Streaming, Event::Message(_)) => a is Continue,
        (Phase::Streaming, Event::ReadError) => a is ReportError,
        (Phase::Streaming, Event::StreamEnded) => a is Finish,
        (Phase::Streaming, Event::TransportFailed) => a is Fail,
        _ => a is Ignore,
    }
}

/// The URL of the stream: the endpoint with the token as its query.
pub fn connection_url(endpoint: &str, token: &str) -> (r: String)
    ensures
        r@ == url_spec(endpoint@, token@),
{
    let mut r = String::from_str(endpoint);
    r.append("?token=");
    r.append(token);
    proof {
        reveal_strlit("?token=");
        assert("?token="@ =~= token_query());
    }
    r
}

/// One feed session and the book it feeds.
pub struct FeedSession {
    phase: Phase,
    token: String,
    book: OrderBook,
}

impl FeedSession {
    pub closed spec fn wf(&self) -> bool {
        self.book.wf()
    }

    pub closed spec fn phase_spec(&self) -> Phase {
        self.phase
    }

    pub closed spec fn token_spec(&self) -> Seq<char> {
        self.token@
    }

    pub closed spec fn book_spec(&self) -> BookView {
        self.book@
    }

    /// A session that has not started, with an empty book.
    pub fn new(token: String) -> (r: FeedSession)
        ensures
            r.wf(),
            r.phase_spec() == Phase::Idle,
            r.token_spec() == token@,
            r.book_spec().bids == Map::<u64, i64>::empty(),
            r.book_spec().asks == Map::<u64, i64>::empty(),
    {
        FeedSession { phase: Phase::Idle, token, book: OrderBook::new() }
    }

    /// Where the session stands.
    pub fn phase(&self) -> (r: Phase)
        ensures
            r == self.phase_spec(),
    {
        self.phase
    }

    /// The book the session feeds.
    pub fn book(&self) -> (r: &OrderBook)
        requires
            self.wf(),
        ensures
            r.wf(),
            r@ == self.book_spec(),
    {
        &self.book
    }

    /// Takes one event and returns the next action. A message received while
    /// streaming goes to the book; no other event changes it.
    pub fn step(&mut self, event: Event) -> (a: Action)
        requires
            old(self).wf(),
        ensures
            final(self).wf(),
            final(self).phase_spec() == next_phase(old(self).phase_spec(), event),
            final(self).token_spec() == old(self).token_spec(),
            action_fits(old(self).phase_spec(), event, old(self).token_spec(), a),
            match (old(self).phase_spec(), event) {
                (Phase::Streaming, Event::Message(m)) => final(self).book_spec() == message_spec(
                    old(self).book_spec(),
                    type_member(m@),
                    change_member(m@),
                ),
                _ => final(self).book_spec() == old(self).book_spec(),
            },
    {
        match (self.phase, event) {
            (Phase::Idle, Event::Start) => {
                self.phase = Phase::Connecting;
                Action::Connect(connection_url(ENDPOINT, self.token.as_str()))
            },
            (Phase::Connecting, Event::Connected) => {
                self.phase = Phase::Subscribed;
                Action::SendSubscribe
            },
            (Phase::Connecting, Event::ConnectFailed) => {
                self.phase = Phase::Failed;
                Action::Fail
            },
            (Phase::Subscribed, Event::SubscribeSent) => {
                self.phase = Phase::Streaming;
                Action::StartKeepalive
            },
            (Phase::Subscribed, Event::SubscribeFailed) => {
                self.phase = Phase::Failed;
                Action::Fail
            },
            (Phase::Streaming, Event::Message(m)) => {
                self.book.process_message(m.as_str());
                Action::Continue
            },
            (Phase::Streaming, Event::ReadError) => Action::ReportError,
            (Phase::Streaming, Event::StreamEnded) => {
                self.phase = Phase::Closed;
                Action::Finish
            },
            (Phase::Streaming, Event::TransportFailed) => {
                self.phase = Phase::Failed;
                Action::Fail
            },
            _ => Action::Ignore,
        }
    }
}

} // verus!
