//! The worker of one token: which upstream streams it holds, what a command
//! does to that set, what it tells upstream, and when it ends.
//!
//! The worker's socket is not here. The program around the library connects,
//! reads and writes; at every turn it asks this state machine what to do.

use vstd::prelude::*;
use vstd::string::*;
use crate::decimal::{decimal_nat, u64_to_chars};
use crate::keys::{kline_stream, lemma_room_key_round_trip, room_key_spec, stream_kind,
    tick_stream, tick_stream_spec, StreamKind};
use crate::lists;
use crate::text::{first_sep, free_of, lemma_first_sep, push_char, same_text, split, split_spec,
    starts_with_spec, texts};
use crate::types::{CommandView, SubscriptionCommand};

verus! {

/// What a frame asks upstream to do with the streams it names.
#[derive(Debug, Clone, Copy, PartialEq, Eq, Structural)]
pub enum Method {
    Subscribe,
    Unsubscribe,
}

impl Method {
    /// The method's name on the wire.
    pub open spec fn name_spec(self) -> Seq<char> {
        match self {
            Method::Subscribe => "SUBSCRIBE"@,
            Method::Unsubscribe => "UNSUBSCRIBE"@,
        }
    }

    /// The method's name on the wire.
    pub fn name(&self) -> (r: &'static str)
        ensures
            r@ == self.name_spec(),
    {
        match self {
            Method::Subscribe => "SUBSCRIBE",
            Method::Unsubscribe => "UNSUBSCRIBE",
        }
    }
}

/// A request to upstream: a method and the streams it applies to.
#[derive(Debug)]
pub struct Frame {
    pub method: Method,
    pub params: Vec<String>,
}

/// What the worker does after a command.
#[derive(Debug)]
pub struct Step {
    /// The frame to send upstream, if any.
    pub send: Option<Frame>,
    /// The worker ends.
    pub exit: bool,
}

/// The worker as mathematics: its token, the intervals whose candle streams
/// it holds, in the order they were added, and whether it holds the trade
/// stream.
#[verifier::ext_equal]
pub struct WorkerView {
    pub address: Seq<char>,
    pub pool_id: i64,
    pub intervals: Seq<Seq<char>>,
    pub tick: bool,
}

/// The last of the pieces of `stream` between `@`: the interval of a candle
/// stream name.
pub open spec fn last_piece(stream: Seq<char>) -> Seq<char> {
    split_spec(stream, '@').last()
}

/// `s` without its first occurrence of `x`.
pub open spec fn without(s: Seq<Seq<char>>, x: Seq<char>) -> Seq<Seq<char>> {
    if s.contains(x) {
        s.remove(s.index_of(x))
    } else {
        s
    }
}

impl WorkerView {
    /// The intervals after a command.
    pub open spec fn intervals_after(self, cmd: CommandView) -> Seq<Seq<char>> {
        match cmd {
            CommandView::Subscribe(raw) => {
                if !starts_with_spec(raw, "tx@"@) && starts_with_spec(raw, "kl@"@)
                    && !self.intervals.contains(last_piece(raw)) {
                    self.intervals.push(last_piece(raw))
                } else {
                    self.intervals
                }
            },
            CommandView::Unsubscribe(raw) => {
                if !starts_with_spec(raw, "tx@"@) && starts_with_spec(raw, "kl@"@) {
                    without(self.intervals, last_piece(raw))
                } else {
                    self.intervals
                }
            },
        }
    }

    /// Whether the trade stream is held after a command.
    pub open spec fn tick_after(self, cmd: CommandView) -> bool {
        match cmd {
            CommandView::Subscribe(raw) => self.tick || starts_with_spec(raw, "tx@"@),
            CommandView::Unsubscribe(raw) => self.tick && !starts_with_spec(raw, "tx@"@),
        }
    }

    /// The worker after a command.
    pub open spec fn after(self, cmd: CommandView) -> WorkerView {
        WorkerView {
            address: self.address,
            pool_id: self.pool_id,
            intervals: self.intervals_after(cmd),
            tick: self.tick_after(cmd),
        }
    }

    /// Whether a command changes what the worker holds, so that upstream has
    /// to be told.
    pub open spec fn changes(self, cmd: CommandView) -> bool {
        self.after(cmd).tick != self.tick || self.after(cmd).intervals.len()
            != self.intervals.len()
    }

    /// Whether the worker ends after a command: on the stream name
    /// `SHUTDOWN`, and after an unsubscribe that leaves it without any stream.
    pub open spec fn exits(self, cmd: CommandView) -> bool {
        match cmd {
            CommandView::Subscribe(raw) => {
                !starts_with_spec(raw, "tx@"@) && !starts_with_spec(raw, "kl@"@) && raw
                    == "SHUTDOWN"@
            },
            CommandView::Unsubscribe(raw) => {
                !self.after(cmd).tick && self.after(cmd).intervals.len() == 0
            },
        }
    }

    /// The streams that a new connection subscribes to: the trade stream if
    /// it is held, then the candle stream of each interval, in order.
    pub open spec fn resubscription(self) -> Seq<Seq<char>> {
        let candles = Seq::new(
            self.intervals.len(),
            |i: int| room_key_spec(self.pool_id as int, self.address, self.intervals[i]),
        );
        if self.tick {
            seq![tick_stream_spec(self.pool_id as int, self.address)] + candles
        } else {
            candles
        }
    }
}

/// The state of the worker of one token.
pub struct WorkerState {
    token_address: String,
    pool_id: i64,
    active_intervals: Vec<String>,
    tick_subscribed: bool,
}

impl View for WorkerState {
    type V = WorkerView;

    closed spec fn view(&self) -> WorkerView {
        WorkerView {
            address: self.token_address@,
            pool_id: self.pool_id,
            intervals: texts(self.active_intervals@),
            tick: self.tick_subscribed,
        }
    }
}

/// Splitting never gives less than one piece.
pub proof fn lemma_split_nonempty(s: Seq<char>, sep: char)
    ensures
        split_spec(s, sep).len() >= 1,
    decreases s.len(),
{
    lemma_first_sep(s, sep);
    let i = first_sep(s, sep);
    if 0 <= i < s.len() {
        lemma_split_nonempty(s.skip(i + 1), sep);
    }
}

/// The interval of a candle stream name: its last piece between `@`.
fn interval_of(raw: &str) -> (r: String)
    ensures
        r@ == last_piece(raw@),
{
    let mut parts = split(raw, '@');
    proof {
        lemma_split_nonempty(raw@, '@');
        assert(texts(parts@).last() == parts@[parts.len() - 1]@);
    }
    let n = parts.len();
    parts.remove(n - 1)
}

impl WorkerState {
    /// The invariant of the representation: no interval is held twice.
    pub closed spec fn wf(&self) -> bool {
        texts(self.active_intervals@).no_duplicates()
    }

    /// The worker of `token_address` on the chain with `pool_id`, holding no
    /// stream yet.
    pub fn new(token_address: String, pool_id: i64) -> (w: WorkerState)
        ensures
            w.wf(),
            w@.address == token_address@,
            w@.pool_id == pool_id,
            w@.intervals.len() == 0,
            !w@.tick,
    {
        WorkerState {
            token_address,
            pool_id,
            active_intervals: Vec::new(),
            tick_subscribed: false,
        }
    }

    /// Every interval is held once.
    pub proof fn lemma_intervals_distinct(&self)
        requires
            self.wf(),
        ensures
            self@.intervals.no_duplicates(),
    {
    }

    /// Applies a command. The frame to send names the command's own stream,
    /// and is there exactly if the command changed what the worker holds.
    pub fn on_command(&mut self, cmd: SubscriptionCommand) -> (step: Step)
        requires
            old(self).wf(),
        ensures
            final(self).wf(),
            final(self)@ == old(self)@.after(cmd@),
            step.exit == old(self)@.exits(cmd@),
            step.send is Some == old(self)@.changes(cmd@),
            step.send is Some ==> match cmd@ {
                CommandView::Subscribe(raw) => step.send->0.method == Method::Subscribe
                    && texts(step.send->0.params@) == seq![raw],
                CommandView::Unsubscribe(raw) => step.send->0.method == Method::Unsubscribe
                    && texts(step.send->0.params@) == seq![raw],
            },
    {
        let ghost before = self@;
        match cmd {
            SubscriptionCommand::Subscribe(raw) => {
                let ghost name = raw@;
                let mut changed = false;
                let mut exit = false;
                match stream_kind(raw.as_str()) {
                    StreamKind::Tick => {
                        if !self.tick_subscribed {
                            self.tick_subscribed = true;
                            changed = true;
                        }
                    },
                    StreamKind::Kline => {
                        let interval = interval_of(raw.as_str());
                        changed = lists::add(&mut self.active_intervals, interval);
                    },
                    StreamKind::Other => {
                        exit = same_text(raw.as_str(), "SHUTDOWN");
                    },
                }
                assert(self@ =~= before.after(CommandView::Subscribe(name)));
                let send = if changed {
                    let mut params: Vec<String> = Vec::new();
                    params.push(raw);
                    assert(texts(params@) =~= seq![name]);
                    Some(Frame { method: Method::Subscribe, params })
                } else {
                    None
                };
                Step { send, exit }
            },
            SubscriptionCommand::Unsubscribe(raw) => {
                let ghost name = raw@;
                let mut changed = false;
                match stream_kind(raw.as_str()) {
                    StreamKind::Tick => {
                        if self.tick_subscribed {
                            self.tick_subscribed = false;
                            changed = true;
                        }
                    },
                    StreamKind::Kline => {
                        let interval = interval_of(raw.as_str());
                        let ghost held = texts(self.active_intervals@);
                        match lists::position(&self.active_intervals, interval.as_str()) {
                            Some(i) => {
                                proof {
                                    assert(held[i as int] == interval@);
                                    assert(held.contains(interval@));
                                    let j = held.index_of(interval@);
                                    assert(held[j] == interval@);
                                    assert(j == i);
                                }
                                self.active_intervals.remove(i);
                                proof {
                                    assert(texts(self.active_intervals@) =~= held.remove(i as int));
                                    assert forall|a: int, b: int|
                                        0 <= a < held.remove(i as int).len() && 0 <= b
                                            < held.remove(i as int).len() && a
                                            != b implies held.remove(i as int)[a] != held.remove(
                                        i as int,
                                    )[b] by {
                                        let a0 = if a < i { a } else { a + 1 };
                                        let b0 = if b < i { b } else { b + 1 };
                                        assert(held.remove(i as int)[a] == held[a0]);
                                        assert(held.remove(i as int)[b] == held[b0]);
                                    }
                                }
                                changed = true;
                            },
                            None => {},
                        }
                    },
                    StreamKind::Other => {},
                }
                assert(self@ =~= before.after(CommandView::Unsubscribe(name)));
                let exit = !self.tick_subscribed && self.active_intervals.len() == 0;
                let send = if changed {
                    let mut params: Vec<String> = Vec::new();
                    params.push(raw);
                    assert(texts(params@) =~= seq![name]);
                    Some(Frame { method: Method::Unsubscribe, params })
                } else {
                    None
                };
                Step { send, exit }
            },
        }
    }

    /// The streams to subscribe to on a new connection: all that the worker
    /// holds, and nothing else.
    pub fn resubscribe_streams(&self) -> (streams: Vec<String>)
        ensures
            texts(streams@) == self@.resubscription(),
    {
        let mut streams: Vec<String> = Vec::new();
        if self.tick_subscribed {
            streams.push(tick_stream(self.pool_id, self.token_address.as_str()));
        }
        let ghost head = texts(streams@);
        let mut i: usize = 0;
        while i < self.active_intervals.len()
            invariant
                i <= self.active_intervals.len(),
                head.len() == (if self.tick_subscribed { 1int } else { 0int }),
                self.tick_subscribed ==> head[0] == tick_stream_spec(
                    self.pool_id as int,
                    self.token_address@,
                ),
                streams.len() == head.len() + i,
                forall|j: int| 0 <= j < head.len() ==> texts(streams@)[j] == head[j],
                forall|j: int|
                    0 <= j < i ==> #[trigger] texts(streams@)[head.len() + j] == room_key_spec(
                        self.pool_id as int,
                        self.token_address@,
                        self.active_intervals@[j]@,
                    ),
            decreases self.active_intervals.len() - i,
        {
            let ghost was = texts(streams@);
            streams.push(
                kline_stream(
                    self.pool_id,
                    self.token_address.as_str(),
                    self.active_intervals[i].as_str(),
                ),
            );
            assert(texts(streams@) =~= was.push(streams@[streams.len() - 1]@));
            i += 1;
        }
        proof {
            let want = self@.resubscription();
            assert(texts(streams@).len() == want.len());
            assert forall|j: int| 0 <= j < want.len() implies texts(streams@)[j] == want[j] by {
                if j >= head.len() {
                    assert(texts(streams@)[head.len() + (j - head.len())] == room_key_spec(
                        self.pool_id as int,
                        self.token_address@,
                        self.active_intervals@[j - head.len()]@,
                    ));
                }
            }
            assert(texts(streams@) =~= want);
        }
        streams
    }

    /// Tells whether the worker holds no stream at all.
    pub fn is_idle(&self) -> (r: bool)
        ensures
            r == (!self@.tick && self@.intervals.len() == 0),
    {
        !self.tick_subscribed && self.active_intervals.len() == 0
    }
}

impl WorkerView {
    /// Replaying the resubscription changes nothing: each stream that a new
    /// connection subscribes to is one that the worker holds already, so the
    /// set it holds after a reconnect is the set it held before. This needs
    /// the address and the intervals to be free of `@`.
    pub proof fn lemma_resubscription_replay(self, i: int)
        requires
            free_of(self.address, '@'),
            forall|j: int| 0 <= j < self.intervals.len() ==> free_of(#[trigger] self.intervals[j], '@'),
            0 <= i < self.resubscription().len(),
        ensures
            self.after(CommandView::Subscribe(self.resubscription()[i])) == self,
            !self.changes(CommandView::Subscribe(self.resubscription()[i])),
            !self.exits(CommandView::Subscribe(self.resubscription()[i])),
    {
        reveal_strlit("tx@");
        reveal_strlit("kl@");
        reveal_strlit("tx");
        reveal_strlit("kl");
        let s = self.resubscription()[i];
        let cmd = CommandView::Subscribe(s);
        if self.tick && i == 0 {
            let d = crate::decimal::decimal_int(self.pool_id as int);
            assert(s == "tx"@ + seq!['@'] + d + seq!['_'] + self.address);
            assert(s.take(3) =~= "tx@"@);
        } else {
            let j = if self.tick { i - 1 } else { i };
            let interval = self.intervals[j];
            assert(s == room_key_spec(self.pool_id as int, self.address, interval));
            let d = crate::decimal::decimal_int(self.pool_id as int);
            assert(s == "kl"@ + seq!['@'] + d + seq!['@'] + self.address + seq!['@'] + interval);
            assert(s.take(3) =~= "kl@"@);
            assert(s.take(3) != "tx@"@) by {
                assert(s.take(3)[0] == 'k');
                assert("tx@"@[0] == 't');
            }
            lemma_room_key_round_trip(self.pool_id as int, self.address, interval);
            assert(split_spec(s, '@').len() == 4);
            assert(last_piece(s) == interval);
            assert(self.intervals.contains(interval));
        }
        assert(self.after(cmd) =~= self);
    }
}

// ---------------------------------------------------------------------------
// Frames on the wire
// ---------------------------------------------------------------------------

/// The JSON text of a string: the string in double quotes, with the escapes
/// that JSON asks for.
pub uninterp spec fn json_string_of(s: Seq<char>) -> Seq<char>;

/// Writes a string as JSON text.
///
/// Trusted: the `Display` of `serde_json::Value::String`, which writes the
/// compact JSON text of the string. The text depends on the string alone; it
/// is named, not restated.
#[verifier::external_body]
fn json_string(s: &str) -> (r: String)
    ensures
        r@ == json_string_of(s@),
{
    serde_json::Value::String(s.to_string()).to_string()
}

/// The JSON texts of `parts`, separated by commas.
pub open spec fn json_list(parts: Seq<Seq<char>>) -> Seq<char>
    decreases parts.len(),
{
    if parts.len() == 0 {
        Seq::empty()
    } else if parts.len() == 1 {
        json_string_of(parts[0])
    } else {
        json_list(parts.drop_last()) + seq![','] + json_string_of(parts.last())
    }
}

/// The text of a frame: a JSON object with the members `id`, `method` and
/// `params`, in that order and without blanks.
pub open spec fn frame_text_spec(method: Method, params: Seq<Seq<char>>, id: nat) -> Seq<char> {
    "{\"id\":"@ + decimal_nat(id) + ",\"method\":"@ + json_string_of(method.name_spec())
        + ",\"params\":["@ + json_list(params) + "]}"@
}

/// Appends the characters of `v` to `s`.
fn append_chars(s: &mut String, v: &Vec<char>)
    ensures
        final(s)@ == old(s)@ + v@,
{
    let mut i: usize = 0;
    while i < v.len()
        invariant
            i <= v.len(),
            s@ == old(s)@ + v@.take(i as int),
        decreases v.len() - i,
    {
        push_char(s, v[i]);
        i += 1;
        assert(s@ =~= old(s)@ + v@.take(i as int));
    }
    assert(v@.take(v.len() as int) =~= v@);
}

/// Writes the frame that is sent upstream, with `id` as its request id.
pub fn frame_text(frame: &Frame, id: u64) -> (r: String)
    ensures
        r@ == frame_text_spec(frame.method, texts(frame.params@), id as nat),
{
    let mut s = String::from_str("{\"id\":");
    let digits = u64_to_chars(id);
    append_chars(&mut s, &digits);
    s.append(",\"method\":");
    let name = json_string(frame.method.name());
    s.append(name.as_str());
    s.append(",\"params\":[");
    let ghost head = s@;
    let ghost names = texts(frame.params@);
    let mut i: usize = 0;
    assert(names.take(0) =~= Seq::<Seq<char>>::empty());
    while i < frame.params.len()
        invariant
            i <= frame.params.len(),
            names == texts(frame.params@),
            s@ == head + json_list(names.take(i as int)),
        decreases frame.params.len() - i,
    {
        let ghost was = s@;
        if i > 0 {
            push_char(&mut s, ',');
        }
        let quoted = json_string(frame.params[i].as_str());
        s.append(quoted.as_str());
        proof {
            let next = names.take(i + 1);
            assert(next.drop_last() =~= names.take(i as int));
            assert(next.last() == names[i as int]);
            if i > 0 {
                assert(s@ =~= head + (json_list(names.take(i as int)) + seq![','] + json_string_of(
                    names[i as int],
                )));
            } else {
                assert(json_list(names.take(0)) =~= Seq::<char>::empty());
                assert(s@ =~= head + json_string_of(names[0]));
            }
        }
        i += 1;
    }
    assert(names.take(frame.params.len() as int) =~= names);
    s.append("]}");
    s
}

// ---------------------------------------------------------------------------
// The session around the state
// ---------------------------------------------------------------------------

/// What the upstream socket has delivered.
#[derive(Debug, Clone, Copy, PartialEq, Eq, Structural)]
pub enum SocketEvent {
    /// A text message: a payload to route.
    Text,
    /// A binary message.
    Binary,
    /// A ping of the peer.
    Ping,
    /// A pong of the peer.
    Pong,
    /// The peer closes the connection.
    Close,
    /// The stream of messages has ended.
    End,
    /// Reading has failed.
    Failed,
}

/// What the worker does about a socket event.
#[derive(Debug, Clone, Copy, PartialEq, Eq, Structural)]
pub enum SessionStep {
    /// Route the payload.
    Route,
    /// Answer the ping with a pong of the same payload.
    ReplyPong,
    /// Nothing to do.
    Ignore,
    /// The connection is over without a fault: connect again.
    Reconnect,
    /// The connection has failed: report, then connect again.
    Fail,
}

/// Decides what a socket event asks for: text is routed, a ping is answered,
/// a close or the end of the stream is a clean disconnect, a read error is a
/// failure, and anything else is passed over.
pub fn on_socket_event(event: SocketEvent) -> (step: SessionStep)
    ensures
        step == match event {
            SocketEvent::Text => SessionStep::Route,
            SocketEvent::Ping => SessionStep::ReplyPong,
            SocketEvent::Close => SessionStep::Reconnect,
            SocketEvent::End => SessionStep::Reconnect,
            SocketEvent::Failed => SessionStep::Fail,
            SocketEvent::Binary => SessionStep::Ignore,
            SocketEvent::Pong => SessionStep::Ignore,
        },
{
    match event {
        SocketEvent::Text => SessionStep::Route,
        SocketEvent::Ping => SessionStep::ReplyPong,
        SocketEvent::Close | SocketEvent::End => SessionStep::Reconnect,
        SocketEvent::Failed => SessionStep::Fail,
        SocketEvent::Binary | SocketEvent::Pong => SessionStep::Ignore,
    }
}

/// How a session with upstream has ended.
#[derive(Debug, Clone, Copy, PartialEq, Eq, Structural)]
pub enum SessionEnd {
    /// The worker was told to stop, went idle, or lost its command channel.
    Finished,
    /// The connection was closed or ended.
    Disconnected,
    /// Connecting, the handshake or the socket failed.
    Crashed,
}

/// Seconds to wait before the next connection.
pub const RECONNECT_DELAY: u64 = 3;

/// Decides what follows a session: a finished worker stops; after a
/// disconnect or a failure the worker waits and connects again, with
/// everything it held.
pub fn after_session(end: SessionEnd) -> (wait: Option<u64>)
    ensures
        wait == match end {
            SessionEnd::Finished => None::<u64>,
            SessionEnd::Disconnected => Some(RECONNECT_DELAY),
            SessionEnd::Crashed => Some(RECONNECT_DELAY),
        },
{
    match end {
        SessionEnd::Finished => None,
        SessionEnd::Disconnected | SessionEnd::Crashed => Some(RECONNECT_DELAY),
    }
}

} // verus!
