//! The decisions of the streaming client: which message is a tick, which tick
//! is let through, and when and after what delay the connection is tried again.
//! The caller owns the connection and the clock; it reports what happened and
//! carries out what it is told.
use crate::json::{
    json_document, json_member, json_number, json_quoted, json_text, member, number, parse,
    quoted, str_of,
};
use crate::rate::{accepts, recorded, RateWindow};
use vstd::prelude::*;
use vstd::string::StringExecFns;

verus! {

/// The delay before the first retry, in seconds.
pub const INITIAL_BACKOFF: u64 = 1;

/// The longest delay between two retries, in seconds.
pub const MAX_BACKOFF: u64 = 32;

/// One price update of an instrument. Price and volume are doubles, held by
/// their bits.
#[derive(Clone, Debug, PartialEq, Eq)]
pub struct Tick {
    pub symbol: String,
    pub price: u64,
    pub volume: u64,
}

/// What a tick holds.
pub ghost struct TickView {
    pub symbol: Seq<char>,
    pub price: u64,
    pub volume: u64,
}

impl View for Tick {
    type V = TickView;

    open spec fn view(&self) -> TickView {
        TickView { symbol: self.symbol@, price: self.price, volume: self.volume }
    }
}

/// What an optional tick holds.
pub open spec fn tick_view(tick: Option<Tick>) -> Option<TickView> {
    match tick {
        Some(t) => Some(t@),
        None => None,
    }
}

/// A record is a tick only if it has all three fields.
pub open spec fn tick_of(symbol: Option<Seq<char>>, price: Option<u64>, volume: Option<u64>) -> Option<
    TickView,
> {
    match (symbol, price, volume) {
        (Some(s), Some(p), Some(v)) => Some(TickView { symbol: s, price: p, volume: v }),
        _ => None,
    }
}

/// The string under `key` in a record, if there is one.
pub open spec fn field_text(record: serde_json::Value, key: Seq<char>) -> Option<Seq<char>> {
    match json_member(record, key) {
        Some(v) => json_text(v),
        None => None,
    }
}

/// The number under `key` in a record, if there is one.
pub open spec fn field_number(record: serde_json::Value, key: Seq<char>) -> Option<u64> {
    match json_member(record, key) {
        Some(v) => json_number(v),
        None => None,
    }
}

/// The tick that a message carries: the message is a JSON document whose
/// member `data` has a string `symbol` and numbers `mark_price` and
/// `volume_24h`.
pub open spec fn tick_in(message: Seq<char>) -> Option<TickView> {
    match json_document(message) {
        Some(doc) => match json_member(doc, "data"@) {
            Some(data) => tick_of(
                field_text(data, "symbol"@),
                field_number(data, "mark_price"@),
                field_number(data, "volume_24h"@),
            ),
            None => None,
        },
        None => None,
    }
}

impl Tick {
    /// Makes a tick of the three fields of a record, if none is missing.
    pub fn from_fields(symbol: Option<&str>, price: Option<u64>, volume: Option<u64>) -> (r: Option<
        Tick,
    >)
        ensures
            tick_view(r) == tick_of(
                match symbol {
                    Some(s) => Some(s@),
                    None => None,
                },
                price,
                volume,
            ),
    {
        match (symbol, price, volume) {
            (Some(s), Some(p), Some(v)) => Some(
                Tick { symbol: String::from_str(s), price: p, volume: v },
            ),
            _ => None,
        }
    }
}

/// Reads the tick out of a message. A message that is no JSON, or lacks one of
/// the fields, is no tick.
pub fn decode_tick(message: &str) -> (r: Option<Tick>)
    ensures
        tick_view(r) == tick_in(message@),
{
    let doc = match parse(message) {
        Ok(doc) => doc,
        Err(_) => {
            return None;
        },
    };
    let data = match member(&doc, "data") {
        Some(data) => data,
        None => {
            return None;
        },
    };
    let symbol = match member(data, "symbol") {
        Some(v) => str_of(v),
        None => None,
    };
    let price = match member(data, "mark_price") {
        Some(v) => number(v),
        None => None,
    };
    let volume = match member(data, "volume_24h") {
        Some(v) => number(v),
        None => None,
    };
    Tick::from_fields(symbol, price, volume)
}

/// The request that subscribes to the ticker of one instrument: a JSON object
/// of the type `subscribe` with the one channel `v2/ticker` and the one
/// symbol.
pub open spec fn subscription_of(symbol: Seq<char>) -> Seq<char> {
    "{\"channels\":[{\"name\":\"v2/ticker\",\"symbols\":["@ + json_quoted(symbol)
        + "]}],\"type\":\"subscribe\"}"@
}

/// The requests that subscribe to the tickers of the instruments, one for
/// each, in their order.
pub open spec fn subscriptions_of(symbols: Seq<Seq<char>>) -> Seq<Seq<char>> {
    symbols.map_values(|symbol: Seq<char>| subscription_of(symbol))
}

/// Writes the request that subscribes to the ticker of one instrument.
pub fn subscription(symbol: &str) -> (request: String)
    ensures
        request@ == subscription_of(symbol@),
{
    let mut request = String::from_str("{\"channels\":[{\"name\":\"v2/ticker\",\"symbols\":[");
    request.append(quoted(symbol).as_str());
    request.append("]}],\"type\":\"subscribe\"}");
    request
}

/// Writes the requests that are sent once a connection is open: one for each
/// instrument, in their order.
pub fn subscriptions(symbols: &[String]) -> (requests: Vec<String>)
    ensures
        requests.deep_view() == subscriptions_of(symbols.deep_view()),
{
    let mut requests: Vec<String> = Vec::new();
    let mut n: usize = 0;
    while n < symbols.len()
        invariant
            n <= symbols.len(),
            requests.len() == n,
            forall|i: int| 0 <= i < n ==> (#[trigger] requests[i])@ == subscription_of(symbols[i]@),
        decreases symbols.len() - n,
    {
        let request = subscription(symbols[n].as_str());
        requests.push(request);
        n = n + 1;
    }
    proof {
        assert(requests.deep_view() =~= subscriptions_of(symbols.deep_view()));
    }
    requests
}

/// The delay that follows `delay`: twice as long, up to `MAX_BACKOFF`.
pub open spec fn next_delay(delay: u64) -> u64 {
    if 2 * delay >= MAX_BACKOFF {
        MAX_BACKOFF
    } else {
        (2 * delay) as u64
    }
}

/// The delay before the retry that follows `failures` earlier retries.
pub open spec fn delay_after(failures: nat) -> u64
    decreases failures,
{
    if failures == 0 {
        INITIAL_BACKOFF
    } else {
        next_delay(delay_after((failures - 1) as nat))
    }
}

/// Where the connection stands.
#[derive(Clone, Copy, Debug, PartialEq, Eq, Structural)]
pub enum Phase {
    /// A connection is being opened.
    Connecting,
    /// The connection is open and subscribed.
    Streaming,
    /// The stream ended; the delay before the next attempt is running.
    Disconnected,
    /// Opening failed; the delay before the next attempt is running.
    ConnectError,
    /// Shut down for good.
    Stopped,
}

/// What the caller reports.
#[derive(Clone, Copy, Debug, PartialEq, Eq, Structural)]
pub enum Event {
    /// The connection was opened.
    Connected,
    /// Opening the connection failed.
    ConnectFailed,
    /// The stream of an open connection ended.
    StreamEnded,
    /// The delay asked for has passed.
    BackoffElapsed,
    /// The stop signal was given.
    Shutdown,
}

/// What the caller is to do next.
#[derive(Clone, Copy, Debug, PartialEq, Eq, Structural)]
pub enum Action {
    /// Open a connection.
    Connect,
    /// Send the subscriptions, one per instrument, then read messages.
    Subscribe,
    /// Wait this many seconds, then report `BackoffElapsed`.
    Wait(u64),
    /// Release the connection and end the loop.
    Close,
    /// The event does not belong to this phase: go on as before.
    Proceed,
}

/// The phase that follows an event.
pub open spec fn next_phase(phase: Phase, event: Event) -> Phase {
    match (phase, event) {
        (Phase::Stopped, _) => Phase::Stopped,
        (_, Event::Shutdown) => Phase::Stopped,
        (Phase::Connecting, Event::Connected) => Phase::Streaming,
        (Phase::Connecting, Event::ConnectFailed) => Phase::ConnectError,
        (Phase::Streaming, Event::StreamEnded) => Phase::Disconnected,
        (Phase::Disconnected, Event::BackoffElapsed) => Phase::Connecting,
        (Phase::ConnectError, Event::BackoffElapsed) => Phase::Connecting,
        _ => phase,
    }
}

/// Whether the event starts a delay: a failed attempt or the end of a stream.
pub open spec fn starts_delay(phase: Phase, event: Event) -> bool {
    (phase == Phase::Connecting && event == Event::ConnectFailed) || (phase == Phase::Streaming
        && event == Event::StreamEnded)
}

/// What is to be done on an event, with the delay as it stands before it.
pub open spec fn action_on(phase: Phase, delay: u64, event: Event) -> Action {
    match (phase, event) {
        (Phase::Stopped, _) => Action::Proceed,
        (_, Event::Shutdown) => Action::Close,
        (Phase::Connecting, Event::Connected) => Action::Subscribe,
        (Phase::Connecting, Event::ConnectFailed) => Action::Wait(delay),
        (Phase::Streaming, Event::StreamEnded) => Action::Wait(delay),
        (Phase::Disconnected, Event::BackoffElapsed) => Action::Connect,
        (Phase::ConnectError, Event::BackoffElapsed) => Action::Connect,
        _ => Action::Proceed,
    }
}

/// The phase and the delay after the events have been taken one by one.
pub open spec fn state_after(phase: Phase, delay: u64, events: Seq<Event>) -> (Phase, u64)
    decreases events.len(),
{
    if events.len() == 0 {
        (phase, delay)
    } else {
        let (p, d) = state_after(phase, delay, events.drop_last());
        (
            next_phase(p, events.last()),
            if starts_delay(p, events.last()) {
                next_delay(d)
            } else {
                d
            },
        )
    }
}

/// So many attempts that fail, each followed by its delay.
pub open spec fn failed_attempts(failures: nat) -> Seq<Event>
    decreases failures,
{
    if failures == 0 {
        Seq::empty()
    } else {
        failed_attempts((failures - 1) as nat).push(Event::ConnectFailed).push(Event::BackoffElapsed)
    }
}

/// The state of the streaming client: the phase of the connection, the delay
/// that the next failure will cost, and the window of the rate limiter. The
/// delay grows with every failure and lost stream and is never set back.
pub struct StreamIngestor {
    phase: Phase,
    delay: u64,
    window: RateWindow,
}

impl StreamIngestor {
    /// The delay lies between the first and the longest, and the window is
    /// within its limit.
    pub closed spec fn wf(&self) -> bool {
        &&& INITIAL_BACKOFF <= self.delay <= MAX_BACKOFF
        &&& self.window.wf()
    }

    /// The phase of the connection.
    pub closed spec fn spec_phase(&self) -> Phase {
        self.phase
    }

    /// The delay, in seconds, that the next failure will cost.
    pub closed spec fn spec_delay(&self) -> u64 {
        self.delay
    }

    /// The entries of the rate limiter's window.
    pub closed spec fn spec_window(&self) -> Seq<u64> {
        self.window@
    }

    /// A client about to open its first connection, with the first delay and
    /// an empty window.
    pub fn new() -> (s: Self)
        ensures
            s.wf(),
            s.spec_phase() == Phase::Connecting,
            s.spec_delay() == INITIAL_BACKOFF,
            s.spec_window() == Seq::<u64>::empty(),
    {
        StreamIngestor { phase: Phase::Connecting, delay: INITIAL_BACKOFF, window: RateWindow::new() }
    }

    /// The phase of the connection.
    pub fn phase(&self) -> (p: Phase)
        ensures
            p == self.spec_phase(),
    {
        self.phase
    }

    /// The delay, in seconds, that the next failure will cost.
    pub fn delay(&self) -> (d: u64)
        requires
            self.wf(),
        ensures
            d == self.spec_delay(),
            INITIAL_BACKOFF <= d <= MAX_BACKOFF,
    {
        self.delay
    }

    /// Takes an event and says what to do next. A failed attempt and a lost
    /// stream cost the delay as it stands and double it for the next time;
    /// the stop signal ends everything; an event that does not belong to the
    /// phase changes nothing. The window is left alone.
    pub fn step(&mut self, event: Event) -> (action: Action)
        requires
            old(self).wf(),
        ensures
            final(self).wf(),
            final(self).spec_phase() == next_phase(old(self).spec_phase(), event),
            final(self).spec_delay() == if starts_delay(old(self).spec_phase(), event) {
                next_delay(old(self).spec_delay())
            } else {
                old(self).spec_delay()
            },
            final(self).spec_window() == old(self).spec_window(),
            action == action_on(old(self).spec_phase(), old(self).spec_delay(), event),
    {
        let waited = self.delay;
        match (self.phase, event) {
            (Phase::Stopped, _) => Action::Proceed,
            (_, Event::Shutdown) => {
                self.phase = Phase::Stopped;
                Action::Close
            },
            (Phase::Connecting, Event::Connected) => {
                self.phase = Phase::Streaming;
                Action::Subscribe
            },
            (Phase::Connecting, Event::ConnectFailed) => {
                self.phase = Phase::ConnectError;
                self.delay = double_delay(waited);
                Action::Wait(waited)
            },
            (Phase::Streaming, Event::StreamEnded) => {
                self.phase = Phase::Disconnected;
                self.delay = double_delay(waited);
                Action::Wait(waited)
            },
            (Phase::Disconnected, Event::BackoffElapsed) => {
                self.phase = Phase::Connecting;
                Action::Connect
            },
            (Phase::ConnectError, Event::BackoffElapsed) => {
                self.phase = Phase::Connecting;
                Action::Connect
            },
            _ => Action::Proceed,
        }
    }

    /// Takes a tick that arrives at `now`, in nanoseconds of a clock that does
    /// not run backwards, and says whether it is to be delivered. Phase and
    /// delay are left alone.
    pub fn accept_tick(&mut self, now: u64) -> (deliver: bool)
        requires
            old(self).wf(),
        ensures
            final(self).wf(),
            deliver == accepts(old(self).spec_window(), now),
            final(self).spec_window() == recorded(old(self).spec_window(), now),
            final(self).spec_phase() == old(self).spec_phase(),
            final(self).spec_delay() == old(self).spec_delay(),
    {
        self.window.accept(now)
    }

    /// Takes a message that arrives at `now`: a message that is no tick is
    /// skipped and leaves the window as it is; a tick goes through the rate
    /// limiter and is handed back if it is let through.
    pub fn on_message(&mut self, message: &str, now: u64) -> (r: Option<Tick>)
        requires
            old(self).wf(),
        ensures
            final(self).wf(),
            final(self).spec_phase() == old(self).spec_phase(),
            final(self).spec_delay() == old(self).spec_delay(),
            tick_in(message@) is None ==> r is None && final(self).spec_window() == old(
                self,
            ).spec_window(),
            tick_in(message@) is Some ==> final(self).spec_window() == recorded(
                old(self).spec_window(),
                now,
            ) && tick_view(r) == if accepts(old(self).spec_window(), now) {
                tick_in(message@)
            } else {
                None
            },
    {
        match decode_tick(message) {
            Some(tick) => {
                if self.accept_tick(now) {
                    Some(tick)
                } else {
                    None
                }
            },
            None => None,
        }
    }
}

/// Computes `next_delay`.
pub fn double_delay(delay: u64) -> (r: u64)
    ensures
        r == next_delay(delay),
{
    if delay >= MAX_BACKOFF / 2 {
        MAX_BACKOFF
    } else {
        2 * delay
    }
}

/// The delays that follow one another without a success are 1, 2, 4, 8, 16
/// and then 32 for ever.
pub proof fn lemma_delay_after(failures: nat)
    ensures
        delay_after(failures) == if failures >= 5 {
            MAX_BACKOFF
        } else {
            vstd::arithmetic::power2::pow2(failures) as u64
        },
        INITIAL_BACKOFF <= delay_after(failures) <= MAX_BACKOFF,
    decreases failures,
{
    vstd::arithmetic::power2::lemma2_to64();
    if failures > 0 {
        lemma_delay_after((failures - 1) as nat);
    }
}

/// A client that starts out and fails to connect again and again is told to
/// wait 1, 2, 4, 8, 16 and then 32 seconds every time: after so many failures
/// it is connecting again, and the next failure costs `delay_after(failures)`.
pub proof fn lemma_failed_attempts(failures: nat)
    ensures
        state_after(Phase::Connecting, INITIAL_BACKOFF, failed_attempts(failures)) == (
            Phase::Connecting,
            delay_after(failures),
        ),
        action_on(Phase::Connecting, delay_after(failures), Event::ConnectFailed) == Action::Wait(
            delay_after(failures),
        ),
    decreases failures,
{
    if failures > 0 {
        lemma_failed_attempts((failures - 1) as nat);
        let before = failed_attempts((failures - 1) as nat);
        let failed = before.push(Event::ConnectFailed);
        let waited = failed.push(Event::BackoffElapsed);
        assert(waited.drop_last() == failed);
        assert(failed.drop_last() == before);
        assert(state_after(Phase::Connecting, INITIAL_BACKOFF, failed) == (
            Phase::ConnectError,
            delay_after(failures),
        ));
    }
}

} // verus!
