//! The life of one watched file as a state machine: what the shipper does
//! next, given where it stands and what just happened. The caller performs
//! each action and hands back the event that it led to.

use vstd::prelude::*;
use crate::reader::ReadWindow;
use crate::sink::DeliveryOutcome;
use crate::state::{Error, State, NOT_FOUND};
use crate::window::{
    floor_window, lemma_window_stays_in_range, next_window, next_window_spec, INITIAL_WINDOW,
    MAX_BATCH_EVENTS, MAX_BATCH_SIZE, MIN_WINDOW,
};

verus! {

/// How long the shipper waits where a read brought nothing, in milliseconds.
pub const BACKOFF_MILLIS: u64 = 5000;

/// How long the shipper waits after a delivery, in milliseconds.
pub const PACING_MILLIS: u64 = 400;

/// Where a shipper stands.
#[derive(Clone, Copy, Debug, PartialEq, Eq, Structural)]
pub enum Phase {
    /// The persisted state is being loaded.
    Initializing,
    /// The group and the stream are being created.
    EnsureDestination,
    /// A short wait before the next read.
    Idle,
    /// A read is under way.
    Reading,
    /// A batch is under way.
    Sending,
    /// The state is being saved.
    Persisting,
    /// A long wait, after a read that brought nothing.
    Backoff,
    /// The shipper has given this file up.
    Failed,
}

/// The state of the shipper of one watched file.
#[derive(Debug, PartialEq, Eq)]
pub struct Shipper {
    pub phase: Phase,
    /// The number of bytes of the file that the sink has acknowledged.
    pub offset: u64,
    /// The sequence token to send with the next batch.
    pub token: Option<String>,
    /// The size of the next read.
    pub window: u64,
    /// The slack of the sizing policy.
    pub delta: u64,
    /// The length of the content that is being sent.
    pub pending: u64,
}

/// What happened since the last action.
#[derive(Debug, PartialEq, Eq)]
pub enum Event {
    /// The state file was looked for.
    StateLoaded(Result<State, Error>),
    /// The sink was asked to create the group and the stream, with or
    /// without success.
    DestinationEnsured,
    /// A read returned `content_len` bytes of whole lines, in `line_count`
    /// lines.
    ReadDone { content_len: u64, line_count: u64 },
    /// The file could not be read.
    ReadFailed,
    /// The content held no event, so nothing was sent.
    NothingToSend,
    /// The sink answered a batch.
    Sent(DeliveryOutcome),
    /// The state was saved, or saving it failed.
    Persisted,
    /// A wait is over.
    Waited,
}

/// What the caller is to do next.
#[derive(Debug, PartialEq, Eq)]
pub enum Action {
    /// Look for the state file and load it.
    LoadState,
    /// Ask the sink to create the group and the stream.
    EnsureDestination,
    /// Read `window` bytes from `offset` on.
    Read { offset: u64, window: u64 },
    /// Build the batch of the content just read and send it.
    Send,
    /// Save the state.
    Persist(State),
    /// Sleep.
    Wait { millis: u64 },
    /// Stop watching this file.
    Halt,
}

/// The shipper gives the file up.
pub open spec fn failed(s: Shipper) -> (Shipper, Action) {
    (Shipper { phase: Phase::Failed, ..s }, Action::Halt)
}

/// The sink has taken the content that was being sent, and `token` is the
/// one to send next: the offset moves behind that content, and the state is
/// saved where there is a token to save.
pub open spec fn acknowledged(s: Shipper, token: Option<String>) -> (Shipper, Action) {
    if s.offset + s.pending > u64::MAX {
        failed(s)
    } else {
        let offset = (s.offset + s.pending) as u64;
        match token {
            Some(t) => (
                Shipper { phase: Phase::Persisting, offset, token: Some(t), pending: 0, ..s },
                Action::Persist(State { token: t, offset }),
            ),
            None => (
                Shipper { phase: Phase::Idle, offset, token: None, pending: 0, ..s },
                Action::Wait { millis: PACING_MILLIS },
            ),
        }
    }
}

/// A read has returned. Nothing new is a reason to wait; more than was
/// asked for is no read of this shipper; too many lines for one request are
/// read again with half the window; anything else is sent.
pub open spec fn after_read(s: Shipper, content_len: u64, line_count: u64) -> (Shipper, Action) {
    let window = next_window_spec(content_len as int, line_count as int, s.window as int, s.delta as int) as u64;
    if content_len == 0 {
        (Shipper { phase: Phase::Backoff, ..s }, Action::Wait { millis: BACKOFF_MILLIS })
    } else if content_len > s.window {
        failed(s)
    } else if line_count >= MAX_BATCH_EVENTS {
        (Shipper { window, ..s }, Action::Read { offset: s.offset, window })
    } else if s.offset + content_len > u64::MAX {
        failed(s)
    } else {
        (Shipper { phase: Phase::Sending, window, pending: content_len, ..s }, Action::Send)
    }
}

/// The transition function: the state after `e` and the action to take.
pub open spec fn next(s: Shipper, e: Event) -> (Shipper, Action) {
    match (s.phase, e) {
        (Phase::Initializing, Event::StateLoaded(Ok(state))) => (
            Shipper { phase: Phase::EnsureDestination, offset: state.offset, token: Some(state.token), ..s },
            Action::EnsureDestination,
        ),
        (Phase::Initializing, Event::StateLoaded(Err(error))) => if error.code == NOT_FOUND {
            (
                Shipper { phase: Phase::EnsureDestination, offset: 0, token: None, ..s },
                Action::EnsureDestination,
            )
        } else {
            failed(s)
        },
        (Phase::EnsureDestination, Event::DestinationEnsured) => (
            Shipper { phase: Phase::Idle, ..s },
            Action::Wait { millis: 0 },
        ),
        (Phase::Idle, Event::Waited) => (
            Shipper { phase: Phase::Reading, ..s },
            Action::Read { offset: s.offset, window: s.window },
        ),
        (Phase::Backoff, Event::Waited) => (
            Shipper { phase: Phase::Reading, ..s },
            Action::Read { offset: s.offset, window: s.window },
        ),
        (Phase::Reading, Event::ReadDone { content_len, line_count }) => after_read(s, content_len, line_count),
        (Phase::Sending, Event::NothingToSend) => acknowledged(s, s.token),
        (Phase::Sending, Event::Sent(DeliveryOutcome::Delivered { next_token })) => acknowledged(
            s,
            Some(next_token),
        ),
        (Phase::Sending, Event::Sent(DeliveryOutcome::Conflict { corrected_token })) => (
            Shipper { phase: Phase::Reading, token: Some(corrected_token), pending: 0, ..s },
            Action::Read { offset: s.offset, window: s.window },
        ),
        (Phase::Persisting, Event::Persisted) => (
            Shipper { phase: Phase::Idle, ..s },
            Action::Wait { millis: PACING_MILLIS },
        ),
        _ => failed(s),
    }
}

/// The event that the read `window` makes.
pub fn read_done(window: &ReadWindow) -> (e: Event)
    ensures
        e == (Event::ReadDone { content_len: window.content@.len() as u64, line_count: window.line_count }),
{
    Event::ReadDone { content_len: window.content.len() as u64, line_count: window.line_count }
}

impl Shipper {
    /// A shipper before its first step: nothing acknowledged, no token, the
    /// initial window. Its first action is to load the state.
    pub fn start(delta: u64) -> (r: (Shipper, Action))
        ensures
            r.0 == (Shipper {
                phase: Phase::Initializing,
                offset: 0,
                token: None,
                window: INITIAL_WINDOW,
                delta,
                pending: 0,
            }),
            r.1 == Action::LoadState,
            well_formed(r.0),
    {
        (
            Shipper {
                phase: Phase::Initializing,
                offset: 0,
                token: None,
                window: INITIAL_WINDOW,
                delta,
                pending: 0,
            },
            Action::LoadState,
        )
    }

    fn fail(&mut self) -> (action: Action)
        ensures
            (*final(self), action) == failed(*old(self)),
    {
        self.phase = Phase::Failed;
        Action::Halt
    }

    fn acknowledge(&mut self, token: Option<String>) -> (action: Action)
        ensures
            (*final(self), action) == acknowledged(*old(self), token),
    {
        match self.offset.checked_add(self.pending) {
            None => self.fail(),
            Some(offset) => match token {
                Some(t) => {
                    let copy = t.clone();
                    self.phase = Phase::Persisting;
                    self.offset = offset;
                    self.token = Some(t);
                    self.pending = 0;
                    Action::Persist(State { token: copy, offset })
                },
                None => {
                    self.phase = Phase::Idle;
                    self.offset = offset;
                    self.token = None;
                    self.pending = 0;
                    Action::Wait { millis: PACING_MILLIS }
                },
            },
        }
    }

    fn read_done(&mut self, content_len: u64, line_count: u64) -> (action: Action)
        ensures
            (*final(self), action) == after_read(*old(self), content_len, line_count),
    {
        if content_len == 0 {
            self.phase = Phase::Backoff;
            return Action::Wait { millis: BACKOFF_MILLIS };
        }
        if content_len > self.window {
            return self.fail();
        }
        let window = next_window(content_len, line_count, self.window, self.delta);
        if line_count >= MAX_BATCH_EVENTS {
            self.window = window;
            return Action::Read { offset: self.offset, window };
        }
        match self.offset.checked_add(content_len) {
            None => self.fail(),
            Some(_) => {
                self.phase = Phase::Sending;
                self.window = window;
                self.pending = content_len;
                Action::Send
            },
        }
    }

    /// Takes the event `event` and tells what to do next.
    pub fn step(&mut self, event: Event) -> (action: Action)
        ensures
            (*final(self), action) == next(*old(self), event),
    {
        match self.phase {
            Phase::Initializing => match event {
                Event::StateLoaded(Ok(state)) => {
                    self.phase = Phase::EnsureDestination;
                    self.offset = state.offset;
                    self.token = Some(state.token);
                    Action::EnsureDestination
                },
                Event::StateLoaded(Err(error)) => {
                    if error.code == NOT_FOUND {
                        self.phase = Phase::EnsureDestination;
                        self.offset = 0;
                        self.token = None;
                        Action::EnsureDestination
                    } else {
                        self.fail()
                    }
                },
                _ => self.fail(),
            },
            Phase::EnsureDestination => match event {
                Event::DestinationEnsured => {
                    self.phase = Phase::Idle;
                    Action::Wait { millis: 0 }
                },
                _ => self.fail(),
            },
            Phase::Idle | Phase::Backoff => match event {
                Event::Waited => {
                    self.phase = Phase::Reading;
                    Action::Read { offset: self.offset, window: self.window }
                },
                _ => self.fail(),
            },
            Phase::Reading => match event {
                Event::ReadDone { content_len, line_count } => self.read_done(content_len, line_count),
                _ => self.fail(),
            },
            Phase::Sending => match event {
                Event::NothingToSend => {
                    let token = match &self.token {
                        Some(t) => Some(t.clone()),
                        None => None,
                    };
                    self.acknowledge(token)
                },
                Event::Sent(DeliveryOutcome::Delivered { next_token }) => self.acknowledge(Some(next_token)),
                Event::Sent(DeliveryOutcome::Conflict { corrected_token }) => {
                    self.phase = Phase::Reading;
                    self.token = Some(corrected_token);
                    self.pending = 0;
                    Action::Read { offset: self.offset, window: self.window }
                },
                _ => self.fail(),
            },
            Phase::Persisting => match event {
                Event::Persisted => {
                    self.phase = Phase::Idle;
                    Action::Wait { millis: PACING_MILLIS }
                },
                _ => self.fail(),
            },
            Phase::Failed => self.fail(),
        }
    }
}

/// What holds of a shipper from its start on: before its state is loaded it
/// has acknowledged nothing; its window is within the range of the sizing
/// policy; and what it is sending fits into one request and ends within the
/// range of an offset.
pub open spec fn well_formed(s: Shipper) -> bool {
    &&& s.phase is Initializing ==> s.offset == 0 && s.token is None
    &&& MIN_WINDOW <= s.window <= MAX_BATCH_SIZE
    &&& s.phase is Sending ==> 0 < s.pending <= MAX_BATCH_SIZE && s.offset + s.pending <= u64::MAX
}

/// The number of bytes that the step from `s` by `e` acknowledges: the
/// length of the content in flight where the sink takes it, or where it
/// held nothing to send.
pub open spec fn acknowledged_bytes(s: Shipper, e: Event) -> int {
    let delivered = e is NothingToSend || (e is Sent && e->Sent_0 is Delivered);
    if s.phase is Sending && delivered && s.offset + s.pending <= u64::MAX {
        s.pending as int
    } else {
        0
    }
}

/// The state after the events `events`, taken in order.
pub open spec fn run(s: Shipper, events: Seq<Event>) -> Shipper
    decreases events.len(),
{
    if events.len() == 0 {
        s
    } else {
        run(next(s, events[0]).0, events.skip(1))
    }
}

/// The number of bytes that are acknowledged over the events `events`.
pub open spec fn run_acknowledged(s: Shipper, events: Seq<Event>) -> int
    decreases events.len(),
{
    if events.len() == 0 {
        0
    } else {
        acknowledged_bytes(s, events[0]) + run_acknowledged(next(s, events[0]).0, events.skip(1))
    }
}

/// Every step keeps a shipper well formed, and none leads back to the
/// loading of the state.
pub proof fn lemma_step_keeps_well_formed(s: Shipper, e: Event)
    requires
        well_formed(s),
    ensures
        well_formed(next(s, e).0),
        !(s.phase is Initializing) ==> !(next(s, e).0.phase is Initializing),
{
    if s.phase is Reading && e is ReadDone {
        let content_len = e->content_len;
        if 0 < content_len <= s.window {
            lemma_window_stays_in_range(
                content_len as int,
                e->line_count as int,
                s.window as int,
                s.delta as int,
            );
        }
    }
}

/// Every run keeps a shipper well formed.
pub proof fn lemma_run_keeps_well_formed(s: Shipper, events: Seq<Event>)
    requires
        well_formed(s),
    ensures
        well_formed(run(s, events)),
    decreases events.len(),
{
    if events.len() > 0 {
        lemma_step_keeps_well_formed(s, events[0]);
        lemma_run_keeps_well_formed(next(s, events[0]).0, events.skip(1));
    }
}

/// Once the state is loaded, a step moves the offset forward by the bytes
/// that it acknowledges, and by nothing else.
pub proof fn lemma_step_advances_by_acknowledged(s: Shipper, e: Event)
    requires
        !(s.phase is Initializing),
    ensures
        next(s, e).0.offset == s.offset + acknowledged_bytes(s, e),
        next(s, e).0.offset >= s.offset,
{
}

/// Offset monotonicity: the offset never moves back, whatever happens.
pub proof fn lemma_offset_never_moves_back(s: Shipper, events: Seq<Event>)
    requires
        well_formed(s),
    ensures
        run(s, events).offset >= s.offset,
    decreases events.len(),
{
    if events.len() > 0 {
        lemma_step_keeps_well_formed(s, events[0]);
        lemma_offset_never_moves_back(next(s, events[0]).0, events.skip(1));
    }
}

/// Once the state is loaded, the offset has moved forward by exactly the
/// lengths of the contents that were acknowledged.
pub proof fn lemma_offset_is_sum_of_acknowledged(s: Shipper, events: Seq<Event>)
    requires
        !(s.phase is Initializing),
    ensures
        run(s, events).offset == s.offset + run_acknowledged(s, events),
    decreases events.len(),
{
    if events.len() > 0 {
        lemma_step_advances_by_acknowledged(s, events[0]);
        lemma_offset_is_sum_of_acknowledged(next(s, events[0]).0, events.skip(1));
    }
}

/// What a delivery does: the offset moves behind the content that was sent,
/// the token is the one that the sink gave, and that state is to be saved.
pub proof fn lemma_delivery_advances(s: Shipper, next_token: String)
    requires
        s.phase is Sending,
        s.offset + s.pending <= u64::MAX,
    ensures
        ({
            let after = next(s, Event::Sent(DeliveryOutcome::Delivered { next_token }));
            &&& after.0.offset == s.offset + s.pending
            &&& after.0.token == Some(next_token)
            &&& after.0.phase is Persisting
            &&& after.1 == Action::Persist(State { token: next_token, offset: after.0.offset })
        }),
{
}

/// No advance on conflict: a conflict leaves the offset where it was, makes
/// the corrected token the one to send, and leads to a read at the same
/// offset, without a wait.
pub proof fn lemma_conflict_keeps_offset(s: Shipper, corrected_token: String)
    requires
        s.phase is Sending,
    ensures
        ({
            let after = next(s, Event::Sent(DeliveryOutcome::Conflict { corrected_token }));
            &&& after.0.offset == s.offset
            &&& after.0.token == Some(corrected_token)
            &&& after.0.phase is Reading
            &&& after.1 == Action::Read { offset: s.offset, window: s.window }
        }),
{
}

/// An empty batch counts as delivered: nothing is sent, the token stays as
/// it is, and the offset moves behind the bytes that were read.
pub proof fn lemma_empty_batch_advances(s: Shipper)
    requires
        s.phase is Sending,
        s.offset + s.pending <= u64::MAX,
    ensures
        ({
            let after = next(s, Event::NothingToSend);
            &&& after.0.offset == s.offset + s.pending
            &&& after.0.token == s.token
            &&& !(after.1 is Send)
            &&& !(after.0.phase is Failed)
        }),
{
}

/// The line-count guard: a read of too many lines is not sent; the window
/// is halved, down to the minimum, and the read is made again at the same
/// offset.
pub proof fn lemma_over_count_is_not_sent(s: Shipper, content_len: u64, line_count: u64)
    requires
        s.phase is Reading,
        0 < content_len <= s.window,
        line_count >= MAX_BATCH_EVENTS,
    ensures
        ({
            let after = next(s, Event::ReadDone { content_len, line_count });
            &&& after.0.phase is Reading
            &&& after.0.offset == s.offset
            &&& after.0.window == floor_window(s.window as int / 2)
            &&& after.1 == Action::Read { offset: s.offset, window: after.0.window }
        }),
{
}

/// A read that brings nothing is followed by a wait, and nothing else
/// changes.
pub proof fn lemma_empty_read_backs_off(s: Shipper, line_count: u64)
    requires
        s.phase is Reading,
    ensures
        ({
            let after = next(s, Event::ReadDone { content_len: 0, line_count });
            &&& after.0 == Shipper { phase: Phase::Backoff, ..s }
            &&& after.1 == Action::Wait { millis: BACKOFF_MILLIS }
        }),
{
}

/// What is handed out to be saved is what the shipper holds: the offset that
/// the sink has acknowledged and the token to send next.
pub proof fn lemma_persisted_state_is_current(s: Shipper, e: Event)
    ensures
        next(s, e).1 is Persist ==> {
            &&& next(s, e).0.offset == next(s, e).1->Persist_0.offset
            &&& next(s, e).0.token == Some(next(s, e).1->Persist_0.token)
            &&& s.phase is Sending
        },
{
}

/// One delivery at a time: a batch goes out only after a read, and while it
/// is under way nothing is read and nothing else is sent.
pub proof fn lemma_one_delivery_in_flight(s: Shipper, e: Event)
    ensures
        next(s, e).1 is Send ==> s.phase is Reading && next(s, e).0.phase is Sending,
        next(s, e).0.phase is Sending ==> next(s, e).1 is Send,
        s.phase is Sending ==> !(next(s, e).0.phase is Sending),
{
}

/// A shipper that has failed stays failed.
pub proof fn lemma_failure_is_final(s: Shipper, e: Event)
    requires
        s.phase is Failed,
    ensures
        next(s, e) == (s, Action::Halt),
{
}

} // verus!
