//! Decisions of the monitor loop: tokens of the wait, what to do after a
//! wait or a drain read, the fatal errors with the step that raised them,
//! and the outbox that ends the message stream at the first error.
use crate::session::Entry;
use vstd::prelude::*;
use vstd::string::*;

verus! {

/// Token of the "store changed" source of the wait.
pub const STORE_TOKEN: usize = 0;

/// Token under which the liveness handle of `pid` is registered: the pid
/// read as an unsigned 32-bit number, so distinct pids get distinct tokens
/// and only pid 0 shares the store's token.
pub open spec fn pid_token(pid: i32) -> int {
    if pid >= 0 {
        pid as int
    } else {
        pid as int + 0x1_0000_0000
    }
}

pub fn token_of(pid: i32) -> (r: usize)
    ensures
        r as int == pid_token(pid),
{
    if pid >= 0 {
        pid as usize
    } else {
        ((pid as i64) + 0x1_0000_0000i64) as usize
    }
}

/// Distinct pids get distinct tokens, and none but pid 0 gets the store's.
pub proof fn lemma_tokens_distinct(a: i32, b: i32)
    ensures
        a != b ==> pid_token(a) != pid_token(b),
        pid_token(a) == STORE_TOKEN <==> a == 0,
{
}

/// Whether the store-changed source is among the tokens a wait returned.
pub fn store_changed(tokens: &Vec<usize>) -> (r: bool)
    ensures
        r == tokens@.contains(STORE_TOKEN),
{
    let mut i: usize = 0;
    while i < tokens.len()
        invariant
            i <= tokens.len(),
            forall|k: int| 0 <= k < i ==> tokens@[k] != STORE_TOKEN,
        decreases tokens.len() - i,
    {
        if tokens[i] == STORE_TOKEN {
            assert(tokens@[i as int] == STORE_TOKEN);
            return true;
        }
        i = i + 1;
    }
    false
}

/// The step of the monitor that a fatal error comes from.
#[derive(Clone, Copy, Debug, PartialEq, Eq, Structural)]
pub enum Step {
    CreatePoll,
    InitNotify,
    WatchStore,
    RegisterStore,
    ReadStore,
    OpenHandle,
    RegisterHandle,
    Deregister,
    Poll,
    DrainStore,
}

/// The words that a step puts before its cause.
pub open spec fn step_context(s: Step) -> Seq<char> {
    match s {
        Step::CreatePoll => "failed to create poll"@,
        Step::InitNotify => "failed to init inotify"@,
        Step::WatchStore => "failed to watch utmp file"@,
        Step::RegisterStore => "failed to register utmp watch"@,
        Step::ReadStore => "failed to read utmp"@,
        Step::OpenHandle => "failed to open pid fd"@,
        Step::RegisterHandle => "failed to register pid fd"@,
        Step::Deregister => "failed to deregister"@,
        Step::Poll => "failed to poll"@,
        Step::DrainStore => "failed to read inotify events"@,
    }
}

impl Step {
    pub fn context(&self) -> (r: &'static str)
        ensures
            r@ == step_context(*self),
    {
        match self {
            Step::CreatePoll => "failed to create poll",
            Step::InitNotify => "failed to init inotify",
            Step::WatchStore => "failed to watch utmp file",
            Step::RegisterStore => "failed to register utmp watch",
            Step::ReadStore => "failed to read utmp",
            Step::OpenHandle => "failed to open pid fd",
            Step::RegisterHandle => "failed to register pid fd",
            Step::Deregister => "failed to deregister",
            Step::Poll => "failed to poll",
            Step::DrainStore => "failed to read inotify events",
        }
    }
}

/// A fatal error of the monitor: the step that raised it and what the
/// operating system or the reader said.
#[derive(Debug)]
pub struct MonitorError {
    pub step: Step,
    pub cause: String,
}

impl MonitorError {
    pub fn new(step: Step, cause: String) -> (r: Self)
        ensures
            r.step == step,
            r.cause@ == cause@,
    {
        MonitorError { step, cause }
    }

    /// `"{context}: {cause}"`.
    pub fn describe(&self) -> (r: String)
        ensures
            r@ == step_context(self.step) + seq![':', ' '] + self.cause@,
    {
        let mut s = String::from_str(self.step.context());
        proof {
            reveal_strlit(": ");
        }
        s.append(": ");
        s.append(self.cause.as_str());
        s
    }
}

/// What the monitor hands to its consumer.
#[derive(Debug)]
pub enum Message {
    Update(Vec<Entry>),
    Error(MonitorError),
}

/// What a sender asks the outbox to send.
pub enum Outgoing {
    Update,
    Error,
}

/// Whether an outbox in this state lets a message through.
pub open spec fn passes(closed: bool) -> bool {
    !closed
}

/// The state of an outbox after it was asked to send `k`.
pub open spec fn closed_after(closed: bool, k: Outgoing) -> bool {
    closed || k is Error
}

/// The messages that leave an outbox, in order, when `sends` are asked of
/// it one after the other.
pub open spec fn sent(closed: bool, sends: Seq<Outgoing>) -> Seq<Outgoing>
    decreases sends.len(),
{
    if sends.len() == 0 {
        Seq::empty()
    } else {
        let rest = sent(closed_after(closed, sends[0]), sends.drop_first());
        if passes(closed) {
            seq![sends[0]] + rest
        } else {
            rest
        }
    }
}

/// The stream of messages: every batch until the first error, then that
/// error, then nothing.
pub struct Outbox {
    closed: bool,
}

impl Outbox {
    /// Whether an error has been sent.
    pub closed spec fn is_closed(&self) -> bool {
        self.closed
    }

    pub fn new() -> (r: Self)
        ensures
            !r.is_closed(),
    {
        Outbox { closed: false }
    }

    pub fn closed(&self) -> (r: bool)
        ensures
            r == self.is_closed(),
    {
        self.closed
    }

    /// The message for a batch, unless the stream has ended.
    pub fn update(&mut self, entries: Vec<Entry>) -> (r: Option<Message>)
        ensures
            final(self).is_closed() == closed_after(old(self).is_closed(), Outgoing::Update),
            !passes(old(self).is_closed()) ==> r is None,
            passes(old(self).is_closed()) ==> r == Some(Message::Update(entries)),
    {
        if self.closed {
            None
        } else {
            Some(Message::Update(entries))
        }
    }

    /// The message for a fatal error, unless the stream has ended; the
    /// stream ends with it.
    pub fn error(&mut self, e: MonitorError) -> (r: Option<Message>)
        ensures
            final(self).is_closed() == closed_after(old(self).is_closed(), Outgoing::Error),
            !passes(old(self).is_closed()) ==> r is None,
            passes(old(self).is_closed()) ==> r == Some(Message::Error(e)),
    {
        if self.closed {
            None
        } else {
            self.closed = true;
            Some(Message::Error(e))
        }
    }
}

/// Whatever is asked of an outbox, an error is the last message to leave
/// it, and at most one error leaves it.
pub proof fn lemma_error_is_last(closed: bool, sends: Seq<Outgoing>)
    ensures
        forall|i: int|
            0 <= i < sent(closed, sends).len() && (#[trigger] sent(closed, sends)[i]) is Error
                ==> i == sent(closed, sends).len() - 1,
    decreases sends.len(),
{
    if sends.len() > 0 {
        let rest = sends.drop_first();
        lemma_error_is_last(closed_after(closed, sends[0]), rest);
        if closed {
            lemma_closed_sends_nothing(rest);
            assert(sent(closed, sends) == sent(true, rest));
        }
    }
    if sends.len() > 0 && !closed {
        let rest = sends.drop_first();
        let out = sent(closed, sends);
        assert(out == seq![sends[0]] + sent(sends[0] is Error, rest));
        if sends[0] is Error {
            lemma_closed_sends_nothing(rest);
            assert(out.len() == 1);
        }
        assert forall|i: int| 0 <= i < out.len() && (#[trigger] out[i]) is Error implies i == out.len()
            - 1 by {
            if i > 0 {
                assert(out[i] == sent(sends[0] is Error, rest)[i - 1]);
            }
        }
    }
}

/// A closed outbox lets nothing through.
pub proof fn lemma_closed_sends_nothing(sends: Seq<Outgoing>)
    ensures
        sent(true, sends) == Seq::<Outgoing>::empty(),
    decreases sends.len(),
{
    if sends.len() > 0 {
        lemma_closed_sends_nothing(sends.drop_first());
    }
}

/// What a wait on the sources returned.
pub enum WaitResult {
    /// Some sources are ready; their tokens.
    Ready(Vec<usize>),
    /// A signal interrupted the wait.
    Interrupted,
    /// Any other failure, as described by the operating system.
    Failed(String),
}

/// What the loop does after a wait.
pub enum AfterWait {
    /// Wait again.
    WaitAgain,
    /// Run the next cycle, draining the store's notifications first when
    /// `drain` holds.
    Cycle { drain: bool },
    /// Stop with this error.
    Stop(MonitorError),
}

/// A benign interruption is retried; a failure ends the loop; anything
/// that woke the wait runs one more cycle.
pub fn after_wait(w: WaitResult) -> (r: AfterWait)
    ensures
        (w is Interrupted) <==> (r is WaitAgain),
        w matches WaitResult::Ready(t) ==> r == (AfterWait::Cycle {
            drain: t@.contains(STORE_TOKEN),
        }),
        w matches WaitResult::Failed(c) ==> (r matches AfterWait::Stop(e) && e.step == Step::Poll
            && e.cause@ == c@),
{
    match w {
        WaitResult::Ready(tokens) => AfterWait::Cycle { drain: store_changed(&tokens) },
        WaitResult::Interrupted => AfterWait::WaitAgain,
        WaitResult::Failed(cause) => AfterWait::Stop(MonitorError::new(Step::Poll, cause)),
    }
}

/// What one read of the store's pending notifications returned.
pub enum DrainRead {
    /// This many notifications were read.
    Events(usize),
    /// None are pending.
    WouldBlock,
    /// Any other failure.
    Failed(String),
}

/// What the loop does after a drain read.
pub enum AfterDrain {
    ReadAgain,
    Drained,
    Stop(MonitorError),
}

/// Reads go on until one finds nothing pending; "would block" counts as
/// nothing pending.
pub fn after_drain(d: DrainRead) -> (r: AfterDrain)
    ensures
        d matches DrainRead::Events(n) ==> (n > 0 <==> r is ReadAgain) && (n == 0 <==> r is Drained),
        d is WouldBlock ==> r is Drained,
        d matches DrainRead::Failed(c) ==> (r matches AfterDrain::Stop(e) && e.step
            == Step::DrainStore && e.cause@ == c@),
{
    match d {
        DrainRead::Events(n) => if n > 0 {
            AfterDrain::ReadAgain
        } else {
            AfterDrain::Drained
        },
        DrainRead::WouldBlock => AfterDrain::Drained,
        DrainRead::Failed(cause) => AfterDrain::Stop(MonitorError::new(Step::DrainStore, cause)),
    }
}

} // verus!
