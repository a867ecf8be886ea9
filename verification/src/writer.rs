//! What the writer does next.
//!
//! The writer waits for commands, writes them a batch at a time, and does maintenance now and
//! then. A batch that could not be written is kept, and is tried again after a while, as is the
//! log that could not be opened. What the writer does is carried out elsewhere; here is decided
//! what it is to do.
use crate::records::WriteCommand;
use crate::service::{after_batch, next_batch, DiagnosticLogService, ServiceView};
use crate::store::{commands_view, CommandView};
use vstd::prelude::*;
use vstd::string::*;

verus! {

/// How many milliseconds the writer waits for a command.
pub const BATCH_WAIT_MILLIS: u64 = 250;

/// How many nanoseconds are between one maintenance and the next, at least.
pub const MAINTENANCE_INTERVAL_NANOS: u64 = 300_000_000_000;

/// How many milliseconds the writer waits after a first failure.
pub const FIRST_RETRY_MILLIS: u64 = 250;

/// How many milliseconds the writer waits after a failure, at most.
pub const MAX_RETRY_MILLIS: u64 = 64_000;

/// The writer.
#[verifier::ext_equal]
pub struct Writer<B = Vec<WriteCommand>> {
    /// Whether the log is open.
    pub opened: bool,
    /// The commands that are taken from the queue and not written yet.
    pub batch: B,
    /// How long it waited after the last failure, if nothing went well since, else 0.
    pub retry_millis: u64,
    /// When maintenance was last done, if it was, on a clock that never goes back.
    pub last_maintenance: Option<u64>,
}

/// What a writer holds.
pub type WriterView = Writer<Seq<CommandView>>;

impl View for Writer {
    type V = WriterView;

    open spec fn view(&self) -> WriterView {
        Writer {
            opened: self.opened,
            batch: commands_view(self.batch@),
            retry_millis: self.retry_millis,
            last_maintenance: self.last_maintenance,
        }
    }
}

/// What happened.
pub enum WriterEvent<T = String> {
    /// The log was opened, or could not be.
    Opened(Result<(), T>),
    /// No command came in time.
    TimedOut,
    /// A command is there.
    Ready,
    /// No command will come any more.
    Disconnected,
    /// The batch was written, or could not be.
    Written(Result<(), T>),
    /// Maintenance was done, or could not be.
    Maintained(Result<(), T>),
    /// The time after a failure is over.
    RetryDue,
}

/// How something came out.
pub open spec fn result_view(result: Result<(), String>) -> Result<(), Seq<char>> {
    match result {
        Ok(_) => Ok(()),
        Err(error) => Err(error@),
    }
}

impl View for WriterEvent {
    type V = WriterEvent<Seq<char>>;

    open spec fn view(&self) -> WriterEvent<Seq<char>> {
        match *self {
            WriterEvent::Opened(result) => WriterEvent::Opened(result_view(result)),
            WriterEvent::TimedOut => WriterEvent::TimedOut,
            WriterEvent::Ready => WriterEvent::Ready,
            WriterEvent::Disconnected => WriterEvent::Disconnected,
            WriterEvent::Written(result) => WriterEvent::Written(result_view(result)),
            WriterEvent::Maintained(result) => WriterEvent::Maintained(result_view(result)),
            WriterEvent::RetryDue => WriterEvent::RetryDue,
        }
    }
}

/// What to do next.
#[derive(Debug, Clone, Copy, PartialEq, Eq, Structural)]
pub enum WriterAction {
    /// Open the log.
    Open,
    /// Wait for a command.
    Wait,
    /// Write the batch.
    Write,
    /// Do maintenance.
    Maintain,
    /// Wait for so many milliseconds, whatever comes.
    Retry(u64),
    /// Stop.
    Stop,
}

/// Whether maintenance is due: it was never done, or long enough ago.
pub open spec fn maintenance_due(writer: WriterView, now: u64) -> bool {
    match writer.last_maintenance {
        Some(last) => now - last >= MAINTENANCE_INTERVAL_NANOS,
        None => true,
    }
}

/// How long to wait after a failure: twice as long as after the one before, up to a limit.
pub open spec fn longer(millis: u64) -> u64 {
    if millis == 0 {
        FIRST_RETRY_MILLIS
    } else if millis >= MAX_RETRY_MILLIS / 2 {
        MAX_RETRY_MILLIS
    } else {
        (2 * millis) as u64
    }
}

/// A service that lost its writer.
pub open spec fn disconnected(service: ServiceView) -> ServiceView {
    ServiceView { connected: false, queue: Seq::empty(), ..service }
}

/// A service after something went wrong, or after it went well, which leaves the last error.
pub open spec fn failed(service: ServiceView, result: Result<(), Seq<char>>) -> ServiceView {
    match result {
        Ok(_) => service,
        Err(error) => ServiceView { last_error: Some(error), ..service },
    }
}

/// A service after something went well.
pub open spec fn recovered(service: ServiceView) -> ServiceView {
    ServiceView { last_error: None, ..service }
}

/// Whether the writer may take commands: the log is open and nothing is left to write.
pub open spec fn idle(writer: WriterView) -> bool {
    writer.opened && writer.batch.len() == 0
}

/// What is left to do before the next commands are taken.
pub open spec fn unfinished(writer: WriterView) -> WriterAction {
    if !writer.opened {
        WriterAction::Open
    } else if writer.batch.len() > 0 {
        WriterAction::Write
    } else {
        WriterAction::Wait
    }
}

/// Maintenance where the log is open and it is due, else what is left to do.
pub open spec fn maintain_or_go_on(writer: WriterView, now: u64) -> WriterAction {
    if writer.opened && maintenance_due(writer, now) {
        WriterAction::Maintain
    } else {
        unfinished(writer)
    }
}

/// A writer after a failure: it keeps what it was to write, and tries again after a while.
pub open spec fn delayed(writer: WriterView) -> WriterView {
    Writer { retry_millis: longer(writer.retry_millis), ..writer }
}

/// What becomes of the writer and the service, and what is to be done, when something happened
/// at that time.
pub open spec fn reaction(
    writer: WriterView,
    service: ServiceView,
    event: WriterEvent<Seq<char>>,
    now: u64,
) -> (WriterView, ServiceView, WriterAction) {
    match event {
        WriterEvent::Opened(Ok(_)) => {
            let next = Writer { opened: true, retry_millis: 0, ..writer };
            (next, recovered(service), unfinished(next))
        },
        WriterEvent::Opened(Err(error)) => {
            let next = delayed(Writer { opened: false, ..writer });
            (next, failed(service, Err(error)), WriterAction::Retry(next.retry_millis))
        },
        WriterEvent::RetryDue => (writer, service, maintain_or_go_on(writer, now)),
        WriterEvent::TimedOut => (writer, service, maintain_or_go_on(writer, now)),
        WriterEvent::Ready => if idle(writer) && service.queue.len() > 0 {
            (
                Writer { batch: next_batch(service.queue), ..writer },
                ServiceView { queue: after_batch(service.queue), ..service },
                WriterAction::Write,
            )
        } else {
            (writer, service, unfinished(writer))
        },
        WriterEvent::Disconnected => (writer, disconnected(service), WriterAction::Stop),
        WriterEvent::Written(Ok(_)) => {
            let next = Writer { batch: Seq::empty(), retry_millis: 0, ..writer };
            (next, recovered(service), maintain_or_go_on(next, now))
        },
        WriterEvent::Written(Err(error)) => {
            let next = delayed(writer);
            (next, failed(service, Err(error)), WriterAction::Retry(next.retry_millis))
        },
        WriterEvent::Maintained(result) => {
            let next = Writer { last_maintenance: Some(now), ..writer };
            (next, failed(service, result), unfinished(next))
        },
    }
}

/// A writer that has not done anything yet.
pub open spec fn fresh() -> WriterView {
    Writer { opened: false, batch: Seq::empty(), retry_millis: 0, last_maintenance: None }
}

impl Writer {
    /// A writer that has not done anything yet.
    pub fn new() -> (writer: Writer)
        ensures
            writer@ == fresh(),
    {
        let writer = Writer {
            opened: false,
            batch: Vec::new(),
            retry_millis: 0,
            last_maintenance: None,
        };
        assert(commands_view(writer.batch@) =~= Seq::empty());
        writer
    }

    /// Tells whether maintenance is due.
    pub fn is_maintenance_due(&self, now: u64) -> (due: bool)
        ensures
            due == maintenance_due(self@, now),
    {
        match self.last_maintenance {
            Some(last) => now >= last && now - last >= MAINTENANCE_INTERVAL_NANOS,
            None => true,
        }
    }

    /// Tells what is left to do before the next commands are taken.
    pub fn unfinished_work(&self) -> (action: WriterAction)
        ensures
            action == unfinished(self@),
    {
        if !self.opened {
            WriterAction::Open
        } else if self.batch.len() > 0 {
            WriterAction::Write
        } else {
            WriterAction::Wait
        }
    }

    fn next_action(&self, now: u64) -> (action: WriterAction)
        ensures
            action == maintain_or_go_on(self@, now),
    {
        if self.opened && self.is_maintenance_due(now) {
            WriterAction::Maintain
        } else {
            self.unfinished_work()
        }
    }

    /// Waits longer than after the failure before.
    fn delay(&mut self) -> (action: WriterAction)
        ensures
            final(self)@ == delayed(old(self)@),
            action == WriterAction::Retry(longer(old(self)@.retry_millis)),
    {
        self.retry_millis = if self.retry_millis == 0 {
            FIRST_RETRY_MILLIS
        } else if self.retry_millis >= MAX_RETRY_MILLIS / 2 {
            MAX_RETRY_MILLIS
        } else {
            2 * self.retry_millis
        };
        WriterAction::Retry(self.retry_millis)
    }

    /// Decides what to do next when something happened at that time.
    pub fn react(
        &mut self,
        service: &mut DiagnosticLogService,
        event: WriterEvent,
        now: u64,
    ) -> (action: WriterAction)
        ensures
            (final(self)@, final(service)@, action) == reaction(
                old(self)@,
                old(service)@,
                event@,
                now,
            ),
    {
        match event {
            WriterEvent::Opened(Ok(_)) => {
                self.opened = true;
                self.retry_millis = 0;
                service.clear_error();
                self.unfinished_work()
            },
            WriterEvent::Opened(Err(error)) => {
                self.opened = false;
                service.set_error(error);
                self.delay()
            },
            WriterEvent::RetryDue => self.next_action(now),
            WriterEvent::TimedOut => self.next_action(now),
            WriterEvent::Ready => {
                if self.opened && self.batch.len() == 0 && service.has_work() {
                    self.batch = service.take_batch();
                    WriterAction::Write
                } else {
                    self.unfinished_work()
                }
            },
            WriterEvent::Disconnected => {
                service.disconnect();
                WriterAction::Stop
            },
            WriterEvent::Written(Ok(_)) => {
                self.batch = Vec::new();
                self.retry_millis = 0;
                assert(commands_view(self.batch@) =~= Seq::empty());
                service.clear_error();
                self.next_action(now)
            },
            WriterEvent::Written(Err(error)) => {
                service.set_error(error);
                self.delay()
            },
            WriterEvent::Maintained(result) => {
                self.last_maintenance = Some(now);
                match result {
                    Ok(_) => {},
                    Err(error) => {
                        service.set_error(error);
                    },
                }
                self.unfinished_work()
            },
        }
    }
}

} // verus!
