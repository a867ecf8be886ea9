//! What the writer does when something happens, case by case.
use crate::service::{DiagnosticLogService, ServiceView};
use crate::store::CommandView;
use crate::writer::{Writer, WriterAction, WriterEvent};
use vstd::prelude::*;
use vstd::string::*;

verus! {

/// Whether maintenance is to be done: it never was, or five minutes ago or longer.
pub open spec fn maintenance_waits(last: Option<u64>, now: u64) -> bool {
    last is None || now - last->0 >= 5 * 60 * 1_000_000_000
}

/// What is left to do: to open the log, to write the batch, or to wait for commands.
pub open spec fn left_to_do(opened: bool, batch: Seq<CommandView>) -> WriterAction {
    if !opened {
        WriterAction::Open
    } else if batch.len() > 0 {
        WriterAction::Write
    } else {
        WriterAction::Wait
    }
}

/// How long to wait after a failure: a quarter of a second, then twice as long each time, up to
/// sixty-four seconds.
pub open spec fn next_delay(last: u64) -> int {
    if last == 0 {
        250
    } else if 2 * last >= 64_000 {
        64_000
    } else {
        2 * last
    }
}

/// A writer that is new has not opened the log, holds nothing, and has done nothing.
pub proof fn law_new_writers(writer: Writer)
    requires
        call_ensures(Writer::new, (), writer),
    ensures
        !writer.opened,
        writer@.batch.len() == 0,
        writer.retry_millis == 0,
        writer.last_maintenance is None,
{
    assert(writer@.opened == writer.opened);
}

/// When the log was opened, the writer goes on with what is left to do and the error is gone; where
/// it could not be opened, the writer waits, longer after each failure, and the error shows. What
/// it holds and what waits in the queue stays.
pub proof fn law_when_the_log_was_opened(
    writer: &mut Writer,
    service: &mut DiagnosticLogService,
    result: Result<(), String>,
    now: u64,
    action: WriterAction,
)
    requires
        call_ensures(Writer::react, (writer, service, WriterEvent::Opened(result), now), action),
    ensures
        final(writer)@.batch == old(writer)@.batch,
        final(writer)@.last_maintenance == old(writer)@.last_maintenance,
        final(writer)@.opened == (result is Ok),
        result is Ok ==> final(writer)@.retry_millis == 0 && action == left_to_do(
            true,
            old(writer)@.batch,
        ) && final(service)@ == (ServiceView { last_error: None, ..old(service)@ }),
        result matches Err(error) ==> final(writer)@.retry_millis == next_delay(
            old(writer)@.retry_millis,
        ) && action == WriterAction::Retry(final(writer)@.retry_millis) && final(service)@ == (
        ServiceView { last_error: Some(error@), ..old(service)@ }),
{
}

/// When nothing came in time, or the wait after a failure is over, maintenance is done where the
/// log is open and it waits, and else what is left to do. Nothing else changes.
pub proof fn law_when_a_wait_is_over(
    writer: &mut Writer,
    service: &mut DiagnosticLogService,
    event: WriterEvent,
    now: u64,
    action: WriterAction,
)
    requires
        call_ensures(Writer::react, (writer, service, event, now), action),
        event is TimedOut || event is RetryDue,
    ensures
        final(writer)@ == old(writer)@,
        final(service)@ == old(service)@,
        action == if old(writer)@.opened && maintenance_waits(old(writer)@.last_maintenance, now) {
            WriterAction::Maintain
        } else {
            left_to_do(old(writer)@.opened, old(writer)@.batch)
        },
{
}

/// When commands are there, and the log is open and nothing is left to write, the writer takes
/// those that wait longest, a hundred at most, and writes them. Else it does what is left to do.
pub proof fn law_when_commands_are_there(
    writer: &mut Writer,
    service: &mut DiagnosticLogService,
    now: u64,
    action: WriterAction,
)
    requires
        call_ensures(Writer::react, (writer, service, WriterEvent::Ready, now), action),
    ensures
        ({
            let queue = old(service)@.queue;
            let taken = if queue.len() <= 100 {
                queue.len() as int
            } else {
                100
            };
            let free = old(writer)@.opened && old(writer)@.batch.len() == 0 && queue.len() > 0;
            &&& free ==> {
                &&& action == WriterAction::Write
                &&& final(writer)@.batch == queue.take(taken)
                &&& final(service)@ == (ServiceView { queue: queue.skip(taken), ..old(service)@ })
            }
            &&& !free ==> {
                &&& action == left_to_do(old(writer)@.opened, old(writer)@.batch)
                &&& final(writer)@.batch == old(writer)@.batch
                &&& final(service)@ == old(service)@
            }
            &&& final(writer)@.opened == old(writer)@.opened
            &&& final(writer)@.retry_millis == old(writer)@.retry_millis
            &&& final(writer)@.last_maintenance == old(writer)@.last_maintenance
        }),
{
}

/// When no command will come any more, the writer stops; what waits is lost, and there is no writer
/// from then on.
pub proof fn law_when_nothing_will_come(
    writer: &mut Writer,
    service: &mut DiagnosticLogService,
    now: u64,
    action: WriterAction,
)
    requires
        call_ensures(Writer::react, (writer, service, WriterEvent::Disconnected, now), action),
    ensures
        action == WriterAction::Stop,
        final(writer)@ == old(writer)@,
        final(service)@ == (ServiceView {
            connected: false,
            queue: Seq::empty(),
            ..old(service)@
        }),
{
}

/// When the batch was written it is done with, and the error is gone; maintenance comes next where
/// it waits, and else the next commands. Where it could not be written it is kept, the error shows,
/// and the writer waits, longer after each failure.
pub proof fn law_when_a_batch_was_written(
    writer: &mut Writer,
    service: &mut DiagnosticLogService,
    result: Result<(), String>,
    now: u64,
    action: WriterAction,
)
    requires
        call_ensures(Writer::react, (writer, service, WriterEvent::Written(result), now), action),
    ensures
        final(writer)@.opened == old(writer)@.opened,
        final(writer)@.last_maintenance == old(writer)@.last_maintenance,
        result is Ok ==> {
            &&& final(writer)@.batch.len() == 0
            &&& final(writer)@.retry_millis == 0
            &&& final(service)@ == (ServiceView { last_error: None, ..old(service)@ })
            &&& action == if old(writer)@.opened && maintenance_waits(
                old(writer)@.last_maintenance,
                now,
            ) {
                WriterAction::Maintain
            } else if old(writer)@.opened {
                WriterAction::Wait
            } else {
                WriterAction::Open
            }
        },
        result matches Err(error) ==> {
            &&& final(writer)@.batch == old(writer)@.batch
            &&& final(writer)@.retry_millis == next_delay(old(writer)@.retry_millis)
            &&& action == WriterAction::Retry(final(writer)@.retry_millis)
            &&& final(service)@ == (ServiceView { last_error: Some(error@), ..old(service)@ })
        },
{
}

/// When maintenance was done, or could not be, the time is noted and the writer goes on with what
/// is left to do; an error shows, and no error goes.
pub proof fn law_when_maintenance_was_done(
    writer: &mut Writer,
    service: &mut DiagnosticLogService,
    result: Result<(), String>,
    now: u64,
    action: WriterAction,
)
    requires
        call_ensures(
            Writer::react,
            (writer, service, WriterEvent::Maintained(result), now),
            action,
        ),
    ensures
        final(writer)@.opened == old(writer)@.opened,
        final(writer)@.batch == old(writer)@.batch,
        final(writer)@.retry_millis == old(writer)@.retry_millis,
        final(writer)@.last_maintenance == Some(now),
        action == left_to_do(old(writer)@.opened, old(writer)@.batch),
        result is Ok ==> final(service)@ == old(service)@,
        result matches Err(error) ==> final(service)@ == (ServiceView {
            last_error: Some(error@),
            ..old(service)@
        }),
{
}

} // verus!
