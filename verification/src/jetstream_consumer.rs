//! The decisions of the JetStream sandbox consumer, message by message.
use vstd::prelude::*;
use crate::sandbox::SandboxExecute;

verus! {

/// What the consumer got for one message.
pub enum ConsumerEvent {
    /// The fetch itself failed.
    FetchFailed,
    /// The message's payload is not a sandbox job.
    InvalidPayload,
    /// A sandbox job.
    Job(SandboxExecute),
}

/// What the consumer does next.
pub enum ConsumerAction {
    /// Go on to the next message, acknowledging nothing.
    Skip,
    /// Acknowledge the message so that it is not redelivered, and go on.
    Acknowledge,
    /// Run the job, publish its result, acknowledge the message.
    Execute(SandboxExecute),
}

/// The consumer's action for an event: a failed fetch is skipped, an
/// invalid payload is acknowledged and dropped, a job is run.
pub fn consumer_action(event: ConsumerEvent) -> (r: ConsumerAction)
    ensures
        match event {
            ConsumerEvent::FetchFailed => r is Skip,
            ConsumerEvent::InvalidPayload => r is Acknowledge,
            ConsumerEvent::Job(j) => r == ConsumerAction::Execute(j),
        },
{
    match event {
        ConsumerEvent::FetchFailed => ConsumerAction::Skip,
        ConsumerEvent::InvalidPayload => ConsumerAction::Acknowledge,
        ConsumerEvent::Job(j) => ConsumerAction::Execute(j),
    }
}

} // verus!
