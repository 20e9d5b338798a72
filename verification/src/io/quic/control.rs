//! The control streams of a connection, without which it is not served.
//!
//! Both sides open a control stream right after they are connected. Streams that arrive before both
//! are open wait. A connection on which one of them cannot be had is aborted.

use vstd::prelude::*;

verus! {

/// Seconds within which both control streams of a connection have to be open.
pub const CONTROL_DEADLINE: u64 = 10;

/// How far a control stream is.
#[derive(Clone, Copy, Debug, PartialEq, Eq, Structural)]
pub enum ControlState {
    /// It is not there yet.
    Awaited,
    /// It is open.
    Open,
    /// It could not be had.
    Failed,
}

/// What happens on a connection.
#[derive(Clone, Copy, Debug, PartialEq, Eq, Structural)]
pub enum ControlEvent {
    /// Our control stream is open.
    OursOpened,
    /// Our control stream could not be opened.
    OursFailed,
    /// The other side opened its control stream.
    TheirsOpened,
    /// The control stream of the other side could not be accepted.
    TheirsFailed,
    /// A stream arrived that is no control stream.
    StreamArrived,
    /// The time within which the control streams have to be open is over.
    DeadlinePassed,
}

/// What is done with a connection and the streams that arrived on it.
#[derive(Clone, Copy, Debug, PartialEq, Eq, Structural)]
pub enum ControlStep {
    /// Both control streams are open: the streams are served.
    Serve,
    /// The streams wait for the control streams.
    Hold,
    /// The connection is aborted.
    Abort,
}

/// The control streams of a connection.
#[derive(Clone, Copy, Debug, PartialEq, Eq, Structural)]
pub struct ControlPair {
    pub ours: ControlState,
    pub theirs: ControlState,
}

/// A control stream after it was opened, could not be had, or was awaited in vain. One that could
/// not be had stays so.
pub open spec fn state_after(
    state: ControlState,
    opened: bool,
    failed: bool,
    late: bool,
) -> ControlState {
    if state == ControlState::Failed || failed || (late && state == ControlState::Awaited) {
        ControlState::Failed
    } else if opened {
        ControlState::Open
    } else {
        state
    }
}

/// The control streams after an event.
pub open spec fn pair_after(pair: ControlPair, event: ControlEvent) -> ControlPair {
    let late = event == ControlEvent::DeadlinePassed;
    ControlPair {
        ours: state_after(
            pair.ours,
            event == ControlEvent::OursOpened,
            event == ControlEvent::OursFailed,
            late,
        ),
        theirs: state_after(
            pair.theirs,
            event == ControlEvent::TheirsOpened,
            event == ControlEvent::TheirsFailed,
            late,
        ),
    }
}

/// What is done with a connection that has these control streams.
pub open spec fn step_for(pair: ControlPair) -> ControlStep {
    if pair.ours == ControlState::Failed || pair.theirs == ControlState::Failed {
        ControlStep::Abort
    } else if pair.ours == ControlState::Open && pair.theirs == ControlState::Open {
        ControlStep::Serve
    } else {
        ControlStep::Hold
    }
}

/// Notes what happened to one control stream.
fn next_state(state: ControlState, opened: bool, failed: bool, late: bool) -> (r: ControlState)
    ensures
        r == state_after(state, opened, failed, late),
{
    if state == ControlState::Failed || failed || (late && state == ControlState::Awaited) {
        ControlState::Failed
    } else if opened {
        ControlState::Open
    } else {
        state
    }
}

impl ControlPair {
    /// The control streams of a connection that was just made: none is there yet.
    pub fn new() -> (r: Self)
        ensures
            r == (ControlPair { ours: ControlState::Awaited, theirs: ControlState::Awaited }),
    {
        ControlPair { ours: ControlState::Awaited, theirs: ControlState::Awaited }
    }

    /// Notes an event, and decides what is done with the connection and its streams.
    pub fn handle(&mut self, event: ControlEvent) -> (r: ControlStep)
        ensures
            *final(self) == pair_after(*old(self), event),
            r == step_for(*final(self)),
    {
        let late = event == ControlEvent::DeadlinePassed;
        self.ours = next_state(
            self.ours,
            event == ControlEvent::OursOpened,
            event == ControlEvent::OursFailed,
            late,
        );
        self.theirs = next_state(
            self.theirs,
            event == ControlEvent::TheirsOpened,
            event == ControlEvent::TheirsFailed,
            late,
        );
        if self.ours == ControlState::Failed || self.theirs == ControlState::Failed {
            ControlStep::Abort
        } else if self.ours == ControlState::Open && self.theirs == ControlState::Open {
            ControlStep::Serve
        } else {
            ControlStep::Hold
        }
    }
}

/// A connection is served only once both control streams are open.
pub proof fn law_no_service_without_control_streams(pair: ControlPair)
    ensures
        step_for(pair) == ControlStep::Serve <==> pair.ours == ControlState::Open && pair.theirs
            == ControlState::Open,
{
}

/// A connection without both control streams is aborted when their time is over, and one with both
/// is not.
pub proof fn law_connection_without_control_streams_is_aborted(pair: ControlPair)
    ensures
        step_for(pair_after(pair, ControlEvent::DeadlinePassed)) == (if step_for(pair)
            == ControlStep::Serve {
            ControlStep::Serve
        } else {
            ControlStep::Abort
        }),
{
}

/// What was aborted stays aborted, and what is served goes on until a control stream fails.
pub proof fn law_decisions_last(pair: ControlPair, event: ControlEvent)
    ensures
        step_for(pair) == ControlStep::Abort ==> step_for(pair_after(pair, event))
            == ControlStep::Abort,
        step_for(pair) == ControlStep::Serve && event != ControlEvent::OursFailed && event
            != ControlEvent::TheirsFailed ==> step_for(pair_after(pair, event))
            == ControlStep::Serve,
{
}

/// Once each side has opened its control stream the connection is served, in whichever order they
/// did, as long as neither has failed; until the second is open, it is held.
pub proof fn law_both_control_streams_open_the_service(pair: ControlPair)
    requires
        pair.ours != ControlState::Failed,
        pair.theirs != ControlState::Failed,
    ensures
        step_for(pair_after(pair_after(pair, ControlEvent::OursOpened), ControlEvent::TheirsOpened))
            == ControlStep::Serve,
        step_for(pair_after(pair_after(pair, ControlEvent::TheirsOpened), ControlEvent::OursOpened))
            == ControlStep::Serve,
        pair.theirs == ControlState::Awaited ==> step_for(pair_after(pair, ControlEvent::OursOpened))
            == ControlStep::Hold,
        pair.ours == ControlState::Awaited ==> step_for(pair_after(pair, ControlEvent::TheirsOpened))
            == ControlStep::Hold,
{
}

/// A control stream that cannot be had costs the connection, whatever came before.
pub proof fn law_failed_control_stream_aborts(pair: ControlPair)
    ensures
        step_for(pair_after(pair, ControlEvent::OursFailed)) == ControlStep::Abort,
        step_for(pair_after(pair, ControlEvent::TheirsFailed)) == ControlStep::Abort,
        pair_after(pair, ControlEvent::OursFailed).theirs == pair.theirs,
        pair_after(pair, ControlEvent::TheirsFailed).ours == pair.ours,
        pair_after(pair, ControlEvent::OursOpened).theirs == pair.theirs,
        pair_after(pair, ControlEvent::TheirsOpened).ours == pair.ours,
{
}

/// Other streams that arrive change nothing, however many there are.
pub proof fn law_other_streams_only_wait(pair: ControlPair)
    ensures
        pair_after(pair, ControlEvent::StreamArrived) == pair,
        step_for(pair) == ControlStep::Abort <==> pair.ours == ControlState::Failed || pair.theirs
            == ControlState::Failed,
{
}

} // verus!
