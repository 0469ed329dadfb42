//! Decisions of the controller clock worker, which sends MIDI timing clock,
//! Start and Stop to one external controller.
//!
//! The worker waits for commands or for the next clock tick, keeps the tick
//! phase (in floating-point seconds) and talks to the MIDI output; each of
//! those is outside work. This state machine decides, from what the worker
//! reports, which message to send next and what it knows of the transport.

use vstd::prelude::*;

verus! {

/// A command from the transport to the worker. Tempo values go to the
/// worker's tick phase and play no part in these decisions.
#[derive(Clone, Copy, Debug, PartialEq, Eq, Structural)]
pub enum ClockCommand {
    Start,
    Tempo,
    Stop,
    Suspend,
    Shutdown,
}

/// A message on the controller's MIDI port.
#[derive(Clone, Copy, Debug, PartialEq, Eq, Structural)]
pub enum ClockMessage {
    TimingClock,
    Start,
    Stop,
}

impl ClockMessage {
    /// The MIDI Real-Time status byte that carries the message.
    pub open spec fn wire_byte(self) -> u8 {
        match self {
            ClockMessage::TimingClock => 0xf8u8,
            ClockMessage::Start => 0xfau8,
            ClockMessage::Stop => 0xfcu8,
        }
    }

    /// The message's bytes on the wire: a single MIDI Real-Time status byte.
    pub fn bytes(self) -> (bytes: &'static [u8])
        ensures
            bytes@ == seq![self.wire_byte()],
    {
        match self {
            ClockMessage::TimingClock => &[0xf8],
            ClockMessage::Start => &[0xfa],
            ClockMessage::Stop => &[0xfc],
        }
    }
}

/// What the worker must do next.
#[derive(Clone, Copy, Debug, PartialEq, Eq, Structural)]
pub enum ClockStep {
    /// Send the message and report whether it was sent.
    Send(ClockMessage),
    /// Move the tick phase past the tick just sent, then report it.
    AdvancePhase,
    /// Ask the tick phase whether a tick is due and report the answer.
    CheckDue,
    /// Wait for the next command or tick.
    Idle,
    /// Stop the worker.
    Exit,
}

/// Where the worker is inside the handling of one command or tick.
#[derive(Clone, Copy, Debug, PartialEq, Eq, Structural)]
pub enum ClockStage {
    Idle,
    /// Start: the Stop that ends the previous run was sent.
    StartStopSent,
    /// Start: the first timing clock was sent.
    StartClockSent,
    /// Start: the tick phase is advancing past that clock.
    StartPhaseAdvancing,
    /// Start: the Start message was sent.
    StartSent,
    /// Stop: the Stop message was sent.
    StopSent,
    /// Suspend: the Stop message was sent.
    SuspendStopSent,
    /// Shutdown: the Stop message was sent.
    ShutdownStopSent,
    /// A tick: waiting to learn whether it is due.
    TickChecking,
    /// A tick: the timing clock was sent.
    TickSent,
    Exited,
}

/// What the worker knows of the output and the transport.
#[derive(Clone, Copy, Debug, PartialEq, Eq, Structural)]
pub struct ClockState {
    /// The last send succeeded (or none failed yet).
    pub output_available: bool,
    /// A timing clock went out since the last Suspend.
    pub clock_sent: bool,
    /// The controller's transport was started and not stopped since.
    pub transport_running: bool,
    /// Clock output is suspended until the next Start.
    pub suspended: bool,
    pub stage: ClockStage,
}

/// The worker before its first command.
pub open spec fn initial_clock() -> ClockState {
    ClockState {
        output_available: true,
        clock_sent: false,
        transport_running: false,
        suspended: false,
        stage: ClockStage::Idle,
    }
}

/// A state and the step the worker takes in it.
pub struct ClockTransition {
    pub state: ClockState,
    pub step: ClockStep,
}

/// The Start handling from its first-clock decision on.
pub open spec fn start_clock_phase(state: ClockState) -> ClockTransition {
    if !state.clock_sent {
        ClockTransition {
            state: ClockState { stage: ClockStage::StartClockSent, ..state },
            step: ClockStep::Send(ClockMessage::TimingClock),
        }
    } else {
        start_message_phase(state)
    }
}

/// The Start handling from its Start-message decision on.
pub open spec fn start_message_phase(state: ClockState) -> ClockTransition {
    if state.output_available {
        ClockTransition {
            state: ClockState { stage: ClockStage::StartSent, ..state },
            step: ClockStep::Send(ClockMessage::Start),
        }
    } else {
        ClockTransition {
            state: ClockState { transport_running: true, stage: ClockStage::Idle, ..state },
            step: ClockStep::Idle,
        }
    }
}

/// Whether the running transport must first be stopped on the controller.
pub open spec fn stop_owed(state: ClockState) -> bool {
    state.transport_running && state.output_available
}

/// The worker receives `command` while idle.
pub open spec fn spec_command(state: ClockState, command: ClockCommand) -> ClockTransition {
    match command {
        ClockCommand::Start => {
            let awake = ClockState { suspended: false, ..state };
            if stop_owed(awake) {
                ClockTransition {
                    state: ClockState { stage: ClockStage::StartStopSent, ..awake },
                    step: ClockStep::Send(ClockMessage::Stop),
                }
            } else {
                start_clock_phase(awake)
            }
        },
        ClockCommand::Tempo => ClockTransition { state, step: ClockStep::Idle },
        ClockCommand::Stop => if stop_owed(state) {
            ClockTransition {
                state: ClockState { stage: ClockStage::StopSent, ..state },
                step: ClockStep::Send(ClockMessage::Stop),
            }
        } else {
            ClockTransition { state: ClockState { transport_running: false, ..state }, step: ClockStep::Idle }
        },
        ClockCommand::Suspend => if stop_owed(state) {
            ClockTransition {
                state: ClockState { stage: ClockStage::SuspendStopSent, ..state },
                step: ClockStep::Send(ClockMessage::Stop),
            }
        } else {
            ClockTransition {
                state: ClockState { transport_running: false, suspended: true, clock_sent: false, ..state },
                step: ClockStep::Idle,
            }
        },
        ClockCommand::Shutdown => if stop_owed(state) {
            ClockTransition {
                state: ClockState { stage: ClockStage::ShutdownStopSent, ..state },
                step: ClockStep::Send(ClockMessage::Stop),
            }
        } else {
            ClockTransition { state: ClockState { stage: ClockStage::Exited, ..state }, step: ClockStep::Exit }
        },
    }
}

/// The worker reports that a send finished, `sent` telling whether it worked.
pub open spec fn spec_sent(state: ClockState, sent: bool) -> ClockTransition {
    match state.stage {
        ClockStage::StartStopSent => start_clock_phase(ClockState { stage: ClockStage::Idle, ..state }),
        ClockStage::StartClockSent => ClockTransition {
            state: ClockState {
                output_available: sent,
                clock_sent: sent,
                stage: ClockStage::StartPhaseAdvancing,
                ..state
            },
            step: ClockStep::AdvancePhase,
        },
        ClockStage::StartSent => ClockTransition {
            state: ClockState {
                output_available: sent,
                transport_running: true,
                stage: ClockStage::Idle,
                ..state
            },
            step: ClockStep::Idle,
        },
        ClockStage::StopSent => ClockTransition {
            state: ClockState { transport_running: false, stage: ClockStage::Idle, ..state },
            step: ClockStep::Idle,
        },
        ClockStage::SuspendStopSent => ClockTransition {
            state: ClockState {
                transport_running: false,
                suspended: true,
                clock_sent: false,
                stage: ClockStage::Idle,
                ..state
            },
            step: ClockStep::Idle,
        },
        ClockStage::ShutdownStopSent => ClockTransition {
            state: ClockState { stage: ClockStage::Exited, ..state },
            step: ClockStep::Exit,
        },
        ClockStage::TickSent => ClockTransition {
            state: ClockState { output_available: sent, clock_sent: sent, stage: ClockStage::Idle, ..state },
            step: ClockStep::Idle,
        },
        _ => ClockTransition { state, step: ClockStep::Idle },
    }
}

/// Whether the worker is waiting for the report of a send.
pub open spec fn awaiting_send(stage: ClockStage) -> bool {
    match stage {
        ClockStage::StartStopSent | ClockStage::StartClockSent | ClockStage::StartSent | ClockStage::StopSent
        | ClockStage::SuspendStopSent | ClockStage::ShutdownStopSent | ClockStage::TickSent => true,
        _ => false,
    }
}

/// The worker's wait for a command ended without one: a tick may be due.
pub open spec fn spec_timeout(state: ClockState) -> ClockTransition {
    if state.suspended {
        ClockTransition { state, step: ClockStep::Idle }
    } else {
        ClockTransition { state: ClockState { stage: ClockStage::TickChecking, ..state }, step: ClockStep::CheckDue }
    }
}

/// The worker reports whether a tick is due.
pub open spec fn spec_due(state: ClockState, due: bool) -> ClockTransition {
    if due && state.output_available {
        ClockTransition {
            state: ClockState { stage: ClockStage::TickSent, ..state },
            step: ClockStep::Send(ClockMessage::TimingClock),
        }
    } else {
        ClockTransition { state: ClockState { stage: ClockStage::Idle, ..state }, step: ClockStep::Idle }
    }
}

/// The worker reports that the tick phase moved past the first clock.
pub open spec fn spec_advanced(state: ClockState) -> ClockTransition {
    start_message_phase(ClockState { stage: ClockStage::Idle, ..state })
}

/// The decisions of the controller clock worker.
#[derive(Debug)]
pub struct ControllerClock {
    state: ClockState,
}

impl View for ControllerClock {
    type V = ClockState;

    closed spec fn view(&self) -> ClockState {
        self.state
    }
}

impl ControllerClock {
    pub fn new() -> (clock: ControllerClock)
        ensures
            clock@ == initial_clock(),
    {
        ControllerClock {
            state: ClockState {
                output_available: true,
                clock_sent: false,
                transport_running: false,
                suspended: false,
                stage: ClockStage::Idle,
            },
        }
    }

    /// What the worker knows now.
    pub fn state(&self) -> (state: ClockState)
        ensures
            state == self@,
    {
        self.state
    }

    fn take(&mut self, transition: (ClockState, ClockStep)) -> (step: ClockStep)
        ensures
            final(self)@ == transition.0,
            step == transition.1,
    {
        self.state = transition.0;
        transition.1
    }

    fn start_clock_phase(state: ClockState) -> (transition: (ClockState, ClockStep))
        ensures
            (ClockTransition { state: transition.0, step: transition.1 }) == start_clock_phase(state),
    {
        if !state.clock_sent {
            (ClockState { stage: ClockStage::StartClockSent, ..state }, ClockStep::Send(ClockMessage::TimingClock))
        } else {
            Self::start_message_phase(state)
        }
    }

    fn start_message_phase(state: ClockState) -> (transition: (ClockState, ClockStep))
        ensures
            (ClockTransition { state: transition.0, step: transition.1 }) == start_message_phase(state),
    {
        if state.output_available {
            (ClockState { stage: ClockStage::StartSent, ..state }, ClockStep::Send(ClockMessage::Start))
        } else {
            (ClockState { transport_running: true, stage: ClockStage::Idle, ..state }, ClockStep::Idle)
        }
    }

    /// Handle a command that arrived while idle.
    pub fn command(&mut self, command: ClockCommand) -> (step: ClockStep)
        requires
            old(self)@.stage == ClockStage::Idle,
        ensures
            (ClockTransition { state: final(self)@, step }) == spec_command(old(self)@, command),
    {
        let state = self.state;
        let owed = state.transport_running && state.output_available;
        let transition = match command {
            ClockCommand::Start => {
                let awake = ClockState { suspended: false, ..state };
                if owed {
                    (ClockState { stage: ClockStage::StartStopSent, ..awake }, ClockStep::Send(ClockMessage::Stop))
                } else {
                    Self::start_clock_phase(awake)
                }
            },
            ClockCommand::Tempo => (state, ClockStep::Idle),
            ClockCommand::Stop => if owed {
                (ClockState { stage: ClockStage::StopSent, ..state }, ClockStep::Send(ClockMessage::Stop))
            } else {
                (ClockState { transport_running: false, ..state }, ClockStep::Idle)
            },
            ClockCommand::Suspend => if owed {
                (ClockState { stage: ClockStage::SuspendStopSent, ..state }, ClockStep::Send(ClockMessage::Stop))
            } else {
                (
                    ClockState { transport_running: false, suspended: true, clock_sent: false, ..state },
                    ClockStep::Idle,
                )
            },
            ClockCommand::Shutdown => if owed {
                (ClockState { stage: ClockStage::ShutdownStopSent, ..state }, ClockStep::Send(ClockMessage::Stop))
            } else {
                (ClockState { stage: ClockStage::Exited, ..state }, ClockStep::Exit)
            },
        };
        self.take(transition)
    }

    /// Handle the report of a send: `sent` tells whether it worked.
    pub fn sent(&mut self, sent: bool) -> (step: ClockStep)
        requires
            awaiting_send(old(self)@.stage),
        ensures
            (ClockTransition { state: final(self)@, step }) == spec_sent(old(self)@, sent),
    {
        let state = self.state;
        let transition = match state.stage {
            ClockStage::StartStopSent => Self::start_clock_phase(ClockState { stage: ClockStage::Idle, ..state }),
            ClockStage::StartClockSent => (
                ClockState {
                    output_available: sent,
                    clock_sent: sent,
                    stage: ClockStage::StartPhaseAdvancing,
                    ..state
                },
                ClockStep::AdvancePhase,
            ),
            ClockStage::StartSent => (
                ClockState { output_available: sent, transport_running: true, stage: ClockStage::Idle, ..state },
                ClockStep::Idle,
            ),
            ClockStage::StopSent => (
                ClockState { transport_running: false, stage: ClockStage::Idle, ..state },
                ClockStep::Idle,
            ),
            ClockStage::SuspendStopSent => (
                ClockState {
                    transport_running: false,
                    suspended: true,
                    clock_sent: false,
                    stage: ClockStage::Idle,
                    ..state
                },
                ClockStep::Idle,
            ),
            ClockStage::ShutdownStopSent => (ClockState { stage: ClockStage::Exited, ..state }, ClockStep::Exit),
            ClockStage::TickSent => (
                ClockState { output_available: sent, clock_sent: sent, stage: ClockStage::Idle, ..state },
                ClockStep::Idle,
            ),
            _ => (state, ClockStep::Idle),
        };
        self.take(transition)
    }

    /// Handle the end of a wait without a command.
    pub fn timeout(&mut self) -> (step: ClockStep)
        requires
            old(self)@.stage == ClockStage::Idle,
        ensures
            (ClockTransition { state: final(self)@, step }) == spec_timeout(old(self)@),
    {
        let state = self.state;
        let transition = if state.suspended {
            (state, ClockStep::Idle)
        } else {
            (ClockState { stage: ClockStage::TickChecking, ..state }, ClockStep::CheckDue)
        };
        self.take(transition)
    }

    /// Handle the answer whether a tick is due.
    pub fn due(&mut self, due: bool) -> (step: ClockStep)
        requires
            old(self)@.stage == ClockStage::TickChecking,
        ensures
            (ClockTransition { state: final(self)@, step }) == spec_due(old(self)@, due),
    {
        let state = self.state;
        let transition = if due && state.output_available {
            (ClockState { stage: ClockStage::TickSent, ..state }, ClockStep::Send(ClockMessage::TimingClock))
        } else {
            (ClockState { stage: ClockStage::Idle, ..state }, ClockStep::Idle)
        };
        self.take(transition)
    }

    /// Handle the report that the tick phase moved past the first clock.
    pub fn advanced(&mut self) -> (step: ClockStep)
        requires
            old(self)@.stage == ClockStage::StartPhaseAdvancing,
        ensures
            (ClockTransition { state: final(self)@, step }) == spec_advanced(old(self)@),
    {
        let state = self.state;
        self.take(Self::start_message_phase(ClockState { stage: ClockStage::Idle, ..state }))
    }
}

impl Default for ControllerClock {
    fn default() -> (clock: ControllerClock)
        ensures
            clock@ == initial_clock(),
    {
        ControllerClock::new()
    }
}

/// The worker after it keeps answering the steps of `transition`: each send
/// is reported with the next of `results` (a missing one as failed), each
/// phase advance as done, for at most `fuel` steps.
pub open spec fn settle(transition: ClockTransition, results: Seq<bool>, fuel: nat) -> ClockTransition
    decreases fuel,
{
    if fuel == 0 {
        transition
    } else {
        match transition.step {
            ClockStep::Send(_) => {
                let (sent, rest) = next_result(results);
                settle(spec_sent(transition.state, sent), rest, (fuel - 1) as nat)
            },
            ClockStep::AdvancePhase => settle(spec_advanced(transition.state), results, (fuel - 1) as nat),
            _ => transition,
        }
    }
}

/// A Start is handled in a few steps, whatever each send reports, and
/// leaves the controller's transport running and clock output awake.
pub proof fn lemma_start_completes(state: ClockState, results: Seq<bool>)
    requires
        state.stage == ClockStage::Idle,
    ensures
        ({
            let done = settle(spec_command(state, ClockCommand::Start), results, 5);
            &&& done.step == ClockStep::Idle
            &&& done.state.stage == ClockStage::Idle
            &&& done.state.transport_running
            &&& !done.state.suspended
        }),
{
    let start = spec_command(state, ClockCommand::Start);
    if stop_owed(state) {
        let (first, rest) = next_result(results);
        let after_stop = spec_sent(start.state, first);
        assert(settle(start, results, 5) == settle(after_stop, rest, 4));
        lemma_clock_phase_completes(after_stop, rest, 4);
    } else {
        lemma_clock_phase_completes(start, results, 5);
    }
}

/// The result a send is reported with, and the results left.
pub open spec fn next_result(results: Seq<bool>) -> (bool, Seq<bool>) {
    if results.len() > 0 {
        (results[0], results.drop_first())
    } else {
        (false, results)
    }
}

/// From the first-clock decision of a Start on, the worker ends idle with
/// the transport running.
proof fn lemma_clock_phase_completes(transition: ClockTransition, results: Seq<bool>, fuel: nat)
    requires
        transition == start_clock_phase(transition.state),
        !transition.state.suspended,
        fuel >= 3,
    ensures
        ({
            let done = settle(transition, results, fuel);
            &&& done.step == ClockStep::Idle
            &&& done.state.stage == ClockStage::Idle
            &&& done.state.transport_running
            &&& !done.state.suspended
        }),
{
    let (first, rest) = next_result(results);
    let (second, rest2) = next_result(rest);
    if transition.step == ClockStep::Send(ClockMessage::TimingClock) {
        let after_clock = spec_sent(transition.state, first);
        assert(settle(transition, results, fuel) == settle(after_clock, rest, (fuel - 1) as nat));
        let advanced = spec_advanced(after_clock.state);
        assert(settle(after_clock, rest, (fuel - 1) as nat) == settle(advanced, rest, (fuel - 2) as nat));
        if advanced.step == ClockStep::Send(ClockMessage::Start) {
            let after_start = spec_sent(advanced.state, second);
            assert(settle(advanced, rest, (fuel - 2) as nat) == settle(after_start, rest2, (fuel - 3) as nat));
            lemma_settle_idle(after_start, rest2, (fuel - 3) as nat);
        } else {
            lemma_settle_idle(advanced, rest, (fuel - 2) as nat);
        }
    } else if transition.step == ClockStep::Send(ClockMessage::Start) {
        let after_start = spec_sent(transition.state, first);
        assert(settle(transition, results, fuel) == settle(after_start, rest, (fuel - 1) as nat));
        lemma_settle_idle(after_start, rest, (fuel - 1) as nat);
    } else {
        lemma_settle_idle(transition, results, fuel);
    }
}

/// An idle or exiting worker takes no more steps.
proof fn lemma_settle_idle(transition: ClockTransition, results: Seq<bool>, fuel: nat)
    requires
        transition.step == ClockStep::Idle || transition.step == ClockStep::Exit,
    ensures
        settle(transition, results, fuel) == transition,
{
}

/// A Stop or a Suspend is handled in a few steps, whatever each send
/// reports, and leaves the controller's transport stopped; a Suspend also
/// silences the clock until the next Start and forgets the sent clock.
pub proof fn lemma_stop_and_suspend_complete(state: ClockState, results: Seq<bool>)
    requires
        state.stage == ClockStage::Idle,
    ensures
        ({
            let done = settle(spec_command(state, ClockCommand::Stop), results, 5);
            &&& done.step == ClockStep::Idle
            &&& done.state.stage == ClockStage::Idle
            &&& !done.state.transport_running
            &&& done.state.suspended == state.suspended
        }),
        ({
            let done = settle(spec_command(state, ClockCommand::Suspend), results, 5);
            &&& done.step == ClockStep::Idle
            &&& done.state.stage == ClockStage::Idle
            &&& !done.state.transport_running
            &&& done.state.suspended
            &&& !done.state.clock_sent
        }),
{
    reveal_with_fuel(settle, 3);
}

/// A Shutdown ends the worker, after stopping a running transport, and a
/// Tempo leaves every decision as it was.
pub proof fn lemma_shutdown_and_tempo(state: ClockState, results: Seq<bool>)
    requires
        state.stage == ClockStage::Idle,
    ensures
        settle(spec_command(state, ClockCommand::Shutdown), results, 5).step == ClockStep::Exit,
        spec_command(state, ClockCommand::Tempo) == (ClockTransition { state, step: ClockStep::Idle }),
{
    reveal_with_fuel(settle, 3);
}

/// A Stop goes to the controller only while its transport runs and the
/// output works; no report of a send or a tick ever asks for one.
pub proof fn lemma_stop_needs_a_running_transport(state: ClockState, command: ClockCommand, sent: bool, due: bool)
    ensures
        spec_command(state, command).step == ClockStep::Send(ClockMessage::Stop) ==> stop_owed(state),
        spec_sent(state, sent).step != ClockStep::Send(ClockMessage::Stop),
        spec_due(state, due).step != ClockStep::Send(ClockMessage::Stop),
        spec_advanced(state).step != ClockStep::Send(ClockMessage::Stop),
{
}

/// Ticks never burst: a wait that ends without a command sends at most one
/// timing clock, none while suspended or when no tick is due, and the
/// worker is idle again after reporting it.
pub proof fn lemma_one_clock_per_tick(state: ClockState, due: bool, sent: bool)
    requires
        state.stage == ClockStage::Idle,
    ensures
        state.suspended ==> spec_timeout(state).step == ClockStep::Idle,
        !state.suspended ==> spec_timeout(state).step == ClockStep::CheckDue,
        !state.suspended ==> ({
            let asked = spec_due(spec_timeout(state).state, due);
            &&& asked.step is Send <==> (due && state.output_available)
            &&& asked.step is Send ==> asked.step == ClockStep::Send(ClockMessage::TimingClock)
                && spec_sent(asked.state, sent).step == ClockStep::Idle
                && spec_sent(asked.state, sent).state.stage == ClockStage::Idle
        }),
{
}

/// A Start sends a timing clock before the Start message whenever none was
/// sent since the worker began or was last suspended, so the controller
/// locks to the clock before it starts.
pub proof fn lemma_clock_precedes_start(state: ClockState, first: bool)
    requires
        state.stage == ClockStage::Idle,
        !state.clock_sent,
        !stop_owed(state),
    ensures
        spec_command(state, ClockCommand::Start).step == ClockStep::Send(ClockMessage::TimingClock),
        spec_sent(spec_command(state, ClockCommand::Start).state, first).step == ClockStep::AdvancePhase,
        first ==> spec_advanced(spec_sent(spec_command(state, ClockCommand::Start).state, first).state).step
            == ClockStep::Send(ClockMessage::Start),
{
}

/// What the controller clock sends is what a MIDI input reads back: each
/// message's byte is the Real-Time message of the same name, alone, so it
/// never disturbs a message the receiver is collecting.
pub proof fn lemma_clock_bytes_read_back(message: ClockMessage, state: crate::external_sync::ParserState)
    ensures
        crate::external_sync::spec_realtime(message.wire_byte()) == Some(
            match message {
                ClockMessage::TimingClock => crate::external_sync::RealtimeMessage::TimingClock,
                ClockMessage::Start => crate::external_sync::RealtimeMessage::Start,
                ClockMessage::Stop => crate::external_sync::RealtimeMessage::Stop,
            },
        ),
        crate::external_sync::parse_byte(state, message.wire_byte()).state == state,
{
}

} // verus!
