//! Which connection to use next: the loops round the sessions of a
//! reconnecting stream, on the side that connects and on the side that listens.

use crate::reconnecting_stream::StreamState;
use vstd::prelude::*;

verus! {

/// What happens while there is no connection.
pub enum UnconnectedEvent {
    /// The stream is to stop.
    Cancelled,
    /// It is time to try to connect again.
    SleepDone,
    /// There will be no more messages to send.
    AppClosed,
    /// A message to send.
    AppData(Vec<u8>),
}

/// Handles an event while there is no connection. A message to send is kept
/// until there is one; everything else ends the wait. Messages are asked for
/// only while the window is not used up. Returns whether to wait on.
pub fn unconnected_step(state: &mut StreamState, event: UnconnectedEvent) -> (wait_on: bool)
    requires
        event is AppClosed || event is AppData ==> !old(state)@.is_full(),
    ensures
        match event {
            UnconnectedEvent::AppData(data) => {
                &&& wait_on
                &&& final(state)@ == old(state)@.enqueued(data@)
            },
            _ => {
                &&& !wait_on
                &&& final(state)@ == old(state)@
            },
        },
{
    match event {
        UnconnectedEvent::AppData(data) => {
            state.enqueue(data);
            true
        },
        UnconnectedEvent::Cancelled | UnconnectedEvent::SleepDone
        | UnconnectedEvent::AppClosed => false,
    }
}

/// How long the connecting side waits between two connections.
pub const RECONNECT_SECS: u64 = 1;

/// What the connecting side has just found out or finished.
#[derive(Debug, Clone, Copy, PartialEq, Eq, Structural)]
pub enum ClientEvent {
    Checked { cancelled: bool },
    ConnectFailed,
    Connected,
    StreamEnded,
    WaitEnded,
}

/// What the connecting side does next.
#[derive(Debug, Clone, Copy, PartialEq, Eq, Structural)]
pub enum ClientAction {
    Return,
    CheckCancelled,
    Connect,
    RunStream,
    WaitUnconnected { seconds: u64 },
}

/// The connecting side connects for as long as it is not cancelled, runs each
/// connection to its end, and pauses after each, whether it came about or not.
pub open spec fn client_action(event: ClientEvent) -> ClientAction {
    match event {
        ClientEvent::Checked { cancelled } => if cancelled {
            ClientAction::Return
        } else {
            ClientAction::Connect
        },
        ClientEvent::Connected => ClientAction::RunStream,
        ClientEvent::ConnectFailed | ClientEvent::StreamEnded => ClientAction::WaitUnconnected {
            seconds: RECONNECT_SECS,
        },
        ClientEvent::WaitEnded => ClientAction::CheckCancelled,
    }
}

pub fn next_client_action(event: ClientEvent) -> (action: ClientAction)
    ensures
        action == client_action(event),
{
    match event {
        ClientEvent::Checked { cancelled } => {
            if cancelled {
                ClientAction::Return
            } else {
                ClientAction::Connect
            }
        },
        ClientEvent::Connected => ClientAction::RunStream,
        ClientEvent::ConnectFailed | ClientEvent::StreamEnded => ClientAction::WaitUnconnected {
            seconds: RECONNECT_SECS,
        },
        ClientEvent::WaitEnded => ClientAction::CheckCancelled,
    }
}

/// What the task that accepts connections meets.
#[derive(Debug, Clone, Copy, PartialEq, Eq, Structural)]
pub enum ListenerEvent {
    Cancelled,
    Accepted,
    AcceptFailed,
    /// The connection was handed on, or could not be.
    HandedOn,
}

/// What the task that accepts connections does next.
#[derive(Debug, Clone, Copy, PartialEq, Eq, Structural)]
pub enum ListenerAction {
    Stop,
    Accept,
    HandOn,
}

/// The listening side accepts connections until it is cancelled or cannot.
pub open spec fn listener_action(event: ListenerEvent) -> ListenerAction {
    match event {
        ListenerEvent::Cancelled | ListenerEvent::AcceptFailed => ListenerAction::Stop,
        ListenerEvent::Accepted => ListenerAction::HandOn,
        ListenerEvent::HandedOn => ListenerAction::Accept,
    }
}

pub fn next_listener_action(event: ListenerEvent) -> (action: ListenerAction)
    ensures
        action == listener_action(event),
{
    match event {
        ListenerEvent::Cancelled | ListenerEvent::AcceptFailed => ListenerAction::Stop,
        ListenerEvent::Accepted => ListenerAction::HandOn,
        ListenerEvent::HandedOn => ListenerAction::Accept,
    }
}

/// What the task that runs the accepted connections meets.
pub enum RunnerEvent<S> {
    Checked { cancelled: bool },
    Cancelled,
    /// The connection that was waited for, or `None` where there will be no
    /// more, and those that were found waiting behind it, oldest first.
    Received { first: Option<S>, queued: Vec<S> },
    StreamEnded,
}

/// What the task that runs the accepted connections does next.
pub enum RunnerAction<S> {
    Stop,
    CheckCancelled,
    AwaitSocket,
    RunStream(S),
}

/// The listening side runs one connection at a time and always the newest:
/// the ones that came before it are dropped.
pub open spec fn runner_action<S>(event: RunnerEvent<S>) -> RunnerAction<S> {
    match event {
        RunnerEvent::Checked { cancelled } => if cancelled {
            RunnerAction::Stop
        } else {
            RunnerAction::AwaitSocket
        },
        RunnerEvent::Cancelled => RunnerAction::Stop,
        RunnerEvent::Received { first, queued } => if queued@.len() > 0 {
            RunnerAction::RunStream(queued@.last())
        } else {
            match first {
                Some(socket) => RunnerAction::RunStream(socket),
                None => RunnerAction::Stop,
            }
        },
        RunnerEvent::StreamEnded => RunnerAction::CheckCancelled,
    }
}

pub fn next_runner_action<S>(event: RunnerEvent<S>) -> (action: RunnerAction<S>)
    ensures
        action == runner_action(event),
{
    match event {
        RunnerEvent::Checked { cancelled } => {
            if cancelled {
                RunnerAction::Stop
            } else {
                RunnerAction::AwaitSocket
            }
        },
        RunnerEvent::Cancelled => RunnerAction::Stop,
        RunnerEvent::Received { first, mut queued } => {
            match queued.pop() {
                Some(socket) => RunnerAction::RunStream(socket),
                None => match first {
                    Some(socket) => RunnerAction::RunStream(socket),
                    None => RunnerAction::Stop,
                },
            }
        },
        RunnerEvent::StreamEnded => RunnerAction::CheckCancelled,
    }
}

/// The connecting side never gives up by itself: it returns exactly when it finds
/// itself cancelled, and otherwise connects; it runs every connection that comes
/// about, and waits a second after each and after each that does not.
pub proof fn law_client_keeps_connecting(event: ClientEvent)
    ensures
        client_action(event) is Return <==> event == (ClientEvent::Checked { cancelled: true }),
        client_action(event) is Connect <==> event == (ClientEvent::Checked { cancelled: false }),
        client_action(event) is RunStream <==> event is Connected,
        client_action(event) is WaitUnconnected <==> event is ConnectFailed || event is StreamEnded,
        client_action(event) is CheckCancelled <==> event is WaitEnded,
        client_action(event) matches ClientAction::WaitUnconnected { seconds } ==> seconds == 1,
{
}

/// The listening side stops exactly when it is cancelled or cannot accept, hands
/// on every connection that it accepts, and then accepts the next.
pub proof fn law_listener_hands_on_every_connection(event: ListenerEvent)
    ensures
        listener_action(event) is Stop <==> event is Cancelled || event is AcceptFailed,
        listener_action(event) is HandOn <==> event is Accepted,
        listener_action(event) is Accept <==> event is HandedOn,
{
}

/// Of the connections at hand, the one that came last is run. The runner stops
/// when there is none and there will be none, or when it is cancelled, and after
/// each connection goes on with the next.
pub proof fn law_newest_connection_is_run<S>(
    first: Option<S>,
    queued: Vec<S>,
    cancelled: bool,
)
    ensures
        ({
            let arrived = match first {
                Some(socket) => seq![socket] + queued@,
                None => queued@,
            };
            let action = runner_action(RunnerEvent::Received { first, queued });
            &&& arrived.len() > 0 ==> action == RunnerAction::RunStream(arrived.last())
            &&& arrived.len() == 0 ==> action is Stop
        }),
        runner_action::<S>(RunnerEvent::Cancelled) is Stop,
        cancelled ==> runner_action::<S>(RunnerEvent::Checked { cancelled }) is Stop,
        !cancelled ==> runner_action::<S>(RunnerEvent::Checked { cancelled }) is AwaitSocket,
        runner_action::<S>(RunnerEvent::StreamEnded) is CheckCancelled,
{
}

} // verus!
