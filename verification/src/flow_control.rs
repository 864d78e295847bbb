//! Backpressure of one stream: when to ask the other end to stop sending its
//! bytes, and when to let it go on.
//!
//! The bytes of a stream wait in a queue until its socket takes them. The queue
//! has no bound, so that one slow stream holds up no other. When it grows long,
//! the other end is told to pause; when it has become short again, to resume.

use crate::channel_message::{
    ChannelMessage, ChannelMessageView, OngoingStreamId, PauseMsg, ResumeMsg,
};
use crate::multiplexer_error::MultiplexerError;
use vstd::prelude::*;

verus! {

/// The number of waiting messages at which the other end is told to pause.
pub const BACKPRESSURE_HIGH_WATER: usize = 64;

/// Once fewer messages than this wait, a paused other end is told to resume.
pub const BACKPRESSURE_LOW_WATER: usize = 16;

/// The backpressure of one stream as a mathematical value.
pub struct FlowView {
    /// The number of messages that wait to be written.
    pub pending: int,
    /// Whether the other end was told to pause and not yet to resume.
    pub sent_pause: bool,
    /// Whether the other end has said to pause.
    pub read_paused: bool,
}

impl FlowView {
    pub open spec fn fresh() -> FlowView {
        FlowView { pending: 0, sent_pause: false, read_paused: false }
    }

    /// Whether one more waiting message is the reason to tell the other end to
    /// pause.
    pub open spec fn pauses(self) -> bool {
        self.pending + 1 >= BACKPRESSURE_HIGH_WATER && !self.sent_pause
    }

    /// With one more waiting message, and the pause that it gives reason for on
    /// its way.
    pub open spec fn queued(self) -> FlowView {
        FlowView {
            pending: self.pending + 1,
            sent_pause: self.sent_pause || self.pauses(),
            ..self
        }
    }

    /// Once it is known whether the pause could be sent. One that could not is
    /// tried again with the next message.
    pub open spec fn pause_tried(self, outcome: TrySendOutcome) -> FlowView {
        if outcome is Full {
            FlowView { sent_pause: false, ..self }
        } else {
            self
        }
    }

    /// Whether one message less is the reason to tell the other end to resume.
    pub open spec fn resumes(self) -> bool {
        self.pending <= BACKPRESSURE_LOW_WATER && self.sent_pause
    }

    /// With one waiting message written.
    pub open spec fn written(self) -> FlowView {
        FlowView {
            pending: self.pending - 1,
            sent_pause: self.sent_pause && !self.resumes(),
            ..self
        }
    }
}

/// What became of a message that was to be sent without waiting.
#[derive(Debug, Clone, Copy, PartialEq, Eq, Structural)]
pub enum TrySendOutcome {
    Sent,
    /// There is no room for it now.
    Full,
    /// Nobody will ever receive it.
    Closed,
}

/// The backpressure of one stream.
pub struct StreamFlowControl {
    pending: usize,
    sent_pause: bool,
    read_paused: bool,
}

impl View for StreamFlowControl {
    type V = FlowView;

    closed spec fn view(&self) -> FlowView {
        FlowView {
            pending: self.pending as int,
            sent_pause: self.sent_pause,
            read_paused: self.read_paused,
        }
    }
}

impl StreamFlowControl {
    pub fn new() -> (flow: StreamFlowControl)
        ensures
            flow@ == FlowView::fresh(),
    {
        StreamFlowControl { pending: 0, sent_pause: false, read_paused: false }
    }

    /// The number of messages that wait to be written.
    pub fn pending(&self) -> (n: usize)
        ensures
            n == self@.pending,
    {
        self.pending
    }

    /// Counts a message that has been put into the queue. Returns the message
    /// that is to be sent to the other end without waiting, where there is one;
    /// what becomes of it is then reported to [`StreamFlowControl::pause_tried`].
    pub fn data_queued(&mut self, stream_id: OngoingStreamId) -> (pause: Option<ChannelMessage>)
        requires
            old(self)@.pending < usize::MAX,
        ensures
            final(self)@ == old(self)@.queued(),
            match pause {
                Some(m) => old(self)@.pauses() && m@ == ChannelMessageView::Pause(stream_id.0),
                None => !old(self)@.pauses(),
            },
    {
        self.pending = self.pending + 1;
        if self.pending >= BACKPRESSURE_HIGH_WATER && !self.sent_pause {
            self.sent_pause = true;
            Some(ChannelMessage::Pause(PauseMsg { stream_id }))
        } else {
            None
        }
    }

    /// Takes note of what became of the message that tells the other end to
    /// pause.
    pub fn pause_tried(&mut self, outcome: TrySendOutcome) -> (res: Result<(), MultiplexerError>)
        ensures
            final(self)@ == old(self)@.pause_tried(outcome),
            match res {
                Ok(_) => !(outcome is Closed),
                Err(e) => outcome is Closed && e@ == "channel closed"@,
            },
    {
        match outcome {
            TrySendOutcome::Sent => Ok(()),
            TrySendOutcome::Full => {
                self.sent_pause = false;
                Ok(())
            },
            TrySendOutcome::Closed => Err(MultiplexerError::from("channel closed")),
        }
    }

    /// Counts a message that has been written to the stream's socket. Returns
    /// the message that is to be sent to the other end, where there is one.
    pub fn message_written(&mut self, stream_id: OngoingStreamId) -> (resume: Option<
        ChannelMessage,
    >)
        requires
            old(self)@.pending > 0,
        ensures
            final(self)@ == old(self)@.written(),
            match resume {
                Some(m) => old(self)@.resumes() && m@ == ChannelMessageView::Resume(stream_id.0),
                None => !old(self)@.resumes(),
            },
    {
        let prev: usize = self.pending;
        self.pending = prev - 1;
        if prev <= BACKPRESSURE_LOW_WATER && self.sent_pause {
            self.sent_pause = false;
            Some(ChannelMessage::Resume(ResumeMsg { stream_id }))
        } else {
            None
        }
    }

    /// The other end has said to pause.
    pub fn pause_read(&mut self)
        ensures
            final(self)@ == (FlowView { read_paused: true, ..old(self)@ }),
    {
        self.read_paused = true;
    }

    /// The other end has said to resume.
    pub fn resume_read(&mut self)
        ensures
            final(self)@ == (FlowView { read_paused: false, ..old(self)@ }),
    {
        self.read_paused = false;
    }

    /// Whether the other end has said to pause.
    pub fn is_read_paused(&self) -> (paused: bool)
        ensures
            paused == self@.read_paused,
    {
        self.read_paused
    }
}

/// What has become of bytes for a stream.
#[derive(Debug, Clone, Copy, PartialEq, Eq, Structural)]
pub enum DeliveryEvent {
    /// They were put into its queue.
    Queued,
    /// Its queue takes no more.
    QueueClosed,
    /// The message that tells the other end to pause was tried.
    PauseTried(TrySendOutcome),
}

/// What to do next about bytes for a stream.
pub enum DeliveryAction {
    /// There is nothing left to do.
    Done,
    /// Forget the stream.
    Remove,
    /// Send these bytes to the other end, if that is possible without waiting.
    TrySend(Vec<u8>),
}

/// Handles what has become of bytes for a stream. They are counted, and the
/// other end is told to pause where too many wait. A stream that takes no more
/// is forgotten, which is no failure of the multiplexer; that nothing can reach
/// the other end any more is one.
pub fn delivery_step(
    flow: &mut StreamFlowControl,
    stream_id: OngoingStreamId,
    event: DeliveryEvent,
) -> (res: Result<DeliveryAction, MultiplexerError>)
    requires
        event is Queued ==> old(flow)@.pending < usize::MAX,
    ensures
        match event {
            DeliveryEvent::Queued => {
                &&& final(flow)@ == old(flow)@.queued()
                &&& if old(flow)@.pauses() {
                    res matches Ok(DeliveryAction::TrySend(bytes)) && bytes@
                        == ChannelMessageView::Pause(stream_id.0).encoded()
                } else {
                    res matches Ok(DeliveryAction::Done)
                }
            },
            DeliveryEvent::QueueClosed => {
                &&& final(flow)@ == old(flow)@
                &&& res matches Ok(DeliveryAction::Remove)
            },
            DeliveryEvent::PauseTried(outcome) => {
                &&& final(flow)@ == old(flow)@.pause_tried(outcome)
                &&& if outcome is Closed {
                    res matches Err(e) && e@ == "channel closed"@
                } else {
                    res matches Ok(DeliveryAction::Done)
                }
            },
        },
{
    match event {
        DeliveryEvent::Queued => match flow.data_queued(stream_id) {
            Some(pause) => Ok(DeliveryAction::TrySend(pause.encode())),
            None => Ok(DeliveryAction::Done),
        },
        DeliveryEvent::QueueClosed => Ok(DeliveryAction::Remove),
        DeliveryEvent::PauseTried(outcome) => match flow.pause_tried(outcome) {
            Ok(_) => Ok(DeliveryAction::Done),
            Err(e) => Err(e),
        },
    }
}

/// What happens to the queue of a stream.
pub enum FlowEvent {
    /// A message is put in, and the pause that it may give reason for is tried.
    Queued(TrySendOutcome),
    /// A message is written.
    Written,
    /// The other end says to pause, or to resume.
    ReadPaused(bool),
}

/// What the other end is told.
pub enum FlowSignal {
    Pause,
    Resume,
}

/// The backpressure after an event.
pub open spec fn flow_after(flow: FlowView, event: FlowEvent) -> FlowView {
    match event {
        FlowEvent::Queued(outcome) => if flow.pauses() {
            flow.queued().pause_tried(outcome)
        } else {
            flow.queued()
        },
        FlowEvent::Written => flow.written(),
        FlowEvent::ReadPaused(paused) => FlowView { read_paused: paused, ..flow },
    }
}

/// What the other end is told in an event.
pub open spec fn flow_signal(flow: FlowView, event: FlowEvent) -> Option<FlowSignal> {
    match event {
        FlowEvent::Queued(outcome) => if flow.pauses() && outcome is Sent {
            Some(FlowSignal::Pause)
        } else {
            None
        },
        FlowEvent::Written => if flow.resumes() {
            Some(FlowSignal::Resume)
        } else {
            None
        },
        FlowEvent::ReadPaused(_) => None,
    }
}

/// Whether an event can come: what is written was put in before, there is room
/// to count, and a stream whose pause reached nobody is given up.
pub open spec fn flow_possible(flow: FlowView, event: FlowEvent) -> bool {
    match event {
        FlowEvent::Queued(outcome) => flow.pending < usize::MAX && !(outcome is Closed),
        FlowEvent::Written => flow.pending > 0,
        FlowEvent::ReadPaused(_) => true,
    }
}

/// Whether the events can come one after the other, on a new stream.
pub open spec fn flow_run(events: Seq<FlowEvent>) -> bool
    decreases events.len(),
{
    events.len() == 0 || {
        &&& flow_run(events.drop_last())
        &&& flow_possible(flow_state(events.drop_last()), events.last())
    }
}

/// The backpressure of a new stream after the events.
pub open spec fn flow_state(events: Seq<FlowEvent>) -> FlowView
    decreases events.len(),
{
    if events.len() == 0 {
        FlowView::fresh()
    } else {
        flow_after(flow_state(events.drop_last()), events.last())
    }
}

/// What the other end has been told in the events, first to last.
pub open spec fn flow_signals(events: Seq<FlowEvent>) -> Seq<FlowSignal>
    decreases events.len(),
{
    if events.len() == 0 {
        seq![]
    } else {
        let before = flow_signals(events.drop_last());
        match flow_signal(flow_state(events.drop_last()), events.last()) {
            Some(signal) => before.push(signal),
            None => before,
        }
    }
}

/// The number of messages put in less those written.
pub open spec fn flow_count(events: Seq<FlowEvent>) -> int
    decreases events.len(),
{
    if events.len() == 0 {
        0
    } else {
        flow_count(events.drop_last()) + match events.last() {
            FlowEvent::Queued(_) => 1int,
            FlowEvent::Written => -1int,
            FlowEvent::ReadPaused(_) => 0int,
        }
    }
}

/// The other end is told to pause and to resume in turn, beginning with a
/// pause, and it is paused exactly where the last thing it was told is to.
pub proof fn law_pause_and_resume_alternate(events: Seq<FlowEvent>)
    requires
        flow_run(events),
    ensures
        forall|i: int|
            0 <= i < flow_signals(events).len() ==> (#[trigger] flow_signals(events)[i] is Pause)
                == (i % 2 == 0),
        flow_state(events).sent_pause == (flow_signals(events).len() % 2 == 1),
    decreases events.len(),
{
    if events.len() > 0 {
        law_pause_and_resume_alternate(events.drop_last());
    }
}

/// The messages that wait are those put in and not written.
pub proof fn law_pending_counts(events: Seq<FlowEvent>)
    requires
        flow_run(events),
    ensures
        flow_state(events).pending == flow_count(events),
        flow_count(events) >= 0,
    decreases events.len(),
{
    if events.len() > 0 {
        law_pending_counts(events.drop_last());
    }
}

/// A stream is not left paused: as long as the other end is, messages wait, at
/// least as many as the low-water mark, and writing them brings it to resume.
pub proof fn law_paused_while_messages_wait(events: Seq<FlowEvent>)
    requires
        flow_run(events),
    ensures
        flow_state(events).sent_pause ==> flow_state(events).pending >= BACKPRESSURE_LOW_WATER,
    decreases events.len(),
{
    if events.len() > 0 {
        law_paused_while_messages_wait(events.drop_last());
        law_pending_counts(events.drop_last());
    }
}

/// A queue that has grown long is noticed: as long as there is room to tell the
/// other end so, it is paused from the high-water mark on.
pub proof fn law_long_queue_pauses(events: Seq<FlowEvent>)
    requires
        flow_run(events),
        forall|i: int|
            0 <= i < events.len() ==> (#[trigger] events[i] matches FlowEvent::Queued(outcome)
                ==> outcome is Sent),
    ensures
        flow_state(events).pending >= BACKPRESSURE_HIGH_WATER ==> flow_state(events).sent_pause,
    decreases events.len(),
{
    if events.len() > 0 {
        let before = events.drop_last();
        assert forall|i: int| 0 <= i < before.len() implies (#[trigger] before[i] matches FlowEvent::Queued(
            outcome,
        ) ==> outcome is Sent) by {
            assert(before[i] == events[i]);
        }
        law_long_queue_pauses(before);
        law_pending_counts(before);
        assert(events.last() == events[events.len() - 1]);
    }
}

/// The other end is told to pause by the message that makes 64 wait, or a later
/// one, unless it has been told already; and to resume, if it was paused, once
/// fewer than 16 wait. Nothing else is said to it, and nothing of this touches
/// what it has said itself.
pub proof fn law_water_marks(flow: FlowView, event: FlowEvent)
    ensures
        flow_signal(flow, event) == Some(FlowSignal::Pause) <==> {
            &&& event == FlowEvent::Queued(TrySendOutcome::Sent)
            &&& flow.pending + 1 >= 64
            &&& !flow.sent_pause
        },
        flow_signal(flow, event) == Some(FlowSignal::Resume) <==> {
            &&& event is Written
            &&& flow.pending - 1 < 16
            &&& flow.sent_pause
        },
        !(event is ReadPaused) ==> flow_after(flow, event).read_paused == flow.read_paused,
        event matches FlowEvent::ReadPaused(paused) ==> flow_after(flow, event) == (FlowView {
            read_paused: paused,
            ..flow
        }),
{
}

/// Each message is counted in and counted out, whether or not the other end is
/// told anything. It counts as paused from the message that tells it so on, unless
/// that found no room, until the one that tells it to resume.
pub proof fn law_flow_state(flow: FlowView, outcome: TrySendOutcome)
    ensures
        flow.pauses() <==> flow.pending + 1 >= 64 && !flow.sent_pause,
        flow.resumes() <==> flow.pending - 1 < 16 && flow.sent_pause,
        flow.queued().pending == flow.pending + 1,
        flow.written().pending == flow.pending - 1,
        flow.queued().sent_pause <==> flow.sent_pause || flow.pending + 1 >= 64,
        flow.written().sent_pause <==> flow.sent_pause && flow.pending - 1 >= 16,
        flow.queued().read_paused == flow.read_paused,
        flow.written().read_paused == flow.read_paused,
        outcome is Full ==> flow.pause_tried(outcome) == (FlowView { sent_pause: false, ..flow }),
        !(outcome is Full) ==> flow.pause_tried(outcome) == flow,
        FlowView::fresh() == (FlowView { pending: 0, sent_pause: false, read_paused: false }),
{
}

} // verus!
