//! One stream between its socket and the multiplexer: the task that writes
//! what the other end has sent, and the task that reads what it is to be sent.
//! The stream is over as soon as one of them stops.

use crate::channel_message::{ChannelMessage, ChannelMessageView, DataMsg, OngoingStreamId};
use crate::flow_control::StreamFlowControl;
use crate::stream_multiplexer;
use vstd::prelude::*;

verus! {

/// How many bytes are read from the socket at once.
pub const READ_SIZE: usize = 4096;

/// What the writing task has met.
pub enum WriterEvent {
    /// It has just started.
    Started,
    /// The stream is over, or everything is to stop.
    Cancelled,
    /// The next message of the stream's queue, or `None` where there will be
    /// no more.
    Received(Option<ChannelMessage>),
    /// The bytes were written to the socket.
    Written,
    /// The socket took the bytes no more.
    WriteFailed,
    /// The other end was told to resume, or could not be.
    ResumeSent { ok: bool },
}

/// What the writing task does next.
pub enum WriterAction {
    /// Wait for the next message of the queue.
    Receive,
    /// Write the bytes to the socket.
    Write(Vec<u8>),
    /// Send the message to the other end.
    Send(ChannelMessage),
    /// Close the socket for writing and stop.
    Stop,
}

/// Handles what the writing task has met. Data is written, one message after
/// the other; anything else in the queue ends the stream. What is written was
/// counted when it was put into the queue.
pub fn writer_step(
    flow: &mut StreamFlowControl,
    stream_id: OngoingStreamId,
    event: WriterEvent,
) -> (action: WriterAction)
    requires
        event is Written ==> old(flow)@.pending > 0,
    ensures
        final(flow)@ == (if event is Written {
            old(flow)@.written()
        } else {
            old(flow)@
        }),
        match event {
            WriterEvent::Started => action is Receive,
            WriterEvent::Cancelled => action is Stop,
            WriterEvent::Received(Some(ChannelMessage::Data(sd))) => action matches WriterAction::Write(
                bytes,
            ) && bytes@ == sd.to_send@,
            WriterEvent::Received(_) => action is Stop,
            WriterEvent::Written => if old(flow)@.resumes() {
                action matches WriterAction::Send(m) && m@ == ChannelMessageView::Resume(
                    stream_id.0,
                )
            } else {
                action is Receive
            },
            WriterEvent::WriteFailed => action is Stop,
            WriterEvent::ResumeSent { ok } => if ok {
                action is Receive
            } else {
                action is Stop
            },
        },
{
    match event {
        WriterEvent::Started => WriterAction::Receive,
        WriterEvent::Cancelled => WriterAction::Stop,
        WriterEvent::Received(None) => WriterAction::Stop,
        WriterEvent::Received(Some(msg)) => match msg {
            ChannelMessage::Data(sd) => WriterAction::Write(sd.to_send),
            ChannelMessage::Disconnect(_) | ChannelMessage::Error(_) => WriterAction::Stop,
            ChannelMessage::Connect(_) | ChannelMessage::Pause(_) | ChannelMessage::Resume(_) =>
            WriterAction::Stop,
        },
        WriterEvent::Written => match flow.message_written(stream_id) {
            Some(resume) => WriterAction::Send(resume),
            None => WriterAction::Receive,
        },
        WriterEvent::WriteFailed => WriterAction::Stop,
        WriterEvent::ResumeSent { ok } => if ok {
            WriterAction::Receive
        } else {
            WriterAction::Stop
        },
    }
}

/// What the reading task has met.
pub enum ReaderEvent {
    /// It has just started.
    Started,
    /// The stream is over, or everything is to stop.
    Cancelled,
    /// The other end may have said to resume.
    Resumed,
    /// The bytes that were read; none at the end.
    Read(Vec<u8>),
    /// Nothing could be read; where the read was interrupted, it is made again.
    ReadFailed { interrupted: bool },
    /// The bytes were handed on, or could not be.
    Forwarded { ok: bool },
}

/// What the reading task does next.
pub enum ReaderAction {
    /// Wait until the other end says to resume.
    AwaitResume,
    /// Read from the socket.
    Read,
    /// Send the message to the other end.
    Forward(ChannelMessage),
    Stop,
}

/// Handles what the reading task has met. It reads, but not while the other end
/// is paused, and sends on what it has read.
pub fn reader_step(
    flow: &StreamFlowControl,
    stream_id: OngoingStreamId,
    event: ReaderEvent,
) -> (action: ReaderAction)
    ensures
        match event {
            ReaderEvent::Started | ReaderEvent::Resumed => goes_on(action, flow@.read_paused),
            ReaderEvent::Cancelled => action is Stop,
            ReaderEvent::Read(bytes) => if bytes@.len() == 0 {
                action is Stop
            } else {
                action matches ReaderAction::Forward(m) && m@ == ChannelMessageView::Data(
                    stream_id.0,
                    bytes@,
                )
            },
            ReaderEvent::ReadFailed { interrupted } => if interrupted {
                goes_on(action, flow@.read_paused)
            } else {
                action is Stop
            },
            ReaderEvent::Forwarded { ok } => if ok {
                goes_on(action, flow@.read_paused)
            } else {
                action is Stop
            },
        },
{
    match event {
        ReaderEvent::Started | ReaderEvent::Resumed => next_read(flow),
        ReaderEvent::Cancelled => ReaderAction::Stop,
        ReaderEvent::Read(bytes) => {
            if bytes.len() == 0 {
                ReaderAction::Stop
            } else {
                ReaderAction::Forward(ChannelMessage::Data(DataMsg { stream_id, to_send: bytes }))
            }
        },
        ReaderEvent::ReadFailed { interrupted } => {
            if interrupted {
                next_read(flow)
            } else {
                ReaderAction::Stop
            }
        },
        ReaderEvent::Forwarded { ok } => {
            if ok {
                next_read(flow)
            } else {
                ReaderAction::Stop
            }
        },
    }
}

/// Whether `action` is to read on, or to wait until that is wanted again.
pub open spec fn goes_on(action: ReaderAction, paused: bool) -> bool {
    if paused {
        action is AwaitResume
    } else {
        action is Read
    }
}

fn next_read(flow: &StreamFlowControl) -> (action: ReaderAction)
    ensures
        goes_on(action, flow@.read_paused),
{
    if flow.is_read_paused() {
        ReaderAction::AwaitResume
    } else {
        ReaderAction::Read
    }
}

/// The bytes of the pieces, one after the other.
pub open spec fn joined(pieces: Seq<Seq<u8>>) -> Seq<u8>
    decreases pieces.len(),
{
    if pieces.len() == 0 {
        seq![]
    } else {
        joined(pieces.drop_last()) + pieces.last()
    }
}

/// The messages about a new stream from whose socket the pieces were read.
pub open spec fn stream_messages(id: u64, pieces: Seq<Seq<u8>>) -> Seq<ChannelMessageView> {
    seq![ChannelMessageView::Connect(id)] + pieces.map_values(
        |bytes: Seq<u8>| ChannelMessageView::Data(id, bytes),
    )
}

proof fn lemma_stream_messages(id: u64, pieces: Seq<Seq<u8>>)
    ensures
        stream_multiplexer::data_bytes(stream_messages(id, pieces)) == joined(pieces),
    decreases pieces.len(),
{
    let msgs = stream_messages(id, pieces);
    if pieces.len() == 0 {
        assert(stream_multiplexer::data_bytes(msgs.drop_last()) =~= seq![]);
        assert(msgs.last() is Connect);
        assert(stream_multiplexer::data_bytes(msgs) =~= seq![]);
    } else {
        lemma_stream_messages(id, pieces.drop_last());
        assert(msgs.drop_last() =~= stream_messages(id, pieces.drop_last()));
        assert(msgs.last() == ChannelMessageView::Data(id, pieces.last()));
    }
}

/// From socket to socket: what is put into the queue of a stream at one end,
/// to be written to its socket, is what was read from its socket at the other,
/// whatever the other streams send meanwhile.
pub proof fn law_socket_to_socket(
    open: Set<u64>,
    msgs: Seq<ChannelMessageView>,
    id: u64,
    pieces: Seq<Seq<u8>>,
)
    requires
        stream_multiplexer::about(msgs, id) == stream_messages(id, pieces),
    ensures
        stream_multiplexer::delivered(open, msgs, id) == joined(pieces),
{
    let mine = stream_messages(id, pieces);
    assert(mine[0] == ChannelMessageView::Connect(id));
    assert forall|i: int| 0 <= i < mine.len() implies !(#[trigger] mine[i] is Disconnect) && !(
    mine[i] is Error) by {
        if i > 0 {
            assert(mine[i] == ChannelMessageView::Data(id, pieces[i - 1]));
        }
    }
    stream_multiplexer::law_stream_gets_what_was_sent(open, msgs, id);
    lemma_stream_messages(id, pieces);
}

/// While the other end is paused nothing is read from the socket, and otherwise
/// reading goes on.
pub proof fn law_paused_stream_is_not_read(action: ReaderAction, paused: bool)
    ensures
        goes_on(action, true) <==> action is AwaitResume,
        goes_on(action, false) <==> action is Read,
{
}

/// Every byte that is read from the socket is sent on, in the stream's name, and
/// only the end of the socket, a failure or a call to stop ends the reading.
pub proof fn law_what_is_read_is_sent_on(
    flow: &StreamFlowControl,
    stream_id: OngoingStreamId,
    event: ReaderEvent,
    action: ReaderAction,
)
    requires
        call_ensures(reader_step, (flow, stream_id, event), action),
    ensures
        event matches ReaderEvent::Read(bytes) ==> (bytes@.len() > 0 ==> (
        action matches ReaderAction::Forward(m) && m@ == ChannelMessageView::Data(
            stream_id.0,
            bytes@,
        ))),
        action is Forward ==> event is Read,
        action is Stop <==> {
            ||| event is Cancelled
            ||| event == (ReaderEvent::ReadFailed { interrupted: false })
            ||| event == (ReaderEvent::Forwarded { ok: false })
            ||| event matches ReaderEvent::Read(bytes) && bytes@.len() == 0
        },
        action is Read ==> !flow@.read_paused,
        action is AwaitResume ==> flow@.read_paused,
{
}

} // verus!
