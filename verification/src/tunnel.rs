//! What the tunnel as a whole achieves: the multiplexer over the reconnecting
//! stream.

use crate::channel_message;
use crate::channel_message::ChannelMessageView;
use crate::delivery;
use crate::framing;
use crate::internal_stream;
use crate::stream_multiplexer;
use vstd::prelude::*;

verus! {

/// The multiplexer's messages as it hands them to the reconnecting stream.
pub open spec fn handed_over(msgs: Seq<ChannelMessageView>) -> Seq<Seq<u8>> {
    msgs.map_values(|m: ChannelMessageView| m.encoded())
}

/// What the multiplexer at the other end makes of what it has been given.
pub open spec fn made_of(given: Seq<Seq<u8>>) -> framing::Drained<ChannelMessageView, Seq<char>> {
    framing::drain(channel_message::message_parser(), internal_stream::joined(given))
}

proof fn lemma_joined_encodings(msgs: Seq<ChannelMessageView>)
    ensures
        internal_stream::joined(handed_over(msgs)) == framing::encode_all(
            channel_message::message_encoder(),
            msgs,
        ),
    decreases msgs.len(),
{
    if msgs.len() > 0 {
        let before = msgs.drop_last();
        lemma_joined_encodings(before);
        framing::lemma_encode_all_push(channel_message::message_encoder(), before, msgs.last());
        assert(before.push(msgs.last()) =~= msgs);
        assert(handed_over(msgs).drop_last() =~= handed_over(before));
    }
}

proof fn lemma_delivered_grows(open: Set<u64>, msgs: Seq<ChannelMessageView>, k: int, id: u64)
    requires
        0 <= k <= msgs.len(),
    ensures
        stream_multiplexer::delivered(open, msgs.take(k), id).is_prefix_of(
            stream_multiplexer::delivered(open, msgs, id),
        ),
    decreases msgs.len(),
{
    if k == msgs.len() {
        assert(msgs.take(k) =~= msgs);
    } else {
        lemma_delivered_grows(open, msgs.drop_last(), k, id);
        assert(msgs.drop_last().take(k) =~= msgs.take(k));
    }
}

/// At any time, whatever has become of the connections, the multiplexer at the
/// right end has read the first messages that the one at the left end has sent,
/// unchanged and in order, and nothing else.
pub proof fn law_messages_cross_the_tunnel(
    run: Seq<delivery::System>,
    i: int,
    msgs: Seq<ChannelMessageView>,
)
    requires
        delivery::is_run(run),
        0 <= i < run.len(),
        run[i].left.accepted == handed_over(msgs),
        forall|j: int| 0 <= j < msgs.len() ==> (#[trigger] msgs[j]).fits(),
    ensures
        ({
            let given = run[i].right.delivered;
            &&& given.len() <= msgs.len()
            &&& made_of(given).messages == msgs.take(given.len() as int)
            &&& made_of(given).rest == Seq::<u8>::empty()
            &&& made_of(given).error is None
        }),
{
    delivery::law_delivered_in_order(run, i);
    let given = run[i].right.delivered;
    let first = msgs.take(given.len() as int);
    let none = Seq::<u8>::empty();
    assert(given =~= handed_over(first));
    lemma_joined_encodings(first);
    channel_message::law_messages_survive(first, none);
    let sent = framing::encode_all(channel_message::message_encoder(), first);
    assert(sent + none =~= sent);
    assert(first + framing::drain(channel_message::message_parser(), none).messages =~= first);
}

/// At any time, whatever has become of the connections and whatever the other
/// streams have sent, the bytes for a stream that have arrived are the first
/// that were sent to it; and all of them, once everything that was handed over
/// has been delivered.
pub proof fn law_bytes_cross_the_tunnel(
    run: Seq<delivery::System>,
    i: int,
    msgs: Seq<ChannelMessageView>,
    open: Set<u64>,
    id: u64,
)
    requires
        delivery::is_run(run),
        0 <= i < run.len(),
        run[i].left.accepted == handed_over(msgs),
        forall|j: int| 0 <= j < msgs.len() ==> (#[trigger] msgs[j]).fits(),
        stream_multiplexer::stays_open(open, stream_multiplexer::about(msgs, id), id),
    ensures
        ({
            let given = run[i].right.delivered;
            let arrived = stream_multiplexer::delivered(open, made_of(given).messages, id);
            let sent = stream_multiplexer::data_bytes(stream_multiplexer::about(msgs, id));
            &&& arrived.is_prefix_of(sent)
            &&& given.len() == msgs.len() ==> arrived == sent
        }),
{
    law_messages_cross_the_tunnel(run, i, msgs);
    let k = run[i].right.delivered.len() as int;
    lemma_delivered_grows(open, msgs, k, id);
    stream_multiplexer::law_stream_gets_what_was_sent(open, msgs, id);
    if k == msgs.len() {
        assert(msgs.take(k) =~= msgs);
    }
}

} // verus!
