//! Why the reconnecting stream is reliable.
//!
//! Two ends, any number of connections between them, and every way in which
//! the ends may open, use, lose and abandon those connections: whatever
//! happens, each application receives the messages that the other one sent, in
//! the order in which they were sent, each once and none left out. The ends
//! act by the same rules that [`StreamSession`](crate::reconnecting_stream)
//! decides by.

use crate::reconnecting_stream;
use crate::reconnecting_stream::{
    SessionEventView, SessionPhase, SessionStepView, StreamStateView,
};
use crate::stream_codec::StreamCodecMessageView;
use vstd::prelude::*;

verus! {

/// One end, with what has passed between it and its application.
#[verifier::ext_equal]
pub struct Endpoint {
    pub state: StreamStateView,
    /// The messages that the application has handed over, in order.
    pub accepted: Seq<Seq<u8>>,
    /// The messages that the application has been given, in order.
    pub delivered: Seq<Seq<u8>>,
    /// The connection in use.
    pub conn: Option<int>,
    pub phase: SessionPhase,
    /// Connections before this one are not used again.
    pub next_conn: int,
}

/// Two ends and the messages on their way between them, for each connection in
/// the order in which they were written.
#[verifier::ext_equal]
pub struct System {
    pub left: Endpoint,
    pub right: Endpoint,
    pub to_right: Seq<Seq<StreamCodecMessageView>>,
    pub to_left: Seq<Seq<StreamCodecMessageView>>,
}

/// The same two ends, seen from the other side.
pub open spec fn mirror(s: System) -> System {
    System { left: s.right, right: s.left, to_right: s.to_left, to_left: s.to_right }
}

/// What the left end may do.
pub enum Move {
    /// A connection comes into being.
    Open,
    /// The application hands over a message.
    Offer(Seq<u8>),
    /// The end takes a connection into use.
    Attach(int),
    /// The end reads the next message of its connection.
    Receive,
    /// The end's session is told to give its connection up: it is lost, or not
    /// wanted any more.
    Leave(SessionEventView),
}

/// Whether the left end can make the move. A message fits the encoding and is
/// taken while the window is not used up, as long as messages can be counted;
/// connections are taken into use in order.
pub open spec fn enabled(s: System, m: Move) -> bool {
    match m {
        Move::Open => true,
        Move::Offer(d) => {
            &&& !s.left.state.is_full()
            &&& d.len() <= u32::MAX
            &&& s.left.state.unacked.len() < usize::MAX
            &&& s.left.accepted.len() < u64::MAX
            &&& s.left.conn is Some ==> s.left.phase is Established
        },
        Move::Attach(c) => s.left.conn is None && s.left.next_conn <= c < s.to_right.len(),
        Move::Receive => {
            &&& s.left.conn matches Some(c)
            &&& 0 <= c < s.to_left.len()
            &&& s.to_left[c].len() > 0
            &&& reconnecting_stream::session_accepts(
                s.left.phase,
                s.left.state,
                SessionEventView::TcpMessage(s.to_left[c][0]),
            )
        },
        Move::Leave(event) => {
            &&& s.left.conn is Some
            &&& event is TcpClosed || event is Killed || event is AppClosed
            &&& reconnecting_stream::session_accepts(s.left.phase, s.left.state, event)
        },
    }
}

/// What an end has once a step of its session is carried out.
pub open spec fn stepped(
    e: Endpoint,
    phase: SessionPhase,
    state: StreamStateView,
    v: SessionStepView,
) -> Endpoint {
    Endpoint {
        state,
        phase,
        conn: if v.end is Some {
            None
        } else {
            e.conn
        },
        delivered: match v.delivered {
            Some(d) => e.delivered.push(d),
            None => e.delivered,
        },
        ..e
    }
}

/// What the move of the left end leads to.
pub open spec fn after(s: System, m: Move) -> System {
    match m {
        Move::Open => System {
            to_right: s.to_right.push(seq![]),
            to_left: s.to_left.push(seq![]),
            ..s
        },
        Move::Offer(d) => {
            let accepted = s.left.accepted.push(d);
            match s.left.conn {
                None => System {
                    left: Endpoint { state: s.left.state.enqueued(d), accepted, ..s.left },
                    ..s
                },
                Some(c) => {
                    let (phase, state, v) = reconnecting_stream::session_step(
                        s.left.phase,
                        s.left.state,
                        SessionEventView::AppData(d),
                    );
                    System {
                        left: Endpoint { accepted, ..stepped(s.left, phase, state, v) },
                        to_right: s.to_right.update(c, s.to_right[c] + v.sent),
                        ..s
                    }
                },
            }
        },
        Move::Attach(c) => System {
            left: Endpoint {
                conn: Some(c),
                phase: SessionPhase::AwaitingHello,
                next_conn: c + 1,
                ..s.left
            },
            to_right: s.to_right.update(
                c,
                s.to_right[c].push(StreamCodecMessageView::Hello(s.left.state.hello())),
            ),
            ..s
        },
        Move::Receive => {
            let c = s.left.conn->0;
            let (phase, state, v) = reconnecting_stream::session_step(
                s.left.phase,
                s.left.state,
                SessionEventView::TcpMessage(s.to_left[c][0]),
            );
            System {
                left: stepped(s.left, phase, state, v),
                to_right: s.to_right.update(c, s.to_right[c] + v.sent),
                to_left: s.to_left.update(c, s.to_left[c].drop_first()),
                ..s
            }
        },
        Move::Leave(event) => {
            let c = s.left.conn->0;
            let (phase, state, v) = reconnecting_stream::session_step(
                s.left.phase,
                s.left.state,
                event,
            );
            System {
                left: stepped(s.left, phase, state, v),
                to_right: s.to_right.update(c, s.to_right[c] + v.sent),
                ..s
            }
        },
    }
}

/// An end that is new.
pub open spec fn initial_end(e: Endpoint) -> bool {
    &&& e.state == StreamStateView::fresh(e.state.id, e.state.window)
    &&& e.accepted =~= seq![]
    &&& e.delivered =~= seq![]
    &&& e.conn is None
    &&& e.next_conn == 0
}

/// Two new ends and no connection yet.
pub open spec fn initial(s: System) -> bool {
    &&& initial_end(s.left)
    &&& initial_end(s.right)
    &&& s.to_right =~= seq![]
    &&& s.to_left =~= seq![]
}

/// Whether `m`, made by the left end or by the right one, leads from `s` to
/// `t`.
pub open spec fn leads_to(s: System, m: Move, t: System) -> bool {
    ||| enabled(s, m) && t == after(s, m)
    ||| enabled(mirror(s), m) && mirror(t) == after(mirror(s), m)
}

/// Whether some move leads from `s` to `t`.
pub open spec fn follows(s: System, t: System) -> bool {
    exists|m: Move| leads_to(s, m, t)
}

/// A run: the ends start out new, and each state follows from the one before
/// by some move.
pub open spec fn is_run(run: Seq<System>) -> bool {
    &&& run.len() > 0
    &&& initial(run[0])
    &&& forall|i: int|
        0 <= i < run.len() - 1 ==> follows(#[trigger] run[i], run[i + 1])
}

/// The payloads of the data messages on a wire.
pub open spec fn data_of(wire: Seq<StreamCodecMessageView>) -> Seq<Seq<u8>>
    decreases wire.len(),
{
    if wire.len() == 0 {
        seq![]
    } else {
        match wire.last() {
            StreamCodecMessageView::Data(d) => data_of(wire.drop_last()).push(d),
            _ => data_of(wire.drop_last()),
        }
    }
}

/// The number of received messages that a message tells of.
pub open spec fn count_of(m: StreamCodecMessageView) -> Option<u64> {
    match m {
        StreamCodecMessageView::Hello(hm) => Some(hm.sender_last_rx),
        StreamCodecMessageView::Ack(seq) => Some(seq),
        StreamCodecMessageView::Data(_) => None,
    }
}

/// Whether the end has yet to read the first message of connection `c`.
spec fn unread_by(e: Endpoint, c: int) -> bool {
    c >= e.next_conn || (e.conn == Some(c) && e.phase is AwaitingHello)
}

/// The end's connection is one that exists and the last that it took.
spec fn end_ok(s: System) -> bool {
    &&& s.to_right.len() == s.to_left.len()
    &&& 0 <= s.left.next_conn <= s.to_right.len()
    &&& s.left.conn matches Some(c) ==> {
        &&& 0 <= c
        &&& s.left.next_conn == c + 1
        &&& !(s.left.phase is Ended)
    }
}

/// The left end keeps what it has accepted and not seen acknowledged.
spec fn sender_ok(s: System) -> bool {
    &&& s.left.accepted.len() <= u64::MAX
    &&& s.left.state.unacked.len() <= usize::MAX
    &&& s.left.state.base_offset + s.left.state.unacked.len() == s.left.accepted.len()
    &&& s.left.state.unacked =~= s.left.accepted.skip(s.left.state.base_offset as int)
    &&& forall|i: int|
        0 <= i < s.left.accepted.len() ==> (#[trigger] s.left.accepted[i]).len() <= u32::MAX
}

/// The right end has delivered the first messages that the left one accepted.
spec fn receiver_ok(s: System) -> bool {
    &&& s.right.delivered.len() == s.right.state.received_seq
    &&& s.right.delivered.len() <= s.left.accepted.len()
    &&& s.right.delivered =~= s.left.accepted.take(s.right.delivered.len() as int)
    &&& s.left.state.base_offset <= s.right.state.received_seq
}

/// What the right end writes tells of ever more received messages, and never of
/// more than it has.
spec fn counts_ok(s: System) -> bool {
    let w = s.to_left;
    &&& forall|c: int, i: int, c2: int, j: int|
        0 <= c < w.len() && 0 <= c2 < w.len() && 0 <= i < w[c].len() && 0 <= j < w[c2].len() && (c
            < c2 || (c == c2 && i <= j)) && count_of(#[trigger] w[c][i]) is Some && count_of(
            #[trigger] w[c2][j],
        ) is Some ==> count_of(w[c][i])->0 <= count_of(w[c2][j])->0
    &&& forall|c: int, i: int|
        0 <= c < w.len() && 0 <= i < w[c].len() && count_of(#[trigger] w[c][i]) is Some
            ==> count_of(w[c][i])->0 <= s.right.state.received_seq
    &&& forall|c: int, i: int|
        0 <= c < w.len() && 0 <= i < w[c].len() && count_of(#[trigger] w[c][i]) is Some && (c
            >= s.left.next_conn || s.left.conn == Some(c)) ==> count_of(w[c][i])->0
            >= s.left.state.base_offset
    &&& forall|c: int|
        s.right.next_conn <= c < w.len() ==> (#[trigger] w[c]).len() == 0
}

/// A hello comes first on each connection and only there, and is the right
/// end's.
spec fn hellos_ok(s: System) -> bool {
    let w = s.to_left;
    &&& s.left.state.remote_id is None || s.left.state.remote_id == Some(s.right.state.id)
    &&& forall|c: int, i: int|
        0 <= c < w.len() && 0 <= i < w[c].len() ==> {
            &&& (#[trigger] w[c][i]) matches StreamCodecMessageView::Hello(hm) ==> hm.sender_id
                == s.right.state.id
            &&& i > 0 ==> !(w[c][i] is Hello)
            &&& s.left.conn == Some(c) && s.left.phase is Established ==> !(w[c][i] is Hello)
            &&& unread_by(s.left, c) && i == 0 ==> w[c][i] is Hello
        }
}

/// On the connection that the right end uses, the next messages that it lacks
/// are on their way; all of them, where the left end is using it too.
spec fn data_ok(s: System) -> bool {
    let w = s.to_right;
    let rx = s.right.state.received_seq as int;
    &&& s.right.conn matches Some(c) ==> {
        let d = data_of(w[c]);
        &&& rx + d.len() <= s.left.accepted.len()
        &&& d =~= s.left.accepted.subrange(rx, rx + d.len())
        &&& s.left.conn == Some(c) && s.left.phase is Established ==> rx + d.len()
            == s.left.accepted.len()
        &&& unread_by(s.left, c) ==> {
            &&& d.len() == 0
            &&& s.to_left[c].len() > 0
            &&& count_of(s.to_left[c][0]) == Some(s.right.state.received_seq)
        }
    }
    &&& forall|c: int|
        s.right.next_conn <= c < w.len() ==> data_of(#[trigger] w[c]).len() == 0
    &&& s.left.conn matches Some(c) ==> (s.left.phase is Established ==> c < s.right.next_conn)
}

spec fn flows(s: System) -> bool {
    &&& end_ok(s)
    &&& sender_ok(s)
    &&& receiver_ok(s)
    &&& counts_ok(s)
    &&& hellos_ok(s)
    &&& data_ok(s)
}

#[verifier::opaque]
spec fn inv(s: System) -> bool {
    flows(s) && flows(mirror(s))
}

proof fn lemma_data_of_push(wire: Seq<StreamCodecMessageView>, m: StreamCodecMessageView)
    ensures
        data_of(wire.push(m)) == match m {
            StreamCodecMessageView::Data(d) => data_of(wire).push(d),
            _ => data_of(wire),
        },
{
    assert(wire.push(m).drop_last() =~= wire);
}

proof fn lemma_data_of_concat(a: Seq<StreamCodecMessageView>, b: Seq<StreamCodecMessageView>)
    ensures
        data_of(a + b) == data_of(a) + data_of(b),
    decreases b.len(),
{
    if b.len() == 0 {
        assert(a + b =~= a);
        assert(data_of(a) + data_of(b) =~= data_of(a));
    } else {
        lemma_data_of_concat(a, b.drop_last());
        assert((a + b).drop_last() =~= a + b.drop_last());
        assert((a + b).last() == b.last());
        assert(data_of(a + b) =~= data_of(a) + data_of(b));
    }
}

proof fn lemma_data_of_first(wire: Seq<StreamCodecMessageView>)
    requires
        wire.len() > 0,
    ensures
        wire[0] matches StreamCodecMessageView::Data(d) ==> {
            &&& data_of(wire).len() > 0
            &&& data_of(wire)[0] == d
            &&& data_of(wire.drop_first()) == data_of(wire).drop_first()
        },
        !(wire[0] is Data) ==> data_of(wire.drop_first()) == data_of(wire),
{
    let head = seq![wire[0]];
    assert(wire =~= head + wire.drop_first());
    lemma_data_of_concat(head, wire.drop_first());
    assert(head.drop_last() =~= seq![]);
    assert(data_of(seq![]) =~= seq![]);
    if let StreamCodecMessageView::Data(d) = wire[0] {
        assert(data_of(head) =~= seq![d]);
        assert(data_of(wire).drop_first() =~= data_of(wire.drop_first()));
    } else {
        assert(data_of(head) =~= seq![]);
        assert(data_of(wire) =~= data_of(wire.drop_first()));
    }
}

proof fn lemma_data_of_unacked(state: StreamStateView)
    ensures
        data_of(state.unacked_messages()) == state.unacked,
    decreases state.unacked.len(),
{
    let wire = state.unacked_messages();
    if state.unacked.len() == 0 {
        assert(data_of(wire) =~= state.unacked);
    } else {
        let shorter = StreamStateView { unacked: state.unacked.drop_last(), ..state };
        lemma_data_of_unacked(shorter);
        assert(wire.drop_last() =~= shorter.unacked_messages());
        assert(data_of(wire) =~= state.unacked);
    }
}

proof fn lemma_initial(s: System)
    requires
        initial(s),
    ensures
        inv(s),
{
    reveal(inv);
}

proof fn lemma_open(s: System)
    requires
        inv(s),
    ensures
        inv(after(s, Move::Open)),
{
    reveal(inv);
}

proof fn lemma_leave(s: System, event: SessionEventView)
    requires
        inv(s),
        enabled(s, Move::Leave(event)),
    ensures
        inv(after(s, Move::Leave(event))),
{
    reveal(inv);
    let t = after(s, Move::Leave(event));
    let c = s.left.conn->0;
    assert(s.to_right[c] + seq![] =~= s.to_right[c]);
    assert(t.to_right =~= s.to_right);
}

proof fn lemma_attach(s: System, c: int)
    requires
        inv(s),
        enabled(s, Move::Attach(c)),
    ensures
        inv(after(s, Move::Attach(c))),
{
    reveal(inv);
    let t = after(s, Move::Attach(c));
    lemma_data_of_push(s.to_right[c], StreamCodecMessageView::Hello(s.left.state.hello()));
    assert(flows(t));
    assert(flows(mirror(t)));
}

proof fn lemma_offer(s: System, d: Seq<u8>)
    requires
        inv(s),
        enabled(s, Move::Offer(d)),
    ensures
        inv(after(s, Move::Offer(d))),
{
    reveal(inv);
    let t = after(s, Move::Offer(d));
    if let Some(c) = s.left.conn {
        let m = StreamCodecMessageView::Data(d);
        assert(s.to_right[c] + seq![m] =~= s.to_right[c].push(m));
        lemma_data_of_push(s.to_right[c], m);
    }
    assert(flows(t));
    assert(flows(mirror(t)));
}

proof fn lemma_receive_hello(s: System)
    requires
        inv(s),
        enabled(s, Move::Receive),
        s.left.phase is AwaitingHello,
    ensures
        inv(after(s, Move::Receive)),
        after(s, Move::Receive).left.conn == s.left.conn,
{
    reveal(inv);
    let t = after(s, Move::Receive);
    let c = s.left.conn->0;
    assert(s.to_left[c][0] is Hello);
    let hm = s.to_left[c][0]->Hello_0;
    let met = s.left.state.met(hm.sender_id);
    assert(met.ack_error(hm.sender_last_rx) is None);
    let acked = met.acked(hm.sender_last_rx);
    lemma_data_of_unacked(acked);
    lemma_data_of_concat(s.to_right[c], acked.unacked_messages());
    lemma_data_of_first(s.to_left[c]);
    assert(flows(t));
    assert(flows(mirror(t)));
}

proof fn lemma_receive_ack(s: System)
    requires
        inv(s),
        enabled(s, Move::Receive),
        s.left.phase is Established,
        s.to_left[s.left.conn->0][0] is Ack,
    ensures
        inv(after(s, Move::Receive)),
        after(s, Move::Receive).left.conn == s.left.conn,
{
    reveal(inv);
    let t = after(s, Move::Receive);
    let c = s.left.conn->0;
    lemma_data_of_first(s.to_left[c]);
    assert(s.to_right[c] + seq![] =~= s.to_right[c]);
    assert(flows(t));
    assert(flows(mirror(t)));
}

proof fn lemma_receive_data(s: System)
    requires
        inv(s),
        enabled(s, Move::Receive),
        s.left.phase is Established,
        s.to_left[s.left.conn->0][0] is Data,
    ensures
        inv(after(s, Move::Receive)),
        after(s, Move::Receive).left.conn == s.left.conn,
{
    reveal(inv);
    let t = after(s, Move::Receive);
    let c = s.left.conn->0;
    let m = StreamCodecMessageView::Ack(t.left.state.received_seq);
    lemma_data_of_first(s.to_left[c]);
    assert(s.to_right[c] + seq![m] =~= s.to_right[c].push(m));
    lemma_data_of_push(s.to_right[c], m);
    assert(flows(t));
    assert(flows(mirror(t)));
}

/// The next message of the end's connection is always one that its session
/// expects.
proof fn lemma_receivable(s: System)
    requires
        inv(s),
        s.left.conn is Some,
        s.to_left[s.left.conn->0].len() > 0,
    ensures
        enabled(s, Move::Receive),
        s.left.phase is AwaitingHello ==> s.to_left[s.left.conn->0][0] is Hello,
        s.left.phase is Established ==> !(s.to_left[s.left.conn->0][0] is Hello),
        after(s, Move::Receive).left.conn == s.left.conn,
{
    reveal(inv);
    let c = s.left.conn->0;
    let m = s.to_left[c][0];
    if let StreamCodecMessageView::Hello(hm) = m {
        assert(s.left.phase is AwaitingHello);
        assert(s.left.state.ack_error(hm.sender_last_rx) is None);
        assert(s.left.state.acked(hm.sender_last_rx).resendable());
        lemma_receive_hello(s);
    } else if let StreamCodecMessageView::Ack(seq) = m {
        assert(s.left.phase is Established);
        lemma_receive_ack(s);
    } else {
        assert(s.left.phase is Established);
        assert(mirror(s).right.conn == Some(c));
        lemma_data_of_first(s.to_left[c]);
        assert(data_of(mirror(s).to_right[c]).len() > 0);
        lemma_receive_data(s);
    }
}

proof fn lemma_move(s: System, m: Move)
    requires
        inv(s),
        enabled(s, m),
    ensures
        inv(after(s, m)),
{
    match m {
        Move::Open => lemma_open(s),
        Move::Offer(d) => lemma_offer(s, d),
        Move::Attach(c) => lemma_attach(s, c),
        Move::Leave(event) => lemma_leave(s, event),
        Move::Receive => {
            lemma_receivable(s);
            if s.left.phase is AwaitingHello {
                lemma_receive_hello(s);
            } else if s.to_left[s.left.conn->0][0] is Ack {
                lemma_receive_ack(s);
            } else {
                lemma_receive_data(s);
            }
        },
    }
}

proof fn lemma_run(run: Seq<System>, i: int)
    requires
        is_run(run),
        0 <= i < run.len(),
    ensures
        inv(run[i]),
    decreases i,
{
    reveal(inv);
    if i == 0 {
        lemma_initial(run[0]);
    } else {
        lemma_run(run, i - 1);
        let s = run[i - 1];
        let t = run[i];
        assert(follows(run[i - 1], run[i - 1 + 1]));
        let m = choose|m: Move| leads_to(s, m, t);
        if enabled(s, m) && t == after(s, m) {
            lemma_move(s, m);
        } else {
            lemma_move(mirror(s), m);
            assert(mirror(mirror(s)) =~= s);
            assert(mirror(mirror(t)) =~= t);
        }
    }
}

/// Whatever becomes of the connections, each application has received the
/// first messages that the other one handed over: in order, each once, none
/// left out, none made up.
pub proof fn law_delivered_in_order(run: Seq<System>, i: int)
    requires
        is_run(run),
        0 <= i < run.len(),
    ensures
        run[i].right.delivered.is_prefix_of(run[i].left.accepted),
        run[i].left.delivered.is_prefix_of(run[i].right.accepted),
{
    reveal(inv);
    lemma_run(run, i);
}

/// An end never drops a message that has not been received: what it keeps,
/// together with what has been acknowledged, is all that it was handed, and
/// what has been acknowledged has been delivered. What an end says that it has
/// received is what its application has been given.
pub proof fn law_kept_until_delivered(run: Seq<System>, i: int)
    requires
        is_run(run),
        0 <= i < run.len(),
    ensures
        ({
            let s = run[i];
            let base = s.left.state.base_offset as int;
            &&& s.right.delivered.len() == s.right.state.received_seq
            &&& base <= s.right.delivered.len()
            &&& s.left.accepted == s.right.delivered.take(base) + s.left.state.unacked
        }),
        ({
            let s = run[i];
            let base = s.right.state.base_offset as int;
            &&& s.left.delivered.len() == s.left.state.received_seq
            &&& base <= s.left.delivered.len()
            &&& s.right.accepted == s.left.delivered.take(base) + s.right.state.unacked
        }),
{
    reveal(inv);
    lemma_run(run, i);
    let s = run[i];
    assert(s.left.accepted =~= s.right.delivered.take(s.left.state.base_offset as int)
        + s.left.state.unacked);
    assert(s.right.accepted =~= s.left.delivered.take(s.right.state.base_offset as int)
        + s.right.state.unacked);
}

/// While both ends use the same connection and are past the hellos, all that
/// has been handed over and not delivered is on its way.
pub proof fn law_missing_messages_are_on_their_way(run: Seq<System>, i: int)
    requires
        is_run(run),
        0 <= i < run.len(),
        run[i].left.conn is Some,
        run[i].left.conn == run[i].right.conn,
        run[i].left.phase is Established,
        run[i].right.phase is Established,
    ensures
        ({
            let s = run[i];
            let c = s.left.conn->0;
            &&& s.left.accepted == s.right.delivered + data_of(s.to_right[c])
            &&& s.right.accepted == s.left.delivered + data_of(s.to_left[c])
        }),
{
    reveal(inv);
    lemma_run(run, i);
    let s = run[i];
    let c = s.left.conn->0;
    assert(mirror(s).right.conn == Some(c));
    assert(s.left.accepted =~= s.right.delivered + data_of(s.to_right[c]));
    assert(s.right.accepted =~= s.left.delivered + data_of(s.to_left[c]));
}

/// The two ends never refuse each other: the next message of a connection is
/// always one that the end can handle, and handling it does not end the
/// connection.
pub proof fn law_never_refused(run: Seq<System>, i: int)
    requires
        is_run(run),
        0 <= i < run.len(),
    ensures
        ({
            let s = run[i];
            s.left.conn matches Some(c) ==> s.to_left[c].len() > 0 ==> {
                let event = SessionEventView::TcpMessage(s.to_left[c][0]);
                &&& reconnecting_stream::session_accepts(s.left.phase, s.left.state, event)
                &&& reconnecting_stream::session_step(s.left.phase, s.left.state, event).2.end
                    is None
            }
        }),
        ({
            let s = run[i];
            s.right.conn matches Some(c) ==> s.to_right[c].len() > 0 ==> {
                let event = SessionEventView::TcpMessage(s.to_right[c][0]);
                &&& reconnecting_stream::session_accepts(s.right.phase, s.right.state, event)
                &&& reconnecting_stream::session_step(s.right.phase, s.right.state, event).2.end
                    is None
            }
        }),
{
    reveal(inv);
    lemma_run(run, i);
    let s = run[i];
    if s.left.conn is Some && s.to_left[s.left.conn->0].len() > 0 {
        lemma_receivable(s);
    }
    if s.right.conn is Some && s.to_right[s.right.conn->0].len() > 0 {
        assert(mirror(mirror(s)) =~= s);
        lemma_receivable(mirror(s));
    }
}

/// A move of the right end.
pub open spec fn after_right(s: System, m: Move) -> System {
    mirror(after(mirror(s), m))
}

/// The states through which two unconnected ends go when they connect anew and
/// read each other's hello.
#[verifier::opaque]
pub open spec fn reconnection(s: System) -> Seq<System> {
    let c = s.to_right.len() as int;
    let opened = after(s, Move::Open);
    let left_attached = after(opened, Move::Attach(c));
    let both_attached = after_right(left_attached, Move::Attach(c));
    let left_greeted = after(both_attached, Move::Receive);
    let both_greeted = after_right(left_greeted, Move::Receive);
    seq![opened, left_attached, both_attached, left_greeted, both_greeted]
}

/// A run goes on with states that follow one from the other.
proof fn lemma_run_extend(run: Seq<System>, more: Seq<System>)
    requires
        is_run(run),
        more.len() > 0,
        follows(run.last(), more[0]),
        forall|i: int| 0 <= i < more.len() - 1 ==> follows(#[trigger] more[i], more[i + 1]),
    ensures
        is_run(run + more),
{
    let longer = run + more;
    assert forall|i: int| 0 <= i < longer.len() - 1 implies follows(
        #[trigger] longer[i],
        longer[i + 1],
    ) by {
        if i < run.len() - 1 {
            assert(follows(run[i], run[i + 1]));
        } else if i > run.len() - 1 {
            assert(follows(more[i - run.len()], more[i - run.len() + 1]));
        }
    }
}

/// Both ends use connection `c` and have written their hello to it.
spec fn both_attached(s: System, c: int) -> bool {
    &&& inv(s)
    &&& s.left.conn == Some(c) && s.left.phase is AwaitingHello
    &&& s.right.conn == Some(c) && s.right.phase is AwaitingHello
    &&& s.to_left[c].len() > 0
    &&& s.to_right[c].len() > 0
}

proof fn lemma_attach_both(s: System)
    requires
        inv(s),
        s.left.conn is None,
        s.right.conn is None,
    ensures
        ({
            let c = s.to_right.len() as int;
            let states = reconnection(s);
            &&& follows(s, states[0])
            &&& follows(states[0], states[1])
            &&& follows(states[1], states[2])
            &&& both_attached(states[2], c)
            &&& states[2].left.accepted == s.left.accepted
            &&& states[2].right.accepted == s.right.accepted
        }),
{
    reveal(inv);
    reveal(reconnection);
    let c = s.to_right.len() as int;
    let opened = after(s, Move::Open);
    let one = after(opened, Move::Attach(c));
    let two = after_right(one, Move::Attach(c));
    lemma_open(s);
    assert(enabled(opened, Move::Attach(c)));
    lemma_attach(opened, c);
    assert(mirror(mirror(one)) =~= one);
    assert(enabled(mirror(one), Move::Attach(c)));
    lemma_attach(mirror(one), c);
    assert(mirror(two) =~= after(mirror(one), Move::Attach(c)));
    assert(mirror(mirror(two)) =~= two);
    assert(leads_to(s, Move::Open, opened));
    assert(leads_to(opened, Move::Attach(c), one));
    assert(leads_to(one, Move::Attach(c), two));
}

proof fn lemma_greet_left(s: System, c: int)
    requires
        both_attached(s, c),
    ensures
        ({
            let t = after(s, Move::Receive);
            &&& follows(s, t)
            &&& inv(t)
            &&& t.left.conn == Some(c) && t.left.phase is Established
            &&& t.right == s.right
            &&& t.to_right[c].len() > 0
            &&& t.left.accepted == s.left.accepted
        }),
{
    reveal(inv);
    lemma_receivable(s);
    lemma_receive_hello(s);
    assert(leads_to(s, Move::Receive, after(s, Move::Receive)));
}

proof fn lemma_greet_right(s: System, c: int)
    requires
        inv(s),
        s.left.conn == Some(c) && s.left.phase is Established,
        s.right.conn == Some(c) && s.right.phase is AwaitingHello,
        s.to_right[c].len() > 0,
    ensures
        ({
            let t = after_right(s, Move::Receive);
            &&& follows(s, t)
            &&& t.left == s.left
            &&& t.right.conn == Some(c) && t.right.phase is Established
            &&& t.right.accepted == s.right.accepted
        }),
{
    reveal(inv);
    let m = mirror(s);
    assert(mirror(m) =~= s);
    lemma_receivable(m);
    lemma_receive_hello(m);
    assert(mirror(after_right(s, Move::Receive)) =~= after(m, Move::Receive));
    assert(leads_to(s, Move::Receive, after_right(s, Move::Receive)));
}

/// The states of a reconnection follow one from the other, and the last is past
/// the hellos.
proof fn lemma_reconnection(s: System)
    requires
        inv(s),
        s.left.conn is None,
        s.right.conn is None,
    ensures
        ({
            let c = s.to_right.len() as int;
            let states = reconnection(s);
            let t = states.last();
            &&& states.len() == 5
            &&& follows(s, states[0])
            &&& forall|i: int|
                0 <= i < states.len() - 1 ==> follows(#[trigger] states[i], states[i + 1])
            &&& t.left.conn == Some(c) && t.left.phase is Established
            &&& t.right.conn == Some(c) && t.right.phase is Established
            &&& t.left.accepted == s.left.accepted
            &&& t.right.accepted == s.right.accepted
        }),
{
    let c = s.to_right.len() as int;
    let states = reconnection(s);
    lemma_attach_both(s);
    lemma_greet_left(states[2], c);
    assert(states[3] == after(states[2], Move::Receive)) by {
        reveal(reconnection);
    }
    lemma_greet_right(states[3], c);
    assert(states[4] == after_right(states[3], Move::Receive) && states.len() == 5) by {
        reveal(reconnection);
    }
    assert forall|i: int| 0 <= i < states.len() - 1 implies follows(
        #[trigger] states[i],
        states[i + 1],
    ) by {
        assert(i == 0 || i == 1 || i == 2 || i == 3);
    }
}

/// Whenever both ends are without a connection, they can connect anew, and once
/// they have, every message that is missing on either side is on its way.
pub proof fn law_reconnect(run: Seq<System>)
    requires
        is_run(run),
        run.last().left.conn is None,
        run.last().right.conn is None,
    ensures
        is_run(run + reconnection(run.last())),
        ({
            let s = run.last();
            let t = reconnection(s).last();
            let c = s.to_right.len() as int;
            &&& t.left.conn == Some(c) && t.left.phase is Established
            &&& t.right.conn == Some(c) && t.right.phase is Established
            &&& t.left.accepted == s.left.accepted
            &&& t.right.accepted == s.right.accepted
            &&& t.left.accepted == t.right.delivered + data_of(t.to_right[c])
            &&& t.right.accepted == t.left.delivered + data_of(t.to_left[c])
        }),
{
    let s = run.last();
    let states = reconnection(s);
    lemma_run(run, run.len() - 1);
    lemma_reconnection(s);
    lemma_run_extend(run, states);
    let longer = run + states;
    assert(longer[longer.len() - 1] == states.last());
    law_missing_messages_are_on_their_way(longer, longer.len() - 1);
}

/// All unacknowledged messages but the newest leave the window unfilled.
pub open spec fn within_window(state: StreamStateView) -> bool {
    state.unacked.len() > 0 ==> reconnecting_stream::total_len(state.unacked.drop_last())
        < state.window
}

proof fn lemma_total_len_skip(msgs: Seq<Seq<u8>>, k: int)
    requires
        0 <= k <= msgs.len(),
    ensures
        reconnecting_stream::total_len(msgs.skip(k)) <= reconnecting_stream::total_len(msgs),
    decreases msgs.len(),
{
    if k < msgs.len() {
        lemma_total_len_skip(msgs.drop_last(), k);
        assert(msgs.skip(k).drop_last() =~= msgs.drop_last().skip(k));
        assert(msgs.skip(k).last() == msgs.last());
    }
}

proof fn lemma_acked_within_window(state: StreamStateView, seq: u64)
    requires
        within_window(state),
        state.ack_error(seq) is None,
    ensures
        within_window(state.acked(seq)),
{
    let k = seq - state.base_offset;
    if k < state.unacked.len() {
        lemma_total_len_skip(state.unacked.drop_last(), k);
        assert(state.unacked.skip(k).drop_last() =~= state.unacked.drop_last().skip(k));
    }
}

proof fn lemma_move_within_window(s: System, m: Move)
    requires
        enabled(s, m),
        within_window(s.left.state),
        within_window(s.right.state),
    ensures
        within_window(after(s, m).left.state),
        within_window(after(s, m).right.state),
{
    match m {
        Move::Offer(d) => {
            assert(s.left.state.unacked.push(d).drop_last() =~= s.left.state.unacked);
        },
        Move::Receive => {
            let c = s.left.conn->0;
            let state = s.left.state;
            match s.to_left[c][0] {
                StreamCodecMessageView::Hello(hm) => {
                    let met = state.met(hm.sender_id);
                    assert(within_window(met));
                    if met.ack_error(hm.sender_last_rx) is None {
                        lemma_acked_within_window(met, hm.sender_last_rx);
                    }
                },
                StreamCodecMessageView::Ack(seq) => {
                    if state.ack_error(seq) is None {
                        lemma_acked_within_window(state, seq);
                    }
                },
                StreamCodecMessageView::Data(_) => {},
            }
        },
        _ => {},
    }
}

/// An end takes on one message at most beyond its window: without the newest
/// one, what it keeps is less than the window.
pub proof fn law_window_bounds_unacked(run: Seq<System>, i: int)
    requires
        is_run(run),
        0 <= i < run.len(),
    ensures
        within_window(run[i].left.state),
        within_window(run[i].right.state),
    decreases i,
{
    if i > 0 {
        law_window_bounds_unacked(run, i - 1);
        let s = run[i - 1];
        let t = run[i];
        assert(follows(run[i - 1], run[i - 1 + 1]));
        let m = choose|m: Move| leads_to(s, m, t);
        if enabled(s, m) && t == after(s, m) {
            lemma_move_within_window(s, m);
        } else {
            lemma_move_within_window(mirror(s), m);
        }
    }
}

} // verus!
