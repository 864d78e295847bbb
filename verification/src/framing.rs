//! What it means to cut a byte stream into frames.
//!
//! Both wire formats of the tunnel describe one frame by a function from the
//! bytes at hand to a [`Parsed`]. This module says what a reader that keeps
//! applying such a function makes of a whole stream, and that the way in which
//! the bytes arrive makes no difference to it.

use vstd::prelude::*;

verus! {

/// What the first bytes of a stream are.
pub enum Parsed<M, E> {
    /// No complete frame yet: more bytes are needed.
    Incomplete,
    /// Not a frame, whatever follows.
    Rejected(E),
    /// A frame that takes up the given number of bytes.
    Message(M, int),
}

/// What a reader has made of a stream when it can go no further.
#[verifier::ext_equal]
pub struct Drained<M, E> {
    pub messages: Seq<M>,
    pub rest: Seq<u8>,
    pub error: Option<E>,
}

/// Cuts frames off the front of `data` until what is left is incomplete or
/// rejected.
pub open spec fn drain<M, E>(parse: spec_fn(Seq<u8>) -> Parsed<M, E>, data: Seq<u8>) -> Drained<
    M,
    E,
>
    decreases data.len(),
{
    match parse(data) {
        Parsed::Incomplete => Drained { messages: seq![], rest: data, error: None },
        Parsed::Rejected(e) => Drained { messages: seq![], rest: data, error: Some(e) },
        Parsed::Message(m, n) => if 0 < n <= data.len() {
            let d = drain(parse, data.skip(n));
            Drained { messages: seq![m] + d.messages, rest: d.rest, error: d.error }
        } else {
            Drained { messages: seq![], rest: data, error: None }
        },
    }
}

/// A frame takes up at least one of the bytes at hand and at most all of them,
/// and what has been decided about a prefix of a stream stays decided.
pub open spec fn well_framed<M, E>(parse: spec_fn(Seq<u8>) -> Parsed<M, E>) -> bool {
    &&& forall|d: Seq<u8>|
        (#[trigger] parse(d)) matches Parsed::Message(_, n) ==> 0 < n <= d.len()
    &&& forall|d: Seq<u8>, x: Seq<u8>|
        !(parse(d) is Incomplete) ==> #[trigger] parse(d + x) == parse(d)
}

/// What draining `a` and then going on with `b` gives.
pub open spec fn drain_then<M, E>(
    parse: spec_fn(Seq<u8>) -> Parsed<M, E>,
    a: Seq<u8>,
    b: Seq<u8>,
) -> Drained<M, E> {
    let da = drain(parse, a);
    if da.error is Some {
        Drained { messages: da.messages, rest: da.rest + b, error: da.error }
    } else {
        let db = drain(parse, da.rest + b);
        Drained { messages: da.messages + db.messages, rest: db.rest, error: db.error }
    }
}

/// A reader that drains what it has before more bytes arrive ends up where one
/// that waits for all of them does.
pub proof fn lemma_drain_append<M, E>(
    parse: spec_fn(Seq<u8>) -> Parsed<M, E>,
    a: Seq<u8>,
    b: Seq<u8>,
)
    requires
        well_framed(parse),
    ensures
        drain(parse, a + b) == drain_then(parse, a, b),
    decreases a.len(),
{
    match parse(a) {
        Parsed::Incomplete => {
            assert(drain_then(parse, a, b) =~= drain(parse, a + b));
        },
        Parsed::Rejected(e) => {
            assert(parse(a + b) == parse(a));
            assert(drain_then(parse, a, b) =~= drain(parse, a + b));
        },
        Parsed::Message(m, n) => {
            assert(parse(a + b) == parse(a));
            lemma_drain_append(parse, a.skip(n), b);
            assert((a + b).skip(n) =~= a.skip(n) + b);
            assert(drain_then(parse, a, b) =~= drain(parse, a + b));
        },
    }
}

/// The encodings of `msgs`, one after the other.
pub open spec fn encode_all<M>(encode: spec_fn(M) -> Seq<u8>, msgs: Seq<M>) -> Seq<u8>
    decreases msgs.len(),
{
    if msgs.len() == 0 {
        seq![]
    } else {
        encode(msgs[0]) + encode_all(encode, msgs.drop_first())
    }
}

/// One more message is encoded behind the others.
pub proof fn lemma_encode_all_push<M>(encode: spec_fn(M) -> Seq<u8>, msgs: Seq<M>, m: M)
    ensures
        encode_all(encode, msgs.push(m)) == encode_all(encode, msgs) + encode(m),
    decreases msgs.len(),
{
    if msgs.len() == 0 {
        assert(msgs.push(m).drop_first() =~= msgs);
    } else {
        lemma_encode_all_push(encode, msgs.drop_first(), m);
        assert(msgs.push(m).drop_first() =~= msgs.drop_first().push(m));
    }
    assert(encode_all(encode, msgs.push(m)) =~= encode_all(encode, msgs) + encode(m));
}

/// Reading the encodings of `msgs` gives back `msgs`, in order, and leaves the
/// bytes that follow them to be read next.
pub proof fn lemma_drain_encoded<M, E>(
    parse: spec_fn(Seq<u8>) -> Parsed<M, E>,
    encode: spec_fn(M) -> Seq<u8>,
    msgs: Seq<M>,
    tail: Seq<u8>,
)
    requires
        well_framed(parse),
        forall|i: int, rest: Seq<u8>|
            0 <= i < msgs.len() ==> parse(#[trigger] (encode(msgs[i]) + rest)) == Parsed::<
                M,
                E,
            >::Message(msgs[i], encode(msgs[i]).len() as int),
    ensures
        drain(parse, encode_all(encode, msgs) + tail) == (Drained {
            messages: msgs + drain(parse, tail).messages,
            rest: drain(parse, tail).rest,
            error: drain(parse, tail).error,
        }),
    decreases msgs.len(),
{
    if msgs.len() == 0 {
        assert(encode_all(encode, msgs) + tail =~= tail);
        assert(msgs + drain(parse, tail).messages =~= drain(parse, tail).messages);
    } else {
        let head = encode(msgs[0]);
        let more = encode_all(encode, msgs.drop_first()) + tail;
        let data = encode_all(encode, msgs) + tail;
        assert(data =~= head + more);
        assert(parse(head + more) == Parsed::<M, E>::Message(msgs[0], head.len() as int));
        assert((head + more).skip(head.len() as int) =~= more);
        assert forall|i: int, rest: Seq<u8>| 0 <= i < msgs.drop_first().len() implies parse(
            #[trigger] (encode(msgs.drop_first()[i]) + rest),
        ) == Parsed::<M, E>::Message(
            msgs.drop_first()[i],
            encode(msgs.drop_first()[i]).len() as int,
        ) by {
            assert(msgs.drop_first()[i] == msgs[i + 1]);
            assert(parse(encode(msgs[i + 1]) + rest) == Parsed::<M, E>::Message(
                msgs[i + 1],
                encode(msgs[i + 1]).len() as int,
            ));
        }
        lemma_drain_encoded(parse, encode, msgs.drop_first(), tail);
        assert(seq![msgs[0]] + (msgs.drop_first() + drain(parse, tail).messages) =~= msgs + drain(
            parse,
            tail,
        ).messages);
    }
}

} // verus!
