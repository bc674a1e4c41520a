//! A pollable body of frames, fed either from a list of messages fixed at
//! construction or from a channel whose receiving is done by the caller.

use vstd::prelude::*;
use std::collections::VecDeque;
use crate::frame::{encode_frame, frame_of, MAX_PAYLOAD_LEN};
use crate::grpc_mock::encode_message;
use crate::message::WireMessage;
use crate::status::{Code, Status};

verus! {

/// What one poll of a body gives.
#[derive(Debug)]
pub enum FramePoll {
    /// The next frame.
    Data(Vec<u8>),
    /// Nothing is buffered and the channel is open: the caller must try to
    /// receive from the channel and hand the outcome to `deliver`.
    Receive,
    /// The channel had nothing yet; poll again once it has data or closes.
    Pending,
    /// No more data will ever arrive.
    End,
}

/// The outcome of one non-blocking receive on the body's channel.
#[derive(Debug)]
pub enum RecvOutcome {
    /// A message arrived; it carries the message's encoded payload.
    Message(Vec<u8>),
    /// The channel is open but holds nothing.
    Empty,
    /// Every sender is gone and nothing is left.
    Disconnected,
}

struct ChannelState {
    buffer: VecDeque<Vec<u8>>,
    closed: bool,
}

enum BodySource {
    Static(VecDeque<Vec<u8>>),
    Channel(ChannelState),
}

/// A body of frames, delivered one at a time, in order, each exactly once.
pub struct MockBody {
    source: BodySource,
}

/// The byte contents of a queue of frames.
pub open spec fn frames_of(q: Seq<Vec<u8>>) -> Seq<Seq<u8>> {
    q.map_values(|f: Vec<u8>| f@)
}

/// The frames of a list of messages, in order.
pub open spec fn message_frames<T: WireMessage>(data: Seq<T>) -> Seq<Seq<u8>> {
    data.map_values(|m: T| frame_of(T::wire(m@)))
}

/// One poll of a body that holds the frames `q` and nothing else: the frame
/// delivered (none at the end) and the frames left.
pub open spec fn static_step(q: Seq<Seq<u8>>) -> (Option<Seq<u8>>, Seq<Seq<u8>>) {
    if q.len() == 0 {
        (None, q)
    } else {
        (Some(q[0]), q.drop_first())
    }
}

/// What `k` successive polls of a body holding `q` deliver.
pub open spec fn static_polls(q: Seq<Seq<u8>>, k: nat) -> Seq<Option<Seq<u8>>>
    decreases k,
{
    if k == 0 {
        seq![]
    } else {
        seq![static_step(q).0] + static_polls(static_step(q).1, (k - 1) as nat)
    }
}

/// The frame that a poll delivered, if it delivered one.
pub open spec fn delivered(r: FramePoll) -> Option<Seq<u8>> {
    match r {
        FramePoll::Data(f) => Some(f@),
        _ => None,
    }
}

/// Polling an empty list body any number of times delivers nothing.
pub proof fn lemma_polls_after_end(k: nat)
    ensures
        static_polls(Seq::<Seq<u8>>::empty(), k).len() == k,
        forall|i: int| 0 <= i < k ==> (#[trigger] static_polls(Seq::<Seq<u8>>::empty(), k)[i]) is None,
    decreases k,
{
    if k > 0 {
        lemma_polls_after_end((k - 1) as nat);
        let e = Seq::<Seq<u8>>::empty();
        assert(static_step(e).1 == e);
        let rest = static_polls(e, (k - 1) as nat);
        assert(static_polls(e, k) == seq![None::<Seq<u8>>] + rest);
    }
}

/// A list body holding `n` frames delivers exactly those frames, in order,
/// on its first `n` polls, and signals the end on every poll after them.
pub proof fn lemma_exhaustion(q: Seq<Seq<u8>>, extra: nat)
    ensures
        static_polls(q, q.len() + extra).len() == q.len() + extra,
        forall|i: int| 0 <= i < q.len() ==> static_polls(q, q.len() + extra)[i] == Some(q[i]),
        forall|i: int|
            q.len() <= i < q.len() + extra ==> (#[trigger] static_polls(q, q.len() + extra)[i]) is None,
    decreases q.len(),
{
    if q.len() == 0 {
        lemma_polls_after_end(extra);
        assert(q == Seq::<Seq<u8>>::empty());
    } else {
        let t = q.drop_first();
        lemma_exhaustion(t, extra);
        let k = q.len() + extra;
        assert(static_polls(q, k) == seq![Some(q[0])] + static_polls(t, t.len() + extra));
        assert forall|i: int| 0 <= i < q.len() implies static_polls(q, k)[i] == Some(q[i]) by {
            if i > 0 {
                assert(static_polls(q, k)[i] == static_polls(t, t.len() + extra)[i - 1]);
                assert(t[i - 1] == q[i]);
            } else {
                assert(static_polls(q, k)[0] == Some(q[0]));
            }
        }
        assert forall|i: int| q.len() <= i < k implies static_polls(q, k)[i] is None by {
            assert(static_polls(q, k)[i] == static_polls(t, t.len() + extra)[i - 1]);
        }
    }
}

/// A list body built from `n` messages delivers the frames of those
/// messages, in order, on its first `n` polls, and signals the end on every
/// poll after them.
pub proof fn lemma_message_body_exhaustion<T: WireMessage>(data: Seq<T>, extra: nat)
    ensures
        static_polls(message_frames(data), data.len() + extra).len() == data.len() + extra,
        forall|i: int|
            0 <= i < data.len() ==> #[trigger] static_polls(message_frames(data), data.len() + extra)[i]
                == Some(frame_of(T::wire(data[i]@))),
        forall|i: int|
            data.len() <= i < data.len() + extra ==> (#[trigger] static_polls(
                message_frames(data),
                data.len() + extra,
            )[i]) is None,
{
    let q = message_frames(data);
    assert(q.len() == data.len());
    lemma_exhaustion(q, extra);
    assert forall|i: int| 0 <= i < data.len() implies #[trigger] static_polls(q, data.len() + extra)[i]
        == Some(frame_of(T::wire(data[i]@))) by {
        assert(static_polls(q, q.len() + extra)[i] == Some(q[i]));
    }
}

impl MockBody {
    /// The frames not yet delivered: those of the list, or those buffered
    /// from the channel.
    pub closed spec fn frames(&self) -> Seq<Seq<u8>> {
        match self.source {
            BodySource::Static(q) => frames_of(q@),
            BodySource::Channel(c) => frames_of(c.buffer@),
        }
    }

    /// Whether the body is fed from a channel.
    pub closed spec fn is_channel(&self) -> bool {
        self.source is Channel
    }

    /// Whether the body's channel has been seen to disconnect.
    pub closed spec fn is_closed(&self) -> bool {
        match self.source {
            BodySource::Static(_) => false,
            BodySource::Channel(c) => c.closed,
        }
    }

    /// A body that delivers the frames of `data`, in order.
    pub fn new<T: WireMessage>(data: Vec<T>) -> (r: MockBody)
        requires
            forall|i: int| 0 <= i < data@.len() ==> T::wire(#[trigger] data@[i]@).len() <= MAX_PAYLOAD_LEN,
        ensures
            !r.is_channel(),
            r.frames() == message_frames(data@),
    {
        let mut queue: VecDeque<Vec<u8>> = VecDeque::with_capacity(16);
        let mut i: usize = 0;
        while i < data.len()
            invariant
                i <= data@.len(),
                forall|j: int| 0 <= j < data@.len() ==> T::wire(#[trigger] data@[j]@).len() <= MAX_PAYLOAD_LEN,
                frames_of(queue@) == message_frames(data@.subrange(0, i as int)),
            decreases data@.len() - i,
        {
            let frame = encode_message(&data[i]);
            let ghost before = queue@;
            queue.push_back(frame);
            i = i + 1;
            assert(frames_of(before).len() == before.len());
            assert(queue@.len() == i);
            assert forall|j: int| 0 <= j < i implies #[trigger] frames_of(queue@)[j]
                == message_frames(data@.subrange(0, i as int))[j] by {
                assert(queue@ == before.push(frame));
                assert(frames_of(before).len() == before.len());
                assert(before.len() == i - 1);
                if j < i - 1 {
                    assert(frames_of(before)[j] == message_frames(data@.subrange(0, i - 1))[j]);
                    assert(queue@[j] == before[j]);
                    assert(data@.subrange(0, i as int)[j] == data@.subrange(0, i - 1)[j]);
                } else {
                    assert(queue@[j] == frame);
                    assert(data@.subrange(0, i as int)[j] == data@[i - 1]);
                }
            }
            assert(frames_of(queue@).len() == i);
            assert(message_frames(data@.subrange(0, i as int)).len() == i);
            assert(frames_of(queue@) =~= message_frames(data@.subrange(0, i as int)));
        }
        assert(data@.subrange(0, data@.len() as int) =~= data@);
        MockBody { source: BodySource::Static(queue) }
    }

    /// A body fed from a channel; it starts with nothing buffered and open.
    pub fn from_channel() -> (r: MockBody)
        ensures
            r.is_channel(),
            !r.is_closed(),
            r.frames() == Seq::<Seq<u8>>::empty(),
    {
        let state = ChannelState { buffer: VecDeque::new(), closed: false };
        let r = MockBody { source: BodySource::Channel(state) };
        assert(r.frames() =~= Seq::<Seq<u8>>::empty());
        r
    }

    /// Number of frames ready to be delivered without receiving.
    pub fn len(&self) -> (r: usize)
        ensures
            r == self.frames().len(),
    {
        match &self.source {
            BodySource::Static(q) => q.len(),
            BodySource::Channel(c) => c.buffer.len(),
        }
    }

    pub fn is_empty(&self) -> (r: bool)
        ensures
            r == (self.frames().len() == 0),
    {
        self.len() == 0
    }

    /// Delivers the next ready frame. A list body ends when its list is
    /// exhausted; a channel body ends once its channel has disconnected and
    /// its buffer is drained, and otherwise asks for a receive.
    pub fn poll_frame(&mut self) -> (r: FramePoll)
        ensures
            final(self).is_channel() == old(self).is_channel(),
            final(self).is_closed() == old(self).is_closed(),
            old(self).frames().len() > 0 ==> (r matches FramePoll::Data(f) && f@ == old(self).frames()[0]),
            old(self).frames().len() > 0 ==> final(self).frames() == old(self).frames().drop_first(),
            !old(self).is_channel() ==> delivered(r) == static_step(old(self).frames()).0
                && final(self).frames() == static_step(old(self).frames()).1,
            old(self).frames().len() == 0 ==> final(self).frames() == old(self).frames() && (if old(
                self,
            ).is_channel() && !old(self).is_closed() {
                r is Receive
            } else {
                r is End
            }),
    {
        match &mut self.source {
            BodySource::Static(q) => {
                match q.pop_front() {
                    Some(f) => {
                        proof {
                            assert(frames_of(q@) =~= old(self).frames().drop_first());
                        }
                        FramePoll::Data(f)
                    },
                    None => FramePoll::End,
                }
            },
            BodySource::Channel(c) => {
                match c.buffer.pop_front() {
                    Some(f) => FramePoll::Data(f),
                    None => {
                        if c.closed {
                            FramePoll::End
                        } else {
                            FramePoll::Receive
                        }
                    },
                }
            },
        }
    }

    /// Takes the outcome of a receive that `poll_frame` asked for: a message
    /// is framed and delivered, an empty channel leaves the poll pending, and
    /// a disconnected channel closes the body for good.
    pub fn deliver(&mut self, outcome: RecvOutcome) -> (r: FramePoll)
        requires
            old(self).is_channel(),
            !old(self).is_closed(),
            old(self).frames().len() == 0,
            outcome matches RecvOutcome::Message(p) ==> p@.len() <= MAX_PAYLOAD_LEN,
        ensures
            final(self).is_channel(),
            final(self).frames() == old(self).frames(),
            match outcome {
                RecvOutcome::Message(p) => (r matches FramePoll::Data(f) && f@ == frame_of(p@))
                    && !final(self).is_closed(),
                RecvOutcome::Empty => r is Pending && !final(self).is_closed(),
                RecvOutcome::Disconnected => r is End && final(self).is_closed(),
            },
    {
        match outcome {
            RecvOutcome::Message(p) => FramePoll::Data(encode_frame(p.as_slice())),
            RecvOutcome::Empty => FramePoll::Pending,
            RecvOutcome::Disconnected => {
                match &mut self.source {
                    BodySource::Static(_) => {},
                    BodySource::Channel(c) => {
                        c.closed = true;
                    },
                }
                FramePoll::End
            },
        }
    }
}

/// Decodes frame payloads as messages of type `U`.
pub struct ProstDecoder<U> {
    marker: std::marker::PhantomData<U>,
}

impl<U> ProstDecoder<U> {
    pub fn new() -> (r: Self) {
        ProstDecoder { marker: std::marker::PhantomData }
    }
}

impl<U: WireMessage> ProstDecoder<U> {
    /// Decodes one payload; a payload that does not parse is an internal
    /// error.
    pub fn decode(&mut self, payload: &[u8]) -> (r: Result<Option<U>, Status>)
        ensures
            match U::parse(payload@) {
                Some(v) => r matches Ok(Some(m)) && m@ == v,
                None => r matches Err(s) && s.code == Code::Internal,
            },
    {
        match U::decode_payload(payload) {
            Some(m) => Ok(Some(m)),
            None => Err(Status::new(Code::Internal, "failed to decode message")),
        }
    }
}

} // verus!
