//! Reads need not end on a packet boundary. Only the split packet is copied; whole
//! packets are handed on in place.
use vstd::prelude::*;
use crate::index::TS_PACKET_SIZE;

verus! {

/// What a push hands on: the packet completed from the held tail, if one was, and then
/// the range of the pushed data that holds whole packets.
pub struct TailPush {
    pub assembled: Option<Vec<u8>>,
    pub aligned_start: usize,
    pub aligned_end: usize,
}

/// The bytes of a split packet, held until the rest arrives.
pub struct PacketTail {
    bytes: Vec<u8>,
}

impl View for PacketTail {
    type V = Seq<u8>;

    closed spec fn view(&self) -> Seq<u8> {
        self.bytes@
    }
}

/// A push of `data` after the held `tail`: the completed packet (when the tail was
/// nonempty and `data` completes it), the whole-packet range of `data` after that, and
/// the new tail. A tail that stays incomplete absorbs all of `data`.
pub open spec fn push_spec(tail: Seq<u8>, data: Seq<u8>) -> (Option<Seq<u8>>, int, int, Seq<u8>) {
    if tail.len() != 0 && tail.len() + data.len() < 188 {
        (None, data.len() as int, data.len() as int, tail + data)
    } else {
        let taken: int = if tail.len() != 0 {
            188 - tail.len()
        } else {
            0
        };
        let assembled = if tail.len() != 0 {
            Some(tail + data.subrange(0, taken))
        } else {
            None
        };
        let complete = (data.len() - taken) / 188 * 188;
        (assembled, taken, taken + complete, data.subrange(taken + complete, data.len() as int))
    }
}

impl PacketTail {
    /// The held bytes are less than a packet.
    pub closed spec fn wf(self) -> bool {
        self.bytes@.len() < 188
    }

    pub fn new() -> (tail: PacketTail)
        ensures
            tail@ == Seq::<u8>::empty(),
            tail.wf(),
    {
        PacketTail { bytes: Vec::new() }
    }

    pub fn len(&self) -> (len: usize)
        ensures
            len == self@.len(),
    {
        self.bytes.len()
    }

    /// Forget the held bytes, as after a failed hand-on.
    pub fn clear(&mut self)
        ensures
            final(self)@ == Seq::<u8>::empty(),
            final(self).wf(),
    {
        self.bytes = Vec::new();
    }

    /// Take `data`: complete the held packet, then hand on the whole packets in place and
    /// hold the rest.
    pub fn push(&mut self, data: &[u8]) -> (pushed: TailPush)
        requires
            old(self).wf(),
        ensures
            final(self).wf(),
            ({
                let (assembled, start, end, tail) = push_spec(old(self)@, data@);
                &&& pushed.aligned_start == start
                &&& pushed.aligned_end == end
                &&& final(self)@ == tail
                &&& match (pushed.assembled, assembled) {
                    (Some(a), Some(b)) => a@ == b,
                    (None, None) => true,
                    _ => false,
                }
            }),
    {
        let held = self.bytes.len();
        let mut taken: usize = 0;
        let mut assembled: Option<Vec<u8>> = None;
        if held != 0 {
            let want = TS_PACKET_SIZE - held;
            let count = if data.len() < want {
                data.len()
            } else {
                want
            };
            let ghost before = self.bytes@;
            let mut i: usize = 0;
            while i < count
                invariant
                    i <= count <= data@.len(),
                    self.bytes@ == before + data@.subrange(0, i as int),
                decreases count - i,
            {
                self.bytes.push(data[i]);
                i = i + 1;
                assert(self.bytes@ =~= before + data@.subrange(0, i as int));
            }
            if held + count < TS_PACKET_SIZE {
                assert(data@.subrange(0, count as int) =~= data@);
                return TailPush { assembled: None, aligned_start: data.len(), aligned_end: data.len() };
            }
            let mut packet: Vec<u8> = Vec::new();
            std::mem::swap(&mut packet, &mut self.bytes);
            assembled = Some(packet);
            taken = count;
        }
        let complete = (data.len() - taken) / TS_PACKET_SIZE * TS_PACKET_SIZE;
        assert(complete <= data.len() - taken) by (nonlinear_arith)
            requires
                complete == (data.len() - taken) / 188 * 188,
                taken <= data.len(),
        ;
        let start = taken + complete;
        let mut rest: Vec<u8> = Vec::new();
        let mut i: usize = start;
        while i < data.len()
            invariant
                start <= i <= data@.len(),
                rest@ == data@.subrange(start as int, i as int),
            decreases data@.len() - i,
        {
            rest.push(data[i]);
            i = i + 1;
            assert(rest@ =~= data@.subrange(start as int, i as int));
        }
        assert((data.len() - taken) - complete < 188) by (nonlinear_arith)
            requires
                complete == (data.len() - taken) / 188 * 188,
                taken <= data.len(),
        ;
        self.bytes = rest;
        TailPush { assembled, aligned_start: taken, aligned_end: start }
    }
}

/// Nothing is lost or reordered: the completed packet, the whole packets handed on and the
/// new tail are exactly the old tail followed by the pushed data; what is handed on is
/// whole packets, and less than a packet stays held.
pub proof fn tail_preserves_stream(tail: Seq<u8>, data: Seq<u8>)
    requires
        tail.len() < 188,
    ensures
        ({
            let (assembled, start, end, rest) = push_spec(tail, data);
            let first = match assembled {
                Some(p) => p,
                None => Seq::empty(),
            };
            &&& 0 <= start <= end <= data.len()
            &&& first + data.subrange(start, end) + rest == tail + data
            &&& (end - start) % 188 == 0
            &&& (assembled matches Some(p) ==> p.len() == 188)
            &&& rest.len() < 188
        }),
{
    let (assembled, start, end, rest) = push_spec(tail, data);
    if tail.len() != 0 && tail.len() + data.len() < 188 {
        assert(data.subrange(start, end) =~= Seq::<u8>::empty());
        assert(Seq::<u8>::empty() + data.subrange(start, end) + rest =~= tail + data);
    } else {
        let taken: int = if tail.len() != 0 {
            188 - tail.len()
        } else {
            0
        };
        let complete = (data.len() - taken) / 188 * 188;
        assert(0 <= complete <= data.len() - taken && data.len() - taken - complete < 188
            && complete % 188 == 0) by (nonlinear_arith)
            requires
                complete == (data.len() - taken) / 188 * 188,
                0 <= taken <= data.len(),
        ;
        if tail.len() != 0 {
            assert(tail + data.subrange(0, taken) + data.subrange(start, end) + rest =~= tail + data);
        } else {
            assert(Seq::<u8>::empty() + data.subrange(start, end) + rest =~= tail + data);
        }
    }
}

/// What one push hands on: the completed packet, if any, then the whole packets of the data.
pub open spec fn handed_on(tail: Seq<u8>, data: Seq<u8>) -> Seq<u8> {
    let (assembled, start, end, _rest) = push_spec(tail, data);
    let first = match assembled {
        Some(p) => p,
        None => Seq::<u8>::empty(),
    };
    first + data.subrange(start, end)
}

/// The chunks joined in order.
pub open spec fn joined(chunks: Seq<Seq<u8>>) -> Seq<u8>
    decreases chunks.len(),
{
    if chunks.len() == 0 {
        Seq::empty()
    } else {
        joined(chunks.drop_last()) + chunks.last()
    }
}

/// Pushing the chunks in order from `tail`: everything handed on, and the tail left.
pub open spec fn feed(tail: Seq<u8>, chunks: Seq<Seq<u8>>) -> (Seq<u8>, Seq<u8>)
    decreases chunks.len(),
{
    if chunks.len() == 0 {
        (Seq::empty(), tail)
    } else {
        let (handed, rest) = feed(tail, chunks.drop_last());
        (handed + handed_on(rest, chunks.last()), push_spec(rest, chunks.last()).3)
    }
}

/// Over any sequence of pushes nothing is lost or reordered: what was handed on, followed
/// by the tail left, is the first tail followed by all the data pushed; what was handed
/// on is whole packets, and less than a packet stays held. From an empty tail, what was
/// handed on is exactly the whole packets of the data pushed so far.
pub proof fn pushes_preserve_stream(tail: Seq<u8>, chunks: Seq<Seq<u8>>)
    requires
        tail.len() < 188,
    ensures
        ({
            let (handed, rest) = feed(tail, chunks);
            let all = tail + joined(chunks);
            &&& handed + rest == all
            &&& handed.len() % 188 == 0
            &&& rest.len() < 188
            &&& handed.len() == all.len() / 188 * 188
            &&& handed == all.subrange(0, (all.len() / 188 * 188) as int)
        }),
    decreases chunks.len(),
{
    let (handed, rest) = feed(tail, chunks);
    let all = tail + joined(chunks);
    if chunks.len() == 0 {
        assert(joined(chunks) =~= Seq::<u8>::empty());
        assert(handed + rest =~= all);
    } else {
        pushes_preserve_stream(tail, chunks.drop_last());
        let (h0, r0) = feed(tail, chunks.drop_last());
        let data = chunks.last();
        tail_preserves_stream(r0, data);
        let (assembled, start, end, r1) = push_spec(r0, data);
        let first = match assembled {
            Some(p) => p,
            None => Seq::<u8>::empty(),
        };
        assert(first.len() % 188 == 0);
        assert(handed_on(r0, data) == first + data.subrange(start, end));
        assert(handed_on(r0, data).len() % 188 == 0) by (nonlinear_arith)
            requires
                handed_on(r0, data).len() == first.len() + (end - start),
                first.len() % 188 == 0,
                (end - start) % 188 == 0,
        ;
        assert(handed == h0 + handed_on(r0, data));
        assert(handed.len() % 188 == 0) by (nonlinear_arith)
            requires
                handed.len() == h0.len() + handed_on(r0, data).len(),
                h0.len() % 188 == 0,
                handed_on(r0, data).len() % 188 == 0,
        ;
        assert(handed + rest =~= h0 + (first + data.subrange(start, end) + r1));
        assert(all =~= (tail + joined(chunks.drop_last())) + data);
        assert(handed + rest =~= all);
    }
    let n = handed.len() as int;
    let total = all.len() as int;
    assert(n == total / 188 * 188) by (nonlinear_arith)
        requires
            n + rest.len() == total,
            n % 188 == 0,
            0 <= rest.len() < 188,
            n >= 0,
    ;
    assert(handed =~= all.subrange(0, n));
}

} // verus!
