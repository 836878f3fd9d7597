//! Length-prefixed frames: four bytes of length, the least significant first,
//! then the body.
use crate::text;
use vstd::prelude::*;

verus! {

/// The number in four bytes, the least significant first.
pub open spec fn le32(b: Seq<u8>) -> int
    recommends
        b.len() >= 4,
{
    b[0] + 256 * b[1] + 65536 * b[2] + 16777216 * b[3]
}

/// The four bytes of `n`, the least significant first.
pub open spec fn prefix(n: nat) -> Seq<u8> {
    seq![
        (n % 256) as u8,
        ((n / 256) % 256) as u8,
        ((n / 65536) % 256) as u8,
        ((n / 16777216) % 256) as u8,
    ]
}

/// A body with its length before it.
pub open spec fn frame(body: Seq<u8>) -> Seq<u8> {
    prefix(body.len()) + body
}

/// The frames of a list of bodies, one after the other.
pub open spec fn encoded(bodies: Seq<Seq<u8>>) -> Seq<u8>
    decreases bodies.len(),
{
    if bodies.len() == 0 {
        Seq::empty()
    } else {
        frame(bodies[0]) + encoded(bodies.drop_first())
    }
}

/// Why the reading of frames ended.
#[derive(Debug, Clone, Copy, PartialEq, Eq, Structural)]
pub enum FrameEnd {
    /// There was nothing left.
    Clean,
    /// Less than a length was left.
    TornPrefix,
    /// Less than the announced body was left.
    TornBody,
    /// The announced length is over the bound.
    TooLong(u32),
}

/// What is read from a sequence of bytes.
#[verifier::ext_equal]
pub ghost struct Reading {
    pub bodies: Seq<Seq<u8>>,
    pub end: FrameEnd,
    pub used: nat,
}

/// Frame by frame, until the bytes end or an announced length is over the bound.
pub open spec fn reading(data: Seq<u8>, max: u32) -> Reading
    decreases data.len(),
{
    if data.len() == 0 {
        Reading { bodies: Seq::empty(), end: FrameEnd::Clean, used: 0 }
    } else if data.len() < 4 {
        Reading { bodies: Seq::empty(), end: FrameEnd::TornPrefix, used: 0 }
    } else {
        let len = le32(data);
        if len > max {
            Reading { bodies: Seq::empty(), end: FrameEnd::TooLong(len as u32), used: 0 }
        } else if data.len() - 4 < len {
            Reading { bodies: Seq::empty(), end: FrameEnd::TornBody, used: 0 }
        } else {
            let rest = reading(data.skip(4 + len), max);
            Reading {
                bodies: seq![data.subrange(4, 4 + len)] + rest.bodies,
                end: rest.end,
                used: (4 + len + rest.used) as nat,
            }
        }
    }
}

/// The frames that were read.
#[derive(Debug)]
pub struct Frames {
    /// The bodies, in order.
    pub bodies: Vec<Vec<u8>>,
    /// Where each body starts.
    pub starts: Vec<usize>,
    /// Why the reading ended.
    pub end: FrameEnd,
    /// How many bytes the complete frames take.
    pub complete_len: usize,
}

/// The contents of a list of byte strings.
pub open spec fn contents(bodies: Seq<Vec<u8>>) -> Seq<Seq<u8>> {
    bodies.map_values(|body: Vec<u8>| body@)
}

impl Frames {
    /// The frames are those of `data`, and each start points at its body.
    pub open spec fn of(&self, data: Seq<u8>, max: u32) -> bool {
        let read = reading(data, max);
        &&& contents(self.bodies@) == read.bodies
        &&& self.end == read.end
        &&& self.complete_len == read.used
        &&& self.starts@.len() == self.bodies@.len()
        &&& forall|i: int|
            0 <= i < self.starts@.len() ==> #[trigger] self.starts@[i] == encoded(
                read.bodies.take(i),
            ).len() + 4
    }
}

proof fn lemma_prefix(n: nat)
    requires
        n <= u32::MAX,
    ensures
        prefix(n).len() == 4,
        le32(prefix(n)) == n,
{
    assert(n % 256 + 256 * ((n / 256) % 256) + 65536 * ((n / 65536) % 256) + 16777216 * ((n
        / 16777216) % 256) == n) by (nonlinear_arith)
        requires
            n <= u32::MAX,
    {
        assert(n / 65536 == (n / 256) / 256);
        assert(n / 16777216 == (n / 65536) / 256);
        assert(n / 16777216 < 256);
    }
}

proof fn lemma_concat<A>(a: Seq<A>, b: Seq<A>, c: Seq<A>)
    ensures
        (a + b) + c == a + (b + c),
{
    assert((a + b) + c =~= a + (b + c));
}

proof fn lemma_encoded_push(bodies: Seq<Seq<u8>>, body: Seq<u8>)
    ensures
        encoded(bodies.push(body)) == encoded(bodies) + frame(body),
    decreases bodies.len(),
{
    let all = bodies.push(body);
    if bodies.len() == 0 {
        assert(encoded(all.drop_first()) =~= Seq::<u8>::empty());
        assert(encoded(all) =~= frame(body));
        assert(encoded(bodies) + frame(body) =~= frame(body));
    } else {
        assert(all.drop_first() =~= bodies.drop_first().push(body));
        lemma_encoded_push(bodies.drop_first(), body);
        lemma_concat(frame(bodies[0]), encoded(bodies.drop_first()), frame(body));
    }
}

/// Writing one more frame at the end of the log is writing the log with one
/// more body.
pub proof fn law_append_extends_the_log(bodies: Seq<Seq<u8>>, body: Seq<u8>)
    ensures
        encoded(bodies.push(body)) == encoded(bodies) + frame(body),
{
    lemma_encoded_push(bodies, body);
}

proof fn lemma_read_one(body: Seq<u8>, rest: Seq<u8>, max: u32)
    requires
        body.len() <= max,
    ensures
        ({
            let read = reading(rest, max);
            reading(frame(body) + rest, max) == (Reading {
                bodies: seq![body] + read.bodies,
                end: read.end,
                used: (4 + body.len() + read.used) as nat,
            })
        }),
{
    let data = frame(body) + rest;
    lemma_prefix(body.len());
    assert(data.take(4) =~= prefix(body.len()));
    assert(le32(data) == le32(data.take(4)));
    let len = le32(data);
    assert(data.subrange(4, 4 + len) =~= body);
    assert(data.skip(4 + len) =~= rest);
}

/// Reading gives back what was written, and goes on behind it with whatever
/// follows.
pub proof fn law_reading_gives_back_what_was_written(
    bodies: Seq<Seq<u8>>,
    tail: Seq<u8>,
    max: u32,
)
    requires
        forall|i: int| 0 <= i < bodies.len() ==> (#[trigger] bodies[i]).len() <= max,
    ensures
        reading(encoded(bodies) + tail, max).bodies == bodies + reading(tail, max).bodies,
        reading(encoded(bodies) + tail, max).end == reading(tail, max).end,
        reading(encoded(bodies) + tail, max).used == encoded(bodies).len() + reading(
            tail,
            max,
        ).used,
        reading(encoded(bodies), max) == (Reading {
            bodies,
            end: FrameEnd::Clean,
            used: encoded(bodies).len(),
        }),
{
    lemma_written(bodies, tail, max);
    lemma_written(bodies, Seq::empty(), max);
    assert(encoded(bodies) + Seq::<u8>::empty() =~= encoded(bodies));
    assert(bodies + Seq::<Seq<u8>>::empty() =~= bodies);
}

proof fn lemma_written(bodies: Seq<Seq<u8>>, tail: Seq<u8>, max: u32)
    requires
        forall|i: int| 0 <= i < bodies.len() ==> (#[trigger] bodies[i]).len() <= max,
    ensures
        reading(encoded(bodies) + tail, max).bodies == bodies + reading(tail, max).bodies,
        reading(encoded(bodies) + tail, max).end == reading(tail, max).end,
        reading(encoded(bodies) + tail, max).used == encoded(bodies).len() + reading(
            tail,
            max,
        ).used,
    decreases bodies.len(),
{
    if bodies.len() == 0 {
        assert(encoded(bodies) + tail =~= tail);
        assert(bodies + reading(tail, max).bodies =~= reading(tail, max).bodies);
    } else {
        let others = bodies.drop_first();
        assert forall|i: int| 0 <= i < others.len() implies (#[trigger] others[i]).len()
            <= max by {
            assert(others[i] == bodies[i + 1]);
        }
        lemma_written(others, tail, max);
        lemma_read_one(bodies[0], encoded(others) + tail, max);
        lemma_concat(frame(bodies[0]), encoded(others), tail);
        lemma_concat(seq![bodies[0]], others, reading(tail, max).bodies);
        assert(seq![bodies[0]] + others =~= bodies);
    }
}

/// A torn final append costs only itself: where a frame was cut short behind a
/// complete log, the complete frames are read, and they end where the cut frame
/// began.
pub proof fn law_torn_tail_is_discarded(
    bodies: Seq<Seq<u8>>,
    cut: Seq<u8>,
    body: Seq<u8>,
    max: u32,
)
    requires
        forall|i: int| 0 <= i < bodies.len() ==> (#[trigger] bodies[i]).len() <= max,
        body.len() <= max,
        0 < cut.len() < frame(body).len(),
        cut == frame(body).take(cut.len() as int),
    ensures
        reading(encoded(bodies) + cut, max).bodies == bodies,
        reading(encoded(bodies) + cut, max).used == encoded(bodies).len(),
        reading(encoded(bodies) + cut, max).end == FrameEnd::TornPrefix || reading(
            encoded(bodies) + cut,
            max,
        ).end == FrameEnd::TornBody,
{
    lemma_written(bodies, cut, max);
    lemma_prefix(body.len());
    if cut.len() >= 4 {
        assert(cut.take(4) =~= prefix(body.len()));
        assert(le32(cut) == le32(cut.take(4)));
    }
    assert(bodies + reading(cut, max).bodies =~= bodies);
}

/// Read the frames in `data`.
pub fn read_frames(data: &Vec<u8>, max: u32) -> (r: Frames)
    ensures
        r.of(data@, max),
{
    let mut bodies: Vec<Vec<u8>> = Vec::new();
    let mut starts: Vec<usize> = Vec::new();
    let mut offset: usize = 0;
    let ghost whole = reading(data@, max);
    assert(data@.skip(0) =~= data@);
    assert(contents(bodies@) + whole.bodies =~= whole.bodies);
    assert(encoded(Seq::<Seq<u8>>::empty()).len() == 0);
    assert(contents(bodies@) =~= Seq::<Seq<u8>>::empty());
    while offset < data.len()
        invariant
            offset <= data@.len(),
            whole == reading(data@, max),
            whole.bodies == contents(bodies@) + reading(data@.skip(offset as int), max).bodies,
            whole.end == reading(data@.skip(offset as int), max).end,
            whole.used == offset + reading(data@.skip(offset as int), max).used,
            offset == encoded(contents(bodies@)).len(),
            starts@.len() == bodies@.len(),
            forall|i: int|
                0 <= i < starts@.len() ==> #[trigger] starts@[i] == encoded(
                    whole.bodies.take(i),
                ).len() + 4,
        decreases data@.len() - offset,
    {
        let ghost rest = data@.skip(offset as int);
        let ghost before = contents(bodies@);
        let left: usize = data.len() - offset;
        if left < 4 {
            assert(before + Seq::<Seq<u8>>::empty() =~= before);
            return Frames { bodies, starts, end: FrameEnd::TornPrefix, complete_len: offset };
        }
        let b0: u32 = data[offset] as u32;
        let b1: u32 = data[offset + 1] as u32;
        let b2: u32 = data[offset + 2] as u32;
        let b3: u32 = data[offset + 3] as u32;
        let len: u32 = b0 + 256 * b1 + 65536 * b2 + 16777216 * b3;
        assert(len == le32(rest));
        if len > max {
            assert(before + Seq::<Seq<u8>>::empty() =~= before);
            return Frames { bodies, starts, end: FrameEnd::TooLong(len), complete_len: offset };
        }
        let size: usize = len as usize;
        if left - 4 < size {
            assert(before + Seq::<Seq<u8>>::empty() =~= before);
            return Frames { bodies, starts, end: FrameEnd::TornBody, complete_len: offset };
        }
        let start: usize = offset + 4;
        let body: Vec<u8> = vstd::slice::slice_to_vec(
            vstd::slice::slice_subrange(data.as_slice(), start, start + size),
        );
        proof {
            assert(body@ =~= rest.subrange(4, 4 + size));
            assert(rest.skip(4 + size) =~= data@.skip(start + size));
            let after = reading(data@.skip(start + size), max);
            assert(whole.bodies =~= before + (seq![body@] + after.bodies));
            assert(before + (seq![body@] + after.bodies) =~= before.push(body@) + after.bodies);
            assert(whole.bodies.take(before.len() as int) =~= before);
            lemma_encoded_push(before, body@);
            lemma_prefix(body@.len());
        }
        bodies.push(body);
        starts.push(start);
        assert(contents(bodies@) =~= before.push(body@));
        offset = start + size;
    }
    assert(data@.skip(offset as int) =~= Seq::<u8>::empty());
    assert(contents(bodies@) + Seq::<Seq<u8>>::empty() =~= contents(bodies@));
    Frames { bodies, starts, end: FrameEnd::Clean, complete_len: offset }
}

/// The frame for a body.
pub fn encode_frame(body: &Vec<u8>) -> (r: Vec<u8>)
    requires
        body@.len() <= u32::MAX,
    ensures
        r@ == frame(body@),
{
    let n: usize = body.len();
    let mut r: Vec<u8> = Vec::new();
    r.push((n % 256) as u8);
    r.push(((n / 256) % 256) as u8);
    r.push(((n / 65536) % 256) as u8);
    r.push(((n / 16777216) % 256) as u8);
    assert(r@ =~= prefix(body@.len()));
    let mut i: usize = 0;
    while i < body.len()
        invariant
            i <= body@.len(),
            r@ == prefix(body@.len()) + body@.take(i as int),
        decreases body@.len() - i,
    {
        r.push(body[i]);
        i = i + 1;
        assert(r@ =~= prefix(body@.len()) + body@.take(i as int));
    }
    assert(r@ =~= frame(body@));
    r
}

/// The message for an announced length over the bound, in the file at `path`.
pub open spec fn too_long(path: Seq<char>, len: u32, max: u32) -> Seq<char> {
    path + ": frame length "@ + text::decimal(len as nat) + " exceeds max "@ + text::decimal(
        max as nat,
    )
}

/// The message for an announced length over the bound, in the file at `path`.
pub fn too_long_text(path: &String, len: u32, max: u32) -> (r: String)
    ensures
        r@ == too_long(path@, len, max),
{
    let mut r: String = path.clone();
    r.append(": frame length ");
    r.append(text::u64_text(len as u64).as_str());
    r.append(" exceeds max ");
    r.append(text::u64_text(max as u64).as_str());
    r
}

/// A file of frames that were written one behind the other is read back: every body
/// in its order, with its place, to a clean end. A frame that is cut short behind
/// them is left out, and where the last whole one ends is told.
pub proof fn law_written_frames_are_read_back(
    bodies: Seq<Seq<u8>>,
    last: Vec<u8>,
    framed: Vec<u8>,
    cut: Seq<u8>,
    max: u32,
    whole: Vec<u8>,
    read: Frames,
    torn: Vec<u8>,
    short: Frames,
)
    requires
        forall|i: int| 0 <= i < bodies.len() ==> (#[trigger] bodies[i]).len() <= max,
        last@.len() <= max,
        call_ensures(encode_frame, (&last,), framed),
        whole@ == encoded(bodies) + framed@,
        call_ensures(read_frames, (&whole, max), read),
        0 < cut.len() < framed@.len(),
        cut == framed@.take(cut.len() as int),
        torn@ == encoded(bodies) + cut,
        call_ensures(read_frames, (&torn, max), short),
    ensures
        framed@.len() == last@.len() + 4,
        framed@.skip(4) == last@,
        framed@[0] + 256 * framed@[1] + 65536 * framed@[2] + 16777216 * framed@[3] == last@.len(),
        read.bodies@.len() == bodies.len() + 1,
        read.bodies@.last()@ == last@,
        read.end is Clean,
        read.complete_len == whole@.len(),
        read.starts@.last() == encoded(bodies).len() + 4,
        short.bodies@.len() == bodies.len(),
        short.complete_len == encoded(bodies).len(),
        short.end is TornPrefix || short.end is TornBody,
        forall|i: int|
            0 <= i < bodies.len() ==> (#[trigger] read.bodies@[i])@ == bodies[i],
        forall|i: int|
            0 <= i < bodies.len() ==> (#[trigger] short.bodies@[i])@ == bodies[i],
{
    lemma_prefix(last@.len());
    assert(framed@.skip(4) =~= last@);
    assert(framed@.take(4) =~= prefix(last@.len()));
    assert(le32(framed@) == le32(framed@.take(4)));
    let all = bodies.push(last@);
    lemma_encoded_push(bodies, last@);
    assert forall|i: int| 0 <= i < all.len() implies (#[trigger] all[i]).len() <= max by {
        if i < bodies.len() {
            assert(all[i] == bodies[i]);
        }
    }
    law_reading_gives_back_what_was_written(all, Seq::empty(), max);
    law_torn_tail_is_discarded(bodies, cut, last@, max);
    let n = bodies.len() as int;
    assert(all.take(n) =~= bodies);
    assert(contents(read.bodies@)[n] == read.bodies@[n]@);
    assert(read.starts@[n] == encoded(all.take(n)).len() + 4);
    assert forall|i: int| 0 <= i < bodies.len() implies (#[trigger] read.bodies@[i])@
        == bodies[i] by {
        assert(contents(read.bodies@)[i] == read.bodies@[i]@);
        assert(all[i] == bodies[i]);
    }
    assert forall|i: int| 0 <= i < bodies.len() implies (#[trigger] short.bodies@[i])@
        == bodies[i] by {
        assert(contents(short.bodies@)[i] == short.bodies@[i]@);
    }
}

/// A frame that says it is longer than may be is not read, and neither is anything
/// behind it.
pub proof fn law_too_long_frames_are_not_read(
    bodies: Seq<Seq<u8>>,
    tail: Seq<u8>,
    max: u32,
    data: Vec<u8>,
    r: Frames,
)
    requires
        forall|i: int| 0 <= i < bodies.len() ==> (#[trigger] bodies[i]).len() <= max,
        tail.len() >= 4,
        tail[0] + 256 * tail[1] + 65536 * tail[2] + 16777216 * tail[3] > max,
        data@ == encoded(bodies) + tail,
        call_ensures(read_frames, (&data, max), r),
    ensures
        r.bodies@.len() == bodies.len(),
        r.complete_len == encoded(bodies).len(),
        r.end is TooLong,
{
    law_reading_gives_back_what_was_written(bodies, tail, max);
}

} // verus!
