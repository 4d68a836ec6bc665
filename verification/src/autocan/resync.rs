//! How a byte stream is cut into frames, and what that cutting tolerates.
//!
//! The scan walks the buffered bytes from the front. It passes over every
//! byte that is not a sync byte, and over every sync byte that opens a
//! complete candidate whose checksum fails. It stops at the first position it
//! cannot pass: a sync byte that opens either a well-formed frame, which it
//! hands out, or a candidate that is not complete yet, for which it waits.

use crate::autocan::define::SYNC;
use crate::autocan::{announced_len, is_frame};
use vstd::prelude::*;

verus! {

/// Whether the candidate that opens at `at` lies wholly within `stream`:
/// six bytes to read the header from, and all the bytes it announces.
pub open spec fn complete_at(stream: Seq<u8>, at: int) -> bool {
    at + 6 <= stream.len() && at + announced_len(stream[at + 1]) <= stream.len()
}

/// The bytes of the candidate that opens at `at`.
pub open spec fn candidate_at(stream: Seq<u8>, at: int) -> Seq<u8> {
    stream.subrange(at, at + announced_len(stream[at + 1]))
}

/// Whether the scan passes over position `at`: no sync byte there, or a
/// complete candidate that is no frame.
pub open spec fn rejected_at(stream: Seq<u8>, at: int) -> bool {
    stream[at] != SYNC || (complete_at(stream, at) && !is_frame(candidate_at(stream, at)))
}

/// The first position from `from` on that the scan does not pass over, or
/// the length of `stream` if it passes over all of them.
pub open spec fn resume_point(stream: Seq<u8>, from: int) -> int
    decreases stream.len() - from,
{
    if from >= stream.len() {
        stream.len() as int
    } else if !rejected_at(stream, from) {
        from
    } else {
        resume_point(stream, from + 1)
    }
}

/// `frame` followed by zeros up to fourteen bytes.
pub open spec fn padded(frame: Seq<u8>) -> Seq<u8> {
    frame + Seq::new((14 - frame.len()) as nat, |i: int| 0u8)
}

/// One scan of `stream`: the frame found, padded to fourteen bytes, and the
/// bytes after it; or no frame, and the bytes from the position where the
/// scan waits.
pub open spec fn scan(stream: Seq<u8>) -> (Option<Seq<u8>>, Seq<u8>) {
    let at = resume_point(stream, 0);
    if at < stream.len() && complete_at(stream, at) {
        (
            Some(padded(candidate_at(stream, at))),
            stream.skip(at + announced_len(stream[at + 1])),
        )
    } else {
        (None, stream.skip(at))
    }
}

/// The resume point lies between `from` and the end, every position before
/// it is passed over, and it is itself not passed over unless it is the end.
pub proof fn lemma_resume_point(stream: Seq<u8>, from: int)
    requires
        0 <= from <= stream.len(),
    ensures
        from <= resume_point(stream, from) <= stream.len(),
        forall|at: int| from <= at < resume_point(stream, from) ==> rejected_at(stream, at),
        resume_point(stream, from) < stream.len() ==> !rejected_at(
            stream,
            resume_point(stream, from),
        ),
    decreases stream.len() - from,
{
    if from < stream.len() && rejected_at(stream, from) {
        lemma_resume_point(stream, from + 1);
    }
}

/// A position that is not passed over, with every position before it passed
/// over, is the resume point.
pub proof fn lemma_resume_point_is(stream: Seq<u8>, from: int, at: int)
    requires
        0 <= from <= at <= stream.len(),
        forall|before: int| from <= before < at ==> rejected_at(stream, before),
        at < stream.len() ==> !rejected_at(stream, at),
    ensures
        resume_point(stream, from) == at,
    decreases at - from,
{
    if from < at {
        lemma_resume_point_is(stream, from + 1, at);
    }
}

/// All the frames that repeated scans cut from `stream`, each padded to
/// fourteen bytes, until a scan finds none.
pub open spec fn frames(stream: Seq<u8>) -> Seq<Seq<u8>>
    decreases stream.len(),
{
    let (found, rest) = scan(stream);
    if found is Some && rest.len() < stream.len() {
        seq![found->0] + frames(rest)
    } else {
        Seq::empty()
    }
}

/// Whether scans cut `stream` into frames with nothing left over.
pub open spec fn whole(stream: Seq<u8>) -> bool
    decreases stream.len(),
{
    stream.len() == 0 || {
        let (found, rest) = scan(stream);
        found is Some && rest.len() < stream.len() && whole(rest)
    }
}

/// A scan that finds a frame consumes at least its six bytes; one that finds
/// none leaves fewer than fourteen bytes, which open with a sync byte.
pub proof fn lemma_scan_remainder(stream: Seq<u8>)
    ensures
        scan(stream).0 is Some ==> scan(stream).1.len() + 6 <= stream.len(),
        scan(stream).0 is None ==> {
            let rest = scan(stream).1;
            &&& rest.len() < 14
            &&& rest.len() > 0 ==> rest[0] == SYNC
            &&& rest.len() >= 6 ==> announced_len(rest[1]) == 14
        },
{
    lemma_resume_point(stream, 0);
}

/// What the scan does at a position depends only on the bytes from there on.
proof fn lemma_rejected_shifts(head: Seq<u8>, tail: Seq<u8>, at: int)
    requires
        0 <= at < tail.len(),
    ensures
        rejected_at(head + tail, head.len() + at) == rejected_at(tail, at),
{
    let stream = head + tail;
    let shifted = head.len() + at;
    assert(stream[shifted] == tail[at]);
    if at + 1 < tail.len() {
        assert(stream[shifted + 1] == tail[at + 1]);
        if complete_at(tail, at) {
            assert(candidate_at(stream, shifted) =~= candidate_at(tail, at));
        }
    }
}

/// The resume point behind a head is the resume point of the tail.
proof fn lemma_resume_point_shifts(head: Seq<u8>, tail: Seq<u8>, from: int)
    requires
        0 <= from <= tail.len(),
    ensures
        resume_point(head + tail, head.len() + from) == head.len() + resume_point(tail, from),
    decreases tail.len() - from,
{
    if from < tail.len() {
        lemma_rejected_shifts(head, tail, from);
        if rejected_at(tail, from) {
            lemma_resume_point_shifts(head, tail, from + 1);
        }
    }
}

/// A head that the scan passes over whole does not show: the scan of
/// `head + tail` is the scan of `tail`.
pub proof fn lemma_scan_passes_head(head: Seq<u8>, tail: Seq<u8>)
    requires
        forall|at: int| 0 <= at < head.len() ==> rejected_at(head + tail, at),
    ensures
        scan(head + tail) == scan(tail),
        frames(head + tail) == frames(tail),
{
    let stream = head + tail;
    let at = resume_point(tail, 0);
    lemma_resume_point(tail, 0);
    lemma_resume_point_shifts(head, tail, 0);
    lemma_resume_point(stream, head.len() as int);
    lemma_resume_point_is(stream, 0, head.len() + at);
    assert(stream.skip(head.len() + at) =~= tail.skip(at));
    if at < tail.len() {
        lemma_rejected_shifts(head, tail, at);
        if at + 1 < tail.len() {
            assert(stream[head.len() + at + 1] == tail[at + 1]);
        }
        if complete_at(tail, at) {
            assert(candidate_at(stream, head.len() + at) =~= candidate_at(tail, at));
            assert(stream.skip(head.len() + at + announced_len(tail[at + 1])) =~= tail.skip(
                at + announced_len(tail[at + 1]),
            ));
        }
    }
    lemma_scan_remainder(stream);
    lemma_scan_remainder(tail);
}

/// A frame found does not depend on what follows: if the scan of `head`
/// finds a frame, the scan of `head + tail` finds the same frame, and leaves
/// what the first scan left, followed by `tail`.
pub proof fn lemma_scan_found_extends(head: Seq<u8>, tail: Seq<u8>)
    requires
        scan(head).0 is Some,
    ensures
        scan(head + tail) == (scan(head).0, scan(head).1 + tail),
{
    let stream = head + tail;
    let at = resume_point(head, 0);
    lemma_resume_point(head, 0);
    assert forall|before: int| 0 <= before < at implies rejected_at(stream, before) by {
        assert(rejected_at(head, before));
        assert(stream[before] == head[before]);
        if head[before] == SYNC {
            assert(stream[before + 1] == head[before + 1]);
            assert(candidate_at(stream, before) =~= candidate_at(head, before));
        }
    }
    assert(stream[at] == head[at]);
    assert(stream[at + 1] == head[at + 1]);
    assert(candidate_at(stream, at) =~= candidate_at(head, at));
    lemma_resume_point_is(stream, 0, at);
    assert(stream.skip(at + announced_len(head[at + 1])) =~= head.skip(
        at + announced_len(head[at + 1]),
    ) + tail);
}

/// A position that the scan passes over, it passes over whatever follows the
/// stream.
proof fn lemma_rejected_extends(stream: Seq<u8>, more: Seq<u8>, at: int)
    requires
        0 <= at < stream.len(),
        rejected_at(stream, at),
    ensures
        rejected_at(stream + more, at),
{
    let longer = stream + more;
    assert(longer[at] == stream[at]);
    if stream[at] == SYNC {
        assert(longer[at + 1] == stream[at + 1]);
        assert(candidate_at(longer, at) =~= candidate_at(stream, at));
    }
}

/// A scan that waits loses nothing: what it leaves, followed by the bytes
/// that come next, is scanned as the whole stream followed by those bytes.
pub proof fn lemma_scan_waiting_extends(stream: Seq<u8>, more: Seq<u8>)
    requires
        scan(stream).0 is None,
    ensures
        scan(stream + more) == scan(scan(stream).1 + more),
        frames(stream + more) == frames(scan(stream).1 + more),
{
    let at = resume_point(stream, 0);
    lemma_resume_point(stream, 0);
    let passed = stream.take(at);
    let rest = stream.skip(at);
    assert(passed + (rest + more) =~= stream + more);
    assert forall|before: int| 0 <= before < passed.len() implies rejected_at(
        passed + (rest + more),
        before,
    ) by {
        lemma_rejected_extends(stream, more, before);
    }
    lemma_scan_passes_head(passed, rest + more);
}

/// What repeated scans leave of `stream` when they find no further frame.
pub open spec fn leftover(stream: Seq<u8>) -> Seq<u8>
    decreases stream.len(),
{
    let (found, rest) = scan(stream);
    if found is Some && rest.len() < stream.len() {
        leftover(rest)
    } else {
        rest
    }
}

/// Frames do not depend on how the stream is cut into reads: the frames cut
/// from two reads together are those cut from the first, then those cut
/// from what the first has left, followed by the second.
pub proof fn lemma_frames_of_reads(first: Seq<u8>, second: Seq<u8>)
    ensures
        frames(first + second) == frames(first) + frames(leftover(first) + second),
    decreases first.len(),
{
    let (found, rest) = scan(first);
    lemma_scan_remainder(first);
    if found is Some {
        lemma_scan_found_extends(first, second);
        lemma_frames_of_reads(rest, second);
        assert(frames(first + second) == seq![found->0] + frames(rest + second));
        assert(seq![found->0] + (frames(rest) + frames(leftover(rest) + second)) =~= (seq![
            found->0,
        ] + frames(rest)) + frames(leftover(rest) + second));
    } else {
        lemma_scan_waiting_extends(first, second);
        assert(frames(first) =~= Seq::<Seq<u8>>::empty());
        assert(frames(first) + frames(rest + second) =~= frames(rest + second));
    }
}

/// Garbage tolerance. Bytes without a sync byte, put into a stream where a
/// frame ends, change nothing: if scans cut `head` into frames with nothing
/// left over, the frames cut from `head + garbage + tail` are those cut from
/// `head + tail`.
pub proof fn lemma_garbage_tolerance(head: Seq<u8>, garbage: Seq<u8>, tail: Seq<u8>)
    requires
        whole(head),
        forall|i: int| 0 <= i < garbage.len() ==> garbage[i] != SYNC,
    ensures
        frames(head + garbage + tail) == frames(head + tail),
    decreases head.len(),
{
    if head.len() == 0 {
        assert(head + garbage + tail =~= garbage + tail);
        assert(head + tail =~= tail);
        assert forall|at: int| 0 <= at < garbage.len() implies rejected_at(garbage + tail, at) by {
            assert((garbage + tail)[at] == garbage[at]);
        }
        lemma_scan_passes_head(garbage, tail);
    } else {
        let (found, rest) = scan(head);
        lemma_scan_found_extends(head, garbage + tail);
        lemma_scan_found_extends(head, tail);
        assert(head + (garbage + tail) =~= head + garbage + tail);
        assert(rest + (garbage + tail) =~= rest + garbage + tail);
        lemma_garbage_tolerance(rest, garbage, tail);
    }
}

/// A frame at the front of a stream is the first frame cut from it.
pub proof fn lemma_frame_at_front(frame: Seq<u8>, tail: Seq<u8>)
    requires
        is_frame(frame),
    ensures
        scan(frame + tail) == (Some(padded(frame)), tail),
        frames(frame + tail) == seq![padded(frame)] + frames(tail),
{
    assert(candidate_at(frame, 0) =~= frame);
    lemma_resume_point_is(frame, 0, 0);
    assert(frame.skip(frame.len() as int) =~= Seq::<u8>::empty());
    lemma_scan_found_extends(frame, tail);
    assert(Seq::<u8>::empty() + tail =~= tail);
}

/// `frame` with `byte` put in before index `at`.
pub open spec fn damaged(frame: Seq<u8>, at: int, byte: u8) -> Seq<u8> {
    frame.take(at) + seq![byte] + frame.skip(at)
}

/// A damaged frame costs one frame. Where a byte has strayed into the
/// payload of a long frame, and no candidate that opens within the damaged
/// frame passes for a frame or is left incomplete, the frames cut from the
/// stream are those that follow the damaged frame: it alone is lost, and the
/// scan resumes at the next frame whose checksum holds.
pub proof fn lemma_damage_costs_one_frame(frame: Seq<u8>, at: int, byte: u8, tail: Seq<u8>)
    requires
        is_frame(frame),
        frame.len() == 14,
        5 <= at <= 12,
        forall|from: int|
            0 <= from < 15 ==> rejected_at(damaged(frame, at, byte) + tail, from),
    ensures
        frames(damaged(frame, at, byte) + tail) == frames(tail),
        frames(frame + tail) == seq![padded(frame)] + frames(tail),
{
    lemma_scan_passes_head(damaged(frame, at, byte), tail);
    lemma_frame_at_front(frame, tail);
}

} // verus!
