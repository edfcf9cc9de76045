//! Walking the chunks of a plan.
//!
//! A scan decides; its caller acts. The caller tells the scan where the
//! stream stands, and the scan answers what to do next: move the stream,
//! decode one record, or stop. A scan only ever moves the stream forward:
//! what the stream has passed is not decoded again.

use vstd::prelude::*;
use crate::offset::{Chunk, VirtualOffset};

verus! {

/// What the caller of a scan does next.
#[derive(Clone, Copy, Debug, PartialEq, Eq, Structural)]
pub enum Step {
    /// Move the stream to this offset, then ask again.
    Seek(VirtualOffset),
    /// Decode one record where the stream stands, then ask again.
    Read,
    /// The scan is over.
    Done,
}

/// The state of a scan: the chunks to visit, how many of them have been
/// entered, and where the chunk that is being read ends.
#[derive(Debug)]
pub struct Scan {
    pub chunks: Vec<Chunk>,
    pub next: usize,
    pub until: Option<VirtualOffset>,
}

/// The state of a scan but for its chunks, which never change.
pub struct ScanState {
    pub next: int,
    pub until: Option<VirtualOffset>,
}

/// Entering the first chunk from `next` on that the stream, standing at
/// `cursor`, has not passed. The first chunk of a scan is always sought;
/// a later one is sought only where it starts ahead of the stream, and
/// read on from where the stream stands otherwise.
pub open spec fn enter(chunks: Seq<Chunk>, next: int, cursor: VirtualOffset) -> (ScanState, Step)
    decreases chunks.len() - next,
{
    if next < 0 || next >= chunks.len() {
        (ScanState { next: chunks.len() as int, until: None }, Step::Done)
    } else if next > 0 && chunks[next].end.key() <= cursor.key() {
        enter(chunks, next + 1, cursor)
    } else if next > 0 && chunks[next].start.key() <= cursor.key() {
        (ScanState { next: next + 1, until: Some(chunks[next].end) }, Step::Read)
    } else {
        (ScanState { next: next + 1, until: Some(chunks[next].end) }, Step::Seek(chunks[next].start))
    }
}

/// One decision of a scan: read on while the stream stands before the end
/// of the chunk that is being read, and enter the next chunk otherwise.
pub open spec fn step_spec(chunks: Seq<Chunk>, s: ScanState, cursor: VirtualOffset) -> (
    ScanState,
    Step,
) {
    if s.until.is_some() && cursor.key() < s.until.unwrap().key() {
        (s, Step::Read)
    } else {
        enter(chunks, s.next, cursor)
    }
}

impl Scan {
    /// No more chunks are entered than there are.
    pub open spec fn wf(&self) -> bool {
        self.next <= self.chunks@.len()
    }

    /// The state of the scan but for its chunks.
    pub open spec fn state(&self) -> ScanState {
        ScanState { next: self.next as int, until: self.until }
    }

    /// A scan of the chunks of a plan, from the first on.
    pub fn new(chunks: Vec<Chunk>) -> (r: Scan)
        ensures
            r.wf(),
            r.chunks == chunks,
            r.state() == (ScanState { next: 0, until: None }),
    {
        Scan { chunks, next: 0, until: None }
    }

    /// A scan of the one span `[low, high)`, for a caller that knows the
    /// offsets to read; `None` where `high` comes before `low`.
    pub fn over_range(low: VirtualOffset, high: VirtualOffset) -> (r: Option<Scan>)
        requires
            low.wf(),
            high.wf(),
        ensures
            r.is_some() <==> low.key() <= high.key(),
            r matches Some(s) ==> s.wf() && s.chunks@ == seq![Chunk { start: low, end: high }]
                && s.state() == (ScanState { next: 0, until: None }),
    {
        match Chunk::new(low, high) {
            Some(c) => {
                let mut chunks: Vec<Chunk> = Vec::new();
                chunks.push(c);
                Some(Scan { chunks, next: 0, until: None })
            },
            None => None,
        }
    }

    /// Decides what to do next, given where the stream stands.
    pub fn step(&mut self, cursor: VirtualOffset) -> (r: Step)
        requires
            old(self).wf(),
        ensures
            final(self).wf(),
            final(self).chunks == old(self).chunks,
            (final(self).state(), r) == step_spec(old(self).chunks@, old(self).state(), cursor),
    {
        match self.until {
            Some(u) => {
                if cursor.precedes(u) {
                    return Step::Read;
                }
            },
            None => {},
        }
        let ghost from = self.next as int;
        while self.next < self.chunks.len()
            invariant
                self.chunks == old(self).chunks,
                from <= self.next <= self.chunks@.len(),
                step_spec(old(self).chunks@, old(self).state(), cursor) == enter(
                    self.chunks@,
                    self.next as int,
                    cursor,
                ),
            decreases self.chunks@.len() - self.next,
        {
            let c = self.chunks[self.next];
            let first = self.next == 0;
            self.next = self.next + 1;
            if first || cursor.precedes(c.end) {
                self.until = Some(c.end);
                if first || cursor.precedes(c.start) {
                    return Step::Seek(c.start);
                }
                return Step::Read;
            }
        }
        self.until = None;
        Step::Done
    }
}

/// A scan never moves the stream back: but for the first chunk, it seeks
/// only to an offset ahead of where the stream stands.
pub proof fn lemma_seek_is_forward(chunks: Seq<Chunk>, s: ScanState, cursor: VirtualOffset)
    requires
        0 < s.next <= chunks.len(),
    ensures
        step_spec(chunks, s, cursor).1 matches Step::Seek(v) ==> cursor.key() < v.key(),
{
    lemma_enter(chunks, s.next, cursor);
}

/// A record is decoded only while the stream stands before the end of the
/// chunk that is being read.
pub proof fn lemma_read_is_inside(chunks: Seq<Chunk>, s: ScanState, cursor: VirtualOffset)
    requires
        0 <= s.next <= chunks.len(),
    ensures
        step_spec(chunks, s, cursor).1 == Step::Read ==> step_spec(chunks, s, cursor).0.until.is_some()
            && cursor.key() < step_spec(chunks, s, cursor).0.until.unwrap().key(),
{
    lemma_enter(chunks, s.next, cursor);
}

/// A scan that is over stays over, and a scan is over only when every
/// chunk has been entered.
pub proof fn lemma_done_is_final(chunks: Seq<Chunk>, s: ScanState, cursor: VirtualOffset, later: VirtualOffset)
    requires
        0 <= s.next <= chunks.len(),
        step_spec(chunks, s, cursor).1 == Step::Done,
    ensures
        step_spec(chunks, s, cursor).0.next == chunks.len(),
        step_spec(chunks, step_spec(chunks, s, cursor).0, later).1 == Step::Done,
{
    lemma_enter(chunks, s.next, cursor);
}

proof fn lemma_enter(chunks: Seq<Chunk>, next: int, cursor: VirtualOffset)
    requires
        0 <= next <= chunks.len(),
    ensures
        next < enter(chunks, next, cursor).0.next <= chunks.len() || enter(chunks, next, cursor).1
            == Step::Done,
        enter(chunks, next, cursor).1 == Step::Done ==> enter(chunks, next, cursor).0 == (ScanState {
            next: chunks.len() as int,
            until: None,
        }),
        enter(chunks, next, cursor).1 == Step::Read ==> enter(chunks, next, cursor).0.until.is_some()
            && cursor.key() < enter(chunks, next, cursor).0.until.unwrap().key(),
        next > 0 ==> (enter(chunks, next, cursor).1 matches Step::Seek(v) ==> cursor.key() < v.key()),
    decreases chunks.len() - next,
{
    if next < chunks.len() && next > 0 && chunks[next].end.key() <= cursor.key() {
        lemma_enter(chunks, next + 1, cursor);
    }
}

} // verus!
