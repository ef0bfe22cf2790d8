//! The audio recorder: a capture subprocess and a chunking reader.
//!
//! The reader accumulates raw bytes and hands the stream callback exactly
//! `target`-sized chunks: nothing is dropped, nothing is duplicated, and a
//! partial frame waits for the next read.
use vstd::prelude::*;

verus! {

/// The recorder's two states.
#[derive(Debug, Clone, PartialEq)]
pub enum RecorderState {
    Idle,
    Recording,
}

/// The chunker's step on one read: the emitted chunk, if the accumulation
/// reaches the target, and the new accumulation.
pub open spec fn feed_step(acc: Seq<u8>, data: Seq<u8>, target: int) -> (Option<Seq<u8>>, Seq<u8>) {
    let joined = acc + data;
    if joined.len() >= target {
        (Some(joined.take(target)), joined.skip(target))
    } else {
        (None, joined)
    }
}

/// The chunk accumulator of the reader task.
#[derive(Debug, Clone, PartialEq)]
pub struct Chunker {
    /// Bytes read but not yet emitted.
    pub acc: Vec<u8>,
    /// The exact size of every emitted chunk.
    pub target: usize,
}

impl Chunker {
    /// An empty accumulator emitting `target`-byte chunks.
    pub fn new(target: usize) -> (c: Self)
        requires
            target >= 1,
        ensures
            c.acc@.len() == 0,
            c.target == target,
    {
        Chunker { acc: Vec::new(), target }
    }

    /// Feeds one read's worth of bytes: emits exactly one `target`-sized
    /// chunk when the accumulation reaches the target, else keeps
    /// everything.  Conservation: the old accumulation plus the new bytes
    /// is exactly the emitted chunk (if any) followed by the new
    /// accumulation — no byte lost, duplicated, or reordered.
    pub fn feed(&mut self, data: &[u8]) -> (out: Option<Vec<u8>>)
        requires
            old(self).target >= 1,
            old(self).acc@.len() + data@.len() <= usize::MAX,
        ensures
            final(self).target == old(self).target,
            match out {
                Some(chunk) => {
                    &&& chunk@.len() == old(self).target
                    &&& old(self).acc@ + data@ == chunk@ + final(self).acc@
                    &&& old(self).acc@.len() + data@.len() >= old(self).target
                    &&& feed_step(old(self).acc@, data@, old(self).target as int) == (
                        Some(chunk@),
                        final(self).acc@,
                    )
                },
                None => {
                    &&& final(self).acc@ == old(self).acc@ + data@
                    &&& old(self).acc@.len() + data@.len() < old(self).target
                    &&& feed_step(old(self).acc@, data@, old(self).target as int) == (
                        None::<Seq<u8>>,
                        final(self).acc@,
                    )
                },
            },
    {
        self.acc.extend_from_slice(data);
        if self.acc.len() >= self.target {
            let tail = self.acc.split_off(self.target);
            let mut rest = tail;
            core::mem::swap(&mut self.acc, &mut rest);
            proof {
                assert(old(self).acc@ + data@ == rest@ + self.acc@);
                let joined = old(self).acc@ + data@;
                assert(rest@ =~= joined.take(self.target as int));
                assert(self.acc@ =~= joined.skip(self.target as int));
            }
            Some(rest)
        } else {
            proof {
                assert(self.acc@ =~= old(self).acc@ + data@);
            }
            None
        }
    }
}

/// The bytes of a sequence of reads, flattened in order.
pub open spec fn flat(reads: Seq<Seq<u8>>) -> Seq<u8>
    decreases reads.len(),
{
    if reads.len() == 0 {
        Seq::empty()
    } else {
        flat(reads.drop_last()) + reads.last()
    }
}

/// The emissions and final accumulation after feeding `reads`, in order,
/// into a fresh chunker.
pub open spec fn run_reads(reads: Seq<Seq<u8>>, target: int) -> (Seq<Seq<u8>>, Seq<u8>)
    decreases reads.len(),
{
    if reads.len() == 0 {
        (Seq::empty(), Seq::empty())
    } else {
        let prior = run_reads(reads.drop_last(), target);
        let step = feed_step(prior.1, reads.last(), target);
        (
            match step.0 {
                Some(c) => prior.0.push(c),
                None => prior.0,
            },
            step.1,
        )
    }
}

/// Feeding any sequence of reads into a fresh chunker conserves every byte
/// in order — the emitted chunks followed by the leftover accumulation are
/// exactly the bytes read — each emitted chunk is exactly `target` bytes,
/// and when no single read exceeds the target the leftover stays below one
/// chunk, so exactly `floor(total/target)` chunks have been emitted.
pub proof fn lemma_chunker_conservation(reads: Seq<Seq<u8>>, target: int)
    requires
        target >= 1,
    ensures
        flat(run_reads(reads, target).0) + run_reads(reads, target).1 == flat(reads),
        forall|q: int|
            0 <= q < run_reads(reads, target).0.len() ==> (#[trigger] run_reads(
                reads,
                target,
            ).0[q]).len() == target,
        (forall|q: int| 0 <= q < reads.len() ==> (#[trigger] reads[q]).len() <= target)
            ==> run_reads(reads, target).1.len() < target,
    decreases reads.len(),
{
    if reads.len() == 0 {
        assert(flat(run_reads(reads, target).0) + run_reads(reads, target).1 =~= flat(reads));
    } else {
        let dl = reads.drop_last();
        lemma_chunker_conservation(dl, target);
        assert forall|q: int| 0 <= q < dl.len() implies (#[trigger] dl[q]).len() <= target
            || !(forall|p: int| 0 <= p < reads.len() ==> (#[trigger] reads[p]).len() <= target) by {
            assert(dl[q] == reads[q]);
        }
        let prior = run_reads(dl, target);
        let joined = prior.1 + reads.last();
        let cur = run_reads(reads, target);
        if joined.len() >= target {
            assert(cur.0 == prior.0.push(joined.take(target)));
            assert(cur.1 == joined.skip(target));
            assert(cur.0.drop_last() =~= prior.0);
            assert(cur.0.last() == joined.take(target));
            assert(flat(cur.0) == flat(prior.0) + joined.take(target));
            assert(joined.take(target) + joined.skip(target) =~= joined);
            assert(flat(cur.0) + cur.1 =~= flat(prior.0) + prior.1 + reads.last());
            assert(flat(prior.0) + prior.1 + reads.last() =~= flat(reads));
            assert forall|q: int| 0 <= q < cur.0.len() implies (#[trigger] cur.0[q]).len()
                == target by {
                if q < prior.0.len() {
                    assert(cur.0[q] == prior.0[q]);
                }
            }
        } else {
            assert(cur.0 == prior.0);
            assert(cur.1 == joined);
            assert(flat(cur.0) + cur.1 =~= flat(prior.0) + prior.1 + reads.last());
            assert(flat(prior.0) + prior.1 + reads.last() =~= flat(reads));
        }
    }
}

/// The recorder: a state flag and, while recording, the capture
/// subprocess and reader task (as its owner's handle tokens).
#[derive(Debug, Clone, PartialEq)]
pub struct AudioRecorder {
    pub state: RecorderState,
    /// The capture subprocess, while recording.
    pub process: Option<u64>,
    /// The reader task, while recording.
    pub reader_task: Option<u64>,
}

impl AudioRecorder {
    /// Recording exactly when the subprocess and reader are installed.
    pub open spec fn wf(self) -> bool {
        &&& self.state is Recording <==> self.process is Some
        &&& self.state is Recording <==> self.reader_task is Some
    }

    /// A fresh recorder, idle.
    pub fn new() -> (r: Self)
        ensures
            r.wf(),
            r.state is Idle,
    {
        AudioRecorder { state: RecorderState::Idle, process: None, reader_task: None }
    }

    /// Whether a capture pipeline is live.
    pub fn is_recording(&self) -> (b: bool)
        ensures
            b == (self.state is Recording),
    {
        match self.state {
            RecorderState::Recording => true,
            RecorderState::Idle => false,
        }
    }

    /// Installs a freshly spawned capture pipeline.  A recorder that is
    /// already recording refuses: `start_recording` is a no-op then, and
    /// no duplicate subprocess is ever installed.
    pub fn start_recording(&mut self, process: u64, reader_task: u64) -> (started: bool)
        requires
            old(self).wf(),
        ensures
            final(self).wf(),
            started == (old(self).state is Idle),
            started ==> final(self).state is Recording && final(self).process == Some(process)
                && final(self).reader_task == Some(reader_task),
            !started ==> *final(self) == *old(self),
    {
        match self.state {
            RecorderState::Recording => false,
            RecorderState::Idle => {
                self.state = RecorderState::Recording;
                self.process = Some(process);
                self.reader_task = Some(reader_task);
                true
            },
        }
    }

    /// Returns to idle and hands back what must be torn down: the reader
    /// task to abort and the subprocess to kill.  Idempotent — when
    /// already idle there is nothing to tear down and nothing changes.
    pub fn stop_recording(&mut self) -> (torn: (Option<u64>, Option<u64>))
        requires
            old(self).wf(),
        ensures
            final(self).wf(),
            final(self).state is Idle,
            torn.0 == old(self).reader_task,
            torn.1 == old(self).process,
            old(self).state is Idle ==> *final(self) == *old(self),
    {
        match self.state {
            RecorderState::Idle => (None, None),
            RecorderState::Recording => {
                self.state = RecorderState::Idle;
                let t = self.reader_task;
                let p = self.process;
                self.reader_task = None;
                self.process = None;
                (t, p)
            },
        }
    }
}

} // verus!
