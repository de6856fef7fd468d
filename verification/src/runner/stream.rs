//! Capturing a stream up to a limit.

use vstd::prelude::*;

use crate::io::{IoError, IoErrorView};

verus! {

/// Captured process output, presented after a task completes.
#[derive(Debug, Clone, PartialEq, Eq)]
pub struct CapturedOutput {
    pub stdout: Vec<u8>,
    pub stderr: Vec<u8>,
}

/// What a `CapturedOutput` holds.
pub struct CapturedView {
    pub stdout: Seq<u8>,
    pub stderr: Seq<u8>,
}

impl View for CapturedOutput {
    type V = CapturedView;

    open spec fn view(&self) -> CapturedView {
        CapturedView { stdout: self.stdout@, stderr: self.stderr@ }
    }
}

impl CapturedOutput {
    /// No output.
    pub fn empty() -> (r: CapturedOutput)
        ensures
            r@ == (CapturedView { stdout: seq![], stderr: seq![] }),
    {
        let r = CapturedOutput { stdout: Vec::new(), stderr: Vec::new() };
        assert(r@.stdout =~= seq![]);
        assert(r@.stderr =~= seq![]);
        r
    }
}

/// What has been kept of a stream.
#[derive(Debug, Clone, PartialEq, Eq)]
pub struct StreamCapture {
    pub bytes: Vec<u8>,
    pub exceeded: bool,
}

/// What to do about one chunk of a stream.
#[derive(Debug, Clone, Copy, PartialEq, Eq, Structural)]
pub struct ChunkAction {
    /// How many bytes of the chunk to show, or nothing at all.
    pub visible: Option<usize>,
    /// Whether to report that the stream has just exceeded its limit.
    pub notify: bool,
}

/// Whether `capture` is what a reader keeps of `written` under `limit`.
pub open spec fn captures(capture: StreamCapture, written: Seq<u8>, limit: nat) -> bool {
    &&& capture.exceeded == (written.len() > limit)
    &&& capture.bytes@ == if written.len() > limit {
        written.take(limit as int)
    } else {
        written
    }
}

impl StreamCapture {
    pub fn new() -> (r: StreamCapture)
        ensures
            forall|limit: nat| captures(r, seq![], limit),
    {
        let r = StreamCapture { bytes: Vec::new(), exceeded: false };
        assert(r.bytes@ =~= seq![]);
        r
    }

    /// Keep what the limit leaves of one chunk. Of a stream that has exceeded
    /// its limit nothing more is kept or shown.
    pub fn take(&mut self, chunk: &[u8], limit: usize) -> (r: ChunkAction)
        ensures
            old(self).exceeded ==> final(self).exceeded && final(self).bytes@ == old(self).bytes@
                && r == (ChunkAction { visible: None, notify: false }),
            !old(self).exceeded ==> ({
                let room = left_over(old(self).bytes@.len(), limit as nat);
                &&& final(self).exceeded == (chunk@.len() > room)
                &&& r.notify == (chunk@.len() > room)
                &&& r.visible == Some(shown_length(chunk@.len(), room))
                &&& final(self).bytes@ == old(self).bytes@ + chunk@.take(
                    shown_length(chunk@.len(), room) as int,
                )
            }),
    {
        if self.exceeded {
            return ChunkAction { visible: None, notify: false };
        }
        let remaining: usize = if self.bytes.len() <= limit {
            limit - self.bytes.len()
        } else {
            0
        };
        let visible: usize = if chunk.len() <= remaining {
            chunk.len()
        } else {
            remaining
        };
        let ghost before = self.bytes@;
        let mut i: usize = 0;
        assert(before + chunk@.take(0) =~= before);
        while i < visible
            invariant
                i <= visible <= chunk@.len(),
                self.bytes@ == before + chunk@.take(i as int),
                !self.exceeded,
            decreases visible - i,
        {
            self.bytes.push(chunk[i]);
            i += 1;
            assert(self.bytes@ =~= before + chunk@.take(i as int));
        }
        if chunk.len() > remaining {
            self.exceeded = true;
        }
        ChunkAction { visible: Some(visible), notify: chunk.len() > remaining }
    }
}

/// What a limit leaves after `held` bytes.
pub open spec fn left_over(held: nat, limit: nat) -> nat {
    if held <= limit {
        (limit - held) as nat
    } else {
        0
    }
}

/// How much of a chunk is shown.
pub open spec fn shown_length(length: nat, room: nat) -> usize {
    if length <= room {
        length as usize
    } else {
        room as usize
    }
}

/// One read of a stream: the bytes it gave, and how showing them went.
#[derive(Debug, PartialEq, Eq)]
pub struct ChunkRead {
    pub bytes: Result<Vec<u8>, IoError>,
    pub shown: Result<(), IoError>,
}

/// Where a stream ends: at the first read from `from` on that gives no bytes,
/// or else behind all reads.
pub open spec fn stream_end(chunks: Seq<ChunkRead>, from: int) -> int
    decreases chunks.len() - from,
{
    if from >= chunks.len() || (chunks[from].bytes matches Ok(bytes) && bytes@.len() == 0) {
        from
    } else {
        stream_end(chunks, from + 1)
    }
}

/// The reads before the end of the stream.
pub open spec fn delivered(chunks: Seq<ChunkRead>) -> Seq<ChunkRead> {
    chunks.take(stream_end(chunks, 0))
}

proof fn lemma_stream_end(chunks: Seq<ChunkRead>, from: int)
    requires
        0 <= from <= chunks.len(),
    ensures
        from <= stream_end(chunks, from) <= chunks.len(),
    decreases chunks.len() - from,
{
    if from < chunks.len() {
        lemma_stream_end(chunks, from + 1);
    }
}

/// The bytes of all reads, put together.
pub open spec fn stream_bytes(chunks: Seq<ChunkRead>) -> Seq<u8>
    decreases chunks.len(),
{
    if chunks.len() == 0 {
        seq![]
    } else {
        stream_bytes(chunks.drop_last()) + match chunks.last().bytes {
            Ok(bytes) => bytes@,
            Err(_) => seq![],
        }
    }
}

/// What stops the reading: the first read that fails, or the first chunk that
/// cannot be shown. Past its limit nothing of a stream is shown any more.
pub open spec fn read_failure(chunks: Seq<ChunkRead>, limit: nat) -> Option<IoErrorView>
    decreases chunks.len(),
{
    if chunks.len() == 0 {
        None
    } else if read_failure(chunks.drop_last(), limit) is Some {
        read_failure(chunks.drop_last(), limit)
    } else {
        match (chunks.last().bytes, chunks.last().shown) {
            (Err(source), _) => Some(source@),
            (Ok(_), Err(source)) => if stream_bytes(chunks.drop_last()).len() <= limit {
                Some(source@)
            } else {
                None
            },
            (Ok(_), Ok(_)) => None,
        }
    }
}

proof fn lemma_failure_stays(chunks: Seq<ChunkRead>, limit: nat, upto: int)
    requires
        0 <= upto <= chunks.len(),
        read_failure(chunks.take(upto), limit) is Some,
    ensures
        read_failure(chunks, limit) == read_failure(chunks.take(upto), limit),
    decreases chunks.len(),
{
    if upto < chunks.len() {
        assert(chunks.drop_last().take(upto) =~= chunks.take(upto));
        lemma_failure_stays(chunks.drop_last(), limit, upto);
    } else {
        assert(chunks.take(upto) =~= chunks);
    }
}

proof fn lemma_failure_ends(chunks: Seq<ChunkRead>, limit: nat, at: int)
    requires
        0 <= at < chunks.len(),
        stream_end(chunks, 0) == stream_end(chunks, at + 1),
        read_failure(chunks.take(at + 1), limit) is Some,
    ensures
        read_failure(delivered(chunks), limit) == read_failure(chunks.take(at + 1), limit),
{
    lemma_stream_end(chunks, at + 1);
    assert(delivered(chunks).take(at + 1) =~= chunks.take(at + 1));
    lemma_failure_stays(delivered(chunks), limit, at + 1);
}

/// A stream read to its end: what was kept, what was shown, and how often the
/// limit was reported.
#[derive(Debug, Clone, PartialEq, Eq)]
pub struct ReadStream {
    pub capture: StreamCapture,
    pub shown: Vec<u8>,
    pub notifications: usize,
}

/// Read a stream that arrives in `chunks`, keeping at most `limit` bytes. A
/// read that gives no bytes ends the stream.
///
/// What is shown while the stream arrives is what is kept, and a stream that
/// exceeds its limit is reported once.
pub fn read_stream(chunks: &Vec<ChunkRead>, limit: usize) -> (r: Result<ReadStream, IoError>)
    ensures
        match r {
            Err(source) => read_failure(delivered(chunks@), limit as nat) == Some(source@),
            Ok(done) => {
                &&& read_failure(delivered(chunks@), limit as nat) is None
                &&& captures(done.capture, stream_bytes(delivered(chunks@)), limit as nat)
                &&& done.shown@ == done.capture.bytes@
                &&& done.notifications == if stream_bytes(delivered(chunks@)).len() > limit {
                    1int
                } else {
                    0
                }
            },
        },
{
    let mut capture = StreamCapture::new();
    let mut shown: Vec<u8> = Vec::new();
    let mut notifications: usize = 0;
    let mut i: usize = 0;
    assert(chunks@.take(0) =~= seq![]);
    assert(captures(capture, seq![], limit as nat));
    assert(shown@ =~= capture.bytes@);
    while i < chunks.len()
        invariant
            i <= chunks@.len(),
            stream_end(chunks@, 0) == stream_end(chunks@, i as int),
            read_failure(chunks@.take(i as int), limit as nat) is None,
            captures(capture, stream_bytes(chunks@.take(i as int)), limit as nat),
            shown@ == capture.bytes@,
            notifications == if stream_bytes(chunks@.take(i as int)).len() > limit {
                1int
            } else {
                0
            },
        decreases chunks.len() - i,
    {
        let ghost written = stream_bytes(chunks@.take(i as int));
        assert(chunks@.take(i as int + 1).drop_last() =~= chunks@.take(i as int));
        assert(chunks@.take(i as int + 1).last() == chunks@[i as int]);
        let chunk = match &chunks[i].bytes {
            Ok(bytes) => bytes,
            Err(source) => {
                proof {
                    lemma_failure_ends(chunks@, limit as nat, i as int);
                }
                return Err(source.copy());
            },
        };
        if chunk.len() == 0 {
            return Ok(ReadStream { capture, shown, notifications });
        }
        let ghost before = capture.bytes@;
        let ghost kept = capture;
        let action = capture.take(chunk.as_slice(), limit);
        assert(captures(capture, written + chunk@, limit as nat)) by {
            let all = written + chunk@;
            if kept.exceeded {
                assert(all.take(limit as int) =~= written.take(limit as int));
            } else if chunk@.len() > limit - written.len() {
                assert(capture.bytes@ =~= all.take(limit as int));
            } else {
                assert(chunk@.take(chunk@.len() as int) =~= chunk@);
            }
        }
        if let Some(visible) = action.visible {
            if let Err(source) = &chunks[i].shown {
                proof {
                    lemma_failure_ends(chunks@, limit as nat, i as int);
                }
                return Err(source.copy());
            }
            let mut k: usize = 0;
            assert(before =~= before + chunk@.take(0));
            while k < visible
                invariant
                    k <= visible <= chunk@.len(),
                    shown@ == before + chunk@.take(k as int),
                decreases visible - k,
            {
                shown.push(chunk[k]);
                k += 1;
                assert(shown@ =~= before + chunk@.take(k as int));
            }
        }
        assert(shown@ =~= capture.bytes@);
        if action.notify {
            notifications = 1;
        }
        i += 1;
    }
    assert(chunks@.take(i as int) =~= chunks@);
    Ok(ReadStream { capture, shown, notifications })
}

} // verus!
