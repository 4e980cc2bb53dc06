//! Bounded capture of a hook's output stream.
//!
//! A stream whose bytes fit in the inline limit is returned whole. A longer
//! stream is spilled to a private file while it is read, and only a preview
//! is kept: its first half-limit of bytes and its last half-limit of bytes.
//! The reading and the file writes are done by the caller: [`StreamCapture`]
//! decides, for each chunk read, whether it stays inline or goes to the
//! spill file, and is told whether the spill file is still being written.
use vstd::prelude::*;
use vstd::utf8::{decode_utf8, valid_utf8};
use crate::text::{chars_of, extend_str, string_of};

verus! {

broadcast use vstd::string::group_string_axioms, vstd::std_specs::vecdeque::axiom_spec_len;

/// The most bytes a stream may have to be returned whole.
pub const INLINE_OUTPUT_LIMIT_BYTES: usize = 1048576;

/// The bytes of the head of a preview.
pub const PREVIEW_HEAD_BYTES: usize = 524288;

/// The bytes of the tail of a preview.
pub const PREVIEW_TAIL_BYTES: usize = 524288;

/// The last `n` elements of `s` (all of `s` when it is shorter).
pub open spec fn keep_last(s: Seq<u8>, n: nat) -> Seq<u8> {
    if s.len() <= n {
        s
    } else {
        s.skip(s.len() - n)
    }
}

/// The inline bytes once a chunk has gone to the preview: cut to the
/// preview head when longer.
pub open spec fn bounded_head(inline: Seq<u8>) -> Seq<u8> {
    if inline.len() > PREVIEW_HEAD_BYTES {
        inline.take(PREVIEW_HEAD_BYTES as int)
    } else {
        inline
    }
}

/// The tail once `chunk` has been added to it: its last preview-tail bytes,
/// when the tail was within that bound.
pub open spec fn bounded_tail(tail: Seq<u8>, chunk: Seq<u8>) -> Seq<u8> {
    if tail.len() <= PREVIEW_TAIL_BYTES {
        keep_last(tail + chunk, PREVIEW_TAIL_BYTES as nat)
    } else {
        tail + chunk
    }
}

/// `append_bounded_preview`: cuts the inline bytes to the preview head and
/// adds the chunk to the tail, dropping its oldest bytes beyond the preview
/// tail.
pub fn append_bounded_preview(inline: &mut Vec<u8>, tail: &mut std::collections::VecDeque<u8>, chunk: &[u8])
    ensures
        final(inline)@ == bounded_head(old(inline)@),
        final(tail)@ == bounded_tail(old(tail)@, chunk@),
{
    if inline.len() > PREVIEW_HEAD_BYTES {
        inline.truncate(PREVIEW_HEAD_BYTES);
    }
    let ghost start = tail@;
    let n = chunk.len();
    for i in 0..n
        invariant
            n == chunk@.len(),
            start == old(tail)@,
            tail@ == bounded_tail(start, chunk@.take(i as int)),
    {
        let ghost before = tail@;
        let ghost prefix = chunk@.take(i as int);
        if tail.len() == PREVIEW_TAIL_BYTES {
            tail.pop_front();
        }
        tail.push_back(chunk[i]);
        assert(chunk@.take(i + 1) =~= prefix.push(chunk@[i as int]));
        assert(start + chunk@.take(i + 1) =~= (start + prefix).push(chunk@[i as int]));
        proof {
            if start.len() <= PREVIEW_TAIL_BYTES {
                assert(tail@ =~= keep_last(start + chunk@.take(i + 1), PREVIEW_TAIL_BYTES as nat));
            } else {
                assert(tail@ =~= start + chunk@.take(i + 1));
            }
        }
    }
    assert(chunk@.take(n as int) =~= chunk@);
}

/// What the caller does with a chunk that does not stay inline.
#[derive(Clone, Copy, Debug, PartialEq, Eq, Structural)]
pub enum ChunkAction {
    /// The chunk was kept inline; nothing is to be written.
    KeepInline,
    /// Create the spill file, write the inline bytes to it, then the chunk.
    StartSpill,
    /// Write the chunk to the spill file.
    WriteSpill,
}

/// The bytes of a stream under capture, and whether the spill file is
/// being written.
pub struct StreamCapture {
    inline: Vec<u8>,
    tail: std::collections::VecDeque<u8>,
    spilling: bool,
    received: Ghost<Seq<u8>>,
    overflowed: Ghost<bool>,
    spill_log: Ghost<Seq<u8>>,
    spill_whole: Ghost<bool>,
}

/// The state of a capture, as plain values.
pub struct CaptureState {
    /// The inline bytes: the whole stream until it overflows, the preview
    /// head after.
    pub inline: Seq<u8>,
    /// The preview tail.
    pub tail: Seq<u8>,
    /// Whether the spill file is being written.
    pub spilling: bool,
    /// All the bytes read so far.
    pub received: Seq<u8>,
    /// Whether some chunk has failed to fit inline.
    pub overflowed: bool,
    /// The bytes that the caller was asked to write to the current spill
    /// file, in order.
    pub spill_log: Seq<u8>,
    /// Whether the current spill file was started at the first overflow and
    /// every write to it has succeeded.
    pub spill_whole: bool,
}

impl View for StreamCapture {
    type V = CaptureState;

    closed spec fn view(&self) -> CaptureState {
        CaptureState {
            inline: self.inline@,
            tail: self.tail@,
            spilling: self.spilling,
            received: self.received@,
            overflowed: self.overflowed@,
            spill_log: self.spill_log@,
            spill_whole: self.spill_whole@,
        }
    }
}

impl CaptureState {
    /// The bounds that a capture keeps: the inline bytes never exceed the
    /// inline limit, the tail never exceeds the preview tail, while
    /// spilling the inline bytes never exceed the preview head, and until
    /// the stream overflows the inline bytes are the whole stream.
    pub open spec fn wf(self) -> bool {
        &&& self.inline.len() <= INLINE_OUTPUT_LIMIT_BYTES
        &&& self.tail.len() <= PREVIEW_TAIL_BYTES
        &&& self.spilling ==> self.inline.len() <= PREVIEW_HEAD_BYTES
        &&& self.spilling ==> self.overflowed
        &&& !self.overflowed ==> self.inline == self.received && self.tail.len() == 0
        &&& self.spilling && self.spill_whole ==> self.spill_log == self.received
    }

    /// Whether a chunk of `len` bytes stays inline: no spill is being
    /// written and the inline bytes with the chunk fit the inline limit.
    pub open spec fn fits_inline(self, len: nat) -> bool {
        !self.spilling && self.inline.len() + len <= INLINE_OUTPUT_LIMIT_BYTES
    }
}

/// The text of a byte string read as UTF-8 with each invalid sequence
/// replaced by U+FFFD (`String::from_utf8_lossy`).
pub uninterp spec fn lossy_utf8(bytes: Seq<u8>) -> Seq<char>;

/// `String::from_utf8_lossy`: the text of the bytes, invalid sequences
/// replaced by U+FFFD. Its result is a function of the bytes alone, and for
/// valid UTF-8 it is the decoded text, as the documentation of std says.
#[verifier::external_body]
pub(crate) fn utf8_lossy(bytes: &[u8]) -> (text: String)
    ensures
        text@ == lossy_utf8(bytes@),
        valid_utf8(bytes@) ==> text@ == decode_utf8(bytes@),
{
    String::from_utf8_lossy(bytes).into_owned()
}

/// The footer after a truncated stream's preview.
pub open spec fn truncation_footer(stream_name: Seq<char>, path: Seq<char>) -> Seq<char> {
    "\n\n[hook "@ + stream_name + " truncated; full output saved to: "@ + path + "]"@
}

/// What a capture returns: while a spill file is being written, the
/// preview (head and tail) as text and a footer naming the spill file;
/// otherwise the inline bytes as text.
pub open spec fn captured_text(s: CaptureState, stream_name: Seq<char>, spill_path: Seq<char>) -> Seq<char> {
    if s.spilling {
        lossy_utf8(s.inline + s.tail) + truncation_footer(stream_name, spill_path)
    } else {
        lossy_utf8(s.inline)
    }
}

impl StreamCapture {
    /// A capture that has read nothing.
    pub fn new() -> (c: StreamCapture)
        ensures
            c@.wf(),
            c@.inline.len() == 0,
            c@.tail.len() == 0,
            !c@.spilling,
            c@.received.len() == 0,
            !c@.overflowed,
    {
        let c = StreamCapture {
            inline: Vec::new(),
            tail: std::collections::VecDeque::new(),
            spilling: false,
            received: Ghost(Seq::empty()),
            overflowed: Ghost(false),
            spill_log: Ghost(Seq::empty()),
            spill_whole: Ghost(false),
        };
        assert(c@.inline =~= c@.received);
        c
    }

    /// Reads a chunk. A chunk that fits inline is appended to the inline
    /// bytes; otherwise the capture is unchanged and the caller is told to
    /// start the spill file or to write to it.
    pub fn on_chunk(&mut self, chunk: &[u8]) -> (action: ChunkAction)
        requires
            old(self)@.wf(),
        ensures
            final(self)@.wf(),
            old(self)@.fits_inline(chunk@.len()) ==> {
                &&& action == ChunkAction::KeepInline
                &&& final(self)@ == (CaptureState {
                    inline: old(self)@.inline + chunk@,
                    received: old(self)@.received + chunk@,
                    ..old(self)@
                })
            },
            !old(self)@.fits_inline(chunk@.len()) ==> {
                &&& action == (if old(self)@.spilling {
                    ChunkAction::WriteSpill
                } else {
                    ChunkAction::StartSpill
                })
                &&& final(self)@ == old(self)@
            },
    {
        if !self.spilling && self.inline.len().saturating_add(chunk.len())
            <= INLINE_OUTPUT_LIMIT_BYTES {
            let ghost before = self.inline@;
            let ghost s0 = self@;
            let n = chunk.len();
            for i in 0..n
                invariant
                    n == chunk@.len(),
                    self.inline@ == before + chunk@.take(i as int),
                    self.tail@ == s0.tail,
                    self.spilling == s0.spilling,
                    self.received@ == s0.received,
                    self.overflowed@ == s0.overflowed,
                    self.spill_log@ == s0.spill_log,
                    self.spill_whole@ == s0.spill_whole,
            {
                self.inline.push(chunk[i]);
                assert(chunk@.take(i + 1) =~= chunk@.take(i as int).push(chunk@[i as int]));
            }
            assert(chunk@.take(n as int) =~= chunk@);
            self.received = Ghost(self.received@ + chunk@);
            ChunkAction::KeepInline
        } else if self.spilling {
            ChunkAction::WriteSpill
        } else {
            ChunkAction::StartSpill
        }
    }

    /// The inline bytes, which the caller writes first to a new spill file.
    pub fn inline_bytes(&self) -> (b: &[u8])
        ensures
            b@ == self@.inline,
    {
        self.inline.as_slice()
    }

    /// Completes a chunk that did not stay inline: `spill_alive` tells
    /// whether the spill file exists and holds the chunk. The chunk then
    /// goes to the preview. The bytes asked of the spill file are the inline
    /// bytes and the chunk when the file was to be started, the chunk when
    /// it was being written.
    pub fn after_spill(&mut self, chunk: &[u8], spill_alive: bool)
        requires
            old(self)@.wf(),
        ensures
            final(self)@.wf(),
            final(self)@ == (CaptureState {
                inline: bounded_head(old(self)@.inline),
                tail: bounded_tail(old(self)@.tail, chunk@),
                spilling: spill_alive,
                received: old(self)@.received + chunk@,
                overflowed: true,
                spill_log: if old(self)@.spilling {
                    old(self)@.spill_log + chunk@
                } else {
                    old(self)@.inline + chunk@
                },
                spill_whole: if old(self)@.spilling {
                    old(self)@.spill_whole && spill_alive
                } else {
                    spill_alive && !old(self)@.overflowed
                },
            }),
    {
        let ghost old_inline = self.inline@;
        if self.spilling {
            self.spill_log = Ghost(self.spill_log@ + chunk@);
            let ghost whole = self.spill_whole@ && spill_alive;
            self.spill_whole = Ghost(whole);
        } else {
            self.spill_log = Ghost(old_inline + chunk@);
            let ghost whole = spill_alive && !self.overflowed@;
            self.spill_whole = Ghost(whole);
        }
        append_bounded_preview(&mut self.inline, &mut self.tail, chunk);
        self.spilling = spill_alive;
        self.received = Ghost(self.received@ + chunk@);
        self.overflowed = Ghost(true);
    }

    /// The captured text: the preview and a footer naming `spill_path` while
    /// a spill file is written, the inline bytes otherwise.
    pub fn finish(&self, stream_name: &str, spill_path: &str) -> (text: String)
        requires
            self@.wf(),
        ensures
            text@ == captured_text(self@, stream_name@, spill_path@),
            !self@.spilling && valid_utf8(self@.inline) ==> text@ == decode_utf8(self@.inline),
            self@.spilling && valid_utf8(self@.inline + self@.tail) ==> text@ == decode_utf8(
                self@.inline + self@.tail,
            ) + truncation_footer(stream_name@, spill_path@),
            self@.spilling ==> (self@.inline + self@.tail).len() <= INLINE_OUTPUT_LIMIT_BYTES,
    {
        if self.spilling {
            let mut preview: Vec<u8> = Vec::new();
            let n = self.inline.len();
            for i in 0..n
                invariant
                    n == self.inline@.len(),
                    preview@ == self.inline@.take(i as int),
            {
                preview.push(self.inline[i]);
                assert(self.inline@.take(i + 1) =~= self.inline@.take(i as int).push(
                    self.inline@[i as int],
                ));
            }
            assert(self.inline@.take(n as int) =~= self.inline@);
            let m = self.tail.len();
            for i in 0..m
                invariant
                    m == self.tail@.len(),
                    preview@ == self.inline@ + self.tail@.take(i as int),
            {
                preview.push(self.tail[i]);
                assert(self.tail@.take(i + 1) =~= self.tail@.take(i as int).push(
                    self.tail@[i as int],
                ));
            }
            assert(self.tail@.take(m as int) =~= self.tail@);
            let text = utf8_lossy(preview.as_slice());
            let mut out = chars_of(text.as_str());
            extend_str(&mut out, "\n\n[hook ");
            extend_str(&mut out, stream_name);
            extend_str(&mut out, " truncated; full output saved to: ");
            extend_str(&mut out, spill_path);
            extend_str(&mut out, "]");
            assert(out@ =~= captured_text(self@, stream_name@, spill_path@));
            assert(preview@ =~= self@.inline + self@.tail);
            string_of(&out)
        } else {
            utf8_lossy(self.inline.as_slice())
        }
    }
}

/// A spill file started at the first overflow, to which every write
/// succeeded, has been asked to hold the whole stream.
pub proof fn lemma_whole_spill_holds_stream(s: CaptureState)
    requires
        s.wf(),
        s.spilling,
        s.spill_whole,
    ensures
        s.spill_log == s.received,
{
}

/// A stream that never overflowed is returned whole.
pub proof fn lemma_small_stream_returned_whole(s: CaptureState, stream_name: Seq<char>, path: Seq<char>)
    requires
        s.wf(),
        !s.overflowed,
    ensures
        captured_text(s, stream_name, path) == lossy_utf8(s.received),
{
}

} // verus!
