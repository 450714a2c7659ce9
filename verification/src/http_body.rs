//! Reading a reply from a connection that hands over its bytes in pieces.

use vstd::prelude::*;
use vstd::slice::slice_subrange;
use vstd::slice::slice_to_vec;
use vstd::string::*;
use vstd::utf8::*;

use crate::bytes;
use crate::bytes::append_bytes;
use crate::http_text;
use crate::numbers;
use crate::ppp_proto::drop_front;
use crate::stream::{ReadOutcome, ReadView, BUFFER_LIMIT};
use crate::text;

verus! {

// ---------------------------------------------------------------------------
// Chunks
// ---------------------------------------------------------------------------

/// What comes next in a body made of chunks.
#[derive(Clone, Copy)]
pub enum ChunkPhase {
    /// A line with the size of a chunk.
    Line,
    /// That many bytes of a chunk.
    Data(usize),
    /// The end of the line behind a chunk.
    End,
}

/// How far the bytes at hand go.
pub enum ChunkStop {
    /// More bytes are needed to get past this point.
    Wait(ChunkPhase),
    /// The body is complete.
    Done,
    /// The bytes are no chunks.
    Bad(Seq<char>),
}

/// The body so far, the bytes not used yet, and how far they go.
#[verifier::ext_equal]
pub struct ChunkRun {
    pub out: Seq<u8>,
    pub pending: Seq<u8>,
    pub stop: ChunkStop,
}

/// The order of the phases within one chunk, for termination.
pub open spec fn rank(phase: ChunkPhase) -> nat {
    match phase {
        ChunkPhase::Line => 0,
        ChunkPhase::End => 1,
        ChunkPhase::Data(_) => 2,
    }
}

/// The size in the line in front of a chunk: hexadecimal, up to a semicolon.
pub open spec fn chunk_size(line: Seq<u8>) -> Result<nat, Seq<char>> {
    if !valid_utf8(line) {
        Err(bytes::utf8_complaint(line))
    } else {
        let s = decode_utf8(line);
        let hex = text::trimmed(s.take(text::reach(s, ';')));
        match numbers::bounded_value(hex, 16, usize::MAX as nat) {
            Some(n) => Ok(n),
            None => Err("chunk size: "@ + hex),
        }
    }
}

/// What the bytes at hand make of the body.
pub open spec fn chunk_run(phase: ChunkPhase, out: Seq<u8>, pending: Seq<u8>) -> ChunkRun
    decreases pending.len(), rank(phase),
{
    match phase {
        ChunkPhase::Line => match text::first_at(pending, http_text::crlf()) {
            Some(at) => if 0 <= at && at + 2 <= pending.len() {
                let rest = pending.skip(at + 2);
                match chunk_size(pending.take(at)) {
                    Err(m) => ChunkRun { out, pending, stop: ChunkStop::Bad(m) },
                    Ok(n) => if n == 0 {
                        ChunkRun {
                            out,
                            pending: if text::has_prefix(rest, http_text::crlf()) {
                                rest.skip(2)
                            } else {
                                rest
                            },
                            stop: ChunkStop::Done,
                        }
                    } else {
                        chunk_run(ChunkPhase::Data(n as usize), out, rest)
                    },
                }
            } else {
                ChunkRun { out, pending, stop: ChunkStop::Wait(phase) }
            },
            None => ChunkRun { out, pending, stop: ChunkStop::Wait(phase) },
        },
        ChunkPhase::Data(n) => if pending.len() < n {
            ChunkRun { out, pending, stop: ChunkStop::Wait(phase) }
        } else {
            chunk_run(ChunkPhase::End, out + pending.take(n as int), pending.skip(n as int))
        },
        ChunkPhase::End => if pending.len() < 2 {
            ChunkRun { out, pending, stop: ChunkStop::Wait(phase) }
        } else if text::has_prefix(pending, http_text::crlf()) {
            chunk_run(ChunkPhase::Line, out, pending.skip(2))
        } else {
            ChunkRun { out, pending, stop: ChunkStop::Bad("chunk framing CRLF mancante"@) }
        },
    }
}

/// How far the bytes at hand go.
enum ChunkStep {
    Wait(ChunkPhase),
    Done,
    Bad(String),
}

/// The step without its representation.
spec fn chunk_step_view(s: ChunkStep) -> ChunkStop {
    match s {
        ChunkStep::Wait(p) => ChunkStop::Wait(p),
        ChunkStep::Done => ChunkStop::Done,
        ChunkStep::Bad(m) => ChunkStop::Bad(m@),
    }
}

/// The size in the line in front of a chunk.
fn parse_chunk_size(line: &[u8]) -> (r: Result<usize, String>)
    ensures
        match r {
            Ok(n) => chunk_size(line@) == Ok::<nat, Seq<char>>(n as nat),
            Err(m) => chunk_size(line@) == Err::<nat, Seq<char>>(m@),
        },
{
    let s = match bytes::utf8_text(line) {
        Ok(s) => s,
        Err(m) => {
            return Err(m);
        },
    };
    let cs = text::to_chars(s.as_str());
    let end: usize = text::position(cs.as_slice(), ';');
    proof {
        assert(cs@.subrange(0, end as int) =~= cs@.take(end as int));
    }
    let hex = text::trim(slice_subrange(cs.as_slice(), 0, end));
    match numbers::parse_unsigned(hex, 16, usize::MAX as u64) {
        Some(n) => Ok(n as usize),
        None => {
            let mut m: String = "chunk size: ".to_string();
            m.append(text::to_text(hex).as_str());
            Err(m)
        },
    }
}

/// Whether the bytes begin with the end of a line.
fn begins_with_crlf(b: &[u8]) -> (r: bool)
    ensures
        r == text::has_prefix(b@, http_text::crlf()),
{
    bytes::bytes_match_at(b, http_text::crlf_bytes().as_slice(), 0)
}

/// Takes what the bytes at hand make of the body.
fn run_chunks(phase: ChunkPhase, out: &mut Vec<u8>, pending: &mut Vec<u8>) -> (r: ChunkStep)
    ensures
        chunk_run(phase, old(out)@, old(pending)@) == (ChunkRun {
            out: final(out)@,
            pending: final(pending)@,
            stop: chunk_step_view(r),
        }),
{
    let mut at: ChunkPhase = phase;
    let ghost wanted = chunk_run(phase, out@, pending@);
    loop
        invariant
            wanted == chunk_run(phase, old(out)@, old(pending)@),
            wanted == chunk_run(at, out@, pending@),
        decreases pending@.len(), rank(at),
    {
        match at {
            ChunkPhase::Line => {
                let pos: usize = match bytes::find_bytes(
                    pending.as_slice(),
                    http_text::crlf_bytes().as_slice(),
                ) {
                    Some(pos) => pos,
                    None => {
                        return ChunkStep::Wait(at);
                    },
                };
                proof {
                    text::lemma_find_from(pending@, http_text::crlf(), 0);
                    assert(pending@.subrange(0, pos as int) =~= pending@.take(pos as int));
                }
                let n: usize = match parse_chunk_size(
                    slice_subrange(pending.as_slice(), 0, pos),
                ) {
                    Ok(n) => n,
                    Err(m) => {
                        return ChunkStep::Bad(m);
                    },
                };
                drop_front(pending, pos + 2);
                if n == 0 {
                    if begins_with_crlf(pending.as_slice()) {
                        drop_front(pending, 2);
                    }
                    return ChunkStep::Done;
                }
                at = ChunkPhase::Data(n);
            },
            ChunkPhase::Data(n) => {
                if pending.len() < n {
                    return ChunkStep::Wait(at);
                }
                proof {
                    assert(pending@.subrange(0, n as int) =~= pending@.take(n as int));
                }
                append_bytes(out, slice_subrange(pending.as_slice(), 0, n));
                drop_front(pending, n);
                at = ChunkPhase::End;
            },
            ChunkPhase::End => {
                if pending.len() < 2 {
                    return ChunkStep::Wait(at);
                }
                if !begins_with_crlf(pending.as_slice()) {
                    return ChunkStep::Bad("chunk framing CRLF mancante".to_string());
                }
                drop_front(pending, 2);
                at = ChunkPhase::Line;
            },
        }
    }
}

// ---------------------------------------------------------------------------
// The reply
// ---------------------------------------------------------------------------

/// How long a read may take, in milliseconds.
pub const READ_TIMEOUT_MS: u64 = 45000;

/// How long a read may take where the reply does not say how long it is.
pub const RESIDUAL_TIMEOUT_MS: u64 = 500;

/// How many reads there are at most where the reply does not say how long it
/// is.
pub const RESIDUAL_READS: u32 = 50;

/// What comes next in a reply.
#[derive(Clone, Copy)]
pub enum ReplyPhase {
    /// The head.
    Head,
    /// A body of that many bytes.
    Exact(usize),
    /// A body made of chunks.
    Chunked(ChunkPhase),
    /// A body without a length, after that many reads.
    Residual(u32),
    /// Nothing.
    Complete,
}

/// A reply while it is being read.
pub struct HttpReply {
    pub phase: ReplyPhase,
    /// Bytes that are not used yet.
    pub buf: Vec<u8>,
    /// The body so far.
    pub body: Vec<u8>,
    pub status: u16,
    /// Names in lower case, and values.
    pub headers: Vec<(String, String)>,
}

/// A reply without its representation.
#[verifier::ext_equal]
pub struct HttpReplyView {
    pub phase: ReplyPhase,
    pub buf: Seq<u8>,
    pub body: Seq<u8>,
    pub status: u16,
    pub headers: Seq<(Seq<char>, Seq<char>)>,
}

impl View for HttpReply {
    type V = HttpReplyView;

    open spec fn view(&self) -> HttpReplyView {
        HttpReplyView {
            phase: self.phase,
            buf: self.buf@,
            body: self.body@,
            status: self.status,
            headers: text::pair_views(self.headers@),
        }
    }
}

/// What to do next to read a reply.
pub enum HttpStep {
    /// Read, for at most that many milliseconds.
    Read(u64),
    /// The reply is complete.
    Done,
    /// There is no reply, for this reason.
    Failed(String),
}

/// The step without its representation.
pub enum HttpStepView {
    Read(u64),
    Done,
    Failed(Seq<char>),
}

impl View for HttpStep {
    type V = HttpStepView;

    open spec fn view(&self) -> HttpStepView {
        match self {
            HttpStep::Read(ms) => HttpStepView::Read(*ms),
            HttpStep::Done => HttpStepView::Done,
            HttpStep::Failed(m) => HttpStepView::Failed(m@),
        }
    }
}

/// Before the first byte.
pub open spec fn fresh_reply() -> HttpReplyView {
    HttpReplyView {
        phase: ReplyPhase::Head,
        buf: Seq::empty(),
        body: Seq::empty(),
        status: 0,
        headers: Seq::empty(),
    }
}

/// The reply and the step after the chunks at hand were taken.
pub open spec fn chunks_taken(v: HttpReplyView, phase: ChunkPhase) -> (
    HttpReplyView,
    HttpStepView,
) {
    let run = chunk_run(phase, v.body, v.buf);
    let taken = HttpReplyView { body: run.out, buf: run.pending, ..v };
    match run.stop {
        ChunkStop::Wait(p) => (
            HttpReplyView { phase: ReplyPhase::Chunked(p), ..taken },
            HttpStepView::Read(READ_TIMEOUT_MS),
        ),
        ChunkStop::Done => (
            HttpReplyView { phase: ReplyPhase::Complete, ..taken },
            HttpStepView::Done,
        ),
        ChunkStop::Bad(m) => (taken, HttpStepView::Failed(m)),
    }
}

/// The body is made of chunks.
pub open spec fn is_chunked(headers: Seq<(Seq<char>, Seq<char>)>) -> bool {
    match http_text::header_named(headers, "transfer-encoding"@) {
        Some(te) => text::has_part(text::lowered(te), "chunked"@),
        None => false,
    }
}

/// The reply and the step after the head, with the bytes behind it.
pub open spec fn body_begun(
    status: u16,
    headers: Seq<(Seq<char>, Seq<char>)>,
    rest: Seq<u8>,
) -> (HttpReplyView, HttpStepView) {
    let v = HttpReplyView {
        phase: ReplyPhase::Complete,
        buf: Seq::empty(),
        body: Seq::empty(),
        status,
        headers,
    };
    if is_chunked(headers) {
        chunks_taken(HttpReplyView { buf: rest, ..v }, ChunkPhase::Line)
    } else {
        match http_text::header_named(headers, "content-length"@) {
            Some(length) => match numbers::bounded_value(
                text::trimmed(length),
                10,
                usize::MAX as nat,
            ) {
                Some(n) => if rest.len() >= n {
                    (HttpReplyView { body: rest.take(n as int), ..v }, HttpStepView::Done)
                } else {
                    (
                        HttpReplyView { phase: ReplyPhase::Exact(n as usize), body: rest, ..v },
                        HttpStepView::Read(READ_TIMEOUT_MS),
                    )
                },
                None => (v, HttpStepView::Failed("Content-Length invalido: "@ + length)),
            },
            None => (
                HttpReplyView { phase: ReplyPhase::Residual(0), body: rest, ..v },
                HttpStepView::Read(RESIDUAL_TIMEOUT_MS),
            ),
        }
    }
}

/// The reply and the step after bytes came while the head was awaited.
pub open spec fn head_grown(v: HttpReplyView) -> (HttpReplyView, HttpStepView) {
    match http_text::head_end(v.buf) {
        None => (v, HttpStepView::Read(READ_TIMEOUT_MS)),
        Some(end) => match http_text::head_in(v.buf.take(end)) {
            Err(m) => (v, HttpStepView::Failed(m)),
            Ok((status, headers)) => body_begun(status, headers, v.buf.skip(end)),
        },
    }
}

/// What is said when nothing comes in time.
pub open spec fn timeout_words(phase: ReplyPhase) -> Seq<char> {
    match phase {
        ReplyPhase::Head => "timeout header HTTP"@,
        ReplyPhase::Chunked(ChunkPhase::Line) => "timeout chunked"@,
        ReplyPhase::Chunked(ChunkPhase::Data(_)) => "timeout chunk data"@,
        ReplyPhase::Chunked(ChunkPhase::End) => "timeout dopo chunk"@,
        _ => "timeout corpo HTTP"@,
    }
}

/// What is said at the end of the stream.
pub open spec fn eof_words(phase: ReplyPhase) -> Seq<char> {
    match phase {
        ReplyPhase::Head => "EOF durante header HTTP"@,
        ReplyPhase::Chunked(ChunkPhase::Line) => "EOF in chunked size line"@,
        ReplyPhase::Chunked(ChunkPhase::Data(_)) => "EOF dentro chunk"@,
        ReplyPhase::Chunked(ChunkPhase::End) => "EOF dopo chunk"@,
        _ => "EOF durante lettura corpo HTTP"@,
    }
}

/// The reply and the step after bytes came.
pub open spec fn reply_grown(v: HttpReplyView, more: Seq<u8>) -> (HttpReplyView, HttpStepView) {
    match v.phase {
        ReplyPhase::Head => if v.buf.len() + more.len() > BUFFER_LIMIT {
            (v, HttpStepView::Failed("header HTTP troppo grandi"@))
        } else {
            head_grown(HttpReplyView { buf: v.buf + more, ..v })
        },
        ReplyPhase::Exact(n) => if v.body.len() + more.len() < n {
            (HttpReplyView { body: v.body + more, ..v }, HttpStepView::Read(READ_TIMEOUT_MS))
        } else {
            (
                HttpReplyView {
                    phase: ReplyPhase::Complete,
                    body: (v.body + more).take(n as int),
                    ..v
                },
                HttpStepView::Done,
            )
        },
        ReplyPhase::Chunked(p) => if p is Line && v.buf.len() + more.len() > BUFFER_LIMIT {
            (v, HttpStepView::Failed("chunked buffer eccessivo"@))
        } else {
            chunks_taken(HttpReplyView { buf: v.buf + more, ..v }, p)
        },
        ReplyPhase::Residual(reads) => if v.body.len() + more.len() > BUFFER_LIMIT || reads + 1
            >= RESIDUAL_READS {
            (
                HttpReplyView { phase: ReplyPhase::Complete, body: v.body + more, ..v },
                HttpStepView::Done,
            )
        } else {
            (
                HttpReplyView {
                    phase: ReplyPhase::Residual((reads + 1) as u32),
                    body: v.body + more,
                    ..v
                },
                HttpStepView::Read(RESIDUAL_TIMEOUT_MS),
            )
        },
        ReplyPhase::Complete => (v, HttpStepView::Done),
    }
}

/// The reply and the step after a read.
pub open spec fn after_read(v: HttpReplyView, outcome: ReadView) -> (HttpReplyView, HttpStepView) {
    let ended = (HttpReplyView { phase: ReplyPhase::Complete, ..v }, HttpStepView::Done);
    match outcome {
        ReadView::Failed(e) => (v, HttpStepView::Failed(e)),
        ReadView::TimedOut => if v.phase is Residual || v.phase is Complete {
            ended
        } else {
            (v, HttpStepView::Failed(timeout_words(v.phase)))
        },
        ReadView::Data(b) => if b.len() > 0 {
            reply_grown(v, b)
        } else if v.phase is Residual || v.phase is Complete {
            ended
        } else {
            (v, HttpStepView::Failed(eof_words(v.phase)))
        },
    }
}

/// The step is the one wanted and, unless it is a failure, so is the reply.
pub open spec fn is_step(
    reply: HttpReplyView,
    step: HttpStepView,
    wanted: (HttpReplyView, HttpStepView),
) -> bool {
    step == wanted.1 && (step is Failed || reply == wanted.0)
}

impl HttpReply {
    /// Before the first byte: the first step is to read for at most
    /// `READ_TIMEOUT_MS`.
    pub fn new() -> (r: Self)
        ensures
            r@ == fresh_reply(),
    {
        let r = HttpReply {
            phase: ReplyPhase::Head,
            buf: Vec::new(),
            body: Vec::new(),
            status: 0,
            headers: Vec::new(),
        };
        proof {
            assert(r@ =~= fresh_reply());
        }
        r
    }

    /// Takes the chunks at hand.
    fn take_chunks(&mut self, phase: ChunkPhase) -> (r: HttpStep)
        ensures
            is_step(final(self)@, r@, chunks_taken(old(self)@, phase)),
    {
        match run_chunks(phase, &mut self.body, &mut self.buf) {
            ChunkStep::Wait(p) => {
                self.phase = ReplyPhase::Chunked(p);
                HttpStep::Read(READ_TIMEOUT_MS)
            },
            ChunkStep::Done => {
                self.phase = ReplyPhase::Complete;
                HttpStep::Done
            },
            ChunkStep::Bad(m) => HttpStep::Failed(m),
        }
    }

    /// Begins with the body, the bytes of which are in the buffer.
    fn begin_body(&mut self) -> (r: HttpStep)
        ensures
            is_step(
                final(self)@,
                r@,
                body_begun(old(self)@.status, old(self)@.headers, old(self)@.buf),
            ),
    {
        let ghost all = self.buf@;
        self.body = Vec::new();
        self.phase = ReplyPhase::Complete;
        proof {
            assert(self.body@ =~= Seq::empty());
        }
        if let Some(te) = http_text::find_header(&self.headers, "transfer-encoding") {
            let cs = text::to_chars(te.as_str());
            let lower = text::lower(cs.as_slice());
            if text::contains_text(lower.as_slice(), "chunked") {
                return self.take_chunks(ChunkPhase::Line);
            }
        }
        let rest: Vec<u8> = slice_to_vec(self.buf.as_slice());
        self.buf = Vec::new();
        proof {
            assert(self.buf@ =~= Seq::empty());
            assert(rest@ =~= all);
        }
        match http_text::find_header(&self.headers, "content-length") {
            Some(length) => {
                let cs = text::to_chars(length.as_str());
                match numbers::parse_unsigned(text::trim(cs.as_slice()), 10, usize::MAX as u64) {
                    Some(wide) => {
                        let n: usize = wide as usize;
                        if rest.len() >= n {
                            proof {
                                assert(rest@.subrange(0, n as int) =~= rest@.take(n as int));
                            }
                            self.body = slice_to_vec(slice_subrange(rest.as_slice(), 0, n));
                            return HttpStep::Done;
                        }
                        self.phase = ReplyPhase::Exact(n);
                        self.body = rest;
                        HttpStep::Read(READ_TIMEOUT_MS)
                    },
                    None => {
                        let mut m: String = "Content-Length invalido: ".to_string();
                        m.append(length.as_str());
                        HttpStep::Failed(m)
                    },
                }
            },
            None => {
                self.phase = ReplyPhase::Residual(0);
                self.body = rest;
                HttpStep::Read(RESIDUAL_TIMEOUT_MS)
            },
        }
    }

    /// Looks for the end of the head in the buffer.
    fn scan_head(&mut self) -> (r: HttpStep)
        ensures
            is_step(final(self)@, r@, head_grown(old(self)@)),
    {
        let end: usize = match http_text::find_headers_end(self.buf.as_slice()) {
            Some(end) => end,
            None => {
                return HttpStep::Read(READ_TIMEOUT_MS);
            },
        };
        proof {
            assert(self.buf@.subrange(0, end as int) =~= self.buf@.take(end as int));
        }
        match http_text::parse_headers(slice_subrange(self.buf.as_slice(), 0, end)) {
            Ok((status, headers)) => {
                self.status = status;
                self.headers = headers;
                drop_front(&mut self.buf, end);
                self.begin_body()
            },
            Err(m) => HttpStep::Failed(m),
        }
    }

    /// Takes in bytes.
    fn grow(&mut self, more: &[u8]) -> (r: HttpStep)
        ensures
            is_step(final(self)@, r@, reply_grown(old(self)@, more@)),
    {
        match self.phase {
            ReplyPhase::Head => {
                append_bytes(&mut self.buf, more);
                if self.buf.len() > BUFFER_LIMIT {
                    return HttpStep::Failed("header HTTP troppo grandi".to_string());
                }
                self.scan_head()
            },
            ReplyPhase::Exact(n) => {
                append_bytes(&mut self.body, more);
                if self.body.len() < n {
                    return HttpStep::Read(READ_TIMEOUT_MS);
                }
                self.body.truncate(n);
                self.phase = ReplyPhase::Complete;
                proof {
                    assert(self.body@ =~= (old(self).body@ + more@).take(n as int));
                }
                HttpStep::Done
            },
            ReplyPhase::Chunked(p) => {
                append_bytes(&mut self.buf, more);
                if let ChunkPhase::Line = p {
                    if self.buf.len() > BUFFER_LIMIT {
                        return HttpStep::Failed("chunked buffer eccessivo".to_string());
                    }
                }
                self.take_chunks(p)
            },
            ReplyPhase::Residual(reads) => {
                append_bytes(&mut self.body, more);
                if self.body.len() > BUFFER_LIMIT || reads >= RESIDUAL_READS - 1 {
                    self.phase = ReplyPhase::Complete;
                    return HttpStep::Done;
                }
                self.phase = ReplyPhase::Residual(reads + 1);
                HttpStep::Read(RESIDUAL_TIMEOUT_MS)
            },
            ReplyPhase::Complete => HttpStep::Done,
        }
    }

    /// Takes in what a read gave.
    pub fn receive(&mut self, outcome: ReadOutcome) -> (r: HttpStep)
        ensures
            is_step(final(self)@, r@, after_read(old(self)@, outcome@)),
    {
        let ended: bool = match self.phase {
            ReplyPhase::Residual(_) => true,
            ReplyPhase::Complete => true,
            _ => false,
        };
        match outcome {
            ReadOutcome::Failed(e) => HttpStep::Failed(e),
            ReadOutcome::TimedOut => {
                if ended {
                    self.phase = ReplyPhase::Complete;
                    return HttpStep::Done;
                }
                HttpStep::Failed(timeout_text(self.phase))
            },
            ReadOutcome::Data(b) => {
                if b.len() > 0 {
                    return self.grow(b.as_slice());
                }
                if ended {
                    self.phase = ReplyPhase::Complete;
                    return HttpStep::Done;
                }
                HttpStep::Failed(eof_text(self.phase))
            },
        }
    }
}

/// What is said when nothing comes in time.
fn timeout_text(phase: ReplyPhase) -> (r: String)
    ensures
        r@ == timeout_words(phase),
{
    match phase {
        ReplyPhase::Head => "timeout header HTTP".to_string(),
        ReplyPhase::Chunked(ChunkPhase::Line) => "timeout chunked".to_string(),
        ReplyPhase::Chunked(ChunkPhase::Data(_)) => "timeout chunk data".to_string(),
        ReplyPhase::Chunked(ChunkPhase::End) => "timeout dopo chunk".to_string(),
        _ => "timeout corpo HTTP".to_string(),
    }
}

/// What is said at the end of the stream.
fn eof_text(phase: ReplyPhase) -> (r: String)
    ensures
        r@ == eof_words(phase),
{
    match phase {
        ReplyPhase::Head => "EOF durante header HTTP".to_string(),
        ReplyPhase::Chunked(ChunkPhase::Line) => "EOF in chunked size line".to_string(),
        ReplyPhase::Chunked(ChunkPhase::Data(_)) => "EOF dentro chunk".to_string(),
        ReplyPhase::Chunked(ChunkPhase::End) => "EOF dopo chunk".to_string(),
        _ => "EOF durante lettura corpo HTTP".to_string(),
    }
}

// ---------------------------------------------------------------------------
// Laws
// ---------------------------------------------------------------------------

/// It makes no difference where the stream cuts a body made of chunks: what
/// two pieces one after the other make of it is what they make of it
/// together. A body that is complete, or no body, stays so.
pub proof fn law_chunk_cuts_make_no_difference(
    phase: ChunkPhase,
    out: Seq<u8>,
    pending: Seq<u8>,
    more: Seq<u8>,
)
    ensures
        ({
            let first = chunk_run(phase, out, pending);
            let both = chunk_run(phase, out, pending + more);
            match first.stop {
                ChunkStop::Wait(p) => both == chunk_run(p, first.out, first.pending + more),
                _ => both.stop == first.stop && both.out == first.out,
            }
        }),
    decreases pending.len(), rank(phase),
{
    let all = pending + more;
    match phase {
        ChunkPhase::Line => {
            text::lemma_find_from(pending, http_text::crlf(), 0);
            if let Some(at) = text::first_at(pending, http_text::crlf()) {
                text::lemma_first_stays(pending, http_text::crlf(), more);
                assert(all.take(at) =~= pending.take(at));
                assert(all.skip(at + 2) =~= pending.skip(at + 2) + more);
                if let Ok(n) = chunk_size(pending.take(at)) {
                    if n != 0 {
                        law_chunk_cuts_make_no_difference(
                            ChunkPhase::Data(n as usize),
                            out,
                            pending.skip(at + 2),
                            more,
                        );
                    }
                }
            }
        },
        ChunkPhase::Data(n) => {
            if pending.len() >= n {
                assert(all.take(n as int) =~= pending.take(n as int));
                assert(all.skip(n as int) =~= pending.skip(n as int) + more);
                law_chunk_cuts_make_no_difference(
                    ChunkPhase::End,
                    out + pending.take(n as int),
                    pending.skip(n as int),
                    more,
                );
            }
        },
        ChunkPhase::End => {
            if pending.len() >= 2 {
                assert(all.subrange(0, 2) =~= pending.subrange(0, 2));
                if text::has_prefix(pending, http_text::crlf()) {
                    assert(all.skip(2) =~= pending.skip(2) + more);
                    law_chunk_cuts_make_no_difference(
                        ChunkPhase::Line,
                        out,
                        pending.skip(2),
                        more,
                    );
                }
            }
        },
    }
}

/// The size of a chunk as it is written in front of it.
pub open spec fn size_line(n: nat) -> Seq<u8> {
    encode_utf8(numbers::hexadecimal(n))
}

/// A chunk with its extension, if it has one.
pub struct ChunkView {
    pub extension: Option<Seq<u8>>,
    pub data: Seq<u8>,
}

/// The extension is text that stays on its line.
pub open spec fn is_extension(extension: Option<Seq<u8>>) -> bool {
    extension matches Some(e) ==> valid_utf8(e) && !text::has_part(e, http_text::crlf())
}

/// The line in front of a chunk: its size, and its extension behind a
/// semicolon.
pub open spec fn chunk_line(n: nat, extension: Option<Seq<u8>>) -> Seq<u8> {
    match extension {
        Some(e) => size_line(n) + seq![0x3bu8] + e,
        None => size_line(n),
    }
}

/// A body as a sequence of chunks; the chunk of size zero at its end may have
/// an extension too.
pub open spec fn chunked(chunks: Seq<ChunkView>, end: Option<Seq<u8>>) -> Seq<u8>
    decreases chunks.len(),
{
    if chunks.len() == 0 {
        chunk_line(0, end) + http_text::crlf() + http_text::crlf()
    } else {
        chunk_line(chunks[0].data.len(), chunks[0].extension) + http_text::crlf() + chunks[0].data
            + http_text::crlf() + chunked(chunks.skip(1), end)
    }
}

/// The data of the chunks, one after the other.
pub open spec fn concatenated(chunks: Seq<ChunkView>) -> Seq<u8>
    decreases chunks.len(),
{
    if chunks.len() == 0 {
        Seq::empty()
    } else {
        chunks[0].data + concatenated(chunks.skip(1))
    }
}

/// A body that is sent in chunks is read back as it was, and extensions of
/// the chunks make no difference.
pub proof fn law_chunks_read_back(out: Seq<u8>, chunks: Seq<ChunkView>, end: Option<Seq<u8>>)
    requires
        forall|i: int|
            0 <= i < chunks.len() ==> 0 < (#[trigger] chunks[i]).data.len() <= usize::MAX
                && is_extension(chunks[i].extension),
        is_extension(end),
    ensures
        chunk_run(ChunkPhase::Line, out, chunked(chunks, end)) == (ChunkRun {
            out: out + concatenated(chunks),
            pending: Seq::empty(),
            stop: ChunkStop::Done,
        }),
    decreases chunks.len(),
{
    let crlf = http_text::crlf();
    let data = chunked(chunks, end);
    if chunks.len() == 0 {
        let line = chunk_line(0, end);
        lemma_chunk_line(0, end, crlf);
        let n = line.len() as int;
        assert(data =~= line + crlf + crlf);
        assert(data.take(n) =~= line);
        assert(data.skip(n + 2) =~= crlf);
        assert(crlf.subrange(0, 2) =~= crlf);
        assert(crlf.skip(2) =~= Seq::<u8>::empty());
        assert(out + concatenated(chunks) =~= out);
    } else {
        let c = chunks[0].data;
        let line = chunk_line(c.len(), chunks[0].extension);
        let tail = chunked(chunks.skip(1), end);
        let rest = c + crlf + tail;
        let n = line.len() as int;
        lemma_chunk_line(c.len(), chunks[0].extension, rest);
        assert(data =~= line + crlf + rest);
        assert(data.take(n) =~= line);
        assert(data.skip(n + 2) =~= rest);
        assert(rest.take(c.len() as int) =~= c);
        let behind = rest.skip(c.len() as int);
        assert(behind =~= crlf + tail);
        assert(behind.subrange(0, 2) =~= crlf);
        assert(behind.skip(2) =~= tail);
        law_chunks_read_back(out + c, chunks.skip(1), end);
        assert(out + c + concatenated(chunks.skip(1)) =~= out + concatenated(chunks));
        assert(chunk_run(ChunkPhase::Line, out, data) == chunk_run(
            ChunkPhase::Data(c.len() as usize),
            out,
            rest,
        ));
        assert(chunk_run(ChunkPhase::Data(c.len() as usize), out, rest) == chunk_run(
            ChunkPhase::End,
            out + c,
            behind,
        ));
        assert(chunk_run(ChunkPhase::End, out + c, behind) == chunk_run(
            ChunkPhase::Line,
            out + c,
            tail,
        ));
    }
}

/// The line in front of a chunk is found, and the size in it is read back.
proof fn lemma_chunk_line(n: nat, extension: Option<Seq<u8>>, rest: Seq<u8>)
    requires
        n <= usize::MAX,
        is_extension(extension),
    ensures
        text::first_at(chunk_line(n, extension) + http_text::crlf() + rest, http_text::crlf())
            == Some(chunk_line(n, extension).len() as int),
        chunk_size(chunk_line(n, extension)) == Ok::<nat, Seq<char>>(n),
{
    let hex = numbers::hexadecimal(n);
    let size = size_line(n);
    let line = chunk_line(n, extension);
    numbers::lemma_hexadecimal_reads_back(n);
    is_ascii_chars_encode_utf8(hex);
    assert forall|i: int| 0 <= i < size.len() implies size[i] != 0x0d by {
        assert(size[i] == hex[i] as u8);
    }
    assert(!text::has_part(line, http_text::crlf())) by {
        assert forall|k: int| !#[trigger] text::occurs_at(line, http_text::crlf(), k) by {
            if 0 <= k && k + 2 <= line.len() {
                assert(line.subrange(k, k + 2)[0] == line[k]);
                if k <= size.len() {
                    assert(line[k] != 0x0d);
                } else if let Some(e) = extension {
                    let at = k - size.len() - 1;
                    assert(line.subrange(k, k + 2) =~= e.subrange(at, at + 2));
                    assert(!text::occurs_at(e, http_text::crlf(), at));
                }
            }
        }
    }
    lemma_first_crlf(line, rest);
    lemma_plain_text(hex);
    let shown = match extension {
        Some(e) => hex + seq![';'] + decode_utf8(e),
        None => hex,
    };
    assert(line == encode_utf8(shown)) by {
        if let Some(e) = extension {
            decode_utf8_encode_utf8(e);
            is_ascii_chars_encode_utf8(seq![';']);
            assert(encode_utf8(seq![';']) =~= seq![0x3bu8]);
            lemma_encoded_parts(hex, seq![';']);
            lemma_encoded_parts(hex + seq![';'], decode_utf8(e));
        }
    }
    encode_utf8_valid_utf8(shown);
    encode_utf8_decode_utf8(shown);
    text::lemma_reach_is(shown, ';', hex.len() as int);
    assert(shown.take(hex.len() as int) =~= hex);
}

/// A text is encoded part by part.
proof fn lemma_encoded_parts(a: Seq<char>, b: Seq<char>)
    ensures
        encode_utf8(a + b) == encode_utf8(a) + encode_utf8(b),
    decreases a.len(),
{
    if a.len() == 0 {
        assert(a + b =~= b);
    } else {
        assert((a + b).drop_first() =~= a.drop_first() + b);
        lemma_encoded_parts(a.drop_first(), b);
    }
}

/// The first end of a line is the one behind a line that holds none.
proof fn lemma_first_crlf(line: Seq<u8>, rest: Seq<u8>)
    requires
        !text::has_part(line, http_text::crlf()),
    ensures
        text::first_at(line + http_text::crlf() + rest, http_text::crlf()) == Some(
            line.len() as int,
        ),
{
    let data = line + http_text::crlf() + rest;
    let at = line.len() as int;
    assert(data.subrange(at, at + 2) =~= http_text::crlf());
    assert forall|k: int| 0 <= k < at implies !#[trigger] text::occurs_at(
        data,
        http_text::crlf(),
        k,
    ) by {
        if k + 1 < at {
            assert(data.subrange(k, k + 2) =~= line.subrange(k, k + 2));
            assert(!text::occurs_at(line, http_text::crlf(), k));
        } else {
            assert(data.subrange(k, k + 2)[1] == data[at]);
        }
    }
    text::lemma_find_is(data, http_text::crlf(), 0, at);
}

/// A text of digits and small letters has nothing to trim and no semicolon.
proof fn lemma_plain_text(s: Seq<char>)
    requires
        forall|i: int| 0 <= i < s.len() ==> '0' <= #[trigger] s[i] <= '9' || 'a' <= s[i] <= 'f',
    ensures
        text::reach(s, ';') == s.len(),
        text::trimmed(s) == s,
{
    text::lemma_reach_is(s, ';', s.len() as int);
    if s.len() > 0 {
        assert(!text::is_space(s[0]));
        assert(!text::is_space(s[s.len() - 1]));
    }
}

/// It makes no difference where the stream cuts a body of known length.
pub proof fn law_length_cuts_make_no_difference(v: HttpReplyView, a: Seq<u8>, b: Seq<u8>)
    requires
        v.phase is Exact,
        reply_grown(v, a).1 is Read,
    ensures
        reply_grown(reply_grown(v, a).0, b) == reply_grown(v, a + b),
{
    assert(v.body + a + b =~= v.body + (a + b));
}

/// A reply that states how long its body is ends with just that many bytes
/// behind its head.
pub proof fn law_stated_length_counts(
    data: Seq<u8>,
    status: u16,
    headers: Seq<(Seq<char>, Seq<char>)>,
    n: nat,
)
    requires
        data.len() <= BUFFER_LIMIT,
        http_text::head_end(data) is Some,
        http_text::head_in(data.take(http_text::head_end(data)->0)) == Ok::<
            (u16, Seq<(Seq<char>, Seq<char>)>),
            Seq<char>,
        >((status, headers)),
        !is_chunked(headers),
        http_text::header_named(headers, "content-length"@) == Some(numbers::decimal(n)),
        data.len() == http_text::head_end(data)->0 + n,
    ensures
        reply_grown(fresh_reply(), data) == (
            (HttpReplyView {
                phase: ReplyPhase::Complete,
                buf: Seq::empty(),
                body: data.skip(http_text::head_end(data)->0),
                status,
                headers,
            }),
            HttpStepView::Done,
        ),
{
    let end = http_text::head_end(data)->0;
    let d = numbers::decimal(n);
    text::lemma_find_from(data, http_text::blank_line(), 0);
    numbers::lemma_decimal_reads_back(n);
    assert(!text::is_space(d[0]) && !text::is_space(d[d.len() - 1]));
    assert(text::trimmed_start(d) == d);
    assert(text::trimmed(d) == d);
    assert(fresh_reply().buf + data =~= data);
    assert(data.skip(end).take(n as int) =~= data.skip(end));
}

/// It makes no difference where the stream cuts the head, nor whether the
/// first bytes of the body come along with it.
pub proof fn law_head_cuts_make_no_difference(v: HttpReplyView, a: Seq<u8>, b: Seq<u8>)
    requires
        v.phase is Head,
        reply_grown(v, a).1 is Read,
        reply_grown(v, a).0.phase is Head,
    ensures
        reply_grown(reply_grown(v, a).0, b) == reply_grown(v, a + b) || reply_grown(v, a + b).1
            is Failed && reply_grown(reply_grown(v, a).0, b).1 is Failed,
{
    assert(v.buf + a + b =~= v.buf + (a + b));
}

/// A header that mentions `chunked`, in whatever case, makes the body one of
/// chunks, whatever length is stated. Else the stated length counts; a length
/// that is no number fails. Without a length the body is what comes.
pub proof fn law_body_is_told_by_the_head(
    status: u16,
    headers: Seq<(Seq<char>, Seq<char>)>,
    rest: Seq<u8>,
    n: nat,
)
    requires
        n <= usize::MAX,
    ensures
        ({
            let (v, step) = body_begun(status, headers, rest);
            let coding = http_text::header_named(headers, "transfer-encoding"@);
            let length = http_text::header_named(headers, "content-length"@);
            let chunks = coding matches Some(te) && text::has_part(text::lowered(te), "chunked"@);
            &&& v.status == status && v.headers == headers
            &&& chunks ==> (v, step) == chunks_taken(
                HttpReplyView {
                    phase: ReplyPhase::Complete,
                    buf: rest,
                    body: Seq::empty(),
                    status,
                    headers,
                },
                ChunkPhase::Line,
            )
            &&& !chunks && length == Some(numbers::decimal(n)) && rest.len() >= n ==> step is Done
                && v.body == rest.take(n as int)
            &&& !chunks && length == Some(numbers::decimal(n)) && rest.len() < n ==> step
                == HttpStepView::Read(45000) && v.body == rest && v.phase == ReplyPhase::Exact(
                n as usize,
            )
            &&& !chunks && length is None ==> step == HttpStepView::Read(500) && v.body == rest
                && v.phase == ReplyPhase::Residual(0)
            &&& !chunks && (length matches Some(l) && numbers::unsigned_value(
                text::trimmed(l),
                10,
            ) is None) ==> step is Failed
        }),
{
    let d = numbers::decimal(n);
    numbers::lemma_decimal_reads_back(n);
    assert(!text::is_space(d[0]) && !text::is_space(d[d.len() - 1]));
    assert(text::trimmed(d) == d);
}

/// A body of known length takes in the bytes as they come and is complete with
/// the last of them; what comes behind is not part of it.
pub proof fn law_body_grows_to_its_length(v: HttpReplyView, n: usize, more: Seq<u8>)
    requires
        v.phase == ReplyPhase::Exact(n),
    ensures
        v.body.len() + more.len() < n ==> reply_grown(v, more) == (
            HttpReplyView { body: v.body + more, ..v },
            HttpStepView::Read(45000),
        ),
        v.body.len() <= n <= v.body.len() + more.len() ==> reply_grown(v, more).1 is Done
            && reply_grown(v, more).0.body == v.body + more.take(n - v.body.len()),
{
    if v.body.len() <= n <= v.body.len() + more.len() {
        assert((v.body + more).take(n as int) =~= v.body + more.take(n - v.body.len()));
    }
}

/// A body without a length takes in all that comes. It is complete when
/// nothing more comes, when the stream ends, after fifty reads, or when it is
/// too large.
pub proof fn law_body_without_length_ends(v: HttpReplyView, reads: u32, more: Seq<u8>)
    requires
        v.phase == ReplyPhase::Residual(reads),
        reads < 50,
    ensures
        reply_grown(v, more).0.body == v.body + more,
        reply_grown(v, more).1 is Done <==> reads == 49 || v.body.len() + more.len() > 524288,
        !(reply_grown(v, more).1 is Done) ==> reply_grown(v, more).1 == HttpStepView::Read(500)
            && reply_grown(v, more).0.phase == ReplyPhase::Residual((reads + 1) as u32),
        after_read(v, ReadView::TimedOut).1 is Done,
        after_read(v, ReadView::TimedOut).0.body == v.body,
        after_read(v, ReadView::Data(Seq::empty())).1 is Done,
        after_read(v, ReadView::Data(Seq::empty())).0.body == v.body,
{
}

/// While a reply is known to be incomplete, a stream that ends or falls silent
/// fails it, and so does a read that fails, with the words of the failure.
pub proof fn law_incomplete_reply_fails(v: HttpReplyView, e: Seq<char>)
    requires
        !(v.phase is Residual),
        !(v.phase is Complete),
    ensures
        after_read(v, ReadView::TimedOut).1 is Failed,
        after_read(v, ReadView::Data(Seq::empty())).1 is Failed,
        after_read(v, ReadView::Failed(e)).1 == HttpStepView::Failed(e),
{
}

/// A head that is too large fails, and so does a chunk line that does not end;
/// up to that limit neither does.
pub proof fn law_buffers_are_limited(v: HttpReplyView, more: Seq<u8>)
    ensures
        v.phase is Head && v.buf.len() + more.len() > 524288 ==> reply_grown(v, more).1 is Failed,
        v.phase is Head && v.buf.len() + more.len() <= 524288 ==> reply_grown(v, more)
            == head_grown(HttpReplyView { buf: v.buf + more, ..v }),
        v.phase == ReplyPhase::Chunked(ChunkPhase::Line) && v.buf.len() + more.len() > 524288
            ==> reply_grown(v, more).1 is Failed,
        v.phase is Head && v.buf.len() + more.len() <= 524288 && http_text::head_end(v.buf + more)
            is None ==> reply_grown(v, more).1 == HttpStepView::Read(45000),
{
}

/// Chunks that are read make up the body, and what they wait for is where they
/// go on; bytes that are no chunks fail the reply.
pub proof fn law_chunks_make_the_body(v: HttpReplyView, phase: ChunkPhase)
    ensures
        ({
            let run = chunk_run(phase, v.body, v.buf);
            let (w, step) = chunks_taken(v, phase);
            &&& w.body == run.out && w.buf == run.pending
            &&& w.status == v.status && w.headers == v.headers
            &&& run.stop matches ChunkStop::Wait(p) ==> step == HttpStepView::Read(45000)
                && w.phase == ReplyPhase::Chunked(p)
            &&& run.stop is Done ==> step is Done && w.phase is Complete
            &&& run.stop matches ChunkStop::Bad(m) ==> step == HttpStepView::Failed(m)
        }),
{
}

/// A chunk that is not followed by the end of a line is refused, and so is a
/// size that is no hexadecimal number.
pub proof fn law_bad_chunks_are_refused(out: Seq<u8>, pending: Seq<u8>, n: usize, line: Seq<u8>)
    ensures
        pending.len() >= n + 2 && !(pending[n as int] == 0x0d && pending[n as int + 1] == 0x0a)
            ==> chunk_run(ChunkPhase::Data(n), out, pending).stop is Bad,
        valid_utf8(line) && !text::has_part(line, http_text::crlf()) && numbers::unsigned_value(
            text::trimmed(decode_utf8(line).take(text::reach(decode_utf8(line), ';'))),
            16,
        ) is None ==> chunk_run(ChunkPhase::Line, out, line + http_text::crlf() + pending).stop
            is Bad,
{
    if pending.len() >= n + 2 && !(pending[n as int] == 0x0d && pending[n as int + 1] == 0x0a) {
        let rest = pending.skip(n as int);
        assert(rest[0] == pending[n as int] && rest[1] == pending[n as int + 1]);
        assert(!text::has_prefix(rest, http_text::crlf())) by {
            if text::has_prefix(rest, http_text::crlf()) {
                assert(rest.subrange(0, 2)[0] == 0x0d && rest.subrange(0, 2)[1] == 0x0a);
            }
        }
        assert(chunk_run(ChunkPhase::Data(n), out, pending) == chunk_run(
            ChunkPhase::End,
            out + pending.take(n as int),
            rest,
        ));
    }
    if valid_utf8(line) && !text::has_part(line, http_text::crlf()) {
        let data = line + http_text::crlf() + pending;
        lemma_first_crlf(line, pending);
        assert(data.take(line.len() as int) =~= line);
    }
}

} // verus!
