//! Parsing a request that is held in memory.
//!
//! The bytes are read as a stream would be: a line ends with its line feed
//! or at the end of the input, and must be valid UTF-8; a read of `n` bytes
//! fails when fewer are left.

use crate::headers::normal;
use crate::octets::{decoded, text_of_bytes};
use crate::parser::{
    action_of, after_bytes, after_line, after_skip, default_limits, initial, lemma_sound, sound,
    Action, ParseLimits, Parser, ParserView, Phase, Warning,
};
use crate::request::{Cerial, RequestView};
use vstd::prelude::*;
use vstd::slice::slice_subrange;
use vstd::utf8::{decode_utf8, valid_utf8};

verus! {

/// Why a request could not be read.
#[derive(Debug, Clone, Copy, PartialEq, Eq, Structural)]
pub enum ReadError {
    /// The input ended before the bytes that had to be read.
    UnexpectedEnd,
    /// A line is not valid UTF-8.
    InvalidText,
}

/// A request that was read, with what reading it took.
pub struct Reading {
    /// The request.
    pub request: Cerial,
    /// The number of bytes of the input that were read or dropped.
    pub consumed: usize,
    /// The limits that were passed.
    pub warnings: Vec<Warning>,
}

/// What a reading holds.
pub struct ReadingView {
    /// The request.
    pub request: RequestView,
    /// The number of bytes of the input that were read or dropped.
    pub consumed: int,
    /// The limits that were passed.
    pub warnings: Seq<Warning>,
}

impl View for Reading {
    type V = ReadingView;

    open spec fn view(&self) -> ReadingView {
        ReadingView {
            request: self.request@,
            consumed: self.consumed as int,
            warnings: self.warnings@,
        }
    }
}

/// What the outcome of a reading holds.
pub open spec fn reading_view(r: Result<Reading, ReadError>) -> Result<ReadingView, ReadError> {
    match r {
        Ok(reading) => Ok(reading@),
        Err(e) => Err(e),
    }
}

/// What the outcome of a parse holds.
pub open spec fn request_view(r: Result<Cerial, ReadError>) -> Result<RequestView, ReadError> {
    match r {
        Ok(request) => Ok(request@),
        Err(e) => Err(e),
    }
}

/// The end of the line that starts at `pos`: the position after the first
/// line feed at or after `pos`, or the end of the input.
pub open spec fn line_end(input: Seq<u8>, pos: int) -> int
    decreases input.len() - pos,
{
    if pos < 0 || pos >= input.len() {
        input.len() as int
    } else if input[pos] == 0x0Au8 {
        pos + 1
    } else {
        line_end(input, pos + 1)
    }
}

/// How many steps a phase can be away from the next read that takes bytes.
pub open spec fn rank(phase: Phase) -> nat {
    match phase {
        Phase::Done => 0,
        Phase::Headers | Phase::ChunkSize | Phase::Trailers | Phase::Discard { .. } => 1,
        Phase::RequestLine | Phase::Body { .. } | Phase::ChunkSkipEnd | Phase::ChunkEnd => 2,
        Phase::ChunkSkip { .. } | Phase::ChunkData { .. } => 3,
    }
}

/// The state in which a parser that starts in state `p` ends when it is fed
/// from `input` at position `pos`, with the position that it reaches; or the
/// failure of a read.
pub open spec fn run(p: ParserView, input: Seq<u8>, pos: int) -> Result<(ParserView, int), ReadError>
    decreases input.len() - pos, rank(p.phase),
{
    if pos < 0 || pos > input.len() {
        Err(ReadError::UnexpectedEnd)
    } else {
        match action_of(p.phase) {
            Action::Finish => Ok((p, pos)),
            Action::ReadLine => {
                let end = line_end(input, pos);
                if end <= pos || end > input.len() {
                    run(after_line(p, None), input, pos)
                } else if valid_utf8(input.subrange(pos, end)) {
                    run(after_line(p, Some(decode_utf8(input.subrange(pos, end)))), input, end)
                } else {
                    Err(ReadError::InvalidText)
                }
            },
            Action::ReadExact(n) => if pos + n > input.len() {
                Err(ReadError::UnexpectedEnd)
            } else {
                run(after_bytes(p, input.subrange(pos, pos + n)), input, pos + n)
            },
            Action::Skip(n) => if pos + n > input.len() {
                run(after_skip(p), input, input.len() as int)
            } else {
                run(after_skip(p), input, pos + n)
            },
        }
    }
}

/// What reading a request from `input` gives.
pub open spec fn reading_of(input: Seq<u8>, limits: ParseLimits) -> Result<ReadingView, ReadError> {
    match run(initial(limits), input, 0) {
        Ok((p, pos)) => Ok(ReadingView { request: p.request, consumed: pos, warnings: p.warnings }),
        Err(e) => Err(e),
    }
}

/// The request that `input` holds.
pub open spec fn request_of(input: Seq<u8>, limits: ParseLimits) -> Result<RequestView, ReadError> {
    match reading_of(input, limits) {
        Ok(reading) => Ok(reading.request),
        Err(e) => Err(e),
    }
}

/// A reading that succeeds ends in the last phase, at a position within the
/// input and not before its start; and it ends in a sound state when it
/// started in one.
pub proof fn lemma_run_ends(p: ParserView, input: Seq<u8>, pos: int)
    requires
        0 <= pos <= input.len(),
    ensures
        match run(p, input, pos) {
            Ok((q, end)) => {
                &&& q.phase == Phase::Done
                &&& q.limits == p.limits
                &&& pos <= end <= input.len()
                &&& sound(p) ==> sound(q)
            },
            Err(_) => true,
        },
    decreases input.len() - pos, rank(p.phase),
{
    match action_of(p.phase) {
        Action::Finish => {},
        Action::ReadLine => {
            let end = line_end(input, pos);
            if end <= pos || end > input.len() {
                if sound(p) {
                    lemma_sound(p, None, Seq::empty());
                }
                lemma_run_ends(after_line(p, None), input, pos);
            } else if valid_utf8(input.subrange(pos, end)) {
                let line = Some(decode_utf8(input.subrange(pos, end)));
                if sound(p) {
                    lemma_sound(p, line, Seq::empty());
                }
                lemma_run_ends(after_line(p, line), input, end);
            }
        },
        Action::ReadExact(n) => {
            if pos + n <= input.len() {
                let bytes = input.subrange(pos, pos + n);
                if sound(p) {
                    lemma_sound(p, None, bytes);
                }
                lemma_run_ends(after_bytes(p, bytes), input, pos + n);
            }
        },
        Action::Skip(n) => {
            if sound(p) {
                lemma_sound(p, None, Seq::empty());
            }
            if pos + n > input.len() {
                lemma_run_ends(after_skip(p), input, input.len() as int);
            } else {
                lemma_run_ends(after_skip(p), input, pos + n);
            }
        },
    }
}

/// A request that was read has its headers in shape, and no more of the
/// input was taken than there is.
pub proof fn lemma_reading(input: Seq<u8>, limits: ParseLimits)
    ensures
        match reading_of(input, limits) {
            Ok(reading) => normal(reading.request.headers) && 0 <= reading.consumed <= input.len(),
            Err(_) => true,
        },
{
    lemma_run_ends(initial(limits), input, 0);
}

/// A body of declared length is read in full, and no byte after it: the
/// reading ends right after the body, or after the excess that was dropped.
pub proof fn lemma_run_body(p: ParserView, input: Seq<u8>, pos: int, wanted: usize, excess: usize)
    requires
        p.phase == (Phase::Body { wanted, excess }),
        0 <= pos,
        pos + wanted <= input.len(),
    ensures
        run(p, input, pos) == Ok::<(ParserView, int), ReadError>(
            (
                ParserView {
                    phase: Phase::Done,
                    request: RequestView {
                        body: decoded(input.subrange(pos, pos + wanted)),
                        ..p.request
                    },
                    ..p
                },
                if pos + wanted + excess > input.len() {
                    input.len() as int
                } else {
                    pos + wanted + excess
                },
            ),
        ),
{
    let q = after_bytes(p, input.subrange(pos, pos + wanted));
    assert(run(p, input, pos) == run(q, input, pos + wanted));
    if excess > 0 {
        let end = if pos + wanted + excess > input.len() {
            input.len() as int
        } else {
            pos + wanted + excess
        };
        assert(run(q, input, pos + wanted) == run(after_skip(q), input, end));
    }
}

/// Finds the end of the line that starts at `pos`.
pub fn find_line_end(input: &[u8], pos: usize) -> (end: usize)
    requires
        pos <= input@.len(),
    ensures
        end == line_end(input@, pos as int),
        pos <= end <= input@.len(),
        pos < input@.len() ==> pos < end,
{
    let mut i: usize = pos;
    while i < input.len() && input[i] != 0x0Au8
        invariant
            pos <= i <= input@.len(),
            line_end(input@, i as int) == line_end(input@, pos as int),
        decreases input.len() - i,
    {
        i += 1;
    }
    if i < input.len() {
        i + 1
    } else {
        i
    }
}

/// Reads one request from the start of `input`.
///
/// The parser is fed from `input` until it asks for nothing more.  Reading
/// fails when a line is not valid UTF-8, or when the input ends before the
/// bytes of a body of declared length or of a chunk.
pub fn read_request(input: &[u8], limits: ParseLimits) -> (r: Result<Reading, ReadError>)
    ensures
        reading_view(r) == reading_of(input@, limits),
{
    let mut parser = Parser::new(limits);
    let mut pos: usize = 0;
    let ghost start = initial(limits);
    loop
        invariant
            parser.wf(),
            pos <= input@.len(),
            start == initial(limits),
            run(parser@, input@, pos as int) == run(start, input@, 0),
        decreases input@.len() - pos, rank(parser@.phase),
    {
        match parser.action() {
            Action::Finish => {
                let (request, warnings) = parser.finish();
                return Ok(Reading { request, consumed: pos, warnings });
            },
            Action::ReadLine => {
                let end = find_line_end(input, pos);
                if end == pos {
                    parser.on_line(None);
                } else {
                    match text_of_bytes(slice_subrange(input, pos, end)) {
                        Some(line) => {
                            parser.on_line(Some(line.as_str()));
                            pos = end;
                        },
                        None => {
                            return Err(ReadError::InvalidText);
                        },
                    }
                }
            },
            Action::ReadExact(n) => {
                if n > input.len() - pos {
                    return Err(ReadError::UnexpectedEnd);
                }
                parser.on_bytes(slice_subrange(input, pos, pos + n));
                pos = pos + n;
            },
            Action::Skip(n) => {
                parser.on_skipped();
                if n > input.len() - pos {
                    pos = input.len();
                } else {
                    pos = pos + n;
                }
            },
        }
    }
}

impl Cerial {
    /// Reads one request from the start of `input`, with the default limits.
    pub fn parse(input: &[u8]) -> (r: Result<Cerial, ReadError>)
        ensures
            request_view(r) == request_of(input@, default_limits()),
    {
        let limits = ParseLimits::default();
        Cerial::parse_with_limits(input, limits.max_header_bytes, limits.max_body_bytes)
    }

    /// Reads one request from the start of `input`, with the given limits on
    /// the bytes of the header block and of the body.
    pub fn parse_with_limits(input: &[u8], max_header_size: usize, max_body_size: usize) -> (r:
        Result<Cerial, ReadError>)
        ensures
            request_view(r) == request_of(
                input@,
                ParseLimits { max_header_bytes: max_header_size, max_body_bytes: max_body_size },
            ),
    {
        let limits = ParseLimits {
            max_header_bytes: max_header_size,
            max_body_bytes: max_body_size,
        };
        match read_request(input, limits) {
            Ok(reading) => Ok(reading.request),
            Err(e) => Err(e),
        }
    }
}

} // verus!
