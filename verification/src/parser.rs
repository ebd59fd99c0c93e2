//! The request parser as a state machine that does no reading itself.
//!
//! A `Parser` says what to read next (`action`) and is told what was read
//! (`on_line`, `on_bytes`, `on_skipped`) until it says `Action::Finish`.
//! What it does with each input is given by `after_line`, `after_bytes` and
//! `after_skip` on its view.

use crate::fields::{split_target, target_path, target_query};
use crate::headers::{
    add_line, chunked, content_length, declared_length, is_chunked, lemma_with_line_normal,
    normal, with_line,
};
use crate::maps::{HeaderMap, StrMap};
use crate::number::{number_of, parse_number};
use crate::octets::{decoded, text_lossy};
use crate::request::{Cerial, RequestView};
use crate::text::{
    after_first_word, before, chars_of, first_word, is_blank, is_word, lemma_first_word,
    split_first, split_word, trim, trimmed,
};
use crate::version::{
    default_version, lemma_version_round_trip, lemma_version_text_is_word, version_of,
    version_text, HttpVersion,
};
use vstd::prelude::*;
use vstd::string::StringExecFns;
use vstd::utf8::encode_utf8;

verus! {

/// The limits of a parse, in bytes.  Passing one does not fail the parse:
/// what is over the limit is left out.
#[derive(Debug, Clone, Copy, PartialEq, Eq, Structural)]
pub struct ParseLimits {
    /// The most that the header lines may take, line ends counted.
    pub max_header_bytes: usize,
    /// The most that the body may take.
    pub max_body_bytes: usize,
}

impl Default for ParseLimits {
    /// 8192 bytes of headers and 1048576 bytes of body.
    fn default() -> (limits: Self)
        ensures
            limits == default_limits(),
    {
        ParseLimits { max_header_bytes: 8192, max_body_bytes: 1048576 }
    }
}

/// The limits of a parse that is given none.
pub open spec fn default_limits() -> ParseLimits {
    ParseLimits { max_header_bytes: 8192, max_body_bytes: 1048576 }
}

/// Where the parser stands.
#[derive(Debug, Clone, Copy, PartialEq, Eq, Structural)]
pub enum Phase {
    /// Before the request line.
    RequestLine,
    /// In the header block.
    Headers,
    /// Before a body of declared length: `wanted` bytes are the body, and
    /// `excess` bytes after them are over the limit.
    Body { wanted: usize, excess: usize },
    /// Before the part of a body that is over the limit.
    Discard { count: usize },
    /// Before a chunk-size line.
    ChunkSize,
    /// Before the data of a chunk.
    ChunkData { size: usize },
    /// Before the line end that closes the data of a chunk.
    ChunkEnd,
    /// Before the data of a chunk that is over the limit.
    ChunkSkip { size: usize },
    /// Before the line end that closes a chunk that is over the limit.
    ChunkSkipEnd,
    /// In the trailer lines after the last chunk.
    Trailers,
    /// At the end of the request.
    Done,
}

/// What the caller has to do next.
#[derive(Debug, Clone, Copy, PartialEq, Eq, Structural)]
pub enum Action {
    /// Read one line, up to and with its line feed, and hand it to
    /// `on_line`; hand over `None` at the end of the stream.  A failed read
    /// ends the parse.
    ReadLine,
    /// Read exactly this many bytes and hand them to `on_bytes`.  A failed
    /// or short read ends the parse.
    ReadExact(usize),
    /// Read and drop this many bytes, or as many as there are, then call
    /// `on_skipped`.  A failed read does not matter.
    Skip(usize),
    /// Nothing more is to be read: call `finish`.
    Finish,
}

/// A limit that was passed; the parse goes on.
#[derive(Debug, Clone, Copy, PartialEq, Eq, Structural)]
pub enum Warning {
    /// The header block is larger than the limit: the headers read so far
    /// are kept, and the request ends there.
    HeaderLimit,
    /// The declared body length is over the limit: the body is cut at the
    /// limit.
    BodyTruncated { declared: usize },
    /// A chunk would take the body over the limit: the chunk is dropped.
    ChunkDropped { size: usize },
}

/// The state of a parser.
pub struct ParserView {
    /// Where the parser stands.
    pub phase: Phase,
    /// The limits of the parse.
    pub limits: ParseLimits,
    /// The request as far as it is read.
    pub request: RequestView,
    /// The bytes of the header lines read so far.
    pub header_bytes: nat,
    /// The bytes of the chunks taken into the body so far.
    pub body_bytes: nat,
    /// The limits passed so far.
    pub warnings: Seq<Warning>,
}

/// The state before anything is read.
pub open spec fn initial(limits: ParseLimits) -> ParserView {
    ParserView {
        phase: Phase::RequestLine,
        limits,
        request: RequestView {
            method: Seq::empty(),
            path: Seq::empty(),
            query: Map::empty(),
            version: default_version(),
            headers: Map::empty(),
            body: Seq::empty(),
        },
        header_bytes: 0,
        body_bytes: 0,
        warnings: Seq::empty(),
    }
}

/// What is to be read in a phase.
pub open spec fn action_of(phase: Phase) -> Action {
    match phase {
        Phase::RequestLine | Phase::Headers | Phase::ChunkSize | Phase::Trailers => Action::ReadLine,
        Phase::Body { wanted, excess } => Action::ReadExact(wanted),
        Phase::ChunkData { size } => Action::ReadExact(size),
        Phase::ChunkEnd => Action::ReadExact(2),
        Phase::Discard { count } => Action::Skip(count),
        Phase::ChunkSkip { size } => Action::Skip(size),
        Phase::ChunkSkipEnd => Action::Skip(2),
        Phase::Done => Action::Finish,
    }
}

/// The version that a request line names; 1.1 when it names none that can
/// be read.
pub open spec fn version_or_default(token: Seq<char>) -> HttpVersion {
    match version_of(token) {
        Some(v) => v,
        None => default_version(),
    }
}

/// The method of a request line: its first word.
pub open spec fn line_method(line: Seq<char>) -> Seq<char> {
    first_word(line)
}

/// The request target of a request line: its second word.
pub open spec fn line_target(line: Seq<char>) -> Seq<char> {
    first_word(after_first_word(line))
}

/// The version token of a request line: its third word.
pub open spec fn line_version(line: Seq<char>) -> Seq<char> {
    first_word(after_first_word(after_first_word(line)))
}

/// The request after its request line was read.  A word that is missing is
/// empty.
pub open spec fn with_request_line(r: RequestView, line: Seq<char>) -> RequestView {
    RequestView {
        method: line_method(line),
        path: target_path(line_target(line)),
        query: target_query(line_target(line)),
        version: version_or_default(line_version(line)),
        ..r
    }
}

/// The size that a chunk-size line, trimmed, declares: what stands before
/// its first `;`, read as a hexadecimal number that fits a `usize`.
pub open spec fn chunk_size_of(line: Seq<char>) -> Option<nat> {
    number_of(before(line, ';'), 16, usize::MAX as nat)
}

/// The state at the end of the header block: how the body is to be read.
/// A chunked transfer encoding goes before a declared length.
pub open spec fn body_plan(p: ParserView) -> ParserView {
    if chunked(p.request.headers) {
        ParserView { phase: Phase::ChunkSize, ..p }
    } else {
        match declared_length(p.request.headers) {
            Some(n) => if n > p.limits.max_body_bytes {
                ParserView {
                    phase: Phase::Body {
                        wanted: p.limits.max_body_bytes,
                        excess: (n - p.limits.max_body_bytes) as usize,
                    },
                    warnings: p.warnings.push(Warning::BodyTruncated { declared: n as usize }),
                    ..p
                }
            } else {
                ParserView { phase: Phase::Body { wanted: n as usize, excess: 0 }, ..p }
            },
            None => ParserView { phase: Phase::Done, ..p },
        }
    }
}

/// The state after a header line was read.
pub open spec fn after_header_line(p: ParserView, line: Seq<char>) -> ParserView {
    let used = p.header_bytes + encode_utf8(line).len();
    if used > p.limits.max_header_bytes {
        ParserView { phase: Phase::Done, warnings: p.warnings.push(Warning::HeaderLimit), ..p }
    } else if trimmed(line).len() == 0 {
        body_plan(ParserView { header_bytes: used, ..p })
    } else {
        ParserView {
            header_bytes: used,
            request: RequestView { headers: with_line(p.request.headers, line), ..p.request },
            ..p
        }
    }
}

/// The state after a chunk-size line was read.
pub open spec fn after_size_line(p: ParserView, line: Seq<char>) -> ParserView {
    if trimmed(line).len() == 0 {
        p
    } else {
        match chunk_size_of(trimmed(line)) {
            None => ParserView { phase: Phase::Done, ..p },
            Some(n) => if n == 0 {
                ParserView { phase: Phase::Trailers, ..p }
            } else if p.body_bytes + n > p.limits.max_body_bytes {
                ParserView {
                    phase: Phase::ChunkSkip { size: n as usize },
                    warnings: p.warnings.push(Warning::ChunkDropped { size: n as usize }),
                    ..p
                }
            } else {
                ParserView { phase: Phase::ChunkData { size: n as usize }, ..p }
            },
        }
    }
}

/// The state after a line was read, or after the stream ended (`None`)
/// where a line was to be read.
pub open spec fn after_line(p: ParserView, line: Option<Seq<char>>) -> ParserView {
    match p.phase {
        Phase::RequestLine => ParserView {
            phase: Phase::Headers,
            request: with_request_line(
                p.request,
                match line {
                    Some(l) => l,
                    None => Seq::empty(),
                },
            ),
            ..p
        },
        Phase::Headers => match line {
            Some(l) => after_header_line(p, l),
            None => ParserView { phase: Phase::Done, ..p },
        },
        Phase::ChunkSize => match line {
            Some(l) => after_size_line(p, l),
            None => ParserView { phase: Phase::Done, ..p },
        },
        Phase::Trailers => match line {
            Some(l) => if trimmed(l).len() == 0 {
                ParserView { phase: Phase::Done, ..p }
            } else {
                p
            },
            None => ParserView { phase: Phase::Done, ..p },
        },
        _ => p,
    }
}

/// The state after the bytes asked for were read.
pub open spec fn after_bytes(p: ParserView, bytes: Seq<u8>) -> ParserView {
    match p.phase {
        Phase::Body { wanted, excess } => ParserView {
            phase: if excess > 0 {
                Phase::Discard { count: excess }
            } else {
                Phase::Done
            },
            request: RequestView { body: decoded(bytes), ..p.request },
            ..p
        },
        Phase::ChunkData { size } => ParserView {
            phase: Phase::ChunkEnd,
            request: RequestView { body: p.request.body + decoded(bytes), ..p.request },
            body_bytes: p.body_bytes + size as nat,
            ..p
        },
        Phase::ChunkEnd => ParserView { phase: Phase::ChunkSize, ..p },
        _ => p,
    }
}

/// The state after the bytes to drop were dropped.
pub open spec fn after_skip(p: ParserView) -> ParserView {
    match p.phase {
        Phase::Discard { count } => ParserView { phase: Phase::Done, ..p },
        Phase::ChunkSkip { size } => ParserView { phase: Phase::ChunkSkipEnd, ..p },
        Phase::ChunkSkipEnd => ParserView { phase: Phase::ChunkSize, ..p },
        _ => p,
    }
}

/// What holds of every state that a parser reaches: the headers are in
/// shape, the counts are within the limits, and no more bytes are asked for
/// the body than the limit allows.
pub open spec fn sound(p: ParserView) -> bool {
    &&& normal(p.request.headers)
    &&& p.header_bytes <= p.limits.max_header_bytes
    &&& p.body_bytes <= p.limits.max_body_bytes
    &&& match p.phase {
        Phase::Body { wanted, excess } => wanted <= p.limits.max_body_bytes,
        Phase::ChunkData { size } => p.body_bytes + size <= p.limits.max_body_bytes,
        _ => true,
    }
}

/// The first state is sound, and every step keeps the state sound.
pub proof fn lemma_sound(p: ParserView, line: Option<Seq<char>>, bytes: Seq<u8>)
    requires
        sound(p),
    ensures
        sound(initial(p.limits)),
        sound(after_line(p, line)),
        sound(after_bytes(p, bytes)),
        sound(after_skip(p)),
{
    match line {
        Some(l) => {
            lemma_with_line_normal(p.request.headers, l);
        },
        None => {},
    }
}

/// A request line made of a method, a target and a version in canonical
/// text, one space between them, is read back as it was written: rendering
/// the version that was read gives the version token again.
pub proof fn lemma_request_line_read_back(
    r: RequestView,
    method: Seq<char>,
    target: Seq<char>,
    v: HttpVersion,
    end: Seq<char>,
)
    requires
        is_word(method),
        is_word(target),
        end.len() == 0 || is_blank(end[0]),
    ensures
        ({
            let line = method + seq![' '] + target + seq![' '] + version_text(v) + end;
            &&& line_method(line) == method
            &&& line_target(line) == target
            &&& line_version(line) == version_text(v)
            &&& with_request_line(r, line).version == v
            &&& version_text(with_request_line(r, line).version) == line_version(line)
        }),
{
    let space = seq![' '];
    let token = version_text(v);
    let line = method + space + target + space + token + end;
    let rest1 = space + target + space + token + end;
    let rest2 = space + token + end;
    lemma_version_text_is_word(v);
    lemma_version_round_trip(v);
    assert(is_blank(' '));
    assert(line =~= Seq::<char>::empty() + method + rest1);
    lemma_first_word(Seq::empty(), method, rest1);
    assert(rest1 =~= space + target + rest2);
    lemma_first_word(space, target, rest2);
    lemma_first_word(space, token, end);
}

/// A header line that takes the header block over its limit ends the
/// request: the headers read before it are kept, nothing else of the request
/// changes, and one warning is added.
pub proof fn lemma_header_limit(p: ParserView, line: Seq<char>)
    requires
        p.phase == Phase::Headers,
        p.header_bytes + encode_utf8(line).len() > p.limits.max_header_bytes,
    ensures
        after_line(p, Some(line)).phase == Phase::Done,
        after_line(p, Some(line)).request == p.request,
        after_line(p, Some(line)).warnings == p.warnings.push(Warning::HeaderLimit),
        action_of(after_line(p, Some(line)).phase) == Action::Finish,
{
}

/// At the blank line that ends the header block, headers that declare a
/// length and no chunked encoding ask for a body of that length when it is
/// within the limit; when it is over the limit, for as many bytes as the
/// limit allows, the excess to be dropped, with one warning.
pub proof fn lemma_declared_length_plan(p: ParserView, line: Seq<char>, n: nat)
    requires
        p.phase == Phase::Headers,
        p.header_bytes + encode_utf8(line).len() <= p.limits.max_header_bytes,
        trimmed(line).len() == 0,
        !chunked(p.request.headers),
        declared_length(p.request.headers) == Some(n),
    ensures
        after_line(p, Some(line)).request == p.request,
        n <= p.limits.max_body_bytes ==> after_line(p, Some(line)).phase == (Phase::Body {
            wanted: n as usize,
            excess: 0,
        }) && after_line(p, Some(line)).warnings == p.warnings,
        n > p.limits.max_body_bytes ==> after_line(p, Some(line)).phase == (Phase::Body {
            wanted: p.limits.max_body_bytes,
            excess: (n - p.limits.max_body_bytes) as usize,
        }) && after_line(p, Some(line)).warnings == p.warnings.push(
            Warning::BodyTruncated { declared: n as usize },
        ),
{
}

/// The text of an optional line.
pub open spec fn line_text(line: Option<&str>) -> Option<Seq<char>> {
    match line {
        Some(l) => Some(l@),
        None => None,
    }
}

/// A request parser that is fed what its caller reads.
pub struct Parser {
    phase: Phase,
    limits: ParseLimits,
    method: String,
    path: String,
    query: StrMap,
    version: HttpVersion,
    headers: HeaderMap,
    body: String,
    header_bytes: usize,
    body_bytes: usize,
    warnings: Vec<Warning>,
}

impl View for Parser {
    type V = ParserView;

    closed spec fn view(&self) -> ParserView {
        ParserView {
            phase: self.phase,
            limits: self.limits,
            request: RequestView {
                method: self.method@,
                path: self.path@,
                query: self.query@,
                version: self.version,
                headers: self.headers@,
                body: self.body@,
            },
            header_bytes: self.header_bytes as nat,
            body_bytes: self.body_bytes as nat,
            warnings: self.warnings@,
        }
    }
}

impl Parser {
    /// Whether the maps of the parser list no key twice.
    pub closed spec fn maps_wf(&self) -> bool {
        self.query.wf() && self.headers.wf()
    }

    /// The invariant of a parser: its maps list no key twice, and its state
    /// is sound.
    pub open spec fn wf(&self) -> bool {
        self.maps_wf() && sound(self@)
    }

    /// A parser at the start of a request, with the given limits.
    pub fn new(limits: ParseLimits) -> (p: Self)
        ensures
            p.wf(),
            p@ == initial(limits),
    {
        Parser {
            phase: Phase::RequestLine,
            limits,
            method: String::new(),
            path: String::new(),
            query: StrMap::new(),
            version: HttpVersion::new(1, 1),
            headers: HeaderMap::new(),
            body: String::new(),
            header_bytes: 0,
            body_bytes: 0,
            warnings: Vec::new(),
        }
    }

    /// What the caller has to do next.
    pub fn action(&self) -> (a: Action)
        ensures
            a == action_of(self@.phase),
    {
        match self.phase {
            Phase::RequestLine | Phase::Headers | Phase::ChunkSize | Phase::Trailers => {
                Action::ReadLine
            },
            Phase::Body { wanted, excess } => Action::ReadExact(wanted),
            Phase::ChunkData { size } => Action::ReadExact(size),
            Phase::ChunkEnd => Action::ReadExact(2),
            Phase::Discard { count } => Action::Skip(count),
            Phase::ChunkSkip { size } => Action::Skip(size),
            Phase::ChunkSkipEnd => Action::Skip(2),
            Phase::Done => Action::Finish,
        }
    }

    /// The limits passed so far, in the order in which they were passed.
    pub fn warnings(&self) -> (w: &Vec<Warning>)
        ensures
            w@ == self@.warnings,
    {
        &self.warnings
    }

    fn read_request_line(&mut self, line: &str)
        requires
            old(self).wf(),
        ensures
            final(self).wf(),
            final(self)@ == (ParserView {
                phase: Phase::Headers,
                request: with_request_line(old(self)@.request, line@),
                ..old(self)@
            }),
    {
        let text = chars_of(line);
        let (method, rest) = split_word(text.as_slice());
        let (target, rest) = split_word(rest);
        let (token, _) = split_word(rest);
        let (path, query) = split_target(target);
        self.method = crate::text::string_of(method);
        self.path = path;
        self.query = query;
        self.version = match HttpVersion::from_chars(token) {
            Some(v) => v,
            None => HttpVersion::new(1, 1),
        };
        self.phase = Phase::Headers;
    }

    fn plan_body(&mut self)
        requires
            old(self).wf(),
        ensures
            final(self).wf(),
            final(self)@ == body_plan(old(self)@),
    {
        if is_chunked(&self.headers) {
            self.phase = Phase::ChunkSize;
        } else {
            match content_length(&self.headers) {
                Some(n) => {
                    if n > self.limits.max_body_bytes {
                        self.phase = Phase::Body {
                            wanted: self.limits.max_body_bytes,
                            excess: n - self.limits.max_body_bytes,
                        };
                        self.warnings.push(Warning::BodyTruncated { declared: n });
                    } else {
                        self.phase = Phase::Body { wanted: n, excess: 0 };
                    }
                },
                None => {
                    self.phase = Phase::Done;
                },
            }
        }
    }

    fn read_header_line(&mut self, line: &str)
        requires
            old(self).wf(),
        ensures
            final(self).wf(),
            final(self)@ == after_header_line(old(self)@, line@),
    {
        let size = line.as_bytes().len();
        if size > self.limits.max_header_bytes - self.header_bytes {
            self.phase = Phase::Done;
            self.warnings.push(Warning::HeaderLimit);
            return ;
        }
        self.header_bytes = self.header_bytes + size;
        let text = chars_of(line);
        if trim(text.as_slice()).len() == 0 {
            self.plan_body();
        } else {
            add_line(&mut self.headers, text.as_slice());
        }
    }

    fn read_size_line(&mut self, line: &str)
        requires
            old(self).wf(),
        ensures
            final(self).wf(),
            final(self)@ == after_size_line(old(self)@, line@),
    {
        let text = chars_of(line);
        let trimmed = trim(text.as_slice());
        if trimmed.len() == 0 {
            return ;
        }
        let (digits, _) = split_first(trimmed, ';');
        match parse_number(digits, 16, usize::MAX) {
            None => {
                self.phase = Phase::Done;
            },
            Some(n) => {
                if n == 0 {
                    self.phase = Phase::Trailers;
                } else if n > self.limits.max_body_bytes - self.body_bytes {
                    self.phase = Phase::ChunkSkip { size: n };
                    self.warnings.push(Warning::ChunkDropped { size: n });
                } else {
                    self.phase = Phase::ChunkData { size: n };
                }
            },
        }
    }

    /// Takes the line that was read where `action` asked for a line; `None`
    /// says that the stream ended instead.  In a phase that asks for no line
    /// nothing changes.
    pub fn on_line(&mut self, line: Option<&str>)
        requires
            old(self).wf(),
        ensures
            final(self).wf(),
            final(self)@ == after_line(old(self)@, line_text(line)),
    {
        match self.phase {
            Phase::RequestLine => {
                match line {
                    Some(l) => self.read_request_line(l),
                    None => self.read_request_line(""),
                }
                proof {
                    reveal_strlit("");
                    assert(""@ =~= Seq::<char>::empty());
                }
            },
            Phase::Headers => match line {
                Some(l) => self.read_header_line(l),
                None => {
                    self.phase = Phase::Done;
                },
            },
            Phase::ChunkSize => match line {
                Some(l) => self.read_size_line(l),
                None => {
                    self.phase = Phase::Done;
                },
            },
            Phase::Trailers => match line {
                Some(l) => {
                    let text = chars_of(l);
                    if trim(text.as_slice()).len() == 0 {
                        self.phase = Phase::Done;
                    }
                },
                None => {
                    self.phase = Phase::Done;
                },
            },
            _ => {},
        }
    }

    /// Takes the bytes that were read where `action` asked for bytes.  In a
    /// phase that asks for no bytes nothing changes.
    pub fn on_bytes(&mut self, bytes: &[u8])
        requires
            old(self).wf(),
        ensures
            final(self).wf(),
            final(self)@ == after_bytes(old(self)@, bytes@),
    {
        match self.phase {
            Phase::Body { wanted, excess } => {
                self.body = text_lossy(bytes);
                if excess > 0 {
                    self.phase = Phase::Discard { count: excess };
                } else {
                    self.phase = Phase::Done;
                }
            },
            Phase::ChunkData { size } => {
                let text = text_lossy(bytes);
                self.body.append(text.as_str());
                self.body_bytes = self.body_bytes + size;
                self.phase = Phase::ChunkEnd;
            },
            Phase::ChunkEnd => {
                self.phase = Phase::ChunkSize;
            },
            _ => {},
        }
    }

    /// Takes note that the bytes to drop were dropped, or could not be read.
    /// In a phase that drops nothing, nothing changes.
    pub fn on_skipped(&mut self)
        requires
            old(self).wf(),
        ensures
            final(self).wf(),
            final(self)@ == after_skip(old(self)@),
    {
        match self.phase {
            Phase::Discard { count } => {
                self.phase = Phase::Done;
            },
            Phase::ChunkSkip { size } => {
                self.phase = Phase::ChunkSkipEnd;
            },
            Phase::ChunkSkipEnd => {
                self.phase = Phase::ChunkSize;
            },
            _ => {},
        }
    }

    /// The request as far as it was read, and the limits that were passed.
    pub fn finish(self) -> (r: (Cerial, Vec<Warning>))
        requires
            self.wf(),
        ensures
            r.0@ == self@.request,
            r.1@ == self@.warnings,
    {
        let request = Cerial::from_parts(
            self.method,
            self.path,
            self.query,
            self.version,
            self.headers,
            self.body,
        );
        (request, self.warnings)
    }
}

} // verus!
