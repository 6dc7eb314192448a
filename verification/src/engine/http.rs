//! HTTP detection: the quick check on the first bytes of a connection, the
//! request-line and header rules, and the byte-by-byte inspector that applies
//! them under size and count limits.

use vstd::prelude::*;
use vstd::string::*;
use vstd::utf8::*;

verus! {

/// Longest request line, terminator excluded, that the inspector reads.
pub const MAX_REQUEST_LINE_SIZE: usize = 8192;

/// Number of request methods that are recognised.
pub const HTTP_METHOD_COUNT: usize = 9;

/// The recognised request methods, in the order in which they are tried.
pub open spec fn http_method_spec(i: int) -> Seq<char> {
    if i == 0 {
        "GET"@
    } else if i == 1 {
        "POST"@
    } else if i == 2 {
        "PUT"@
    } else if i == 3 {
        "DELETE"@
    } else if i == 4 {
        "HEAD"@
    } else if i == 5 {
        "OPTIONS"@
    } else if i == 6 {
        "PATCH"@
    } else if i == 7 {
        "CONNECT"@
    } else {
        "TRACE"@
    }
}

/// The `i`-th recognised request method.
pub fn http_method(i: usize) -> (m: &'static str)
    requires
        i < HTTP_METHOD_COUNT,
    ensures
        m@ == http_method_spec(i as int),
{
    if i == 0 {
        "GET"
    } else if i == 1 {
        "POST"
    } else if i == 2 {
        "PUT"
    } else if i == 3 {
        "DELETE"
    } else if i == 4 {
        "HEAD"
    } else if i == 5 {
        "OPTIONS"
    } else if i == 6 {
        "PATCH"
    } else if i == 7 {
        "CONNECT"
    } else {
        "TRACE"
    }
}

/// Every method name is three to seven ASCII letters.
pub proof fn lemma_methods_ascii(i: int)
    requires
        0 <= i < HTTP_METHOD_COUNT,
    ensures
        is_ascii_chars(http_method_spec(i)),
        3 <= http_method_spec(i).len() <= 7,
        forall|j: int|
            0 <= j < http_method_spec(i).len() ==> 'A' <= #[trigger] http_method_spec(i)[j] <= 'Z',
{
    reveal_strlit("GET");
    reveal_strlit("POST");
    reveal_strlit("PUT");
    reveal_strlit("DELETE");
    reveal_strlit("HEAD");
    reveal_strlit("OPTIONS");
    reveal_strlit("PATCH");
    reveal_strlit("CONNECT");
    reveal_strlit("TRACE");
}

/// `buf` begins with the `i`-th method name followed by a space.
pub open spec fn starts_with_method(buf: Seq<u8>, i: int) -> bool {
    let m = http_method_spec(i);
    &&& buf.len() > m.len()
    &&& forall|j: int| 0 <= j < m.len() ==> #[trigger] buf[j] == m[j] as u8
    &&& buf[m.len() as int] == 0x20
}

/// `buf` begins with a recognised method name followed by a space.
pub open spec fn looks_like_http_spec(buf: Seq<u8>) -> bool {
    exists|i: int| 0 <= i < HTTP_METHOD_COUNT && #[trigger] starts_with_method(buf, i)
}

/// Whether `buf` begins with the `i`-th method name and a space.
fn begins_with_method(buf: &[u8], i: usize) -> (r: bool)
    requires
        i < HTTP_METHOD_COUNT,
    ensures
        r == starts_with_method(buf@, i as int),
{
    let name = http_method(i);
    let m = name.as_bytes();
    proof {
        lemma_methods_ascii(i as int);
        broadcast use vstd::string::is_ascii_spec_bytes;
        assert(is_ascii(name));
        assert(m@.len() == name@.len());
        assert(forall|j: int| 0 <= j < m@.len() ==> m@[j] == name@[j] as u8);
    }
    if buf.len() <= m.len() {
        return false;
    }
    let mut j: usize = 0;
    while j < m.len()
        invariant
            j <= m@.len(),
            m@.len() < buf@.len(),
            m@.len() == name@.len(),
            name@ == http_method_spec(i as int),
            forall|k: int| 0 <= k < m@.len() ==> m@[k] == name@[k] as u8,
            forall|k: int| 0 <= k < j ==> #[trigger] buf@[k] == name@[k] as u8,
        decreases m@.len() - j,
    {
        if buf[j] != m[j] {
            return false;
        }
        j += 1;
    }
    buf[m.len()] == 0x20
}

/// Quick check on the first bytes of a connection: true exactly when they
/// begin with one of the nine method names followed by a space.
pub fn looks_like_http(buf: &[u8]) -> (r: bool)
    ensures
        r == looks_like_http_spec(buf@),
{
    if buf.len() < 4 {
        proof {
            assert forall|i: int| 0 <= i < HTTP_METHOD_COUNT implies !starts_with_method(
                buf@,
                i,
            ) by {
                lemma_methods_ascii(i);
            }
        }
        return false;
    }
    let mut i: usize = 0;
    while i < HTTP_METHOD_COUNT
        invariant
            i <= HTTP_METHOD_COUNT,
            forall|k: int| 0 <= k < i ==> !starts_with_method(buf@, k),
        decreases HTTP_METHOD_COUNT - i,
    {
        if begins_with_method(buf, i) {
            return true;
        }
        i += 1;
    }
    false
}

/// The characters that separate the words of a request line: those with the
/// Unicode property White_Space.
pub open spec fn is_whitespace(c: char) -> bool {
    ||| ('\u{9}' <= c && c <= '\u{D}')
    ||| c == ' '
    ||| c == '\u{85}'
    ||| c == '\u{A0}'
    ||| c == '\u{1680}'
    ||| ('\u{2000}' <= c && c <= '\u{200A}')
    ||| c == '\u{2028}'
    ||| c == '\u{2029}'
    ||| c == '\u{202F}'
    ||| c == '\u{205F}'
    ||| c == '\u{3000}'
}

/// Whether `c` separates words.
pub fn char_is_whitespace(c: char) -> (r: bool)
    ensures
        r == is_whitespace(c),
{
    ('\u{9}' <= c && c <= '\u{D}') || c == ' ' || c == '\u{85}' || c == '\u{A0}' || c
        == '\u{1680}' || ('\u{2000}' <= c && c <= '\u{200A}') || c == '\u{2028}' || c
        == '\u{2029}' || c == '\u{202F}' || c == '\u{205F}' || c == '\u{3000}'
}

/// The words among the first `n` characters of `s`, each as the half-open
/// range of indices it covers: the maximal runs of characters that are not
/// whitespace, from left to right.
pub open spec fn token_ranges(s: Seq<char>, n: nat) -> Seq<(int, int)>
    decreases n,
{
    if n == 0 || n > s.len() {
        seq![]
    } else {
        let before = token_ranges(s, (n - 1) as nat);
        let i = n - 1;
        if is_whitespace(s[i]) {
            before
        } else if i > 0 && !is_whitespace(s[i - 1]) {
            before.drop_last().push((before.last().0, n as int))
        } else {
            before.push((i, n as int))
        }
    }
}

/// The words of `s`: what is left when `s` is cut at every run of whitespace.
pub open spec fn tokens(s: Seq<char>) -> Seq<Seq<char>> {
    token_ranges(s, s.len()).map_values(|r: (int, int)| s.subrange(r.0, r.1))
}

/// Every range lies inside the part that was read and is not empty; while a
/// word is being read, the last range ends where the reading stands.
pub proof fn lemma_token_ranges_bounds(s: Seq<char>, n: nat)
    requires
        n <= s.len(),
    ensures
        forall|k: int|
            0 <= k < token_ranges(s, n).len() ==> 0 <= (#[trigger] token_ranges(s, n)[k]).0
                < token_ranges(s, n)[k].1 <= n,
        n > 0 && !is_whitespace(s[n - 1]) ==> token_ranges(s, n).len() > 0 && token_ranges(
            s,
            n,
        ).last().1 == n,
    decreases n,
{
    if n > 0 {
        lemma_token_ranges_bounds(s, (n - 1) as nat);
        let before = token_ranges(s, (n - 1) as nat);
        let now = token_ranges(s, n);
        let i = n - 1;
        assert forall|k: int| 0 <= k < now.len() implies 0 <= (#[trigger] now[k]).0 < now[k].1
            <= n by {
            if is_whitespace(s[i]) {
                assert(now[k] == before[k]);
            } else if i > 0 && !is_whitespace(s[i - 1]) {
                if k < now.len() - 1 {
                    assert(now[k] == before[k]);
                } else {
                    assert(now[k] == (before.last().0, n as int));
                    assert(before[before.len() - 1].0 < before[before.len() - 1].1);
                }
            } else {
                if k < before.len() {
                    assert(now[k] == before[k]);
                }
            }
        }
    }
}

/// The characters of `s`, one by one.
pub fn chars_of(s: &str) -> (v: Vec<char>)
    ensures
        v@ == s@,
{
    let mut v: Vec<char> = Vec::new();
    for c in it: s.chars()
        invariant
            it.seq() == s@,
            v@ == s@.take(it.index() as int),
    {
        proof {
            assert(s@.take(it.index() + 1) =~= s@.take(it.index() as int).push(c));
        }
        v.push(c);
    }
    proof {
        assert(s@.take(s@.len() as int) =~= s@);
    }
    v
}

/// The ranges of a vector of index pairs, as mathematical integers.
pub open spec fn ranges_view(r: Seq<(usize, usize)>) -> Seq<(int, int)> {
    r.map_values(|p: (usize, usize)| (p.0 as int, p.1 as int))
}

/// Cuts `chars` into words at whitespace and returns the range of each.
pub fn split_whitespace(chars: &Vec<char>) -> (r: Vec<(usize, usize)>)
    ensures
        ranges_view(r@) == token_ranges(chars@, chars@.len()),
        forall|k: int| 0 <= k < r@.len() ==> (#[trigger] r@[k]).0 < r@[k].1 <= chars@.len(),
{
    let mut r: Vec<(usize, usize)> = Vec::new();
    let mut in_token = false;
    let mut i: usize = 0;
    while i < chars.len()
        invariant
            i <= chars@.len(),
            in_token == (i > 0 && !is_whitespace(chars@[i - 1])),
            ranges_view(r@) == token_ranges(chars@, i as nat),
        decreases chars@.len() - i,
    {
        let c = chars[i];
        let ghost before = r@;
        proof {
            lemma_token_ranges_bounds(chars@, i as nat);
        }
        if char_is_whitespace(c) {
            in_token = false;
        } else {
            if in_token {
                let last = r.len() - 1;
                let start = r[last].0;
                r.set(last, (start, i + 1));
                proof {
                    assert(ranges_view(before)[last as int] == token_ranges(
                        chars@,
                        i as nat,
                    ).last());
                    assert(ranges_view(r@) =~= ranges_view(before).drop_last().push(
                        (start as int, i + 1),
                    ));
                }
            } else {
                r.push((i, i + 1));
                proof {
                    assert(ranges_view(r@) =~= ranges_view(before).push((i as int, i + 1)));
                }
            }
            in_token = true;
        }
        i += 1;
    }
    proof {
        lemma_token_ranges_bounds(chars@, chars@.len());
        assert forall|k: int| 0 <= k < r@.len() implies (#[trigger] r@[k]).0 < r@[k].1
            <= chars@.len() by {
            assert(ranges_view(r@)[k] == (r@[k].0 as int, r@[k].1 as int));
        }
    }
    r
}

/// `s` begins with `p`.
pub open spec fn has_prefix(s: Seq<char>, p: Seq<char>) -> bool {
    s.len() >= p.len() && s.subrange(0, p.len() as int) == p
}

/// `t` is one of the nine method names.
pub open spec fn is_http_method(t: Seq<char>) -> bool {
    exists|i: int| 0 <= i < HTTP_METHOD_COUNT && t == #[trigger] http_method_spec(i)
}

/// The three words of a request line.
#[derive(Debug, PartialEq)]
pub struct RequestLine {
    pub method: String,
    pub uri: String,
    pub version: String,
}

/// What a line is as a request line: its method, target and version when
/// it has exactly three words, the first a recognised method and the third
/// beginning with `HTTP/`; nothing otherwise.
pub open spec fn request_line_spec(line: Seq<char>) -> Option<(Seq<char>, Seq<char>, Seq<char>)> {
    let t = tokens(line);
    if t.len() == 3 && is_http_method(t[0]) && has_prefix(t[2], "HTTP/"@) {
        Some((t[0], t[1], t[2]))
    } else {
        None
    }
}

/// Whether the characters of `chars` in `from..to` are exactly `word`.
fn range_equals(chars: &Vec<char>, from: usize, to: usize, word: &Vec<char>) -> (r: bool)
    requires
        from <= to <= chars@.len(),
    ensures
        r == (chars@.subrange(from as int, to as int) == word@),
{
    if to - from != word.len() {
        return false;
    }
    let mut j: usize = 0;
    while j < word.len()
        invariant
            from <= to <= chars@.len(),
            to - from == word@.len(),
            j <= word@.len(),
            forall|k: int| 0 <= k < j ==> chars@[from + k] == word@[k],
        decreases word@.len() - j,
    {
        if chars[from + j] != word[j] {
            proof {
                assert(chars@.subrange(from as int, to as int)[j as int] != word@[j as int]);
            }
            return false;
        }
        j += 1;
    }
    proof {
        assert(chars@.subrange(from as int, to as int) =~= word@);
    }
    true
}

/// Whether the characters of `chars` in `from..to` begin with `word`.
fn range_has_prefix(chars: &Vec<char>, from: usize, to: usize, word: &Vec<char>) -> (r: bool)
    requires
        from <= to <= chars@.len(),
    ensures
        r == has_prefix(chars@.subrange(from as int, to as int), word@),
{
    if to - from < word.len() {
        return false;
    }
    let r = range_equals(chars, from, from + word.len(), word);
    proof {
        assert(chars@.subrange(from as int, to as int).subrange(0, word@.len() as int)
            =~= chars@.subrange(from as int, from + word@.len()));
    }
    r
}

/// Whether the characters of `chars` in `from..to` are a method name.
fn range_is_method(chars: &Vec<char>, from: usize, to: usize) -> (r: bool)
    requires
        from <= to <= chars@.len(),
    ensures
        r == is_http_method(chars@.subrange(from as int, to as int)),
{
    let mut i: usize = 0;
    while i < HTTP_METHOD_COUNT
        invariant
            i <= HTTP_METHOD_COUNT,
            from <= to <= chars@.len(),
            forall|k: int|
                0 <= k < i ==> chars@.subrange(from as int, to as int) != #[trigger] http_method_spec(
                    k,
                ),
        decreases HTTP_METHOD_COUNT - i,
    {
        let name = chars_of(http_method(i));
        if range_equals(chars, from, to, &name) {
            return true;
        }
        i += 1;
    }
    false
}

/// Reads a line as `METHOD target VERSION`.
///
/// The line is cut at whitespace. It is a request line when that leaves
/// exactly three words, the first one of the nine methods and the third
/// beginning with `HTTP/`.
pub fn parse_request_line(line: &str) -> (r: Option<RequestLine>)
    ensures
        match r {
            Some(req) => request_line_spec(line@) == Some((req.method@, req.uri@, req.version@)),
            None => request_line_spec(line@) is None,
        },
{
    let chars = chars_of(line);
    let ranges = split_whitespace(&chars);
    proof {
        assert(tokens(line@).len() == ranges@.len());
    }
    if ranges.len() != 3 {
        return None;
    }
    let (m0, m1) = ranges[0];
    let (u0, u1) = ranges[1];
    let (v0, v1) = ranges[2];
    proof {
        assert(ranges_view(ranges@)[0] == (m0 as int, m1 as int));
        assert(ranges_view(ranges@)[1] == (u0 as int, u1 as int));
        assert(ranges_view(ranges@)[2] == (v0 as int, v1 as int));
        assert(tokens(line@)[0] == line@.subrange(m0 as int, m1 as int));
        assert(tokens(line@)[1] == line@.subrange(u0 as int, u1 as int));
        assert(tokens(line@)[2] == line@.subrange(v0 as int, v1 as int));
    }
    if !range_is_method(&chars, m0, m1) {
        return None;
    }
    let marker = chars_of("HTTP/");
    if !range_has_prefix(&chars, v0, v1, &marker) {
        return None;
    }
    Some(
        RequestLine {
            method: line.substring_char(m0, m1).to_owned(),
            uri: line.substring_char(u0, u1).to_owned(),
            version: line.substring_char(v0, v1).to_owned(),
        },
    )
}

/// Verdict of the HTTP inspection.
#[derive(Debug, PartialEq)]
pub enum HttpInspectionResult {
    /// A well-formed request head arrived: the wrong protocol for the broker.
    HttpDetected,
    /// The first line is no request line.
    NotHttp,
    /// The request broke a limit or stalled; the text says which.
    SlowlorisDetected(String),
}

/// A verdict with its reason as a sequence of characters.
pub enum HttpOutcome {
    HttpDetected,
    NotHttp,
    SlowlorisDetected(Seq<char>),
}

impl View for HttpInspectionResult {
    type V = HttpOutcome;

    open spec fn view(&self) -> HttpOutcome {
        match self {
            HttpInspectionResult::HttpDetected => HttpOutcome::HttpDetected,
            HttpInspectionResult::NotHttp => HttpOutcome::NotHttp,
            HttpInspectionResult::SlowlorisDetected(reason) => HttpOutcome::SlowlorisDetected(
                reason@,
            ),
        }
    }
}

/// Reason given for a header that brings the count above the limit.
pub open spec fn reason_header_count() -> Seq<char> {
    "max header count exceeded"@
}

/// Reason given when the input ends between two header lines.
pub open spec fn reason_incomplete_headers() -> Seq<char> {
    "incomplete headers (EOF)"@
}

/// Reason given when the header lines together pass the size limit.
pub open spec fn reason_header_size() -> Seq<char> {
    "max header size exceeded"@
}

/// Reason given for a header line without a colon.
pub open spec fn reason_malformed_header() -> Seq<char> {
    "malformed header line"@
}

/// Reason given when the whole request took longer than allowed.
pub open spec fn reason_total_timeout() -> Seq<char> {
    "total request timeout exceeded"@
}

/// Why reading a line failed.
#[derive(Debug, PartialEq, Eq, Clone, Copy, Structural)]
pub enum ReadError {
    /// No byte arrived within the idle deadline.
    TimedOut,
    /// The line is too long or is not UTF-8.
    InvalidData,
    /// The input ended in the middle of a line.
    UnexpectedEof,
    /// The transport reported an error.
    Other,
}

/// Outcome of one attempt to read a single byte.
#[derive(Debug, PartialEq, Eq, Clone, Copy, Structural)]
pub enum ReadEvent {
    /// A byte arrived.
    Byte(u8),
    /// The peer closed the connection.
    Eof,
    /// No byte arrived within the idle deadline.
    IdleTimeout,
    /// The deadline for the whole request passed.
    DeadlineExceeded,
    /// The transport reported an error.
    Failed,
}

/// Limits on the header section of a request.
#[derive(Debug, PartialEq, Eq, Clone, Copy, Structural)]
pub struct HttpLimits {
    /// Most bytes that the header lines may take together, each counted with
    /// its line terminator.
    pub max_header_size: usize,
    /// Most headers that a request may carry.
    pub max_header_count: usize,
    /// A header line, with its carriage return, must stay below this size.
    pub max_header_line_size: usize,
}

/// State of an inspection between two bytes.
pub struct HttpState {
    pub limits: HttpLimits,
    /// The request line has been read and accepted.
    pub in_headers: bool,
    /// Header lines accepted so far.
    pub header_count: nat,
    /// Bytes of the header lines read so far, terminators included.
    pub total_header_bytes: nat,
    /// Bytes of the line being read.
    pub line: Seq<u8>,
}

/// Where an inspection stands after a byte.
pub enum HttpProgressView {
    Continue(HttpState),
    Done(HttpOutcome),
    Failed(ReadError),
}

/// State before the first byte.
pub open spec fn initial_state(limits: HttpLimits) -> HttpState {
    HttpState {
        limits,
        in_headers: false,
        header_count: 0,
        total_header_bytes: 0,
        line: Seq::empty(),
    }
}

/// Size that the line being read must stay below.
pub open spec fn line_cap(st: HttpState) -> nat {
    if st.in_headers {
        st.limits.max_header_line_size as nat
    } else {
        MAX_REQUEST_LINE_SIZE as nat
    }
}

/// The check made before each byte is asked for: the line being read must
/// still be below its size limit.
pub open spec fn before_read(st: HttpState) -> HttpProgressView {
    if st.line.len() >= line_cap(st) {
        HttpProgressView::Failed(ReadError::InvalidData)
    } else {
        HttpProgressView::Continue(st)
    }
}

/// A header line is well formed when it holds a colon.
pub open spec fn header_has_colon(line: Seq<char>) -> bool {
    line.contains(':')
}

/// What a complete line, given without its terminator, does to the
/// inspection.
///
/// A request line opens the header section or ends the inspection. Of a
/// header line the size is counted first; an empty line within the size
/// limit completes the request; any other line must hold a colon, and is
/// a header, which must not bring the count of headers above its limit.
pub open spec fn end_of_line(st: HttpState, content: Seq<u8>) -> HttpProgressView {
    if !valid_utf8(content) {
        HttpProgressView::Failed(ReadError::InvalidData)
    } else if !st.in_headers {
        if request_line_spec(decode_utf8(content)) is None {
            HttpProgressView::Done(HttpOutcome::NotHttp)
        } else {
            before_read(
                HttpState {
                    limits: st.limits,
                    in_headers: true,
                    header_count: 0,
                    total_header_bytes: 0,
                    line: Seq::empty(),
                },
            )
        }
    } else {
        let total = st.total_header_bytes + content.len() + 2;
        if total > st.limits.max_header_size {
            HttpProgressView::Done(HttpOutcome::SlowlorisDetected(reason_header_size()))
        } else if content.len() == 0 {
            HttpProgressView::Done(HttpOutcome::HttpDetected)
        } else if !header_has_colon(decode_utf8(content)) {
            HttpProgressView::Done(HttpOutcome::SlowlorisDetected(reason_malformed_header()))
        } else if st.header_count + 1 > st.limits.max_header_count {
            HttpProgressView::Done(HttpOutcome::SlowlorisDetected(reason_header_count()))
        } else {
            before_read(
                HttpState {
                    limits: st.limits,
                    in_headers: true,
                    header_count: st.header_count + 1,
                    total_header_bytes: total,
                    line: Seq::empty(),
                },
            )
        }
    }
}

/// One step of the inspection: what the outcome of a read does to it.
///
/// A line ends at a line feed that follows a carriage return; the carriage
/// return is not part of the line. The end of input before the first byte
/// of a line ends the inspection; in the middle of a line it is an error.
pub open spec fn step(st: HttpState, ev: ReadEvent) -> HttpProgressView {
    match ev {
        ReadEvent::Eof => if st.line.len() == 0 {
            if st.in_headers {
                HttpProgressView::Done(HttpOutcome::SlowlorisDetected(reason_incomplete_headers()))
            } else {
                HttpProgressView::Done(HttpOutcome::NotHttp)
            }
        } else {
            HttpProgressView::Failed(ReadError::UnexpectedEof)
        },
        ReadEvent::IdleTimeout => HttpProgressView::Failed(ReadError::TimedOut),
        ReadEvent::DeadlineExceeded => HttpProgressView::Done(
            HttpOutcome::SlowlorisDetected(reason_total_timeout()),
        ),
        ReadEvent::Failed => HttpProgressView::Failed(ReadError::Other),
        ReadEvent::Byte(b) => if b == 0x0A && st.line.len() > 0 && st.line.last() == 0x0D {
            end_of_line(st, st.line.drop_last())
        } else {
            before_read(
                HttpState {
                    limits: st.limits,
                    in_headers: st.in_headers,
                    header_count: st.header_count,
                    total_header_bytes: st.total_header_bytes,
                    line: st.line.push(b),
                },
            )
        },
    }
}

/// A state in which the next byte may be asked for.
pub open spec fn ready(st: HttpState) -> bool {
    &&& st.line.len() < line_cap(st)
    &&& st.header_count <= st.limits.max_header_count
    &&& st.total_header_bytes <= st.limits.max_header_size
}

/// A step from a state that may read leads, when the inspection goes on, to
/// a state that may read, under the same limits.
pub proof fn lemma_step_ready(st: HttpState, ev: ReadEvent)
    requires
        ready(st),
    ensures
        step(st, ev) matches HttpProgressView::Continue(next) ==> ready(next) && next.limits
            == st.limits,
{
}

/// The bytes as text, when they are UTF-8.
///
/// Calls `core::str::from_utf8`. The contract says what its documentation
/// says: the call succeeds exactly on well-formed UTF-8, and the string is
/// then the text that the bytes encode.
#[verifier::external_body]
fn str_from_utf8(bytes: &[u8]) -> (r: Option<&str>)
    ensures
        r is Some <==> valid_utf8(bytes@),
        r matches Some(s) ==> s@ == decode_utf8(bytes@),
{
    match core::str::from_utf8(bytes) {
        Ok(s) => Some(s),
        Err(_) => None,
    }
}

/// Whether the line holds a colon.
fn line_has_colon(line: &str) -> (r: bool)
    ensures
        r == header_has_colon(line@),
{
    let chars = chars_of(line);
    let mut i: usize = 0;
    while i < chars.len()
        invariant
            i <= chars@.len(),
            chars@ == line@,
            forall|k: int| 0 <= k < i ==> chars@[k] != ':',
        decreases chars@.len() - i,
    {
        if chars[i] == ':' {
            return true;
        }
        i += 1;
    }
    false
}

/// Inspector of a request head, fed one read outcome at a time.
#[derive(Debug)]
pub struct HttpInspector {
    limits: HttpLimits,
    in_headers: bool,
    header_count: usize,
    total_header_bytes: usize,
    line: Vec<u8>,
}

/// Where an inspection stands after a step.
#[derive(Debug)]
pub enum HttpProgress {
    /// Another byte is needed.
    Continue(HttpInspector),
    /// The inspection reached a verdict.
    Done(HttpInspectionResult),
    /// Reading failed before a verdict.
    Failed(ReadError),
}

impl View for HttpInspector {
    type V = HttpState;

    closed spec fn view(&self) -> HttpState {
        HttpState {
            limits: self.limits,
            in_headers: self.in_headers,
            header_count: self.header_count as nat,
            total_header_bytes: self.total_header_bytes as nat,
            line: self.line@,
        }
    }
}

impl View for HttpProgress {
    type V = HttpProgressView;

    open spec fn view(&self) -> HttpProgressView {
        match self {
            HttpProgress::Continue(h) => HttpProgressView::Continue(h@),
            HttpProgress::Done(r) => HttpProgressView::Done(r@),
            HttpProgress::Failed(e) => HttpProgressView::Failed(*e),
        }
    }
}

impl HttpInspector {
    #[verifier::type_invariant]
    spec fn inv(self) -> bool {
        ready(self@)
    }

    /// An inspector that has read nothing yet.
    pub fn new(limits: HttpLimits) -> (h: HttpInspector)
        ensures
            h@ == initial_state(limits),
            ready(h@),
    {
        HttpInspector {
            limits,
            in_headers: false,
            header_count: 0,
            total_header_bytes: 0,
            line: Vec::new(),
        }
    }

    /// The limits that the inspector applies.
    pub fn limits(&self) -> (l: HttpLimits)
        ensures
            l == self@.limits,
    {
        self.limits
    }

    /// Applies the check that comes before a read to a state that is about
    /// to be kept.
    fn check_before_read(
        limits: HttpLimits,
        in_headers: bool,
        header_count: usize,
        total_header_bytes: usize,
        line: Vec<u8>,
    ) -> (p: HttpProgress)
        requires
            total_header_bytes <= limits.max_header_size,
            header_count <= limits.max_header_count,
        ensures
            p@ == before_read(
                HttpState {
                    limits,
                    in_headers,
                    header_count: header_count as nat,
                    total_header_bytes: total_header_bytes as nat,
                    line: line@,
                },
            ),
    {
        let cap = if in_headers {
            limits.max_header_line_size
        } else {
            MAX_REQUEST_LINE_SIZE
        };
        if line.len() >= cap {
            return HttpProgress::Failed(ReadError::InvalidData);
        }
        HttpProgress::Continue(
            HttpInspector { limits, in_headers, header_count, total_header_bytes, line },
        )
    }

    /// Takes the outcome of the read that was asked for and says where the
    /// inspection stands.
    pub fn feed(self, ev: ReadEvent) -> (p: HttpProgress)
        ensures
            p@ == step(self@, ev),
            p matches HttpProgress::Continue(h) ==> ready(h@),
    {
        proof {
            use_type_invariant(&self);
        }
        let HttpInspector { limits, in_headers, header_count, total_header_bytes, line } = self;
        let mut line = line;
        match ev {
            ReadEvent::Eof => {
                if line.len() == 0 {
                    if in_headers {
                        HttpProgress::Done(
                            HttpInspectionResult::SlowlorisDetected(
                                "incomplete headers (EOF)".to_string(),
                            ),
                        )
                    } else {
                        HttpProgress::Done(HttpInspectionResult::NotHttp)
                    }
                } else {
                    HttpProgress::Failed(ReadError::UnexpectedEof)
                }
            },
            ReadEvent::IdleTimeout => HttpProgress::Failed(ReadError::TimedOut),
            ReadEvent::DeadlineExceeded => HttpProgress::Done(
                HttpInspectionResult::SlowlorisDetected(
                    "total request timeout exceeded".to_string(),
                ),
            ),
            ReadEvent::Failed => HttpProgress::Failed(ReadError::Other),
            ReadEvent::Byte(b) => {
                let n = line.len();
                if b == 0x0A && n > 0 && line[n - 1] == 0x0D {
                    line.pop();
                    Self::finish_line(limits, in_headers, header_count, total_header_bytes, line)
                } else {
                    line.push(b);
                    Self::check_before_read(
                        limits,
                        in_headers,
                        header_count,
                        total_header_bytes,
                        line,
                    )
                }
            },
        }
    }

    /// Judges a complete line, given without its terminator.
    fn finish_line(
        limits: HttpLimits,
        in_headers: bool,
        header_count: usize,
        total_header_bytes: usize,
        content: Vec<u8>,
    ) -> (p: HttpProgress)
        requires
            total_header_bytes <= limits.max_header_size,
            header_count <= limits.max_header_count,
        ensures
            p@ == end_of_line(
                HttpState {
                    limits,
                    in_headers,
                    header_count: header_count as nat,
                    total_header_bytes: total_header_bytes as nat,
                    line: Seq::empty(),
                },
                content@,
            ),
    {
        let text = match str_from_utf8(content.as_slice()) {
            Some(text) => text,
            None => {
                return HttpProgress::Failed(ReadError::InvalidData);
            },
        };
        if !in_headers {
            match parse_request_line(text) {
                None => HttpProgress::Done(HttpInspectionResult::NotHttp),
                Some(_) => Self::check_before_read(limits, true, 0, 0, Vec::new()),
            }
        } else {
            let room = limits.max_header_size - total_header_bytes;
            if content.len() > room || room - content.len() < 2 {
                return HttpProgress::Done(
                    HttpInspectionResult::SlowlorisDetected("max header size exceeded".to_string()),
                );
            }
            let total = total_header_bytes + content.len() + 2;
            if content.len() == 0 {
                return HttpProgress::Done(HttpInspectionResult::HttpDetected);
            }
            if !line_has_colon(text) {
                return HttpProgress::Done(
                    HttpInspectionResult::SlowlorisDetected("malformed header line".to_string()),
                );
            }
            if header_count >= limits.max_header_count {
                return HttpProgress::Done(
                    HttpInspectionResult::SlowlorisDetected(
                        "max header count exceeded".to_string(),
                    ),
                );
            }
            Self::check_before_read(limits, true, header_count + 1, total, Vec::new())
        }
    }
}

/// The byte at index `i` is a line feed that follows a carriage return.
pub open spec fn is_line_end(s: Seq<u8>, i: int) -> bool {
    1 <= i < s.len() && s[i - 1] == 0x0D && s[i] == 0x0A
}

/// The least index from `i` on at which a line ends, or the length of `s`
/// when no line ends there.
pub open spec fn line_end_from(s: Seq<u8>, i: int) -> int
    decreases s.len() - i,
{
    if i >= s.len() {
        s.len() as int
    } else if is_line_end(s, i) {
        i
    } else {
        line_end_from(s, i + 1)
    }
}

/// What reading one line gives.
pub enum LineRead {
    /// A line, without its terminator, and the input that follows it.
    Line { content: Seq<u8>, rest: Seq<u8> },
    /// The input ended before the first byte of a line.
    End,
    /// The line could not be read.
    Failed(ReadError),
}

/// Reading one line from an input that is wholly there.
///
/// The line ends at the first line feed that follows a carriage return,
/// and neither is part of it. The bytes of the line, carriage return
/// included, must stay below `cap` in number, and the line must be UTF-8.
/// An input that ends before any terminator is the end of input when it is
/// empty and an error otherwise.
pub open spec fn read_line_spec(s: Seq<u8>, cap: nat) -> LineRead {
    let end = line_end_from(s, 1);
    if end < s.len() && end < cap {
        if valid_utf8(s.take(end - 1)) {
            LineRead::Line { content: s.take(end - 1), rest: s.skip(end + 1) }
        } else {
            LineRead::Failed(ReadError::InvalidData)
        }
    } else if s.len() >= cap {
        LineRead::Failed(ReadError::InvalidData)
    } else if s.len() == 0 {
        LineRead::End
    } else {
        LineRead::Failed(ReadError::UnexpectedEof)
    }
}

/// The verdict on the header lines in `s`, after `count` headers that took
/// `total` bytes.
///
/// A line that brings the bytes of the headers above the size limit ends
/// the inspection, as does the end of input. An empty line completes the
/// request. Any other line must hold a colon and is a header; a header
/// that brings the count above the limit ends the inspection.
pub open spec fn headers_spec(limits: HttpLimits, count: nat, total: nat, s: Seq<u8>) -> Result<
    HttpOutcome,
    ReadError,
>
    decreases s.len(),
{
    match read_line_spec(s, limits.max_header_line_size as nat) {
        LineRead::Failed(e) => Err(e),
        LineRead::End => Ok(HttpOutcome::SlowlorisDetected(reason_incomplete_headers())),
        LineRead::Line { content, rest } => {
            if total + content.len() + 2 > limits.max_header_size {
                Ok(HttpOutcome::SlowlorisDetected(reason_header_size()))
            } else if content.len() == 0 {
                Ok(HttpOutcome::HttpDetected)
            } else if !header_has_colon(decode_utf8(content)) {
                Ok(HttpOutcome::SlowlorisDetected(reason_malformed_header()))
            } else if count + 1 > limits.max_header_count {
                Ok(HttpOutcome::SlowlorisDetected(reason_header_count()))
            } else if rest.len() < s.len() {
                headers_spec(limits, count + 1, total + content.len() + 2, rest)
            } else {
                Err(ReadError::Other)
            }
        },
    }
}

/// The verdict on a request head, line by line: the first line must be a
/// request line, or the input is not HTTP; the header lines follow.
pub open spec fn request_spec(limits: HttpLimits, s: Seq<u8>) -> Result<HttpOutcome, ReadError> {
    match read_line_spec(s, MAX_REQUEST_LINE_SIZE as nat) {
        LineRead::Failed(e) => Err(e),
        LineRead::End => Ok(HttpOutcome::NotHttp),
        LineRead::Line { content, rest } => {
            if request_line_spec(decode_utf8(content)) is None {
                Ok(HttpOutcome::NotHttp)
            } else {
                headers_spec(limits, 0, 0, rest)
            }
        },
    }
}

/// The result of `read_line` as a value of `LineRead`: the text of the line
/// for its bytes, and the number of bytes taken for the input that is left.
pub open spec fn line_read_view(r: Result<Option<(String, usize)>, ReadError>, input: Seq<u8>) -> LineRead {
    match r {
        Ok(Some((line, used))) => LineRead::Line {
            content: encode_utf8(line@),
            rest: input.skip(used as int),
        },
        Ok(None) => LineRead::End,
        Err(e) => LineRead::Failed(e),
    }
}

/// Reads one line from an input that is wholly there.
///
/// Returns the line without its terminator, as text, and the number of
/// bytes that it took from the input, terminator included; nothing when
/// the input is empty. Fails with `InvalidData` when the line does not end
/// before `max_line_size` bytes or is not UTF-8, and with `UnexpectedEof`
/// when the input ends in the middle of a line.
pub fn read_line(input: &[u8], max_line_size: usize) -> (r: Result<
    Option<(String, usize)>,
    ReadError,
>)
    ensures
        line_read_view(r, input@) == read_line_spec(input@, max_line_size as nat),
        r matches Ok(Some((line, used))) ==> 2 <= used <= input@.len() && line@ == decode_utf8(
            input@.take(used - 2),
        ),
{
    let mut i: usize = 0;
    loop
        invariant
            i <= input@.len(),
            i <= max_line_size,
            forall|j: int| 1 <= j < i ==> !is_line_end(input@, j),
        decreases input@.len() - i,
    {
        proof {
            if i >= 1 {
                lemma_line_end_skip(input@, 1, i as int);
            }
            lemma_line_end_from(input@, 1);
            lemma_line_end_from(input@, i as int);
        }
        if i >= max_line_size {
            return Err(ReadError::InvalidData);
        }
        if i >= input.len() {
            if i == 0 {
                return Ok(None);
            } else {
                return Err(ReadError::UnexpectedEof);
            }
        }
        if input[i] == 0x0A && i >= 1 && input[i - 1] == 0x0D {
            let content = vstd::slice::slice_subrange(input, 0, i - 1);
            proof {
                assert(is_line_end(input@, i as int));
                assert(content@ =~= input@.take(i - 1));
            }
            match str_from_utf8(content) {
                Some(text) => {
                    proof {
                        vstd::utf8::decode_utf8_encode_utf8(content@);
                    }
                    return Ok(Some((text.to_owned(), i + 1)));
                },
                None => {
                    return Err(ReadError::InvalidData);
                },
            }
        }
        proof {
            assert(!is_line_end(input@, i as int));
        }
        i += 1;
    }
}

/// The event that reading one byte of a finite input gives: its first byte,
/// or the end of input.
pub open spec fn next_event(input: Seq<u8>) -> ReadEvent {
    if input.len() == 0 {
        ReadEvent::Eof
    } else {
        ReadEvent::Byte(input[0])
    }
}

/// The inspection of an input that is wholly there, from state `st` on:
/// its bytes are fed one by one, and after the last the end of input.
pub open spec fn inspect_from(st: HttpState, input: Seq<u8>) -> Result<HttpOutcome, ReadError>
    decreases input.len(),
{
    match step(st, next_event(input)) {
        HttpProgressView::Done(outcome) => Ok(outcome),
        HttpProgressView::Failed(e) => Err(e),
        HttpProgressView::Continue(next) => if input.len() == 0 {
            Err(ReadError::UnexpectedEof)
        } else {
            inspect_from(next, input.drop_first())
        },
    }
}

/// The verdict on an input that is wholly there.
pub open spec fn inspect_spec(limits: HttpLimits, input: Seq<u8>) -> Result<
    HttpOutcome,
    ReadError,
> {
    inspect_from(initial_state(limits), input)
}

/// The verdict or error as a value of the specification.
pub open spec fn result_view(r: Result<HttpInspectionResult, ReadError>) -> Result<
    HttpOutcome,
    ReadError,
> {
    match r {
        Ok(verdict) => Ok(verdict@),
        Err(e) => Err(e),
    }
}

/// Inspects an input that is wholly there, such as a request held in
/// memory: no read of it can stall, so no deadline applies.
///
/// The verdict is `HttpDetected` for a request line followed by header
/// lines and an empty line, `NotHttp` when the first line is no request
/// line, and `SlowlorisDetected` when the head breaks a limit, holds a
/// header without a colon or stops short. Reading fails on a line that is
/// too long, that is not UTF-8 or that the end of input cuts.
pub fn inspect_http(
    input: &[u8],
    max_header_size: usize,
    max_header_count: usize,
    max_header_line_size: usize,
) -> (r: Result<HttpInspectionResult, ReadError>)
    ensures
        result_view(r) == request_spec(
            HttpLimits { max_header_size, max_header_count, max_header_line_size },
            input@,
        ),
        result_view(r) == inspect_spec(
            HttpLimits { max_header_size, max_header_count, max_header_line_size },
            input@,
        ),
{
    let limits = HttpLimits { max_header_size, max_header_count, max_header_line_size };
    let mut inspector = HttpInspector::new(limits);
    let mut i: usize = 0;
    proof {
        assert(input@.skip(0) =~= input@);
        lemma_inspect_by_lines(limits, input@);
    }
    loop
        invariant
            i <= input@.len(),
            limits == (HttpLimits { max_header_size, max_header_count, max_header_line_size }),
            inspect_spec(limits, input@) == request_spec(limits, input@),
            inspect_spec(limits, input@) == inspect_from(inspector@, input@.skip(i as int)),
        decreases input@.len() - i,
    {
        let ev = if i < input.len() {
            ReadEvent::Byte(input[i])
        } else {
            ReadEvent::Eof
        };
        proof {
            assert(ev == next_event(input@.skip(i as int)));
            if i < input@.len() {
                assert(input@.skip(i as int).drop_first() =~= input@.skip(i + 1));
            }
        }
        match inspector.feed(ev) {
            HttpProgress::Done(verdict) => {
                return Ok(verdict);
            },
            HttpProgress::Failed(e) => {
                return Err(e);
            },
            HttpProgress::Continue(next) => {
                if i >= input.len() {
                    return Err(ReadError::UnexpectedEof);
                }
                inspector = next;
                i += 1;
            },
        }
    }
}

/// Where `line_end_from` points: between `i` and the length, with no line
/// ending before it, and at a line end unless it is the length.
proof fn lemma_line_end_from(s: Seq<u8>, i: int)
    requires
        0 <= i,
    ensures
        i <= line_end_from(s, i) || line_end_from(s, i) == s.len(),
        line_end_from(s, i) <= s.len() || line_end_from(s, i) == i,
        line_end_from(s, i) <= s.len(),
        forall|j: int| i <= j < line_end_from(s, i) ==> !is_line_end(s, j),
        line_end_from(s, i) < s.len() ==> is_line_end(s, line_end_from(s, i)),
    decreases s.len() - i,
{
    if i < s.len() && !is_line_end(s, i) {
        lemma_line_end_from(s, i + 1);
    }
}

/// No line ends between `i` and `k`: the search from `i` is the search
/// from `k`.
proof fn lemma_line_end_skip(s: Seq<u8>, i: int, k: int)
    requires
        0 <= i <= k <= s.len(),
        forall|j: int| i <= j < k ==> !is_line_end(s, j),
    ensures
        line_end_from(s, i) == line_end_from(s, k),
    decreases k - i,
{
    if i < k {
        lemma_line_end_skip(s, i + 1, k);
    }
}

/// No line ends within the line that is being read.
pub open spec fn unterminated(line: Seq<u8>) -> bool {
    forall|j: int| !is_line_end(line, j)
}

/// The verdict that the state `st` stands for when `s` is the line being
/// read followed by the input still to come.
pub open spec fn by_lines(st: HttpState, s: Seq<u8>) -> Result<HttpOutcome, ReadError> {
    if st.in_headers {
        headers_spec(st.limits, st.header_count, st.total_header_bytes, s)
    } else {
        request_spec(st.limits, s)
    }
}

/// The check before the first byte of a header line is the one that the
/// reading of a header line begins with.
proof fn lemma_before_header_line(limits: HttpLimits, count: nat, total: nat, rest: Seq<u8>)
    requires
        total <= limits.max_header_size,
        count <= limits.max_header_count,
    ensures
        ({
            let st = HttpState {
                limits,
                in_headers: true,
                header_count: count,
                total_header_bytes: total,
                line: Seq::empty(),
            };
            match before_read(st) {
                HttpProgressView::Done(outcome) => headers_spec(limits, count, total, rest) == Ok::<
                    HttpOutcome,
                    ReadError,
                >(outcome),
                HttpProgressView::Failed(e) => headers_spec(limits, count, total, rest) == Err::<
                    HttpOutcome,
                    ReadError,
                >(e),
                HttpProgressView::Continue(next) => next == st && ready(st),
            }
        }),
{
    lemma_line_end_from(rest, 1);
}

/// Feeding the bytes one by one gives the verdict that reading line by
/// line gives.
proof fn lemma_inspect_from_by_lines(st: HttpState, rest: Seq<u8>)
    requires
        ready(st),
        unterminated(st.line),
    ensures
        inspect_from(st, rest) == by_lines(st, st.line + rest),
    decreases rest.len(),
{
    let l = st.line;
    let s = l + rest;
    let cap = line_cap(st);
    assert forall|j: int| 1 <= j < l.len() implies !is_line_end(s, j) by {
        assert(!is_line_end(l, j));
        assert(s[j] == l[j] && s[j - 1] == l[j - 1]);
    }
    if l.len() >= 1 {
        lemma_line_end_skip(s, 1, l.len() as int);
    }
    lemma_line_end_from(s, 1);
    if rest.len() == 0 {
        assert(s =~= l);
        if l.len() >= 1 {
            assert(line_end_from(s, l.len() as int) == s.len());
        }
    } else {
        let b = rest[0];
        let r = rest.drop_first();
        if b == 0x0A && l.len() > 0 && l.last() == 0x0D {
            let k = l.len() as int;
            assert(s[k] == b && s[k - 1] == l[k - 1]);
            assert(is_line_end(s, k));
            assert(line_end_from(s, 1) == k);
            let content = l.drop_last();
            assert(s.take(k - 1) =~= content);
            assert(s.skip(k + 1) =~= r);
            if valid_utf8(content) {
                if !st.in_headers {
                    if request_line_spec(decode_utf8(content)) is Some {
                        lemma_before_header_line(st.limits, 0, 0, r);
                        let next = HttpState {
                            limits: st.limits,
                            in_headers: true,
                            header_count: 0,
                            total_header_bytes: 0,
                            line: Seq::empty(),
                        };
                        if before_read(next) is Continue {
                            lemma_inspect_from_by_lines(next, r);
                            assert(next.line + r =~= r);
                        }
                    }
                } else {
                    let total = st.total_header_bytes + content.len() + 2;
                    if total <= st.limits.max_header_size && content.len() != 0
                        && header_has_colon(decode_utf8(content)) && st.header_count + 1
                        <= st.limits.max_header_count {
                        lemma_before_header_line(st.limits, st.header_count + 1, total, r);
                        let next = HttpState {
                            limits: st.limits,
                            in_headers: true,
                            header_count: st.header_count + 1,
                            total_header_bytes: total,
                            line: Seq::empty(),
                        };
                        if before_read(next) is Continue {
                            lemma_inspect_from_by_lines(next, r);
                            assert(next.line + r =~= r);
                        }
                    }
                }
            }
        } else {
            let l2 = l.push(b);
            let k = l.len() as int;
            assert(s[k] == b);
            assert(!is_line_end(s, k)) by {
                if k >= 1 {
                    assert(s[k - 1] == l[k - 1]);
                }
            }
            assert(l2 + r =~= s);
            if k >= 1 {
                lemma_line_end_skip(s, k, k + 1);
            } else {
                assert(line_end_from(s, 1) == line_end_from(s, k + 1));
            }
            let next = HttpState {
                limits: st.limits,
                in_headers: st.in_headers,
                header_count: st.header_count,
                total_header_bytes: st.total_header_bytes,
                line: l2,
            };
            lemma_line_end_from(s, k + 1);
            if l2.len() < cap {
                assert forall|j: int| !is_line_end(l2, j) by {
                    if 1 <= j < l2.len() {
                        assert(l2[j] == s[j] && l2[j - 1] == s[j - 1]);
                        if j < k {
                            assert(!is_line_end(s, j));
                        }
                    }
                }
                lemma_inspect_from_by_lines(next, r);
            }
        }
    }
}

/// The inspection byte by byte and the reading line by line give the same
/// verdict on every input.
pub proof fn lemma_inspect_by_lines(limits: HttpLimits, input: Seq<u8>)
    ensures
        inspect_spec(limits, input) == request_spec(limits, input),
{
    let st = initial_state(limits);
    assert(st.line + input =~= input);
    lemma_inspect_from_by_lines(st, input);
}

/// An empty line ends the head of a request however many headers came
/// before it: when it fits the size limits, the verdict is `HttpDetected`
/// for every count of headers read so far.
pub proof fn lemma_empty_line_ends_head(limits: HttpLimits, count: nat, total: nat, rest: Seq<u8>)
    requires
        limits.max_header_line_size >= 2,
        total + 2 <= limits.max_header_size,
    ensures
        headers_spec(limits, count, total, seq![0x0Du8, 0x0Au8] + rest) == Ok::<
            HttpOutcome,
            ReadError,
        >(HttpOutcome::HttpDetected),
{
    let s = seq![0x0Du8, 0x0Au8] + rest;
    assert(is_line_end(s, 1));
    assert(s.take(0) =~= Seq::<u8>::empty());
}

/// A header is allowed as long as it does not bring the count above the
/// limit: after `count` headers, a line with a colon that fits the size
/// limits is rejected for the count exactly when `count + 1` is above it.
pub proof fn lemma_header_count_rule(st: HttpState, content: Seq<u8>)
    requires
        st.in_headers,
        valid_utf8(content),
        content.len() > 0,
        header_has_colon(decode_utf8(content)),
        st.total_header_bytes + content.len() + 2 <= st.limits.max_header_size,
    ensures
        end_of_line(st, content) == HttpProgressView::Done(
            HttpOutcome::SlowlorisDetected(reason_header_count()),
        ) <==> st.header_count + 1 > st.limits.max_header_count,
{
    reveal_strlit("max header count exceeded");
    if st.header_count + 1 <= st.limits.max_header_count {
        let next = HttpState {
            limits: st.limits,
            in_headers: true,
            header_count: st.header_count + 1,
            total_header_bytes: st.total_header_bytes + content.len() + 2,
            line: Seq::empty(),
        };
        assert(end_of_line(st, content) == before_read(next));
        assert(!(before_read(next) is Done));
    }
}

/// The quick check never contradicts the inspection: an input whose
/// first bytes fail the quick check and whose first line is read and is no
/// request line is judged not to be HTTP.
pub proof fn lemma_quick_check_agrees(buf: Seq<u8>, input: Seq<u8>, limits: HttpLimits)
    requires
        !looks_like_http_spec(buf),
        buf.len() <= input.len(),
        input.take(buf.len() as int) == buf,
        read_line_spec(input, MAX_REQUEST_LINE_SIZE as nat) matches LineRead::Line { content, .. }
            && request_line_spec(decode_utf8(content)) is None,
    ensures
        inspect_spec(limits, input) == Ok::<HttpOutcome, ReadError>(HttpOutcome::NotHttp),
{
    lemma_inspect_by_lines(limits, input);
}

} // verus!
