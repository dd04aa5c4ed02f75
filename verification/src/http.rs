//! HTTP heads: reading them byte by byte, taking requests and responses apart,
//! and writing them.
use vstd::prelude::*;
use vstd::slice::slice_subrange;

use crate::text;
use crate::text::{
    chars_of, cut_line, cut_once, cut_word, decimal_text, find_from, matches_at, parse_u16,
    same_chars, same_ignoring_case, string_of, trimmed,
};

verus! {

// ---------------------------------------------------------------------------
// Bytes to text
// ---------------------------------------------------------------------------

/// The text that bytes decode to when every invalid piece is replaced by the
/// replacement character.
pub uninterp spec fn utf8_lossy(bytes: Seq<u8>) -> Seq<char>;

/// `String::from_utf8` of the standard library: the text whose UTF-8 encoding
/// the bytes are, and nothing if they are not valid UTF-8.
#[verifier::external_body]
pub(crate) fn utf8_text(bytes: Vec<u8>) -> (r: Option<String>)
    ensures
        match r {
            Some(s) => vstd::utf8::valid_utf8(bytes@) && s@ == vstd::utf8::decode_utf8(bytes@),
            None => !vstd::utf8::valid_utf8(bytes@),
        },
{
    String::from_utf8(bytes).ok()
}

/// `String::from_utf8_lossy` of the standard library: valid UTF-8 decodes to its
/// text; what becomes of invalid pieces is left to the name `utf8_lossy`.
#[verifier::external_body]
pub(crate) fn utf8_text_lossy(bytes: &[u8]) -> (r: String)
    ensures
        r@ == utf8_lossy(bytes@),
        vstd::utf8::valid_utf8(bytes@) ==> r@ == vstd::utf8::decode_utf8(bytes@),
{
    String::from_utf8_lossy(bytes).into_owned()
}

// ---------------------------------------------------------------------------
// Reading a head
// ---------------------------------------------------------------------------

/// A head is given up at this length.
pub const HEAD_LIMIT: usize = 8192;

/// The bytes of a blank line: the end of a head.
pub open spec fn blank_line() -> Seq<u8> {
    seq![13u8, 10u8, 13u8, 10u8]
}

/// The bytes end with a blank line.
pub open spec fn ends_head(b: Seq<u8>) -> bool {
    b.len() >= 4 && b.skip(b.len() - 4) == blank_line()
}

/// How far the reading of a head has come.
#[derive(Debug, Clone, Copy, PartialEq, Eq, Structural)]
pub enum HeadStatus {
    /// The head goes on: read one more byte.
    More,
    /// The head is complete; the next byte belongs to the body.
    Complete,
    /// The head is too long.
    TooLong,
}

/// Whether these bytes are a complete head, a hopeless one, or a beginning.
pub open spec fn head_status(b: Seq<u8>) -> HeadStatus {
    if ends_head(b) {
        HeadStatus::Complete
    } else if b.len() >= HEAD_LIMIT {
        HeadStatus::TooLong
    } else {
        HeadStatus::More
    }
}

/// Collects a head byte by byte, so that nothing behind it is consumed.
pub struct HeadReader {
    buf: Vec<u8>,
}

impl View for HeadReader {
    type V = Seq<u8>;

    closed spec fn view(&self) -> Seq<u8> {
        self.buf@
    }
}

impl HeadReader {
    /// No beginning of what was read was a complete or a hopeless head already.
    #[verifier::type_invariant]
    spec fn not_overrun(self) -> bool {
        forall|k: int|
            0 <= k < self.buf@.len() ==> head_status(#[trigger] self.buf@.take(k))
                == HeadStatus::More
    }

    /// Nothing read yet.
    pub fn new() -> (r: HeadReader)
        ensures
            r@ == Seq::<u8>::empty(),
    {
        HeadReader { buf: Vec::new() }
    }

    /// How far the reading has come. Nothing is ever read beyond the head: no
    /// shorter beginning of what was read is a complete head.
    pub fn status(&self) -> (r: HeadStatus)
        ensures
            r == head_status(self@),
            self@.len() <= HEAD_LIMIT,
            forall|k: int| 0 <= k < self@.len() ==> !ends_head(#[trigger] self@.take(k)),
    {
        proof {
            use_type_invariant(self);
            assert forall|k: int| 0 <= k < self@.len() implies !ends_head(
                #[trigger] self@.take(k),
            ) by {
                assert(head_status(self.buf@.take(k)) == HeadStatus::More);
            }
            if self@.len() > HEAD_LIMIT {
                assert(head_status(self.buf@.take(self@.len() - 1)) == HeadStatus::More);
            }
        }
        let n: usize = self.buf.len();
        if n >= 4 {
            let ghost tail = self.buf@.skip(n - 4);
            assert(tail[0] == self.buf@[n - 4] && tail[1] == self.buf@[n - 3] && tail[2]
                == self.buf@[n - 2] && tail[3] == self.buf@[n - 1]);
            if self.buf[n - 4] == 13 && self.buf[n - 3] == 10 && self.buf[n - 2] == 13
                && self.buf[n - 1] == 10 {
                assert(tail =~= blank_line());
                return HeadStatus::Complete;
            }
        }
        if n >= HEAD_LIMIT {
            HeadStatus::TooLong
        } else {
            HeadStatus::More
        }
    }

    /// Takes the next byte.
    pub fn push(&mut self, byte: u8)
        requires
            head_status(old(self)@) == HeadStatus::More,
        ensures
            final(self)@ == old(self)@.push(byte),
    {
        proof {
            use_type_invariant(&*self);
        }
        let ghost before = self.buf@;
        let mut grown: Vec<u8> = Vec::new();
        std::mem::swap(&mut grown, &mut self.buf);
        grown.push(byte);
        proof {
            assert forall|k: int| 0 <= k < grown@.len() implies head_status(
                #[trigger] grown@.take(k),
            ) == HeadStatus::More by {
                if k < before.len() {
                    assert(grown@.take(k) =~= before.take(k));
                } else {
                    assert(grown@.take(k) =~= before);
                }
            }
        }
        self.buf = grown;
    }

    /// The head as text, if it is valid UTF-8.
    pub fn text(self) -> (r: Option<String>)
        ensures
            match r {
                Some(s) => vstd::utf8::valid_utf8(self@) && s@ == vstd::utf8::decode_utf8(self@),
                None => !vstd::utf8::valid_utf8(self@),
            },
    {
        utf8_text(self.buf)
    }

    /// The head as text, with replacement characters for what is not UTF-8.
    pub fn text_lossy(&self) -> (r: String)
        ensures
            r@ == utf8_lossy(self@),
            vstd::utf8::valid_utf8(self@) ==> r@ == vstd::utf8::decode_utf8(self@),
    {
        utf8_text_lossy(self.buf.as_slice())
    }
}

// ---------------------------------------------------------------------------
// Taking requests and responses apart
// ---------------------------------------------------------------------------

/// A request target without its query.
pub open spec fn before_query(target: Seq<char>) -> Seq<char> {
    match text::split_once(target, seq!['?']) {
        Some((path, _)) => path,
        None => target,
    }
}

/// The path that a request head asks for with `GET`.
pub open spec fn request_path(head: Seq<char>) -> Option<Seq<char>> {
    if head.len() == 0 {
        None
    } else {
        match text::next_word(text::first_line(head)) {
            Some((method, rest)) => if method == "GET"@ {
                match text::next_word(rest) {
                    Some((target, _)) => Some(before_query(target)),
                    None => None,
                }
            } else {
                None
            },
            None => None,
        }
    }
}

/// Reads the path of a `GET` request, without its query; nothing for any other
/// request.
pub fn parse_request_path(head: &str) -> (r: Option<String>)
    ensures
        match r {
            Some(path) => request_path(head@) == Some(path@),
            None => request_path(head@) is None,
        },
{
    let cs = chars_of(head);
    if cs.len() == 0 {
        return None;
    }
    let (line, _) = cut_line(cs.as_slice());
    let get = chars_of("GET");
    let query: [char; 1] = ['?'];
    assert(query@ =~= seq!['?']);
    match cut_word(line) {
        Some((method, rest)) => {
            if !same_chars(method, get.as_slice()) {
                return None;
            }
            match cut_word(rest) {
                Some((target, _)) => match cut_once(target, &query) {
                    Some((path, _)) => Some(string_of(path)),
                    None => Some(string_of(target)),
                },
                None => None,
            }
        },
        None => None,
    }
}

/// The value of the first header of a name in the lines of a head.
pub open spec fn header_in(lines: Seq<char>, name: Seq<char>) -> Option<Seq<char>>
    decreases lines.len(),
{
    if lines.len() == 0 {
        None
    } else {
        proof {
            text::lemma_line_len(lines);
        }
        match text::split_once(text::first_line(lines), seq![':']) {
            Some((key, value)) => if text::same_but_case(text::trim(key), name) {
                Some(text::trim(value))
            } else {
                header_in(text::after_line(lines), name)
            },
            None => header_in(text::after_line(lines), name),
        }
    }
}

/// The value of a header in a head: the lines behind the first one count.
pub open spec fn header(head: Seq<char>, name: Seq<char>) -> Option<Seq<char>> {
    header_in(text::after_line(head), name)
}

/// Reads the value of a header, trimmed. The name counts without regard to case.
pub fn header_value(head: &str, name: &str) -> (r: Option<String>)
    ensures
        match r {
            Some(value) => header(head@, name@) == Some(value@),
            None => header(head@, name@) is None,
        },
{
    let cs = chars_of(head);
    let wanted = chars_of(name);
    let colon: [char; 1] = [':'];
    assert(colon@ =~= seq![':']);
    let (_, mut rest) = cut_line(cs.as_slice());
    while rest.len() > 0
        invariant
            wanted@ == name@,
            colon@ == seq![':'],
            header(head@, name@) == header_in(rest@, name@),
        decreases rest@.len(),
    {
        let (line, more) = cut_line(rest);
        match cut_once(line, &colon) {
            Some((key, value)) => {
                if same_ignoring_case(trimmed(key), wanted.as_slice()) {
                    return Some(string_of(trimmed(value)));
                }
            },
            None => {},
        }
        rest = more;
    }
    None
}

/// The token that a response head carries.
pub open spec fn head_token(head: Seq<char>) -> Option<Seq<char>> {
    match header(head, "x-micsync-token"@) {
        Some(t) => if t.len() > 0 {
            Some(t)
        } else {
            None
        },
        None => None,
    }
}

/// Reads the token that a server issued with its response.
pub fn token_from_head(head: &str) -> (r: Option<String>)
    ensures
        match r {
            Some(t) => head_token(head@) == Some(t@),
            None => head_token(head@) is None,
        },
{
    match header_value(head, "x-micsync-token") {
        Some(t) => if t.as_str().is_empty() {
            None
        } else {
            Some(t)
        },
        None => None,
    }
}

/// The line that separates a head from its body.
pub open spec fn blank() -> Seq<char> {
    seq!['\r', '\n', '\r', '\n']
}

/// The status code in a head: the second word of its first line, a number.
pub open spec fn status_code(head: Seq<char>) -> Option<u16> {
    match text::next_word(text::first_line(head)) {
        Some((_, rest)) => match text::next_word(rest) {
            Some((code, _)) => text::number16(code),
            None => None,
        },
        None => None,
    }
}

/// Reads the status code out of a response head.
pub fn read_status_code(head: &[char]) -> (r: Option<u16>)
    ensures
        r == status_code(head@),
{
    let (line, _) = cut_line(head);
    match cut_word(line) {
        Some((_, rest)) => match cut_word(rest) {
            Some((code, _)) => parse_u16(code),
            None => None,
        },
        None => None,
    }
}

/// A response taken apart: its status code and body, or what is wrong with it.
pub open spec fn response_parts(resp: Seq<char>) -> Result<(u16, Seq<char>), Seq<char>> {
    match text::split_once(resp, blank()) {
        None => Err("HTTP 响应不完整"@),
        Some((head, body)) => if !text::starts_with(text::first_line(head), "HTTP/1."@) {
            Err("对方不是 MicSync 服务端(非 HTTP 响应)"@)
        } else {
            match status_code(head) {
                Some(code) => Ok((code, body)),
                None => Err("HTTP 状态行异常"@),
            }
        },
    }
}

/// Takes an HTTP response apart into its status code and its body.
pub fn split_http_response(resp: &str) -> (r: Result<(u16, &str), String>)
    ensures
        match r {
            Ok((code, body)) => response_parts(resp@) == Ok::<(u16, Seq<char>), Seq<char>>(
                (code, body@),
            ),
            Err(e) => response_parts(resp@) == Err::<(u16, Seq<char>), Seq<char>>(e@),
        },
{
    let cs = chars_of(resp);
    let sep: [char; 4] = ['\r', '\n', '\r', '\n'];
    assert(sep@ =~= blank());
    match find_from(cs.as_slice(), &sep, 0) {
        None => Err("HTTP 响应不完整".to_string()),
        Some(i) => {
            proof {
                text::lemma_first_at(resp@, blank(), 0);
            }
            let n: usize = cs.len();
            let head = slice_subrange(cs.as_slice(), 0, i);
            assert(head@ =~= resp@.take(i as int));
            let (line, _) = cut_line(head);
            let version = chars_of("HTTP/1.");
            if !matches_at(line, version.as_slice(), 0) {
                return Err("对方不是 MicSync 服务端(非 HTTP 响应)".to_string());
            }
            match read_status_code(head) {
                Some(code) => {
                    let body = resp.substring_char(i + 4, n);
                    assert(body@ =~= resp@.skip(i + 4));
                    Ok((code, body))
                },
                None => Err("HTTP 状态行异常".to_string()),
            }
        },
    }
}

/// What stands between the first blank line and the second, or the end.
pub open spec fn first_body(text: Seq<char>) -> Option<Seq<char>> {
    match text::split_once(text, blank()) {
        Some((_, rest)) => match text::split_once(rest, blank()) {
            Some((body, _)) => Some(body),
            None => Some(rest),
        },
        None => None,
    }
}

/// Reads what stands between the first blank line and the second.
pub fn read_first_body(text: &str) -> (r: Option<String>)
    ensures
        match r {
            Some(body) => first_body(text@) == Some(body@),
            None => first_body(text@) is None,
        },
{
    let cs = chars_of(text);
    let sep: [char; 4] = ['\r', '\n', '\r', '\n'];
    assert(sep@ =~= blank());
    match cut_once(cs.as_slice(), &sep) {
        Some((_, rest)) => match cut_once(rest, &sep) {
            Some((body, _)) => Some(string_of(body)),
            None => Some(string_of(rest)),
        },
        None => None,
    }
}

// ---------------------------------------------------------------------------
// Heads by their lines
// ---------------------------------------------------------------------------

/// The end of a line.
pub open spec fn crlf() -> Seq<char> {
    seq!['\r', '\n']
}

/// Lines one after another, each with its end.
pub open spec fn lines_text(lines: Seq<Seq<char>>) -> Seq<char>
    decreases lines.len(),
{
    if lines.len() == 0 {
        Seq::empty()
    } else {
        lines_text(lines.drop_last()) + lines.last() + crlf()
    }
}

/// A head: its lines, then a blank one.
pub open spec fn head_text(lines: Seq<Seq<char>>) -> Seq<char> {
    lines_text(lines) + crlf()
}

/// A header line.
pub open spec fn header_line(key: Seq<char>, value: Seq<char>) -> Seq<char> {
    key + seq![':', ' '] + value
}

/// A piece of a line: it holds no line feed.
pub open spec fn one_line(s: Seq<char>) -> bool {
    forall|i: int| 0 <= i < s.len() ==> #[trigger] s[i] != '\n'
}

/// Lines that keep their shape in a head: none is empty or holds a line feed.
pub open spec fn proper_lines(lines: Seq<Seq<char>>) -> bool {
    forall|i: int| 0 <= i < lines.len() ==> one_line(#[trigger] lines[i]) && lines[i].len() > 0
}

/// The value of the first header of a name among lines.
pub open spec fn header_among(lines: Seq<Seq<char>>, name: Seq<char>) -> Option<Seq<char>>
    decreases lines.len(),
{
    if lines.len() == 0 {
        None
    } else {
        match text::split_once(lines[0], seq![':']) {
            Some((key, value)) => if text::same_but_case(text::trim(key), name) {
                Some(text::trim(value))
            } else {
                header_among(lines.drop_first(), name)
            },
            None => header_among(lines.drop_first(), name),
        }
    }
}

proof fn lemma_line_len_at(line: Seq<char>, rest: Seq<char>)
    requires
        one_line(line),
    ensures
        text::line_len(line + crlf() + rest) == line.len() + 1,
    decreases line.len(),
{
    let s = line + crlf() + rest;
    if line.len() == 0 {
        assert(s[0] == '\r');
        let t = s.drop_first();
        assert(t[0] == '\n');
        assert(text::line_len(t) == 0);
    } else {
        let tail = line.drop_first();
        assert forall|i: int| 0 <= i < tail.len() implies #[trigger] tail[i] != '\n' by {
            assert(tail[i] == line[i + 1]);
        }
        lemma_line_len_at(tail, rest);
        assert(s[0] == line[0]);
        assert(s.drop_first() =~= tail + crlf() + rest);
    }
}

proof fn lemma_first_line_of(line: Seq<char>, rest: Seq<char>)
    requires
        one_line(line),
    ensures
        text::first_line(line + crlf() + rest) == line,
        text::after_line(line + crlf() + rest) == rest,
{
    let s = line + crlf() + rest;
    lemma_line_len_at(line, rest);
    assert(s.take(line.len() as int) =~= line);
    assert(s.skip(line.len() as int + 2) =~= rest);
}

proof fn lemma_lines_front(lines: Seq<Seq<char>>)
    requires
        lines.len() > 0,
    ensures
        lines_text(lines) == lines[0] + crlf() + lines_text(lines.drop_first()),
    decreases lines.len(),
{
    if lines.len() == 1 {
        assert(lines.drop_last() =~= Seq::<Seq<char>>::empty());
        assert(lines.drop_first() =~= Seq::<Seq<char>>::empty());
        assert(lines_text(Seq::<Seq<char>>::empty()) =~= Seq::<char>::empty());
        assert(lines_text(lines) =~= lines[0] + crlf());
        assert(lines_text(lines) =~= lines[0] + crlf() + lines_text(lines.drop_first()));
    } else {
        let t = lines.drop_last();
        lemma_lines_front(t);
        assert(lines.drop_first().drop_last() =~= t.drop_first());
        assert(lines_text(lines) =~= lines[0] + crlf() + lines_text(lines.drop_first()));
    }
}

proof fn lemma_proper_tail(lines: Seq<Seq<char>>)
    requires
        lines.len() > 0,
        proper_lines(lines),
    ensures
        one_line(lines[0]),
        lines[0].len() > 0,
        proper_lines(lines.drop_first()),
{
    let t = lines.drop_first();
    assert forall|i: int| 0 <= i < t.len() implies one_line(#[trigger] t[i]) && t[i].len() > 0 by {
        assert(t[i] == lines[i + 1]);
    }
}

/// The first line of a head is its first line.
pub proof fn lemma_head_first_line(lines: Seq<Seq<char>>, rest: Seq<char>)
    requires
        lines.len() > 0,
        proper_lines(lines),
    ensures
        text::first_line(lines_text(lines) + rest) == lines[0],
        text::after_line(lines_text(lines) + rest) == lines_text(lines.drop_first()) + rest,
{
    lemma_lines_front(lines);
    lemma_proper_tail(lines);
    lemma_first_line_of(lines[0], lines_text(lines.drop_first()) + rest);
    assert(lines_text(lines) + rest =~= lines[0] + crlf() + (lines_text(lines.drop_first())
        + rest));
}

/// Looking a header up in the text of lines is looking it up among the lines.
pub proof fn lemma_header_in_lines(lines: Seq<Seq<char>>, name: Seq<char>)
    requires
        proper_lines(lines),
    ensures
        header_in(head_text(lines), name) == header_among(lines, name),
    decreases lines.len(),
{
    if lines.len() == 0 {
        let s = head_text(lines);
        assert(s =~= Seq::<char>::empty() + crlf() + Seq::<char>::empty());
        lemma_first_line_of(Seq::<char>::empty(), Seq::<char>::empty());
        text::lemma_first_at(Seq::<char>::empty(), seq![':'], 0);
        assert(text::split_once(text::first_line(s), seq![':']) is None);
        assert(header_in(text::after_line(s), name) is None);
    } else {
        lemma_head_first_line(lines, crlf());
        lemma_proper_tail(lines);
        lemma_header_in_lines(lines.drop_first(), name);
        assert(head_text(lines).len() > 0);
    }
}

/// Where a blank line first stands in a head with a body behind it.
proof fn lemma_no_blank_inside(lines: Seq<Seq<char>>, body: Seq<char>, j: int)
    requires
        lines.len() > 0,
        proper_lines(lines),
        0 <= j < lines_text(lines).len() - 2,
    ensures
        !text::occurs_at(head_text(lines) + body, blank(), j),
    decreases lines.len(),
{
    let s = head_text(lines) + body;
    let line = lines[0];
    let more = lines.drop_first();
    lemma_lines_front(lines);
    lemma_proper_tail(lines);
    if text::occurs_at(s, blank(), j) {
        let w = s.subrange(j, j + 4);
        assert(w[1] == '\n' && w[3] == '\n');
        assert(s[j + 1] == '\n' && s[j + 3] == '\n');
        if j + 1 < line.len() {
            assert(s[j + 1] == line[j + 1]);
        } else if more.len() == 0 {
            assert(lines_text(more) =~= Seq::<char>::empty());
            assert(j + 1 == line.len());
            assert(s[j + 1] == '\r');
        } else if j + 1 == line.len() {
            assert(s[j + 1] == '\r');
        } else if j == line.len() {
            lemma_lines_front(more);
            lemma_proper_tail(more);
            assert(s[j + 3] == lines_text(more)[1]);
            if more[0].len() >= 2 {
                assert(lines_text(more)[1] == more[0][1]);
            } else {
                assert(lines_text(more)[1] == '\r');
            }
        } else if j == line.len() + 1 {
            assert(s[j] == '\n');
            assert(w[0] == '\r');
        } else {
            let k = j - line.len() - 2;
            assert(s =~= line + crlf() + (head_text(more) + body));
            let t = head_text(more) + body;
            assert(t.subrange(k, k + 4) =~= w);
            assert(text::occurs_at(t, blank(), k));
            lemma_no_blank_inside(more, body, k);
        }
    }
}

/// A head and its body come apart where they were put together.
pub proof fn lemma_split_head(lines: Seq<Seq<char>>, body: Seq<char>)
    requires
        lines.len() > 0,
        proper_lines(lines),
    ensures
        ({
            let n = lines_text(lines).len();
            text::split_once(head_text(lines) + body, blank()) == Some(
                (lines_text(lines).take(n - 2), body),
            )
        }),
{
    let s = head_text(lines) + body;
    let n = lines_text(lines).len() as int;
    lemma_lines_front(lines);
    assert(n >= 2);
    let last = lines_text(lines.drop_last()) + lines.last();
    assert(lines_text(lines) == last + crlf());
    assert(s.subrange(n - 2, n + 2) =~= blank());
    assert(text::occurs_at(s, blank(), n - 2));
    text::lemma_first_at(s, blank(), 0);
    match text::first_at(s, blank(), 0) {
        Some(i) => {
            if i < n - 2 {
                lemma_no_blank_inside(lines, body, i);
            }
            assert(i == n - 2);
            assert(s.take(i) =~= lines_text(lines).take(n - 2));
            assert(s.skip(i + 4) =~= body);
        },
        None => {},
    }
}

proof fn lemma_line_len_whole(s: Seq<char>)
    requires
        one_line(s),
    ensures
        text::line_len(s) == s.len(),
    decreases s.len(),
{
    if s.len() > 0 {
        let t = s.drop_first();
        assert forall|i: int| 0 <= i < t.len() implies #[trigger] t[i] != '\n' by {
            assert(t[i] == s[i + 1]);
        }
        lemma_line_len_whole(t);
    }
}

/// The first line is still the first line when the end of the last one is cut off.
proof fn lemma_head_cut_first_line(lines: Seq<Seq<char>>)
    requires
        lines.len() > 0,
        proper_lines(lines),
    ensures
        text::first_line(lines_text(lines).take(lines_text(lines).len() - 2)) == lines[0],
{
    let all = lines_text(lines);
    let n = all.len() as int;
    lemma_lines_front(lines);
    lemma_proper_tail(lines);
    let more = lines.drop_first();
    if more.len() == 0 {
        assert(lines_text(more) =~= Seq::<char>::empty());
        assert(all.take(n - 2) =~= lines[0]);
        lemma_line_len_whole(lines[0]);
    } else {
        lemma_lines_front(more);
        let rest = lines_text(more).take(lines_text(more).len() - 2);
        assert(all.take(n - 2) =~= lines[0] + crlf() + rest);
        lemma_first_line_of(lines[0], rest);
    }
}

/// A header line comes apart into its key and its value.
pub proof fn lemma_header_line(key: Seq<char>, value: Seq<char>)
    requires
        forall|i: int| 0 <= i < key.len() ==> #[trigger] key[i] != ':',
    ensures
        text::split_once(header_line(key, value), seq![':']) == Some((key, seq![' '] + value)),
{
    text::lemma_split_at(key, ':', seq![' '] + value);
    assert(header_line(key, value) =~= key + seq![':'] + (seq![' '] + value));
}

/// A text without white space at its ends.
pub open spec fn trimmed_text(s: Seq<char>) -> bool {
    s.len() > 0 ==> !text::whitespace(s[0]) && !text::whitespace(s.last())
}

/// The blank in front of a header's value is trimmed away, and nothing else.
pub proof fn lemma_trim_value(value: Seq<char>)
    requires
        trimmed_text(value),
    ensures
        text::trim(seq![' '] + value) == value,
{
    let s = seq![' '] + value;
    assert(s.drop_first() =~= value);
    assert(text::leading_white(value) == 0);
    assert(text::leading_white(s) == 1);
    assert(text::trim_start(s) =~= value);
    text::lemma_trim_identity(value);
    assert(text::trim_start(value) =~= value);
}

/// A header is found in a head whose last line end is cut off, too.
pub proof fn lemma_header_in_cut(lines: Seq<Seq<char>>, name: Seq<char>)
    requires
        lines.len() > 0,
        proper_lines(lines),
    ensures
        header_in(lines_text(lines).take(lines_text(lines).len() - 2), name) == header_among(
            lines,
            name,
        ),
    decreases lines.len(),
{
    let all = lines_text(lines);
    let n = all.len() as int;
    let cut = all.take(n - 2);
    let more = lines.drop_first();
    lemma_lines_front(lines);
    lemma_proper_tail(lines);
    if more.len() == 0 {
        assert(lines_text(more) =~= Seq::<char>::empty());
        assert(cut =~= lines[0]);
        lemma_line_len_whole(lines[0]);
        assert(header_in(text::after_line(cut), name) is None);
        assert(header_among(more, name) is None);
    } else {
        lemma_lines_front(more);
        let rest = lines_text(more).take(lines_text(more).len() - 2);
        assert(cut =~= lines[0] + crlf() + rest);
        lemma_first_line_of(lines[0], rest);
        lemma_header_in_cut(more, name);
    }
}

// ---------------------------------------------------------------------------
// Writing requests and responses
// ---------------------------------------------------------------------------

/// The header line of a token; none for an empty one.
pub open spec fn token_lines(token: Seq<char>) -> Seq<Seq<char>> {
    if token.len() == 0 {
        Seq::empty()
    } else {
        seq![header_line("X-MicSync-Token"@, token)]
    }
}

/// The lines of a request for the microphone: the device's name says who asks,
/// the token that the server once issued says that the owner agreed.
pub open spec fn request_lines(
    path: Seq<char>,
    host: Seq<char>,
    name: Seq<char>,
    token: Seq<char>,
) -> Seq<Seq<char>> {
    seq![
        "GET "@ + path + " HTTP/1.1"@,
        header_line("Host"@, host),
        header_line("X-MicSync-Name"@, name),
    ] + token_lines(token) + seq![header_line("Connection"@, "close"@)]
}

/// The lines of a request that needs no consent.
pub open spec fn plain_request_lines(path: Seq<char>, host: Seq<char>) -> Seq<Seq<char>> {
    seq![
        "GET "@ + path + " HTTP/1.1"@,
        header_line("Host"@, host),
        header_line("Connection"@, "close"@),
    ]
}

/// The lines of a response with a JSON body.
pub open spec fn json_response_lines(
    code: u16,
    reason: Seq<char>,
    body: Seq<char>,
    token: Seq<char>,
) -> Seq<Seq<char>> {
    seq![
        "HTTP/1.1 "@ + text::decimal(code as nat) + seq![' '] + reason,
        header_line("Content-Type"@, "application/json"@),
        header_line(
            "Content-Length"@,
            text::decimal(vstd::utf8::encode_utf8(body).len()),
        ),
    ] + token_lines(token) + seq![header_line("Connection"@, "close"@)]
}

/// The lines of the response that opens a stream.
pub open spec fn stream_response_lines(token: Seq<char>) -> Seq<Seq<char>> {
    seq![
        "HTTP/1.1 200 OK"@,
        header_line("Content-Type"@, "application/octet-stream"@),
        header_line("Cache-Control"@, "no-store"@),
    ] + token_lines(token) + seq![header_line("Connection"@, "close"@)]
}

/// Appends a line and its end.
fn push_line(out: &mut String, line: &str, Ghost(lines): Ghost<Seq<Seq<char>>>)
    requires
        old(out)@ == lines_text(lines),
    ensures
        final(out)@ == lines_text(lines.push(line@)),
{
    out.append(line);
    out.push('\r');
    out.push('\n');
    assert(lines.push(line@).drop_last() =~= lines);
    assert(out@ =~= lines_text(lines) + line@ + crlf());
}

/// Appends a header line and its end.
fn push_header(out: &mut String, key: &str, value: &str, Ghost(lines): Ghost<Seq<Seq<char>>>)
    requires
        old(out)@ == lines_text(lines),
    ensures
        final(out)@ == lines_text(lines.push(header_line(key@, value@))),
{
    out.append(key);
    out.push(':');
    out.push(' ');
    out.append(value);
    out.push('\r');
    out.push('\n');
    assert(lines.push(header_line(key@, value@)).drop_last() =~= lines);
    assert(out@ =~= lines_text(lines) + header_line(key@, value@) + crlf());
}

/// Appends the token line, if there is a token, the line that closes the
/// connection, and the blank line.
fn close_head(out: &mut String, token: &str, Ghost(lines): Ghost<Seq<Seq<char>>>)
    requires
        old(out)@ == lines_text(lines),
    ensures
        final(out)@ == head_text(
            lines + token_lines(token@) + seq![header_line("Connection"@, "close"@)],
        ),
{
    let ghost mut sofar = lines;
    if !token.is_empty() {
        push_header(out, "X-MicSync-Token", token, Ghost(lines));
        proof {
            sofar = lines.push(header_line("X-MicSync-Token"@, token@));
        }
    }
    assert(sofar =~= lines + token_lines(token@));
    push_header(out, "Connection", "close", Ghost(sofar));
    out.push('\r');
    out.push('\n');
    proof {
        let all = sofar.push(header_line("Connection"@, "close"@));
        assert(all =~= lines + token_lines(token@) + seq![header_line("Connection"@, "close"@)]);
        assert(out@ =~= lines_text(all) + crlf());
    }
}

/// Writes a request for the microphone.
pub fn consent_request(path: &str, host: &str, name: &str, token: &str) -> (r: String)
    ensures
        r@ == head_text(request_lines(path@, host@, name@, token@)),
{
    let mut out = String::new();
    let ghost none = Seq::<Seq<char>>::empty();
    let first = "GET ".to_string().concat(path).concat(" HTTP/1.1");
    push_line(&mut out, first.as_str(), Ghost(none));
    let ghost l1 = none.push(first@);
    push_header(&mut out, "Host", host, Ghost(l1));
    let ghost l2 = l1.push(header_line("Host"@, host@));
    push_header(&mut out, "X-MicSync-Name", name, Ghost(l2));
    let ghost l3 = l2.push(header_line("X-MicSync-Name"@, name@));
    close_head(&mut out, token, Ghost(l3));
    assert(l3 =~= seq![
        "GET "@ + path@ + " HTTP/1.1"@,
        header_line("Host"@, host@),
        header_line("X-MicSync-Name"@, name@),
    ]);
    out
}

/// Writes a request that needs no consent.
pub fn plain_request(path: &str, host: &str) -> (r: String)
    ensures
        r@ == head_text(plain_request_lines(path@, host@)),
{
    let mut out = String::new();
    let ghost none = Seq::<Seq<char>>::empty();
    let first = "GET ".to_string().concat(path).concat(" HTTP/1.1");
    push_line(&mut out, first.as_str(), Ghost(none));
    let ghost l1 = none.push(first@);
    push_header(&mut out, "Host", host, Ghost(l1));
    let ghost l2 = l1.push(header_line("Host"@, host@));
    close_head(&mut out, "", Ghost(l2));
    proof {
        reveal_strlit("");
        assert(l2 + token_lines(""@) + seq![header_line("Connection"@, "close"@)]
            =~= plain_request_lines(path@, host@));
    }
    out
}

/// Writes a response with a JSON body.
pub fn json_response(code: u16, reason: &str, body: &str, token: &str) -> (r: String)
    ensures
        r@ == head_text(json_response_lines(code, reason@, body@, token@)) + body@,
{
    let mut out = String::new();
    let ghost none = Seq::<Seq<char>>::empty();
    let mut first = "HTTP/1.1 ".to_string().concat(decimal_text(code as u64).as_str());
    first.push(' ');
    first.append(reason);
    let ghost first_line = "HTTP/1.1 "@ + text::decimal(code as nat) + seq![' '] + reason@;
    assert(first@ =~= first_line);
    push_line(&mut out, first.as_str(), Ghost(none));
    let ghost l1 = none.push(first@);
    push_header(&mut out, "Content-Type", "application/json", Ghost(l1));
    let ghost l2 = l1.push(header_line("Content-Type"@, "application/json"@));
    let length = decimal_text(body.as_bytes().len() as u64);
    push_header(&mut out, "Content-Length", length.as_str(), Ghost(l2));
    let ghost l3 = l2.push(header_line("Content-Length"@, length@));
    close_head(&mut out, token, Ghost(l3));
    assert(l3 =~= seq![
        first_line,
        header_line("Content-Type"@, "application/json"@),
        header_line(
            "Content-Length"@,
            text::decimal(vstd::utf8::encode_utf8(body@).len()),
        ),
    ]);
    out.append(body);
    out
}

/// Writes the head of the response that opens a stream.
pub fn stream_response(token: &str) -> (r: String)
    ensures
        r@ == head_text(stream_response_lines(token@)),
{
    let mut out = String::new();
    let ghost none = Seq::<Seq<char>>::empty();
    push_line(&mut out, "HTTP/1.1 200 OK", Ghost(none));
    let ghost l1 = none.push("HTTP/1.1 200 OK"@);
    push_header(&mut out, "Content-Type", "application/octet-stream", Ghost(l1));
    let ghost l2 = l1.push(header_line("Content-Type"@, "application/octet-stream"@));
    push_header(&mut out, "Cache-Control", "no-store", Ghost(l2));
    let ghost l3 = l2.push(header_line("Cache-Control"@, "no-store"@));
    close_head(&mut out, token, Ghost(l3));
    assert(l3 =~= seq![
        "HTTP/1.1 200 OK"@,
        header_line("Content-Type"@, "application/octet-stream"@),
        header_line("Cache-Control"@, "no-store"@),
    ]);
    out
}

// ---------------------------------------------------------------------------
// What is written is what is read
// ---------------------------------------------------------------------------

/// A key that can stand in front of a header's value.
pub open spec fn proper_key(key: Seq<char>) -> bool {
    &&& key.len() > 0
    &&& trimmed_text(key)
    &&& forall|i: int| 0 <= i < key.len() ==> #[trigger] key[i] != ':' && key[i] != '\n'
}

proof fn lemma_header_among_first(
    key: Seq<char>,
    value: Seq<char>,
    more: Seq<Seq<char>>,
    name: Seq<char>,
)
    requires
        proper_key(key),
    ensures
        trimmed_text(value) && text::same_but_case(key, name) ==> header_among(
            seq![header_line(key, value)] + more,
            name,
        ) == Some(value),
        !text::same_but_case(key, name) ==> header_among(
            seq![header_line(key, value)] + more,
            name,
        ) == header_among(more, name),
{
    let lines = seq![header_line(key, value)] + more;
    assert(lines[0] == header_line(key, value));
    assert(lines.drop_first() =~= more);
    lemma_header_line(key, value);
    text::lemma_trim_identity(key);
    if trimmed_text(value) {
        lemma_trim_value(value);
    }
}

proof fn lemma_keys()
    ensures
        proper_key("Host"@),
        proper_key("X-MicSync-Name"@),
        proper_key("X-MicSync-Token"@),
        proper_key("Connection"@),
        proper_key("Content-Type"@),
        proper_key("Content-Length"@),
        proper_key("Cache-Control"@),
        text::same_but_case("X-MicSync-Name"@, "x-micsync-name"@),
        text::same_but_case("X-MicSync-Token"@, "x-micsync-token"@),
        !text::same_but_case("Host"@, "x-micsync-name"@),
        !text::same_but_case("Host"@, "x-micsync-token"@),
        !text::same_but_case("X-MicSync-Name"@, "x-micsync-token"@),
        !text::same_but_case("Connection"@, "x-micsync-token"@),
        !text::same_but_case("Content-Type"@, "x-micsync-token"@),
        !text::same_but_case("Content-Length"@, "x-micsync-token"@),
        !text::same_but_case("Cache-Control"@, "x-micsync-token"@),
        one_line("close"@),
        one_line("application/json"@),
        one_line("application/octet-stream"@),
        one_line("no-store"@),
{
    reveal_strlit("Host");
    reveal_strlit("X-MicSync-Name");
    reveal_strlit("x-micsync-name");
    reveal_strlit("X-MicSync-Token");
    reveal_strlit("x-micsync-token");
    reveal_strlit("Connection");
    reveal_strlit("Content-Type");
    reveal_strlit("Content-Length");
    reveal_strlit("Cache-Control");
    reveal_strlit("close");
    reveal_strlit("application/json");
    reveal_strlit("application/octet-stream");
    reveal_strlit("no-store");
}

proof fn lemma_one_line_concat(a: Seq<char>, b: Seq<char>)
    requires
        one_line(a),
        one_line(b),
    ensures
        one_line(a + b),
{
    let s = a + b;
    assert forall|i: int| 0 <= i < s.len() implies #[trigger] s[i] != '\n' by {
        if i < a.len() {
            assert(s[i] == a[i]);
        } else {
            assert(s[i] == b[i - a.len()]);
        }
    }
}

proof fn lemma_header_line_proper(key: Seq<char>, value: Seq<char>)
    requires
        proper_key(key),
        one_line(value),
    ensures
        one_line(header_line(key, value)),
        header_line(key, value).len() > 0,
{
    lemma_one_line_concat(key, seq![':', ' ']);
    lemma_one_line_concat(key + seq![':', ' '], value);
}

proof fn lemma_proper_concat(a: Seq<Seq<char>>, b: Seq<Seq<char>>)
    requires
        proper_lines(a),
        proper_lines(b),
    ensures
        proper_lines(a + b),
{
    let s = a + b;
    assert forall|i: int| 0 <= i < s.len() implies one_line(#[trigger] s[i]) && s[i].len() > 0 by {
        if i < a.len() {
            assert(s[i] == a[i]);
        } else {
            assert(s[i] == b[i - a.len()]);
        }
    }
}

/// The value of the token header behind the other lines of a head.
proof fn lemma_token_at_end(token: Seq<char>)
    requires
        one_line(token),
        trimmed_text(token),
    ensures
        ({
            let lines = token_lines(token) + seq![header_line("Connection"@, "close"@)];
            &&& proper_lines(lines)
            &&& header_among(lines, "x-micsync-token"@) == (if token.len() == 0 {
                None
            } else {
                Some(token)
            })
        }),
{
    lemma_keys();
    let last = seq![header_line("Connection"@, "close"@)];
    let none = Seq::<Seq<char>>::empty();
    lemma_header_line_proper("Connection"@, "close"@);
    lemma_header_line_proper("X-MicSync-Token"@, token);
    lemma_header_among_first("Connection"@, "close"@, none, "x-micsync-token"@);
    assert(last + none =~= last);
    assert(header_among(none, "x-micsync-token"@) is None);
    if token.len() == 0 {
        assert(token_lines(token) + last =~= last);
    } else {
        lemma_header_among_first("X-MicSync-Token"@, token, last, "x-micsync-token"@);
    }
}

/// A server reads from a request what the client wrote into it: the path, the
/// device's name, and the token if there was one. Each line stays one line.
pub proof fn law_request_reads_back(
    path: Seq<char>,
    host: Seq<char>,
    name: Seq<char>,
    token: Seq<char>,
)
    requires
        text::is_word(path),
        !path.contains('?'),
        one_line(host),
        one_line(name),
        trimmed_text(name),
        one_line(token),
        trimmed_text(token),
    ensures
        ({
            let head = head_text(request_lines(path, host, name, token));
            &&& proper_lines(request_lines(path, host, name, token))
            &&& request_path(head) == Some(path)
            &&& header(head, "x-micsync-name"@) == Some(name)
            &&& header(head, "x-micsync-token"@) == (if token.len() == 0 {
                None
            } else {
                Some(token)
            })
        }),
{
    let first = "GET "@ + path + " HTTP/1.1"@;
    let tail = token_lines(token) + seq![header_line("Connection"@, "close"@)];
    let named = seq![header_line("X-MicSync-Name"@, name)] + tail;
    let hosted = seq![header_line("Host"@, host)] + named;
    let lines = request_lines(path, host, name, token);
    assert(lines =~= seq![first] + hosted);
    lemma_keys();
    lemma_token_at_end(token);
    lemma_header_line_proper("Host"@, host);
    lemma_header_line_proper("X-MicSync-Name"@, name);
    lemma_proper_concat(seq![header_line("X-MicSync-Name"@, name)], tail);
    lemma_proper_concat(seq![header_line("Host"@, host)], named);
    // The request line.
    assert(one_line(first) && first.len() > 0) by {
        reveal_strlit("GET ");
        reveal_strlit(" HTTP/1.1");
        assert forall|i: int| 0 <= i < path.len() implies #[trigger] path[i] != '\n' by {
            assert(!text::whitespace(path[i]));
        }
        lemma_one_line_concat("GET "@, path);
        lemma_one_line_concat("GET "@ + path, " HTTP/1.1"@);
    }
    lemma_proper_concat(seq![first], hosted);
    lemma_head_first_line(lines, crlf());
    assert(lines.drop_first() =~= hosted);
    let head = head_text(lines);
    assert(text::first_line(head) == first);
    assert(text::after_line(head) == head_text(hosted));
    assert(request_path(head) == Some(path)) by {
        reveal_strlit("GET ");
        reveal_strlit("GET");
        reveal_strlit(" HTTP/1.1");
        let rest = seq![' '] + path + " HTTP/1.1"@;
        assert(first =~= "GET"@ + rest);
        text::lemma_next_word("GET"@, rest);
        text::lemma_next_word(path, " HTTP/1.1"@);
        text::lemma_first_at(path, seq!['?'], 0);
        if let Some(i) = text::first_at(path, seq!['?'], 0) {
            assert(path.subrange(i, i + 1)[0] == '?');
            assert(path[i] == '?');
        }
        lemma_lines_front(lines);
        assert(head.len() > 0);
    }
    // The headers.
    lemma_header_in_lines(hosted, "x-micsync-name"@);
    lemma_header_in_lines(hosted, "x-micsync-token"@);
    lemma_header_among_first("Host"@, host, named, "x-micsync-name"@);
    lemma_header_among_first("Host"@, host, named, "x-micsync-token"@);
    lemma_header_among_first("X-MicSync-Name"@, name, tail, "x-micsync-name"@);
    lemma_header_among_first("X-MicSync-Name"@, name, tail, "x-micsync-token"@);
}

/// A client reads from a response what the server wrote into it: the status
/// code, the body, and the token if one was issued. The head alone gives the
/// status code too, and each of its lines stays one line.
pub proof fn law_response_reads_back(
    code: u16,
    reason: Seq<char>,
    body: Seq<char>,
    token: Seq<char>,
)
    requires
        one_line(reason),
        one_line(token),
        trimmed_text(token),
    ensures
        ({
            let lines = json_response_lines(code, reason, body, token);
            let resp = head_text(lines) + body;
            &&& response_parts(resp) == Ok::<(u16, Seq<char>), Seq<char>>((code, body))
            &&& text::split_once(resp, blank()) matches Some((head, rest)) && rest == body
                && head_token(head) == (if token.len() == 0 {
                None
            } else {
                Some(token)
            })
            &&& status_code(head_text(lines)) == Some(code)
            &&& proper_lines(lines)
        }),
{
    let first = "HTTP/1.1 "@ + text::decimal(code as nat) + seq![' '] + reason;
    let length = text::decimal(vstd::utf8::encode_utf8(body).len());
    let tail = token_lines(token) + seq![header_line("Connection"@, "close"@)];
    let sized = seq![header_line("Content-Length"@, length)] + tail;
    let typed = seq![header_line("Content-Type"@, "application/json"@)] + sized;
    let lines = json_response_lines(code, reason, body, token);
    assert(lines =~= seq![first] + typed);
    lemma_keys();
    lemma_token_at_end(token);
    text::lemma_decimal_reads_back(vstd::utf8::encode_utf8(body).len());
    assert(one_line(length)) by {
        assert forall|i: int| 0 <= i < length.len() implies #[trigger] length[i] != '\n' by {
            assert(text::digit(length[i]));
        }
    }
    lemma_header_line_proper("Content-Length"@, length);
    lemma_header_line_proper("Content-Type"@, "application/json"@);
    lemma_proper_concat(seq![header_line("Content-Length"@, length)], tail);
    lemma_proper_concat(seq![header_line("Content-Type"@, "application/json"@)], sized);
    text::lemma_number16_reads_back(code);
    let digits = text::decimal(code as nat);
    assert(one_line(first) && first.len() > 0) by {
        reveal_strlit("HTTP/1.1 ");
        assert forall|i: int| 0 <= i < digits.len() implies #[trigger] digits[i] != '\n' by {
            assert(!text::whitespace(digits[i]));
        }
        lemma_one_line_concat("HTTP/1.1 "@, digits);
        lemma_one_line_concat("HTTP/1.1 "@ + digits, seq![' ']);
        lemma_one_line_concat("HTTP/1.1 "@ + digits + seq![' '], reason);
    }
    lemma_proper_concat(seq![first], typed);
    lemma_split_head(lines, body);
    lemma_head_cut_first_line(lines);
    let head = lines_text(lines).take(lines_text(lines).len() - 2);
    assert(text::first_line(head) == first);
    assert(text::starts_with(first, "HTTP/1."@)) by {
        reveal_strlit("HTTP/1.");
        reveal_strlit("HTTP/1.1 ");
        assert(first.subrange(0, 7) =~= "HTTP/1."@);
    }
    assert(status_code(head) == Some(code)) by {
        reveal_strlit("HTTP/1.1 ");
        reveal_strlit("HTTP/1.1");
        let end = seq![' '] + reason;
        let rest = seq![' '] + digits + end;
        assert(first =~= "HTTP/1.1"@ + rest);
        text::lemma_next_word("HTTP/1.1"@, rest);
        text::lemma_next_word(digits, end);
    }
    lemma_head_first_line(lines, crlf());
    assert(text::first_line(head_text(lines)) == first);
    // The token stands behind the first line.
    lemma_cut_after_line(lines);
    assert(lines.drop_first() =~= typed);
    lemma_header_in_cut(typed, "x-micsync-token"@);
    lemma_header_among_first("Content-Type"@, "application/json"@, sized, "x-micsync-token"@);
    lemma_header_among_first("Content-Length"@, length, tail, "x-micsync-token"@);
}

/// What stands behind the first line of a head whose last line end is cut off.
proof fn lemma_cut_after_line(lines: Seq<Seq<char>>)
    requires
        lines.len() > 1,
        proper_lines(lines),
    ensures
        ({
            let more = lines_text(lines.drop_first());
            text::after_line(lines_text(lines).take(lines_text(lines).len() - 2)) == more.take(
                more.len() - 2,
            )
        }),
{
    let all = lines_text(lines);
    let more = lines.drop_first();
    lemma_lines_front(lines);
    lemma_proper_tail(lines);
    lemma_lines_front(more);
    let rest = lines_text(more).take(lines_text(more).len() - 2);
    assert(all.take(all.len() - 2) =~= lines[0] + crlf() + rest);
    lemma_first_line_of(lines[0], rest);
}

/// A client reads from the head that opens a stream that it is open, and the
/// token if one was issued. Each line stays one line.
pub proof fn law_stream_response_reads_back(token: Seq<char>)
    requires
        one_line(token),
        trimmed_text(token),
    ensures
        ({
            let head = head_text(stream_response_lines(token));
            &&& proper_lines(stream_response_lines(token))
            &&& status_code(head) == Some(200u16)
            &&& head_token(head) == (if token.len() == 0 {
                None
            } else {
                Some(token)
            })
        }),
{
    let first = "HTTP/1.1 200 OK"@;
    let tail = token_lines(token) + seq![header_line("Connection"@, "close"@)];
    let cached = seq![header_line("Cache-Control"@, "no-store"@)] + tail;
    let typed = seq![header_line("Content-Type"@, "application/octet-stream"@)] + cached;
    let lines = stream_response_lines(token);
    assert(lines =~= seq![first] + typed);
    lemma_keys();
    lemma_token_at_end(token);
    lemma_header_line_proper("Cache-Control"@, "no-store"@);
    lemma_header_line_proper("Content-Type"@, "application/octet-stream"@);
    lemma_proper_concat(seq![header_line("Cache-Control"@, "no-store"@)], tail);
    lemma_proper_concat(seq![header_line("Content-Type"@, "application/octet-stream"@)], cached);
    reveal_strlit("HTTP/1.1 200 OK");
    assert(one_line(first));
    lemma_proper_concat(seq![first], typed);
    lemma_head_first_line(lines, crlf());
    assert(lines.drop_first() =~= typed);
    assert(status_code(head_text(lines)) == Some(200u16)) by {
        reveal_strlit("HTTP/1.1");
        reveal_strlit("200");
        reveal_strlit(" OK");
        let rest = seq![' '] + "200"@ + " OK"@;
        assert(first =~= "HTTP/1.1"@ + rest);
        text::lemma_next_word("HTTP/1.1"@, rest);
        text::lemma_next_word("200"@, " OK"@);
        reveal_with_fuel(text::digits_value, 4);
    }
    lemma_header_in_lines(typed, "x-micsync-token"@);
    lemma_header_among_first(
        "Content-Type"@,
        "application/octet-stream"@,
        cached,
        "x-micsync-token"@,
    );
    lemma_header_among_first("Cache-Control"@, "no-store"@, tail, "x-micsync-token"@);
}

// ---------------------------------------------------------------------------
// Where a head ends among bytes
// ---------------------------------------------------------------------------

/// A character below 128 is one byte, itself; any other is bytes from 128 on.
proof fn lemma_scalar_bytes(c: char)
    ensures
        vstd::utf8::encode_scalar(c as u32).len() >= 1,
        (c as u32) < 128 ==> vstd::utf8::encode_scalar(c as u32) == seq![c as u8] && (c as u8) as char
            == c,
        (c as u32) >= 128 ==> forall|i: int|
            0 <= i < vstd::utf8::encode_scalar(c as u32).len() ==> #[trigger]
                vstd::utf8::encode_scalar(c as u32)[i] >= 128,
{
    let v = c as u32;
    if v < 128 {
        assert((v & 0x7F) == v) by (bit_vector)
            requires
                v < 128,
        ;
    } else {
        assert((0xC0u8 | ((v >> 6) & 0x1F) as u8) >= 128u8) by (bit_vector);
        assert((0xE0u8 | ((v >> 12) & 0x0F) as u8) >= 128u8) by (bit_vector);
        assert((0xF0u8 | ((v >> 18) & 0x7) as u8) >= 128u8) by (bit_vector);
        assert((0x80u8 | (v & 0x3F) as u8) >= 128u8) by (bit_vector);
        assert((0x80u8 | ((v >> 6) & 0x3F) as u8) >= 128u8) by (bit_vector);
        assert((0x80u8 | ((v >> 12) & 0x3F) as u8) >= 128u8) by (bit_vector);
    }
}

/// A first byte below 128 is the first character.
proof fn lemma_first_byte(s: Seq<char>)
    requires
        vstd::utf8::encode_utf8(s).len() > 0,
        vstd::utf8::encode_utf8(s)[0] < 128,
    ensures
        s.len() > 0,
        s[0] == vstd::utf8::encode_utf8(s)[0] as char,
        vstd::utf8::encode_utf8(s.drop_first()) == vstd::utf8::encode_utf8(s).drop_first(),
{
    let b = vstd::utf8::encode_utf8(s);
    let first = vstd::utf8::encode_scalar(s[0] as u32);
    lemma_scalar_bytes(s[0]);
    assert(b[0] == first[0]);
    assert(first =~= seq![b[0]]);
    assert(b.drop_first() =~= vstd::utf8::encode_utf8(s.drop_first()));
}

/// A blank line among the bytes of a text is one in the text.
proof fn lemma_blank_among_bytes(s: Seq<char>, k: int) -> (i: int)
    requires
        0 <= k,
        k + 4 <= vstd::utf8::encode_utf8(s).len(),
        vstd::utf8::encode_utf8(s).subrange(k, k + 4) == blank_line(),
    ensures
        text::occurs_at(s, blank(), i),
        vstd::utf8::encode_utf8(s.take(i)).len() == k,
    decreases s.len(),
{
    let b = vstd::utf8::encode_utf8(s);
    let w = b.subrange(k, k + 4);
    let first = vstd::utf8::encode_scalar(s[0] as u32);
    let more = s.drop_first();
    let rest = vstd::utf8::encode_utf8(more);
    assert(w[0] == b[k] && w[1] == b[k + 1] && w[2] == b[k + 2] && w[3] == b[k + 3]);
    lemma_scalar_bytes(s[0]);
    if k == 0 {
        lemma_first_byte(s);
        let s1 = more;
        lemma_first_byte(s1);
        let s2 = s1.drop_first();
        lemma_first_byte(s2);
        let s3 = s2.drop_first();
        lemma_first_byte(s3);
        assert(s1[0] == s[1] && s2[0] == s[2] && s3[0] == s[3]);
        assert(s.subrange(0, 4) =~= blank());
        assert(s.take(0).len() == 0);
        0
    } else if k < first.len() {
        assert(b[k] == first[k]);
        assert(false);
        0
    } else {
        let n = first.len() as int;
        assert(rest.subrange(k - n, k - n + 4) =~= w);
        let j = lemma_blank_among_bytes(more, k - n);
        assert(s.subrange(j + 1, j + 5) =~= more.subrange(j, j + 4));
        assert(s.take(j + 1).drop_first() =~= more.take(j));
        assert(s.take(j + 1)[0] == s[0]);
        j + 1
    }
}

proof fn lemma_bytes_concat(a: Seq<char>, b: Seq<char>)
    ensures
        vstd::utf8::encode_utf8(a + b) == vstd::utf8::encode_utf8(a) + vstd::utf8::encode_utf8(b),
    decreases a.len(),
{
    if a.len() == 0 {
        assert(a + b =~= b);
        assert(vstd::utf8::encode_utf8(a) + vstd::utf8::encode_utf8(b)
            =~= vstd::utf8::encode_utf8(b));
    } else {
        lemma_bytes_concat(a.drop_first(), b);
        assert((a + b).drop_first() =~= a.drop_first() + b);
        assert((a + b)[0] == a[0]);
        assert(vstd::utf8::encode_utf8(a + b) =~= vstd::utf8::encode_utf8(a)
            + vstd::utf8::encode_utf8(b));
    }
}

proof fn lemma_blank_bytes()
    ensures
        vstd::utf8::encode_utf8(blank()) == blank_line(),
{
    let s = blank();
    let s1 = s.drop_first();
    let s2 = s1.drop_first();
    let s3 = s2.drop_first();
    let s4 = s3.drop_first();
    lemma_scalar_bytes('\r');
    lemma_scalar_bytes('\n');
    assert(s1[0] == '\n' && s2[0] == '\r' && s3[0] == '\n' && s4.len() == 0);
    assert(vstd::utf8::encode_utf8(s4) =~= Seq::<u8>::empty());
    assert(vstd::utf8::encode_utf8(s3) =~= seq![10u8]);
    assert(vstd::utf8::encode_utf8(s2) =~= seq![13u8, 10u8]);
    assert(vstd::utf8::encode_utf8(s1) =~= seq![10u8, 13u8, 10u8]);
    assert(vstd::utf8::encode_utf8(s) =~= blank_line());
}

/// A head that is read byte by byte ends where it was written to end, whatever
/// stands behind it: the byte behind the head is the first one of the body. What
/// was read is the text that was written.
pub proof fn law_head_ends_where_written(lines: Seq<Seq<char>>, body: Seq<u8>)
    requires
        lines.len() > 0,
        proper_lines(lines),
    ensures
        ({
            let head = vstd::utf8::encode_utf8(head_text(lines));
            let sent = head + body;
            &&& ends_head(sent.take(head.len() as int))
            &&& sent.skip(head.len() as int) == body
            &&& forall|k: int| 0 <= k < head.len() ==> !ends_head(#[trigger] sent.take(k))
            &&& vstd::utf8::valid_utf8(head)
            &&& vstd::utf8::decode_utf8(head) == head_text(lines)
        }),
{
    let s = head_text(lines);
    let head = vstd::utf8::encode_utf8(s);
    let sent = head + body;
    let none = Seq::<char>::empty();
    let n = s.len() as int;
    vstd::utf8::encode_utf8_valid_utf8(s);
    vstd::utf8::encode_utf8_decode_utf8(s);
    lemma_lines_front(lines);
    // The blank line at the end.
    let front = lines_text(lines.drop_last()) + lines.last();
    assert(s =~= front + blank());
    lemma_bytes_concat(front, blank());
    lemma_blank_bytes();
    assert(sent.take(head.len() as int) =~= head);
    assert(sent.skip(head.len() as int) =~= body);
    assert(head.skip(head.len() - 4) =~= blank_line());
    // No blank line before it.
    assert(front =~= s.take(n - 4));
    assert forall|k: int| 0 <= k < head.len() implies !ends_head(#[trigger] sent.take(k)) by {
        if ends_head(sent.take(k)) {
            assert(head.subrange(k - 4, k) =~= sent.take(k).skip(k - 4));
            let i = lemma_blank_among_bytes(s, k - 4);
            assert(s + none =~= s);
            if i < lines_text(lines).len() - 2 {
                lemma_no_blank_inside(lines, none, i);
            }
            assert(i == n - 4);
            assert(vstd::utf8::encode_utf8(s.take(i)).len() == head.len() - 4);
        }
    }
}

// ---------------------------------------------------------------------------
// What reading a head gives
// ---------------------------------------------------------------------------

/// A request is read by the first line: the word GET, then the target up to its
/// query. Any other method, and a head without a target, is no request.
pub proof fn law_request_line_is_read(
    method: Seq<char>,
    path: Seq<char>,
    query: Seq<char>,
    end: Seq<char>,
    rest: Seq<char>,
)
    requires
        text::is_word(method),
        text::is_word(path),
        !path.contains('?'),
        one_line(end),
        end.len() > 0 ==> text::whitespace(end[0]),
        forall|i: int| 0 <= i < query.len() ==> !text::whitespace(#[trigger] query[i]),
    ensures
        ({
            let plain = method + seq![' '] + path + end + crlf() + rest;
            let asked = method + seq![' '] + path + seq!['?'] + query + end + crlf() + rest;
            &&& method == "GET"@ ==> request_path(plain) == Some(path)
            &&& method == "GET"@ ==> request_path(asked) == Some(path)
            &&& method != "GET"@ ==> request_path(plain) is None && request_path(asked) is None
            &&& request_path(method + crlf() + rest) is None
        }),
        request_path(Seq::empty()) is None,
{
    let none = Seq::<char>::empty();
    let target = path + seq!['?'] + query;
    lemma_request_line(method, path, end, rest);
    assert(text::is_word(target)) by {
        assert forall|i: int| 0 <= i < target.len() implies !text::whitespace(
            #[trigger] target[i],
        ) by {
            if i < path.len() {
                assert(target[i] == path[i]);
            } else if i > path.len() {
                assert(target[i] == query[i - path.len() - 1]);
            }
        }
    }
    lemma_request_line(method, target, end, rest);
    let asked = method + seq![' '] + path + seq!['?'] + query + end + crlf() + rest;
    assert(asked =~= method + seq![' '] + target + end + crlf() + rest);
    text::lemma_first_at(path, seq!['?'], 0);
    if let Some(i) = text::first_at(path, seq!['?'], 0) {
        assert(path.subrange(i, i + 1)[0] == '?');
        assert(path[i] == '?');
    }
    assert forall|i: int| 0 <= i < path.len() implies #[trigger] path[i] != '?' by {
        assert(path.contains(path[i]));
    }
    text::lemma_split_at(path, '?', query);
    // A method without a target.
    assert(one_line(method)) by {
        assert forall|i: int| 0 <= i < method.len() implies #[trigger] method[i] != '\n' by {
            assert(!text::whitespace(method[i]));
        }
    }
    lemma_first_line_of(method, rest);
    text::law_words_stand_between_white_space(none, method, none);
    assert(none + method + none =~= method);
}

proof fn lemma_request_line(method: Seq<char>, target: Seq<char>, end: Seq<char>, rest: Seq<char>)
    requires
        text::is_word(method),
        text::is_word(target),
        one_line(end),
        end.len() > 0 ==> text::whitespace(end[0]),
    ensures
        ({
            let head = method + seq![' '] + target + end + crlf() + rest;
            &&& method == "GET"@ ==> request_path(head) == Some(before_query(target))
            &&& method != "GET"@ ==> request_path(head) is None
        }),
{
    let none = Seq::<char>::empty();
    let line = method + seq![' '] + target + end;
    let behind = seq![' '] + target + end;
    assert(one_line(method) && one_line(target)) by {
        assert forall|i: int| 0 <= i < method.len() implies #[trigger] method[i] != '\n' by {
            assert(!text::whitespace(method[i]));
        }
        assert forall|i: int| 0 <= i < target.len() implies #[trigger] target[i] != '\n' by {
            assert(!text::whitespace(target[i]));
        }
    }
    lemma_one_line_concat(method, seq![' ']);
    lemma_one_line_concat(method + seq![' '], target);
    lemma_one_line_concat(method + seq![' '] + target, end);
    lemma_first_line_of(line, rest);
    assert(line =~= none + method + behind);
    text::law_words_stand_between_white_space(none, method, behind);
    text::law_words_stand_between_white_space(seq![' '], target, end);
}

/// A header is found whatever the case of its name, trimmed; the first one of a
/// name counts. Lines without a colon and headers of other names do not count.
pub proof fn law_first_header_of_a_name_counts(
    before: Seq<Seq<char>>,
    key: Seq<char>,
    value: Seq<char>,
    more: Seq<Seq<char>>,
    name: Seq<char>,
    first: Seq<char>,
)
    requires
        proper_key(key),
        one_line(value),
        trimmed_text(value),
        text::same_but_case(key, name),
        one_line(first),
        first.len() > 0,
        proper_lines(before),
        proper_lines(more),
        header_among(before, name) is None,
    ensures
        header(
            head_text(seq![first] + (before + seq![header_line(key, value)] + more)),
            name,
        ) == Some(value),
        header(head_text(seq![first] + before), name) is None,
{
    let line = header_line(key, value);
    let rest = before + seq![line] + more;
    let lines = seq![first] + rest;
    lemma_header_line_proper(key, value);
    assert(proper_lines(seq![line]));
    assert(proper_lines(seq![first]));
    lemma_proper_concat(before, seq![line]);
    lemma_proper_concat(before + seq![line], more);
    lemma_proper_concat(seq![first], rest);
    lemma_proper_concat(seq![first], before);
    lemma_head_first_line(lines, crlf());
    lemma_head_first_line(seq![first] + before, crlf());
    assert(lines.drop_first() =~= rest);
    assert((seq![first] + before).drop_first() =~= before);
    lemma_header_in_lines(rest, name);
    lemma_header_in_lines(before, name);
    lemma_header_behind(before, key, value, more, name);
}

proof fn lemma_header_behind(
    before: Seq<Seq<char>>,
    key: Seq<char>,
    value: Seq<char>,
    more: Seq<Seq<char>>,
    name: Seq<char>,
)
    requires
        proper_key(key),
        trimmed_text(value),
        text::same_but_case(key, name),
        header_among(before, name) is None,
    ensures
        header_among(before + seq![header_line(key, value)] + more, name) == Some(value),
    decreases before.len(),
{
    let line = header_line(key, value);
    let all = before + seq![line] + more;
    if before.len() == 0 {
        lemma_header_among_first(key, value, more, name);
        assert(all =~= seq![line] + more);
    } else {
        let tail = before.drop_first();
        assert(header_among(tail, name) is None);
        lemma_header_behind(tail, key, value, more, name);
        assert(all[0] == before[0]);
        assert(all.drop_first() =~= tail + seq![line] + more);
    }
}

/// An answer comes apart at its first blank line. It is one only if its first line
/// begins as HTTP does and its second word is a number, the status.
pub proof fn law_answers_come_apart(resp: Seq<char>)
    ensures
        response_parts(resp) matches Ok((code, body)) ==> {
            &&& text::split_once(resp, blank()) is Some
            &&& (text::split_once(resp, blank())->0).1 == body
            &&& status_code((text::split_once(resp, blank())->0).0) == Some(code)
            &&& text::starts_with(
                text::first_line((text::split_once(resp, blank())->0).0),
                "HTTP/1."@,
            )
        },
        text::split_once(resp, blank()) is None ==> response_parts(resp) == Err::<
            (u16, Seq<char>),
            Seq<char>,
        >("HTTP 响应不完整"@) && first_body(resp) is None,
        text::split_once(resp, blank()) matches Some((head, body)) ==> {
            &&& text::starts_with(text::first_line(head), "HTTP/1."@) && status_code(head) is Some
                ==> response_parts(resp) is Ok
            &&& !text::starts_with(text::first_line(head), "HTTP/1."@) ==> response_parts(resp)
                == Err::<(u16, Seq<char>), Seq<char>>("对方不是 MicSync 服务端(非 HTTP 响应)"@)
            &&& text::starts_with(text::first_line(head), "HTTP/1."@) && status_code(head) is None
                ==> response_parts(resp) == Err::<(u16, Seq<char>), Seq<char>>(
                "HTTP 状态行异常"@,
            )
            &&& !text::contains(body, blank()) ==> first_body(resp) == Some(body)
            &&& forall|a: Seq<char>, b: Seq<char>|
                body == a + blank() + b && !text::contains(a + seq!['\r', '\n', '\r'], blank())
                    ==> #[trigger] (a + blank() + b) == body && first_body(resp) == Some(a)
        },
{
    if let Some((head, body)) = text::split_once(resp, blank()) {
        text::lemma_first_at(body, blank(), 0);
        if !text::contains(body, blank()) {
            if let Some(i) = text::first_at(body, blank(), 0) {
                assert(text::occurs_at(body, blank(), i));
            }
        }
        assert forall|a: Seq<char>, b: Seq<char>|
            body == a + blank() + b && !text::contains(
                a + seq!['\r', '\n', '\r'],
                blank(),
            ) implies #[trigger] (a + blank() + b) == body && first_body(resp) == Some(a) by {
            let n = a.len() as int;
            assert(body.subrange(n, n + 4) =~= blank());
            assert(text::occurs_at(body, blank(), n));
            let i = text::first_at(body, blank(), 0)->0;
            let short = a + seq!['\r', '\n', '\r'];
            if i < n {
                assert(short.subrange(i, i + 4) =~= body.subrange(i, i + 4));
                assert(text::occurs_at(short, blank(), i));
            }
            assert(i == n);
            assert(body.take(n) =~= a);
        }
    }
}

/// A status is the second word of the first line, if it is a number.
pub proof fn law_status_is_the_second_word(
    first: Seq<char>,
    code: Seq<char>,
    end: Seq<char>,
    rest: Seq<char>,
)
    requires
        text::is_word(first),
        text::is_word(code),
        one_line(end),
        end.len() > 0 ==> text::whitespace(end[0]),
    ensures
        status_code(first + seq![' '] + code + end + crlf() + rest) == text::number16(code),
        status_code(first + crlf() + rest) is None,
        status_code(Seq::empty()) is None,
{
    let none = Seq::<char>::empty();
    let line = first + seq![' '] + code + end;
    let behind = seq![' '] + code + end;
    assert(one_line(first) && one_line(code)) by {
        assert forall|i: int| 0 <= i < first.len() implies #[trigger] first[i] != '\n' by {
            assert(!text::whitespace(first[i]));
        }
        assert forall|i: int| 0 <= i < code.len() implies #[trigger] code[i] != '\n' by {
            assert(!text::whitespace(code[i]));
        }
    }
    lemma_one_line_concat(first, seq![' ']);
    lemma_one_line_concat(first + seq![' '], code);
    lemma_one_line_concat(first + seq![' '] + code, end);
    lemma_first_line_of(line, rest);
    lemma_first_line_of(first, rest);
    assert(line =~= none + first + behind);
    text::law_words_stand_between_white_space(none, first, behind);
    text::law_words_stand_between_white_space(seq![' '], code, end);
    text::law_words_stand_between_white_space(none, first, none);
    assert(none + first + none =~= first);
    text::law_lines_end_at_line_feeds(none, none);
}

/// A head is read on until its blank line, which completes it, or until it has
/// grown to 8192 bytes without one.
pub proof fn law_head_is_read_to_its_blank_line(b: Seq<u8>)
    ensures
        head_status(b + seq![13u8, 10u8, 13u8, 10u8]) == HeadStatus::Complete,
        head_status(b) == HeadStatus::Complete ==> b.len() >= 4 && b.skip(b.len() - 4) == seq![
            13u8,
            10u8,
            13u8,
            10u8,
        ],
        head_status(b) == HeadStatus::More ==> b.len() < 8192,
        head_status(b) == HeadStatus::TooLong ==> b.len() >= 8192,
{
    let full = b + seq![13u8, 10u8, 13u8, 10u8];
    assert(full.skip(full.len() - 4) =~= blank_line());
}

/// The other headers of what is written: a request names its host, an answer says
/// what its body is and how many bytes it has, a stream is not to be kept, and each
/// closes the connection.
pub proof fn law_written_heads_are_complete(
    path: Seq<char>,
    host: Seq<char>,
    name: Seq<char>,
    token: Seq<char>,
    code: u16,
    reason: Seq<char>,
    body: Seq<char>,
)
    ensures
        ({
            let lines = request_lines(path, host, name, token);
            &&& lines.contains("Host: "@ + host)
            &&& lines.contains("X-MicSync-Name: "@ + name)
            &&& token.len() > 0 ==> lines.contains("X-MicSync-Token: "@ + token)
            &&& token.len() == 0 ==> lines.len() == 4
            &&& lines.last() == "Connection: close"@
        }),
        ({
            let lines = plain_request_lines(path, host);
            &&& lines.len() == 3
            &&& lines[0] == "GET "@ + path + " HTTP/1.1"@
            &&& lines[1] == "Host: "@ + host
            &&& lines[2] == "Connection: close"@
        }),
        ({
            let lines = json_response_lines(code, reason, body, token);
            &&& lines.contains("Content-Type: application/json"@)
            &&& lines.contains(
                "Content-Length: "@ + text::decimal(vstd::utf8::encode_utf8(body).len()),
            )
            &&& token.len() > 0 ==> lines.contains("X-MicSync-Token: "@ + token)
            &&& token.len() == 0 ==> lines.len() == 4
            &&& lines.last() == "Connection: close"@
        }),
        ({
            let lines = stream_response_lines(token);
            &&& lines[0] == "HTTP/1.1 200 OK"@
            &&& lines.contains("Content-Type: application/octet-stream"@)
            &&& lines.contains("Cache-Control: no-store"@)
            &&& token.len() > 0 ==> lines.contains("X-MicSync-Token: "@ + token)
            &&& token.len() == 0 ==> lines.len() == 4
            &&& lines.last() == "Connection: close"@
        }),
{
    reveal_strlit("Host");
    reveal_strlit("Host: ");
    reveal_strlit("X-MicSync-Name");
    reveal_strlit("X-MicSync-Name: ");
    reveal_strlit("X-MicSync-Token");
    reveal_strlit("X-MicSync-Token: ");
    reveal_strlit("Connection");
    reveal_strlit("close");
    reveal_strlit("Connection: close");
    reveal_strlit("Content-Type");
    reveal_strlit("application/json");
    reveal_strlit("application/octet-stream");
    reveal_strlit("Content-Type: application/json");
    reveal_strlit("Content-Type: application/octet-stream");
    reveal_strlit("Content-Length");
    reveal_strlit("Content-Length: ");
    reveal_strlit("Cache-Control");
    reveal_strlit("no-store");
    reveal_strlit("Cache-Control: no-store");
    let length = text::decimal(vstd::utf8::encode_utf8(body).len());
    assert(header_line("Host"@, host) =~= "Host: "@ + host);
    assert(header_line("X-MicSync-Name"@, name) =~= "X-MicSync-Name: "@ + name);
    assert(header_line("X-MicSync-Token"@, token) =~= "X-MicSync-Token: "@ + token);
    assert(header_line("Connection"@, "close"@) =~= "Connection: close"@);
    assert(header_line("Content-Type"@, "application/json"@) =~= "Content-Type: application/json"@);
    assert(header_line("Content-Type"@, "application/octet-stream"@)
        =~= "Content-Type: application/octet-stream"@);
    assert(header_line("Content-Length"@, length) =~= "Content-Length: "@ + length);
    assert(header_line("Cache-Control"@, "no-store"@) =~= "Cache-Control: no-store"@);
    let r = request_lines(path, host, name, token);
    let j = json_response_lines(code, reason, body, token);
    let s = stream_response_lines(token);
    assert(r[1] == "Host: "@ + host && r[2] == "X-MicSync-Name: "@ + name);
    assert(j[1] == "Content-Type: application/json"@ && j[2] == "Content-Length: "@ + length);
    assert(s[1] == "Content-Type: application/octet-stream"@ && s[2]
        == "Cache-Control: no-store"@);
    if token.len() > 0 {
        assert(r[3] == "X-MicSync-Token: "@ + token);
        assert(j[3] == "X-MicSync-Token: "@ + token);
        assert(s[3] == "X-MicSync-Token: "@ + token);
    }
}

} // verus!
