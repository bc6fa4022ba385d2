//! Reading a message from its wire form.
use vstd::prelude::*;
use vstd::utf8::*;
use crate::message::{
    Error, HeaderView, Message, MessageType, code_of, headers_text, headers_view, heading_of,
    lemma_code_description_bijection, type_of_code, wire,
};

verus! {

/// Why a text is not a message.
pub enum Fault {
    /// The text breaks the grammar.
    Grammar,
    /// A complete message is followed by more text.
    TooMuchData,
    /// The first line's code belongs to no message kind.
    UnknownCode(Seq<char>),
}

pub open spec fn is_digit(c: char) -> bool {
    48 <= (c as u32) && (c as u32) <= 57
}

pub open spec fn digit_value(c: char) -> int {
    (c as u32) as int - 48
}

/// The position of the first `c` at or after `i`, or the length of `s`.
pub open spec fn find_char(s: Seq<char>, c: char, i: int) -> int
    decreases s.len() - i,
{
    if i >= s.len() {
        s.len() as int
    } else if s[i] == c {
        i
    } else {
        find_char(s, c, i + 1)
    }
}

/// The end of the run of ASCII digits that starts at `i`.
pub open spec fn skip_digits(s: Seq<char>, i: int) -> int
    decreases s.len() - i,
{
    if i >= s.len() || !is_digit(s[i]) {
        i
    } else {
        skip_digits(s, i + 1)
    }
}

/// The end of the run of spaces that starts at `i`, stopping at `end`.
pub open spec fn skip_spaces(s: Seq<char>, i: int, end: int) -> int
    decreases end - i,
{
    if i >= end || s[i] != ' ' {
        i
    } else {
        skip_spaces(s, i + 1, end)
    }
}

/// The message kind named by a code of exactly three digits.
pub open spec fn type_of_digits(d: Seq<char>) -> Option<MessageType> {
    if d.len() == 3 {
        type_of_code(digit_value(d[0]) * 100 + digit_value(d[1]) * 10 + digit_value(d[2]))
    } else {
        None
    }
}

/// The header lines from position `i` up to and including the blank line
/// that ends them: the headers read, and the position after that blank line.
pub open spec fn parse_headers(s: Seq<char>, i: int) -> Option<(Seq<HeaderView>, int)>
    decreases s.len() - i,
{
    if i < 0 || i >= s.len() {
        None
    } else if s[i] == '\n' {
        Some((Seq::empty(), i + 1))
    } else {
        let nl = find_char(s, '\n', i);
        let colon = find_char(s, ':', i);
        if nl < i || nl >= s.len() || colon < i || colon >= nl {
            None
        } else {
            let v = skip_spaces(s, colon + 1, nl);
            match parse_headers(s, nl + 1) {
                None => None,
                Some(rest) => Some(
                    (seq![(s.subrange(i, colon), s.subrange(v, nl))] + rest.0, rest.1),
                ),
            }
        }
    }
}

/// What reading the text `s` as one message gives.
pub open spec fn parse_text_spec(s: Seq<char>) -> Result<(MessageType, Seq<HeaderView>), Fault> {
    let d = skip_digits(s, 0);
    let nl = find_char(s, '\n', d);
    if d == 0 || nl >= s.len() {
        Err(Fault::Grammar)
    } else {
        match type_of_digits(s.subrange(0, d)) {
            None => Err(Fault::UnknownCode(s.subrange(0, d))),
            Some(t) => match parse_headers(s, nl + 1) {
                None => Err(Fault::Grammar),
                Some(p) => if p.1 == s.len() {
                    Ok((t, p.0))
                } else {
                    Err(Fault::TooMuchData)
                },
            },
        }
    }
}

/// The result `r` reports the outcome `p` of reading a message.
pub open spec fn reports(r: Result<Message, Error>, p: Result<(MessageType, Seq<HeaderView>), Fault>) -> bool {
    match p {
        Ok(v) => r is Ok && r->Ok_0@ == v,
        Err(Fault::Grammar) => r is Err && r->Err_0 is MessageParse,
        Err(Fault::TooMuchData) => r is Err && r->Err_0 is MessageTooMuchData,
        Err(Fault::UnknownCode(d)) => r is Err && r->Err_0 is UnknownMessageType
            && r->Err_0->UnknownMessageType_0@ == d,
    }
}

pub open spec fn prepend(
    acc: Seq<HeaderView>,
    p: Option<(Seq<HeaderView>, int)>,
) -> Option<(Seq<HeaderView>, int)> {
    match p {
        None => None,
        Some(q) => Some((acc + q.0, q.1)),
    }
}

fn find_from(text: &str, n: usize, c: char, i: usize) -> (r: usize)
    requires
        n == text@.len(),
        i <= n,
    ensures
        r as int == find_char(text@, c, i as int),
        i <= r <= n,
        r < n ==> text@[r as int] == c,
{
    let mut j = i;
    while j < n
        invariant
            n == text@.len(),
            i <= j <= n,
            find_char(text@, c, i as int) == find_char(text@, c, j as int),
        decreases n - j,
    {
        if text.get_char(j) == c {
            return j;
        }
        j = j + 1;
    }
    j
}

fn digits_end(text: &str, n: usize) -> (r: usize)
    requires
        n == text@.len(),
    ensures
        r as int == skip_digits(text@, 0),
        r <= n,
        forall|k: int| 0 <= k < r ==> is_digit(#[trigger] text@[k]),
{
    let mut j: usize = 0;
    while j < n
        invariant
            n == text@.len(),
            j <= n,
            forall|k: int| 0 <= k < j ==> is_digit(#[trigger] text@[k]),
            skip_digits(text@, 0) == skip_digits(text@, j as int),
        decreases n - j,
    {
        let c = text.get_char(j);
        if !((c as u32) >= 48 && (c as u32) <= 57) {
            return j;
        }
        j = j + 1;
    }
    j
}

fn spaces_end(text: &str, i: usize, end: usize) -> (r: usize)
    requires
        end <= text@.len(),
        i <= end,
    ensures
        r as int == skip_spaces(text@, i as int, end as int),
        i <= r <= end,
{
    let mut j = i;
    while j < end
        invariant
            end <= text@.len(),
            i <= j <= end,
            skip_spaces(text@, i as int, end as int) == skip_spaces(text@, j as int, end as int),
        decreases end - j,
    {
        if text.get_char(j) != ' ' {
            return j;
        }
        j = j + 1;
    }
    j
}

fn grammar_error(detail: &str) -> (r: Error)
    ensures
        r is MessageParse,
{
    Error::MessageParse(detail.to_owned())
}

/// Reads one message from `text`.
pub fn parse_text(text: &str) -> (r: Result<Message, Error>)
    ensures
        reports(r, parse_text_spec(text@)),
{
    let ghost s = text@;
    let n = text.unicode_len();
    let d = digits_end(text, n);
    if d == 0 {
        return Err(grammar_error("the first line has no message code"));
    }
    let nl = find_from(text, n, '\n', d);
    if nl >= n {
        return Err(grammar_error("the first line has no newline"));
    }
    let digits = text.substring_char(0, d);
    let mut code: u16 = 0;
    if d == 3 {
        let c0 = text.get_char(0) as u32 - 48;
        let c1 = text.get_char(1) as u32 - 48;
        let c2 = text.get_char(2) as u32 - 48;
        assert(is_digit(s[0]) && is_digit(s[1]) && is_digit(s[2]));
        code = (c0 * 100 + c1 * 10 + c2) as u16;
        assert(s.subrange(0, 3)[0] == s[0] && s.subrange(0, 3)[1] == s[1] && s.subrange(0, 3)[2] == s[2]);
    }
    let kind = MessageType::from_code(code);
    let message_type = match kind {
        Some(t) if d == 3 => t,
        _ => {
            return Err(Error::UnknownMessageType(digits.to_owned()));
        },
    };
    let start: usize = nl + 1;
    assert(type_of_digits(s.subrange(0, d as int)) == Some(message_type));
    match read_headers(text, n, start) {
        None => Err(grammar_error("the header lines break the grammar")),
        Some((headers, end)) => {
            if end != n {
                Err(Error::MessageTooMuchData)
            } else {
                Ok(Message { message_type, headers })
            }
        },
    }
}

/// Reads the header lines from position `start` of `text` up to the blank
/// line that ends them.
fn read_headers(text: &str, n: usize, start: usize) -> (r: Option<(Vec<(String, String)>, usize)>)
    requires
        n == text@.len(),
        start <= n,
    ensures
        match parse_headers(text@, start as int) {
            None => r is None,
            Some(q) => r matches Some(p) && headers_view(p.0@) == q.0 && p.1 == q.1,
        },
{
    let ghost s = text@;
    let mut pos: usize = start;
    let mut headers: Vec<(String, String)> = Vec::new();
    let end: usize;
    loop
        invariant
            n == s.len(),
            s == text@,
            start <= pos <= n,
            parse_headers(s, start as int) == prepend(headers_view(headers@), parse_headers(s, pos as int)),
        ensures
            parse_headers(s, start as int) == Some((headers_view(headers@), end as int)),
        decreases n - pos,
    {
        if pos >= n {
            return None;
        }
        if text.get_char(pos) == '\n' {
            assert(headers_view(headers@) + Seq::<HeaderView>::empty() =~= headers_view(headers@));
            end = pos + 1;
            break;
        }
        let line_end = find_from(text, n, '\n', pos);
        if line_end >= n {
            return None;
        }
        let colon = find_from(text, n, ':', pos);
        if colon >= line_end {
            return None;
        }
        let v = spaces_end(text, colon + 1, line_end);
        let key = text.substring_char(pos, colon).to_owned();
        let value = text.substring_char(v, line_end).to_owned();
        let ghost before = headers@;
        let ghost h: HeaderView = (key@, value@);
        headers.push((key, value));
        proof {
            assert(headers_view(headers@) =~= headers_view(before).push(h));
            let rest = parse_headers(s, line_end + 1);
            if let Some(q) = rest {
                assert(headers_view(before) + (seq![h] + q.0) =~= headers_view(headers@) + q.0);
            }
        }
        pos = line_end + 1;
    }
    Some((headers, end))
}

/// Relies on `std::str::from_utf8`: it succeeds exactly on valid UTF-8, and
/// then gives the text that the bytes encode.
#[verifier::external_body]
fn utf8_text(b: &[u8]) -> (r: Option<&str>)
    ensures
        r is Some <==> valid_utf8(b@),
        r matches Some(t) ==> t@ == decode_utf8(b@),
{
    std::str::from_utf8(b).ok()
}

/// The end of the block of lines that starts at `i`: the position after the
/// first blank line, where there is one.
pub open spec fn block_end(s: Seq<u8>, i: int) -> Option<int>
    decreases s.len() - i,
{
    if i < 0 || i >= s.len() {
        None
    } else if s[i] == 10u8 {
        Some(i + 1)
    } else {
        let nl = find_byte(s, 10u8, i);
        if nl < i || nl >= s.len() {
            None
        } else {
            block_end(s, nl + 1)
        }
    }
}

/// What reading the bytes `s` as one message gives. The first line is read
/// as bytes, its description unchecked; the header block up to the first
/// blank line must be UTF-8 text of header lines; any byte after that block
/// is too much data.
pub open spec fn parse_bytes_spec(s: Seq<u8>) -> Result<(MessageType, Seq<HeaderView>), Fault> {
    match first_line_spec(s) {
        Err(f) => Err(f),
        Ok(p) => match block_end(s, p.1) {
            None => Err(Fault::Grammar),
            Some(e) => {
                let region = s.subrange(p.1, e);
                if !valid_utf8(region) {
                    Err(Fault::Grammar)
                } else {
                    match parse_headers(decode_utf8(region), 0) {
                        None => Err(Fault::Grammar),
                        Some(q) => if q.1 != decode_utf8(region).len() {
                            Err(Fault::Grammar)
                        } else if e < s.len() {
                            Err(Fault::TooMuchData)
                        } else {
                            Ok((p.0, q.0))
                        },
                    }
                }
            },
        },
    }
}

/// The result `r` is what reading the bytes `input` as one message gives.
pub open spec fn reads_as(r: Result<Message, Error>, input: Seq<u8>) -> bool {
    reports(r, parse_bytes_spec(input))
}

impl Message {
    /// Reads one message from the bytes of its wire form.
    pub fn from_bytes(input: &[u8]) -> (r: Result<Message, Error>)
        ensures
            reads_as(r, input@),
    {
        let (message_type, start) = match MessageType::from_bytes(input) {
            Err(e) => {
                return Err(e);
            },
            Ok(p) => p,
        };
        let n = input.len();
        let mut pos: usize = start;
        let end: usize;
        loop
            invariant
                n == input@.len(),
                start <= pos <= n,
                first_line_spec(input@) == Ok::<(MessageType, int), Fault>((message_type, start as int)),
                block_end(input@, start as int) == block_end(input@, pos as int),
            ensures
                block_end(input@, start as int) == Some(end as int),
                start < end <= n,
            decreases n - pos,
        {
            if pos >= n {
                return Err(grammar_error("the message has no terminating blank line"));
            }
            if input[pos] == 10u8 {
                end = pos + 1;
                break;
            }
            let mut nl: usize = pos;
            while nl < n && input[nl] != 10u8
                invariant
                    n == input@.len(),
                    pos <= nl <= n,
                    find_byte(input@, 10u8, pos as int) == find_byte(input@, 10u8, nl as int),
                decreases n - nl,
            {
                nl = nl + 1;
            }
            if nl >= n {
                return Err(grammar_error("a header line has no newline"));
            }
            pos = nl + 1;
        }
        let region = vstd::slice::slice_subrange(input, start, end);
        let text = match utf8_text(region) {
            None => {
                return Err(grammar_error("the header lines are not UTF-8 text"));
            },
            Some(t) => t,
        };
        let m = text.unicode_len();
        match read_headers(text, m, 0) {
            None => Err(grammar_error("the header lines break the grammar")),
            Some((headers, k)) => {
                if k != m {
                    Err(grammar_error("the header lines break the grammar"))
                } else if end < n {
                    Err(Error::MessageTooMuchData)
                } else {
                    Ok(Message { message_type, headers })
                }
            },
        }
    }
}

/// A header that survives a trip through the wire form: its key holds no
/// colon and no newline, its value no newline, and the value does not start
/// with a space (spaces after the colon are not part of the value).
pub open spec fn header_fits(h: HeaderView) -> bool {
    &&& forall|k: int| 0 <= k < h.0.len() ==> #[trigger] h.0[k] != ':' && h.0[k] != '\n'
    &&& forall|k: int| 0 <= k < h.1.len() ==> #[trigger] h.1[k] != '\n'
    &&& h.1.len() > 0 ==> h.1[0] != ' '
}

pub open spec fn header_line(h: HeaderView) -> Seq<char> {
    h.0 + ": "@ + h.1 + "\n"@
}

proof fn lemma_find_skip(s: Seq<char>, c: char, i: int, j: int)
    requires
        0 <= i <= j <= s.len(),
        forall|k: int| i <= k < j ==> s[k] != c,
    ensures
        find_char(s, c, i) == find_char(s, c, j),
    decreases j - i,
{
    if i < j {
        lemma_find_skip(s, c, i + 1, j);
    }
}

proof fn lemma_find_at_least(s: Seq<char>, c: char, i: int)
    requires
        0 <= i <= s.len(),
    ensures
        i <= find_char(s, c, i) <= s.len(),
    decreases s.len() - i,
{
    if i < s.len() {
        lemma_find_at_least(s, c, i + 1);
    }
}

proof fn lemma_find_char(s: Seq<char>, c: char, i: int, j: int)
    requires
        0 <= i <= j <= s.len(),
        forall|k: int| i <= k < j ==> s[k] != c,
        j < s.len() ==> s[j] == c,
    ensures
        find_char(s, c, i) == j,
{
    lemma_find_skip(s, c, i, j);
}

proof fn lemma_headers_text_front(hs: Seq<HeaderView>)
    requires
        hs.len() > 0,
    ensures
        headers_text(hs) == header_line(hs[0]) + headers_text(hs.drop_first()),
    decreases hs.len(),
{
    reveal_with_fuel(headers_text, 2);
    if hs.len() == 1 {
        assert(hs.drop_first() =~= Seq::<HeaderView>::empty());
        assert(headers_text(hs.drop_last()) == Seq::<char>::empty());
        assert(headers_text(hs) =~= header_line(hs[0]));
        assert(header_line(hs[0]) + headers_text(hs.drop_first()) =~= header_line(hs[0]));
    } else {
        lemma_headers_text_front(hs.drop_last());
        let tail = hs.drop_first();
        assert(tail.drop_last() =~= hs.drop_last().drop_first());
        assert(tail.last() == hs.last());
        assert(hs.drop_last()[0] == hs[0]);
        assert(headers_text(hs) =~= header_line(hs[0]) + headers_text(tail));
    }
}

proof fn lemma_header_step(s: Seq<char>, i: int, e: int, h: HeaderView, tail: Seq<char>)
    requires
        0 <= i <= e <= s.len(),
        s.subrange(i, e) == header_line(h) + tail,
        header_fits(h),
    ensures
        ({
            let colon = i + h.0.len();
            let nl = colon + 2 + h.1.len();
            &&& s[i] != '\n'
            &&& nl < e
            &&& find_char(s, '\n', i) == nl
            &&& find_char(s, ':', i) == colon
            &&& skip_spaces(s, colon + 1, nl) == colon + 2
            &&& s.subrange(i, colon) == h.0
            &&& s.subrange(colon + 2, nl) == h.1
            &&& s.subrange(nl + 1, e) == tail
        }),
{
    reveal_strlit("\n");
    reveal_strlit(": ");
    let t = s.subrange(i, e);
    let kl = h.0.len() as int;
    let vl = h.1.len() as int;
    assert(t =~= h.0 + ": "@ + h.1 + "\n"@ + tail);
    let colon = i + kl;
    let nl = i + kl + 2 + vl;
    assert forall|k: int| i <= k < nl implies s[k] != '\n' by {
        assert(s[k] == t[k - i]);
        if k < colon {
            assert(t[k - i] == h.0[k - i]);
        } else if k < colon + 2 {
        } else {
            assert(t[k - i] == h.1[k - i - kl - 2]);
        }
    }
    assert(s[nl] == t[nl - i]);
    lemma_find_char(s, '\n', i, nl);
    assert forall|k: int| i <= k < colon implies s[k] != ':' by {
        assert(s[k] == t[k - i]);
        assert(t[k - i] == h.0[k - i]);
    }
    assert(s[colon] == t[colon - i]);
    lemma_find_char(s, ':', i, colon);
    assert(s[colon + 1] == t[colon + 1 - i]);
    if vl > 0 {
        assert(s[colon + 2] == t[colon + 2 - i]);
        assert(t[colon + 2 - i] == h.1[0]);
    }
    assert(skip_spaces(s, colon + 2, nl) == colon + 2);
    assert(skip_spaces(s, colon + 1, nl) == colon + 2);
    if kl == 0 {
        assert(s[i] == ':');
    } else {
        assert(s[i] == t[0]);
        assert(t[0] == h.0[0]);
    }
    assert(s.subrange(i, colon) =~= h.0);
    assert forall|k: int| 0 <= k < vl implies s.subrange(colon + 2, nl)[k] == h.1[k] by {
        assert(s[colon + 2 + k] == t[colon + 2 + k - i]);
        assert(t[colon + 2 + k - i] == h.1[k]);
    }
    assert(s.subrange(colon + 2, nl) =~= h.1);
    assert(t.len() == nl - i + 1 + tail.len());
    assert forall|k: int| 0 <= k < tail.len() implies s.subrange(nl + 1, e)[k] == tail[k] by {
        assert(s[nl + 1 + k] == t[nl + 1 + k - i]);
        assert(t[nl + 1 + k - i] == tail[k]);
    }
    assert(s.subrange(nl + 1, e) =~= tail);
}

proof fn lemma_fits_tail(hs: Seq<HeaderView>)
    requires
        hs.len() > 0,
        forall|k: int| 0 <= k < hs.len() ==> header_fits(#[trigger] hs[k]),
    ensures
        header_fits(hs[0]),
        forall|k: int| 0 <= k < hs.drop_first().len() ==> header_fits(#[trigger] hs.drop_first()[k]),
{
    assert forall|k: int| 0 <= k < hs.drop_first().len() implies header_fits(
        #[trigger] hs.drop_first()[k],
    ) by {
        assert(hs.drop_first()[k] == hs[k + 1]);
    }
}

proof fn lemma_parse_header_lines(s: Seq<char>, i: int, e: int, hs: Seq<HeaderView>)
    requires
        0 <= i <= e <= s.len(),
        s.subrange(i, e) == headers_text(hs) + "\n"@,
        forall|k: int| 0 <= k < hs.len() ==> header_fits(#[trigger] hs[k]),
    ensures
        parse_headers(s, i) == Some((hs, e)),
    decreases hs.len(),
{
    reveal_strlit("\n");
    if hs.len() == 0 {
        let t = s.subrange(i, e);
        assert(t =~= "\n"@);
        assert(t[0] == s[i]);
    } else {
        lemma_headers_text_front(hs);
        lemma_fits_tail(hs);
        let rest = headers_text(hs.drop_first()) + "\n"@;
        assert(headers_text(hs) + "\n"@ =~= header_line(hs[0]) + rest);
        lemma_header_step(s, i, e, hs[0], rest);
        let nl = i + hs[0].0.len() + 2 + hs[0].1.len();
        lemma_parse_header_lines(s, nl + 1, e, hs.drop_first());
        assert(seq![hs[0]] + hs.drop_first() =~= hs);
    }
}

/// Header lines that fit, followed by a line without a colon: the block
/// is refused, wherever that line stands.
pub proof fn lemma_colonless_line_refused(
    s: Seq<char>,
    i: int,
    hs: Seq<HeaderView>,
    line: Seq<char>,
    more: Seq<char>,
)
    requires
        0 <= i <= s.len(),
        s.subrange(i, s.len() as int) == headers_text(hs) + line + "\n"@ + more,
        forall|k: int| 0 <= k < hs.len() ==> header_fits(#[trigger] hs[k]),
        line.len() > 0,
        forall|k: int| 0 <= k < line.len() ==> #[trigger] line[k] != ':' && line[k] != '\n',
    ensures
        parse_headers(s, i) is None,
    decreases hs.len(),
{
    reveal_strlit("\n");
    let t = s.subrange(i, s.len() as int);
    if hs.len() == 0 {
        assert(headers_text(hs) =~= Seq::<char>::empty());
        assert(t =~= line + "\n"@ + more);
        let nl = i + line.len();
        assert forall|k: int| i <= k < nl implies s[k] != '\n' && s[k] != ':' by {
            assert(s[k] == t[k - i]);
            assert(t[k - i] == line[k - i]);
        }
        assert(s[nl] == t[nl - i]);
        lemma_find_char(s, '\n', i, nl);
        lemma_find_skip(s, ':', i, nl);
        lemma_find_at_least(s, ':', nl);
        assert(s[i] == t[0]);
    } else {
        lemma_headers_text_front(hs);
        lemma_fits_tail(hs);
        let rest = headers_text(hs.drop_first()) + line + "\n"@ + more;
        assert(headers_text(hs) + line + "\n"@ + more =~= header_line(hs[0]) + rest);
        lemma_header_step(s, i, s.len() as int, hs[0], rest);
        let nl = i + hs[0].0.len() + 2 + hs[0].1.len();
        lemma_colonless_line_refused(s, nl + 1, hs.drop_first(), line, more);
    }
}

proof fn lemma_heading(t: MessageType)
    ensures
        heading_of(t).len() >= 4,
        is_digit(heading_of(t)[0]),
        is_digit(heading_of(t)[1]),
        is_digit(heading_of(t)[2]),
        heading_of(t)[3] == ' ',
        digit_value(heading_of(t)[0]) * 100 + digit_value(heading_of(t)[1]) * 10 + digit_value(
            heading_of(t)[2],
        ) == code_of(t),
        forall|k: int| 0 <= k < heading_of(t).len() ==> #[trigger] heading_of(t)[k] != '\n',
        is_ascii_chars(heading_of(t)),
{
    reveal_strlit("100 Capabilities");
    reveal_strlit("101 Log");
    reveal_strlit("102 Status");
    reveal_strlit("200 URI Start");
    reveal_strlit("201 URI Done");
    reveal_strlit("400 URI Failure");
    reveal_strlit("401 General Failure");
    reveal_strlit("600 URI Acquire");
    reveal_strlit("601 Configuration");
}

proof fn lemma_heading_then(t: MessageType, tail: Seq<char>)
    ensures
        ({
            let s = heading_of(t) + "\n"@ + tail;
            let d = skip_digits(s, 0);
            &&& d == 3
            &&& find_char(s, '\n', d) == heading_of(t).len()
            &&& type_of_digits(s.subrange(0, d)) == Some(t)
        }),
{
    reveal_strlit("\n");
    let hd = heading_of(t);
    let s = hd + "\n"@ + tail;
    lemma_heading(t);
    let hl = hd.len() as int;
    assert(s[0] == hd[0] && s[1] == hd[1] && s[2] == hd[2] && s[3] == hd[3]);
    assert(skip_digits(s, 3) == 3);
    assert(skip_digits(s, 2) == 3);
    assert(skip_digits(s, 1) == 3);
    assert(skip_digits(s, 0) == 3);
    assert forall|k: int| 3 <= k < hl implies s[k] != '\n' by {
        assert(s[k] == hd[k]);
    }
    assert(s[hl] == '\n');
    lemma_find_char(s, '\n', 3, hl);
    let d = s.subrange(0, 3);
    assert(d[0] == s[0] && d[1] == s[1] && d[2] == s[2]);
    lemma_code_description_bijection(t, t);
}

proof fn lemma_wire_then(m: (MessageType, Seq<HeaderView>), rest: Seq<char>)
    requires
        forall|k: int| 0 <= k < m.1.len() ==> header_fits(#[trigger] m.1[k]),
    ensures
        ({
            let s = wire(m) + rest;
            let d = skip_digits(s, 0);
            &&& d == 3
            &&& find_char(s, '\n', d) < s.len()
            &&& type_of_digits(s.subrange(0, d)) == Some(m.0)
            &&& parse_headers(s, find_char(s, '\n', d) + 1) == Some((m.1, wire(m).len() as int))
        }),
{
    reveal_strlit("\n");
    let s = wire(m) + rest;
    let w = wire(m).len() as int;
    let hl = heading_of(m.0).len() as int;
    let tail = headers_text(m.1) + "\n"@ + rest;
    assert(s =~= heading_of(m.0) + "\n"@ + tail);
    lemma_heading_then(m.0, tail);
    assert(s.subrange(hl + 1, w) =~= headers_text(m.1) + "\n"@);
    lemma_parse_header_lines(s, hl + 1, w, m.1);
}

/// A message with a header line that has no colon breaks the grammar,
/// whatever header lines come before it and whatever follows it.
pub proof fn lemma_missing_colon(
    t: MessageType,
    hs: Seq<HeaderView>,
    line: Seq<char>,
    more: Seq<char>,
)
    requires
        forall|k: int| 0 <= k < hs.len() ==> header_fits(#[trigger] hs[k]),
        line.len() > 0,
        forall|k: int| 0 <= k < line.len() ==> #[trigger] line[k] != ':' && line[k] != '\n',
    ensures
        parse_text_spec(heading_of(t) + "\n"@ + headers_text(hs) + line + "\n"@ + more) == Err::<
            (MessageType, Seq<HeaderView>),
            Fault,
        >(Fault::Grammar),
{
    reveal_strlit("\n");
    let tail = headers_text(hs) + line + "\n"@ + more;
    let s = heading_of(t) + "\n"@ + tail;
    assert(s =~= heading_of(t) + "\n"@ + headers_text(hs) + line + "\n"@ + more);
    lemma_heading_then(t, tail);
    let i = heading_of(t).len() as int + 1;
    assert(s.subrange(i, s.len() as int) =~= tail);
    lemma_colonless_line_refused(s, i, hs, line, more);
}

/// The same for bytes: a header block that reads as header lines followed
/// by a line without a colon is refused, wherever that line stands.
pub proof fn lemma_missing_colon_bytes(
    s: Seq<u8>,
    hs: Seq<HeaderView>,
    line: Seq<char>,
    more: Seq<char>,
)
    requires
        first_line_spec(s) is Ok,
        block_end(s, first_line_spec(s)->Ok_0.1) is Some,
        ({
            let region = s.subrange(first_line_spec(s)->Ok_0.1, block_end(s, first_line_spec(s)->Ok_0.1)->Some_0);
            valid_utf8(region) && decode_utf8(region) == headers_text(hs) + line + "\n"@ + more
        }),
        forall|k: int| 0 <= k < hs.len() ==> header_fits(#[trigger] hs[k]),
        line.len() > 0,
        forall|k: int| 0 <= k < line.len() ==> #[trigger] line[k] != ':' && line[k] != '\n',
    ensures
        parse_bytes_spec(s) == Err::<(MessageType, Seq<HeaderView>), Fault>(Fault::Grammar),
{
    let start = first_line_spec(s)->Ok_0.1;
    let text = decode_utf8(s.subrange(start, block_end(s, start)->Some_0));
    assert(text.subrange(0, text.len() as int) =~= text);
    lemma_colonless_line_refused(text, 0, hs, line, more);
}

/// Reading the wire form of a message gives the message back, for every
/// message whose headers fit the wire form.
pub proof fn lemma_round_trip(m: (MessageType, Seq<HeaderView>))
    requires
        forall|k: int| 0 <= k < m.1.len() ==> header_fits(#[trigger] m.1[k]),
    ensures
        parse_text_spec(wire(m)) == Ok::<(MessageType, Seq<HeaderView>), Fault>(m),
{
    lemma_wire_then(m, Seq::empty());
    assert(wire(m) + Seq::<char>::empty() =~= wire(m));
}

/// A message whose wire form is followed by more text is refused as too
/// much data.
pub proof fn lemma_trailing_data(m: (MessageType, Seq<HeaderView>), rest: Seq<char>)
    requires
        forall|k: int| 0 <= k < m.1.len() ==> header_fits(#[trigger] m.1[k]),
        rest.len() > 0,
    ensures
        parse_text_spec(wire(m) + rest) == Err::<(MessageType, Seq<HeaderView>), Fault>(
            Fault::TooMuchData,
        ),
{
    lemma_wire_then(m, rest);
}

/// The position of the first byte `c` at or after `i`, or the length of `s`.
pub open spec fn find_byte(s: Seq<u8>, c: u8, i: int) -> int
    decreases s.len() - i,
{
    if i >= s.len() {
        s.len() as int
    } else if s[i] == c {
        i
    } else {
        find_byte(s, c, i + 1)
    }
}

/// The end of the run of ASCII digit bytes that starts at `i`.
pub open spec fn skip_digit_bytes(s: Seq<u8>, i: int) -> int
    decreases s.len() - i,
{
    if i >= s.len() || !(48 <= s[i] <= 57) {
        i
    } else {
        skip_digit_bytes(s, i + 1)
    }
}

/// The characters of a run of ASCII digit bytes.
pub open spec fn digit_bytes_text(d: Seq<u8>) -> Seq<char> {
    d.map_values(|b: u8| crate::message::digit_char((b - 48) as nat))
}

/// The first line of a message: its kind, and the number of bytes up to and
/// including its newline; or why it is not one.
pub open spec fn first_line_spec(s: Seq<u8>) -> Result<(MessageType, int), Fault> {
    let d = skip_digit_bytes(s, 0);
    let nl = find_byte(s, 10u8, d);
    if d == 0 || nl >= s.len() {
        Err(Fault::Grammar)
    } else if d == 3 {
        match type_of_code((s[0] - 48) * 100 + (s[1] - 48) * 10 + (s[2] - 48)) {
            Some(t) => Ok((t, nl + 1)),
            None => Err(Fault::UnknownCode(digit_bytes_text(s.subrange(0, d)))),
        }
    } else {
        Err(Fault::UnknownCode(digit_bytes_text(s.subrange(0, d))))
    }
}

impl MessageType {
    /// Reads the first line of a message: the kind that its code names, and
    /// how many bytes the line takes, its newline included.
    pub fn from_bytes(input: &[u8]) -> (r: Result<(MessageType, usize), Error>)
        ensures
            match first_line_spec(input@) {
                Ok(p) => r is Ok && r->Ok_0.0 == p.0 && r->Ok_0.1 == p.1,
                Err(Fault::UnknownCode(d)) => r is Err && r->Err_0 is UnknownMessageType
                    && r->Err_0->UnknownMessageType_0@ == d,
                Err(_) => r is Err && r->Err_0 is MessageParse,
            },
    {
        let n = input.len();
        let mut d: usize = 0;
        while d < n && 48 <= input[d] && input[d] <= 57
            invariant
                n == input@.len(),
                d <= n,
                skip_digit_bytes(input@, 0) == skip_digit_bytes(input@, d as int),
                forall|k: int| 0 <= k < d ==> 48 <= #[trigger] input@[k] <= 57,
            decreases n - d,
        {
            d = d + 1;
        }
        if d == 0 {
            return Err(grammar_error("the first line has no message code"));
        }
        let mut nl: usize = d;
        while nl < n && input[nl] != 10u8
            invariant
                n == input@.len(),
                d <= nl <= n,
                find_byte(input@, 10u8, d as int) == find_byte(input@, 10u8, nl as int),
            decreases n - nl,
        {
            nl = nl + 1;
        }
        if nl >= n {
            return Err(grammar_error("the first line has no newline"));
        }
        if d == 3 {
            let code = (input[0] - 48) as u16 * 100 + (input[1] - 48) as u16 * 10 + (input[2] - 48) as u16;
            if let Some(t) = MessageType::from_code(code) {
                return Ok((t, nl + 1));
            }
        }
        let mut digits = String::new();
        let mut k: usize = 0;
        while k < d
            invariant
                d <= n == input@.len(),
                k <= d,
                forall|j: int| 0 <= j < d ==> 48 <= #[trigger] input@[j] <= 57,
                digits@ == digit_bytes_text(input@.subrange(0, k as int)),
            decreases d - k,
        {
            digits.append(crate::message::digit_str((input[k] - 48) as u64));
            assert(digit_bytes_text(input@.subrange(0, k + 1)) =~= digit_bytes_text(
                input@.subrange(0, k as int),
            ).push(crate::message::digit_char((input@[k as int] - 48) as nat)));
            k = k + 1;
        }
        Err(Error::UnknownMessageType(digits))
    }
}

proof fn lemma_encode_concat(a: Seq<char>, b: Seq<char>)
    ensures
        encode_utf8(a + b) == encode_utf8(a) + encode_utf8(b),
    decreases a.len(),
{
    if a.len() == 0 {
        assert(a + b =~= b);
        assert(encode_utf8(a) + encode_utf8(b) =~= encode_utf8(b));
    } else {
        assert((a + b).drop_first() =~= a.drop_first() + b);
        assert((a + b)[0] == a[0]);
        lemma_encode_concat(a.drop_first(), b);
        assert(encode_utf8(a + b) =~= encode_utf8(a) + encode_utf8(b));
    }
}

proof fn lemma_scalar_no_newline(c: char)
    requires
        c != '\n',
    ensures
        encode_scalar(c as u32).len() >= 1,
        forall|j: int| 0 <= j < encode_scalar(c as u32).len() ==> #[trigger] encode_scalar(c as u32)[j] != 10u8,
{
    char_is_scalar(c);
    let v = c as u32;
    assert(v != 10);
    if has_width_1_encoding(v) {
        assert((v & 0x7F) as u8 != 10u8) by (bit_vector)
            requires
                v <= 0x7F,
                v != 10,
        ;
    } else {
        assert(0xC0 | ((v >> 6) & 0x1F) as u8 != 10u8) by (bit_vector);
        assert(0xE0 | ((v >> 12) & 0x0F) as u8 != 10u8) by (bit_vector);
        assert(0xF0 | ((v >> 18) & 0x7) as u8 != 10u8) by (bit_vector);
        assert(0x80 | (v & 0x3F) as u8 != 10u8) by (bit_vector);
        assert(0x80 | ((v >> 6) & 0x3F) as u8 != 10u8) by (bit_vector);
        assert(0x80 | ((v >> 12) & 0x3F) as u8 != 10u8) by (bit_vector);
    }
}

proof fn lemma_encode_no_newline(cs: Seq<char>)
    requires
        forall|k: int| 0 <= k < cs.len() ==> #[trigger] cs[k] != '\n',
    ensures
        encode_utf8(cs).len() >= cs.len(),
        forall|j: int| 0 <= j < encode_utf8(cs).len() ==> #[trigger] encode_utf8(cs)[j] != 10u8,
    decreases cs.len(),
{
    if cs.len() > 0 {
        lemma_scalar_no_newline(cs[0]);
        let rest = cs.drop_first();
        assert forall|k: int| 0 <= k < rest.len() implies #[trigger] rest[k] != '\n' by {
            assert(rest[k] == cs[k + 1]);
        }
        lemma_encode_no_newline(rest);
        let head = encode_scalar(cs[0] as u32);
        assert forall|j: int| 0 <= j < encode_utf8(cs).len() implies #[trigger] encode_utf8(cs)[j]
            != 10u8 by {
            if j < head.len() {
                assert(encode_utf8(cs)[j] == head[j]);
            } else {
                assert(encode_utf8(cs)[j] == encode_utf8(rest)[j - head.len()]);
            }
        }
    }
}

proof fn lemma_newline_bytes()
    ensures
        encode_utf8("\n"@) == seq![10u8],
{
    reveal_strlit("\n");
    assert(is_ascii_chars("\n"@));
    is_ascii_chars_encode_utf8("\n"@);
    assert(encode_utf8("\n"@) =~= seq![10u8]);
}

proof fn lemma_find_byte(s: Seq<u8>, c: u8, i: int, j: int)
    requires
        0 <= i <= j <= s.len(),
        forall|k: int| i <= k < j ==> s[k] != c,
        j < s.len() ==> s[j] == c,
    ensures
        find_byte(s, c, i) == j,
    decreases j - i,
{
    if i < j {
        lemma_find_byte(s, c, i + 1, j);
    }
}

proof fn lemma_block_end(s: Seq<u8>, i: int, e: int, hs: Seq<HeaderView>)
    requires
        0 <= i <= e <= s.len(),
        s.subrange(i, e) == encode_utf8(headers_text(hs) + "\n"@),
        forall|k: int| 0 <= k < hs.len() ==> header_fits(#[trigger] hs[k]),
    ensures
        block_end(s, i) == Some(e),
    decreases hs.len(),
{
    reveal_strlit("\n");
    reveal_strlit(": ");
    lemma_newline_bytes();
    let t = s.subrange(i, e);
    if hs.len() == 0 {
        assert(headers_text(hs) + "\n"@ =~= "\n"@);
        assert(s[i] == t[0]);
    } else {
        lemma_headers_text_front(hs);
        let h = hs[0];
        assert(header_fits(h));
        let body = h.0 + ": "@ + h.1;
        let rest = headers_text(hs.drop_first()) + "\n"@;
        assert(headers_text(hs) + "\n"@ =~= body + ("\n"@ + rest));
        assert forall|k: int| 0 <= k < body.len() implies #[trigger] body[k] != '\n' by {
            if k < h.0.len() {
                assert(body[k] == h.0[k]);
            } else if k >= h.0.len() + 2 {
                assert(body[k] == h.1[k - h.0.len() - 2]);
            }
        }
        lemma_encode_no_newline(body);
        lemma_encode_concat(body, "\n"@ + rest);
        lemma_encode_concat("\n"@, rest);
        let eb = encode_utf8(body);
        let nl = i + eb.len();
        assert(t =~= eb + (seq![10u8] + encode_utf8(rest)));
        assert forall|k: int| i <= k < nl implies s[k] != 10u8 by {
            assert(s[k] == t[k - i]);
            assert(t[k - i] == eb[k - i]);
        }
        assert(s[nl] == t[nl - i]);
        lemma_find_byte(s, 10u8, i, nl);
        assert(s[i] == t[0]);
        assert(t[0] == eb[0]);
        let er = encode_utf8(rest);
        assert(t.len() == nl - i + 1 + er.len());
        assert forall|k: int| 0 <= k < er.len() implies s.subrange(nl + 1, e)[k] == er[k] by {
            assert(s[nl + 1 + k] == t[nl + 1 + k - i]);
            assert(t[nl + 1 + k - i] == er[k]);
        }
        assert(s.subrange(nl + 1, e) =~= er);
        assert forall|k: int| 0 <= k < hs.drop_first().len() implies header_fits(
            #[trigger] hs.drop_first()[k],
        ) by {
            assert(hs.drop_first()[k] == hs[k + 1]);
        }
        lemma_block_end(s, nl + 1, e, hs.drop_first());
    }
}

/// The heading line of each kind, as bytes, is read back as that kind, with
/// the whole line used, whatever follows it.
pub proof fn lemma_heading_bytes(t: MessageType, rest: Seq<u8>)
    ensures
        first_line_spec(encode_utf8(heading_of(t) + "\n"@) + rest) == Ok::<(MessageType, int), Fault>(
            (t, heading_of(t).len() as int + 1),
        ),
{
    reveal_strlit("\n");
    let hd = heading_of(t);
    lemma_heading(t);
    is_ascii_chars_encode_utf8(hd);
    lemma_newline_bytes();
    lemma_encode_concat(hd, "\n"@);
    let eh = encode_utf8(hd);
    let hl = hd.len() as int;
    let s = encode_utf8(hd + "\n"@) + rest;
    assert(s =~= eh + (seq![10u8] + rest));
    assert forall|k: int| 0 <= k < hl implies s[k] == #[trigger] hd[k] as u8 by {
        assert(s[k] == eh[k]);
    }
    assert(s[hl] == 10u8);
    assert(48 <= s[0] <= 57 && 48 <= s[1] <= 57 && 48 <= s[2] <= 57 && s[3] == 32);
    assert(skip_digit_bytes(s, 3) == 3);
    assert(skip_digit_bytes(s, 2) == 3);
    assert(skip_digit_bytes(s, 1) == 3);
    assert(skip_digit_bytes(s, 0) == 3);
    assert forall|k: int| 3 <= k < hl implies s[k] != 10u8 by {
        assert(s[k] == hd[k] as u8);
    }
    lemma_find_byte(s, 10u8, 3, hl);
    lemma_code_description_bijection(t, t);
}

proof fn lemma_wire_bytes_then(m: (MessageType, Seq<HeaderView>), rest: Seq<u8>)
    requires
        forall|k: int| 0 <= k < m.1.len() ==> header_fits(#[trigger] m.1[k]),
    ensures
        ({
            let s = encode_utf8(wire(m)) + rest;
            let w = encode_utf8(wire(m)).len() as int;
            &&& first_line_spec(s) == Ok::<(MessageType, int), Fault>((m.0, heading_of(m.0).len() as int + 1))
            &&& block_end(s, heading_of(m.0).len() as int + 1) == Some(w)
            &&& s.subrange(heading_of(m.0).len() as int + 1, w) == encode_utf8(headers_text(m.1) + "\n"@)
        }),
{
    reveal_strlit("\n");
    let hd = heading_of(m.0);
    let big = headers_text(m.1) + "\n"@;
    lemma_heading(m.0);
    is_ascii_chars_encode_utf8(hd);
    lemma_newline_bytes();
    assert(wire(m) =~= (hd + "\n"@) + big);
    lemma_encode_concat(hd + "\n"@, big);
    lemma_encode_concat(hd, "\n"@);
    let hl = hd.len() as int;
    let s = encode_utf8(wire(m)) + rest;
    let w = encode_utf8(wire(m)).len() as int;
    assert(s =~= encode_utf8(hd + "\n"@) + (encode_utf8(big) + rest));
    lemma_heading_bytes(m.0, encode_utf8(big) + rest);
    assert(s.subrange(hl + 1, w) =~= encode_utf8(big));
    lemma_block_end(s, hl + 1, w, m.1);
}

/// Reading the UTF-8 bytes of a message's wire form gives the message back,
/// for every message whose headers fit the wire form.
pub proof fn lemma_round_trip_bytes(m: (MessageType, Seq<HeaderView>))
    requires
        forall|k: int| 0 <= k < m.1.len() ==> header_fits(#[trigger] m.1[k]),
    ensures
        parse_bytes_spec(encode_utf8(wire(m))) == Ok::<(MessageType, Seq<HeaderView>), Fault>(m),
{
    let s = encode_utf8(wire(m));
    lemma_wire_bytes_then(m, Seq::empty());
    assert(s + Seq::<u8>::empty() =~= s);
    let big = headers_text(m.1) + "\n"@;
    encode_utf8_valid_utf8(big);
    encode_utf8_decode_utf8(big);
    assert(big.subrange(0, big.len() as int) =~= big);
    lemma_parse_header_lines(big, 0, big.len() as int, m.1);
}

/// Bytes of any kind after the wire form of a message make it too much
/// data.
pub proof fn lemma_trailing_bytes(m: (MessageType, Seq<HeaderView>), rest: Seq<u8>)
    requires
        forall|k: int| 0 <= k < m.1.len() ==> header_fits(#[trigger] m.1[k]),
        rest.len() > 0,
    ensures
        parse_bytes_spec(encode_utf8(wire(m)) + rest) == Err::<(MessageType, Seq<HeaderView>), Fault>(
            Fault::TooMuchData,
        ),
{
    lemma_wire_bytes_then(m, rest);
    let big = headers_text(m.1) + "\n"@;
    encode_utf8_valid_utf8(big);
    encode_utf8_decode_utf8(big);
    assert(big.subrange(0, big.len() as int) =~= big);
    lemma_parse_header_lines(big, 0, big.len() as int, m.1);
}

} // verus!
