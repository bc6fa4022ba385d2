//! Messages of the line-oriented control protocol and their wire form.
use vstd::prelude::*;

verus! {

/// The closed set of message kinds, each with a numeric code.
#[derive(Debug, Clone, Copy, PartialEq, Eq, Structural)]
pub enum MessageType {
    Capabilities,
    Log,
    Status,
    URIStart,
    URIDone,
    URIFailure,
    GeneralFailure,
    URIAcquire,
    Configuration,
}

/// The numeric code of each message kind.
pub open spec fn code_of(t: MessageType) -> u16 {
    match t {
        MessageType::Capabilities => 100,
        MessageType::Log => 101,
        MessageType::Status => 102,
        MessageType::URIStart => 200,
        MessageType::URIDone => 201,
        MessageType::URIFailure => 400,
        MessageType::GeneralFailure => 401,
        MessageType::URIAcquire => 600,
        MessageType::Configuration => 601,
    }
}

/// The message kind that a numeric code stands for, if any.
pub open spec fn type_of_code(code: int) -> Option<MessageType> {
    if code == 100 {
        Some(MessageType::Capabilities)
    } else if code == 101 {
        Some(MessageType::Log)
    } else if code == 102 {
        Some(MessageType::Status)
    } else if code == 200 {
        Some(MessageType::URIStart)
    } else if code == 201 {
        Some(MessageType::URIDone)
    } else if code == 400 {
        Some(MessageType::URIFailure)
    } else if code == 401 {
        Some(MessageType::GeneralFailure)
    } else if code == 600 {
        Some(MessageType::URIAcquire)
    } else if code == 601 {
        Some(MessageType::Configuration)
    } else {
        None
    }
}

/// The human-readable description of each message kind.
pub open spec fn description_of(t: MessageType) -> Seq<char> {
    match t {
        MessageType::Capabilities => "Capabilities"@,
        MessageType::Log => "Log"@,
        MessageType::Status => "Status"@,
        MessageType::URIStart => "URI Start"@,
        MessageType::URIDone => "URI Done"@,
        MessageType::URIFailure => "URI Failure"@,
        MessageType::GeneralFailure => "General Failure"@,
        MessageType::URIAcquire => "URI Acquire"@,
        MessageType::Configuration => "Configuration"@,
    }
}

/// The first line of a message of this kind, without its newline:
/// the code, a space and the description.
pub open spec fn heading_of(t: MessageType) -> Seq<char> {
    match t {
        MessageType::Capabilities => "100 Capabilities"@,
        MessageType::Log => "101 Log"@,
        MessageType::Status => "102 Status"@,
        MessageType::URIStart => "200 URI Start"@,
        MessageType::URIDone => "201 URI Done"@,
        MessageType::URIFailure => "400 URI Failure"@,
        MessageType::GeneralFailure => "401 General Failure"@,
        MessageType::URIAcquire => "600 URI Acquire"@,
        MessageType::Configuration => "601 Configuration"@,
    }
}

impl MessageType {
    pub fn code(&self) -> (r: u16)
        ensures
            r == code_of(*self),
    {
        match self {
            MessageType::Capabilities => 100,
            MessageType::Log => 101,
            MessageType::Status => 102,
            MessageType::URIStart => 200,
            MessageType::URIDone => 201,
            MessageType::URIFailure => 400,
            MessageType::GeneralFailure => 401,
            MessageType::URIAcquire => 600,
            MessageType::Configuration => 601,
        }
    }

    pub fn description(&self) -> (r: &'static str)
        ensures
            r@ == description_of(*self),
    {
        match self {
            MessageType::Capabilities => "Capabilities",
            MessageType::Log => "Log",
            MessageType::Status => "Status",
            MessageType::URIStart => "URI Start",
            MessageType::URIDone => "URI Done",
            MessageType::URIFailure => "URI Failure",
            MessageType::GeneralFailure => "General Failure",
            MessageType::URIAcquire => "URI Acquire",
            MessageType::Configuration => "Configuration",
        }
    }

    /// The code followed by a space and the description.
    pub fn heading(&self) -> (r: &'static str)
        ensures
            r@ == heading_of(*self),
    {
        match self {
            MessageType::Capabilities => "100 Capabilities",
            MessageType::Log => "101 Log",
            MessageType::Status => "102 Status",
            MessageType::URIStart => "200 URI Start",
            MessageType::URIDone => "201 URI Done",
            MessageType::URIFailure => "400 URI Failure",
            MessageType::GeneralFailure => "401 General Failure",
            MessageType::URIAcquire => "600 URI Acquire",
            MessageType::Configuration => "601 Configuration",
        }
    }

    /// The message kind with the given code, if there is one.
    pub fn from_code(code: u16) -> (r: Option<MessageType>)
        ensures
            r == type_of_code(code as int),
    {
        match code {
            100 => Some(MessageType::Capabilities),
            101 => Some(MessageType::Log),
            102 => Some(MessageType::Status),
            200 => Some(MessageType::URIStart),
            201 => Some(MessageType::URIDone),
            400 => Some(MessageType::URIFailure),
            401 => Some(MessageType::GeneralFailure),
            600 => Some(MessageType::URIAcquire),
            601 => Some(MessageType::Configuration),
            _ => None,
        }
    }
}

/// Each kind's code leads back to that kind, and no two kinds share a code
/// or a description.
pub proof fn lemma_code_description_bijection(t: MessageType, u: MessageType)
    ensures
        type_of_code(code_of(t) as int) == Some(t),
        code_of(t) == code_of(u) ==> t == u,
        description_of(t) == description_of(u) ==> t == u,
{
    reveal_strlit("Capabilities");
    reveal_strlit("Log");
    reveal_strlit("Status");
    reveal_strlit("URI Start");
    reveal_strlit("URI Done");
    reveal_strlit("URI Failure");
    reveal_strlit("General Failure");
    reveal_strlit("URI Acquire");
    reveal_strlit("Configuration");
    if description_of(t) == description_of(u) && t != u {
        assert(description_of(t).len() == description_of(u).len());
        assert(description_of(t)[0] == description_of(u)[0]);
        assert(description_of(t)[4] == description_of(u)[4]);
    }
}


/// A header as the contracts see it: key and value as character sequences.
pub type HeaderView = (Seq<char>, Seq<char>);

/// Why a message could not be read, or a header could not be found.
#[derive(Debug, Clone, PartialEq, Eq)]
pub enum Error {
    /// The input breaks the wire grammar; the text says where.
    MessageParse(String),
    /// A well-formed message is followed by further bytes.
    MessageTooMuchData,
    /// No header has the key given.
    HeaderNotFound(String),
    /// The first line carries a code that no message kind has.
    UnknownMessageType(String),
}

/// A message: its kind and its headers, in order; keys may repeat.
#[derive(Debug, Clone, PartialEq, Eq)]
pub struct Message {
    pub message_type: MessageType,
    pub headers: Vec<(String, String)>,
}

pub open spec fn headers_view(hs: Seq<(String, String)>) -> Seq<HeaderView> {
    hs.map_values(|h: (String, String)| (h.0@, h.1@))
}

impl View for Message {
    type V = (MessageType, Seq<HeaderView>);

    open spec fn view(&self) -> (MessageType, Seq<HeaderView>) {
        (self.message_type, headers_view(self.headers@))
    }
}

/// The index of the first header at or after `i` whose key is `key`, or the
/// number of headers where there is none.
pub open spec fn key_index(hs: Seq<HeaderView>, key: Seq<char>, i: int) -> int
    decreases hs.len() - i,
{
    if i >= hs.len() {
        hs.len() as int
    } else if hs[i].0 == key {
        i
    } else {
        key_index(hs, key, i + 1)
    }
}

/// The value of the first header whose key is `key`.
pub open spec fn lookup(hs: Seq<HeaderView>, key: Seq<char>) -> Option<Seq<char>> {
    let i = key_index(hs, key, 0);
    if 0 <= i < hs.len() {
        Some(hs[i].1)
    } else {
        None
    }
}

/// A header list with `(key, value)` pairs from string slices.
pub open spec fn pairs_view(hs: Seq<(&str, &str)>) -> Seq<HeaderView> {
    hs.map_values(|h: (&str, &str)| (h.0@, h.1@))
}

pub open spec fn status_view(text: Seq<char>) -> (MessageType, Seq<HeaderView>) {
    (MessageType::Status, seq![("Message"@, text)])
}

pub open spec fn general_failure_view(text: Seq<char>) -> (MessageType, Seq<HeaderView>) {
    (MessageType::GeneralFailure, seq![("Message"@, text)])
}

pub open spec fn uri_failure_view(uri: Seq<char>, text: Seq<char>) -> (MessageType, Seq<HeaderView>) {
    (MessageType::URIFailure, seq![("URI"@, uri), ("Message"@, text)])
}

pub open spec fn uri_start_view(uri: Seq<char>, size: nat, last_modified: Seq<char>) -> (
    MessageType,
    Seq<HeaderView>,
) {
    (
        MessageType::URIStart,
        seq![("URI"@, uri), ("Size"@, decimal(size)), ("Last-Modified"@, last_modified)],
    )
}

/// The decimal digit for a value below ten.
pub open spec fn digit_char(d: nat) -> char {
    if d == 0 {
        '0'
    } else if d == 1 {
        '1'
    } else if d == 2 {
        '2'
    } else if d == 3 {
        '3'
    } else if d == 4 {
        '4'
    } else if d == 5 {
        '5'
    } else if d == 6 {
        '6'
    } else if d == 7 {
        '7'
    } else if d == 8 {
        '8'
    } else {
        '9'
    }
}

/// The decimal form of a number, without leading zeros.
pub open spec fn decimal(n: nat) -> Seq<char>
    decreases n,
{
    if n < 10 {
        seq![digit_char(n)]
    } else {
        decimal(n / 10).push(digit_char(n % 10))
    }
}

pub(crate) fn digit_str(d: u64) -> (r: &'static str)
    requires
        d < 10,
    ensures
        r@ == seq![digit_char(d as nat)],
{
    proof {
        reveal_strlit("0");
        reveal_strlit("1");
        reveal_strlit("2");
        reveal_strlit("3");
        reveal_strlit("4");
        reveal_strlit("5");
        reveal_strlit("6");
        reveal_strlit("7");
        reveal_strlit("8");
        reveal_strlit("9");
    }
    if d == 0 {
        "0"
    } else if d == 1 {
        "1"
    } else if d == 2 {
        "2"
    } else if d == 3 {
        "3"
    } else if d == 4 {
        "4"
    } else if d == 5 {
        "5"
    } else if d == 6 {
        "6"
    } else if d == 7 {
        "7"
    } else if d == 8 {
        "8"
    } else {
        "9"
    }
}

/// The decimal form of `n`.
pub fn decimal_string(n: u64) -> (r: String)
    ensures
        r@ == decimal(n as nat),
    decreases n,
{
    if n < 10 {
        String::from_str(digit_str(n))
    } else {
        let mut r = decimal_string(n / 10);
        r.append(digit_str(n % 10));
        r
    }
}

impl Message {
    /// A message of the given kind with the given headers, in order.
    pub fn new(message_type: MessageType, headers: Vec<(&str, &str)>) -> (r: Message)
        ensures
            r@ == (message_type, pairs_view(headers@)),
    {
        let mut out: Vec<(String, String)> = Vec::new();
        let mut i: usize = 0;
        while i < headers.len()
            invariant
                i <= headers.len(),
                headers_view(out@) == pairs_view(headers@.subrange(0, i as int)),
            decreases headers.len() - i,
        {
            let (k, v) = headers[i];
            let ghost before = out@;
            out.push((k.to_owned(), v.to_owned()));
            proof {
                assert(pairs_view(headers@.subrange(0, i + 1)) =~= pairs_view(
                    headers@.subrange(0, i as int),
                ).push((k@, v@)));
                assert(headers_view(out@) =~= headers_view(out@.drop_last()).push((k@, v@)));
                assert(out@.drop_last() == before);
            }
            i = i + 1;
        }
        assert(headers@.subrange(0, headers.len() as int) =~= headers@);
        Message { message_type, headers: out }
    }
}


/// The wire form of a header list: `key: value` and a newline for each.
pub open spec fn headers_text(hs: Seq<HeaderView>) -> Seq<char>
    decreases hs.len(),
{
    if hs.len() == 0 {
        Seq::empty()
    } else {
        headers_text(hs.drop_last()) + hs.last().0 + ": "@ + hs.last().1 + "\n"@
    }
}

/// The wire form of a message: its heading line, its header lines, and one
/// blank line.
pub open spec fn wire(m: (MessageType, Seq<HeaderView>)) -> Seq<char> {
    heading_of(m.0) + "\n"@ + headers_text(m.1) + "\n"@
}

impl Message {
    /// The status message that reports `message` to the controller.
    pub fn send_status(message: &str) -> (r: Message)
        ensures
            r@ == status_view(message@),
    {
        let r = Message::new(MessageType::Status, vec![("Message", message)]);
        assert(pairs_view(seq![("Message", message)]) =~= seq![("Message"@, message@)]);
        r
    }

    /// The general failure message that reports `message` to the controller.
    pub fn send_general_failure(message: &str) -> (r: Message)
        ensures
            r@ == general_failure_view(message@),
    {
        let r = Message::new(MessageType::GeneralFailure, vec![("Message", message)]);
        assert(pairs_view(seq![("Message", message)]) =~= seq![("Message"@, message@)]);
        r
    }

    /// The message announcing that the transfer of `uri` starts, with the
    /// object's size and last-modified time.
    pub fn send_uri_start(uri: &str, size: u64, last_modified: &str) -> (r: Message)
        ensures
            r@ == uri_start_view(uri@, size as nat, last_modified@),
    {
        let size_text = decimal_string(size);
        let st = size_text.as_str();
        let r = Message::new(
            MessageType::URIStart,
            vec![("URI", uri), ("Size", st), ("Last-Modified", last_modified)],
        );
        assert(pairs_view(seq![("URI", uri), ("Size", st), ("Last-Modified", last_modified)])
            =~= seq![("URI"@, uri@), ("Size"@, decimal(size as nat)), ("Last-Modified"@, last_modified@)]);
        r
    }

    /// The message reporting that `uri` could not be acquired, and why.
    pub fn build_uri_failure(uri: &str, message: &str) -> (r: Message)
        ensures
            r@ == uri_failure_view(uri@, message@),
    {
        let r = Message::new(MessageType::URIFailure, vec![("URI", uri), ("Message", message)]);
        assert(pairs_view(seq![("URI", uri), ("Message", message)]) =~= seq![("URI"@, uri@), ("Message"@, message@)]);
        r
    }

    /// The code and description of the message's kind, as on its first line.
    pub fn description(&self) -> (r: String)
        ensures
            r@ == heading_of(self.message_type),
    {
        String::from_str(self.message_type.heading())
    }

    /// The value of the first header whose key is `key`.
    pub fn header(&self, key: &str) -> (r: Result<&str, Error>)
        ensures
            match lookup(self@.1, key@) {
                Some(v) => r is Ok && r->Ok_0@ == v,
                None => r is Err && r->Err_0 is HeaderNotFound && r->Err_0->HeaderNotFound_0@ == key@,
            },
    {
        let ghost hs = self@.1;
        let wanted = key.to_owned();
        let mut i: usize = 0;
        while i < self.headers.len()
            invariant
                i <= self.headers.len(),
                hs == self@.1,
                wanted@ == key@,
                key_index(hs, key@, 0) == key_index(hs, key@, i as int),
            decreases self.headers.len() - i,
        {
            assert(hs[i as int] == (self.headers@[i as int].0@, self.headers@[i as int].1@));
            if self.headers[i].0 == wanted {
                return Ok(self.headers[i].1.as_str());
            }
            i = i + 1;
        }
        Err(Error::HeaderNotFound(wanted))
    }
}

impl Message {
    /// The value of the first `URI` header.
    pub fn uri(&self) -> (r: Result<&str, Error>)
        ensures
            match lookup(self@.1, "URI"@) {
                Some(v) => r is Ok && r->Ok_0@ == v,
                None => r is Err && r->Err_0 is HeaderNotFound && r->Err_0->HeaderNotFound_0@ == "URI"@,
            },
    {
        self.header("URI")
    }

    /// The value of the first `Filename` header.
    pub fn filename(&self) -> (r: Result<&str, Error>)
        ensures
            match lookup(self@.1, "Filename"@) {
                Some(v) => r is Ok && r->Ok_0@ == v,
                None => r is Err && r->Err_0 is HeaderNotFound && r->Err_0->HeaderNotFound_0@ == "Filename"@,
            },
    {
        self.header("Filename")
    }

    /// The message in its wire form.
    pub fn to_wire(&self) -> (r: String)
        ensures
            r@ == wire(self@),
    {
        let ghost hs = self@.1;
        let mut out = String::from_str(self.message_type.heading());
        out.append("\n");
        let mut i: usize = 0;
        while i < self.headers.len()
            invariant
                i <= self.headers.len(),
                hs == self@.1,
                out@ == heading_of(self.message_type) + "\n"@ + headers_text(hs.subrange(0, i as int)),
            decreases self.headers.len() - i,
        {
            assert(hs[i as int] == (self.headers@[i as int].0@, self.headers@[i as int].1@));
            out.append(self.headers[i].0.as_str());
            out.append(": ");
            out.append(self.headers[i].1.as_str());
            out.append("\n");
            proof {
                let next = hs.subrange(0, i + 1);
                assert(next.drop_last() =~= hs.subrange(0, i as int));
                assert(next.last() == hs[i as int]);
                assert(out@ =~= heading_of(self.message_type) + "\n"@ + headers_text(next));
            }
            i = i + 1;
        }
        assert(hs.subrange(0, self.headers.len() as int) =~= hs);
        out.append("\n");
        out
    }
}

/// The text that describes an error.
pub open spec fn error_text(e: Error) -> Seq<char> {
    match e {
        Error::MessageParse(d) => "Failed to parse message: "@ + d@,
        Error::MessageTooMuchData => "Too much message data"@,
        Error::HeaderNotFound(k) => "Header not found: "@ + k@,
        Error::UnknownMessageType(c) => "Unknown message type: "@ + c@,
    }
}

impl Error {
    /// The text that describes this error.
    pub fn text(&self) -> (r: String)
        ensures
            r@ == error_text(*self),
    {
        match self {
            Error::MessageParse(d) => {
                let mut r = String::from_str("Failed to parse message: ");
                r.append(d.as_str());
                r
            },
            Error::MessageTooMuchData => String::from_str("Too much message data"),
            Error::HeaderNotFound(k) => {
                let mut r = String::from_str("Header not found: ");
                r.append(k.as_str());
                r
            },
            Error::UnknownMessageType(c) => {
                let mut r = String::from_str("Unknown message type: ");
                r.append(c.as_str());
                r
            },
        }
    }
}

/// Lookup gives the value of the first header with the key, and finds
/// nothing exactly when no header has the key.
pub proof fn lemma_lookup_first(hs: Seq<HeaderView>, key: Seq<char>, i: int)
    requires
        0 <= i < hs.len(),
        hs[i].0 == key,
        forall|j: int| 0 <= j < i ==> hs[j].0 != key,
    ensures
        lookup(hs, key) == Some(hs[i].1),
{
    lemma_key_index_skips(hs, key, 0, i);
}

/// No header with the key: lookup finds nothing.
pub proof fn lemma_lookup_absent(hs: Seq<HeaderView>, key: Seq<char>)
    requires
        forall|j: int| 0 <= j < hs.len() ==> hs[j].0 != key,
    ensures
        lookup(hs, key) is None,
{
    lemma_key_index_skips(hs, key, 0, hs.len() as int);
}

proof fn lemma_key_index_skips(hs: Seq<HeaderView>, key: Seq<char>, i: int, j: int)
    requires
        0 <= i <= j <= hs.len(),
        forall|k: int| i <= k < j ==> hs[k].0 != key,
    ensures
        key_index(hs, key, i) == key_index(hs, key, j),
    decreases j - i,
{
    if i < j {
        lemma_key_index_skips(hs, key, i + 1, j);
    }
}

} // verus!
