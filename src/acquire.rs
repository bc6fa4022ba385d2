//! Answering inbound messages: the acquisition of a blob, one step per event.
//!
//! The caller performs each command (resolve the blob, check that it exists,
//! read its properties, download it, write the file) and reports what came
//! of it as an event; the step that follows says which messages to send and
//! what to do next.
use vstd::prelude::*;
use crate::location::{
    BlobLocation, blob_location, location_spec, option_strings_view, option_view,
};
use crate::message::{
    Error, HeaderView, Message, MessageType, error_text, general_failure_view, lookup, status_view,
    uri_failure_view, uri_start_view,
};

verus! {

/// What `url::Url::parse` makes of a text: the URL's host and path segments,
/// or the description of why the text is no absolute URL.
pub uninterp spec fn url_parts_of(s: Seq<char>) -> Result<(Option<Seq<char>>, Option<Seq<Seq<char>>>), Seq<char>>;

/// Relies on `url::Url::parse`, read through `Url::host_str` and
/// `Url::path_segments` (at least one segment where there are any), and on
/// the `Display` of `url::ParseError`: the result depends on the text alone.
#[verifier::external_body]
fn url_parts(s: &str) -> (r: Result<(Option<String>, Option<Vec<String>>), String>)
    ensures
        match r {
            Ok(p) => url_parts_of(s@) == Ok::<_, Seq<char>>((option_view(p.0), option_strings_view(p.1))),
            Err(e) => url_parts_of(s@) == Err::<(Option<Seq<char>>, Option<Seq<Seq<char>>>), _>(e@),
        },
        r matches Ok(p) ==> (p.1 matches Some(v) ==> v@.len() >= 1),
{
    match url::Url::parse(s) {
        Ok(u) => Ok((
            u.host_str().map(str::to_owned),
            u.path_segments().map(|p| p.map(str::to_owned).collect()),
        )),
        Err(e) => Err(e.to_string()),
    }
}

/// The location that the text `s` names as a URL, or why it names none.
pub open spec fn locate_spec(s: Seq<char>) -> Result<(Seq<char>, Seq<char>, Seq<char>), Seq<char>> {
    match url_parts_of(s) {
        Err(e) => Err(e),
        Ok(p) => location_spec(p.0, p.1),
    }
}

/// Where an acquisition stands: the command it waits on.
#[derive(Debug, Clone, Copy, PartialEq, Eq, Structural)]
pub enum Stage {
    Resolving,
    CheckingExistence,
    FetchingProperties,
    Downloading,
    Writing,
}

/// An acquisition under way: the object's URI, the file to write it to, and
/// the stage reached.
#[derive(Debug)]
pub struct Acquisition {
    pub uri: String,
    pub filename: String,
    pub stage: Stage,
}

impl View for Acquisition {
    type V = (Seq<char>, Seq<char>, Stage);

    open spec fn view(&self) -> (Seq<char>, Seq<char>, Stage) {
        (self.uri@, self.filename@, self.stage)
    }
}

/// What the caller is to do for an acquisition.
#[derive(Debug)]
pub enum Command {
    /// Get a handle on the blob at this location.
    Resolve(BlobLocation),
    /// Ask whether the blob exists.
    CheckExists,
    /// Read the blob's size and last-modified time.
    FetchProperties,
    /// Download the blob's contents.
    Download,
    /// Write the downloaded contents to this file.
    WriteFile(String),
}

/// What came of a command.
#[derive(Debug)]
pub enum Event {
    /// The command succeeded (resolving, downloading or writing).
    Completed,
    /// Whether the blob exists.
    Exists(bool),
    /// The blob's size and last-modified time.
    Properties(u64, String),
    /// The command failed, with the error's description.
    Failed(String),
}

/// What follows a step.
#[derive(Debug)]
pub enum Next {
    /// Nothing more is to be done for this message.
    Finished,
    /// Perform the command and report its event to the acquisition.
    Continue(Acquisition, Command),
    /// The run cannot go on.
    Fatal(Error),
}

/// The messages to send, in order, and what follows.
#[derive(Debug)]
pub struct Step {
    pub emit: Vec<Message>,
    pub next: Next,
}

pub open spec fn messages_view(v: Seq<Message>) -> Seq<(MessageType, Seq<HeaderView>)> {
    v.map_values(|m: Message| m@)
}

/// The text that reports a failure with the given description.
pub open spec fn failure_text(detail: Seq<char>) -> Seq<char> {
    "Error: "@ + detail
}

pub open spec fn waiting_view() -> (MessageType, Seq<HeaderView>) {
    status_view("Waiting for headers"@)
}

pub open spec fn uri_done_view(uri: Seq<char>, filename: Seq<char>) -> (MessageType, Seq<HeaderView>) {
    (MessageType::URIDone, seq![("URI"@, uri), ("Filename"@, filename)])
}

/// The step continues with the acquisition `(uri, filename, stage)`.
pub open spec fn continues_at(n: Next, uri: Seq<char>, filename: Seq<char>, stage: Stage) -> bool {
    n matches Next::Continue(a, _) && a@ == (uri, filename, stage)
}

/// The events that an acquisition at each stage can be given.
pub open spec fn accepts_spec(stage: Stage, event: Event) -> bool {
    match event {
        Event::Failed(_) => true,
        Event::Completed => stage == Stage::Resolving || stage == Stage::Downloading || stage
            == Stage::Writing,
        Event::Exists(_) => stage == Stage::CheckingExistence,
        Event::Properties(_, _) => stage == Stage::FetchingProperties,
    }
}

fn failure_message(detail: &str) -> (r: String)
    ensures
        r@ == failure_text(detail@),
{
    let mut r = String::from_str("Error: ");
    r.append(detail);
    r
}

fn finish_with(m: Message) -> (r: Step)
    ensures
        messages_view(r.emit@) == seq![m@],
        r.next is Finished,
{
    let emit = vec![m];
    assert(messages_view(emit@) =~= seq![m@]);
    Step { emit, next: Next::Finished }
}

fn go_on(a: Acquisition, c: Command) -> (r: Step)
    ensures
        r.emit@.len() == 0,
        r.next == Next::Continue(a, c),
{
    Step { emit: Vec::new(), next: Next::Continue(a, c) }
}

/// The general failure message that reports a fatal error.
pub fn fatal_report(e: &Error) -> (r: Message)
    ensures
        r@ == general_failure_view(failure_text(error_text(*e))),
{
    let text = failure_message(e.text().as_str());
    Message::send_general_failure(text.as_str())
}

impl Acquisition {
    /// The first step of acquiring `uri` into `filename`, once the URI has
    /// been read as a blob location, or has failed to be read as one.
    pub fn begin(uri: &str, filename: &str, location: Result<BlobLocation, String>) -> (r: Step)
        ensures
            match location {
                Ok(l) => r.emit@.len() == 0 && continues_at(
                    r.next,
                    uri@,
                    filename@,
                    Stage::Resolving,
                ) && (r.next->Continue_1 matches Command::Resolve(m) && m@ == l@),
                Err(e) => messages_view(r.emit@) == seq![
                    uri_failure_view(uri@, failure_text(e@)),
                ] && r.next is Finished,
            },
    {
        match location {
            Ok(l) => go_on(
                Acquisition {
                    uri: uri.to_owned(),
                    filename: filename.to_owned(),
                    stage: Stage::Resolving,
                },
                Command::Resolve(l),
            ),
            Err(e) => {
                let text = failure_message(e.as_str());
                finish_with(Message::build_uri_failure(uri, text.as_str()))
            },
        }
    }

    /// Whether this acquisition can be given `event` at its stage.
    pub fn accepts(&self, event: &Event) -> (r: bool)
        ensures
            r == accepts_spec(self.stage, *event),
    {
        match event {
            Event::Failed(_) => true,
            Event::Completed => match self.stage {
                Stage::Resolving | Stage::Downloading | Stage::Writing => true,
                _ => false,
            },
            Event::Exists(_) => match self.stage {
                Stage::CheckingExistence => true,
                _ => false,
            },
            Event::Properties(_, _) => match self.stage {
                Stage::FetchingProperties => true,
                _ => false,
            },
        }
    }
}

impl Acquisition {
    /// The step that follows `event`, the outcome of this acquisition's
    /// command. Any failure ends the acquisition with a URI failure that
    /// carries the error's description; a blob that does not exist ends it
    /// with a URI failure that says so; the properties are announced in a URI
    /// start; a written file ends it with a URI done.
    pub fn resume(self, event: Event) -> (r: Step)
        requires
            accepts_spec(self.stage, event),
        ensures
            match event {
                Event::Failed(d) => messages_view(r.emit@) == seq![
                    uri_failure_view(self.uri@, failure_text(d@)),
                ] && r.next is Finished,
                Event::Completed => match self.stage {
                    Stage::Resolving => r.emit@.len() == 0 && continues_at(
                        r.next,
                        self.uri@,
                        self.filename@,
                        Stage::CheckingExistence,
                    ) && r.next->Continue_1 is CheckExists,
                    Stage::Downloading => r.emit@.len() == 0 && continues_at(
                        r.next,
                        self.uri@,
                        self.filename@,
                        Stage::Writing,
                    ) && (r.next->Continue_1 matches Command::WriteFile(f) && f@ == self.filename@),
                    _ => messages_view(r.emit@) == seq![uri_done_view(self.uri@, self.filename@)]
                        && r.next is Finished,
                },
                Event::Exists(b) => if b {
                    r.emit@.len() == 0 && continues_at(
                        r.next,
                        self.uri@,
                        self.filename@,
                        Stage::FetchingProperties,
                    ) && r.next->Continue_1 is FetchProperties
                } else {
                    messages_view(r.emit@) == seq![
                        uri_failure_view(self.uri@, "Blob does not exist"@),
                    ] && r.next is Finished
                },
                Event::Properties(size, modified) => messages_view(r.emit@) == seq![
                    uri_start_view(self.uri@, size as nat, modified@),
                ] && continues_at(r.next, self.uri@, self.filename@, Stage::Downloading)
                    && r.next->Continue_1 is Download,
            },
    {
        let Acquisition { uri, filename, stage } = self;
        match event {
            Event::Failed(d) => {
                let text = failure_message(d.as_str());
                finish_with(Message::build_uri_failure(uri.as_str(), text.as_str()))
            },
            Event::Completed => match stage {
                Stage::Resolving => go_on(
                    Acquisition { uri, filename, stage: Stage::CheckingExistence },
                    Command::CheckExists,
                ),
                Stage::Downloading => {
                    let target = filename.clone();
                    go_on(
                        Acquisition { uri, filename, stage: Stage::Writing },
                        Command::WriteFile(target),
                    )
                },
                _ => {
                    let u = uri.as_str();
                    let f = filename.as_str();
                    let done = Message::new(MessageType::URIDone, vec![("URI", u), ("Filename", f)]);
                    assert(crate::message::pairs_view(seq![("URI", u), ("Filename", f)]) =~= seq![
                        ("URI"@, uri@),
                        ("Filename"@, filename@),
                    ]);
                    finish_with(done)
                },
            },
            Event::Exists(b) => {
                if b {
                    go_on(
                        Acquisition { uri, filename, stage: Stage::FetchingProperties },
                        Command::FetchProperties,
                    )
                } else {
                    finish_with(Message::build_uri_failure(uri.as_str(), "Blob does not exist"))
                }
            },
            Event::Properties(size, modified) => {
                let start = Message::send_uri_start(uri.as_str(), size, modified.as_str());
                let emit = vec![start];
                assert(messages_view(emit@) =~= seq![emit@[0]@]);
                Step {
                    emit,
                    next: Next::Continue(
                        Acquisition { uri, filename, stage: Stage::Downloading },
                        Command::Download,
                    ),
                }
            },
        }
    }
}

/// The location that `uri` names, or the description of why it names none.
pub fn locate(uri: &str) -> (r: Result<BlobLocation, String>)
    ensures
        match locate_spec(uri@) {
            Ok(l) => r is Ok && r->Ok_0@ == l,
            Err(e) => r is Err && r->Err_0@ == e,
        },
{
    match url_parts(uri) {
        Err(e) => Err(e),
        Ok((host, segments)) => blob_location(host, segments),
    }
}

/// The acquisition that `message` asks for, whatever its kind: without a
/// `URI` header it is fatal; without a `Filename` header it ends in a URI
/// failure; otherwise it begins from the location that the URI names.
pub fn uri_acquire(message: &Message) -> (r: Step)
    ensures
        match lookup(message@.1, "URI"@) {
            None => r.emit@.len() == 0 && (r.next matches Next::Fatal(e) && e is HeaderNotFound
                && e->HeaderNotFound_0@ == "URI"@),
            Some(u) => match lookup(message@.1, "Filename"@) {
                None => messages_view(r.emit@) == seq![
                    uri_failure_view(u, failure_text("Header not found: Filename"@)),
                ] && r.next is Finished,
                Some(f) => match locate_spec(u) {
                    Ok(l) => r.emit@.len() == 0 && continues_at(r.next, u, f, Stage::Resolving)
                        && (r.next->Continue_1 matches Command::Resolve(m) && m@ == l),
                    Err(e) => messages_view(r.emit@) == seq![
                        uri_failure_view(u, failure_text(e)),
                    ] && r.next is Finished,
                },
            },
        },
{
    let uri = match message.uri() {
        Err(e) => {
            return Step { emit: Vec::new(), next: Next::Fatal(e) };
        },
        Ok(u) => u,
    };
    let filename = match message.filename() {
        Err(e) => {
            let text = failure_message(e.text().as_str());
            proof {
                reveal_strlit("Header not found: ");
                reveal_strlit("Filename");
                reveal_strlit("Header not found: Filename");
                assert(error_text(e) =~= "Header not found: Filename"@);
            }
            return finish_with(Message::build_uri_failure(uri, text.as_str()));
        },
        Ok(f) => f,
    };
    Acquisition::begin(uri, filename, locate(uri))
}

/// The answer to an inbound message. A configuration message, and any kind
/// the agent only sends, needs nothing. An acquire request is answered with
/// a status saying that it waits for headers, followed by what
/// `uri_acquire` makes of it.
pub fn process(message: &Message) -> (r: Step)
    ensures
        message.message_type != MessageType::URIAcquire ==> r.emit@.len() == 0 && r.next is Finished,
        message.message_type == MessageType::URIAcquire ==> r.emit@.len() >= 1 && r.emit@[0]@
            == waiting_view() && match lookup(message@.1, "URI"@) {
            None => r.emit@.len() == 1 && (r.next matches Next::Fatal(e) && e is HeaderNotFound
                && e->HeaderNotFound_0@ == "URI"@),
            Some(u) => match lookup(message@.1, "Filename"@) {
                None => messages_view(r.emit@) == seq![
                    waiting_view(),
                    uri_failure_view(u, failure_text("Header not found: Filename"@)),
                ] && r.next is Finished,
                Some(f) => match locate_spec(u) {
                    Ok(l) => r.emit@.len() == 1 && continues_at(r.next, u, f, Stage::Resolving)
                        && (r.next->Continue_1 matches Command::Resolve(m) && m@ == l),
                    Err(e) => messages_view(r.emit@) == seq![
                        waiting_view(),
                        uri_failure_view(u, failure_text(e)),
                    ] && r.next is Finished,
                },
            },
        },
{
    match message.message_type {
        MessageType::URIAcquire => {},
        _ => {
            return Step { emit: Vec::new(), next: Next::Finished };
        },
    }
    let mut emit: Vec<Message> = Vec::new();
    emit.push(Message::send_status("Waiting for headers"));
    let Step { emit: mut more, next } = uri_acquire(message);
    let ghost first = emit@[0];
    let ghost added = more@;
    emit.append(&mut more);
    proof {
        assert(emit@ == seq![first] + added);
        assert(messages_view(emit@) =~= seq![first@] + messages_view(added));
    }
    Step { emit, next }
}

} // verus!
