//! Cutting the input stream into messages: each block of lines up to and
//! including a blank line is one message.
use vstd::prelude::*;
use crate::message::{Error, HeaderView, Message, MessageType};
use crate::parse::reads_as;

verus! {

/// The lines read since the last blank line.
pub struct Framer {
    buffer: Vec<u8>,
}

impl View for Framer {
    type V = Seq<u8>;

    closed spec fn view(&self) -> Seq<u8> {
        self.buffer@
    }
}

/// The line that ends a message block.
pub open spec fn blank_line() -> Seq<u8> {
    seq![10u8]
}

impl Framer {
    /// A framer that holds nothing yet.
    pub fn new() -> (r: Framer)
        ensures
            r@ == Seq::<u8>::empty(),
    {
        Framer { buffer: Vec::new() }
    }

    /// Takes in one line, with its newline. A blank line completes the block:
    /// the block is read as a message, whatever the outcome, and the framer
    /// starts afresh. Any other line is held.
    pub fn feed(&mut self, line: &[u8]) -> (r: Option<Result<Message, Error>>)
        ensures
            line@ == blank_line() ==> final(self)@ == Seq::<u8>::empty() && (r matches Some(p)
                && reads_as(p, old(self)@ + line@)),
            line@ != blank_line() ==> final(self)@ == old(self)@ + line@ && r is None,
    {
        let mut i: usize = 0;
        while i < line.len()
            invariant
                i <= line@.len(),
                self.buffer@ == old(self).buffer@ + line@.subrange(0, i as int),
            decreases line.len() - i,
        {
            self.buffer.push(line[i]);
            assert(line@.subrange(0, i + 1) =~= line@.subrange(0, i as int).push(line@[i as int]));
            i = i + 1;
        }
        assert(line@.subrange(0, line.len() as int) =~= line@);
        if line.len() == 1 && line[0] == 10u8 {
            assert(line@ =~= blank_line());
            let outcome = Message::from_bytes(self.buffer.as_slice());
            self.buffer.clear();
            Some(outcome)
        } else {
            assert(line@ != blank_line());
            None
        }
    }
}

pub open spec fn capabilities_view(version: Seq<char>) -> (MessageType, Seq<HeaderView>) {
    (
        MessageType::Capabilities,
        seq![
            ("Version"@, version),
            ("Send-Config"@, "true"@),
            ("Single-Instance"@, "true"@),
        ],
    )
}

/// The message that opens a run: the agent's version and the options it
/// asks for.
pub fn send_capabilities(version: &str) -> (r: Message)
    ensures
        r@ == capabilities_view(version@),
{
    let r = Message::new(
        MessageType::Capabilities,
        vec![("Version", version), ("Send-Config", "true"), ("Single-Instance", "true")],
    );
    assert(crate::message::pairs_view(
        seq![("Version", version), ("Send-Config", "true"), ("Single-Instance", "true")],
    ) =~= capabilities_view(version@).1);
    r
}

} // verus!
