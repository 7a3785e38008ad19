//! The rules of the connection: when the text received so far is the whole
//! request, and what of it is written to the access log.
//!
//! The caller owns the socket. After each attempt to read it reports what
//! came, and is told what to do next.

use crate::text::to_chars;
use vstd::prelude::*;

verus! {

/// What an attempt to read from the peer gave.
#[derive(Debug)]
pub enum Received {
    /// The read failed or timed out.
    Failed,
    /// The read gave `length` bytes; `text` is those bytes as text, or `None`
    /// where they are not text.
    Chunk { length: usize, text: Option<String> },
}

/// What was received, in contracts.
pub enum ReceivedModel {
    Failed,
    Chunk { length: nat, text: Option<Seq<char>> },
}

impl View for Received {
    type V = ReceivedModel;

    open spec fn view(&self) -> ReceivedModel {
        match *self {
            Received::Failed => ReceivedModel::Failed,
            Received::Chunk { length, text } => ReceivedModel::Chunk {
                length: length as nat,
                text: match text {
                    Some(text) => Some(text@),
                    None => None,
                },
            },
        }
    }
}

/// What the caller is to do after a read.
#[derive(Debug, Clone, Copy, PartialEq, Eq, Structural)]
pub enum Next {
    /// Nothing came and nothing will: close without a response.
    Abandon,
    /// The request may go on: wait, then read again.
    Wait,
    /// The request is complete: process it and send the response.
    Respond,
}

/// The request text after a read: what was there, followed by the text that
/// came. Bytes that are not text are left out.
pub open spec fn buffered(request: Seq<char>, received: ReceivedModel) -> Seq<char> {
    match received {
        ReceivedModel::Chunk { text: Some(text), .. } => request + text,
        _ => request,
    }
}

/// What to do after a read. A request is complete as soon as a read gives
/// nothing while some text is there; a failed read counts as one that gives
/// nothing, unless no text is there at all.
pub open spec fn decide(request: Seq<char>, received: ReceivedModel) -> Next {
    match received {
        ReceivedModel::Failed => if request.len() == 0 {
            Next::Abandon
        } else {
            Next::Respond
        },
        ReceivedModel::Chunk { length, .. } => if buffered(request, received).len() > 0 && length
            == 0 {
            Next::Respond
        } else {
            Next::Wait
        },
    }
}

/// Whether a line end, a carriage return and a line feed, stands in `text`
/// at the index `at`.
pub open spec fn line_end_at(text: Seq<char>, at: int) -> bool {
    0 <= at && at + 1 < text.len() && text[at] == '\r' && text[at + 1] == '\n'
}

/// The index of the first line end in `text`, or the length of the text
/// where there is none.
pub open spec fn first_line_end(text: Seq<char>) -> int
    decreases text.len(),
{
    if text.len() < 2 {
        text.len() as int
    } else if line_end_at(text, 0) {
        0
    } else {
        let later = first_line_end(text.drop_first());
        if later == text.len() - 1 {
            text.len() as int
        } else {
            later + 1
        }
    }
}

/// What the access log quotes of a request: its first line, without the
/// line end. A text without any line end is quoted as empty.
pub open spec fn quoted_line(text: Seq<char>) -> Seq<char> {
    if first_line_end(text) == text.len() {
        Seq::<char>::empty()
    } else {
        text.take(first_line_end(text))
    }
}

/// Takes in what a read gave and says what to do next.
pub fn receive(request: &mut String, received: Received) -> (next: Next)
    ensures
        final(request)@ == buffered(old(request)@, received@),
        next == decide(old(request)@, received@),
{
    match received {
        Received::Failed => {
            if request.as_str().is_empty() {
                Next::Abandon
            } else {
                Next::Respond
            }
        },
        Received::Chunk { length, text } => {
            match text {
                Some(text) => {
                    request.append(text.as_str());
                },
                None => {},
            }
            if !request.as_str().is_empty() && length == 0 {
                Next::Respond
            } else {
                Next::Wait
            }
        },
    }
}

/// Within `text[from..]`, the first line end lies where it lies in the whole
/// text, if the text before `from` holds the start of none.
proof fn lemma_first_line_end(text: Seq<char>, from: int)
    requires
        0 <= from <= text.len(),
        forall|j: int| 0 <= j < from ==> !line_end_at(text, j),
    ensures
        first_line_end(text) == if first_line_end(text.skip(from)) == text.len() - from {
            text.len() as int
        } else {
            from + first_line_end(text.skip(from))
        },
    decreases from,
{
    if from == 0 {
        assert(text.skip(0) =~= text);
    } else {
        let rest = text.drop_first();
        assert forall|j: int| 0 <= j < from - 1 implies !line_end_at(rest, j) by {
            assert(!line_end_at(text, j + 1));
        }
        lemma_first_line_end(rest, from - 1);
        assert(rest.skip(from - 1) =~= text.skip(from));
        assert(!line_end_at(text, 0));
    }
}

/// The first line of a request as the access log quotes it.
pub fn first_line(request: &str) -> (line: String)
    ensures
        line@ == quoted_line(request@),
{
    let chars = to_chars(request);
    if chars.len() < 2 {
        return String::new();
    }
    let last = chars.len() - 1;
    let mut i: usize = 0;
    while i < last && !(chars[i] == '\r' && chars[i + 1] == '\n')
        invariant
            i <= last,
            last + 1 == chars.len(),
            forall|j: int| 0 <= j < i ==> !line_end_at(chars@, j),
        decreases last - i,
    {
        i += 1;
    }
    proof {
        lemma_first_line_end(chars@, i as int);
        let rest = chars@.skip(i as int);
        if i < last {
            assert(rest[0] == chars@[i as int]);
            assert(rest[1] == chars@[i + 1]);
            assert(line_end_at(rest, 0));
        } else {
            assert(rest.len() < 2);
        }
    }
    if i < last {
        String::from_str(request.substring_char(0, i))
    } else {
        String::new()
    }
}

} // verus!
