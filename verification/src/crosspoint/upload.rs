//! The upload conversation: what is said over the socket, and which bytes go
//! out between two acknowledgements.
use crate::text;
use vstd::prelude::*;

pub mod laws;

verus! {

broadcast use vstd::string::group_string_axioms;

/// How much goes out before the reader has to acknowledge it. Waiting keeps
/// network buffering from outrunning the writer of the card.
pub const WINDOW: usize = 65536;

/// How much goes out in one message.
pub const FRAME: usize = 4096;

/// A part of the book: its bytes from `from` up to `to`.
#[derive(Clone, Copy, Debug, PartialEq, Eq, Structural)]
pub struct Frame {
    pub from: usize,
    pub to: usize,
}

/// What an upload waits for.
#[derive(Clone, Copy, Debug, PartialEq, Eq, Structural)]
pub enum Wait {
    Ready,
    Progress,
    Done,
    Finished,
}

/// An upload under way: `sent` of `total` bytes have gone out.
#[derive(Clone, Copy, Debug, PartialEq, Eq, Structural)]
pub struct Upload {
    pub sent: usize,
    pub total: usize,
    pub wait: Wait,
}

/// The parts that bytes go out in, each as long as one message but the last.
pub open spec fn frames(from: int, to: int) -> Seq<Frame>
    decreases to - from,
{
    if from >= to {
        Seq::empty()
    } else if to - from <= FRAME {
        seq![Frame { from: from as usize, to: to as usize }]
    } else {
        seq![Frame { from: from as usize, to: (from + FRAME) as usize }] + frames(from + FRAME, to)
    }
}

/// The bytes of several parts, one after the other.
pub open spec fn sent_bytes(data: Seq<u8>, parts: Seq<Frame>) -> Seq<u8>
    decreases parts.len(),
{
    if parts.len() == 0 {
        Seq::empty()
    } else {
        data.subrange(parts[0].from as int, parts[0].to as int) + sent_bytes(
            data,
            parts.drop_first(),
        )
    }
}

/// The parts of a stretch of a book are that stretch: no byte is left out, none
/// goes out twice, and none goes out before its turn. No part is longer than
/// one message.
pub proof fn frames_are_the_bytes(data: Seq<u8>, from: int, to: int)
    requires
        0 <= from <= to <= data.len(),
        to <= usize::MAX,
    ensures
        sent_bytes(data, frames(from, to)) == data.subrange(from, to),
        forall|i: int|
            0 <= i < frames(from, to).len() ==> 0 < (#[trigger] frames(from, to)[i]).to
                - frames(from, to)[i].from <= FRAME,
    decreases to - from,
{
    let parts = frames(from, to);
    reveal_with_fuel(sent_bytes, 2);
    if from >= to {
        assert(data.subrange(from, to) =~= Seq::<u8>::empty());
    } else if to - from <= FRAME {
        assert(parts.drop_first() =~= Seq::<Frame>::empty());
        assert(data.subrange(from, to) + Seq::<u8>::empty() =~= data.subrange(from, to));
    } else {
        frames_are_the_bytes(data, from + FRAME, to);
        assert(parts.drop_first() =~= frames(from + FRAME, to));
        assert(data.subrange(from, from + FRAME) + data.subrange(from + FRAME, to)
            =~= data.subrange(from, to));
        assert forall|i: int| 0 <= i < parts.len() implies 0 < (#[trigger] parts[i]).to
            - parts[i].from <= FRAME by {
            if i > 0 {
                assert(parts[i] == frames(from + FRAME, to)[i - 1]);
            }
        }
    }
}

/// Where the window that starts at `sent` ends.
pub open spec fn window_end(sent: int, total: int) -> int {
    if total - sent <= WINDOW {
        total
    } else {
        sent + WINDOW
    }
}

/// What an upload does once what it waited for has been said: it goes on with
/// the next window, or waits for the end.
pub open spec fn onward(u: Upload) -> (Upload, Seq<Frame>) {
    if u.sent < u.total {
        let end = window_end(u.sent as int, u.total as int);
        (
            Upload { sent: end as usize, wait: Wait::Progress, ..u },
            frames(u.sent as int, end),
        )
    } else {
        (Upload { wait: Wait::Done, ..u }, Seq::empty())
    }
}

/// What an upload waits to hear.
pub open spec fn awaited(u: Upload) -> Seq<char> {
    match u.wait {
        Wait::Ready => "READY"@,
        Wait::Progress => "PROGRESS:"@ + text::decimal(u.sent as nat) + ":"@ + text::decimal(
            u.total as nat,
        ),
        Wait::Done => "DONE"@,
        Wait::Finished => Seq::empty(),
    }
}

/// What is said of an answer that is not what was waited for.
pub open spec fn surprise(u: Upload) -> Seq<char> {
    match u.wait {
        Wait::Ready => "Reader did not acknowledge upload start"@,
        Wait::Progress => "Reader acknowledged an unexpected byte count"@,
        _ => "Reader did not confirm upload completion"@,
    }
}

/// How an upload goes on after an answer, and what goes out next.
pub open spec fn heard(u: Upload, answer: Seq<char>) -> Result<(Upload, Seq<Frame>), Seq<char>> {
    if text::starts(answer, "ERROR:"@) {
        Err("CrossPoint "@ + answer)
    } else if u.wait == Wait::Finished || answer != awaited(u) {
        Err(surprise(u))
    } else if u.wait == Wait::Done {
        Ok((Upload { wait: Wait::Finished, ..u }, Seq::empty()))
    } else {
        Ok(onward(u))
    }
}

/// An upload keeps to its book, and is finished only when all of it has gone
/// out and the reader has said so.
pub open spec fn steady(u: Upload) -> bool {
    &&& u.sent <= u.total
    &&& u.wait == Wait::Ready ==> u.sent == 0
    &&& u.wait == Wait::Done || u.wait == Wait::Finished ==> u.sent == u.total
}

/// Every answer that is taken keeps an upload steady, sends exactly the bytes
/// between what had gone out and what has gone out now, and never ends an
/// upload of which a byte is still missing.
pub proof fn answers_move_the_upload_on(u: Upload, answer: Seq<char>, data: Seq<u8>)
    requires
        steady(u),
        data.len() == u.total,
    ensures
        heard(u, answer) matches Ok((after, parts)) ==> steady(after) && after.total == u.total
            && u.sent <= after.sent && sent_bytes(data, parts) == data.subrange(
            u.sent as int,
            after.sent as int,
        ) && (after.wait == Wait::Finished ==> after.sent == data.len()),
{
    if let Ok((after, parts)) = heard(u, answer) {
        frames_are_the_bytes(data, u.sent as int, after.sent as int);
        if parts.len() == 0 {
            assert(data.subrange(u.sent as int, u.sent as int) =~= Seq::<u8>::empty());
        }
    }
}

fn cut(from: usize, to: usize) -> (r: Vec<Frame>)
    requires
        from <= to,
    ensures
        r@ == frames(from as int, to as int),
{
    let mut out: Vec<Frame> = Vec::new();
    let mut at: usize = from;
    proof {
        assert(out@ + frames(from as int, to as int) =~= frames(from as int, to as int));
    }
    while at < to
        invariant
            from <= at <= to,
            out@ + frames(at as int, to as int) == frames(from as int, to as int),
        decreases to - at,
    {
        let end: usize = if to - at <= FRAME {
            to
        } else {
            at + FRAME
        };
        let ghost before = out@;
        out.push(Frame { from: at, to: end });
        proof {
            assert(before.push(Frame { from: at, to: end }) + frames(end as int, to as int)
                =~= before + frames(at as int, to as int));
        }
        at = end;
    }
    proof {
        assert(out@ + frames(to as int, to as int) =~= out@);
    }
    out
}

impl Upload {
    /// Begin an upload, with what is said first.
    pub fn start(name: &str, total: usize, folder: &str) -> (r: (Upload, String))
        ensures
            r.0 == (Upload { sent: 0, total, wait: Wait::Ready }),
            r.1@ == "START:"@ + name@ + ":"@ + text::decimal(total as nat) + ":"@ + folder@,
            steady(r.0),
    {
        let said = text::concat5(
            "START:",
            name,
            ":",
            text::number(total as u64).as_str(),
            text::concat(":", folder).as_str(),
        );
        proof {
            assert("START:"@ + name@ + ":"@ + text::decimal(total as nat) + (":"@ + folder@)
                =~= "START:"@ + name@ + ":"@ + text::decimal(total as nat) + ":"@ + folder@);
        }
        (Upload { sent: 0, total, wait: Wait::Ready }, said)
    }

    /// Take an answer of the reader, and say which parts go out next.
    pub fn hear(&self, answer: &str) -> (r: Result<(Upload, Vec<Frame>), String>)
        ensures
            match r {
                Ok((after, parts)) => heard(*self, answer@) == Ok::<(Upload, Seq<Frame>), Seq<char>>(
                    (after, parts@),
                ),
                Err(words) => heard(*self, answer@) == Err::<(Upload, Seq<Frame>), Seq<char>>(
                    words@,
                ),
            },
    {
        if text::starts_with(answer, "ERROR:") {
            return Err(text::concat("CrossPoint ", answer));
        }
        match self.wait {
            Wait::Ready => {
                if !text::same(answer, "READY") {
                    return Err("Reader did not acknowledge upload start".to_owned());
                }
            },
            Wait::Progress => {
                let wanted = text::concat4(
                    "PROGRESS:",
                    text::number(self.sent as u64).as_str(),
                    ":",
                    text::number(self.total as u64).as_str(),
                );
                if !text::same(answer, wanted.as_str()) {
                    return Err("Reader acknowledged an unexpected byte count".to_owned());
                }
            },
            Wait::Done => {
                if !text::same(answer, "DONE") {
                    return Err("Reader did not confirm upload completion".to_owned());
                }
                return Ok((Upload { wait: Wait::Finished, ..*self }, Vec::new()));
            },
            Wait::Finished => {
                return Err("Reader did not confirm upload completion".to_owned());
            },
        }
        if self.sent < self.total {
            let end: usize = if self.total - self.sent <= WINDOW {
                self.total
            } else {
                self.sent + WINDOW
            };
            Ok((Upload { sent: end, wait: Wait::Progress, ..*self }, cut(self.sent, end)))
        } else {
            Ok((Upload { wait: Wait::Done, ..*self }, Vec::new()))
        }
    }
}

} // verus!
