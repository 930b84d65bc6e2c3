//! An upload goes on with each answer it waits for, and with no other.
use super::{heard, steady, Upload, Wait};
use crate::text;
use vstd::prelude::*;

verus! {

broadcast use vstd::string::group_string_axioms;

/// Whether an answer is the one that an upload waits for: that the reader is ready, that
/// it has as many bytes as went out, or that it has the whole book.
pub open spec fn right_answer(u: Upload, answer: Seq<char>) -> bool {
    match u.wait {
        Wait::Ready => answer == "READY"@,
        Wait::Progress => answer == "PROGRESS:"@ + text::decimal(u.sent as nat) + ":"@
            + text::decimal(u.total as nat),
        Wait::Done => answer == "DONE"@,
        Wait::Finished => false,
    }
}

/// The right answer is taken, and no other is: after it more of the book goes out as long
/// as there is more, then the end is waited for, and then the upload is over.
pub proof fn the_right_answer_is_taken(u: Upload, answer: Seq<char>)
    requires
        steady(u),
        !text::starts(answer, "ERROR:"@),
    ensures
        heard(u, answer) is Ok <==> right_answer(u, answer),
        heard(u, answer) matches Ok((after, parts)) ==> {
            &&& u.wait == Wait::Done ==> after.wait == Wait::Finished && parts.len() == 0
            &&& u.wait != Wait::Done && u.sent < u.total ==> after.sent > u.sent && after.wait
                == Wait::Progress
            &&& u.wait != Wait::Done && u.sent == u.total ==> after.wait == Wait::Done
                && after.sent == u.sent
        },
{
}

/// An error of the reader ends an upload, and is passed on.
pub proof fn an_error_ends_the_upload(u: Upload, words: Seq<char>)
    ensures
        heard(u, "ERROR:"@ + words) == Err::<(Upload, Seq<super::Frame>), Seq<char>>(
            "CrossPoint "@ + ("ERROR:"@ + words),
        ),
{
    let answer = "ERROR:"@ + words;
    assert(answer.subrange(0, "ERROR:"@.len() as int) =~= "ERROR:"@);
    assert(text::starts(answer, "ERROR:"@));
}

} // verus!
