//! What a command is told.
use super::{preview_count, status_word, TransferView, SAVED_COPY};
use crate::config::DefaultsView;
use crate::kobo::BookView;
use crate::sync::Status;
use vstd::prelude::*;

verus! {

broadcast use vstd::string::group_string_axioms;

/// A destination that is named is used as it is named. One that is asked for without a
/// name is the saved one, and there has to be one.
pub proof fn destinations_are_named_or_saved(transfer: TransferView, saved: DefaultsView)
    ensures
        ({
            let r = transfer.resolved(saved);
            let sends = transfer.send_to == Some(""@);
            let copies = transfer.copy_to == Some(SAVED_COPY@);
            &&& r is Ok <==> (sends ==> saved.reader is Some) && (copies ==> saved.copy_to is Some)
            &&& r matches Ok(after) ==> {
                &&& after.send_to == if sends {
                    saved.reader
                } else {
                    transfer.send_to
                }
                &&& after.copy_to == if copies {
                    saved.copy_to
                } else {
                    transfer.copy_to
                }
                &&& transfer.folder is Some ==> after.folder == transfer.folder
                &&& transfer.folder is None ==> after.folder == saved.folder
            }
        }),
{
}

/// Previews are counted each once, and no book is counted as one.
pub proof fn previews_are_counted(books: Seq<BookView>, book: BookView)
    ensures
        preview_count(Seq::empty()) == 0,
        preview_count(books.push(book)) == preview_count(books) + (if book.preview {
            1nat
        } else {
            0
        }),
{
    assert(books.push(book).drop_last() =~= books);
}

/// Every outcome has a word of its own.
pub proof fn outcomes_are_told_apart(a: Status, b: Status)
    ensures
        status_word(a) == status_word(b) ==> a == b,
        status_word(Status::Failed) == "failed"@,
        status_word(Status::Sent) == "sent"@,
        status_word(Status::Present) == "present"@,
{
    reveal_strlit("present");
    reveal_strlit("duplicate");
    reveal_strlit("transfer");
    reveal_strlit("repair");
    reveal_strlit("sent");
    reveal_strlit("repaired");
    reveal_strlit("failed");
    assert("present"@.len() == 7 && "duplicate"@.len() == 9 && "transfer"@.len() == 8);
    assert("repair"@.len() == 6 && "sent"@.len() == 4 && "repaired"@.len() == 8);
    assert("failed"@.len() == 6);
    assert("transfer"@[0] == 't' && "repaired"@[0] == 'r');
    assert("repair"@[0] == 'r' && "failed"@[0] == 'f');
}

} // verus!
