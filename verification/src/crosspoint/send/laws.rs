//! How a book reaches the reader, from the first listing to its name.
use super::{OrderView, ReplyView, SendingView, SentView, StageView};
use crate::crosspoint::{entry_at, verified, EntryView};
use crate::digest::sha256;
use crate::paths;
use crate::text;
use vstd::prelude::*;
use vstd::utf8::encode_utf8;

verus! {

broadcast use vstd::string::group_string_axioms;

/// Whether nothing in a folder has a name, in whatever case.
pub open spec fn vacant(entries: Seq<EntryView>, name: Seq<char>) -> bool {
    forall|i: int|
        0 <= i < entries.len() ==> text::lowercase((#[trigger] entries[i]).name)
            != text::lowercase(name)
}

proof fn vacant_is_not_found(entries: Seq<EntryView>, name: Seq<char>, from: int)
    requires
        0 <= from <= entries.len(),
        vacant(entries, name),
    ensures
        entry_at(entries, name, from) == entries.len(),
    decreases entries.len() - from,
{
    if from < entries.len() {
        vacant_is_not_found(entries, name, from + 1);
    }
}

/// Bytes that were read back count as the book only when they are as many and have its
/// digest; the book itself always does.
pub proof fn only_the_same_bytes_count(copy: Seq<u8>, data: Seq<u8>)
    ensures
        verified(copy, data) <==> copy.len() == data.len() && sha256(copy) == sha256(data),
        verified(data, data),
{
}

/// A book that is not on the reader gets there: it is uploaded under a passing name, read
/// back, and given its own name, in its folder, and it is said how much was sent.
pub proof fn a_missing_book_arrives(s: SendingView, entries: Seq<EntryView>)
    requires
        s.stage is Listing,
        s.data.len() <= usize::MAX,
        vacant(entries, s.name),
    ensures
        ({
            let uploading = s.after(ReplyView::Entries(entries));
            let verifying = uploading.0.after(ReplyView::Uploaded);
            let publishing = verifying.0.after(ReplyView::Bytes(s.data));
            let done = publishing.0.after(
                ReplyView::Bytes(encode_utf8("Renamed successfully"@)),
            );
            let passing = paths::inside(s.reader.folder, s.staging);
            &&& uploading.1 == Ok::<OrderView, Seq<char>>(OrderView::Upload { name: s.staging })
            &&& verifying.1 == Ok::<OrderView, Seq<char>>(
                OrderView::Download { path: passing, limit: s.data.len() as usize },
            )
            &&& publishing.1 == Ok::<OrderView, Seq<char>>(
                OrderView::Rename { path: passing, name: s.name },
            )
            &&& done.1 == Ok::<OrderView, Seq<char>>(
                OrderView::Finish(
                    SentView {
                        path: paths::inside(s.reader.folder, s.name),
                        bytes: s.data.len() as usize,
                        already_present: false,
                        backup: s.backup,
                    },
                ),
            )
        }),
{
    vacant_is_not_found(entries, s.name, 0);
}

/// A book that is on the reader under its name, in whatever case, is found to be there
/// and not sent.
pub proof fn a_book_that_is_there_is_found(s: SendingView, entries: Seq<EntryView>, i: int)
    requires
        s.stage is Listing,
        s.data.len() <= usize::MAX,
        0 <= i < entries.len(),
        text::lowercase(entries[i].name) == text::lowercase(s.name),
        forall|j: int|
            0 <= j < i ==> text::lowercase((#[trigger] entries[j]).name) != text::lowercase(s.name),
        !entries[i].directory,
        entries[i].size == s.data.len(),
    ensures
        ({
            let comparing = s.after(ReplyView::Entries(entries));
            let done = comparing.0.after(ReplyView::Bytes(s.data));
            let path = paths::inside(s.reader.folder, entries[i].name);
            &&& comparing.1 == Ok::<OrderView, Seq<char>>(
                OrderView::Download { path, limit: s.data.len() as usize },
            )
            &&& done.1 == Ok::<OrderView, Seq<char>>(
                OrderView::Finish(
                    SentView {
                        path,
                        bytes: s.data.len() as usize,
                        already_present: true,
                        backup: None,
                    },
                ),
            )
        }),
{
    named_is_found(entries, s.name, 0, i);
}

proof fn named_is_found(entries: Seq<EntryView>, name: Seq<char>, from: int, i: int)
    requires
        0 <= from <= i < entries.len(),
        text::lowercase(entries[i].name) == text::lowercase(name),
        forall|j: int|
            from <= j < i ==> text::lowercase((#[trigger] entries[j]).name) != text::lowercase(
                name,
            ),
    ensures
        entry_at(entries, name, from) == i,
    decreases i - from,
{
    if from < i {
        named_is_found(entries, name, from + 1, i);
    }
}

/// Where something else has the name, nothing is sent: a folder, a file of another size,
/// or one of the same size with other contents. Only a shorter file is looked at further,
/// and only where repairs were asked for.
pub proof fn what_has_the_name_is_not_replaced(
    s: SendingView,
    entries: Seq<EntryView>,
    i: int,
    bytes: Seq<u8>,
)
    requires
        s.stage is Listing,
        0 <= i < entries.len(),
        text::lowercase(entries[i].name) == text::lowercase(s.name),
        forall|j: int|
            0 <= j < i ==> text::lowercase((#[trigger] entries[j]).name) != text::lowercase(s.name),
    ensures
        ({
            let next = s.after(ReplyView::Entries(entries));
            &&& entries[i].directory ==> next.1 is Err
            &&& entries[i].size > s.data.len() ==> next.1 is Err
            &&& entries[i].size < s.data.len() && !s.reader.repair ==> next.1 is Err
            &&& entries[i].size == s.data.len() && sha256(bytes) != sha256(s.data)
                ==> next.0.after(ReplyView::Bytes(bytes)).1 is Err
        }),
{
    named_is_found(entries, s.name, 0, i);
}

/// A shorter file that is the beginning of the book is kept under another name before
/// the book is sent again; one that is anything else is left alone.
pub proof fn a_beginning_is_kept_aside(s: SendingView, path: Seq<char>, size: u64, bytes: Seq<u8>)
    requires
        s.stage == StageView::Reading(path, size),
    ensures
        ({
            let next = s.after(ReplyView::Bytes(bytes));
            let whole = bytes.len() == size && bytes.len() <= s.data.len() && s.data.take(
                bytes.len() as int,
            ) == bytes;
            &&& whole ==> next.0.stage is Preserving && next.0.backup is Some && (
            next.1 matches Ok(OrderView::Rename { path: from, .. }) && from == path)
            &&& !whole ==> next.1 is Err
        }),
{
}

} // verus!
