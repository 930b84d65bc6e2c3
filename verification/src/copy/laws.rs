//! A copy never replaces anything, and counts only when it was read back.
use super::{compared, occupant_at, ordinary_as, problem_as, read_back, OccupantView};
use crate::digest::sha256;
use crate::epub;
use crate::format::Format;
use crate::text;
use vstd::prelude::*;

verus! {

broadcast use vstd::string::group_string_axioms;

/// A name is taken exactly when something has it, in whatever case.
pub proof fn a_name_is_taken_in_any_case(
    held: Seq<OccupantView>,
    name: Seq<char>,
    from: int,
    i: int,
)
    requires
        0 <= from <= i < held.len(),
        text::lowercase(held[i].name) == text::lowercase(name),
    ensures
        occupant_at(held, name, from) < held.len(),
        text::lowercase(held[occupant_at(held, name, from)].name) == text::lowercase(name),
    decreases i - from,
{
    if from < i && text::lowercase(held[from].name) != text::lowercase(name) {
        a_name_is_taken_in_any_case(held, name, from + 1, i);
    }
}

/// A file that has the book's name is the book only when it is byte for byte the same.
pub proof fn only_the_same_bytes_are_the_book(path: Seq<char>, found: Seq<u8>, data: Seq<u8>)
    ensures
        compared(path, found, data) is Ok <==> found =~= data,
        compared(path, found, data) matches Ok(copied) ==> copied.already_present && copied.path
            == path,
{
}

/// A copy counts only when what was read back is as long as the book and has its digest.
pub proof fn only_what_was_read_back_counts(path: Seq<char>, written: Seq<u8>, data: Seq<u8>)
    requires
        data.len() <= usize::MAX,
    ensures
        read_back(path, written, data) is Ok <==> written.len() == data.len() && sha256(written)
            == sha256(data),
        read_back(path, written, data) matches Ok(copied) ==> !copied.already_present
            && copied.path == path && copied.bytes == data.len(),
        read_back(path, data, data) is Ok,
{
}

/// What is copied is a sound book under an ordinary name of its kind.
pub proof fn only_sound_books_are_copied(format: Format, name: Seq<char>, data: Seq<u8>)
    ensures
        problem_as(format, name, data) is None ==> data.len() <= 134217728 && ordinary_as(
            name,
            "."@ + format.suffix(),
        ),
        problem_as(Format::Epub, name, data) is None <==> ordinary_as(name, ".epub"@) && data.len()
            <= 134217728 && epub::validated(data) is None && epub::font_document(data) is Ok,
{
    reveal_strlit(".");
    reveal_strlit("epub");
    reveal_strlit(".epub");
    assert("."@ + "epub"@ =~= ".epub"@);
}

/// A book is copied under a name that a card takes and that is not hidden, and that ends
/// as an EPUB does.
pub proof fn hidden_names_are_refused(name: Seq<char>, data: Seq<u8>, i: int)
    ensures
        name.len() > 0 && name[0] == '.' ==> super::problem(name, data) is Some,
        0 <= i < name.len() && (name[i] == '/' || name[i] == '\\' || name[i] == ':')
            ==> super::problem(name, data) is Some,
        !text::ends(text::ascii_lowered(name), ".epub"@) ==> super::problem(name, data) is Some,
{
}

} // verus!
