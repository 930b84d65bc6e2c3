//! What a file is, and what it is called.
use super::{among, base_name, format_problem, pdf_problem, stem, titled, without_tail, Format};
use crate::archive::members_of;
use crate::epub;
use crate::text;
use vstd::prelude::*;

verus! {

broadcast use vstd::string::group_string_axioms;

/// A file claims to be what its name ends with, whatever the case.
pub proof fn names_claim_their_kind(front: Seq<char>, ending: Seq<char>)
    requires
        forall|i: int| 0 <= i < ending.len() ==> #[trigger] ending[i] != '.',
    ensures
        ({
            let name = front + "."@ + ending;
            let small = text::ascii_lowered(ending);
            &&& small == "epub"@ ==> Format::claimed(name) == Some(Format::Epub)
            &&& small == "pdf"@ ==> Format::claimed(name) == Some(Format::Pdf)
            &&& small == "cbz"@ ==> Format::claimed(name) == Some(Format::Cbz)
            &&& Format::claimed(name) is Some ==> small == "epub"@ || small == "pdf"@ || small
                == "cbz"@
        }),
{
    reveal_strlit(".");
    reveal_strlit("epub");
    reveal_strlit("pdf");
    reveal_strlit("cbz");
    let name = front + "."@ + ending;
    text::last_index_range(name, '.');
    let at = text::last_index(name, '.');
    let n = front.len() as int;
    assert(name[n] == '.');
    if at > n {
        assert(name[at] == ending[at - n - 1]);
    }
    assert(name.skip(n + 1) =~= ending);
    assert("epub"@.len() == 4 && "pdf"@[0] == 'p' && "cbz"@[0] == 'c');
}

proof fn base_is_behind(folder: Seq<char>, name: Seq<char>)
    requires
        forall|i: int| 0 <= i < name.len() ==> #[trigger] name[i] != '/' && name[i] != '\\',
    ensures
        base_name(folder.push('/') + name) == name,
    decreases name.len(),
{
    let s = folder.push('/') + name;
    if name.len() == 0 {
        assert(s.last() == '/');
        assert(base_name(s) =~= name);
    } else {
        let rest = name.drop_last();
        assert forall|i: int| 0 <= i < rest.len() implies #[trigger] rest[i] != '/' && rest[i]
            != '\\' by {
            assert(rest[i] == name[i]);
        }
        base_is_behind(folder, rest);
        assert(s.drop_last() =~= folder.push('/') + rest);
        assert(name[name.len() - 1] != '/');
        assert(base_name(s) =~= name);
    }
}

/// A file that says nothing of itself is called by its name, without its folder and how
/// it ends.
pub proof fn files_are_titled_by_their_names(
    folder: Seq<char>,
    title: Seq<char>,
    ending: Seq<char>,
)
    requires
        title.len() > 0,
        text::trimmed(title) == title,
        ending.len() > 0,
        !text::white(ending.last()),
        forall|i: int|
            0 <= i < title.len() ==> #[trigger] title[i] != '/' && title[i] != '\\',
        forall|i: int|
            0 <= i < ending.len() ==> #[trigger] ending[i] != '/' && ending[i] != '\\' && ending[i]
                != '.',
    ensures
        titled(folder.push('/') + (title + "."@ + ending)) == title,
{
    reveal_strlit(".");
    let name = title + "."@ + ending;
    assert forall|i: int| 0 <= i < name.len() implies #[trigger] name[i] != '/' && name[i]
        != '\\' by {
        if i < title.len() {
            assert(name[i] == title[i]);
        } else if i > title.len() {
            assert(name[i] == ending[i - title.len() - 1]);
        }
    }
    base_is_behind(folder, name);
    assert(name.last() == ending.last());
    assert(ending[ending.len() - 1] != '.');
    assert(without_tail(name) == name);
    text::last_index_range(name, '.');
    let at = text::last_index(name, '.');
    let n = title.len() as int;
    assert(name[n] == '.');
    if at > n {
        assert(name[at] == ending[at - n - 1]);
    }
    assert(stem(name) =~= title);
}

proof fn has(whole: Seq<u8>, part: Seq<u8>, i: int)
    requires
        0 <= i,
        i + part.len() <= whole.len(),
        whole.subrange(i, i + part.len()) == part,
    ensures
        among(whole, part),
{
}

/// A PDF that begins and ends as one does is taken for one; what does not begin so is not.
pub proof fn a_whole_pdf_is_taken(middle: Seq<u8>)
    ensures
        pdf_problem(seq![37u8, 80, 68, 70, 45] + middle + seq![37u8, 37, 69, 79, 70]) is None,
        pdf_problem(Seq::empty()) is Some,
{
    let head = seq![37u8, 80, 68, 70, 45];
    let end = seq![37u8, 37, 69, 79, 70];
    let data = head + middle + end;
    let start = if data.len() < 1024 {
        data
    } else {
        data.take(1024)
    };
    let tail = if data.len() < 4096 {
        data
    } else {
        data.skip(data.len() - 4096)
    };
    assert(start.subrange(0, 5) =~= head);
    has(start, head, 0);
    let n = tail.len() - 5;
    assert(tail.subrange(n, n + 5) =~= end);
    has(tail, end, n);
    if among(Seq::<u8>::empty(), head) {
        let i = choose|i: int|
            0 <= i && i + head.len() <= 0 && #[trigger] Seq::<u8>::empty().subrange(
                i,
                i + head.len(),
            ) == head;
    }
}

/// What passes for a book is one: an EPUB that is valid and not scrambled, a PDF that is
/// whole, or an archive with a picture in it.
pub proof fn what_passes_is_a_book(data: Seq<u8>)
    ensures
        format_problem(Format::Epub, data) is None <==> epub::validated(data) is None
            && epub::font_document(data) is Ok,
        format_problem(Format::Pdf, data) == pdf_problem(data),
        format_problem(Format::Cbz, data) is None <==> epub::inspected(data) is None && (members_of(
            data,
        ) matches Ok(members) && exists|i: int|
            0 <= i < members.len() && super::pictured(#[trigger] members[i].name)),
{
}

/// A page of a comic is told by its ending, whatever the case.
pub proof fn pages_are_told_by_their_endings(front: Seq<char>, ending: Seq<char>)
    requires
        forall|i: int| 0 <= i < ending.len() ==> #[trigger] ending[i] != '.',
    ensures
        ({
            let small = text::ascii_lowered(ending);
            super::pictured(front + "."@ + ending) <==> small == "jpg"@ || small == "jpeg"@ || small
                == "png"@ || small == "gif"@ || small == "webp"@ || small == "bmp"@ || small
                == "avif"@
        }),
{
    reveal_strlit(".");
    let name = front + "."@ + ending;
    text::last_index_range(name, '.');
    let at = text::last_index(name, '.');
    let n = front.len() as int;
    assert(name[n] == '.');
    if at > n {
        assert(name[at] == ending[at - n - 1]);
    }
    assert(name.skip(n + 1) =~= ending);
}

} // verus!
