//! What a scan says of the places it looks at.
use super::{found_as, Find, Scan, UpdateView};
use crate::books::{counted, merging_loses_no_copy, taken, BookView, CopyView, Place};
use crate::inventory::Kind;
use crate::paths;
use crate::text;
use vstd::prelude::*;

verus! {

broadcast use vstd::string::group_string_axioms;

/// A place that was read to the end is ready, and one that could not be is not; the
/// others are as ready as they were.
pub proof fn a_place_is_ready_when_it_was_read(
    scan: Scan,
    place: Place,
    problem: Option<Seq<char>>,
    after: Scan,
    other: Place,
)
    requires
        scan.took(UpdateView::Finished(place, problem), after),
    ensures
        after.catalogue().ready(place) <==> problem is None,
        other != place ==> (after.catalogue().ready(other) <==> scan.catalogue().ready(other)),
{
    let update = UpdateView::Finished(place, problem);
    reveal_strlit("Ready");
    reveal_strlit("Ready (");
    reveal_strlit("Unavailable: ");
    let words = after.words(place);
    assert(words == scan.said(update, place));
    match problem {
        None => {
            assert(words.subrange(0, 5) =~= "Ready"@);
            assert(text::starts(words, "Ready"@));
        },
        Some(reason) => {
            assert(words[0] == 'U');
            if text::starts(words, "Ready"@) {
                assert(words.subrange(0, 5)[0] == 'R');
            }
        },
    }
    told_by_words(after, place);
    if other != place {
        assert(after.words(other) == scan.said(update, other));
        told_by_words(after, other);
        told_by_words(scan, other);
    }
}

proof fn told_by_words(scan: Scan, place: Place)
    ensures
        scan.catalogue().ready(place) <==> text::starts(scan.words(place), "Ready"@),
{
    let status = scan.catalogue().status;
    assert(status[0] == (Place::Local, scan.local@));
    assert(status[1] == (Place::Kobo, scan.kobo@));
    assert(status[2] == (Place::CrossPoint, scan.crosspoint@));
    let at = match place {
        Place::Local => 0int,
        Place::Kobo => 1,
        Place::CrossPoint => 2,
    };
    assert(status[at] == (place, scan.words(place)));
    if scan.catalogue().ready(place) {
        let i = choose|i: int|
            0 <= i < status.len() && (#[trigger] status[i]).0 == place && text::starts(
                status[i].1,
                "Ready"@,
            );
        assert(i == at);
    }
}

/// A book that was found is in the library, with every copy it was found with, beside
/// everything that was there.
pub proof fn every_book_found_is_kept(
    scan: Scan,
    place: Place,
    book: BookView,
    unreadable: bool,
    after: Scan,
    copy: CopyView,
)
    requires
        scan.took(UpdateView::Book(place, book, unreadable), after),
        taken(book.copies, copy) || crate::books::holds_spot(scan.found(), copy),
    ensures
        crate::books::holds_spot(after.found(), copy),
{
    merging_loses_no_copy(scan.found(), book, copy);
}

/// A request that was found waits to be fulfilled, behind those that were found before.
pub proof fn every_request_found_is_kept(scan: Scan, path: Seq<char>, after: Scan)
    requires
        scan.took(UpdateView::Acsm(path), after),
    ensures
        after.catalogue().acsm == scan.catalogue().acsm.push(path),
{
}

/// Whether a path names a file in a folder by a stem and an ending.
pub open spec fn called(path: Seq<char>, stem: Seq<char>, ending: Seq<char>) -> bool {
    &&& paths::name_of(path) == Some(stem + "."@ + ending)
    &&& stem.len() > 0
    &&& forall|i: int| 0 <= i < ending.len() ==> #[trigger] ending[i] != '.'
}

proof fn ending_is_found(path: Seq<char>, stem: Seq<char>, ending: Seq<char>)
    requires
        called(path, stem, ending),
    ensures
        super::extension(path) == text::ascii_lowered(ending),
{
    reveal_strlit(".");
    let name = stem + "."@ + ending;
    text::last_index_range(name, '.');
    let at = text::last_index(name, '.');
    let n = stem.len() as int;
    assert(name[n] == '.');
    if at > n {
        assert(name[at] == ending[at - n - 1]);
    }
    assert(at == n);
    assert(name.skip(n + 1) =~= ending);
}

/// A file is a book by how its name ends, whatever the case; and a request likewise,
/// unless it was put away.
pub proof fn files_are_told_by_their_endings(path: Seq<char>, stem: Seq<char>, ending: Seq<char>)
    requires
        called(path, stem, ending),
    ensures
        ({
            let small = text::ascii_lowered(ending);
            &&& found_as(path) == Find::Book <==> small == "epub"@ || small == "pdf"@ || small
                == "cbz"@
            &&& found_as(path) == Find::Acsm <==> (small == "acsm"@ || small == "ascm"@)
                && paths::name_of(paths::parent_of(path)) != Some("archive"@)
        }),
{
    ending_is_found(path, stem, ending);
    reveal_strlit("epub");
    reveal_strlit("pdf");
    reveal_strlit("cbz");
    reveal_strlit("acsm");
    reveal_strlit("ascm");
    assert("epub"@[0] == 'e' && "acsm"@[0] == 'a' && "ascm"@[0] == 'a');
}

/// A walk looks at files and folders that are not hidden, and follows no link.
pub proof fn hidden_files_and_links_are_passed_over(name: Seq<char>)
    ensures
        name.len() > 0 && name[0] == '.' ==> super::ignored(name, Kind::File) && super::ignored(
            name,
            Kind::Folder,
        ),
        super::ignored(name, Kind::Link),
        name.len() > 0 && name[0] != '.' ==> !super::ignored(name, Kind::File) && !super::ignored(
            name,
            Kind::Folder,
        ),
{
}

/// Both local folders are looked at where there are two, and one that is both is looked
/// at once.
pub proof fn local_folders_are_looked_at_once(local: Seq<char>, output: Seq<char>, there: bool)
    ensures
        super::local_roots(local, output, there).contains(local),
        there ==> super::local_roots(local, output, there).contains(output),
        super::local_roots(local, output, there).no_duplicates(),
        !there ==> super::local_roots(local, output, there) == seq![local],
{
    let roots = super::local_roots(local, output, there);
    assert(roots[0] == local);
    if output != local && there {
        assert(roots[1] == output);
    }
}

/// What a place came to is shown at once, and so is the first book that is found.
pub proof fn the_first_book_is_shown_at_once(scan: Scan, finished: bool, due: bool)
    ensures
        scan.publishes(true, due),
        scan.publishes(finished, true),
        scan.shown == 0 && scan.found().len() > 0 ==> scan.publishes(finished, due),
        scan.shown > 0 ==> !scan.publishes(false, false),
        scan.found().len() == 0 ==> !scan.publishes(false, false),
{
}

/// A place that was read says how many books it has and how many of them could not be
/// read; one that was not says why.
pub proof fn a_place_says_what_it_came_to(scan: Scan, place: Place, words: Seq<char>)
    ensures
        scan.said(UpdateView::Finished(place, None), place) == "Ready ("@ + counted(
            scan.count(place).books as nat,
        ) + ", "@ + text::decimal(scan.count(place).unreadable as nat) + " unreadable)"@,
        scan.said(UpdateView::Finished(place, Some(words)), place) == "Unavailable: "@ + words,
        scan.count(Place::Local) == scan.local_count,
        scan.count(Place::Kobo) == scan.kobo_count,
        scan.count(Place::CrossPoint) == scan.crosspoint_count,
{
}

} // verus!
