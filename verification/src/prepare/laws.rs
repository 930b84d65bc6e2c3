//! How a book is called on a device and where it is put there.
use super::{
    author_folder, component_of, device_name, looks_like, neighbour_at, ready, redrawable, remade,
    scaled, NeighbourView, Picture,
};
use crate::epub;
use crate::paths;
use crate::text;
use vstd::prelude::*;

verus! {

broadcast use vstd::string::group_string_axioms;

proof fn found(names: Seq<NeighbourView>, name: Seq<char>, from: int)
    requires
        0 <= from <= names.len(),
    ensures
        ({
            let at = neighbour_at(names, name, from);
            &&& from <= at <= names.len()
            &&& at < names.len() ==> text::lowercase(names[at].name) == text::lowercase(name)
            &&& forall|i: int|
                from <= i < at ==> text::lowercase((#[trigger] names[i]).name) != text::lowercase(
                    name,
                )
        }),
    decreases names.len() - from,
{
    if from < names.len() && text::lowercase(names[from].name) != text::lowercase(name) {
        found(names, name, from + 1);
    }
}

/// An author has one folder: one that is there is used, whatever its case, a new one is
/// made where there is none, and a file is never taken for one.
pub proof fn an_author_has_one_folder(names: Seq<NeighbourView>, author: Seq<char>)
    requires
        component_of(author, "Unknown author"@) == author,
    ensures
        author_folder(names, author) matches Ok((folder, fresh)) ==> text::lowercase(folder)
            == text::lowercase(author) && (fresh <==> forall|i: int|
            0 <= i < names.len() ==> text::lowercase((#[trigger] names[i]).name) != text::lowercase(
                author,
            )) && (fresh ==> folder == author) && (!fresh ==> exists|i: int|
            0 <= i < names.len() && (#[trigger] names[i]).name == folder && names[i].directory),
        (forall|i: int|
            0 <= i < names.len() ==> text::lowercase((#[trigger] names[i]).name) != text::lowercase(
                author,
            )) ==> author_folder(names, author) is Ok,
{
    found(names, author, 0);
    let at = neighbour_at(names, author, 0);
    if at < names.len() {
        assert(text::lowercase(names[at].name) == text::lowercase(author));
    }
}

/// A picture that is too large keeps its shape: it is brought to the screen by whichever
/// side reaches it first, and the other side follows to within a pixel.
pub proof fn pictures_keep_their_shape(from: (u32, u32), bounds: (u32, u32), to: (u32, u32))
    requires
        scaled(from, bounds, to),
        from.0 > 0,
        from.1 > 0,
    ensures
        1 <= to.0 <= bounds.0,
        1 <= to.1 <= bounds.1,
        to.0 == bounds.0 || to.1 == bounds.1,
        to.0 == bounds.0 && bounds.0 * from.1 <= bounds.1 * from.0 ==> to.1 * from.0 - from.1
            * bounds.0 <= from.0 && from.1 * bounds.0 - to.1 * from.0 <= from.0,
{
}

/// A book is made ready only where it is a sound EPUB of no more than the limit, and not
/// scrambled.
pub proof fn only_sound_books_are_made_ready(book: Seq<char>, data: Seq<u8>, organized: bool)
    ensures
        ready(book, data, organized) is Ok ==> data.len() <= 134217728 && epub::validated(data)
            is None && epub::font_document(data) is Ok && (epub::metadata_of(data) matches Ok(
            Some(_),
        )),
        ready(book, data, organized) matches Ok((author, name)) ==> author == component_of(
            epub::metadata_of(data)->Ok_0->0.author,
            "Unknown author"@,
        ) && device_name(book, epub::metadata_of(data)->Ok_0->0.title, organized) == Ok::<
            Seq<char>,
            Seq<char>,
        >(name),
{
}

/// An animation is left as it is rather than losing its frames, and so is what is no
/// picture; every other picture is drawn anew as the kind it is.
pub proof fn animations_are_left_as_they_are(before: Seq<u8>, after: Seq<u8>, i: int)
    ensures
        looks_like(before) == Some(Picture::Png) && 0 <= i && i + 4 <= before.len()
            && before[i] == 97 && before[i + 1] == 99 && before[i + 2] == 84 && before[i + 3] == 76
            ==> redrawable(before) is None && !remade(before, after),
        looks_like(before) is None ==> !remade(before, after),
        looks_like(before) == Some(Picture::Jpeg) ==> redrawable(before) == Some(
            Picture::Jpeg,
        ),
        looks_like(before) == Some(Picture::Png) && (forall|k: int|
            0 <= k && k + 4 <= before.len() ==> !(#[trigger] before[k] == 97 && before[k + 1] == 99
                && before[k + 2] == 84 && before[k + 3] == 76)) ==> redrawable(before) == Some(
            Picture::Png,
        ),
{
}

/// A book that is put in order is called by its title and ends as an EPUB does; any other
/// keeps the name of its file.
pub proof fn books_in_order_are_called_by_title(book: Seq<char>, title: Seq<char>)
    ensures
        device_name(book, Some(title), true) == Ok::<Seq<char>, Seq<char>>(
            component_of(title, "Untitled"@) + ".epub"@,
        ),
        paths::name_of(book) matches Some(name) ==> device_name(book, Some(title), false) == Ok::<
            Seq<char>,
            Seq<char>,
        >(name),
        paths::name_of(book) is None ==> device_name(book, Some(title), false) is Err,
        device_name(book, None, true) is Ok,
{
}

} // verus!
