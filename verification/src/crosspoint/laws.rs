//! What the reader is asked, and where things are put on it.
use super::{
    answered, author_folder, entry_at, has_folder, name_problem, nonempty, patience,
    reader_at, reserved,    steps_to, takes, without_brackets, AddressView, EntryView,
};
use crate::format::Format;
use crate::paths;
use crate::text;
use vstd::prelude::*;

verus! {

broadcast use vstd::string::group_string_axioms;

/// No name is taken that would lead elsewhere, that a card refuses, or that is hidden.
pub proof fn names_that_lead_elsewhere_are_refused(name: Seq<char>, i: int)
    ensures
        name.len() == 0 ==> !takes(name),
        name.len() > 0 && name[0] == '.' ==> !takes(name),
        name.len() > 0 && (name.last() == ' ' || name.last() == '.') ==> !takes(name),
        0 <= i < name.len() && (name[i] == '/' || name[i] == '\\' || name[i] == ':' || name[i] == '*'
            || name[i] == '?' || name[i] == '"' || name[i] == '<' || name[i] == '>' || name[i]
            == '|' || name[i] == '\n') ==> !takes(name),
{
    if 0 <= i < name.len() && takes(name) {
        assert(!text::control(name[i]) && !reserved(name[i]));
    }
}

/// Only an EPUB is sent, under a name that the reader takes.
pub proof fn only_an_epub_is_sent(name: Seq<char>)
    ensures
        name_problem(name) is None <==> takes(name) && Format::claimed(name) == Some(Format::Epub),
{
}

/// An answer is taken only when the reader says that all is well, and then as it is.
pub proof fn only_good_answers_are_taken(
    endpoint: Seq<char>,
    too_large: bool,
    failure: Option<Seq<char>>,
    status: u32,
    body: Seq<u8>,
)
    ensures
        answered(endpoint, too_large, failure, status, body) is Ok <==> !too_large && failure
            is None && status == 200,
        answered(endpoint, too_large, failure, status, body) matches Ok(bytes) ==> bytes == body,
{
}

proof fn joined_further(names: Seq<Seq<char>>, i: int)
    requires
        0 < i < names.len(),
    ensures
        paths::between(names.take(i + 1), "/"@) == paths::between(names.take(i), "/"@) + "/"@
            + names[i],
{
    assert(names.take(i + 1).drop_last() =~= names.take(i));
    assert(names.take(i + 1).last() == names[i]);
}

/// The way to a folder goes down one name at a time, from the root: each step starts
/// where the one before it led.
pub proof fn each_step_goes_down_from_the_last(names: Seq<Seq<char>>, i: int)
    requires
        0 <= i < names.len(),
    ensures
        steps_to(names).len() == names.len(),
        steps_to(names)[i].name == names[i],
        steps_to(names)[0].parent == "/"@,
        0 < i ==> steps_to(names)[i].parent == (if i == 1 {
            "/"@ + names[0]
        } else {
            steps_to(names)[i - 1].parent + "/"@ + names[i - 1]
        }),
{
    assert(names.take(0) =~= Seq::<Seq<char>>::empty());
    assert("/"@ + Seq::<char>::empty() =~= "/"@);
    if i == 1 {
        assert(names.take(1).len() == 1);
        assert(names.take(1)[0] == names[0]);
    } else if i > 1 {
        joined_further(names, i - 1);
        assert("/"@ + (paths::between(names.take(i - 1), "/"@) + "/"@ + names[i - 1]) =~= "/"@
            + paths::between(names.take(i - 1), "/"@) + "/"@ + names[i - 1]);
    }
}

proof fn found(entries: Seq<EntryView>, name: Seq<char>, from: int)
    requires
        0 <= from <= entries.len(),
    ensures
        ({
            let at = entry_at(entries, name, from);
            &&& from <= at <= entries.len()
            &&& at < entries.len() ==> text::lowercase(entries[at].name) == text::lowercase(name)
            &&& forall|i: int|
                from <= i < at ==> text::lowercase((#[trigger] entries[i]).name) != text::lowercase(
                    name,
                )
        }),
    decreases entries.len() - from,
{
    if from < entries.len() && text::lowercase(entries[from].name) != text::lowercase(name) {
        found(entries, name, from + 1);
    }
}

/// An author has one folder: one that is there is used as it is spelled there, whatever
/// the case, and a new one is called by the author's name.
pub proof fn an_author_has_one_folder(entries: Seq<EntryView>, author: Seq<char>)
    ensures
        text::lowercase(author_folder(entries, author)) == text::lowercase(author),
        (exists|i: int|
            0 <= i < entries.len() && text::lowercase((#[trigger] entries[i]).name)
                == text::lowercase(author)) ==> exists|i: int|
            0 <= i < entries.len() && author_folder(entries, author) == (
            #[trigger] entries[i]).name,
        (forall|i: int|
            0 <= i < entries.len() ==> text::lowercase((#[trigger] entries[i]).name)
                != text::lowercase(author)) ==> author_folder(entries, author) == author,
{
    found(entries, author, 0);
}

/// A reader is a plain address, and books go to a folder of it that is named in full.
pub proof fn a_reader_is_a_plain_address(base: AddressView, folder: Seq<char>)
    ensures
        reader_at(base, folder) matches Ok(reader) ==> {
            &&& reader.base == base
            &&& base.scheme == "http"@ && base.host is Some && base.path == "/"@
            &&& base.query is None && base.fragment is None && base.password is None
                && base.username.len() == 0
            &&& reader.folder.len() > 0 && reader.folder[0] == '/'
            &&& reader.folder.len() > 1 ==> reader.folder.last() != '/'
            &&& reader.websocket_port == 81
            &&& !reader.repair
        },
{
    reveal_strlit("/");
    bare_ends(folder);
}

proof fn bare_ends(s: Seq<char>)
    ensures
        paths::bare(s).len() > 0 ==> paths::bare(s).last() != '/',
    decreases s.len(),
{
    if s.len() > 0 && s.last() == '/' {
        bare_ends(s.drop_last());
    }
}

/// A host is asked for without the brackets that an address has around it.
pub proof fn brackets_are_taken_off(host: Seq<char>)
    requires
        host.len() > 0,
        host[0] != '[',
        host[0] != ']',
        host.last() != '[',
        host.last() != ']',
    ensures
        without_brackets(host) == host,
        without_brackets(seq!['['] + host.push(']')) == host,
{
    let whole = seq!['['] + host.push(']');
    assert(whole.drop_first() =~= host.push(']'));
    assert(host.push(']').drop_last() =~= host);
    assert(host.push(']')[0] == host[0]);
    assert(whole[0] == '[');
    assert(without_brackets(host.push(']')) == without_brackets(host));
}

/// A folder is there when a folder of its name is listed; a file of that name is none.
pub proof fn a_file_is_no_folder(entries: Seq<EntryView>, name: Seq<char>, i: int)
    ensures
        0 <= i < entries.len() && entries[i].name == name && entries[i].directory ==> has_folder(
            entries,
            name,
        ),
        (forall|k: int|
            0 <= k < entries.len() && (#[trigger] entries[k]).name == name
                ==> !entries[k].directory) ==> !has_folder(entries, name),
{
}

/// The parts of a path that are empty lead nowhere: the others stand in their order.
pub proof fn empty_parts_lead_nowhere(parts: Seq<Seq<char>>, part: Seq<char>)
    ensures
        part.len() > 0 ==> nonempty(parts.push(part)) == nonempty(parts).push(part),
        part.len() == 0 ==> nonempty(parts.push(part)) == nonempty(parts),
        nonempty(Seq::<Seq<char>>::empty()).len() == 0,
{
    assert(parts.push(part).drop_last() =~= parts);
}

/// A file may take its time, and a short question may not.
pub proof fn files_may_take_their_time(endpoint: Seq<char>)
    ensures
        patience("/upload"@) == 600,
        patience("/download"@) == 600,
        endpoint != "/upload"@ && endpoint != "/download"@ ==> patience(endpoint) == 15,
{
}

/// What a reader complains of is passed on: the start of it, on one line.
pub proof fn complaints_are_passed_on(s: Seq<char>, i: int)
    ensures
        s.len() <= 300 ==> super::excerpt(s).len() == s.len(),
        s.len() > 300 ==> super::excerpt(s).len() == 300,
        0 <= i < super::excerpt(s).len() && !text::control(s[i]) ==> super::excerpt(s)[i] == s[i],
        0 <= i < super::excerpt(s).len() && text::control(s[i]) ==> super::excerpt(s)[i] == ' ',
{
}

} // verus!
