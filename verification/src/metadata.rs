//! Changing what a book says about itself.
//!
//! Only the package document is touched: the title, the author, and the series
//! it belongs to. Every other file is copied across byte for byte, which is
//! what lets an edited book and the copies of it already on a device be treated
//! as one book rather than two.
use crate::archive;
use crate::archive::{bytes_of, members_of, opened, Member, MemberView, Packed, PackedView};
use crate::epub;
use crate::epub::{find_package, package_path, said};
use crate::kepub::{file, file_member, first_member, folder, folder_member, mimetype_member};
use crate::text;
use crate::text::decoded;
use crate::values::{result_view, Duplicate};
use crate::xml;
use vstd::prelude::*;

pub mod laws;

verus! {

broadcast use vstd::string::group_string_axioms;

/// What to change. A field left out keeps whatever the book already says; an
/// empty one clears it.
#[derive(Clone, Debug, Default, PartialEq, Eq)]
pub struct Edit {
    pub title: Option<String>,
    pub author: Option<String>,
    pub series: Option<String>,
    pub series_index: Option<String>,
}

#[verifier::ext_equal]
pub struct EditView {
    pub title: Option<Seq<char>>,
    pub author: Option<Seq<char>>,
    pub series: Option<Seq<char>>,
    pub series_index: Option<Seq<char>>,
}

impl View for Edit {
    type V = EditView;

    open spec fn view(&self) -> EditView {
        EditView {
            title: self.title.deep_view(),
            author: self.author.deep_view(),
            series: self.series.deep_view(),
            series_index: self.series_index.deep_view(),
        }
    }
}

impl DeepView for Edit {
    type V = EditView;

    open spec fn deep_view(&self) -> EditView {
        self@
    }
}

impl Duplicate for Edit {
    fn duplicate(&self) -> (r: Edit) {
        Edit {
            title: self.title.duplicate(),
            author: self.author.duplicate(),
            series: self.series.duplicate(),
            series_index: self.series_index.duplicate(),
        }
    }
}

impl EditView {
    pub open spec fn is_empty(self) -> bool {
        self.title is None && self.author is None && self.series is None && self.series_index
            is None
    }
}

impl Edit {
    pub fn is_empty(&self) -> (r: bool)
        ensures
            r == self@.is_empty(),
    {
        self.title.is_none() && self.author.is_none() && self.series.is_none()
            && self.series_index.is_none()
    }
}

/// A character as markup writes it.
pub open spec fn escape(c: char) -> Seq<char> {
    if c == '&' {
        "&amp;"@
    } else if c == '<' {
        "&lt;"@
    } else if c == '>' {
        "&gt;"@
    } else if c == '"' {
        "&quot;"@
    } else if text::control(c) {
        seq![' ']
    } else {
        seq![c]
    }
}

/// A text as markup writes it.
pub open spec fn escaped_text(s: Seq<char>) -> Seq<char>
    decreases s.len(),
{
    if s.len() == 0 {
        Seq::empty()
    } else {
        escaped_text(s.drop_last()) + escape(s.last())
    }
}

/// Whether a character would be read as markup.
pub open spec fn marks(c: char) -> bool {
    c == '<' || c == '>' || c == '"' || text::control(c)
}

/// An escaped text holds nothing that would be read as markup.
pub proof fn escaping_leaves_no_markup(s: Seq<char>)
    ensures
        forall|i: int| 0 <= i < escaped_text(s).len() ==> !marks(#[trigger] escaped_text(s)[i]),
    decreases s.len(),
{
    if s.len() > 0 {
        escaping_leaves_no_markup(s.drop_last());
        reveal_strlit("&amp;");
        reveal_strlit("&lt;");
        reveal_strlit("&gt;");
        reveal_strlit("&quot;");
        let a = escaped_text(s.drop_last());
        let b = escape(s.last());
        assert forall|i: int| 0 <= i < escaped_text(s).len() implies !marks(
            #[trigger] escaped_text(s)[i],
        ) by {
            if i < a.len() {
                assert(escaped_text(s)[i] == a[i]);
            } else {
                assert(escaped_text(s)[i] == b[i - a.len()]);
            }
        }
    }
}

pub fn escaped(words: &str) -> (r: String)
    ensures
        r@ == escaped_text(words@),
{
    let s = text::chars(words);
    let mut out = String::new();
    for i in 0..s.len()
        invariant
            out@ == escaped_text(s@.take(i as int)),
    {
        let c = s[i];
        let ghost before = out@;
        proof {
            assert(s@.take(i as int + 1).drop_last() =~= s@.take(i as int));
        }
        if c == '&' {
            out.push_str("&amp;");
        } else if c == '<' {
            out.push_str("&lt;");
        } else if c == '>' {
            out.push_str("&gt;");
        } else if c == '"' {
            out.push_str("&quot;");
        } else if text::is_control(c) {
            out.push(' ');
            proof {
                assert(before.push(' ') =~= before + seq![' ']);
            }
        } else {
            out.push(c);
            proof {
                assert(before.push(c) =~= before + seq![c]);
            }
        }
    }
    proof {
        assert(s@.take(s@.len() as int) =~= s@);
    }
    out
}

/// The first of several openings from `from` on: where it stands and which it
/// is. Of two in one place, the one listed first.
pub open spec fn first_opening(s: Seq<char>, openings: Seq<Seq<char>>, from: int) -> Option<
    (int, int),
>
    decreases openings.len(),
{
    if openings.len() == 0 {
        None
    } else {
        let last = openings.len() - 1;
        let at = text::seek(s, openings.last(), from);
        match first_opening(s, openings.drop_last(), from) {
            None => if at >= 0 {
                Some((at, last))
            } else {
                None
            },
            Some((other, which)) => if 0 <= at < other {
                Some((at, last))
            } else {
                Some((other, which))
            },
        }
    }
}

/// Whether a tag name ends at a position, so that `<dc:title` is not taken for
/// the start of a longer name.
pub open spec fn bounded(s: Seq<char>, i: int) -> bool {
    0 <= i < s.len() && (s[i] == '>' || text::white(s[i]))
}

/// A document from `from` on without the elements that open one of several
/// ways. Everything that is not such an element stays exactly as written.
pub open spec fn without_from(
    s: Seq<char>,
    from: int,
    openings: Seq<Seq<char>>,
    closing: Seq<char>,
) -> Seq<char>
    decreases s.len() - from,
    via without_decreases
{
    match first_opening(s, openings, from) {
        None => s.skip(from),
        Some((at, which)) => {
            let past = at + openings[which].len();
            let end = text::index_from(s, '>', at);
            let close = text::seek(s, closing, end + 1);
            if from < 0 || from >= s.len() || openings[which].len() == 0 {
                s.skip(from)
            } else if !bounded(s, past) {
                s.subrange(from, past) + without_from(s, past, openings, closing)
            } else if end >= s.len() {
                s.skip(from)
            } else if end > at && s[end - 1] == '/' {
                s.subrange(from, at) + without_from(s, end + 1, openings, closing)
            } else if close < 0 {
                s.skip(from)
            } else {
                s.subrange(from, at) + without_from(s, close + closing.len(), openings, closing)
            }
        },
    }
}

#[via_fn]
proof fn without_decreases(
    s: Seq<char>,
    from: int,
    openings: Seq<Seq<char>>,
    closing: Seq<char>,
) {
    if 0 <= from < s.len() {
        first_opening_range(s, openings, from);
        if let Some((at, which)) = first_opening(s, openings, from) {
            text::index_from_range(s, '>', at);
            let end = text::index_from(s, '>', at);
            text::seek_range(s, closing, end + 1);
        }
    }
}

pub(crate) proof fn first_opening_range(s: Seq<char>, openings: Seq<Seq<char>>, from: int)
    requires
        0 <= from,
    ensures
        first_opening(s, openings, from) matches Some((at, which)) ==> from <= at && 0 <= which
            < openings.len() && at + openings[which].len() <= s.len() && text::at(
            s,
            openings[which],
            at,
        ),
    decreases openings.len(),
{
    if openings.len() > 0 {
        first_opening_range(s, openings.drop_last(), from);
        text::seek_range(s, openings.last(), from);
    }
}

fn find_opening(s: &[char], openings: &Vec<Vec<char>>, from: usize) -> (r: Option<(usize, usize)>)
    ensures
        match (r, first_opening(s@, openings.deep_view(), from as int)) {
            (Some((at, which)), Some(wanted)) => (at as int, which as int) == wanted && from <= at
                && which < openings@.len() && at + openings@[which as int]@.len() <= s@.len(),
            (None, None) => true,
            _ => false,
        },
{
    let ghost all = openings.deep_view();
    let mut found: Option<(usize, usize)> = None;
    for i in 0..openings.len()
        invariant
            all == openings.deep_view(),
            match (found, first_opening(s@, all.take(i as int), from as int)) {
                (Some((at, which)), Some(wanted)) => (at as int, which as int) == wanted && from
                    <= at && which < i && at + openings@[which as int]@.len() <= s@.len(),
                (None, None) => true,
                _ => false,
            },
    {
        proof {
            assert(all.take(i as int + 1).drop_last() =~= all.take(i as int));
            assert(all[i as int] =~= openings@[i as int]@);
        }
        match text::find(s, openings[i].as_slice(), from) {
            Some(at) => {
                let sooner = match found {
                    Some((other, _)) => at < other,
                    None => true,
                };
                if sooner {
                    found = Some((at, i));
                }
            },
            None => {},
        }
    }
    proof {
        assert(all.take(all.len() as int) =~= all);
    }
    found
}

/// A document without the elements that open one of several ways.
pub open spec fn removed(s: Seq<char>, openings: Seq<Seq<char>>, closing: Seq<char>) -> Seq<char> {
    without_from(s, 0, openings, closing)
}

/// A list of names, each read as what it says.
pub open spec fn names(list: Seq<&str>) -> Seq<Seq<char>> {
    Seq::new(list.len(), |i: int| list[i]@)
}

/// Remove every element of a kind, wherever it sits, by splicing out the text
/// between its opening and closing tags. The document is not reparsed, so
/// everything this does not name survives exactly as written.
pub fn without(document: &str, opening: &[&str], closing: &str) -> (r: String)
    ensures
        r@ == removed(document@, names(opening@), closing@),
{
    let s = text::chars(document);
    let end_tag = text::chars(closing);
    let mut openings: Vec<Vec<char>> = Vec::new();
    for i in 0..opening.len()
        invariant
            openings.deep_view() == names(opening@).take(i as int),
    {
        let ghost so_far = openings.deep_view();
        let name = text::chars(opening[i]);
        proof {
            assert(name.deep_view() =~= name@);
            assert(names(opening@).take(i as int + 1) =~= so_far.push(name@));
        }
        openings.push(name);
        proof {
            assert(openings.deep_view() =~= so_far.push(name@));
        }
    }
    let ghost all = names(opening@);
    proof {
        assert(all.take(all.len() as int) =~= all);
    }
    let mut out = String::new();
    let mut from: usize = 0;
    let ghost goal = without_from(s@, 0, all, closing@);
    proof {
        assert(out@ + goal =~= goal);
    }
    let length: usize = s.len();
    loop
        invariant_except_break
            from <= s@.len() == length,
            end_tag@ == closing@,
            openings.deep_view() == all,
            goal == out@ + without_from(s@, from as int, all, closing@),
        ensures
            from <= s@.len(),
            goal == out@ + s@.skip(from as int),
        decreases s@.len() - from,
    {
        let ghost before = out@;
        if from == s.len() {
            proof {
                at_the_end(s@, all, closing@);
            }
            break;
        }
        let (at, which) = match find_opening(s.as_slice(), &openings, from) {
            Some(found) => found,
            None => {
                break;
            },
        };
        proof {
            assert(all[which as int] =~= openings@[which as int]@);
            first_opening_range(s@, all, from as int);
            text::index_from_range(s@, '>', at as int);
        }
        let past: usize = at + openings[which].len();
        if openings[which].len() == 0 {
            break;
        }
        if !(past < s.len() && (s[past] == '>' || text::is_white(s[past]))) {
            let part = text::slice(s.as_slice(), from, past);
            out.push_str(part.as_str());
            proof {
                let rest = without_from(s@, past as int, all, closing@);
                assert(before + (part@ + rest) =~= (before + part@) + rest);
            }
            from = past;
            continue;
        }
        let end = text::find_char(s.as_slice(), '>', at);
        if end == s.len() {
            break;
        }
        let head = text::slice(s.as_slice(), from, at);
        if end > at && s[end - 1] == '/' {
            // An empty element closes itself and has no closing tag to find.
            out.push_str(head.as_str());
            proof {
                let rest = without_from(s@, end as int + 1, all, closing@);
                assert(before + (head@ + rest) =~= (before + head@) + rest);
            }
            from = end + 1;
            continue;
        }
        match text::find(s.as_slice(), end_tag.as_slice(), end + 1) {
            Some(close) => {
                out.push_str(head.as_str());
                let next: usize = close + end_tag.len();
                proof {
                    let rest = without_from(s@, next as int, all, closing@);
                    assert(before + (head@ + rest) =~= (before + head@) + rest);
                }
                from = next;
            },
            None => {
                break;
            },
        }
    }
    let tail = text::slice(s.as_slice(), from, s.len());
    proof {
        assert(tail@ =~= s@.skip(from as int));
    }
    out.push_str(tail.as_str());
    out
}

proof fn at_the_end(s: Seq<char>, openings: Seq<Seq<char>>, closing: Seq<char>)
    ensures
        without_from(s, s.len() as int, openings, closing) == s.skip(s.len() as int),
{
}

/// What an edit sets a field to, if it sets it to anything.
pub open spec fn wanted(field: Option<Seq<char>>) -> Option<Seq<char>> {
    match field {
        Some(words) => said(words),
        None => None,
    }
}

fn want(field: &Option<String>) -> (r: Option<String>)
    ensures
        r.deep_view() == wanted(field.deep_view()),
{
    match field {
        Some(words) => {
            let words = text::trim(words.as_str());
            if words.as_str().is_empty() {
                None
            } else {
                Some(words)
            }
        },
        None => None,
    }
}

/// The metadata of a package document without what an edit replaces: a series in both
/// spellings, and a position in both that are written here. What the edit leaves out
/// stays, and so does a position that refines a collection of another name, which is
/// read only where Calibre's is missing.
pub open spec fn cleared(head: Seq<char>, edit: EditView) -> Seq<char> {
    let head = if edit.title is Some {
        removed(
            removed(head, seq!["<dc:title"@, "<title"@], "</dc:title>"@),
            seq!["<title"@],
            "</title>"@,
        )
    } else {
        head
    };
    let head = if edit.author is Some {
        removed(
            removed(head, seq!["<dc:creator"@, "<creator"@], "</dc:creator>"@),
            seq!["<creator"@],
            "</creator>"@,
        )
    } else {
        head
    };
    let head = if edit.series is Some {
        removed(
            removed(head, seq!["<meta name=\"calibre:series\""@], "</meta>"@),
            seq!["<meta property=\"belongs-to-collection\""@],
            "</meta>"@,
        )
    } else {
        head
    };
    if edit.series_index is Some {
        removed(
            removed(head, seq!["<meta name=\"calibre:series_index\""@], "</meta>"@),
            seq!["<meta refines=\"#crossload-series\""@],
            "</meta>"@,
        )
    } else {
        head
    }
}

/// The position an edit writes: none where it clears the series.
pub open spec fn position_of(edit: EditView) -> Option<Seq<char>> {
    if edit.series is Some && wanted(edit.series) is None {
        None
    } else {
        wanted(edit.series_index)
    }
}

/// The elements that say where in a series a book is.
pub open spec fn index_added(index: Option<Seq<char>>) -> Seq<char> {
    match index {
        None => Seq::empty(),
        Some(index) => "<meta name=\"calibre:series_index\" content=\""@ + escaped_text(index)
            + "\"/>"@ + (
        "<meta refines=\"#crossload-series\" property=\"group-position\">"@ + escaped_text(index)
            + "</meta>"@),
    }
}

/// The elements that name a series. Written both ways: Calibre's pair is what
/// most tools read, and the EPUB 3 collection is what the standard says.
pub open spec fn series_added(series: Option<Seq<char>>) -> Seq<char> {
    match wanted(series) {
        None => Seq::empty(),
        Some(series) => "<meta name=\"calibre:series\" content=\""@ + escaped_text(series)
            + "\"/>"@ + (
        "<meta property=\"belongs-to-collection\" id=\"crossload-series\">"@ + escaped_text(series)
            + "</meta>"@),
    }
}

pub open spec fn title_added(title: Option<Seq<char>>) -> Seq<char> {
    match wanted(title) {
        None => Seq::empty(),
        Some(title) => "<dc:title>"@ + escaped_text(title) + "</dc:title>"@,
    }
}

pub open spec fn author_added(author: Option<Seq<char>>) -> Seq<char> {
    match wanted(author) {
        None => Seq::empty(),
        Some(author) => "<dc:creator>"@ + escaped_text(author) + "</dc:creator>"@,
    }
}

/// A package document with an edit applied, or why it cannot be.
pub open spec fn edited(package: Seq<char>, edit: EditView) -> Result<Seq<char>, Seq<char>> {
    let at = text::seek(package, "</metadata>"@, 0);
    if at < 0 {
        Err("the package document has no metadata to change"@)
    } else {
        match position_of(edit) {
            Some(index) if !text::numeral(index) => Err(
                "a position in a series has to be a number, not "@ + index,
            ),
            _ => Ok(
                cleared(package.take(at), edit) + (title_added(edit.title) + author_added(
                    edit.author,
                ) + (series_added(edit.series) + index_added(position_of(edit))))
                    + package.skip(at),
            ),
        }
    }
}

/// An edit never touches what follows the metadata, nor adds anything but the
/// elements it asks for.
pub proof fn editing_leaves_the_rest(package: Seq<char>, edit: EditView)
    ensures
        edited(package, edit) matches Ok(after) ==> {
            let at = text::seek(package, "</metadata>"@, 0);
            &&& at >= 0
            &&& after.len() >= package.len() - at
            &&& after.skip(after.len() - (package.len() - at)) == package.skip(at)
        },
        edit.is_empty() && edited(package, edit) is Ok ==> edited(package, edit) == Ok::<
            Seq<char>,
            Seq<char>,
        >(package),
{
    let at = text::seek(package, "</metadata>"@, 0);
    text::seek_range(package, "</metadata>"@, 0);
    if let Ok(after) = edited(package, edit) {
        assert(after.skip(after.len() - (package.len() - at)) =~= package.skip(at));
        if edit.is_empty() {
            assert(after =~= package);
        }
    }
}

/// A document without the elements of one opening.
fn without_one(document: &str, opening: &str, closing: &str) -> (r: String)
    ensures
        r@ == removed(document@, seq![opening@], closing@),
{
    let list: [&str; 1] = [opening];
    proof {
        assert(names(list@) =~= seq![opening@]);
    }
    without(document, &list, closing)
}

fn without_two(document: &str, first: &str, second: &str, closing: &str) -> (r: String)
    ensures
        r@ == removed(document@, seq![first@, second@], closing@),
{
    let list: [&str; 2] = [first, second];
    proof {
        assert(names(list@) =~= seq![first@, second@]);
    }
    without(document, &list, closing)
}

fn clear(head: String, edit: &Edit) -> (r: String)
    ensures
        r@ == cleared(head@, edit@),
{
    let mut head = head;
    if edit.title.is_some() {
        head = without_two(head.as_str(), "<dc:title", "<title", "</dc:title>");
        head = without_one(head.as_str(), "<title", "</title>");
    }
    if edit.author.is_some() {
        head = without_two(head.as_str(), "<dc:creator", "<creator", "</dc:creator>");
        head = without_one(head.as_str(), "<creator", "</creator>");
    }
    if edit.series.is_some() {
        head = without_one(head.as_str(), "<meta name=\"calibre:series\"", "</meta>");
        head = without_one(head.as_str(), "<meta property=\"belongs-to-collection\"", "</meta>");
    }
    if edit.series_index.is_some() {
        head = without_one(head.as_str(), "<meta name=\"calibre:series_index\"", "</meta>");
        head = without_one(head.as_str(), "<meta refines=\"#crossload-series\"", "</meta>");
    }
    head
}

/// Apply an edit to a package document, leaving everything it does not name.
pub fn edited_package(package: &str, edit: &Edit) -> (r: Result<String, String>)
    ensures
        result_view(r) == edited(package@, edit@),
{
    let c = text::chars(package);
    let at = match text::find(c.as_slice(), text::chars("</metadata>").as_slice(), 0) {
        Some(at) => at,
        None => return Err("the package document has no metadata to change".to_owned()),
    };
    let first = text::slice(c.as_slice(), 0, at);
    let tail = text::slice(c.as_slice(), at, c.len());
    proof {
        assert(first@ =~= package@.take(at as int));
        assert(tail@ =~= package@.skip(at as int));
    }
    let head = clear(first, edit);
    let title = match want(&edit.title) {
        Some(title) => text::concat3("<dc:title>", escaped(title.as_str()).as_str(), "</dc:title>"),
        None => String::new(),
    };
    let author = match want(&edit.author) {
        Some(author) => text::concat3(
            "<dc:creator>",
            escaped(author.as_str()).as_str(),
            "</dc:creator>",
        ),
        None => String::new(),
    };
    let named = want(&edit.series);
    let index = if edit.series.is_some() && named.is_none() {
        None
    } else {
        want(&edit.series_index)
    };
    let series = match named {
        None => String::new(),
        Some(series) => {
            let series = escaped(series.as_str());
            let old = text::concat3(
                "<meta name=\"calibre:series\" content=\"",
                series.as_str(),
                "\"/>",
            );
            let new = text::concat3(
                "<meta property=\"belongs-to-collection\" id=\"crossload-series\">",
                series.as_str(),
                "</meta>",
            );
            text::concat(old.as_str(), new.as_str())
        },
    };
    let position = match index {
        None => String::new(),
        Some(index) => {
            if !text::is_numeral(index.as_str()) {
                return Err(
                    text::concat(
                        "a position in a series has to be a number, not ",
                        index.as_str(),
                    ),
                );
            }
            let index = escaped(index.as_str());
            let old = text::concat3(
                "<meta name=\"calibre:series_index\" content=\"",
                index.as_str(),
                "\"/>",
            );
            let new = text::concat3(
                "<meta refines=\"#crossload-series\" property=\"group-position\">",
                index.as_str(),
                "</meta>",
            );
            text::concat(old.as_str(), new.as_str())
        },
    };
    let series = text::concat(series.as_str(), position.as_str());
    let added = text::concat3(title.as_str(), author.as_str(), series.as_str());
    Ok(text::concat3(head.as_str(), added.as_str(), tail.as_str()))
}

/// The members of a book from `from` on with its package document changed, and
/// whether that document was among them.
pub open spec fn changed_members(
    data: Seq<u8>,
    members: Seq<MemberView>,
    package: Seq<char>,
    edit: EditView,
    from: int,
) -> Result<(Seq<PackedView>, nat), Seq<char>>
    decreases members.len() - from,
{
    if from < 0 || from >= members.len() {
        Ok((Seq::empty(), 0))
    } else if let Some(words) = members[from].problem {
        Err(words)
    } else if members[from].name == "mimetype"@ {
        changed_members(data, members, package, edit, from + 1)
    } else if members[from].folder() {
        match changed_members(data, members, package, edit, from + 1) {
            Err(words) => Err(words),
            Ok((rest, count)) => Ok((seq![folder(members[from].name)] + rest, count)),
        }
    } else {
        match bytes_of(data, from as usize, u64::MAX) {
            Err(words) => Err(words),
            Ok(bytes) => match changed(members[from].name == package, bytes, edit) {
                Err(words) => Err(words),
                Ok(after) => match changed_members(data, members, package, edit, from + 1) {
                    Err(words) => Err(words),
                    Ok((rest, count)) => Ok(
                        (
                            seq![file(members[from].name, after)] + rest,
                            if members[from].name == package {
                                count + 1
                            } else {
                                count
                            },
                        ),
                    ),
                },
            },
        }
    }
}

/// What becomes of a file: only the package document changes.
pub open spec fn changed(is_package: bool, bytes: Seq<u8>, edit: EditView) -> Result<
    Seq<u8>,
    Seq<char>,
> {
    if !is_package {
        Ok(bytes)
    } else {
        match decoded(bytes) {
            Err(words) => Err("the package document is not text this can change: "@ + words),
            Ok(text) => match edited(text, edit) {
                Err(words) => Err(words),
                Ok(after) => Ok(vstd::utf8::encode_utf8(after)),
            },
        }
    }
}

fn change(is_package: bool, bytes: Vec<u8>, edit: &Edit) -> (r: Result<Vec<u8>, String>)
    ensures
        archive::bytes_view(r) == changed(is_package, bytes@, edit@),
{
    if !is_package {
        return Ok(bytes);
    }
    let words = match text::decode(bytes.as_slice()) {
        Ok(words) => words,
        Err(words) => {
            return Err(
                text::concat(
                    "the package document is not text this can change: ",
                    words.as_str(),
                ),
            );
        },
    };
    match edited_package(words.as_str(), edit) {
        Ok(after) => Ok(crate::kepub::copied(after.as_str().as_bytes())),
        Err(words) => Err(words),
    }
}

fn change_members(data: &[u8], members: &Vec<Member>, package: &str, edit: &Edit) -> (r: Result<
    (Vec<Packed>, bool),
    String,
>)
    ensures
        match (r, changed_members(data@, members.deep_view(), package@, edit@, 0)) {
            (Ok((packed, any)), Ok((wanted, count))) => packed.deep_view() == seq![first_member()]
                + wanted && any == (count > 0),
            (Err(words), Err(wanted)) => words@ == wanted,
            _ => false,
        },
{
    let ghost all = members.deep_view();
    let ghost goal = changed_members(data@, all, package@, edit@, 0);
    let ghost mut count: nat = 0;
    let mut out: Vec<Packed> = Vec::new();
    out.push(mimetype_member());
    let mut any = false;
    let ghost mut done: Seq<PackedView> = Seq::empty();
    proof {
        assert(out.deep_view() =~= seq![first_member()] + done);
        if let Ok((rest, n)) = goal {
            assert(done + rest =~= rest);
        }
    }
    let mut i: usize = 0;
    while i < members.len()
        invariant
            i <= members@.len(),
            all == members.deep_view(),
            goal == changed_members(data@, all, package@, edit@, 0),
            goal == crate::kepub::joined(
                done,
                count,
                changed_members(data@, all, package@, edit@, i as int),
            ),
            out.deep_view() == seq![first_member()] + done,
            any == (count > 0),
        decreases members@.len() - i,
    {
        let member = &members[i];
        let ghost before = out.deep_view();
        let ghost rest = changed_members(data@, all, package@, edit@, i as int + 1);
        assert(all[i as int] == member@);
        if let Some(words) = &member.problem {
            return Err(words.duplicate());
        }
        if text::same(member.name.as_str(), "mimetype") {
            i += 1;
            continue;
        }
        let mut counted = false;
        let packed = if member.is_folder() {
            folder_member(member.name.as_str())
        } else {
            match archive::contents(data, i, u64::MAX) {
                Err(words) => return Err(words),
                Ok(bytes) => {
                    counted = text::same(member.name.as_str(), package);
                    match change(counted, bytes, edit) {
                        Err(words) => return Err(words),
                        Ok(after) => file_member(member.name.as_str(), after),
                    }
                },
            }
        };
        let ghost piece = packed@;
        out.push(packed);
        if counted {
            any = true;
        }
        proof {
            if let Ok((members, n)) = rest {
                assert(done + (seq![piece] + members) =~= done.push(piece) + members);
            }
            done = done.push(piece);
            if counted {
                count = count + 1;
            }
            assert(out.deep_view() =~= before.push(piece));
            assert(out.deep_view() =~= seq![first_member()] + done);
        }
        i += 1;
    }
    proof {
        assert(done + Seq::<PackedView>::empty() =~= done);
    }
    Ok((out, any))
}

/// Where a book's package document is, or why that cannot be said.
pub open spec fn located(data: Seq<u8>, members: Seq<MemberView>) -> Result<Seq<char>, Seq<char>> {
    match opened(members, "META-INF/container.xml"@) {
        Err(words) => Err("Book has no container: "@ + words),
        Ok(i) => match bytes_of(data, i as usize, u64::MAX) {
            Err(words) => Err(words),
            Ok(bytes) => if !vstd::utf8::valid_utf8(bytes) {
                Err("stream did not contain valid UTF-8"@)
            } else {
                match xml::document(vstd::utf8::decode_utf8(bytes), true) {
                    Err(words) => Err(words),
                    Ok(nodes) => match package_path(nodes) {
                        None => Err("Book names no package document"@),
                        Some(path) => Ok(path),
                    },
                }
            },
        },
    }
}

pub(crate) fn locate(data: &[u8], members: &Vec<Member>) -> (r: Result<String, String>)
    ensures
        result_view(r) == located(data@, members.deep_view()),
{
    let i = match archive::open_member(members, "META-INF/container.xml") {
        Ok(i) => i,
        Err(words) => return Err(text::concat("Book has no container: ", words.as_str())),
    };
    let bytes = match archive::contents(data, i, u64::MAX) {
        Ok(bytes) => bytes,
        Err(words) => return Err(words),
    };
    let words = match text::decode(bytes.as_slice()) {
        Ok(words) => words,
        Err(_) => return Err("stream did not contain valid UTF-8".to_owned()),
    };
    let nodes = match xml::parse(words.as_str(), true) {
        Ok(nodes) => nodes,
        Err(words) => return Err(words),
    };
    match find_package(&nodes) {
        Some(path) => Ok(path),
        None => Err("Book names no package document".to_owned()),
    }
}

/// The members of a book with an edit applied, or why it cannot be.
pub open spec fn changed_book(data: Seq<u8>, edit: EditView) -> Result<Seq<PackedView>, Seq<char>> {
    if edit.is_empty() {
        Err("nothing to change"@)
    } else {
        match members_of(data) {
            Err(words) => Err("Book is not a readable EPUB: "@ + words),
            Ok(members) => match epub::font_document(data) {
                Err(words) => Err(
                    "This book is still encrypted; its metadata was not changed: "@ + words,
                ),
                Ok(_) => match located(data, members) {
                    Err(words) => Err(words),
                    Ok(package) => match changed_members(data, members, package, edit, 0) {
                        Err(words) => Err(words),
                        Ok((rest, count)) => if count > 0 {
                            Ok(seq![first_member()] + rest)
                        } else {
                            Err("the package document named by this book is missing"@)
                        },
                    },
                },
            },
        }
    }
}

/// Whether a changed book says what was asked for.
pub open spec fn took(edit: EditView, after: epub::MetadataView) -> Option<Seq<char>> {
    if wanted(edit.title) is Some && after.title != wanted(edit.title) {
        Some("the title did not take; nothing was written"@)
    } else if wanted(edit.series) is Some && after.series != wanted(edit.series) {
        Some("the series did not take; nothing was written"@)
    } else {
        None
    }
}

/// Check that a changed book says what was asked for.
pub fn check_edit(edit: &Edit, after: &epub::Metadata) -> (r: Option<String>)
    ensures
        r.deep_view() == took(edit@, after@),
{
    let title = want(&edit.title);
    if title.is_some() && !text::same_option(&after.title, &title) {
        return Some("the title did not take; nothing was written".to_owned());
    }
    let series = want(&edit.series);
    if series.is_some() && !text::same_option(&after.series, &series) {
        return Some("the series did not take; nothing was written".to_owned());
    }
    None
}

/// What is wrong with a changed book.
pub open spec fn flaw(after: Seq<u8>, edit: EditView) -> Option<Seq<char>> {
    match epub::validated(after) {
        Some(words) => Some("the changed book failed validation; nothing was written: "@ + words),
        None => match epub::metadata_of(after) {
            Err(words) => Some(words),
            Ok(None) => Some("the changed book lost its metadata"@),
            Ok(Some(says)) => took(edit, says),
        },
    }
}

/// Whether a change is refused with these words: its members do not fit into one
/// archive, or there is something wrong with the book that they make.
pub open spec fn unchanged(members: Seq<PackedView>, edit: EditView, words: Seq<char>) -> bool {
    ||| !archive::packable(archive::packed_all(members))
    ||| exists|after: Seq<u8>|
        #[trigger] archive::holds(after, archive::packed_all(members)) && flaw(after, edit)
            == Some(words)
}

/// Rewrite a book with new metadata, changing nothing else about it. What was
/// asked for has to be what the book then says, or the change is refused rather
/// than left half applied.
pub fn apply(data: &[u8], edit: &Edit) -> (r: Result<Vec<u8>, String>)
    ensures
        match (r, changed_book(data@, edit@)) {
            (Ok(after), Ok(members)) => {
                &&& archive::holds(after@, archive::packed_all(members))
                &&& epub::validated(after@) is None
                &&& epub::metadata_of(after@) matches Ok(Some(says)) && took(edit@, says) is None
            },
            (Ok(_), Err(_)) => false,
            (Err(words), Err(wanted)) => words@ == wanted,
            (Err(words), Ok(members)) => unchanged(members, edit@, words@),
        },
{
    if edit.is_empty() {
        return Err("nothing to change".to_owned());
    }
    let members = match archive::members(data) {
        Ok(members) => members,
        Err(words) => return Err(text::concat("Book is not a readable EPUB: ", words.as_str())),
    };
    if let Err(words) = epub::font_metadata(data) {
        return Err(
            text::concat(
                "This book is still encrypted; its metadata was not changed: ",
                words.as_str(),
            ),
        );
    }
    let package = match locate(data, &members) {
        Ok(package) => package,
        Err(words) => return Err(words),
    };
    let (packed, any) = match change_members(data, &members, package.as_str(), edit) {
        Ok(made) => made,
        Err(words) => return Err(words),
    };
    if !any {
        return Err("the package document named by this book is missing".to_owned());
    }
    let after = match archive::pack(&packed) {
        Ok(after) => after,
        Err(words) => return Err(words),
    };
    if let Err(words) = epub::validate(after.as_slice()) {
        return Err(
            text::concat(
                "the changed book failed validation; nothing was written: ",
                words.as_str(),
            ),
        );
    }
    match epub::metadata(after.as_slice()) {
        Err(words) => Err(words),
        Ok(None) => Err("the changed book lost its metadata".to_owned()),
        Ok(Some(says)) => match check_edit(edit, &says) {
            Some(words) => Err(words),
            None => Ok(after),
        },
    }
}

} // verus!
