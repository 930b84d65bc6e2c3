//! What kind of book a file is.
//!
//! EPUB is the format Crossload works on: it is unpacked, checked, optimized
//! for the reader's screen and repacked. PDF and CBZ travel byte for byte. They
//! are discovered, identified, copied and verified like any other book, and
//! nothing here ever rewrites one.
use crate::archive;
use crate::archive::{members_of, Member, MemberView};
use crate::epub;
use crate::paths;
use crate::text;
use crate::values::{result_view, Duplicate, Same};
use vstd::prelude::*;

pub mod laws;

verus! {

#[derive(Clone, Copy, Debug, PartialEq, Eq, Structural)]
pub enum Format {
    Epub,
    Pdf,
    Cbz,
}

impl DeepView for Format {
    type V = Format;

    open spec fn deep_view(&self) -> Format {
        *self
    }
}

impl Duplicate for Format {
    fn duplicate(&self) -> (r: Format) {
        *self
    }
}

impl Same for Format {
    fn same(&self, other: &Format) -> (r: bool) {
        *self == *other
    }
}

impl Default for Format {
    fn default() -> (r: Format)
        ensures
            r == Format::Epub,
    {
        Format::Epub
    }
}

/// What follows the last dot of a name, in small letters.
pub open spec fn claimed_extension(name: Seq<char>) -> Option<Seq<char>> {
    let dot = text::last_index(name, '.');
    if dot < 0 {
        None
    } else {
        Some(text::ascii_lowered(name.skip(dot + 1)))
    }
}

fn extension_of(name: &str) -> (r: Option<String>)
    ensures
        r.deep_view() == claimed_extension(name@),
{
    let c = text::chars(name);
    match text::find_last(c.as_slice(), '.') {
        Some(dot) => {
            let rest = text::slice(c.as_slice(), dot + 1, c.len());
            proof {
                assert(name@.skip(dot as int + 1) =~= rest@);
            }
            Some(text::to_ascii_lowercase(rest.as_str()))
        },
        None => None,
    }
}

impl Format {
    pub open spec fn suffix(self) -> Seq<char> {
        match self {
            Format::Epub => "epub"@,
            Format::Pdf => "pdf"@,
            Format::Cbz => "cbz"@,
        }
    }

    pub open spec fn name(self) -> Seq<char> {
        match self {
            Format::Epub => "EPUB"@,
            Format::Pdf => "PDF"@,
            Format::Cbz => "CBZ"@,
        }
    }

    /// The format a name claims, by what follows its last dot.
    pub open spec fn claimed(name: Seq<char>) -> Option<Format> {
        match claimed_extension(name) {
            Some(extension) => if extension == Format::Epub.suffix() {
                Some(Format::Epub)
            } else if extension == Format::Pdf.suffix() {
                Some(Format::Pdf)
            } else if extension == Format::Cbz.suffix() {
                Some(Format::Cbz)
            } else {
                None
            },
            None => None,
        }
    }

    pub fn label(self) -> (r: &'static str)
        ensures
            r@ == self.name(),
    {
        match self {
            Format::Epub => "EPUB",
            Format::Pdf => "PDF",
            Format::Cbz => "CBZ",
        }
    }

    pub fn extension(self) -> (r: &'static str)
        ensures
            r@ == self.suffix(),
    {
        match self {
            Format::Epub => "epub",
            Format::Pdf => "pdf",
            Format::Cbz => "cbz",
        }
    }

    /// Whether Crossload rebuilds this format. Only an EPUB is ever taken apart
    /// and put back together; the rest are copied exactly as they were found,
    /// so image optimization and author-folder renaming do not apply to them.
    pub fn rewritten(self) -> (r: bool)
        ensures
            r == (self == Format::Epub),
    {
        self == Format::Epub
    }

    /// Whether the reader's library will list a file of this format. A PDF
    /// copied to an X4 sits on its storage and is never shown.
    pub fn shown_on_reader(self) -> (r: bool)
        ensures
            r == (self == Format::Epub),
    {
        self == Format::Epub
    }

    /// The format a name claims. The contents still have to agree: `validate`
    /// is what decides whether the claim holds.
    pub fn of(name: &str) -> (r: Option<Format>)
        ensures
            r == Format::claimed(name@),
    {
        match extension_of(name) {
            Some(extension) => {
                let extension = extension.as_str();
                if text::same(extension, "epub") {
                    Some(Format::Epub)
                } else if text::same(extension, "pdf") {
                    Some(Format::Pdf)
                } else if text::same(extension, "cbz") {
                    Some(Format::Cbz)
                } else {
                    None
                }
            },
            None => None,
        }
    }

    /// The format the file at a path claims by its name.
    pub fn of_path(path: &str) -> (r: Option<Format>)
        ensures
            r == match paths::name_of(path@) {
                Some(name) => Format::claimed(name),
                None => None,
            },
    {
        match paths::file_name(path) {
            Some(name) => Format::of(name.as_str()),
            None => None,
        }
    }
}

/// Whether a name claims to be a picture.
pub open spec fn pictured(name: Seq<char>) -> bool {
    match claimed_extension(name) {
        Some(extension) => {
            ||| extension == "jpg"@
            ||| extension == "jpeg"@
            ||| extension == "png"@
            ||| extension == "gif"@
            ||| extension == "webp"@
            ||| extension == "bmp"@
            ||| extension == "avif"@
        },
        None => false,
    }
}

pub fn image(name: &str) -> (r: bool)
    ensures
        r == pictured(name@),
{
    match extension_of(name) {
        Some(extension) => {
            let extension = extension.as_str();
            text::same(extension, "jpg") || text::same(extension, "jpeg") || text::same(
                extension,
                "png",
            ) || text::same(extension, "gif") || text::same(extension, "webp") || text::same(
                extension,
                "bmp",
            ) || text::same(extension, "avif")
        },
        None => false,
    }
}

/// What stands behind the last slash of either kind.
pub open spec fn base_name(s: Seq<char>) -> Seq<char>
    decreases s.len(),
{
    if s.len() == 0 || s.last() == '/' || s.last() == '\\' {
        Seq::empty()
    } else {
        base_name(s.drop_last()).push(s.last())
    }
}

/// A name without the dots and the whitespace it ends with.
pub open spec fn without_tail(s: Seq<char>) -> Seq<char>
    decreases s.len(),
{
    if s.len() > 0 && (s.last() == '.' || text::white(s.last())) {
        without_tail(s.drop_last())
    } else {
        s
    }
}

/// A name up to its last dot, or all of it without one.
pub open spec fn stem(s: Seq<char>) -> Seq<char> {
    let dot = text::last_index(s, '.');
    if dot < 0 {
        s
    } else {
        s.take(dot)
    }
}

/// The title a file's name gives.
pub open spec fn titled(source: Seq<char>) -> Seq<char> {
    let name = text::trimmed(stem(without_tail(base_name(source))));
    if name.len() == 0 {
        "Untitled"@
    } else {
        name
    }
}

proof fn base_name_is_tail(s: Seq<char>, from: int)
    requires
        0 <= from <= s.len(),
        from > 0 ==> s[from - 1] == '/' || s[from - 1] == '\\',
        forall|j: int| from <= j < s.len() ==> s[j] != '/' && s[j] != '\\',
    ensures
        base_name(s) == s.skip(from),
    decreases s.len(),
{
    if from < s.len() {
        base_name_is_tail(s.drop_last(), from);
        assert(s.drop_last().skip(from).push(s.last()) =~= s.skip(from));
    } else {
        assert(s.skip(from) =~= Seq::<char>::empty());
    }
}

/// The title to show for a book whose format carries no metadata: what the file
/// is called, which is the only honest answer available without guessing.
pub fn name_title(source: &str) -> (r: String)
    ensures
        r@ == titled(source@),
{
    let c = text::chars(source);
    let mut from: usize = c.len();
    while from > 0 && c[from - 1] != '/' && c[from - 1] != '\\'
        invariant
            from <= c@.len(),
            forall|j: int| from <= j < c@.len() ==> c@[j] != '/' && c@[j] != '\\',
        decreases from,
    {
        from -= 1;
    }
    let ghost base = c@.skip(from as int);
    proof {
        base_name_is_tail(c@, from as int);
        assert(base =~= c@.subrange(from as int, c@.len() as int));
    }
    let mut to: usize = c.len();
    while to > from && (c[to - 1] == '.' || text::is_white(c[to - 1]))
        invariant
            from <= to <= c@.len(),
            without_tail(base) == without_tail(c@.subrange(from as int, to as int)),
        decreases to,
    {
        proof {
            assert(c@.subrange(from as int, to as int).drop_last() =~= c@.subrange(
                from as int,
                to as int - 1,
            ));
        }
        to -= 1;
    }
    let name = text::slice(c.as_slice(), from, to);
    let n = text::chars(name.as_str());
    let cut: usize = match text::find_last(n.as_slice(), '.') {
        Some(dot) => dot,
        None => n.len(),
    };
    let kept = text::slice(n.as_slice(), 0, cut);
    proof {
        assert(kept@ =~= stem(name@));
    }
    let title = text::trim(kept.as_str());
    if title.as_str().is_empty() {
        "Untitled".to_owned()
    } else {
        title
    }
}

/// Whether some bytes stand among others.
pub open spec fn among(whole: Seq<u8>, part: Seq<u8>) -> bool {
    exists|i: int|
        0 <= i && i + part.len() <= whole.len() && #[trigger] whole.subrange(i, i + part.len())
            == part
}

fn is_among(whole: &[u8], part: &[u8], from: usize, to: usize) -> (r: bool)
    requires
        from <= to <= whole@.len(),
    ensures
        r == among(whole@.subrange(from as int, to as int), part@),
{
    let ghost area = whole@.subrange(from as int, to as int);
    let length: usize = whole.len();
    if part.len() > to - from {
        return false;
    }
    let mut i: usize = from;
    while i <= to - part.len()
        invariant
            from <= i <= to - part@.len() + 1,
            part@.len() <= to - from,
            to <= whole@.len() == length,
            area == whole@.subrange(from as int, to as int),
            forall|k: int|
                0 <= k < i - from ==> #[trigger] area.subrange(k, k + part@.len()) != part@,
        decreases to - i,
    {
        let mut j: usize = 0;
        while j < part.len() && whole[i + j] == part[j]
            invariant
                j <= part@.len(),
                i + part@.len() <= to <= whole@.len() == length,
                forall|k: int| 0 <= k < j ==> whole@[i + k] == part@[k],
            decreases part@.len() - j,
        {
            j += 1;
        }
        proof {
            let here = area.subrange(i - from, i - from + part@.len());
            if j == part@.len() {
                assert(here =~= part@);
            } else {
                assert(here[j as int] != part@[j as int]);
            }
        }
        if j == part.len() {
            return true;
        }
        if i == to - part.len() {
            return false;
        }
        i += 1;
    }
    false
}

/// What keeps some bytes from being a whole PDF. A header is allowed to sit
/// behind a preamble, and the trailer at the very end is how a half-finished
/// download gives itself away.
pub open spec fn pdf_problem(data: Seq<u8>) -> Option<Seq<char>> {
    let head = if data.len() < 1024 {
        data
    } else {
        data.take(1024)
    };
    let tail = if data.len() < 4096 {
        data
    } else {
        data.skip(data.len() - 4096)
    };
    if !among(head, seq![37u8, 80, 68, 70, 45]) {
        Some("Not a PDF: no PDF header in the first kilobyte"@)
    } else if !among(tail, seq![37u8, 37, 69, 79, 70]) {
        Some("PDF is incomplete: it ends without an end-of-file marker"@)
    } else {
        None
    }
}

fn check_pdf(data: &[u8]) -> (r: Option<String>)
    ensures
        r.deep_view() == pdf_problem(data@),
{
    let head: usize = if data.len() < 1024 {
        data.len()
    } else {
        1024
    };
    let tail: usize = if data.len() < 4096 {
        0
    } else {
        data.len() - 4096
    };
    let start = vec![37u8, 80, 68, 70, 45];
    let end = vec![37u8, 37, 69, 79, 70];
    proof {
        assert(start@ =~= seq![37u8, 80, 68, 70, 45]);
        assert(end@ =~= seq![37u8, 37, 69, 79, 70]);
        assert(data@.subrange(0, head as int) =~= if data@.len() < 1024 {
            data@
        } else {
            data@.take(1024)
        });
        assert(data@.subrange(tail as int, data@.len() as int) =~= if data@.len() < 4096 {
            data@
        } else {
            data@.skip(data@.len() - 4096)
        });
    }
    if !is_among(data, start.as_slice(), 0, head) {
        return Some("Not a PDF: no PDF header in the first kilobyte".to_owned());
    }
    if !is_among(data, end.as_slice(), tail, data.len()) {
        return Some("PDF is incomplete: it ends without an end-of-file marker".to_owned());
    }
    None
}

/// Whether any member of an archive is a picture.
pub open spec fn any_picture(members: Seq<MemberView>) -> bool {
    exists|i: int| 0 <= i < members.len() && pictured(#[trigger] members[i].name)
}

pub fn has_picture(members: &Vec<Member>) -> (r: bool)
    ensures
        r == any_picture(members.deep_view()),
{
    for i in 0..members.len()
        invariant
            forall|j: int|
                0 <= j < i ==> !pictured(#[trigger] members.deep_view()[j].name),
    {
        assert(members.deep_view()[i as int] == members@[i as int]@);
        if image(members[i].name.as_str()) {
            assert(pictured(members.deep_view()[i as int].name));
            return true;
        }
    }
    false
}

/// What keeps some bytes from being the format their name claims.
pub open spec fn format_problem(format: Format, data: Seq<u8>) -> Option<Seq<char>> {
    match format {
        Format::Epub => match epub::validated(data) {
            Some(words) => Some(words),
            None => match epub::font_document(data) {
                Err(words) => Some(words),
                Ok(_) => None,
            },
        },
        Format::Pdf => pdf_problem(data),
        Format::Cbz => match epub::inspected(data) {
            Some(words) => Some("Not a readable CBZ: "@ + words),
            None => match members_of(data) {
                Err(words) => Some(words),
                Ok(members) => if any_picture(members) {
                    None
                } else {
                    Some("CBZ holds no pages: no images inside it"@)
                },
            },
        },
    }
}

/// Confirm a file really is what its name claims. An EPUB gets the structural
/// validation it always had, because it is about to be taken apart; the others
/// only have to be whole, because nothing will touch their insides.
pub fn validate(format: Format, data: &[u8]) -> (r: Result<(), String>)
    ensures
        result_view(r) == epub::refused(format_problem(format, data@)),
{
    match format {
        Format::Epub => {
            if let Err(words) = epub::validate(data) {
                return Err(words);
            }
            match epub::font_metadata(data) {
                Ok(_) => Ok(()),
                Err(words) => Err(words),
            }
        },
        Format::Pdf => match check_pdf(data) {
            Some(words) => Err(words),
            None => Ok(()),
        },
        Format::Cbz => {
            if let Err(words) = epub::inspect(data) {
                return Err(text::concat("Not a readable CBZ: ", words.as_str()));
            }
            match archive::members(data) {
                Err(words) => Err(words),
                Ok(members) => if has_picture(&members) {
                    Ok(())
                } else {
                    Err("CBZ holds no pages: no images inside it".to_owned())
                },
            }
        },
    }
}

} // verus!
