//! The library as a program shows it: what is listed, what a key does to it,
//! and what each screen says. Drawing, the terminal and all outside work are
//! left to the program around it.
use crate::books::{Book, BookView};
use crate::position::{Position, PositionView};
use crate::text;
use crate::values::{Duplicate, Same};
use vstd::prelude::*;

pub mod backend;
pub mod change;
pub mod edit;
pub mod field;
pub mod keys;
pub mod laws;
pub mod model;
pub mod settings;
pub mod update;
pub mod view;

verus! {

broadcast use vstd::string::group_string_axioms;

#[derive(Clone, Debug, PartialEq, Eq)]
pub struct Options {
    pub config: String,
    pub first_run: bool,
    pub show_previews: bool,
    pub device: Option<String>,
    pub browse: String,
    pub output: String,
    pub state: Option<String>,
    pub send_to: Option<String>,
    pub copy_to: Option<String>,
    pub folder: String,
    pub optimize: bool,
    pub kepub: bool,
    pub organized: bool,
    pub serial: Option<String>,
    /// The home folder, when there is one, and the folder the program runs in.
    pub home: Option<String>,
    pub here: String,
}

#[verifier::ext_equal]
pub struct OptionsView {
    pub config: Seq<char>,
    pub first_run: bool,
    pub show_previews: bool,
    pub device: Option<Seq<char>>,
    pub browse: Seq<char>,
    pub output: Seq<char>,
    pub state: Option<Seq<char>>,
    pub send_to: Option<Seq<char>>,
    pub copy_to: Option<Seq<char>>,
    pub folder: Seq<char>,
    pub optimize: bool,
    pub kepub: bool,
    pub organized: bool,
    pub serial: Option<Seq<char>>,
    pub home: Option<Seq<char>>,
    pub here: Seq<char>,
}

impl View for Options {
    type V = OptionsView;

    open spec fn view(&self) -> OptionsView {
        OptionsView {
            config: self.config@,
            first_run: self.first_run,
            show_previews: self.show_previews,
            device: self.device.deep_view(),
            browse: self.browse@,
            output: self.output@,
            state: self.state.deep_view(),
            send_to: self.send_to.deep_view(),
            copy_to: self.copy_to.deep_view(),
            folder: self.folder@,
            optimize: self.optimize,
            kepub: self.kepub,
            organized: self.organized,
            serial: self.serial.deep_view(),
            home: self.home.deep_view(),
            here: self.here@,
        }
    }
}

impl DeepView for Options {
    type V = OptionsView;

    open spec fn deep_view(&self) -> OptionsView {
        self@
    }
}

impl Duplicate for Options {
    fn duplicate(&self) -> (r: Options) {
        Options {
            config: self.config.duplicate(),
            first_run: self.first_run,
            show_previews: self.show_previews,
            device: self.device.duplicate(),
            browse: self.browse.duplicate(),
            output: self.output.duplicate(),
            state: self.state.duplicate(),
            send_to: self.send_to.duplicate(),
            copy_to: self.copy_to.duplicate(),
            folder: self.folder.duplicate(),
            optimize: self.optimize,
            kepub: self.kepub,
            organized: self.organized,
            serial: self.serial.duplicate(),
            home: self.home.duplicate(),
            here: self.here.duplicate(),
        }
    }
}

/// Where a listed entry comes from: a book of the library, or a request file
/// that is waiting to be fulfilled.
#[derive(Clone, Debug, PartialEq)]
pub enum Source {
    Book(Box<Book>),
    Local(String),
}

#[verifier::ext_equal]
pub enum SourceView {
    Book(BookView),
    Local(Seq<char>),
}

impl View for Source {
    type V = SourceView;

    open spec fn view(&self) -> SourceView {
        match self {
            Source::Book(book) => SourceView::Book(book.deep_view()),
            Source::Local(path) => SourceView::Local(path@),
        }
    }
}

impl DeepView for Source {
    type V = SourceView;

    open spec fn deep_view(&self) -> SourceView {
        self@
    }
}

impl Duplicate for Source {
    fn duplicate(&self) -> (r: Source) {
        match self {
            Source::Book(book) => Source::Book(book.duplicate()),
            Source::Local(path) => Source::Local(path.duplicate()),
        }
    }
}

impl Same for Source {
    fn same(&self, other: &Source) -> (r: bool) {
        match (self, other) {
            (Source::Book(a), Source::Book(b)) => a.same(b),
            (Source::Local(a), Source::Local(b)) => a.same(b),
            _ => false,
        }
    }
}

/// One row of the library, with what it is sorted and searched by.
#[derive(Clone, Debug)]
pub struct Entry {
    pub title: String,
    pub author: String,
    pub kind: &'static str,
    pub source: Source,
    pub title_key: String,
    pub author_key: String,
    pub series_key: String,
    pub search: String,
}

#[verifier::ext_equal]
pub struct EntryView {
    pub title: Seq<char>,
    pub author: Seq<char>,
    pub kind: Seq<char>,
    pub source: SourceView,
    pub title_key: Seq<char>,
    pub author_key: Seq<char>,
    pub series_key: Seq<char>,
    pub search: Seq<char>,
}

impl View for Entry {
    type V = EntryView;

    open spec fn view(&self) -> EntryView {
        EntryView {
            title: self.title@,
            author: self.author@,
            kind: self.kind@,
            source: self.source@,
            title_key: self.title_key@,
            author_key: self.author_key@,
            series_key: self.series_key@,
            search: self.search@,
        }
    }
}

impl DeepView for Entry {
    type V = EntryView;

    open spec fn deep_view(&self) -> EntryView {
        self@
    }
}

impl Duplicate for Entry {
    fn duplicate(&self) -> (r: Entry) {
        Entry {
            title: self.title.duplicate(),
            author: self.author.duplicate(),
            kind: self.kind,
            source: self.source.duplicate(),
            title_key: self.title_key.duplicate(),
            author_key: self.author_key.duplicate(),
            series_key: self.series_key.duplicate(),
            search: self.search.duplicate(),
        }
    }
}

/// Where a book stands among the series: by series, then by position, and a
/// book of no series behind all that have one.
pub open spec fn series_order(series: Option<Seq<char>>, index: Option<PositionView>) -> Seq<char> {
    match series {
        None => "\u{10ffff}"@,
        Some(series) => text::lowercase(series) + "\u{1}"@ + match index {
            None => Seq::empty(),
            Some(index) => index.ranked(),
        },
    }
}

/// A row as it is made from what it shows.
pub open spec fn entry_of(
    title: Seq<char>,
    author: Seq<char>,
    kind: Seq<char>,
    source: SourceView,
) -> EntryView {
    EntryView {
        title,
        author,
        kind,
        source,
        title_key: text::lowercase(title),
        author_key: text::lowercase(author),
        series_key: match source {
            SourceView::Book(book) => series_order(book.series, book.series_index),
            SourceView::Local(_) => series_order(None, None),
        },
        search: text::lowercase(title + " "@ + author),
    }
}

fn series_key(series: &Option<String>, index: &Option<Position>) -> (r: String)
    ensures
        r@ == series_order(series.deep_view(), index.deep_view()),
{
    match series {
        None => "\u{10ffff}".to_owned(),
        Some(series) => {
            let lower = text::to_lowercase(series.as_str());
            let name = text::concat(lower.as_str(), "\u{1}");
            match index {
                None => {
                    proof {
                        assert(name@ + Seq::<char>::empty() =~= name@);
                    }
                    name
                },
                Some(index) => text::concat(name.as_str(), index.rank().as_str()),
            }
        },
    }
}

impl Entry {
    pub fn new(title: String, author: String, kind: &'static str, source: Source) -> (r: Entry)
        ensures
            r@ == entry_of(title@, author@, kind@, source@),
    {
        let title_key = text::to_lowercase(title.as_str());
        let author_key = text::to_lowercase(author.as_str());
        let both = text::concat3(title.as_str(), " ", author.as_str());
        let search = text::to_lowercase(both.as_str());
        let series_key = match &source {
            Source::Book(book) => series_key(&book.series, &book.series_index),
            Source::Local(_) => series_key(&None, &None),
        };
        Entry { title, author, kind, source, title_key, author_key, series_key, search }
    }
}

/// A key that was struck.
#[derive(Clone, Copy, Debug, PartialEq, Eq, Structural)]
pub enum KeyCode {
    Esc,
    Enter,
    Tab,
    BackTab,
    Up,
    Down,
    Left,
    Right,
    Home,
    End,
    PageUp,
    PageDown,
    Backspace,
    Delete,
    Char(char),
    Other,
}

/// A key with what was held beside it.
#[derive(Clone, Copy, Debug, PartialEq, Eq, Structural)]
pub struct Key {
    pub code: KeyCode,
    pub control: bool,
    pub alt: bool,
    /// Whether the key was let go rather than struck.
    pub release: bool,
}

impl Key {
    /// A key by itself.
    pub fn from_code(code: KeyCode) -> (r: Key)
        ensures
            r == (Key { code, control: false, alt: false, release: false }),
    {
        Key { code, control: false, alt: false, release: false }
    }
}

} // verus!
