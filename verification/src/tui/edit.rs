//! Correcting what a book says about itself, from the library.
//!
//! The draft here is separate from the book until saving succeeds, as the
//! settings panel's is. Only a local EPUB can be corrected: a book that is only
//! on a device is not ours to rewrite, and a PDF or CBZ has no package document
//! to rewrite.
use super::field::{edit_line, LineView};
use super::{Key, KeyCode};
use crate::books;
use crate::books::{Book, BookView, CopyView, Place};
use crate::format::Format;
use crate::metadata::{Edit, EditView};
use crate::text;
use crate::values::{result_view, Duplicate};
use vstd::prelude::*;

pub mod laws;

verus! {

broadcast use vstd::string::group_string_axioms;

/// The rows of the panel: four fields, and the row that saves them.
pub open spec fn row_name(row: int) -> Seq<char> {
    if row == 0 {
        "Title"@
    } else if row == 1 {
        "Author"@
    } else if row == 2 {
        "Series"@
    } else if row == 3 {
        "Position in the series"@
    } else {
        "Save and rescan"@
    }
}

pub fn row_label(row: usize) -> (r: &'static str)
    ensures
        r@ == row_name(row as int),
{
    if row == 0 {
        "Title"
    } else if row == 1 {
        "Author"
    } else if row == 2 {
        "Series"
    } else if row == 3 {
        "Position in the series"
    } else {
        "Save and rescan"
    }
}

/// What each row is for; a row past the last reads as the last.
pub open spec fn row_help(row: int) -> Seq<char> {
    if row == 0 {
        "What the book is called. Emptying it keeps the title it has."@
    } else if row == 1 {
        "One spelling, for every book that shares an author."@
    } else if row == 2 {
        "The series this belongs to, written both ways so any reader finds it."@
    } else if row == 3 {
        "Its number in that series. 2 sorts before 10, and 1.5 between them."@
    } else {
        "Rewrites the local copy. Only its metadata changes, so copies already on a device still count as the same book."@
    }
}

fn help(row: usize) -> (r: &'static str)
    ensures
        r@ == row_help(row as int),
{
    if row == 0 {
        "What the book is called. Emptying it keeps the title it has."
    } else if row == 1 {
        "One spelling, for every book that shares an author."
    } else if row == 2 {
        "The series this belongs to, written both ways so any reader finds it."
    } else if row == 3 {
        "Its number in that series. 2 sorts before 10, and 1.5 between them."
    } else {
        "Rewrites the local copy. Only its metadata changes, so copies already on a device still count as the same book."
    }
}

/// A correction to make to the file at a path.
#[derive(Clone, Debug, PartialEq, Eq)]
pub struct Task {
    pub path: String,
    pub edit: Edit,
}

#[verifier::ext_equal]
pub struct TaskView {
    pub path: Seq<char>,
    pub edit: EditView,
}

impl View for Task {
    type V = TaskView;

    open spec fn view(&self) -> TaskView {
        TaskView { path: self.path@, edit: self.edit@ }
    }
}

impl DeepView for Task {
    type V = TaskView;

    open spec fn deep_view(&self) -> TaskView {
        self@
    }
}

/// What a key asks of the program around the panel.
#[derive(Debug)]
pub enum Action {
    Nothing,
    Close,
    Run(Task),
}

#[verifier::ext_equal]
pub enum ActionView {
    Nothing,
    Close,
    Run(TaskView),
}

impl View for Action {
    type V = ActionView;

    open spec fn view(&self) -> ActionView {
        match self {
            Action::Nothing => ActionView::Nothing,
            Action::Close => ActionView::Close,
            Action::Run(task) => ActionView::Run(task@),
        }
    }
}

#[derive(Clone, Debug)]
pub struct Panel {
    pub values: [String; 4],
    pub selected: usize,
    /// While editing: the value to go back to, and how many characters stand
    /// before the cursor.
    pub edit: Option<(String, usize)>,
    /// A complaint, shown in place of the selected row's hint.
    pub message: String,
    pub book: String,
    pub path: String,
    pub before: [String; 4],
}

#[verifier::ext_equal]
pub struct PanelView {
    pub values: Seq<Seq<char>>,
    pub selected: usize,
    pub edit: Option<(Seq<char>, usize)>,
    pub message: Seq<char>,
    pub book: Seq<char>,
    pub path: Seq<char>,
    pub before: Seq<Seq<char>>,
}

impl View for Panel {
    type V = PanelView;

    open spec fn view(&self) -> PanelView {
        PanelView {
            values: self.values.deep_view(),
            selected: self.selected,
            edit: self.edit.deep_view(),
            message: self.message@,
            book: self.book@,
            path: self.path@,
            before: self.before.deep_view(),
        }
    }
}

impl DeepView for Panel {
    type V = PanelView;

    open spec fn deep_view(&self) -> PanelView {
        self@
    }
}

/// The first copy that can be corrected, from `from` on, or the length.
pub open spec fn correctable(copies: Seq<CopyView>, from: int) -> int
    decreases copies.len() - from,
{
    if from < 0 || from >= copies.len() {
        copies.len() as int
    } else if copies[from].place == Place::Local && copies[from].format == Format::Epub {
        from
    } else {
        correctable(copies, from + 1)
    }
}

fn find_correctable(copies: &Vec<books::Copy>) -> (r: usize)
    ensures
        r == correctable(copies.deep_view(), 0),
        r <= copies@.len(),
{
    let mut i: usize = 0;
    while i < copies.len()
        invariant
            i <= copies@.len(),
            correctable(copies.deep_view(), 0) == correctable(copies.deep_view(), i as int),
        decreases copies@.len() - i,
    {
        assert(copies.deep_view()[i as int] == copies@[i as int]@);
        if copies[i].place == Place::Local && copies[i].format.rewritten() {
            return i;
        }
        i += 1;
    }
    i
}

/// What a book's fields say before anything is changed.
pub open spec fn fields(book: BookView) -> Seq<Seq<char>> {
    seq![
        book.title,
        book.author,
        match book.series {
            Some(series) => series,
            None => Seq::empty(),
        },
        match book.series_index {
            Some(index) => index.written(),
            None => Seq::empty(),
        },
    ]
}

/// A panel for a book, or the reason there cannot be one.
pub open spec fn panel_for(book: BookView) -> Result<PanelView, Seq<char>> {
    let i = correctable(book.copies, 0);
    if i >= book.copies.len() {
        Err("Only a local EPUB can be corrected; copy it here first"@)
    } else if book.copies[i].sha.len() == 0 {
        Err("This copy could not be read during discovery; resolve that first"@)
    } else {
        Ok(
            PanelView {
                values: fields(book),
                selected: 0,
                edit: None,
                message: Seq::empty(),
                book: book.title,
                path: book.copies[i].path,
                before: fields(book),
            },
        )
    }
}

impl PanelView {
    pub open spec fn hint(self) -> Seq<char> {
        if self.message.len() > 0 {
            self.message
        } else {
            row_help(self.selected as int)
        }
    }

    /// A field's new value, if it was changed.
    pub open spec fn changed(self, row: int) -> Option<Seq<char>> {
        if text::trimmed(self.values[row]) != text::trimmed(self.before[row]) {
            Some(text::trimmed(self.values[row]))
        } else {
            None
        }
    }

    /// Only what was actually changed is written; a series that was changed
    /// without its position keeps the position it had.
    pub open spec fn wanted(self) -> EditView {
        EditView {
            title: self.changed(0),
            author: self.changed(1),
            series: self.changed(2),
            series_index: if self.changed(3) is Some {
                self.changed(3)
            } else if self.changed(2) is Some {
                Some(text::trimmed(self.values[3]))
            } else {
                None
            },
        }
    }

    pub open spec fn saved(self) -> (PanelView, ActionView) {
        if self.wanted().is_empty() {
            (PanelView { message: "Nothing was changed."@, ..self }, ActionView::Nothing)
        } else if text::trimmed(self.values[0]).len() == 0 {
            (
                PanelView { selected: 0, message: "A book needs a title."@, ..self },
                ActionView::Nothing,
            )
        } else if text::trimmed(self.values[3]).len() > 0 && !text::numeral(
            text::trimmed(self.values[3]),
        ) {
            (
                PanelView {
                    selected: 3,
                    message: "A position in a series has to be a number."@,
                    ..self
                },
                ActionView::Nothing,
            )
        } else {
            (self, ActionView::Run(TaskView { path: self.path, edit: self.wanted() }))
        }
    }

    /// The next row, going round; the message gives way to the row's hint.
    pub open spec fn down(self) -> PanelView {
        PanelView {
            selected: ((self.selected as int + 1) % 5) as usize,
            message: Seq::empty(),
            ..self
        }
    }

    pub open spec fn up(self) -> PanelView {
        PanelView {
            selected: ((self.selected as int + 4) % 5) as usize,
            message: Seq::empty(),
            ..self
        }
    }

    /// What a key does while a field is being edited.
    pub open spec fn editing(self, original: Seq<char>, cursor: usize, key: Key) -> PanelView {
        match key.code {
            KeyCode::Esc => PanelView {
                values: if self.selected < 4 {
                    self.values.update(self.selected as int, original)
                } else {
                    self.values
                },
                edit: None,
                ..self
            },
            KeyCode::Enter | KeyCode::Tab => PanelView { edit: None, ..self.down() },
            _ => if self.selected < 4 {
                let line = (LineView {
                    value: self.values[self.selected as int],
                    cursor: cursor as nat,
                }).after(key);
                PanelView {
                    values: self.values.update(self.selected as int, line.value),
                    edit: Some((original, line.cursor as usize)),
                    ..self
                }
            } else {
                self
            },
        }
    }

    /// What a key does, and what it asks for.
    #[verifier::opaque]
    pub open spec fn after(self, key: Key) -> (PanelView, ActionView) {
        if key.code == KeyCode::Char('s') && key.control {
            (PanelView { edit: None, ..self }).saved()
        } else {
            match self.edit {
                Some((original, cursor)) => (
                    self.editing(original, cursor, key),
                    ActionView::Nothing,
                ),
                None => match key.code {
                    KeyCode::Esc => (self, ActionView::Close),
                    KeyCode::Down | KeyCode::Tab => (self.down(), ActionView::Nothing),
                    KeyCode::Up | KeyCode::BackTab => (self.up(), ActionView::Nothing),
                    _ => if self.selected < 4 && (key.code == KeyCode::Enter || key.code
                        == KeyCode::Char('e')) {
                        (
                            PanelView {
                                message: Seq::empty(),
                                edit: Some(
                                    (
                                        self.values[self.selected as int],
                                        self.values[self.selected as int].len() as usize,
                                    ),
                                ),
                                ..self
                            },
                            ActionView::Nothing,
                        )
                    } else if key.code == KeyCode::Enter {
                        self.saved()
                    } else {
                        (self, ActionView::Nothing)
                    },
                },
            }
        }
    }
}

/// Leaving a field with Esc gives back exactly what it held.
pub proof fn escape_undoes_an_edit(panel: PanelView, key: Key, typed: Key)
    requires
        panel.values.len() == 4,
        panel.edit is None,
        panel.selected < 4,
        key.code == KeyCode::Enter,
        typed.code matches KeyCode::Char(_),
        !(typed.code == KeyCode::Char('s') && typed.control),
    ensures
        ({
            let opened = panel.after(key).0;
            let after = opened.after(typed).0;
            let back = after.after(Key { code: KeyCode::Esc, ..key }).0;
            back.values == panel.values && back.edit is None
        }),
{
    reveal(PanelView::after);
    let opened = panel.after(key).0;
    let after = opened.after(typed).0;
    let back = after.after(Key { code: KeyCode::Esc, ..key }).0;
    assert(back.values =~= panel.values);
}

impl Panel {
    /// A panel for a book, or the reason there cannot be one.
    pub fn new(book: &Book) -> (r: Result<Panel, String>)
        ensures
            result_view(r) == panel_for(book@),
    {
        let i = find_correctable(&book.copies);
        if i >= book.copies.len() {
            return Err("Only a local EPUB can be corrected; copy it here first".to_owned());
        }
        assert(book@.copies[i as int] == book.copies@[i as int]@);
        if book.copies[i].sha.as_str().is_empty() {
            return Err("This copy could not be read during discovery; resolve that first".to_owned());
        }
        let title = book.title.duplicate();
        let author = book.author.duplicate();
        let series = match &book.series {
            Some(series) => series.duplicate(),
            None => String::new(),
        };
        let index = match &book.series_index {
            Some(index) => index.label(),
            None => String::new(),
        };
        let panel = Panel {
            before: [title.duplicate(), author.duplicate(), series.duplicate(), index.duplicate()],
            values: [title, author, series, index],
            selected: 0,
            edit: None,
            message: String::new(),
            book: book.title.duplicate(),
            path: book.copies[i].path.duplicate(),
        };
        proof {
            assert(panel@.values =~= fields(book@));
            assert(panel@.before =~= fields(book@));
        }
        Ok(panel)
    }

    pub fn hint(&self) -> (r: String)
        ensures
            r@ == self@.hint(),
    {
        if !self.message.as_str().is_empty() {
            return self.message.duplicate();
        }
        help(self.selected).to_owned()
    }

    fn changed(&self, row: usize) -> (r: Option<String>)
        requires
            row < 4,
        ensures
            r.deep_view() == self@.changed(row as int),
    {
        let now = text::trim(self.values[row].as_str());
        let before = text::trim(self.before[row].as_str());
        if text::same(now.as_str(), before.as_str()) {
            None
        } else {
            Some(now)
        }
    }

    /// Only what the reader actually changed is written, so a field left alone
    /// cannot quietly rewrite itself into a different spelling.
    pub fn wanted(&self) -> (r: Edit)
        ensures
            r@ == self@.wanted(),
    {
        let series = self.changed(2);
        let series_index = match self.changed(3) {
            Some(index) => Some(index),
            None => if series.is_some() {
                Some(text::trim(self.values[3].as_str()))
            } else {
                None
            },
        };
        Edit { title: self.changed(0), author: self.changed(1), series, series_index }
    }

    pub fn save(&mut self) -> (r: Action)
        ensures
            (final(self)@, r@) == old(self)@.saved(),
    {
        let edit = self.wanted();
        if edit.is_empty() {
            self.message = "Nothing was changed.".to_owned();
            return Action::Nothing;
        }
        if text::trim(self.values[0].as_str()).as_str().is_empty() {
            self.selected = 0;
            self.message = "A book needs a title.".to_owned();
            return Action::Nothing;
        }
        let index = text::trim(self.values[3].as_str());
        if !index.as_str().is_empty() && !text::is_numeral(index.as_str()) {
            self.selected = 3;
            self.message = "A position in a series has to be a number.".to_owned();
            return Action::Nothing;
        }
        Action::Run(Task { path: self.path.duplicate(), edit })
    }

    fn step(&mut self, by: usize)
        requires
            by == 1 || by == 4,
        ensures
            by == 1 ==> final(self)@ == old(self)@.down(),
            by == 4 ==> final(self)@ == old(self)@.up(),
    {
        // The same row round the ring, without running past the largest number.
        let row = self.selected % 5;
        proof {
            assert((self.selected as int + by) % 5 == (row + by) % 5) by (nonlinear_arith)
                requires
                    row == self.selected % 5,
            ;
        }
        self.selected = (row + by) % 5;
        self.message = String::new();
    }

    fn put(&mut self, value: String)
        requires
            old(self).selected < 4,
        ensures
            final(self)@ == (PanelView {
                values: old(self)@.values.update(old(self).selected as int, value@),
                ..old(self)@
            }),
    {
        let row = self.selected;
        let ghost before = self@.values;
        self.values[row] = value;
        proof {
            assert(self@.values =~= before.update(row as int, value@));
        }
    }

    pub fn input(&mut self, key: Key) -> (r: Action)
        ensures
            (final(self)@, r@) == old(self)@.after(key),
    {
        proof {
            reveal(PanelView::after);
        }
        if key.code == KeyCode::Char('s') && key.control {
            self.edit = None;
            return self.save();
        }
        if let Some((original, cursor)) = self.edit.duplicate() {
            match key.code {
                KeyCode::Esc => {
                    if self.selected < 4 {
                        self.put(original);
                    }
                    self.edit = None;
                },
                KeyCode::Enter | KeyCode::Tab => {
                    self.edit = None;
                    self.step(1);
                },
                _ => {
                    if self.selected < 4 {
                        let (value, at) = edit_line(
                            self.values[self.selected].as_str(),
                            cursor,
                            key,
                        );
                        self.put(value);
                        self.edit = Some((original, at));
                    }
                },
            }
            return Action::Nothing;
        }
        match key.code {
            KeyCode::Esc => return Action::Close,
            KeyCode::Down | KeyCode::Tab => self.step(1),
            KeyCode::Up | KeyCode::BackTab => self.step(4),
            _ => {
                if self.selected < 4 && (key.code == KeyCode::Enter || key.code == KeyCode::Char(
                    'e',
                )) {
                    self.message = String::new();
                    let value = self.values[self.selected].duplicate();
                    let end = text::chars(value.as_str()).len();
                    self.edit = Some((value, end));
                } else if key.code == KeyCode::Enter {
                    return self.save();
                }
            },
        }
        Action::Nothing
    }
}

} // verus!
