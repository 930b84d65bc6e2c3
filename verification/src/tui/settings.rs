//! Settings drafts stay separate from the active library until saving succeeds.
use super::field::{edit_line, LineView};
use super::{Key, KeyCode, Options, OptionsView};
use crate::config::{Defaults, DefaultsView};
use crate::crosspoint::{reader_for, Reader};
use crate::paths;
use crate::text;
use crate::values::Duplicate;
use vstd::prelude::*;

pub mod laws;

verus! {

broadcast use vstd::string::group_string_axioms;

/// The two folders Crossload cannot work without carry a star; everything else
/// says "Optional" in its hint, so nobody has to guess what a save needs.
pub open spec fn row_name(row: int) -> Seq<char> {
    if row == 0 {
        "Books folder *"@
    } else if row == 1 {
        "Import folder *"@
    } else if row == 2 {
        "Kobo mount"@
    } else if row == 3 {
        "Reader address"@
    } else if row == 4 {
        "Reader card mount"@
    } else if row == 5 {
        "Reader base folder"@
    } else if row == 6 {
        "Test reader connection"@
    } else {
        "Save and rescan"@
    }
}

pub fn row_label(row: usize) -> (r: &'static str)
    ensures
        r@ == row_name(row as int),
{
    if row == 0 {
        "Books folder *"
    } else if row == 1 {
        "Import folder *"
    } else if row == 2 {
        "Kobo mount"
    } else if row == 3 {
        "Reader address"
    } else if row == 4 {
        "Reader card mount"
    } else if row == 5 {
        "Reader base folder"
    } else if row == 6 {
        "Test reader connection"
    } else {
        "Save and rescan"
    }
}

/// What a complaint calls a row: its name without the star.
pub open spec fn plain_name(row: int) -> Seq<char> {
    if row == 0 {
        "Books folder"@
    } else if row == 1 {
        "Import folder"@
    } else {
        row_name(row)
    }
}

fn plain_label(row: usize) -> (r: &'static str)
    ensures
        r@ == plain_name(row as int),
{
    if row == 0 {
        "Books folder"
    } else if row == 1 {
        "Import folder"
    } else {
        row_label(row)
    }
}

/// One line per row, shown while nothing more urgent has been reported. The
/// labels are short enough to fit; these say what they actually mean.
pub open spec fn row_help(row: int) -> Seq<char> {
    if row == 0 {
        "Required. Where your own books live. Crossload only ever reads from here."@
    } else if row == 1 {
        "Required. Where imported and copied-back books are written; created on first import."@
    } else if row == 2 {
        "Optional. Enter looks for a mounted Kobo; e types the path in yourself."@
    } else if row == 3 {
        "Optional. The address the reader shows in CrossPoint File Transfer mode."@
    } else if row == 4 {
        "Optional. A mounted reader card. When set, copies use the card instead of Wi-Fi."@
    } else if row == 5 {
        "The folder on the reader that books go into; / is the reader's own root."@
    } else {
        "Asks the reader for its status over Wi-Fi. Nothing is copied."@
    }
}

fn help(row: usize) -> (r: &'static str)
    ensures
        r@ == row_help(row as int),
{
    if row == 0 {
        "Required. Where your own books live. Crossload only ever reads from here."
    } else if row == 1 {
        "Required. Where imported and copied-back books are written; created on first import."
    } else if row == 2 {
        "Optional. Enter looks for a mounted Kobo; e types the path in yourself."
    } else if row == 3 {
        "Optional. The address the reader shows in CrossPoint File Transfer mode."
    } else if row == 4 {
        "Optional. A mounted reader card. When set, copies use the card instead of Wi-Fi."
    } else if row == 5 {
        "The folder on the reader that books go into; / is the reader's own root."
    } else {
        "Asks the reader for its status over Wi-Fi. Nothing is copied."
    }
}

/// The name CrossPoint announces itself under, and so the address to try first.
pub const READER: &'static str = "crosspoint.local";

/// What a path leads to.
#[derive(Clone, Copy, Debug, PartialEq, Eq, Structural)]
pub enum Found {
    Missing,
    /// Something, but not a folder.
    File,
    Folder,
    /// A folder that holds a Kobo's database.
    Kobo,
}

/// What a path field points at right now, so a typo shows where it is made
/// rather than at the end of the form.
#[derive(Clone, Copy, Debug, PartialEq, Eq)]
pub enum Mark {
    Silent,
    Good(&'static str),
    Note(&'static str),
    Warn(&'static str),
    Bad(&'static str),
}

#[verifier::ext_equal]
pub enum MarkView {
    Silent,
    Good(Seq<char>),
    Note(Seq<char>),
    Warn(Seq<char>),
    Bad(Seq<char>),
}

impl View for Mark {
    type V = MarkView;

    open spec fn view(&self) -> MarkView {
        match *self {
            Mark::Silent => MarkView::Silent,
            Mark::Good(word) => MarkView::Good(word@),
            Mark::Note(word) => MarkView::Note(word@),
            Mark::Warn(word) => MarkView::Warn(word@),
            Mark::Bad(word) => MarkView::Bad(word@),
        }
    }
}

impl DeepView for Mark {
    type V = MarkView;

    open spec fn deep_view(&self) -> MarkView {
        self@
    }
}

impl Mark {
    /// Glyph and word; colour is the view's business.
    pub fn parts(self) -> (r: (&'static str, &'static str))
        ensures
            (r.0@, r.1@) == match self@ {
                MarkView::Silent => (""@, ""@),
                MarkView::Good(word) => ("✓"@, word),
                MarkView::Note(word) => ("·"@, word),
                MarkView::Warn(word) => ("⚠"@, word),
                MarkView::Bad(word) => ("✗"@, word),
            },
    {
        match self {
            Mark::Silent => ("", ""),
            Mark::Good(word) => ("✓", word),
            Mark::Note(word) => ("·", word),
            Mark::Warn(word) => ("⚠", word),
            Mark::Bad(word) => ("✗", word),
        }
    }
}

/// A value with a leading ~ written out the way the configuration does it,
/// without rewriting the draft that is still being edited.
pub open spec fn expanded(value: Seq<char>, home: Option<Seq<char>>) -> Seq<char> {
    match home {
        Some(home) if paths::at_home(value) => paths::below(home, paths::from_home(value)),
        _ => value,
    }
}

pub fn expand(value: &str, home: &Option<String>) -> (r: String)
    ensures
        r@ == expanded(value@, home.deep_view()),
{
    match home {
        Some(home) => if paths::is_at_home(value) {
            let rest = paths::after_home(value);
            paths::resolve(home.as_str(), rest.as_str())
        } else {
            value.to_owned()
        },
        None => value.to_owned(),
    }
}

/// What to say of one value, given what it leads to.
pub open spec fn judged(
    row: int,
    value: Seq<char>,
    home: Option<Seq<char>>,
    found: Found,
) -> MarkView {
    let value = text::trimmed(value);
    if value.len() == 0 {
        if row == 0 || row == 1 {
            MarkView::Bad("not set"@)
        } else {
            MarkView::Silent
        }
    } else if row == 3 || row == 5 {
        MarkView::Silent
    } else if !paths::absolute(expanded(value, home)) {
        MarkView::Bad("must start with / or ~/"@)
    } else if row == 1 && found == Found::Missing {
        MarkView::Note("created on first import"@)
    } else if row == 2 && found == Found::Kobo {
        MarkView::Good("Kobo found"@)
    } else if row == 2 && found == Found::Folder {
        MarkView::Warn("no Kobo database here"@)
    } else if found == Found::Folder || found == Found::Kobo {
        MarkView::Good("folder found"@)
    } else if found == Found::File {
        MarkView::Bad("not a folder"@)
    } else {
        MarkView::Bad("not found"@)
    }
}

fn judge(row: usize, value: &str, home: &Option<String>, found: Found) -> (r: Mark)
    ensures
        r@ == judged(row as int, value@, home.deep_view(), found),
{
    let value = text::trim(value);
    if value.as_str().is_empty() {
        return if row == 0 || row == 1 {
            Mark::Bad("not set")
        } else {
            Mark::Silent
        };
    }
    if row == 3 || row == 5 {
        return Mark::Silent;
    }
    if !paths::is_absolute(expand(value.as_str(), home).as_str()) {
        return Mark::Bad("must start with / or ~/");
    }
    // The import folder is the one place Crossload may create itself.
    if row == 1 && found == Found::Missing {
        Mark::Note("created on first import")
    } else if row == 2 && found == Found::Kobo {
        Mark::Good("Kobo found")
    } else if row == 2 && found == Found::Folder {
        Mark::Warn("no Kobo database here")
    } else if found == Found::Folder || found == Found::Kobo {
        Mark::Good("folder found")
    } else if found == Found::File {
        Mark::Bad("not a folder")
    } else {
        Mark::Bad("not found")
    }
}

/// Outside work that the panel asks for.
#[derive(Clone, Debug, PartialEq, Eq)]
pub enum Task {
    Save { path: String, defaults: Defaults },
    Detect,
    Test { address: String, folder: String },
}

#[verifier::ext_equal]
pub enum TaskView {
    Save { path: Seq<char>, defaults: DefaultsView },
    Detect,
    Test { address: Seq<char>, folder: Seq<char> },
}

impl View for Task {
    type V = TaskView;

    open spec fn view(&self) -> TaskView {
        match self {
            Task::Save { path, defaults } => TaskView::Save { path: path@, defaults: defaults@ },
            Task::Detect => TaskView::Detect,
            Task::Test { address, folder } => TaskView::Test { address: address@, folder: folder@ },
        }
    }
}

impl DeepView for Task {
    type V = TaskView;

    open spec fn deep_view(&self) -> TaskView {
        self@
    }
}

/// What came of it.
#[derive(Clone, Debug)]
pub enum Outcome {
    Saved(Defaults),
    Detected(Vec<String>),
    Tested(String),
}

#[verifier::ext_equal]
pub enum OutcomeView {
    Saved(DefaultsView),
    Detected(Seq<Seq<char>>),
    Tested(Seq<char>),
}

impl View for Outcome {
    type V = OutcomeView;

    open spec fn view(&self) -> OutcomeView {
        match self {
            Outcome::Saved(defaults) => OutcomeView::Saved(defaults@),
            Outcome::Detected(devices) => OutcomeView::Detected(devices.deep_view()),
            Outcome::Tested(words) => OutcomeView::Tested(words@),
        }
    }
}

impl DeepView for Outcome {
    type V = OutcomeView;

    open spec fn deep_view(&self) -> OutcomeView {
        self@
    }
}

#[derive(Debug)]
pub enum Action {
    Nothing,
    Close,
    Run(Task),
}

#[verifier::ext_equal]
pub enum ActionView {
    Nothing,
    Close,
    Run(TaskView),
}

impl View for Action {
    type V = ActionView;

    open spec fn view(&self) -> ActionView {
        match self {
            Action::Nothing => ActionView::Nothing,
            Action::Close => ActionView::Close,
            Action::Run(task) => ActionView::Run(task@),
        }
    }
}

#[derive(Clone, Debug)]
pub struct Panel {
    pub values: [String; 6],
    /// What each value points at, refreshed after every keystroke.
    pub marks: [Mark; 6],
    pub selected: usize,
    /// While editing: the value to go back to, and how many characters stand
    /// before the cursor.
    pub edit: Option<(String, usize)>,
    /// A result or a complaint. While it is empty the selected row's own hint
    /// takes its place, so the line always says something useful.
    pub message: String,
    pub first_run: bool,
    pub devices: Vec<String>,
    pub device_selected: Option<usize>,
    pub path: String,
    pub home: Option<String>,
}

#[verifier::ext_equal]
pub struct PanelView {
    pub values: Seq<Seq<char>>,
    pub marks: Seq<MarkView>,
    pub selected: usize,
    pub edit: Option<(Seq<char>, usize)>,
    pub message: Seq<char>,
    pub first_run: bool,
    pub devices: Seq<Seq<char>>,
    pub device_selected: Option<usize>,
    pub path: Seq<char>,
    pub home: Option<Seq<char>>,
}

impl View for Panel {
    type V = PanelView;

    open spec fn view(&self) -> PanelView {
        PanelView {
            values: self.values.deep_view(),
            marks: self.marks.deep_view(),
            selected: self.selected,
            edit: self.edit.deep_view(),
            message: self.message@,
            first_run: self.first_run,
            devices: self.devices.deep_view(),
            device_selected: self.device_selected,
            path: self.path@,
            home: self.home.deep_view(),
        }
    }
}

impl DeepView for Panel {
    type V = PanelView;

    open spec fn deep_view(&self) -> PanelView {
        self@
    }
}

/// A path as the panel shows it. Absolute, because a saved path must be;
/// abbreviated, because the home folder is the least informative part of a path
/// on this screen.
pub open spec fn shown(path: Seq<char>, home: Option<Seq<char>>, here: Seq<char>) -> Seq<char> {
    let path = if paths::absolute(path) {
        path
    } else {
        paths::below(here, path)
    };
    match home {
        Some(home) if paths::absolute(home) => {
            let home = paths::bare(home);
            if path == home {
                "~"@
            } else if text::starts(path, home + "/"@) {
                "~/"@ + paths::rootless(path.skip(home.len() as int))
            } else {
                path
            }
        },
        _ => path,
    }
}

fn show(path: &str, home: &Option<String>, here: &str) -> (r: String)
    ensures
        r@ == shown(path@, home.deep_view(), here@),
{
    let path = if paths::is_absolute(path) {
        path.to_owned()
    } else {
        paths::resolve(here, path)
    };
    match home {
        Some(home) => {
            if !paths::is_absolute(home.as_str()) {
                return path;
            }
            let home = paths::trim_slashes(home.as_str());
            if text::same(path.as_str(), home.as_str()) {
                return "~".to_owned();
            }
            let inside = text::concat(home.as_str(), "/");
            if text::starts_with(path.as_str(), inside.as_str()) {
                let c = text::chars(path.as_str());
                let n = text::chars(home.as_str()).len();
                let rest = text::slice(c.as_slice(), n, c.len());
                proof {
                    assert(rest@ =~= path@.skip(home@.len() as int));
                }
                return text::concat("~/", paths::trim_root(rest.as_str()).as_str());
            }
            path
        },
        None => path,
    }
}

pub open spec fn shown_option(
    path: Option<Seq<char>>,
    home: Option<Seq<char>>,
    here: Seq<char>,
) -> Seq<char> {
    match path {
        Some(path) => shown(path, home, here),
        None => Seq::empty(),
    }
}

fn show_option(path: &Option<String>, home: &Option<String>, here: &str) -> (r: String)
    ensures
        r@ == shown_option(path.deep_view(), home.deep_view(), here@),
{
    match path {
        Some(path) => show(path.as_str(), home, here),
        None => String::new(),
    }
}

/// A panel for the current settings, with nothing looked up yet.
pub open spec fn panel_for(options: OptionsView, first_run: bool) -> PanelView {
    PanelView {
        values: seq![
            shown(options.browse, options.home, options.here),
            shown(options.output, options.home, options.here),
            shown_option(options.device, options.home, options.here),
            match options.send_to {
                Some(address) => address,
                None => READER@,
            },
            shown_option(options.copy_to, options.home, options.here),
            options.folder,
        ],
        marks: Seq::new(6, |i: int| MarkView::Silent),
        selected: 0,
        edit: None,
        message: Seq::empty(),
        first_run,
        devices: Seq::empty(),
        device_selected: None,
        path: options.config,
        home: options.home,
    }
}

/// A value that was typed, if anything was.
pub open spec fn typed(value: Seq<char>) -> Option<Seq<char>> {
    if value.len() == 0 {
        None
    } else {
        Some(text::trimmed(value))
    }
}

fn given(value: &str) -> (r: Option<String>)
    ensures
        r.deep_view() == typed(value@),
{
    if value.is_empty() {
        None
    } else {
        Some(text::trim(value))
    }
}

/// Whether a mark stops a save, and why.
pub open spec fn stops(mark: MarkView) -> Option<Seq<char>> {
    match mark {
        MarkView::Bad(reason) => Some(reason),
        _ => None,
    }
}

pub open spec fn complaint(row: int, reason: Seq<char>) -> (int, Seq<char>) {
    (row, plain_name(row) + ": "@ + reason)
}

impl PanelView {
    pub open spec fn mark(self, row: int, found: Found) -> MarkView {
        judged(row, self.values[row], self.home, found)
    }

    pub open spec fn checked(self, found: Seq<Found>) -> PanelView {
        PanelView { marks: Seq::new(6, |i: int| self.mark(i, found[i])), ..self }
    }

    pub open spec fn hint(self) -> Seq<char> {
        if self.message.len() > 0 {
            self.message
        } else if self.selected >= 7 {
            "Writes these settings to "@ + self.path + " and scans the new locations."@
        } else {
            row_help(self.selected as int)
        }
    }

    /// The address to try: what was typed, or the name readers announce.
    pub open spec fn address(self) -> Seq<char> {
        if text::trimmed(self.values[3]).len() == 0 {
            READER@
        } else {
            text::trimmed(self.values[3])
        }
    }

    /// The draft as it stands, before anything is written out.
    pub open spec fn draft(self) -> DefaultsView {
        DefaultsView {
            browse: typed(self.values[0]),
            output: typed(self.values[1]),
            device: typed(self.values[2]),
            reader: typed(self.values[3]),
            copy_to: typed(self.values[4]),
            folder: Some(self.values[5]),
            kepub: None,
            profile: None,
            catalog: None,
        }
    }

    /// The draft as settings, or the row to send the user back to and why.
    pub open spec fn defaults(self, found: Seq<Found>) -> Result<
        DefaultsView,
        (int, Seq<char>),
    > {
        if let Some(reason) = stops(self.mark(0, found[0])) {
            Err(complaint(0, reason))
        } else if let Some(reason) = stops(self.mark(1, found[1])) {
            Err(complaint(1, reason))
        } else if let Some(reason) = stops(self.mark(2, found[2])) {
            Err(complaint(2, reason))
        } else if let Some(reason) = stops(self.mark(4, found[4])) {
            Err(complaint(4, reason))
        } else if let Err(words) = reader_for(self.address(), "/"@) {
            Err((3, words))
        } else if let Err(words) = reader_for(self.address(), self.values[5]) {
            Err((5, words))
        } else if let Some(words) = self.draft().normal(self.home).1 {
            Err((0, words))
        } else {
            Ok(self.draft().normal(self.home).0)
        }
    }

    /// Save from wherever the user is, or send them to the row that stopped it.
    pub open spec fn saved(self, found: Seq<Found>) -> (PanelView, ActionView) {
        match self.defaults(found) {
            Ok(defaults) => (
                self,
                ActionView::Run(TaskView::Save { path: self.path, defaults }),
            ),
            Err((row, words)) => (
                PanelView { edit: None, selected: row as usize, message: words, ..self },
                ActionView::Nothing,
            ),
        }
    }

    /// A detection result taken in: filled in, offered, or explained. Detection
    /// answers the Kobo row, so it reports there.
    pub open spec fn detected(self, devices: Seq<Seq<char>>) -> PanelView {
        let p = PanelView { selected: 2, devices, ..self };
        if devices.len() == 0 {
            PanelView {
                message:
                    "No mounted Kobo found. Connect it in USB mode and press Enter again, or press e to type its path."@,
                ..p
            }
        } else if devices.len() == 1 {
            PanelView {
                values: self.values.update(2, devices[0]),
                message: "Kobo found. Press e to change it, or save to use this mount."@,
                ..p
            }
        } else {
            PanelView {
                device_selected: Some(0),
                message: "Choose a mounted Kobo with arrows and Enter."@,
                ..p
            }
        }
    }

    /// What a key does while several devices are on offer.
    pub open spec fn choosing(self, at: usize, key: Key) -> PanelView {
        match key.code {
            KeyCode::Down => PanelView {
                device_selected: Some(
                    if at + 1 < self.devices.len() {
                        (at + 1) as usize
                    } else if self.devices.len() == 0 {
                        0
                    } else {
                        (self.devices.len() - 1) as usize
                    },
                ),
                ..self
            },
            KeyCode::Up => PanelView {
                device_selected: Some(
                    if at > 0 {
                        (at - 1) as usize
                    } else {
                        0
                    },
                ),
                ..self
            },
            KeyCode::Enter => if at < self.devices.len() {
                PanelView {
                    values: self.values.update(2, self.devices[at as int]),
                    device_selected: None,
                    message: "Kobo selected. Save to use this mount."@,
                    ..self
                }
            } else {
                self
            },
            KeyCode::Esc => PanelView { device_selected: None, ..self },
            _ => self,
        }
    }

    pub open spec fn down(self) -> PanelView {
        PanelView {
            selected: ((self.selected as int + 1) % 8) as usize,
            message: Seq::empty(),
            ..self
        }
    }

    pub open spec fn up(self) -> PanelView {
        PanelView {
            selected: ((self.selected as int + 7) % 8) as usize,
            message: Seq::empty(),
            ..self
        }
    }

    /// What a key does while a field is being edited.
    pub open spec fn editing(self, original: Seq<char>, cursor: usize, key: Key) -> PanelView {
        match key.code {
            KeyCode::Esc => PanelView {
                values: if self.selected < 6 {
                    self.values.update(self.selected as int, original)
                } else {
                    self.values
                },
                edit: None,
                ..self
            },
            KeyCode::Enter | KeyCode::Tab => PanelView { edit: None, ..self.down() },
            _ => if self.selected < 6 {
                let line = (LineView {
                    value: self.values[self.selected as int],
                    cursor: cursor as nat,
                }).after(key);
                PanelView {
                    values: self.values.update(self.selected as int, line.value),
                    edit: Some((original, line.cursor as usize)),
                    ..self
                }
            } else {
                self
            },
        }
    }

    /// What a key does while rows are being chosen. Enter does whatever the row
    /// is for: the Kobo mount is the one value Crossload can find on its own, so
    /// asking for it beats typing a path that only a mount table knows.
    pub open spec fn browsing(self, key: Key, found: Seq<Found>) -> (PanelView, ActionView) {
        match key.code {
            KeyCode::Esc => (self, ActionView::Close),
            KeyCode::Down | KeyCode::Tab => (self.down(), ActionView::Nothing),
            KeyCode::Up | KeyCode::BackTab => (self.up(), ActionView::Nothing),
            _ => if key.code == KeyCode::Enter && self.selected == 2 {
                (self, ActionView::Run(TaskView::Detect))
            } else if self.selected < 6 && (key.code == KeyCode::Enter || key.code
                == KeyCode::Char('e')) {
                (
                    PanelView {
                        message: Seq::empty(),
                        edit: Some(
                            (
                                self.values[self.selected as int],
                                self.values[self.selected as int].len() as usize,
                            ),
                        ),
                        ..self
                    },
                    ActionView::Nothing,
                )
            } else if key.code == KeyCode::Enter && self.selected == 6 {
                (
                    self,
                    ActionView::Run(
                        TaskView::Test { address: self.values[3], folder: self.values[5] },
                    ),
                )
            } else if key.code == KeyCode::Enter {
                self.saved(found)
            } else {
                (self, ActionView::Nothing)
            },
        }
    }

    /// What a key does, and what it asks for. `found` says what the values lead
    /// to as the key is struck.
    #[verifier::opaque]
    pub open spec fn after(self, key: Key, found: Seq<Found>) -> (PanelView, ActionView) {
        match self.device_selected {
            Some(at) => (self.choosing(at, key), ActionView::Nothing),
            None => if key.code == KeyCode::Char('s') && key.control {
                self.saved(found)
            } else {
                match self.edit {
                    Some((original, cursor)) => (
                        self.editing(original, cursor, key),
                        ActionView::Nothing,
                    ),
                    None => self.browsing(key, found),
                }
            },
        }
    }
}

/// Settings are only ever handed over to be saved when both folders that are
/// needed were given and found usable.
pub proof fn a_save_needs_both_folders(panel: PanelView, key: Key, found: Seq<Found>)
    requires
        panel.values.len() == 6,
        panel.after(key, found).1 matches ActionView::Run(task) && task is Save,
    ensures
        text::trimmed(panel.values[0]).len() > 0,
        text::trimmed(panel.values[1]).len() > 0,
        found[0] == Found::Folder || found[0] == Found::Kobo,
        found[1] != Found::File,
        panel.after(key, found).0 == panel,
{
    reveal(PanelView::after);
}

impl Panel {
    pub fn new(options: &Options, first_run: bool) -> (r: Panel)
        ensures
            r@ == panel_for(options@, first_run),
    {
        let home = &options.home;
        let here = options.here.as_str();
        let panel = Panel {
            values: [
                show(options.browse.as_str(), home, here),
                show(options.output.as_str(), home, here),
                show_option(&options.device, home, here),
                match &options.send_to {
                    Some(address) => address.duplicate(),
                    None => READER.to_owned(),
                },
                show_option(&options.copy_to, home, here),
                options.folder.duplicate(),
            ],
            marks: [
                Mark::Silent,
                Mark::Silent,
                Mark::Silent,
                Mark::Silent,
                Mark::Silent,
                Mark::Silent,
            ],
            selected: 0,
            edit: None,
            message: String::new(),
            first_run,
            devices: Vec::new(),
            device_selected: None,
            path: options.config.duplicate(),
            home: options.home.duplicate(),
        };
        proof {
            let wanted = panel_for(options@, first_run);
            assert(panel@.values =~= wanted.values);
            assert(panel@.marks =~= wanted.marks);
            assert(panel@.devices =~= wanted.devices);
        }
        panel
    }

    /// The line under the fields: whatever was last reported, or else what the
    /// selected row is for.
    pub fn hint(&self) -> (r: String)
        ensures
            r@ == self@.hint(),
    {
        if !self.message.as_str().is_empty() {
            return self.message.duplicate();
        }
        if self.selected >= 7 {
            text::concat3(
                "Writes these settings to ",
                self.path.as_str(),
                " and scans the new locations.",
            )
        } else {
            help(self.selected).to_owned()
        }
    }

    /// The path a row leads to, for looking there.
    pub fn target(&self, row: usize) -> (r: String)
        requires
            row < 6,
        ensures
            r@ == expanded(text::trimmed(self@.values[row as int]), self@.home),
    {
        let value = text::trim(self.values[row].as_str());
        expand(value.as_str(), &self.home)
    }

    /// Judge one value on its own. Recomputed rather than read from `marks`, so
    /// validation never trusts a stale frame.
    pub fn mark(&self, row: usize, found: Found) -> (r: Mark)
        requires
            row < 6,
        ensures
            r@ == self@.mark(row as int, found),
    {
        judge(row, self.values[row].as_str(), &self.home, found)
    }

    /// Take in what the values lead to now.
    pub fn check(&mut self, found: &[Found; 6])
        ensures
            final(self)@ == old(self)@.checked(found@),
    {
        let marks = [
            self.mark(0, found[0]),
            self.mark(1, found[1]),
            self.mark(2, found[2]),
            self.mark(3, found[3]),
            self.mark(4, found[4]),
            self.mark(5, found[5]),
        ];
        let ghost before = self@;
        self.marks = marks;
        proof {
            assert(self@.marks =~= before.checked(found@).marks);
        }
    }

    fn stopped(&self, row: usize, found: Found) -> (r: Option<(usize, String)>)
        requires
            row < 6,
        ensures
            match (r, stops(self@.mark(row as int, found))) {
                (Some((at, words)), Some(reason)) => (at as int, words@) == complaint(
                    row as int,
                    reason,
                ),
                (None, None) => true,
                _ => false,
            },
    {
        match self.mark(row, found) {
            Mark::Bad(reason) => Some((row, text::concat3(plain_label(row), ": ", reason))),
            _ => None,
        }
    }

    /// The draft as settings, or the row to send the user back to and why.
    pub fn defaults(&self, found: &[Found; 6]) -> (r: Result<Defaults, (usize, String)>)
        ensures
            match (r, self@.defaults(found@)) {
                (Ok(defaults), Ok(wanted)) => defaults@ == wanted,
                (Err((row, words)), Err(wanted)) => (row as int, words@) == wanted,
                _ => false,
            },
    {
        if let Some(complaint) = self.stopped(0, found[0]) {
            return Err(complaint);
        }
        if let Some(complaint) = self.stopped(1, found[1]) {
            return Err(complaint);
        }
        if let Some(complaint) = self.stopped(2, found[2]) {
            return Err(complaint);
        }
        if let Some(complaint) = self.stopped(4, found[4]) {
            return Err(complaint);
        }
        // Address and folder are rejected by the same constructor, so ask it
        // about the address alone first to know which row is at fault.
        let typed = text::trim(self.values[3].as_str());
        let address = if typed.as_str().is_empty() {
            READER.to_owned()
        } else {
            typed
        };
        if let Err(words) = Reader::new(address.as_str(), "/") {
            return Err((3, words));
        }
        if let Err(words) = Reader::new(address.as_str(), self.values[5].as_str()) {
            return Err((5, words));
        }
        let mut defaults = Defaults {
            browse: given(self.values[0].as_str()),
            output: given(self.values[1].as_str()),
            device: given(self.values[2].as_str()),
            reader: given(self.values[3].as_str()),
            copy_to: given(self.values[4].as_str()),
            folder: Some(self.values[5].duplicate()),
            // Not offered on this panel; the saved values are carried through.
            kepub: None,
            profile: None,
            catalog: None,
        };
        proof {
            assert(defaults@ =~= self@.draft());
        }
        // Paths and the reader were checked above; ~ expansion is all that is
        // left to fail here, and it fails for the books folder first.
        match defaults.normalize(&self.home) {
            Ok(()) => Ok(defaults),
            Err(words) => Err((0, words)),
        }
    }

    fn put(&mut self, row: usize, value: String)
        requires
            row < 6,
        ensures
            final(self)@ == (PanelView {
                values: old(self)@.values.update(row as int, value@),
                ..old(self)@
            }),
    {
        let ghost before = self@.values;
        self.values[row] = value;
        proof {
            assert(self@.values =~= before.update(row as int, value@));
        }
    }

    /// Take a detection result: fill it in, offer the choice, or say what the
    /// next move is.
    pub fn detected(&mut self, devices: Vec<String>)
        ensures
            final(self)@ == old(self)@.detected(devices.deep_view()),
    {
        self.selected = 2;
        if devices.len() == 0 {
            self.message =
            "No mounted Kobo found. Connect it in USB mode and press Enter again, or press e to type its path.".to_owned();
        } else if devices.len() == 1 {
            assert(devices.deep_view()[0] == devices@[0]@);
            self.put(2, devices[0].duplicate());
            self.message = "Kobo found. Press e to change it, or save to use this mount.".to_owned();
        } else {
            self.device_selected = Some(0);
            self.message = "Choose a mounted Kobo with arrows and Enter.".to_owned();
        }
        self.devices = devices;
    }

    /// Save from wherever the user is, or send them to the row that stopped it.
    pub fn save(&mut self, found: &[Found; 6]) -> (r: Action)
        ensures
            (final(self)@, r@) == old(self)@.saved(found@),
    {
        match self.defaults(found) {
            Ok(defaults) => Action::Run(Task::Save { path: self.path.duplicate(), defaults }),
            Err((row, message)) => {
                self.edit = None;
                self.selected = row;
                self.message = message;
                Action::Nothing
            },
        }
    }

    fn step(&mut self, by: usize)
        requires
            by == 1 || by == 7,
        ensures
            by == 1 ==> final(self)@ == old(self)@.down(),
            by == 7 ==> final(self)@ == old(self)@.up(),
    {
        let row = self.selected % 8;
        proof {
            assert((self.selected as int + by) % 8 == (row + by) % 8) by (nonlinear_arith)
                requires
                    row == self.selected % 8,
            ;
        }
        self.selected = (row + by) % 8;
        self.message = String::new();
    }

    fn choose_device(&mut self, at: usize, key: Key)
        requires
            old(self).device_selected == Some(at),
        ensures
            final(self)@ == old(self)@.choosing(at, key),
    {
        match key.code {
            KeyCode::Down => {
                let n = self.devices.len();
                self.device_selected = Some(
                    if n > 0 && at < n - 1 {
                        at + 1
                    } else if n == 0 {
                        0
                    } else {
                        n - 1
                    },
                );
            },
            KeyCode::Up => {
                self.device_selected = Some(
                    if at > 0 {
                        at - 1
                    } else {
                        0
                    },
                );
            },
            KeyCode::Enter => {
                if at < self.devices.len() {
                    assert(self@.devices[at as int] == self.devices@[at as int]@);
                    self.put(2, self.devices[at].duplicate());
                    self.device_selected = None;
                    self.message = "Kobo selected. Save to use this mount.".to_owned();
                }
            },
            KeyCode::Esc => self.device_selected = None,
            _ => {},
        }
    }

    fn edit_field(&mut self, original: String, cursor: usize, key: Key)
        requires
            old(self)@.edit == Some((original@, cursor)),
        ensures
            final(self)@ == old(self)@.editing(original@, cursor, key),
    {
        match key.code {
            KeyCode::Esc => {
                if self.selected < 6 {
                    self.put(self.selected, original);
                }
                self.edit = None;
            },
            KeyCode::Enter | KeyCode::Tab => {
                self.edit = None;
                self.step(1);
            },
            _ => {
                if self.selected < 6 {
                    let (value, at) = edit_line(self.values[self.selected].as_str(), cursor, key);
                    self.put(self.selected, value);
                    self.edit = Some((original, at));
                }
            },
        }
    }

    /// What a key does. `found` says what the values lead to as it is struck.
    pub fn input(&mut self, key: Key, found: &[Found; 6]) -> (r: Action)
        ensures
            (final(self)@, r@) == old(self)@.after(key, found@),
    {
        proof {
            reveal(PanelView::after);
        }
        if let Some(at) = self.device_selected {
            self.choose_device(at, key);
            return Action::Nothing;
        }
        // Ctrl+S is the shortcut past eight Tabs to "Save and rescan".
        if key.code == KeyCode::Char('s') && key.control {
            return self.save(found);
        }
        self.dispatch(key, found)
    }

    fn dispatch(&mut self, key: Key, found: &[Found; 6]) -> (r: Action)
        requires
            old(self).device_selected is None,
            !(key.code == KeyCode::Char('s') && key.control),
        ensures
            (final(self)@, r@) == old(self)@.after(key, found@),
    {
        proof {
            reveal(PanelView::after);
        }
        if let Some((original, cursor)) = self.edit.duplicate() {
            self.edit_field(original, cursor, key);
            return Action::Nothing;
        }
        match key.code {
            KeyCode::Esc => return Action::Close,
            // Moving is how a hint is asked for, so a stale result gives way.
            KeyCode::Down | KeyCode::Tab => self.step(1),
            KeyCode::Up | KeyCode::BackTab => self.step(7),
            _ => {
                if key.code == KeyCode::Enter && self.selected == 2 {
                    return Action::Run(Task::Detect);
                }
                if self.selected < 6 && (key.code == KeyCode::Enter || key.code == KeyCode::Char(
                    'e',
                )) {
                    self.message = String::new();
                    let value = self.values[self.selected].duplicate();
                    let end = text::chars(value.as_str()).len();
                    self.edit = Some((value, end));
                } else if key.code == KeyCode::Enter && self.selected == 6 {
                    return Action::Run(
                        Task::Test {
                            address: self.values[3].duplicate(),
                            folder: self.values[5].duplicate(),
                        },
                    );
                } else if key.code == KeyCode::Enter {
                    return self.save(found);
                }
            },
        }
        Action::Nothing
    }
}

} // verus!
