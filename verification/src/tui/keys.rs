//! What each key does, by what is open.
use super::edit;
use super::field::is_typed;
use super::model::{plain, toggled_each, Destination, Filter, Model, ModelView, Removal, FILTERS};
use super::settings;
use super::settings::Found;
use super::update::{
    chosen_row, copy_status, copyable, copyable_is_part, find_copy, find_exact, first_question,
    first_refusal, is_move, just, nothing, options_for, renewed, told, without_last, working,
    Effect,
};
use super::{Entry, EntryView, Key, KeyCode, Source};
use crate::books::{Book, Place};
use crate::order;
use crate::order::kept;
use crate::text;
use crate::values::Duplicate;
use vstd::prelude::*;

verus! {

broadcast use vstd::string::group_string_axioms;

impl Model {
    #[verifier::spinoff_prover]
    pub(super) fn correcting_key(&mut self, panel: edit::Panel, key: Key) -> (r: Vec<Effect>)
        requires
            old(self).next_id < u64::MAX,
            old(self).correcting is None,
        ensures
            (final(self)@, r.deep_view()) == (ModelView {
                correcting: Some(panel@),
                ..old(self)@
            }).correcting_key(panel@, key),
    {
        proof {
            reveal(Model::seen);
            reveal(ModelView::correcting_key);
        }
        if self.configuring.is_some() {
            self.correcting = Some(panel);
            return nothing();
        }
        let mut panel = panel;
        match panel.input(key) {
            edit::Action::Close => nothing(),
            edit::Action::Run(task) => {
                panel.message = "Correcting…".to_owned();
                self.correcting = Some(panel);
                let id = self.id();
                self.configuring = Some(id);
                just(Effect::Correct { id, task })
            },
            edit::Action::Nothing => {
                self.correcting = Some(panel);
                nothing()
            },
        }
    }

    pub(super) fn close_settings(&mut self, first_run: bool) -> (r: Vec<Effect>)
        requires
            old(self).next_id < u64::MAX,
        ensures
            (final(self)@, r.deep_view()) == old(self)@.settings_closed(first_run),
    {
        proof {
            reveal(ModelView::settings_closed);
        }
        self.drop_settings();
        if first_run {
            self.skip_setup();
            let effects = self.refresh();
            self.set_status(
                "Setup skipped; nothing was saved. Press , to set it up later.".to_owned(),
            );
            return effects;
        }
        nothing()
    }

    pub(super) fn start_settings(&mut self, panel: settings::Panel, task: settings::Task) -> (r: Vec<Effect>)
        requires
            old(self).next_id < u64::MAX,
        ensures
            (final(self)@, r.deep_view()) == old(self)@.settings_started(panel@, task@),
    {
        proof {
            reveal(ModelView::settings_started);
            plain(*self);
        }
        let id = self.put_settings(told(panel, working(&task)));
        just(Effect::Configure { id, task })
    }

    pub(super) fn settings_key(&mut self, panel: settings::Panel, key: Key, found: &[Found; 6]) -> (r: Vec<
        Effect,
    >)
        requires
            old(self).next_id < u64::MAX,
        ensures
            (final(self)@, r.deep_view()) == (ModelView {
                settings: Some(panel@),
                ..old(self)@
            }).settings_key(panel@, key, found@),
    {
        proof {
            reveal(ModelView::settings_key);
            plain(*self);
        }
        if self.configuring.is_some() {
            self.set_settings(panel);
            return nothing();
        }
        let mut panel = panel;
        let ghost before = panel@;
        let action = panel.input(key, found);
        self.settings_acted(panel, action, Ghost(before))
    }

    pub(super) fn settings_acted(
        &mut self,
        panel: settings::Panel,
        action: settings::Action,
        Ghost(before): Ghost<settings::PanelView>,
    ) -> (r: Vec<Effect>)
        requires
            old(self).next_id < u64::MAX,
        ensures
            (final(self)@, r.deep_view()) == {
                let m = ModelView { settings: Some(before), ..old(self)@ };
                match action@ {
                    settings::ActionView::Close => m.settings_closed(panel@.first_run),
                    settings::ActionView::Run(task) => m.settings_started(panel@, task),
                    settings::ActionView::Nothing => (ModelView {
                        settings: Some(panel@),
                        ..m
                    }).still(),
                }
            },
    {
        match action {
            settings::Action::Close => {
                proof {
                    reveal(ModelView::settings_closed);
                }
                self.close_settings(panel.first_run)
            },
            settings::Action::Run(task) => {
                proof {
                    reveal(ModelView::settings_started);
                }
                self.start_settings(panel, task)
            },
            settings::Action::Nothing => {
                self.set_settings(panel);
                nothing()
            },
        }
    }

    pub(super) fn help_key(&mut self, key: Key)
        ensures
            final(self)@ == old(self)@.help_key(key),
    {
        proof {
            reveal(Model::seen);
            reveal(ModelView::help_key);
        }
        match key.code {
            KeyCode::Esc | KeyCode::Char('?') | KeyCode::Char('q') => self.help = false,
            KeyCode::Down | KeyCode::PageDown => {
                self.help_scroll = if self.help_scroll < 20 {
                    self.help_scroll + 1
                } else {
                    20
                };
            },
            KeyCode::Up | KeyCode::PageUp => {
                self.help_scroll = if self.help_scroll > 0 {
                    self.help_scroll - 1
                } else {
                    0
                };
            },
            _ => {},
        }
    }

    pub(super) fn choose_filter(&mut self, index: usize)
        ensures
            final(self)@ == old(self)@.filter_chosen(index as int),
    {
        proof {
            reveal(Model::seen);
        }
        self.filter = Filter::at(index);
        self.filter_menu = None;
        self.selected = 0;
        self.touched = false;
        self.scroll = 0;
    }

    #[verifier::spinoff_prover]
    pub(super) fn menu_key(&mut self, at: usize, key: Key)
        ensures
            final(self)@ == old(self)@.menu_key(at, key),
    {
        proof {
            plain(*self);
            reveal(ModelView::menu_key);
        }
        let row: usize = at % FILTERS;
        proof {
            assert((at as int + 1) % 6 == (row + 1) % 6) by (nonlinear_arith)
                requires
                    row == at % 6,
            ;
            assert((at as int + 5) % 6 == (row + 5) % 6) by (nonlinear_arith)
                requires
                    row == at % 6,
            ;
        }
        match key.code {
            KeyCode::Down | KeyCode::Char('j') => {
                self.set_menu(Some((row + 1) % FILTERS));
            },
            KeyCode::Up | KeyCode::Char('k') => {
                self.set_menu(Some((row + FILTERS - 1) % FILTERS));
            },
            KeyCode::Enter => self.choose_filter(at),
            KeyCode::Esc | KeyCode::Char('q') | KeyCode::Char('f') => self.set_menu(None),
            _ => {
                if let Some(row) = chosen_row(key.code) {
                    if row < FILTERS {
                        self.choose_filter(row);
                    }
                }
            },
        }
    }

    #[verifier::spinoff_prover]
    pub(super) fn confirm_key(&mut self, book: Book, place: Place, path: String, key: Key) -> (r: Vec<Effect>)
        requires
            old(self).next_id < u64::MAX,
        ensures
            (final(self)@, r.deep_view()) == old(self)@.confirm_key(book@, place, path@, key),
    {
        proof {
            reveal(ModelView::confirm_key);
            plain(*self);
        }
        let at = find_copy(&book, place, path.as_str());
        if key.code != KeyCode::Char('y') {
            self.keep_copy("Nothing was deleted.".to_owned());
            return nothing();
        }
        if at >= book.copies.len() {
            self.keep_copy("That copy is gone; refresh and look again.".to_owned());
            return nothing();
        }
        assert(book@.copies[at as int] == book.copies@[at as int]@);
        if let Removal::Blocked(_, reason) = self.removal(&book, &book.copies[at]) {
            self.keep_copy(reason);
            return nothing();
        }
        let options = self.options.duplicate();
        let id = self.start_removal(text::concat3("Deleting the ", place.label(), " copy…"));
        just(Effect::Remove { id, options, book, place, path })
    }

    #[verifier::spinoff_prover]
    pub(super) fn copies_key(&mut self, entry: &Entry, key: Key) -> (r: Vec<Effect>)
        requires
            old(self).next_id < u64::MAX,
        ensures
            (final(self)@, r.deep_view()) == old(self)@.copies_key(entry@, key),
    {
        proof {
            plain(*self);
            reveal(ModelView::copies_key);
        }
        let book = match &entry.source {
            Source::Local(_) => {
                self.close_copies();
                return nothing();
            },
            Source::Book(book) => self.current(&**book).duplicate(),
        };
        if let Some((place, path)) = self.confirm.duplicate() {
            return self.confirm_key(book, place, path, key);
        }
        match key.code {
            KeyCode::Esc | KeyCode::Char('q') | KeyCode::Char('d') => self.close_copies(),
            _ => {
                if let Some(row) = chosen_row(key.code) {
                    if row < book.copies.len() {
                        let copy = &book.copies[row];
                        assert(book@.copies[row as int] == copy@);
                        match self.removal(&book, copy) {
                            Removal::Blocked(_, reason) => self.set_status(reason),
                            Removal::Ready => {
                                self.set_confirm(copy.place, copy.path.duplicate());
                            },
                        }
                    }
                }
            },
        }
        nothing()
    }

    pub(super) fn question(&self, target: Place) -> (r: Option<String>)
        ensures
            r.deep_view() == first_question(self@, self@.action, target, 0),
    {
        proof {
            plain(*self);
        }
        let mut i: usize = 0;
        while i < self.action.len()
            invariant
                i <= self.action@.len(),
                self@.action == self.action.deep_view(),
                first_question(self@, self@.action, target, 0) == first_question(
                    self@,
                    self@.action,
                    target,
                    i as int,
                ),
            decreases self.action@.len() - i,
        {
            assert(self@.action[i as int] == self.action@[i as int]@);
            if let Destination::Ask(_, reason) = self.destination(&self.action[i], target) {
                return Some(reason);
            }
            i += 1;
        }
        None
    }

    pub(super) fn refusal(&self, target: Place) -> (r: Option<String>)
        ensures
            r.deep_view() == first_refusal(self@, self@.action, target, 0),
    {
        proof {
            plain(*self);
        }
        let mut i: usize = 0;
        while i < self.action.len()
            invariant
                i <= self.action@.len(),
                self@.action == self.action.deep_view(),
                first_refusal(self@, self@.action, target, 0) == first_refusal(
                    self@,
                    self@.action,
                    target,
                    i as int,
                ),
            decreases self.action@.len() - i,
        {
            assert(self@.action[i as int] == self.action@[i as int]@);
            if let Destination::Blocked(_, reason) = self.destination(&self.action[i], target) {
                return Some(reason);
            }
            i += 1;
        }
        None
    }

    pub(super) fn renew(&self, entry: &Entry) -> (r: Entry)
        ensures
            r@ == renewed(self@, entry@),
    {
        proof {
            plain(*self);
        }
        let mut out = entry.duplicate();
        if let Source::Book(book) = &entry.source {
            out.source = Source::Book(Box::new(self.current(&**book).duplicate()));
        }
        out
    }

    #[verifier::spinoff_prover]
    pub(super) fn copyable(&self, target: Place) -> (r: Vec<Entry>)
        ensures
            r.deep_view() == copyable(self@, self@.action, target),
    {
        proof {
            plain(*self);
        }
        let ghost all = self@.action;
        let ghost test = |e: EntryView| !(self@.destination(e, target) is Blocked);
        let ghost renew = |e: EntryView| renewed(self@, e);
        let mut out: Vec<Entry> = Vec::new();
        for i in 0..self.action.len()
            invariant
                all == self@.action,
                all == self.action.deep_view(),
                test == (|e: EntryView| !(self@.destination(e, target) is Blocked)),
                renew == (|e: EntryView| renewed(self@, e)),
                out.deep_view() == order::mapped(kept(all.take(i as int), test), renew),
        {
            let ghost so_far = out.deep_view();
            let ghost passed = kept(all.take(i as int), test);
            proof {
                assert(all.take(i as int + 1).drop_last() =~= all.take(i as int));
                assert(all[i as int] == self.action@[i as int]@);
            }
            let free = match self.destination(&self.action[i], target) {
                Destination::Blocked(_, _) => false,
                _ => true,
            };
            if free {
                let entry = self.renew(&self.action[i]);
                out.push(entry);
                proof {
                    assert(out.deep_view() =~= so_far.push(entry@));
                    assert(order::mapped(passed.push(all[i as int]), renew) =~= so_far.push(
                        entry@,
                    ));
                }
            }
        }
        proof {
            assert(all.take(all.len() as int) =~= all);
        }
        out
    }

    #[verifier::spinoff_prover]
    pub(super) fn start_copy(&mut self, target: Place) -> (r: Vec<Effect>)
        requires
            old(self).next_id < u64::MAX,
        ensures
            (final(self)@, r.deep_view()) == old(self)@.copy_started(target),
    {
        proof {
            reveal(ModelView::copy_started);
        }
        self.clear_ask();
        proof {
            plain(*self);
        }
        let entries = self.copyable(target);
        if entries.len() == 0 {
            let words = match self.refusal(target) {
                Some(reason) => reason,
                None => "Nothing left to copy there.".to_owned(),
            };
            self.set_status(words);
            return nothing();
        }
        proof {
            copyable_is_part(self@, self@.action, target);
        }
        let skipped: usize = self.action.len() - entries.len();
        let words = copy_status(entries.len(), target, skipped);
        let options = options_for(&self.options, &entries);
        let id = self.start_job(words);
        just(Effect::Work { id, options, entries, target })
    }

    pub(super) fn choose_target(&mut self, target: Place) -> (r: Vec<Effect>)
        requires
            old(self).next_id < u64::MAX,
        ensures
            (final(self)@, r.deep_view()) == old(self)@.target_chosen(target),
    {
        proof {
            plain(*self);
            reveal(ModelView::target_chosen);
        }
        match self.question(target) {
            Some(reason) => {
                self.set_ask(target, reason);
                nothing()
            },
            None => self.start_copy(target),
        }
    }

    #[verifier::spinoff_prover]
    pub(super) fn action_key(&mut self, key: Key) -> (r: Vec<Effect>)
        requires
            old(self).next_id < u64::MAX,
        ensures
            (final(self)@, r.deep_view()) == old(self)@.action_key(key),
    {
        proof {
            plain(*self);
            reveal(ModelView::action_key);
        }
        if let Some((target, _)) = self.ask.duplicate() {
            return match key.code {
                KeyCode::Char('y') => self.start_copy(target),
                KeyCode::Esc | KeyCode::Char('q') => {
                    self.clear_ask();
                    nothing()
                },
                _ => nothing(),
            };
        }
        match key.code {
            KeyCode::Char('1') => self.choose_target(Place::Local),
            KeyCode::Char('2') => self.choose_target(Place::Kobo),
            KeyCode::Char('3') => self.choose_target(Place::CrossPoint),
            KeyCode::Esc | KeyCode::Char('q') => {
                self.close_action();
                nothing()
            },
            _ => nothing(),
        }
    }

    /// Another query starts at the top of what it finds.
    pub(super) fn ask_for(&mut self, query: String)
        ensures
            final(self)@ == (ModelView {
                query: query@,
                selected: 0,
                touched: false,
                ..old(self)@
            }),
    {
        proof {
            reveal(Model::seen);
        }
        self.query = query;
        self.selected = 0;
        self.touched = false;
    }

    #[verifier::spinoff_prover]
    pub(super) fn search_key(&mut self, key: Key)
        ensures
            final(self)@ == old(self)@.search_key(key),
    {
        proof {
            reveal(ModelView::search_key);
        }
        self.touch(is_move(key.code));
        proof {
            plain(*self);
        }
        match key.code {
            KeyCode::Esc | KeyCode::Enter => self.set_search(false),
            KeyCode::Backspace => {
                let query = without_last(self.query.as_str());
                self.ask_for(query);
            },
            KeyCode::Char(c) => {
                if c == 'u' && key.control {
                    self.ask_for(String::new());
                } else if is_typed(key).is_some() {
                    let mut query = self.query.duplicate();
                    query.push(c);
                    self.ask_for(query);
                }
            },
            code => self.move_by(code),
        }
    }

    #[verifier::spinoff_prover]
    pub(super) fn resort(&mut self)
        ensures
            final(self)@ == old(self)@.resorted(),
    {
        proof {
            reveal(Model::seen);
            reveal(ModelView::resorted);
        }
        let old = self.selected_entry();
        self.sort = self.sort.next();
        self.sort_entries();
        self.selected = match old {
            Some(old) => {
                let shown = self.filtered();
                find_exact(&shown, &old.source)
            },
            None => 0,
        };
        self.touched = true;
        self.scroll = 0;
    }

    #[verifier::spinoff_prover]
    pub(super) fn open_correction(&mut self)
        ensures
            final(self)@ == old(self)@.correction_opened(),
    {
        proof {
            reveal(Model::seen);
            reveal(ModelView::correction_opened);
        }
        if let Some(entry) = self.selected_entry() {
            match &entry.source {
                Source::Book(book) if self.busy.is_none() => {
                    let made = edit::Panel::new(self.current(&**book));
                    match made {
                        Ok(panel) => self.correcting = Some(panel),
                        Err(words) => self.status = words,
                    }
                },
                _ => {
                    self.status = "Only a book's own metadata can be corrected.".to_owned();
                },
            }
        }
    }

    pub(super) fn open_copies(&mut self)
        ensures
            final(self)@ == old(self)@.copies_opened(),
    {
        proof {
            reveal(Model::seen);
            reveal(ModelView::copies_opened);
        }
        self.copies = match self.selected_entry() {
            Some(entry) => match &entry.source {
                Source::Book(_) => Some(entry),
                Source::Local(_) => None,
            },
            None => None,
        };
        if self.copies.is_none() {
            self.status = "An import request has no copies to delete.".to_owned();
        }
    }

    #[verifier::spinoff_prover]
    pub(super) fn toggle_all(&mut self)
        ensures
            final(self)@ == old(self)@.all_toggled(),
    {
        proof {
            plain(*self);
            reveal(ModelView::all_toggled);
        }
        let mut shown: Vec<Entry> = Vec::new();
        let mut all = true;
        let ghost start = self@;
        {
            let rows = self.filtered();
            for i in 0..rows.len()
                invariant
                    start == self@,
                    rows.deep_view() == start.filtered(),
                    shown.deep_view() == start.filtered().take(i as int),
                    all == forall|j: int|
                        0 <= j < i ==> start.is_marked(#[trigger] start.filtered()[j]),
            {
                let ghost so_far = shown.deep_view();
                let entry = rows[i].duplicate();
                proof {
                    assert(rows.deep_view()[i as int] == entry@);
                    assert(start.filtered().take(i as int + 1) =~= so_far.push(entry@));
                }
                if !self.is_marked(&entry) {
                    all = false;
                }
                shown.push(entry);
                proof {
                    assert(shown.deep_view() =~= so_far.push(entry@));
                }
            }
            proof {
                assert(start.filtered().take(rows@.len() as int) =~= start.filtered());
            }
        }
        let all = shown.len() > 0 && all;
        for i in 0..shown.len()
            invariant
                shown.deep_view() == start.filtered(),
                self@ == (ModelView {
                    marked: toggled_each(start.marked, shown.deep_view().take(i as int), all),
                    ..start
                }),
        {
            proof {
                let more = shown.deep_view().take(i as int + 1);
                assert(more.drop_last() =~= shown.deep_view().take(i as int));
                assert(more.last() == shown@[i as int]@);
            }
            if all == self.is_marked(&shown[i]) {
                self.mark(&shown[i]);
            }
        }
        proof {
            assert(shown.deep_view().take(shown@.len() as int) =~= shown.deep_view());
        }
    }

    #[verifier::spinoff_prover]
    pub(super) fn letter(&mut self, c: char) -> (r: Vec<Effect>)
        requires
            old(self).next_id < u64::MAX,
        ensures
            (final(self)@, r.deep_view()) == old(self)@.letter(c),
    {
        proof {
            plain(*self);
            reveal(ModelView::letter);
        }
        if c == 'q' {
            return self.quit();
        }
        if c == 'e' {
            self.open_correction();
            return nothing();
        }
        if c == 'h' {
            // Read when asked for: a record that is not being looked at does
            // not need to be held.
            return just(Effect::ReadHistory { limit: 200 });
        }
        if c == ',' || c == '.' {
            // Looking at settings costs nothing, so it is never refused: a scan
            // of a reader over Wi-Fi takes long enough that being turned away
            // reads as the key not working.
            self.open_settings(false);
            return nothing();
        }
        if c == 's' {
            self.resort();
            return nothing();
        }
        if c == 'r' {
            return self.refresh();
        }
        if c == ' ' {
            if let Some(entry) = self.selected_entry() {
                self.mark(&entry);
                return nothing();
            }
            return nothing();
        }
        if c == 'a' {
            self.toggle_all();
            return nothing();
        }
        if c == 'd' && self.busy.is_none() {
            self.open_copies();
            return nothing();
        }
        if c == '/' {
            self.set_search(true);
            return nothing();
        }
        if c == '?' {
            self.open_help();
            return nothing();
        }
        if c == 'f' || c == 'F' {
            self.open_menu();
            return nothing();
        }
        nothing()
    }

    #[verifier::spinoff_prover]
    pub(super) fn list_key(&mut self, key: Key) -> (r: Vec<Effect>)
        requires
            old(self).next_id < u64::MAX,
        ensures
            (final(self)@, r.deep_view()) == old(self)@.list_key(key),
    {
        proof {
            reveal(ModelView::list_key);
        }
        let code = match key.code {
            KeyCode::Char('j') => KeyCode::Down,
            KeyCode::Char('k') => KeyCode::Up,
            code => code,
        };
        self.touch(is_move(code));
        proof {
            plain(*self);
        }
        if is_move(code) {
            self.move_by(code);
            return nothing();
        }
        match code {
            KeyCode::Esc => match self.busy {
                Some(id) => {
                    if self.cancel {
                        self.set_status("Stopping after the book in progress…".to_owned());
                        return just(Effect::Stop { id });
                    }
                    nothing()
                },
                None => self.quit(),
            },
            KeyCode::Enter => {
                if self.busy.is_none() {
                    self.open_action();
                    return just(Effect::Measure);
                }
                nothing()
            },
            KeyCode::Char(c) => self.letter(c),
            _ => nothing(),
        }
    }

    pub(super) fn take_correcting(&mut self) -> (r: Option<edit::Panel>)
        ensures
            r.deep_view() == old(self)@.correcting,
            final(self)@ == (ModelView { correcting: None, ..old(self)@ }),
            final(self).correcting is None,
            r is None ==> *final(self) == *old(self),
            final(self).next_id == old(self).next_id,
    {
        proof {
            reveal(Model::seen);
        }
        self.correcting.take()
    }

    pub(super) fn take_settings(&mut self) -> (r: Option<settings::Panel>)
        ensures
            r.deep_view() == old(self)@.settings,
            final(self)@ == (ModelView { settings: None, ..old(self)@ }),
            final(self).settings is None,
            r is None ==> *final(self) == *old(self),
            final(self).next_id == old(self).next_id,
    {
        proof {
            reveal(Model::seen);
        }
        self.settings.take()
    }

    #[verifier::spinoff_prover]
    pub(super) fn key(&mut self, key: Key, found: &[Found; 6]) -> (r: Vec<Effect>)
        requires
            old(self).next_id < u64::MAX,
        ensures
            (final(self)@, r.deep_view()) == old(self)@.keyed(key, found@),
    {
        proof {
            plain(*self);
            reveal(ModelView::keyed);
        }
        if key.release {
            return self.settle();
        }
        if key.code == KeyCode::Char('c') && key.control {
            return self.quit();
        }
        if self.pending_quit {
            return nothing();
        }
        if let Some(panel) = self.take_correcting() {
            return self.correcting_key(panel, key);
        }
        if let Some(panel) = self.take_settings() {
            return self.settings_key(panel, key, found);
        }
        if self.history.is_some() {
            match key.code {
                KeyCode::Esc | KeyCode::Char('h') | KeyCode::Char('q') => self.set_history(None),
                _ => {},
            }
            return nothing();
        }
        if self.help {
            self.help_key(key);
            return nothing();
        }
        if let Some(at) = self.filter_menu {
            self.menu_key(at, key);
            return nothing();
        }
        if let Some(entry) = self.copies.duplicate() {
            return self.copies_key(&entry, key);
        }
        if self.action.len() > 0 {
            return self.action_key(key);
        }
        if self.search {
            self.search_key(key);
            return nothing();
        }
        self.list_key(key)
    }
}

} // verus!
