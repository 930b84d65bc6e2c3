//! The small changes that the steps of the interface are made of, each of a few
//! fields.
use super::model::{filter_place, Model, ModelView};
use super::settings;
use super::update::{configured_options, moved, moved_to, wrapped};
use super::{EntryView, Entry, KeyCode, OptionsView};
use crate::books::{Place, Snapshot};
use crate::config::Defaults;
use crate::history;
use vstd::prelude::*;

verus! {

broadcast use vstd::string::group_string_axioms;

impl Model {
    pub(super) fn set_status(&mut self, words: String)
        ensures
            final(self)@ == (ModelView { status: words@, ..old(self)@ }),
    {
        proof {
            reveal(Model::seen);
        }
        self.status = words;
    }

    pub(super) fn set_settings(&mut self, panel: settings::Panel)
        ensures
            final(self)@ == (ModelView { settings: Some(panel@), ..old(self)@ }),
    {
        proof {
            reveal(Model::seen);
        }
        self.settings = Some(panel);
    }

    pub(super) fn put_settings(&mut self, panel: settings::Panel) -> (id: u64)
        requires
            old(self).next_id < u64::MAX,
        ensures
            id == old(self).next_id + 1,
            final(self)@ == (ModelView {
                settings: Some(panel@),
                next_id: id,
                configuring: Some(id),
                ..old(self)@
            }),
    {
        proof {
            reveal(Model::seen);
        }
        self.settings = Some(panel);
        let id = self.id();
        self.configuring = Some(id);
        id
    }

    pub(super) fn drop_settings(&mut self)
        ensures
            final(self)@ == (ModelView { settings: None, ..old(self)@ }),
            final(self).next_id == old(self).next_id,
    {
        proof {
            reveal(Model::seen);
        }
        self.settings = None;
    }

    pub(super) fn skip_setup(&mut self)
        ensures
            final(self)@ == (ModelView {
                options: OptionsView { first_run: false, ..old(self)@.options },
                skipped: true,
                ..old(self)@
            }),
            final(self).next_id == old(self).next_id,
    {
        proof {
            reveal(Model::seen);
        }
        self.options.first_run = false;
        self.skipped = true;
    }

    /// The question is answered with a no, or has become pointless.
    pub(super) fn keep_copy(&mut self, words: String)
        ensures
            final(self)@ == (ModelView { confirm: None, status: words@, ..old(self)@ }),
    {
        proof {
            reveal(Model::seen);
        }
        self.confirm = None;
        self.status = words;
    }

    pub(super) fn start_removal(&mut self, words: String) -> (id: u64)
        requires
            old(self).next_id < u64::MAX,
        ensures
            id == old(self).next_id + 1,
            final(self)@ == (ModelView {
                next_id: id,
                busy: Some(id),
                confirm: None,
                copies: None,
                status: words@,
                ..old(self)@
            }),
    {
        proof {
            reveal(Model::seen);
        }
        let id = self.id();
        self.busy = Some(id);
        self.confirm = None;
        self.copies = None;
        self.status = words;
        id
    }

    pub(super) fn clear_ask(&mut self)
        ensures
            final(self)@ == (ModelView { ask: None, ..old(self)@ }),
            final(self).next_id == old(self).next_id,
    {
        proof {
            reveal(Model::seen);
        }
        self.ask = None;
    }

    pub(super) fn start_job(&mut self, words: String) -> (id: u64)
        requires
            old(self).next_id < u64::MAX,
        ensures
            id == old(self).next_id + 1,
            final(self)@ == (ModelView {
                action: Seq::empty(),
                marked: Seq::empty(),
                next_id: id,
                busy: Some(id),
                cancel: true,
                status: words@,
                ..old(self)@
            }),
    {
        proof {
            reveal(Model::seen);
        }
        self.action = Vec::new();
        self.marked = Vec::new();
        let id = self.id();
        self.busy = Some(id);
        self.cancel = true;
        self.status = words;
        proof {
            assert(self@.action =~= Seq::<EntryView>::empty());
            assert(self@.marked =~= Seq::<(Place, Seq<char>)>::empty());
        }
        id
    }

    pub(super) fn touch(&mut self, moved: bool)
        ensures
            final(self)@ == (ModelView {
                touched: old(self)@.touched || moved,
                ..old(self)@
            }),
            final(self).next_id == old(self).next_id,
    {
        proof {
            reveal(Model::seen);
        }
        self.touched = self.touched || moved;
    }

    pub(super) fn move_by(&mut self, code: KeyCode)
        ensures
            final(self)@ == (ModelView {
                selected: moved(old(self)@.selected, code, old(self)@.filtered().len()),
                ..old(self)@
            }),
    {
        let len = self.filtered().len();
        proof {
            reveal(Model::seen);
        }
        self.selected = moved_to(self.selected, code, len);
    }

    pub(super) fn set_search(&mut self, search: bool)
        ensures
            final(self)@ == (ModelView { search, ..old(self)@ }),
    {
        proof {
            reveal(Model::seen);
        }
        self.search = search;
    }

    pub(super) fn open_help(&mut self)
        ensures
            final(self)@ == (ModelView { help: true, help_scroll: 0, ..old(self)@ }),
    {
        proof {
            reveal(Model::seen);
        }
        self.help = true;
        self.help_scroll = 0;
    }

    pub(super) fn open_menu(&mut self)
        ensures
            final(self)@ == (ModelView {
                filter_menu: Some(filter_place(old(self)@.filter) as usize),
                ..old(self)@
            }),
    {
        proof {
            reveal(Model::seen);
        }
        self.filter_menu = Some(self.filter.position());
    }

    pub(super) fn open_action(&mut self)
        ensures
            final(self)@ == (ModelView {
                action: old(self)@.chosen(),
                room: Seq::empty(),
                ..old(self)@
            }),
    {
        let chosen = self.chosen();
        proof {
            reveal(Model::seen);
        }
        self.action = chosen;
        // Asked once, when the dialog opens, rather than on every frame it is
        // drawn for.
        self.room = Vec::new();
        proof {
            assert(self@.room =~= Seq::<(Place, Option<u64>)>::empty());
        }
    }

    pub(super) fn close_action(&mut self)
        ensures
            final(self)@ == (ModelView { action: Seq::empty(), ..old(self)@ }),
    {
        proof {
            reveal(Model::seen);
        }
        self.action = Vec::new();
        proof {
            assert(self@.action =~= Seq::<EntryView>::empty());
        }
    }

    pub(super) fn set_ask(&mut self, target: Place, reason: String)
        ensures
            final(self)@ == (ModelView { ask: Some((target, reason@)), ..old(self)@ }),
    {
        proof {
            reveal(Model::seen);
        }
        self.ask = Some((target, reason));
    }

    pub(super) fn close_copies(&mut self)
        ensures
            final(self)@ == (ModelView { copies: None, ..old(self)@ }),
    {
        proof {
            reveal(Model::seen);
        }
        self.copies = None;
    }

    pub(super) fn set_confirm(&mut self, place: Place, path: String)
        ensures
            final(self)@ == (ModelView { confirm: Some((place, path@)), ..old(self)@ }),
    {
        proof {
            reveal(Model::seen);
        }
        self.confirm = Some((place, path));
    }

    pub(super) fn set_menu(&mut self, menu: Option<usize>)
        ensures
            final(self)@ == (ModelView { filter_menu: menu, ..old(self)@ }),
    {
        proof {
            reveal(Model::seen);
        }
        self.filter_menu = menu;
    }

    pub(super) fn tick(&mut self)
        ensures
            final(self)@ == (ModelView { tick: wrapped(old(self)@.tick), ..old(self)@ }),
    {
        proof {
            reveal(Model::seen);
        }
        self.tick = if self.tick == usize::MAX {
            0
        } else {
            self.tick + 1
        };
    }

    pub(super) fn set_step(&mut self, step: Option<(usize, usize)>)
        ensures
            final(self)@ == (ModelView { step, ..old(self)@ }),
    {
        proof {
            reveal(Model::seen);
        }
        self.step = step;
    }

    pub(super) fn hold_catalog(&mut self, snapshot: Snapshot)
        ensures
            final(self)@ == (ModelView { pending_catalog: Some(snapshot@), ..old(self)@ }),
    {
        proof {
            reveal(Model::seen);
        }
        self.pending_catalog = Some(snapshot);
    }

    pub(super) fn set_history(&mut self, history: Option<Vec<history::Entry>>)
        ensures
            final(self)@ == (ModelView { history: history.deep_view(), ..old(self)@ }),
    {
        proof {
            reveal(Model::seen);
        }
        self.history = history;
    }

    pub(super) fn set_room(&mut self, room: Vec<(Place, Option<u64>)>)
        ensures
            final(self)@ == (ModelView { room: room.deep_view(), ..old(self)@ }),
    {
        proof {
            reveal(Model::seen);
        }
        self.room = room;
    }

    pub(super) fn end_configuring(&mut self)
        ensures
            final(self)@ == (ModelView { configuring: None, ..old(self)@ }),
            final(self).next_id == old(self).next_id,
    {
        proof {
            reveal(Model::seen);
        }
        self.configuring = None;
    }

    pub(super) fn use_settings(&mut self, defaults: Defaults)
        ensures
            final(self)@ == (ModelView {
                options: configured_options(old(self)@.options, defaults@),
                ..old(self)@
            }),
            final(self).next_id == old(self).next_id,
    {
        proof {
            reveal(Model::seen);
        }
        self.options.take(defaults);
    }

    pub(super) fn select(&mut self, row: usize)
        ensures
            final(self)@ == (ModelView { selected: row, ..old(self)@ }),
    {
        proof {
            reveal(Model::seen);
        }
        self.selected = row;
    }

    pub(super) fn set_rows(&mut self, entries: Vec<Entry>)
        ensures
            final(self)@ == (ModelView { entries: entries.deep_view(), ..old(self)@ }),
    {
        proof {
            reveal(Model::seen);
        }
        self.entries = entries;
    }

    pub(super) fn set_catalog(&mut self, catalog: Snapshot)
        ensures
            final(self)@ == (ModelView { catalog: catalog@, ..old(self)@ }),
    {
        proof {
            reveal(Model::seen);
        }
        self.catalog = catalog;
    }
}

} // verus!
