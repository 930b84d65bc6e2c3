//! Optional user defaults, separate from private activation and recovery state.
use crate::crosspoint::{address_parts, parse_address, reader_for, Address, AddressView, Reader};
use crate::paths;
use crate::profile::{default_profile, for_device, known, x4, Profile};
use crate::text;
use crate::values::{result_view, Duplicate};
use vstd::prelude::*;

pub mod laws;

verus! {

broadcast use vstd::string::group_string_axioms;

#[derive(Clone, Debug, Default, PartialEq, Eq)]
pub struct Defaults {
    pub device: Option<String>,
    pub output: Option<String>,
    /// CrossPoint address used by send or an explicit --send-to.
    pub reader: Option<String>,
    pub copy_to: Option<String>,
    pub browse: Option<String>,
    pub folder: Option<String>,
    /// Send books to the Kobo as kepubs, which its own reading engine counts.
    pub kepub: Option<bool>,
    /// The reader model to prepare device copies for, as CrossPoint names it.
    pub profile: Option<String>,
    /// OPDS catalogue browsed by default, instead of the Palace Bookshelf.
    pub catalog: Option<String>,
}

#[verifier::ext_equal]
pub struct DefaultsView {
    pub device: Option<Seq<char>>,
    pub output: Option<Seq<char>>,
    pub reader: Option<Seq<char>>,
    pub copy_to: Option<Seq<char>>,
    pub browse: Option<Seq<char>>,
    pub folder: Option<Seq<char>>,
    pub kepub: Option<bool>,
    pub profile: Option<Seq<char>>,
    pub catalog: Option<Seq<char>>,
}

impl View for Defaults {
    type V = DefaultsView;

    open spec fn view(&self) -> DefaultsView {
        DefaultsView {
            device: self.device.deep_view(),
            output: self.output.deep_view(),
            reader: self.reader.deep_view(),
            copy_to: self.copy_to.deep_view(),
            browse: self.browse.deep_view(),
            folder: self.folder.deep_view(),
            kepub: self.kepub,
            profile: self.profile.deep_view(),
            catalog: self.catalog.deep_view(),
        }
    }
}

impl DeepView for Defaults {
    type V = DefaultsView;

    open spec fn deep_view(&self) -> DefaultsView {
        self@
    }
}

impl Duplicate for Defaults {
    fn duplicate(&self) -> (r: Defaults) {
        Defaults {
            device: self.device.duplicate(),
            output: self.output.duplicate(),
            reader: self.reader.duplicate(),
            copy_to: self.copy_to.duplicate(),
            browse: self.browse.duplicate(),
            folder: self.folder.duplicate(),
            kepub: self.kepub,
            profile: self.profile.duplicate(),
            catalog: self.catalog.duplicate(),
        }
    }
}

/// Where the configuration is kept, given the two folders the environment may
/// name: an absolute configuration folder, or one in the home folder.
pub open spec fn default_place(config: Option<Seq<char>>, home: Option<Seq<char>>) -> Result<
    Seq<char>,
    Seq<char>,
> {
    match (config, home) {
        (Some(base), _) if paths::absolute(base) => Ok(
            paths::below(base, "crossload/config.json"@),
        ),
        (_, Some(home)) => Ok(
            paths::below(paths::below(home, ".config"@), "crossload/config.json"@),
        ),
        _ => Err("HOME is unset; use --config <file>"@),
    }
}

pub fn default_path(config: &Option<String>, home: &Option<String>) -> (r: Result<String, String>)
    ensures
        result_view(r) == default_place(config.deep_view(), home.deep_view()),
{
    if let Some(base) = config {
        if paths::is_absolute(base.as_str()) {
            return Ok(paths::resolve(base.as_str(), "crossload/config.json"));
        }
    }
    match home {
        Some(home) => {
            let base = paths::resolve(home.as_str(), ".config");
            Ok(paths::resolve(base.as_str(), "crossload/config.json"))
        },
        None => Err("HOME is unset; use --config <file>".to_owned()),
    }
}

/// More settings than this are not settings.
pub const MAX_BYTES: usize = 65536;

/// Check how much was read of the settings.
pub fn load(length: usize) -> (r: Result<(), String>)
    ensures
        result_view(r) == if length <= MAX_BYTES {
            Ok(())
        } else {
            Err("Configuration exceeds 64 KiB"@)
        },
{
    if length <= MAX_BYTES {
        Ok(())
    } else {
        Err("Configuration exceeds 64 KiB".to_owned())
    }
}

/// A saved path as it is used, and what is wrong with it: one in the home
/// folder is written out, and every path has to start at the root.
pub open spec fn settled(value: Seq<char>, home: Option<Seq<char>>) -> (
    Seq<char>,
    Option<Seq<char>>,
) {
    if paths::at_home(value) && home is None {
        (value, Some("HOME is unset"@))
    } else {
        let value = if paths::at_home(value) {
            paths::below(home->0, paths::from_home(value))
        } else {
            value
        };
        if paths::absolute(value) {
            (value, None)
        } else {
            (
                value,
                Some("Configuration paths must be absolute (or start with ~/): "@ + value),
            )
        }
    }
}

pub open spec fn settled_option(value: Option<Seq<char>>, home: Option<Seq<char>>) -> (
    Option<Seq<char>>,
    Option<Seq<char>>,
) {
    match value {
        Some(value) => (Some(settled(value, home).0), settled(value, home).1),
        None => (None, None),
    }
}

fn settle(value: &mut Option<String>, home: &Option<String>) -> (r: Option<String>)
    ensures
        (final(value).deep_view(), r.deep_view()) == settled_option(
            old(value).deep_view(),
            home.deep_view(),
        ),
{
    match value.duplicate() {
        Some(text) => {
            let mut text = text;
            if paths::is_at_home(text.as_str()) {
                match home {
                    Some(home) => {
                        let rest = paths::after_home(text.as_str());
                        text = paths::resolve(home.as_str(), rest.as_str());
                    },
                    None => return Some("HOME is unset".to_owned()),
                }
            }
            let good = paths::is_absolute(text.as_str());
            let words = text::concat(
                "Configuration paths must be absolute (or start with ~/): ",
                text.as_str(),
            );
            *value = Some(text);
            if good {
                None
            } else {
                Some(words)
            }
        },
        None => None,
    }
}

/// What is wrong with a catalogue at an address already taken apart.
pub open spec fn catalog_problem(
    catalog: Seq<char>,
    parts: Result<AddressView, Seq<char>>,
) -> Option<Seq<char>> {
    match parts {
        Ok(parts) => if parts.scheme == "http"@ || parts.scheme == "https"@ {
            None
        } else {
            Some("A catalogue address must be http or https"@)
        },
        Err(words) => Some("Invalid catalogue address "@ + catalog + ": "@ + words),
    }
}

pub fn check_catalog(catalog: &str, parts: Result<Address, String>) -> (r: Option<String>)
    ensures
        r.deep_view() == catalog_problem(catalog@, result_view(parts)),
{
    match parts {
        Ok(parts) => if text::same(parts.scheme.as_str(), "http") || text::same(
            parts.scheme.as_str(),
            "https",
        ) {
            None
        } else {
            Some("A catalogue address must be http or https".to_owned())
        },
        Err(words) => Some(
            text::concat4("Invalid catalogue address ", catalog, ": ", words.as_str()),
        ),
    }
}

impl DefaultsView {
    pub open spec fn screen(self) -> Result<Profile, Seq<char>> {
        match self.profile {
            None => Ok(default_profile()),
            Some(name) => if text::same_ascii(x4().device@, text::trimmed(name)) {
                Ok(x4())
            } else {
                Err(
                    "Unknown reader "@ + name + "; known screens are "@ + x4().device@
                        + ". Leave profile unset for "@ + default_profile().device@
                        + ", or use --no-optimize to send books as they are"@,
                )
            },
        }
    }

    /// The defaults as they are used, and the first thing wrong with them.
    pub open spec fn normal(self, home: Option<Seq<char>>) -> (DefaultsView, Option<Seq<char>>) {
        let (device, p1) = settled_option(self.device, home);
        let (output, p2) = settled_option(self.output, home);
        let (copy_to, p3) = settled_option(self.copy_to, home);
        let (browse, p4) = settled_option(self.browse, home);
        let d1 = DefaultsView { device, ..self };
        let d2 = DefaultsView { output, ..d1 };
        let d3 = DefaultsView { copy_to, ..d2 };
        let d4 = DefaultsView { browse, ..d3 };
        if p1 is Some {
            (d1, p1)
        } else if p2 is Some {
            (d2, p2)
        } else if p3 is Some {
            (d3, p3)
        } else if p4 is Some {
            (d4, p4)
        } else {
            (d4, d4.unusable())
        }
    }

    /// What is wrong with the reader, the catalogue or the screen.
    pub open spec fn unusable(self) -> Option<Seq<char>> {
        let reader = reader_for(
            match self.reader {
                Some(reader) => reader,
                None => "crosspoint.local"@,
            },
            match self.folder {
                Some(folder) => folder,
                None => "/"@,
            },
        );
        let catalog = match self.catalog {
            Some(catalog) => catalog_problem(catalog, address_parts(catalog)),
            None => None,
        };
        if reader is Err {
            Some(reader->Err_0)
        } else if catalog is Some {
            catalog
        } else if self.screen() is Err {
            Some(self.screen()->Err_0)
        } else {
            None
        }
    }

    /// These defaults with every setting of another taken over.
    pub open spec fn merged(self, update: DefaultsView) -> DefaultsView {
        DefaultsView {
            device: newer(self.device, update.device),
            output: newer(self.output, update.output),
            reader: newer(self.reader, update.reader),
            copy_to: newer(self.copy_to, update.copy_to),
            browse: newer(self.browse, update.browse),
            folder: newer(self.folder, update.folder),
            kepub: newer(self.kepub, update.kepub),
            profile: newer(self.profile, update.profile),
            catalog: newer(self.catalog, update.catalog),
        }
    }

    /// These defaults without the setting of that name, if there is one.
    pub open spec fn unset(self, key: Seq<char>) -> Option<DefaultsView> {
        if key == "device"@ {
            Some(DefaultsView { device: None, ..self })
        } else if key == "output"@ {
            Some(DefaultsView { output: None, ..self })
        } else if key == "reader"@ {
            Some(DefaultsView { reader: None, ..self })
        } else if key == "copy-to"@ {
            Some(DefaultsView { copy_to: None, ..self })
        } else if key == "browse"@ {
            Some(DefaultsView { browse: None, ..self })
        } else if key == "folder"@ {
            Some(DefaultsView { folder: None, ..self })
        } else if key == "kepub"@ {
            Some(DefaultsView { kepub: None, ..self })
        } else if key == "profile"@ {
            Some(DefaultsView { profile: None, ..self })
        } else if key == "catalog"@ {
            Some(DefaultsView { catalog: None, ..self })
        } else {
            None
        }
    }
}

/// A setting with a newer one over it, if there is one.
pub open spec fn newer<T>(old: Option<T>, new: Option<T>) -> Option<T> {
    if new is Some {
        new
    } else {
        old
    }
}

/// Saving the same settings twice changes nothing more, and settings taken
/// over one after the other are those of both, the later over the earlier.
pub proof fn merging_settings(a: DefaultsView, b: DefaultsView, c: DefaultsView)
    ensures
        a.merged(b).merged(b) == a.merged(b),
        a.merged(b).merged(c) == a.merged(b.merged(c)),
        a.merged(a) == a,
{
}

/// A setting that was taken out is not there, and nothing else is touched by
/// putting it back.
pub proof fn unsetting_is_undone_by_merging(a: DefaultsView, key: Seq<char>)
    ensures
        a.unset(key) is Some ==> a.unset(key)->0.merged(a) == a,
        a.unset(key) is Some ==> a.unset(key)->0.unset(key) == a.unset(key),
{
}

impl Defaults {
    /// The screen device copies are made for. An unknown name is refused
    /// rather than quietly falling back to a screen the reader does not have.
    pub fn screen(&self) -> (r: Result<Profile, String>)
        ensures
            match (r, self@.screen()) {
                (Ok(profile), Ok(wanted)) => profile == wanted,
                (Err(words), Err(wanted)) => words@ == wanted,
                _ => false,
            },
    {
        match &self.profile {
            None => Ok(default_profile()),
            Some(name) => match for_device(name.as_str()) {
                Some(profile) => Ok(profile),
                None => {
                    let mut words = text::concat4(
                        "Unknown reader ",
                        name.as_str(),
                        "; known screens are ",
                        known().as_str(),
                    );
                    words.push_str(". Leave profile unset for ");
                    words.push_str(default_profile().device);
                    words.push_str(", or use --no-optimize to send books as they are");
                    Err(words)
                },
            },
        }
    }

    /// Write every path out and check that all of it can be used. `home` is
    /// the home folder, when there is one.
    pub fn normalize(&mut self, home: &Option<String>) -> (r: Result<(), String>)
        ensures
            (final(self)@, match r {
                Ok(()) => None,
                Err(words) => Some(words@),
            }) == old(self)@.normal(home.deep_view()),
    {
        if let Some(words) = settle(&mut self.device, home) {
            return Err(words);
        }
        if let Some(words) = settle(&mut self.output, home) {
            return Err(words);
        }
        if let Some(words) = settle(&mut self.copy_to, home) {
            return Err(words);
        }
        if let Some(words) = settle(&mut self.browse, home) {
            return Err(words);
        }
        let address = match &self.reader {
            Some(reader) => reader.as_str(),
            None => "crosspoint.local",
        };
        let folder = match &self.folder {
            Some(folder) => folder.as_str(),
            None => "/",
        };
        if let Err(words) = Reader::new(address, folder) {
            return Err(words);
        }
        // A catalogue that is not a usable address is refused at save time,
        // like the screen below, rather than on every browse afterwards.
        if let Some(catalog) = &self.catalog {
            let parts = parse_address(catalog.as_str());
            if let Some(words) = check_catalog(catalog.as_str(), parts) {
                return Err(words);
            }
        }
        match self.screen() {
            Ok(_) => Ok(()),
            Err(words) => Err(words),
        }
    }

    pub fn merge(&mut self, update: Defaults)
        ensures
            final(self)@ == old(self)@.merged(update@),
    {
        if update.device.is_some() {
            self.device = update.device;
        }
        if update.output.is_some() {
            self.output = update.output;
        }
        if update.reader.is_some() {
            self.reader = update.reader;
        }
        if update.copy_to.is_some() {
            self.copy_to = update.copy_to;
        }
        if update.browse.is_some() {
            self.browse = update.browse;
        }
        if update.folder.is_some() {
            self.folder = update.folder;
        }
        if update.kepub.is_some() {
            self.kepub = update.kepub;
        }
        if update.profile.is_some() {
            self.profile = update.profile;
        }
        if update.catalog.is_some() {
            self.catalog = update.catalog;
        }
    }

    pub fn unset(&mut self, key: &str) -> (r: Result<(), String>)
        ensures
            match old(self)@.unset(key@) {
                Some(after) => r is Ok && final(self)@ == after,
                None => final(self)@ == old(self)@ && r is Err && r->Err_0@ == "Unknown setting "@
                    + key@
                    + "; use device, output, reader, copy-to, browse, folder, kepub, profile or catalog"@,
            },
    {
        if text::same(key, "device") {
            self.device = None;
        } else if text::same(key, "output") {
            self.output = None;
        } else if text::same(key, "reader") {
            self.reader = None;
        } else if text::same(key, "copy-to") {
            self.copy_to = None;
        } else if text::same(key, "browse") {
            self.browse = None;
        } else if text::same(key, "folder") {
            self.folder = None;
        } else if text::same(key, "kepub") {
            self.kepub = None;
        } else if text::same(key, "profile") {
            self.profile = None;
        } else if text::same(key, "catalog") {
            self.catalog = None;
        } else {
            return Err(
                text::concat3(
                    "Unknown setting ",
                    key,
                    "; use device, output, reader, copy-to, browse, folder, kepub, profile or catalog",
                ),
            );
        }
        Ok(())
    }
}

/// A value given now, or else the saved one; without either, which flag would
/// have given it.
pub fn required<T>(explicit: Option<T>, saved: Option<T>, flag: &str) -> (r: Result<T, String>)
    ensures
        match r {
            Ok(value) => newer(saved, explicit) == Some(value),
            Err(words) => newer(saved, explicit) is None && words@ == "Missing "@ + flag@
                + "; supply it or save a default with crossload config set"@,
        },
{
    match explicit {
        Some(value) => Ok(value),
        None => match saved {
            Some(value) => Ok(value),
            None => Err(
                text::concat3(
                    "Missing ",
                    flag,
                    "; supply it or save a default with crossload config set",
                ),
            ),
        },
    }
}

} // verus!
