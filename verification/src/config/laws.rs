//! Settings are what was set last, and lead where they say.
use super::{newer, settled, DefaultsView};
use crate::crosspoint::{address_parts, reader_for, AddressView};
use crate::paths;
use vstd::prelude::*;

verus! {

broadcast use vstd::string::group_string_axioms;

/// A setting that is given replaces the saved one, and one that is not leaves it.
pub proof fn what_is_given_counts(saved: DefaultsView, given: DefaultsView)
    ensures
        ({
            let after = saved.merged(given);
            &&& given.device is Some ==> after.device == given.device
            &&& given.device is None ==> after.device == saved.device
            &&& given.output is Some ==> after.output == given.output
            &&& given.output is None ==> after.output == saved.output
            &&& given.reader is Some ==> after.reader == given.reader
            &&& given.reader is None ==> after.reader == saved.reader
            &&& given.copy_to is Some ==> after.copy_to == given.copy_to
            &&& given.copy_to is None ==> after.copy_to == saved.copy_to
            &&& given.browse is Some ==> after.browse == given.browse
            &&& given.browse is None ==> after.browse == saved.browse
            &&& given.folder is Some ==> after.folder == given.folder
            &&& given.folder is None ==> after.folder == saved.folder
            &&& given.kepub is Some ==> after.kepub == given.kepub
            &&& given.kepub is None ==> after.kepub == saved.kepub
            &&& given.profile is Some ==> after.profile == given.profile
            &&& given.profile is None ==> after.profile == saved.profile
            &&& given.catalog is Some ==> after.catalog == given.catalog
            &&& given.catalog is None ==> after.catalog == saved.catalog
        }),
{
}

/// A command takes what it was given before what was saved.
pub proof fn what_is_explicit_comes_first<T>(saved: Option<T>, explicit: Option<T>)
    ensures
        explicit is Some ==> newer(saved, explicit) == explicit,
        explicit is None ==> newer(saved, explicit) == saved,
{
}

/// Taking a setting out takes out that one and no other, and there is none of another
/// name.
pub proof fn one_setting_is_taken_out(saved: DefaultsView)
    ensures
        saved.unset("device"@) == Some(DefaultsView { device: None, ..saved }),
        saved.unset("output"@) == Some(DefaultsView { output: None, ..saved }),
        saved.unset("reader"@) == Some(DefaultsView { reader: None, ..saved }),
        saved.unset("copy-to"@) == Some(DefaultsView { copy_to: None, ..saved }),
        saved.unset("browse"@) == Some(DefaultsView { browse: None, ..saved }),
        saved.unset("folder"@) == Some(DefaultsView { folder: None, ..saved }),
        saved.unset("kepub"@) == Some(DefaultsView { kepub: None, ..saved }),
        saved.unset("profile"@) == Some(DefaultsView { profile: None, ..saved }),
        saved.unset("catalog"@) == Some(DefaultsView { catalog: None, ..saved }),
{
    reveal_strlit("device");
    reveal_strlit("output");
    reveal_strlit("reader");
    reveal_strlit("copy-to");
    reveal_strlit("browse");
    reveal_strlit("folder");
    reveal_strlit("kepub");
    reveal_strlit("profile");
    reveal_strlit("catalog");
    assert("device"@[0] == 'd' && "output"@[0] == 'o' && "reader"@[0] == 'r');
    assert("browse"@[0] == 'b' && "folder"@[0] == 'f' && "kepub"@.len() == 5);
    assert("copy-to"@[0] == 'c' && "profile"@[0] == 'p' && "catalog"@[0] == 'c');
    assert("copy-to"@[1] == 'o' && "catalog"@[1] == 'a');
    assert("copy-to"@.len() == 7 && "profile"@.len() == 7 && "catalog"@.len() == 7);
}

/// A path in the settings is one from the root, or one from home, which it is then made
/// to lead from; any other is refused.
pub proof fn paths_lead_from_the_root(value: Seq<char>, home: Option<Seq<char>>)
    ensures
        settled(value, home).1 is None ==> settled(value, home).0.len() > 0 && settled(
            value,
            home,
        ).0[0] == '/',
        value.len() > 0 && value[0] == '/' ==> settled(value, home) == (value, None::<Seq<char>>),
        (value.len() > 0 && value[0] != '/' && value[0] != '~') ==> settled(value, home).1 is Some,
        value.len() >= 2 && value[0] == '~' && value[1] == '/' && (home matches Some(h)
            && h.len() > 0 && h[0] == '/') ==> settled(value, home).1 is None && settled(
            value,
            home,
        ).0 == paths::below(home->0, paths::from_home(value)),
{
    if value.len() >= 2 && value[0] == '~' && value[1] == '/' {
        if let Some(h) = home {
            if h.len() > 0 && h[0] == '/' {
                rootless_is_relative(value.skip(1));
                let rest = paths::from_home(value);
                assert(!paths::absolute(rest));
                assert(paths::below(h, rest)[0] == h[0]);
            }
        }
    }
}

proof fn rootless_is_relative(s: Seq<char>)
    ensures
        !paths::absolute(paths::rootless(s)),
    decreases s.len(),
{
    if s.len() > 0 && s[0] == '/' {
        rootless_is_relative(s.drop_first());
    }
}

/// Settings are used when each can be: every path is settled, and the reader, the
/// catalogue and the screen are known.
pub proof fn every_setting_is_settled(saved: DefaultsView, home: Option<Seq<char>>)
    ensures
        saved.normal(home).1 is None ==> ({
            let used = saved.normal(home).0;
            &&& is_settled(saved.device, used.device, home)
            &&& is_settled(saved.output, used.output, home)
            &&& is_settled(saved.copy_to, used.copy_to, home)
            &&& is_settled(saved.browse, used.browse, home)
            &&& used.reader == saved.reader
            &&& used.folder == saved.folder
            &&& used.kepub == saved.kepub
            &&& used.profile == saved.profile
            &&& used.catalog == saved.catalog
        }),
        saved.device matches Some(path) ==> (settled(path, home).1 is Some ==> saved.normal(
            home,
        ).1 is Some),
        saved.output matches Some(path) ==> (settled(path, home).1 is Some ==> saved.normal(
            home,
        ).1 is Some),
        saved.copy_to matches Some(path) ==> (settled(path, home).1 is Some ==> saved.normal(
            home,
        ).1 is Some),
        saved.browse matches Some(path) ==> (settled(path, home).1 is Some ==> saved.normal(
            home,
        ).1 is Some),
{
}

/// Whether a path that was saved is used as it is settled.
pub open spec fn is_settled(
    saved: Option<Seq<char>>,
    used: Option<Seq<char>>,
    home: Option<Seq<char>>,
) -> bool {
    match saved {
        None => used is None,
        Some(path) => used == Some(settled(path, home).0) && settled(path, home).1 is None,
    }
}

/// Settings that name a reader, a catalogue on the web and a known screen can be used,
/// and no others.
pub proof fn settings_are_usable_when_all_are(saved: DefaultsView, base: AddressView)
    ensures
        saved.unusable() is None ==> saved.screen() is Ok,
        saved.catalog matches Some(catalog) ==> (saved.unusable() is None && address_parts(catalog)
            == Ok::<AddressView, Seq<char>>(base) ==> base.scheme == "http"@ || base.scheme
            == "https"@),
        saved.catalog matches Some(catalog) ==> (address_parts(catalog) is Err
            ==> saved.unusable() is Some),
        (saved.reader matches Some(reader) && (saved.folder matches Some(folder) && reader_for(
            reader,
            folder,
        ) is Err)) ==> saved.unusable() is Some,
        (saved.reader matches Some(reader) && (saved.folder matches Some(folder) && reader_for(
            reader,
            folder,
        ) is Ok)) && saved.catalog is None && saved.screen() is Ok ==> saved.unusable() is None,
{
}

} // verus!
