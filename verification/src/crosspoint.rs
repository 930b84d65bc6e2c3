//! The transfer protocol of a CrossPoint reader: which addresses and names it
//! takes, and what is asked of it in which order.
use crate::digest::{digest, sha256};
use crate::epub;
use crate::format::Format;
use crate::paths;
use crate::text;
use crate::values::{result_view, Duplicate};
use vstd::prelude::*;

pub mod laws;
pub mod send;
pub mod upload;

verus! {

broadcast use vstd::string::group_string_axioms;

/// The parts of an address.
#[derive(Clone, Debug, PartialEq, Eq)]
pub struct Address {
    pub scheme: String,
    pub username: String,
    pub password: Option<String>,
    pub host: Option<String>,
    pub port: Option<u16>,
    pub path: String,
    pub query: Option<String>,
    pub fragment: Option<String>,
    /// The whole address, written out.
    pub whole: String,
}

#[verifier::ext_equal]
pub struct AddressView {
    pub scheme: Seq<char>,
    pub username: Seq<char>,
    pub password: Option<Seq<char>>,
    pub host: Option<Seq<char>>,
    pub port: Option<u16>,
    pub path: Seq<char>,
    pub query: Option<Seq<char>>,
    pub fragment: Option<Seq<char>>,
    pub whole: Seq<char>,
}

impl View for Address {
    type V = AddressView;

    open spec fn view(&self) -> AddressView {
        AddressView {
            scheme: self.scheme@,
            username: self.username@,
            password: self.password.deep_view(),
            host: self.host.deep_view(),
            port: self.port,
            path: self.path@,
            query: self.query.deep_view(),
            fragment: self.fragment.deep_view(),
            whole: self.whole@,
        }
    }
}

impl DeepView for Address {
    type V = AddressView;

    open spec fn deep_view(&self) -> AddressView {
        self@
    }
}

impl Duplicate for Address {
    fn duplicate(&self) -> (r: Address) {
        Address {
            scheme: self.scheme.duplicate(),
            username: self.username.duplicate(),
            password: self.password.duplicate(),
            host: self.host.duplicate(),
            port: self.port,
            path: self.path.duplicate(),
            query: self.query.duplicate(),
            fragment: self.fragment.duplicate(),
            whole: self.whole.duplicate(),
        }
    }
}

/// What `url::Url::parse` makes of a text: the parts of the address, or the
/// words of its complaint.
pub uninterp spec fn address_parts(text: Seq<char>) -> Result<AddressView, Seq<char>>;

/// `url::Url::parse`, with the parts its accessors give. What the URL standard
/// makes of a text is named rather than stated.
#[verifier::external_body]
pub(crate) fn parse_address(text: &str) -> (r: Result<Address, String>)
    ensures
        result_view(r) == address_parts(text@),
{
    match url::Url::parse(text) {
        Ok(u) => Ok(Address {
            scheme: u.scheme().to_owned(),
            username: u.username().to_owned(),
            password: u.password().map(str::to_owned),
            host: u.host_str().map(str::to_owned),
            port: u.port(),
            path: u.path().to_owned(),
            query: u.query().map(str::to_owned),
            fragment: u.fragment().map(str::to_owned),
            whole: u.as_str().to_owned(),
        }),
        Err(e) => Err(e.to_string()),
    }
}

/// A text as `{:?}` writes it: between quotes, with escapes.
pub uninterp spec fn quoted(text: Seq<char>) -> Seq<char>;

/// The standard library's `Debug` for `str`, which follows Unicode's tables for
/// what it escapes; the result is named.
#[verifier::external_body]
pub(crate) fn quote(text: &str) -> (r: String)
    ensures
        r@ == quoted(text@),
{
    format!("{text:?}")
}

/// The characters no FAT file name may hold.
pub open spec fn reserved(c: char) -> bool {
    ||| c == '<'
    ||| c == '>'
    ||| c == ':'
    ||| c == '"'
    ||| c == '/'
    ||| c == '\\'
    ||| c == '|'
    ||| c == '?'
    ||| c == '*'
}

pub fn is_reserved(c: char) -> (r: bool)
    ensures
        r == reserved(c),
{
    c == '<' || c == '>' || c == ':' || c == '"' || c == '/' || c == '\\' || c == '|' || c == '?'
        || c == '*'
}

/// Whether the reader takes a name for a file or a folder.
pub open spec fn takes(name: Seq<char>) -> bool {
    &&& name.len() > 0
    &&& name[0] != '.'
    &&& name.last() != ' '
    &&& name.last() != '.'
    &&& vstd::utf8::encode_utf8(name).len() <= 255
    &&& forall|i: int|
        0 <= i < name.len() ==> !text::control(#[trigger] name[i]) && !reserved(name[i])
    &&& text::lowercase(name) != "system volume information"@
    &&& text::lowercase(name) != "xtcache"@
}

pub open spec fn refused_name(name: Seq<char>) -> Seq<char> {
    "Unsupported remote filename or folder component: "@ + quoted(name)
}

/// Check a name for a file or a folder on the reader.
pub fn valid_component(name: &str) -> (r: Result<(), String>)
    ensures
        result_view(r) == if takes(name@) {
            Ok(())
        } else {
            Err(refused_name(name@))
        },
{
    let c = text::chars(name);
    let mut good = c.len() > 0 && c[0] != '.' && c[c.len() - 1] != ' ' && c[c.len() - 1] != '.'
        && name.as_bytes().len() <= 255;
    for i in 0..c.len()
        invariant
            c@ == name@,
            good == (name@.len() > 0 && name@[0] != '.' && name@.last() != ' ' && name@.last()
                != '.' && vstd::utf8::encode_utf8(name@).len() <= 255 && forall|j: int|
                0 <= j < i ==> !text::control(#[trigger] name@[j]) && !reserved(name@[j])),
    {
        if text::is_control(c[i]) || is_reserved(c[i]) {
            good = false;
        }
    }
    if good {
        let lower = text::to_lowercase(name);
        good = !text::same(lower.as_str(), "system volume information") && !text::same(
            lower.as_str(),
            "xtcache",
        );
    }
    if good {
        Ok(())
    } else {
        Err(
            text::concat(
                "Unsupported remote filename or folder component: ",
                quote(name).as_str(),
            ),
        )
    }
}

/// A reader, and where on it books go.
#[derive(Clone, Debug)]
pub struct Reader {
    pub base: Address,
    pub folder: String,
    pub websocket_port: u16,
    pub repair: bool,
}

#[verifier::ext_equal]
pub struct ReaderView {
    pub base: AddressView,
    pub folder: Seq<char>,
    pub websocket_port: u16,
    pub repair: bool,
}

impl View for Reader {
    type V = ReaderView;

    open spec fn view(&self) -> ReaderView {
        ReaderView {
            base: self.base@,
            folder: self.folder@,
            websocket_port: self.websocket_port,
            repair: self.repair,
        }
    }
}

impl DeepView for Reader {
    type V = ReaderView;

    open spec fn deep_view(&self) -> ReaderView {
        self@
    }
}

/// A folder without the slashes it ends with, and the root for nothing.
pub open spec fn tidy_folder(folder: Seq<char>) -> Seq<char> {
    if paths::bare(folder).len() == 0 {
        "/"@
    } else {
        paths::bare(folder)
    }
}

/// The first of several names that the reader does not take.
pub open spec fn first_refused(names: Seq<Seq<char>>) -> Option<Seq<char>>
    decreases names.len(),
{
    if names.len() == 0 {
        None
    } else if !takes(names[0]) {
        Some(names[0])
    } else {
        first_refused(names.drop_first())
    }
}

/// The address to ask for: what was typed, with the scheme when it has none.
pub open spec fn full_address(address: Seq<char>) -> Seq<char> {
    if text::within(address, "://"@) {
        address
    } else {
        "http://"@ + address
    }
}

/// A reader at an address already taken apart.
pub open spec fn reader_at(base: AddressView, folder: Seq<char>) -> Result<ReaderView, Seq<char>> {
    if !(base.scheme == "http"@ && base.host is Some) {
        Err("CrossPoint File Transfer requires an http:// address"@)
    } else if !(base.username.len() == 0 && base.password is None && base.query is None
        && base.fragment is None && base.path == "/"@) {
        Err("Use only the reader's address, without credentials, a path, query, or fragment"@)
    } else if tidy_folder(folder)[0] != '/' {
        Err("Remote folder must start with /"@)
    } else {
        match (if tidy_folder(folder) == "/"@ {
            None
        } else {
            first_refused(paths::split(tidy_folder(folder).skip(1), '/'))
        }) {
            Some(name) => Err(refused_name(name)),
            None => Ok(
                ReaderView {
                    base,
                    folder: tidy_folder(folder),
                    websocket_port: 81,
                    repair: false,
                },
            ),
        }
    }
}

/// The reader an address and a folder name.
pub open spec fn reader_for(address: Seq<char>, folder: Seq<char>) -> Result<
    ReaderView,
    Seq<char>,
> {
    let address = text::trimmed(address);
    if address.len() == 0 {
        Err("Supply the address shown in CrossPoint File Transfer mode"@)
    } else {
        match address_parts(full_address(address)) {
            Ok(base) => reader_at(base, folder),
            Err(words) => Err("Invalid reader address: "@ + words),
        }
    }
}

fn check_names(names: &Vec<String>) -> (r: Result<(), String>)
    ensures
        result_view(r) == match first_refused(names.deep_view()) {
            Some(name) => Err(refused_name(name)),
            None => Ok(()),
        },
{
    proof {
        assert(names.deep_view().skip(0) =~= names.deep_view());
    }
    for i in 0..names.len()
        invariant
            first_refused(names.deep_view()) == first_refused(names.deep_view().skip(i as int)),
    {
        proof {
            assert(names.deep_view().skip(i as int)[0] == names@[i as int]@);
            assert(names.deep_view().skip(i as int).drop_first() =~= names.deep_view().skip(
                i as int + 1,
            ));
        }
        match valid_component(names[i].as_str()) {
            Ok(()) => {},
            Err(words) => return Err(words),
        }
    }
    Ok(())
}

impl Reader {
    /// A reader at an address already taken apart.
    pub fn at(base: Address, folder: &str) -> (r: Result<Reader, String>)
        ensures
            result_view(r) == reader_at(base@, folder@),
    {
        if !(text::same(base.scheme.as_str(), "http") && base.host.is_some()) {
            return Err("CrossPoint File Transfer requires an http:// address".to_owned());
        }
        if !(base.username.as_str().is_empty() && base.password.is_none() && base.query.is_none()
            && base.fragment.is_none() && text::same(base.path.as_str(), "/")) {
            return Err(
                "Use only the reader's address, without credentials, a path, query, or fragment".to_owned(),
            );
        }
        let bare = paths::trim_slashes(folder);
        let folder = if bare.as_str().is_empty() {
            "/".to_owned()
        } else {
            bare
        };
        let c = text::chars(folder.as_str());
        proof {
            reveal_strlit("/");
        }
        if c[0] != '/' {
            return Err("Remote folder must start with /".to_owned());
        }
        if !text::same(folder.as_str(), "/") {
            let rest = text::slice(c.as_slice(), 1, c.len());
            proof {
                assert(rest@ =~= folder@.skip(1));
            }
            let names = paths::pieces(rest.as_str(), '/');
            match check_names(&names) {
                Ok(()) => {},
                Err(words) => return Err(words),
            }
        }
        Ok(Reader { base, folder, websocket_port: 81, repair: false })
    }

    /// Accept the address shown in File Transfer mode, including bare IPs.
    pub fn new(address: &str, folder: &str) -> (r: Result<Reader, String>)
        ensures
            result_view(r) == reader_for(address@, folder@),
    {
        let address = text::trim(address);
        if address.as_str().is_empty() {
            return Err("Supply the address shown in CrossPoint File Transfer mode".to_owned());
        }
        let full = if text::contains(address.as_str(), "://") {
            address
        } else {
            text::concat("http://", address.as_str())
        };
        match parse_address(full.as_str()) {
            Ok(base) => Reader::at(base, folder),
            Err(words) => Err(text::concat("Invalid reader address: ", words.as_str())),
        }
    }

    pub fn with_websocket_port(self, port: u16) -> (r: Reader)
        ensures
            r@ == (ReaderView { websocket_port: port, ..self@ }),
    {
        Reader { websocket_port: port, ..self }
    }

    pub fn repair_incomplete(self, repair: bool) -> (r: Reader)
        ensures
            r@ == (ReaderView { repair, ..self@ }),
    {
        Reader { repair, ..self }
    }

    pub fn folder(&self) -> (r: &str)
        ensures
            r@ == self@.folder,
    {
        self.folder.as_str()
    }
}

impl Duplicate for Reader {
    fn duplicate(&self) -> (r: Reader) {
        Reader {
            base: self.base.duplicate(),
            folder: self.folder.duplicate(),
            websocket_port: self.websocket_port,
            repair: self.repair,
        }
    }
}

/// How much a reader may answer to a question that is not for a file.
pub const MAX_RESPONSE: usize = 4194304;

/// What a reader says of itself.
#[derive(Clone, Debug, PartialEq, Eq)]
pub struct Status {
    pub version: String,
    pub device: String,
}

#[verifier::ext_equal]
pub struct StatusView {
    pub version: Seq<char>,
    pub device: Seq<char>,
}

impl View for Status {
    type V = StatusView;

    open spec fn view(&self) -> StatusView {
        StatusView { version: self.version@, device: self.device@ }
    }
}

impl DeepView for Status {
    type V = StatusView;

    open spec fn deep_view(&self) -> StatusView {
        self@
    }
}

impl StatusView {
    pub open spec fn recognized(self) -> bool {
        self.version.len() > 0 && (self.device == "X4"@ || self.device == "X3"@)
    }
}

impl Status {
    /// A status only when it is that of a reader of this kind.
    pub fn check(self) -> (r: Result<Status, String>)
        ensures
            result_view(r) == if self@.recognized() {
                Ok(self@)
            } else {
                Err("Unrecognized CrossPoint reader status"@)
            },
    {
        if !self.version.as_str().is_empty() && (text::same(self.device.as_str(), "X4")
            || text::same(self.device.as_str(), "X3")) {
            Ok(self)
        } else {
            Err("Unrecognized CrossPoint reader status".to_owned())
        }
    }
}

/// One name in a folder of a reader.
#[derive(Clone, Debug, PartialEq, Eq)]
pub struct Entry {
    pub name: String,
    pub size: u64,
    pub directory: bool,
}

#[verifier::ext_equal]
pub struct EntryView {
    pub name: Seq<char>,
    pub size: u64,
    pub directory: bool,
}

impl View for Entry {
    type V = EntryView;

    open spec fn view(&self) -> EntryView {
        EntryView { name: self.name@, size: self.size, directory: self.directory }
    }
}

impl DeepView for Entry {
    type V = EntryView;

    open spec fn deep_view(&self) -> EntryView {
        self@
    }
}

/// A folder to look into, and the folder that has to be in it.
#[derive(Clone, Debug, PartialEq, Eq)]
pub struct Step {
    pub parent: String,
    pub name: String,
}

#[verifier::ext_equal]
pub struct StepView {
    pub parent: Seq<char>,
    pub name: Seq<char>,
}

impl View for Step {
    type V = StepView;

    open spec fn view(&self) -> StepView {
        StepView { parent: self.parent@, name: self.name@ }
    }
}

impl DeepView for Step {
    type V = StepView;

    open spec fn deep_view(&self) -> StepView {
        self@
    }
}

/// The parts of a folder's path that hold something.
pub open spec fn nonempty(parts: Seq<Seq<char>>) -> Seq<Seq<char>>
    decreases parts.len(),
{
    if parts.len() == 0 {
        Seq::empty()
    } else if parts.last().len() > 0 {
        nonempty(parts.drop_last()).push(parts.last())
    } else {
        nonempty(parts.drop_last())
    }
}

/// The looks it takes to know that a folder is there: each of its parents, from
/// the root down, and what has to be in it.
pub open spec fn steps_to(names: Seq<Seq<char>>) -> Seq<StepView> {
    Seq::new(
        names.len(),
        |i: int| StepView { parent: "/"@ + paths::between(names.take(i), "/"@), name: names[i] },
    )
}

/// Whether a folder of this name is listed.
pub open spec fn has_folder(entries: Seq<EntryView>, name: Seq<char>) -> bool {
    exists|i: int| 0 <= i < entries.len() && (#[trigger] entries[i]).directory && entries[i].name == name
}

/// The first entry from `from` on with a name, in whatever case, or the length.
pub open spec fn entry_at(entries: Seq<EntryView>, name: Seq<char>, from: int) -> int
    decreases entries.len() - from,
{
    if from < 0 || from >= entries.len() {
        entries.len() as int
    } else if text::lowercase(entries[from].name) == text::lowercase(name) {
        from
    } else {
        entry_at(entries, name, from + 1)
    }
}

pub proof fn entry_at_range(entries: Seq<EntryView>, name: Seq<char>, from: int)
    requires
        0 <= from <= entries.len(),
    ensures
        from <= entry_at(entries, name, from) <= entries.len(),
    decreases entries.len() - from,
{
    if from < entries.len() {
        entry_at_range(entries, name, from + 1);
    }
}

pub fn find_entry(entries: &Vec<Entry>, name: &str) -> (r: Option<usize>)
    ensures
        match r {
            Some(i) => i < entries@.len() && i == entry_at(entries.deep_view(), name@, 0),
            None => entry_at(entries.deep_view(), name@, 0) == entries@.len(),
        },
{
    let wanted = text::to_lowercase(name);
    for i in 0..entries.len()
        invariant
            wanted@ == text::lowercase(name@),
            entry_at(entries.deep_view(), name@, 0) == entry_at(
                entries.deep_view(),
                name@,
                i as int,
            ),
    {
        assert(entries.deep_view()[i as int] == entries@[i as int]@);
        let here = text::to_lowercase(entries[i].name.as_str());
        if text::same(here.as_str(), wanted.as_str()) {
            return Some(i);
        }
    }
    None
}

/// What an HTTP form of two pairs of a key and a value reads as:
/// `url::form_urlencoded::Serializer` over an empty text.
pub uninterp spec fn form_pairs(
    first: Seq<char>,
    value: Seq<char>,
    second: Seq<char>,
    other: Seq<char>,
) -> Seq<char>;

/// `url::form_urlencoded::Serializer`: two pairs, encoded as a form. How a form is
/// encoded is named rather than stated.
#[verifier::external_body]
pub(crate) fn serialize(first: &str, value: &str, second: &str, other: &str) -> (r: String)
    ensures
        r@ == form_pairs(first@, value@, second@, other@),
{
    url::form_urlencoded::Serializer::new(String::new())
        .append_pair(first, value)
        .append_pair(second, other)
        .finish()
}

/// The form that speaks of a path and a name.
pub open spec fn form_of(path: Seq<char>, name: Seq<char>) -> Seq<char> {
    form_pairs("path"@, path, "name"@, name)
}

pub(crate) fn form(path: &str, name: &str) -> (r: String)
    ensures
        r@ == form_of(path@, name@),
{
    serialize("path", path, "name", name)
}

/// An address that the URL standard has taken apart, `url::Url`.
#[verifier::external_type_specification]
#[verifier::external_body]
pub struct ExUrl(url::Url);

/// What `url::Url::parse` makes of a text.
pub uninterp spec fn url_of(text: Seq<char>) -> Result<url::Url, Seq<char>>;

/// `url::Url::parse`; its result is named.
#[verifier::external_body]
pub(crate) fn parse_url(text: &str) -> (r: Result<url::Url, String>)
    ensures
        match r {
            Ok(url) => url_of(text@) == Ok::<url::Url, Seq<char>>(url),
            Err(words) => url_of(text@) == Err::<url::Url, Seq<char>>(words@),
        },
{
    url::Url::parse(text).map_err(|e| e.to_string())
}

/// Where a reference leads from an address: `url::Url::join`.
pub uninterp spec fn joined(base: url::Url, text: Seq<char>) -> Result<url::Url, Seq<char>>;

/// `url::Url::join`; its result is named.
#[verifier::external_body]
pub(crate) fn join_url(base: &url::Url, text: &str) -> (r: Result<url::Url, String>)
    ensures
        match r {
            Ok(url) => joined(*base, text@) == Ok::<url::Url, Seq<char>>(url),
            Err(words) => joined(*base, text@) == Err::<url::Url, Seq<char>>(words@),
        },
{
    base.join(text).map_err(|e| e.to_string())
}

/// An address with one pair more in its query:
/// `url::Url::query_pairs_mut` and `append_pair`.
pub uninterp spec fn with_pair(url: url::Url, key: Seq<char>, value: Seq<char>) -> url::Url;

/// `url::Url::query_pairs_mut` and `append_pair`; the result is named.
#[verifier::external_body]
pub(crate) fn append_pair(url: url::Url, key: &str, value: &str) -> (r: url::Url)
    ensures
        r == with_pair(url, key@, value@),
{
    let mut url = url;
    url.query_pairs_mut().append_pair(key, value);
    url
}

/// An address with another scheme, where `url::Url::set_scheme` takes it.
pub uninterp spec fn with_scheme(url: url::Url, scheme: Seq<char>) -> Option<url::Url>;

/// `url::Url::set_scheme`; its result is named.
#[verifier::external_body]
pub(crate) fn set_scheme(url: url::Url, scheme: &str) -> (r: Option<url::Url>)
    ensures
        r == with_scheme(url, scheme@),
{
    let mut url = url;
    url.set_scheme(scheme).ok().map(|_| url)
}

/// An address with another port, where `url::Url::set_port` takes it.
pub uninterp spec fn with_port(url: url::Url, port: u16) -> Option<url::Url>;

/// `url::Url::set_port`; its result is named.
#[verifier::external_body]
pub(crate) fn set_port(url: url::Url, port: u16) -> (r: Option<url::Url>)
    ensures
        r == with_port(url, port),
{
    let mut url = url;
    url.set_port(Some(port)).ok().map(|_| url)
}

/// An address written out: `url::Url::as_str`.
pub uninterp spec fn url_text(url: url::Url) -> Seq<char>;

/// `url::Url::as_str`; its result is named.
#[verifier::external_body]
pub(crate) fn write_url(url: &url::Url) -> (r: String)
    ensures
        r@ == url_text(*url),
{
    url.as_str().to_owned()
}

/// The address of an endpoint, asked about a path or about nothing.
pub open spec fn endpoint_of(
    base: Seq<char>,
    endpoint: Seq<char>,
    path: Option<Seq<char>>,
) -> Result<Seq<char>, Seq<char>> {
    match url_of(base) {
        Err(words) => Err(words),
        Ok(base) => match joined(base, endpoint) {
            Err(words) => Err(words),
            Ok(url) => Ok(
                url_text(
                    match path {
                        Some(path) => with_pair(url, "path"@, path),
                        None => url,
                    },
                ),
            ),
        },
    }
}

pub(crate) fn endpoint_address(base: &str, endpoint: &str, path: &Option<String>) -> (r: Result<
    String,
    String,
>)
    ensures
        result_view(r) == endpoint_of(base@, endpoint@, path.deep_view()),
{
    let base = match parse_url(base) {
        Ok(base) => base,
        Err(words) => return Err(words),
    };
    let url = match join_url(&base, endpoint) {
        Ok(url) => url,
        Err(words) => return Err(words),
    };
    let url = match path {
        Some(path) => append_pair(url, "path", path.as_str()),
        None => url,
    };
    Ok(write_url(&url))
}

/// The address of the upload socket at an address.
pub open spec fn socket_of(base: Seq<char>, port: u16) -> Result<Seq<char>, Seq<char>> {
    match url_of(base) {
        Err(words) => Err(words),
        Ok(base) => match with_scheme(base, "ws"@) {
            None => Err("Invalid WebSocket URL"@),
            Some(url) => match with_port(url, port) {
                None => Err("Invalid WebSocket port"@),
                Some(url) => Ok(url_text(url)),
            },
        },
    }
}

fn socket_address(base: &str, port: u16) -> (r: Result<String, String>)
    ensures
        result_view(r) == socket_of(base@, port),
{
    let base = match parse_url(base) {
        Ok(base) => base,
        Err(words) => return Err(words),
    };
    match set_scheme(base, "ws") {
        None => Err("Invalid WebSocket URL".to_owned()),
        Some(url) => match set_port(url, port) {
            None => Err("Invalid WebSocket port".to_owned()),
            Some(url) => Ok(write_url(&url)),
        },
    }
}

/// Bytes read as text, with a mark for what is no text:
/// `String::from_utf8_lossy`.
pub uninterp spec fn lossy(bytes: Seq<u8>) -> Seq<char>;

/// `String::from_utf8_lossy`; which bytes it replaces is named rather than stated.
#[verifier::external_body]
pub(crate) fn from_utf8_lossy(bytes: &[u8]) -> (r: String)
    ensures
        r@ == lossy(bytes@),
{
    String::from_utf8_lossy(bytes).into_owned()
}

/// At most 300 characters of a text, without control characters.
pub open spec fn excerpt(s: Seq<char>) -> Seq<char> {
    Seq::new(
        if s.len() < 300 {
            s.len()
        } else {
            300
        },
        |i: int| if text::control(s[i]) {
            ' '
        } else {
            s[i]
        },
    )
}

/// A question to the reader: where it goes and what is posted there.
#[derive(Clone, Debug, PartialEq, Eq)]
pub struct Request {
    pub endpoint: String,
    pub url: String,
    pub form: Option<String>,
    pub limit: usize,
    pub seconds: u64,
}

#[verifier::ext_equal]
pub struct RequestView {
    pub endpoint: Seq<char>,
    pub url: Seq<char>,
    pub form: Option<Seq<char>>,
    pub limit: usize,
    pub seconds: u64,
}

impl View for Request {
    type V = RequestView;

    open spec fn view(&self) -> RequestView {
        RequestView {
            endpoint: self.endpoint@,
            url: self.url@,
            form: self.form.deep_view(),
            limit: self.limit,
            seconds: self.seconds,
        }
    }
}

impl DeepView for Request {
    type V = RequestView;

    open spec fn deep_view(&self) -> RequestView {
        self@
    }
}

/// How long a question may take: files take long, everything else is short.
pub open spec fn patience(endpoint: Seq<char>) -> u64 {
    if endpoint == "/upload"@ || endpoint == "/download"@ {
        600
    } else {
        15
    }
}

impl Request {
    /// Whether more bytes of an answer are still within what was asked for.
    pub fn fits(&self, held: usize, more: usize) -> (r: bool)
        ensures
            r == (more == 0 || held + more <= self.limit),
    {
        more <= if held <= self.limit {
            self.limit - held
        } else {
            0
        }
    }

    /// What is made of an answer: its bytes, or why it is none.
    pub fn answer(&self, too_large: bool, failure: Option<String>, status: u32, body: Vec<u8>) -> (r:
        Result<Vec<u8>, String>)
        ensures
            crate::archive::bytes_view(r) == answered(
                self@.endpoint,
                too_large,
                failure.deep_view(),
                status,
                body@,
            ),
    {
        if too_large {
            return Err("Reader response exceeded the expected size limit".to_owned());
        }
        if let Some(words) = failure {
            return Err(
                text::concat4(
                    "CrossPoint request failed: ",
                    self.endpoint.as_str(),
                    ": ",
                    words.as_str(),
                ),
            );
        }
        if status == 200 {
            return Ok(body);
        }
        let all = text::chars(from_utf8_lossy(body.as_slice()).as_str());
        let mut shown: Vec<char> = Vec::new();
        let count: usize = if all.len() < 300 {
            all.len()
        } else {
            300
        };
        for i in 0..count
            invariant
                count == (if all@.len() < 300 {
                    all@.len()
                } else {
                    300
                }),
                shown@ == excerpt(all@).take(i as int),
        {
            let c = if text::is_control(all[i]) {
                ' '
            } else {
                all[i]
            };
            shown.push(c);
            proof {
                assert(excerpt(all@).take(i as int + 1) =~= excerpt(all@).take(i as int).push(c));
            }
        }
        proof {
            assert(excerpt(all@).take(count as int) =~= excerpt(all@));
        }
        let head = text::concat4(
            "CrossPoint ",
            self.endpoint.as_str(),
            " returned HTTP ",
            text::number(status as u64).as_str(),
        );
        Err(text::concat3(head.as_str(), ": ", text::string(shown.as_slice()).as_str()))
    }
}

/// What is made of an answer: nothing that is too long, nothing that failed on
/// the way, and nothing that is not said to be well.
pub open spec fn answered(
    endpoint: Seq<char>,
    too_large: bool,
    failure: Option<Seq<char>>,
    status: u32,
    body: Seq<u8>,
) -> Result<Seq<u8>, Seq<char>> {
    if too_large {
        Err("Reader response exceeded the expected size limit"@)
    } else if failure is Some {
        Err("CrossPoint request failed: "@ + endpoint + ": "@ + failure->0)
    } else if status == 200 {
        Ok(body)
    } else {
        Err(
            "CrossPoint "@ + endpoint + " returned HTTP "@ + text::decimal(status as nat) + ": "@
                + excerpt(lossy(body)),
        )
    }
}

/// Whether bytes read back are those that were written.
pub open spec fn verified(copy: Seq<u8>, data: Seq<u8>) -> bool {
    copy.len() == data.len() && sha256(copy) == sha256(data)
}

/// Compare bytes read back with those that were written.
pub fn verify(copy: &[u8], data: &[u8]) -> (r: Result<(), String>)
    ensures
        result_view(r) == if verified(copy@, data@) {
            Ok(())
        } else {
            Err("Reader's copy differs from the local EPUB"@)
        },
{
    if copy.len() == data.len() && epub::same_bytes(
        digest(copy).as_slice(),
        digest(data).as_slice(),
    ) {
        Ok(())
    } else {
        Err("Reader's copy differs from the local EPUB".to_owned())
    }
}

/// Where a book goes once it is placed with its author.
pub open spec fn author_folder(entries: Seq<EntryView>, author: Seq<char>) -> Seq<char> {
    let at = entry_at(entries, author, 0);
    if 0 <= at < entries.len() {
        entries[at].name
    } else {
        author
    }
}

/// Why a book of this name is not sent at all.
pub open spec fn name_problem(name: Seq<char>) -> Option<Seq<char>> {
    if !takes(name) {
        Some(refused_name(name))
    } else {
        match Format::claimed(name) {
            None => Some("Send requires an .epub, .pdf or .cbz file"@),
            Some(kind) => if kind == Format::Epub {
                None
            } else {
                Some(
                    "CrossPoint stores a "@ + kind.name()
                        + " but its library never lists one; nothing was sent"@,
                )
            },
        }
    }
}

/// Check what a book to be sent is called.
pub fn check_name(name: &str) -> (r: Result<(), String>)
    ensures
        result_view(r) == epub::refused(name_problem(name@)),
{
    match valid_component(name) {
        Ok(()) => {},
        Err(words) => return Err(words),
    }
    match Format::of(name) {
        None => Err("Send requires an .epub, .pdf or .cbz file".to_owned()),
        Some(kind) => if kind.shown_on_reader() {
            Ok(())
        } else {
            Err(
                text::concat3(
                    "CrossPoint stores a ",
                    kind.label(),
                    " but its library never lists one; nothing was sent",
                ),
            )
        },
    }
}

/// Why these bytes are not sent.
pub open spec fn contents_problem(data: Seq<u8>) -> Option<Seq<char>> {
    if data.len() > epub::MAX_BOOK_BYTES {
        Some("Book exceeds the 128 MiB transfer limit"@)
    } else {
        match crate::format::format_problem(Format::Epub, data) {
            Some(words) => Some("Book failed validation; nothing was sent: "@ + words),
            None => None,
        }
    }
}

/// Check what is in a book to be sent.
pub fn check_contents(data: &[u8]) -> (r: Result<(), String>)
    ensures
        result_view(r) == epub::refused(contents_problem(data@)),
{
    if data.len() as u64 > epub::MAX_BOOK_BYTES {
        return Err("Book exceeds the 128 MiB transfer limit".to_owned());
    }
    match crate::format::validate(Format::Epub, data) {
        Ok(()) => Ok(()),
        Err(words) => Err(
            text::concat("Book failed validation; nothing was sent: ", words.as_str()),
        ),
    }
}

impl Reader {
    /// The looks it takes to know that the folder is there. CrossPoint returns
    /// an empty listing even for a missing directory, so the parents are walked
    /// and a miss is reported before an upload starts.
    pub fn check_folder(&self) -> (r: Vec<Step>)
        ensures
            r.deep_view() == steps_to(nonempty(paths::split(self@.folder, '/'))),
    {
        let parts = paths::pieces(self.folder.as_str(), '/');
        let ghost all = parts.deep_view();
        let ghost names = nonempty(all);
        let mut found: Vec<String> = Vec::new();
        let mut steps: Vec<Step> = Vec::new();
        proof {
            assert(all.take(0) =~= Seq::<Seq<char>>::empty());
            assert(found.deep_view() =~= Seq::<Seq<char>>::empty());
            assert(steps.deep_view() =~= steps_to(Seq::<Seq<char>>::empty()));
        }
        for i in 0..parts.len()
            invariant
                all == parts.deep_view(),
                found.deep_view() == nonempty(all.take(i as int)),
                steps.deep_view() == steps_to(found.deep_view()),
        {
            let ghost so_far = found.deep_view();
            let ghost looks = steps.deep_view();
            proof {
                assert(all.take(i as int + 1).drop_last() =~= all.take(i as int));
                assert(all[i as int] == parts@[i as int]@);
            }
            if !parts[i].as_str().is_empty() {
                let name = parts[i].duplicate();
                let parent = text::concat("/", paths::join_with(&found, "/").as_str());
                let ghost step = StepView { parent: parent@, name: name@ };
                steps.push(Step { parent, name });
                found.push(parts[i].duplicate());
                proof {
                    assert(found.deep_view() =~= so_far.push(all[i as int]));
                    assert(steps.deep_view() =~= looks.push(step));
                    assert(so_far.push(all[i as int]).take(so_far.len() as int) =~= so_far);
                    assert forall|j: int| 0 <= j < so_far.len() implies so_far.push(
                        all[i as int],
                    ).take(j) == so_far.take(j) by {
                        assert(so_far.push(all[i as int]).take(j) =~= so_far.take(j));
                    }
                    assert(steps_to(found.deep_view()) =~= looks.push(step));
                }
            }
        }
        proof {
            assert(all.take(all.len() as int) =~= all);
        }
        steps
    }

    /// Whether one look found what has to be there.
    pub fn check_step(&self, step: &Step, entries: &Vec<Entry>) -> (r: Result<(), String>)
        ensures
            result_view(r) == if has_folder(entries.deep_view(), step@.name) {
                Ok(())
            } else {
                Err(
                    "Remote folder "@ + self@.folder
                        + " does not exist; create it in CrossPoint's file manager or omit --folder to use the SD-card root"@,
                )
            },
    {
        for i in 0..entries.len()
            invariant
                forall|j: int|
                    0 <= j < i ==> !((#[trigger] entries.deep_view()[j]).directory
                        && entries.deep_view()[j].name == step@.name),
        {
            assert(entries.deep_view()[i as int] == entries@[i as int]@);
            if entries[i].directory && text::same(entries[i].name.as_str(), step.name.as_str()) {
                return Ok(());
            }
        }
        Err(
            text::concat3(
                "Remote folder ",
                self.folder.as_str(),
                " does not exist; create it in CrossPoint's file manager or omit --folder to use the SD-card root",
            ),
        )
    }

    /// The question that reads a bounded file for inventory/verification.
    pub fn read_file(&self, path: &str, expected_size: u64) -> (r: Result<Request, String>)
        ensures
            result_view(r) == if expected_size > epub::MAX_BOOK_BYTES {
                Err("Reader file exceeds 128 MiB: "@ + path@)
            } else {
                asked(self@, "/download"@, Some(path@), None, expected_size as usize)
            },
    {
        if expected_size > epub::MAX_BOOK_BYTES {
            return Err(text::concat("Reader file exceeds 128 MiB: ", path));
        }
        self.request("/download", Some(path.to_owned()), None, expected_size as usize)
    }

    /// What was read of a file, when it is as long as was expected.
    pub fn check_read(path: &str, expected_size: u64, bytes: Vec<u8>) -> (r: Result<Vec<u8>, String>)
        ensures
            crate::archive::bytes_view(r) == if bytes@.len() == expected_size {
                Ok(bytes@)
            } else {
                Err("Reader file changed or download is incomplete: "@ + path@)
            },
    {
        if bytes.len() as u64 == expected_size {
            Ok(bytes)
        } else {
            Err(text::concat("Reader file changed or download is incomplete: ", path))
        }
    }

    /// The author's directory below the explicitly selected base folder, and
    /// what to post to have it made where there is none yet.
    pub fn for_author(&self, author: &str, entries: &Vec<Entry>) -> (r: Result<
        (Reader, Option<String>),
        String,
    >)
        ensures
            ({
                let listed = entries.deep_view();
                let at = entry_at(listed, author@, 0);
                let reader = ReaderView {
                    folder: paths::inside(self@.folder, author_folder(listed, author@)),
                    ..self@
                };
                result_view(r) == if !takes(author@) {
                    Err(refused_name(author@))
                } else if at == listed.len() {
                    Ok((reader, Some(form_of(self@.folder, author@))))
                } else if listed[at].directory {
                    Ok((reader, None))
                } else {
                    Err("Author directory is occupied by a file"@)
                }
            }),
    {
        match valid_component(author) {
            Ok(()) => {},
            Err(words) => return Err(words),
        }
        let mut reader = self.duplicate();
        match find_entry(entries, author) {
            Some(i) => {
                assert(entries.deep_view()[i as int] == entries@[i as int]@);
                if !entries[i].directory {
                    return Err("Author directory is occupied by a file".to_owned());
                }
                reader.folder = paths::join(self.folder.as_str(), entries[i].name.as_str());
                Ok((reader, None))
            },
            None => {
                reader.folder = paths::join(self.folder.as_str(), author);
                Ok((reader, Some(form(self.folder.as_str(), author))))
            },
        }
    }

    /// A question to this reader.
    pub fn request(&self, endpoint: &str, path: Option<String>, form: Option<String>, limit: usize) -> (r:
        Result<Request, String>)
        ensures
            result_view(r) == asked(self@, endpoint@, path.deep_view(), form.deep_view(), limit),
    {
        match endpoint_address(self.base.whole.as_str(), endpoint, &path) {
            Err(words) => Err(words),
            Ok(url) => {
                let seconds: u64 = if text::same(endpoint, "/upload") || text::same(
                    endpoint,
                    "/download",
                ) {
                    600
                } else {
                    15
                };
                Ok(Request { endpoint: endpoint.to_owned(), url, form, limit, seconds })
            },
        }
    }

    /// The question that renames a file of this reader.
    pub fn rename(&self, path: &str, name: &str) -> (r: Result<Request, String>)
        ensures
            result_view(r) == asked(
                self@,
                "/rename"@,
                None,
                Some(form_of(path@, name@)),
                MAX_RESPONSE,
            ),
    {
        self.request("/rename", None, Some(form(path, name)), MAX_RESPONSE)
    }

    /// The host to open the upload socket at, and the socket's address.
    pub fn socket(&self) -> (r: Result<(String, String), String>)
        ensures
            result_view(r) == socket_to(self@),
    {
        let host = match &self.base.host {
            None => return Err("Missing reader host".to_owned()),
            Some(host) => host.duplicate(),
        };
        match socket_address(self.base.whole.as_str(), self.websocket_port) {
            Err(words) => Err(words),
            Ok(url) => Ok((unbracketed(host.as_str()), url)),
        }
    }
}

/// A question to a reader.
pub open spec fn asked(
    reader: ReaderView,
    endpoint: Seq<char>,
    path: Option<Seq<char>>,
    form: Option<Seq<char>>,
    limit: usize,
) -> Result<RequestView, Seq<char>> {
    match endpoint_of(reader.base.whole, endpoint, path) {
        Ok(url) => Ok(RequestView { endpoint, url, form, limit, seconds: patience(endpoint) }),
        Err(words) => Err(words),
    }
}

/// A host without the brackets around it.
pub open spec fn without_brackets(host: Seq<char>) -> Seq<char>
    decreases host.len(),
{
    if host.len() > 0 && (host[0] == '[' || host[0] == ']') {
        without_brackets(host.drop_first())
    } else if host.len() > 0 && (host.last() == '[' || host.last() == ']') {
        without_brackets(host.drop_last())
    } else {
        host
    }
}

fn unbracketed(host: &str) -> (r: String)
    ensures
        r@ == without_brackets(host@),
{
    let c = text::chars(host);
    let mut from: usize = 0;
    let mut to: usize = c.len();
    proof {
        assert(c@.subrange(0, c@.len() as int) =~= c@);
    }
    while from < to && (c[from] == '[' || c[from] == ']')
        invariant
            from <= to <= c@.len(),
            c@ == host@,
            without_brackets(host@) == without_brackets(c@.subrange(from as int, to as int)),
        decreases to - from,
    {
        proof {
            assert(c@.subrange(from as int, to as int).drop_first() =~= c@.subrange(
                from as int + 1,
                to as int,
            ));
        }
        from += 1;
    }
    while from < to && (c[to - 1] == '[' || c[to - 1] == ']')
        invariant
            from <= to <= c@.len(),
            c@ == host@,
            from < to ==> c@[from as int] != '[' && c@[from as int] != ']',
            without_brackets(host@) == without_brackets(c@.subrange(from as int, to as int)),
        decreases to - from,
    {
        proof {
            assert(c@.subrange(from as int, to as int).drop_last() =~= c@.subrange(
                from as int,
                to as int - 1,
            ));
        }
        to -= 1;
    }
    text::slice(c.as_slice(), from, to)
}

/// Where the upload socket of a reader is.
pub open spec fn socket_to(reader: ReaderView) -> Result<(Seq<char>, Seq<char>), Seq<char>> {
    match reader.base.host {
        None => Err("Missing reader host"@),
        Some(host) => match socket_of(reader.base.whole, reader.websocket_port) {
            Err(words) => Err(words),
            Ok(url) => Ok((without_brackets(host), url)),
        },
    }
}

} // verus!
