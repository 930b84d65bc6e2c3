//! ACSM fulfillment with a privately stored, existing ADEPT activation: what is
//! accepted as an activation, what is asked of the server and when, and what is
//! made of the answer.
use crate::archive;
use crate::archive::{bytes_of, bytes_view, members_of, Member, MemberView};
use crate::digest;
use crate::digest::{hex, sha256};
use crate::epub;
use crate::names;
use crate::paths;
use crate::text;
use crate::values::{result_view, Duplicate};
use crate::xml;
use crate::xml::{document, Node, NodeView};
use vstd::prelude::*;

pub mod laws;

verus! {

broadcast use vstd::string::group_string_axioms;

/// The most a file of an activation, or a request, may hold.
pub const MAX_XML: u64 = 8388608;

/// The files of an activation.
pub open spec fn activation_files() -> Seq<Seq<char>> {
    seq!["device.xml"@, "activation.xml"@, "devicesalt"@]
}

pub fn files() -> (r: Vec<&'static str>)
    ensures
        r.deep_view() == activation_files(),
{
    let mut out: Vec<&'static str> = Vec::new();
    out.push("device.xml");
    out.push("activation.xml");
    out.push("devicesalt");
    proof {
        assert(out.deep_view() =~= activation_files());
    }
    out
}

/// Where private state is kept: in the folder for data that was chosen, when
/// that is a full path, and otherwise in the usual one below home.
pub open spec fn state_dir(data: Option<Seq<char>>, home: Option<Seq<char>>) -> Result<
    Seq<char>,
    Seq<char>,
> {
    match home {
        None => Err("HOME is unset; use --state-dir"@),
        Some(home) => {
            let base = match data {
                Some(data) if paths::absolute(data) => data,
                _ => paths::below(home, ".local/share"@),
            };
            Ok(paths::below(base, "xteink"@))
        },
    }
}

pub fn default_state_dir(data: &Option<String>, home: &Option<String>) -> (r: Result<String, String>)
    ensures
        result_view(r) == state_dir(data.deep_view(), home.deep_view()),
{
    match home {
        None => Err("HOME is unset; use --state-dir".to_owned()),
        Some(home) => {
            let usual = paths::resolve(home.as_str(), ".local/share");
            let base = match data {
                Some(data) => if paths::is_absolute(data.as_str()) {
                    data.duplicate()
                } else {
                    usual
                },
                None => usual,
            };
            Ok(paths::resolve(base.as_str(), "xteink"))
        },
    }
}

/// What is said of a file that is not within a size.
pub open spec fn oversized(limit: u64) -> Seq<char> {
    "File exceeds size limit ("@ + text::decimal(limit as nat) + " bytes)"@
}

/// Check that a file is within a size.
pub fn bounded(length: u64, limit: u64) -> (r: Result<(), String>)
    ensures
        result_view(r) == if length <= limit {
            Ok(())
        } else {
            Err(oversized(limit))
        },
{
    if length <= limit {
        Ok(())
    } else {
        Err(
            text::concat3("File exceeds size limit (", text::number(limit).as_str(), " bytes)"),
        )
    }
}

/// What stands behind the last slash of a name.
pub open spec fn tail(name: Seq<char>) -> Seq<char> {
    name.skip(text::last_index(name, '/') + 1)
}

fn is_tail(name: &str, wanted: &str) -> (r: bool)
    ensures
        r == (tail(name@) == wanted@),
{
    let c = text::chars(name);
    let length: usize = c.len();
    let from: usize = match text::find_last(c.as_slice(), '/') {
        Some(i) => i + 1,
        None => 0,
    };
    let rest = text::slice(c.as_slice(), from, length);
    proof {
        assert(rest@ =~= tail(name@));
    }
    text::same(rest.as_str(), wanted)
}

/// How many of the first `n` members are a file of that name, in whatever folder.
pub open spec fn named_count(members: Seq<MemberView>, file: Seq<char>, n: int) -> nat
    decreases n,
{
    if n <= 0 {
        0
    } else {
        named_count(members, file, n - 1) + if tail(members[n - 1].name) == file {
            1nat
        } else {
            0
        }
    }
}

/// The last of the first `n` members that is a file of that name.
pub open spec fn named_last(members: Seq<MemberView>, file: Seq<char>, n: int) -> int
    decreases n,
{
    if n <= 0 {
        -1
    } else if tail(members[n - 1].name) == file {
        n - 1
    } else {
        named_last(members, file, n - 1)
    }
}

/// Which member of an activation export is a file of it. It may stand in any
/// folder, but there must be exactly one.
pub open spec fn activation_member(members: Seq<MemberView>, file: Seq<char>) -> Option<int> {
    if named_count(members, file, members.len() as int) == 1 {
        Some(named_last(members, file, members.len() as int))
    } else {
        None
    }
}

fn find_activation(members: &Vec<Member>, file: &str) -> (r: Option<usize>)
    ensures
        match r {
            Some(i) => i < members@.len() && activation_member(members.deep_view(), file@) == Some(
                i as int,
            ),
            None => activation_member(members.deep_view(), file@) is None,
        },
{
    let ghost all = members.deep_view();
    let mut count: usize = 0;
    let mut at: usize = 0;
    for i in 0..members.len()
        invariant
            all == members.deep_view(),
            count <= i,
            count == named_count(all, file@, i as int),
            count > 0 ==> at < members@.len() && at == named_last(all, file@, i as int),
    {
        assert(all[i as int] == members@[i as int]@);
        if is_tail(members[i].name.as_str(), file) {
            count += 1;
            at = i;
        }
    }
    if count == 1 {
        Some(at)
    } else {
        None
    }
}

/// Whether the mode of a member of an archive says that it is a link.
pub open spec fn linked(mode: Option<u32>) -> bool {
    mode matches Some(mode) && (mode / 4096) % 16 == 10
}

pub fn is_link(mode: Option<u32>) -> (r: bool)
    ensures
        r == linked(mode),
{
    match mode {
        Some(mode) => (mode / 4096) % 16 == 10,
        None => false,
    }
}

/// What is said of a file that is no archive.
pub open spec fn not_an_export(reason: Seq<char>) -> Seq<char> {
    "Expected an activation export ZIP or directory containing device.xml, activation.xml and devicesalt; desktop activation.dat is not supported: "@
        + reason
}

/// What a file of an activation holds in an export, or why it is not taken: there
/// must be exactly one, it may not be a link, and it may not be too large.
pub open spec fn activation_bytes(
    data: Seq<u8>,
    members: Seq<MemberView>,
    file: Seq<char>,
) -> Result<Seq<u8>, Seq<char>> {
    match activation_member(members, file) {
        None => Err("Activation ZIP must contain exactly one "@ + file),
        Some(i) => if let Some(words) = members[i].problem {
            Err(words)
        } else if linked(members[i].mode) {
            Err("Activation ZIP contains a symlink"@)
        } else {
            match bytes_of(data, i as usize, (MAX_XML + 1) as u64) {
                Err(words) => Err(words),
                Ok(bytes) => if bytes.len() <= MAX_XML {
                    Ok(bytes)
                } else {
                    Err(oversized(MAX_XML))
                },
            }
        },
    }
}

fn read_activation(data: &[u8], members: &Vec<Member>, file: &str) -> (r: Result<Vec<u8>, String>)
    ensures
        bytes_view(r) == activation_bytes(data@, members.deep_view(), file@),
{
    let i = match find_activation(members, file) {
        Some(i) => i,
        None => return Err(text::concat("Activation ZIP must contain exactly one ", file)),
    };
    assert(members.deep_view()[i as int] == members@[i as int]@);
    if let Some(words) = &members[i].problem {
        return Err(words.duplicate());
    }
    if is_link(members[i].mode) {
        return Err("Activation ZIP contains a symlink".to_owned());
    }
    match archive::contents(data, i, MAX_XML + 1) {
        Err(words) => Err(words),
        Ok(bytes) => match bounded(bytes.len() as u64, MAX_XML) {
            Ok(()) => Ok(bytes),
            Err(words) => Err(words),
        },
    }
}

/// Read a file of an activation from the bytes of an export.
pub fn activation_file(data: &[u8], file: &str) -> (r: Result<Vec<u8>, String>)
    ensures
        bytes_view(r) == match members_of(data@) {
            Err(words) => Err(not_an_export(words)),
            Ok(members) => activation_bytes(data@, members, file@),
        },
{
    match archive::members(data) {
        Err(words) => Err(
            text::concat(
                "Expected an activation export ZIP or directory containing device.xml, activation.xml and devicesalt; desktop activation.dat is not supported: ",
                words.as_str(),
            ),
        ),
        Ok(members) => read_activation(data, &members, file),
    }
}

/// What is wrong with a file of an activation.
pub open spec fn activation_problem(name: Seq<char>, data: Seq<u8>) -> Option<Seq<char>> {
    if name == "devicesalt"@ {
        if data.len() == 16 {
            None
        } else {
            Some("devicesalt must contain exactly 16 bytes"@)
        }
    } else {
        match text::decoded(data) {
            Err(words) => Some(words),
            Ok(s) => match document(s, false) {
                Ok(_) => None,
                Err(words) => Some("Invalid "@ + name + ": "@ + words),
            },
        }
    }
}

/// Check a file of an activation before it is installed.
pub fn check_activation(name: &str, data: &[u8]) -> (r: Result<(), String>)
    ensures
        result_view(r) == epub::refused(activation_problem(name@, data@)),
{
    if text::same(name, "devicesalt") {
        return if data.len() == 16 {
            Ok(())
        } else {
            Err("devicesalt must contain exactly 16 bytes".to_owned())
        };
    }
    let s = match text::decode(data) {
        Ok(s) => s,
        Err(words) => return Err(words),
    };
    match xml::parse(s.as_str(), false) {
        Ok(_) => Ok(()),
        Err(words) => Err(text::concat4("Invalid ", name, ": ", words.as_str())),
    }
}

/// What a file of an activation export is installed as, or why it is not.
pub open spec fn installable(data: Seq<u8>, file: Seq<char>) -> Result<Seq<u8>, Seq<char>> {
    match members_of(data) {
        Err(words) => Err(not_an_export(words)),
        Ok(members) => match activation_bytes(data, members, file) {
            Err(words) => Err(words),
            Ok(bytes) => match activation_problem(file, bytes) {
                Some(words) => Err(words),
                None => Ok(bytes),
            },
        },
    }
}

fn install(data: &[u8], file: &str) -> (r: Result<Vec<u8>, String>)
    ensures
        bytes_view(r) == installable(data@, file@),
{
    let bytes = match activation_file(data, file) {
        Ok(bytes) => bytes,
        Err(words) => return Err(words),
    };
    match check_activation(file, bytes.as_slice()) {
        Ok(()) => Ok(bytes),
        Err(words) => Err(words),
    }
}

/// What the files of an activation are installed as from an export, in their order:
/// all of them, or none and why.
pub open spec fn activation_of(data: Seq<u8>) -> Result<Seq<Seq<u8>>, Seq<char>> {
    match installable(data, activation_files()[0]) {
        Err(words) => Err(words),
        Ok(device) => match installable(data, activation_files()[1]) {
            Err(words) => Err(words),
            Ok(activation) => match installable(data, activation_files()[2]) {
                Err(words) => Err(words),
                Ok(salt) => Ok(seq![device, activation, salt]),
            },
        },
    }
}

/// Read an activation from the bytes of an export. The desktop application's
/// activation.dat alone is not this format.
pub fn import_activation(data: &[u8]) -> (r: Result<Vec<Vec<u8>>, String>)
    ensures
        match r {
            Ok(files) => activation_of(data@) == Ok::<Seq<Seq<u8>>, Seq<char>>(files.deep_view()),
            Err(words) => activation_of(data@) == Err::<Seq<Seq<u8>>, Seq<char>>(words@),
        },
{
    let device = match install(data, "device.xml") {
        Ok(bytes) => bytes,
        Err(words) => return Err(words),
    };
    let activation = match install(data, "activation.xml") {
        Ok(bytes) => bytes,
        Err(words) => return Err(words),
    };
    let salt = match install(data, "devicesalt") {
        Ok(bytes) => bytes,
        Err(words) => return Err(words),
    };
    let ghost wanted = seq![device@, activation@, salt@];
    let mut out: Vec<Vec<u8>> = Vec::new();
    out.push(device);
    out.push(activation);
    out.push(salt);
    proof {
        assert forall|i: int| 0 <= i < 3 implies #[trigger] out.deep_view()[i] == wanted[i] by {
            assert(out@[i].deep_view() =~= wanted[i]);
        }
        assert(out.deep_view() =~= wanted);
    }
    Ok(out)
}

/// The name a spent request is archived under at an attempt. Nothing is ever
/// overwritten: a name already taken gains a suffix.
pub open spec fn archive_name(name: Seq<char>, attempt: nat) -> Seq<char> {
    let dot = text::last_index(name, '.');
    let stem = if dot > 0 {
        name.take(dot)
    } else {
        name
    };
    let extension = if dot > 0 {
        name.skip(dot)
    } else {
        Seq::empty()
    };
    if attempt == 0 {
        name
    } else {
        stem + "-"@ + text::decimal(attempt) + extension
    }
}

pub fn archive(name: &str, attempt: u32) -> (r: String)
    ensures
        r@ == archive_name(name@, attempt as nat),
{
    if attempt == 0 {
        return name.to_owned();
    }
    let c = text::chars(name);
    let dot: usize = match text::find_last(c.as_slice(), '.') {
        Some(i) if i > 0 => i,
        _ => c.len(),
    };
    let stem = text::slice(c.as_slice(), 0, dot);
    let extension = text::slice(c.as_slice(), dot, c.len());
    proof {
        let at = text::last_index(name@, '.');
        if at > 0 {
            assert(stem@ =~= name@.take(at));
            assert(extension@ =~= name@.skip(at));
        } else {
            assert(stem@ =~= name@);
            assert(extension@ =~= Seq::<char>::empty());
        }
    }
    text::concat4(
        stem.as_str(),
        "-",
        text::number(attempt as u64).as_str(),
        extension.as_str(),
    )
}

/// Whether a node says that a request is for a PDF.
pub open spec fn asks_for_pdf(node: NodeView) -> bool {
    node.called("format"@) && node.text is Some && text::within(node.text->0, "application/pdf"@)
}

/// What is wrong with the nodes of a request.
pub open spec fn token_problem(nodes: Seq<NodeView>) -> Option<Seq<char>> {
    if !(exists|i: int| 0 <= i < nodes.len() && (#[trigger] nodes[i]).called("fulfillmentToken"@)) {
        Some("Input is not an ACSM fulfillment token"@)
    } else if (exists|i: int| 0 <= i < nodes.len() && asks_for_pdf(#[trigger] nodes[i])) {
        Some("PDF ACSM files are not supported yet"@)
    } else {
        None
    }
}

/// Check the nodes of a request.
pub fn check_nodes(nodes: &Vec<Node>) -> (r: Result<(), String>)
    ensures
        result_view(r) == epub::refused(token_problem(nodes.deep_view())),
{
    let ghost all = nodes.deep_view();
    let mut token = false;
    let mut pdf = false;
    for i in 0..nodes.len()
        invariant
            all == nodes.deep_view(),
            token == exists|j: int| 0 <= j < i && (#[trigger] all[j]).called("fulfillmentToken"@),
            pdf == exists|j: int| 0 <= j < i && asks_for_pdf(#[trigger] all[j]),
    {
        assert(all[i as int] == nodes@[i as int]@);
        if nodes[i].is_called("fulfillmentToken") {
            token = true;
            assert(all[i as int].called("fulfillmentToken"@));
        }
        if nodes[i].is_called("format") {
            if let Some(s) = &nodes[i].text {
                if text::contains(s.as_str(), "application/pdf") {
                    pdf = true;
                    assert(asks_for_pdf(all[i as int]));
                }
            }
        }
    }
    if !token {
        Err("Input is not an ACSM fulfillment token".to_owned())
    } else if pdf {
        Err("PDF ACSM files are not supported yet".to_owned())
    } else {
        Ok(())
    }
}

/// What is wrong with a request.
pub open spec fn request_problem(data: Seq<u8>) -> Option<Seq<char>> {
    match text::decoded(data) {
        Err(words) => Some(words),
        Ok(s) => match document(s, false) {
            Err(words) => Some("Invalid ACSM XML: "@ + words),
            Ok(nodes) => token_problem(nodes),
        },
    }
}

/// Check a request before anything is asked of a server.
pub fn check_request(data: &[u8]) -> (r: Result<(), String>)
    ensures
        result_view(r) == epub::refused(request_problem(data@)),
{
    let s = match text::decode(data) {
        Ok(s) => s,
        Err(words) => return Err(words),
    };
    match xml::parse(s.as_str(), false) {
        Ok(nodes) => check_nodes(&nodes),
        Err(words) => Err(text::concat("Invalid ACSM XML: ", words.as_str())),
    }
}

/// What an import does next.
#[derive(Clone, Copy, Debug, PartialEq, Eq, Structural)]
pub enum Step {
    /// Ask the server to fulfill the request.
    Fulfill,
    /// Download what the receipt is for.
    Download,
    /// Open what was downloaded.
    Decrypt,
}

impl DeepView for Step {
    type V = Step;

    open spec fn deep_view(&self) -> Step {
        *self
    }
}

/// What an import does next, by what earlier ones have left behind.
pub open spec fn next_step(receipt: bool, started: bool, original: bool, cache: Seq<char>) -> Result<
    Step,
    Seq<char>,
> {
    if !receipt && started {
        Err(
            "An earlier fulfillment did not produce a receipt. Its server outcome is unknown; xteink will not repeat it automatically. Recovery files: "@
                + cache,
        )
    } else if !receipt {
        Ok(Step::Fulfill)
    } else if !original {
        Ok(Step::Download)
    } else {
        Ok(Step::Decrypt)
    }
}

/// A request that may have reached the server without an answer is never sent
/// again by itself, and one that was answered is never sent again at all.
pub proof fn requests_are_not_repeated(
    receipt: bool,
    started: bool,
    original: bool,
    cache: Seq<char>,
)
    ensures
        next_step(receipt, started, original, cache) == Ok::<Step, Seq<char>>(Step::Fulfill)
            ==> !receipt && !started,
{
}

/// Decide what an import does next.
pub fn import(receipt: bool, started: bool, original: bool, cache: &str) -> (r: Result<Step, String>)
    ensures
        result_view(r) == next_step(receipt, started, original, cache@),
{
    if !receipt && started {
        Err(
            text::concat(
                "An earlier fulfillment did not produce a receipt. Its server outcome is unknown; xteink will not repeat it automatically. Recovery files: ",
                cache,
            ),
        )
    } else if !receipt {
        Ok(Step::Fulfill)
    } else if !original {
        Ok(Step::Download)
    } else {
        Ok(Step::Decrypt)
    }
}

/// The name an import is published under.
pub open spec fn output_of(title: Seq<char>, request: Seq<u8>) -> Seq<char> {
    names::file_named(title, hex(sha256(request)), "epub"@)
}

/// Name a book by its title and by the request it came of.
pub fn output_name(title: &str, id: &str) -> (r: String)
    requires
        id@.len() >= 12,
    ensures
        r@ == names::file_named(title@, id@, "epub"@),
{
    names::file_name(title, id, "epub")
}

/// The name an opened book is published under, or why it is not published.
pub open spec fn published(data: Seq<u8>, request: Seq<u8>) -> Result<Seq<char>, Seq<char>> {
    match (epub::font_document(data), epub::validated(data), epub::metadata_of(data)) {
        (Err(words), _, _) => Err("Unsupported encryption remains after decryption: "@ + words),
        (_, Some(words), _) => Err(
            "Imported book failed EPUB validation; no output was published: "@ + words,
        ),
        (_, _, Err(words)) => Err(words),
        (_, _, Ok(None)) => Err("Missing EPUB metadata"@),
        (_, _, Ok(Some(metadata))) => Ok(
            output_of(
                match metadata.title {
                    Some(title) => title,
                    None => "Book"@,
                },
                request,
            ),
        ),
    }
}

/// Check an opened book, and name the file it is published as.
pub fn publish(data: &[u8], request: &[u8]) -> (r: Result<String, String>)
    ensures
        result_view(r) == published(data@, request@),
{
    if let Err(words) = epub::font_metadata(data) {
        return Err(
            text::concat("Unsupported encryption remains after decryption: ", words.as_str()),
        );
    }
    if let Err(words) = epub::validate(data) {
        return Err(
            text::concat(
                "Imported book failed EPUB validation; no output was published: ",
                words.as_str(),
            ),
        );
    }
    let metadata = match epub::metadata(data) {
        Ok(Some(metadata)) => metadata,
        Ok(None) => return Err("Missing EPUB metadata".to_owned()),
        Err(words) => return Err(words),
    };
    let title = match metadata.title {
        Some(title) => title,
        None => "Book".to_owned(),
    };
    let bytes = digest::digest(request);
    let id = digest::to_hex(bytes.as_slice());
    Ok(output_name(title.as_str(), id.as_str()))
}

/// Check a file of an activation that is installed already.
pub fn check_installed(name: &str, length: usize) -> (r: Result<(), String>)
    ensures
        result_view(r) == if name@ == "devicesalt"@ && length != 16 {
            Err("Invalid devicesalt size"@)
        } else {
            Ok(())
        },
{
    if text::same(name, "devicesalt") && length != 16 {
        Err("Invalid devicesalt size".to_owned())
    } else {
        Ok(())
    }
}

/// Check where books are published: never among the private state.
pub fn check_output(output: &str, state: &str) -> (r: Result<(), String>)
    ensures
        result_view(r) == if paths::lies_in(output@, state@) {
            Err("Choose an output directory outside private xteink state"@)
        } else {
            Ok(())
        },
{
    if paths::is_in(output, state) {
        Err("Choose an output directory outside private xteink state".to_owned())
    } else {
        Ok(())
    }
}

} // verus!
