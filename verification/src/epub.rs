//! EPUB packages: the limits an archive has to keep, what makes one readable,
//! and what it says about itself.
use crate::archive;
use crate::archive::{
    bytes_of, bytes_view, find_member, has_member, member_at, members_of, named_bytes, read_named,
    Member, MemberView,
};
use crate::position::{position_of, read_position, Position, PositionView};
use crate::paths;
use crate::text;
use crate::text::decoded;
use crate::values::{result_view, Duplicate};
use crate::xml;
use crate::xml::{first_called, Node, NodeView};
use vstd::prelude::*;

pub mod laws;

verus! {

broadcast use vstd::string::group_string_axioms;

pub const MAX_BOOK_BYTES: u64 = 134_217_728;

/// How large everything in an archive may be together, once unpacked.
pub const MAX_EXPANDED_BYTES: u64 = 268_435_456;

/// How large a document may be that is only read for what it says about the
/// book.
pub const MAX_METADATA_BYTES: u64 = 8_388_608;

/// What is wrong with a member before it is read, given how much the members
/// before it unpack to.
pub open spec fn member_problem(members: Seq<MemberView>, i: int, total: nat) -> Option<Seq<char>> {
    let member = members[i];
    if let Some(words) = member.problem {
        Some(words)
    } else if exists|j: int| 0 <= j < i && (#[trigger] members[j]).name == member.name {
        Some("Duplicate archive entry: "@ + member.name)
    } else if !member.enclosed || member.name.contains('\\') {
        Some("Invalid archive entry path"@)
    } else if total + member.size > u64::MAX {
        Some("Archive size overflow"@)
    } else if total + member.size > MAX_EXPANDED_BYTES {
        Some("Expanded archive exceeds 256 MiB"@)
    } else {
        None
    }
}

/// What is wrong with the members of an archive from `from` on.
pub open spec fn contents_problem(
    data: Seq<u8>,
    members: Seq<MemberView>,
    from: int,
    total: nat,
) -> Option<Seq<char>>
    decreases members.len() - from,
{
    if from < 0 || from >= members.len() {
        None
    } else if let Some(words) = member_problem(members, from, total) {
        Some(words)
    } else {
        match bytes_of(data, from as usize, (MAX_EXPANDED_BYTES + 1) as u64) {
            Err(words) => Some(words),
            Ok(bytes) => if bytes.len() != members[from].size {
                Some("Archive entry size mismatch"@)
            } else {
                contents_problem(data, members, from + 1, total + members[from].size as nat)
            },
        }
    }
}

/// What is wrong with an archive whose members are known.
pub open spec fn archive_problem(
    data: Seq<u8>,
    members: Result<Seq<MemberView>, Seq<char>>,
) -> Option<Seq<char>> {
    match members {
        Err(words) => Some("Book is not a ZIP/EPUB: "@ + words),
        Ok(members) => if members.len() > 20_000 {
            Some("Archive has too many entries"@)
        } else {
            contents_problem(data, members, 0, 0)
        },
    }
}

pub open spec fn inspected(data: Seq<u8>) -> Option<Seq<char>> {
    archive_problem(data, members_of(data))
}

/// A problem as the refusal it leads to.
pub open spec fn refused(problem: Option<Seq<char>>) -> Result<(), Seq<char>> {
    match problem {
        Some(words) => Err(words),
        None => Ok(()),
    }
}

/// Check one member before it is read. Says how much the members unpack to
/// with it.
pub fn check_member(members: &Vec<Member>, i: usize, total: u64) -> (r: Result<u64, String>)
    requires
        i < members@.len(),
    ensures
        result_view(r) == match member_problem(members.deep_view(), i as int, total as nat) {
            Some(words) => Err(words),
            None => Ok((total + members.deep_view()[i as int].size) as u64),
        },
{
    let member = &members[i];
    let ghost all = members.deep_view();
    assert(all[i as int] == member@);
    if let Some(words) = &member.problem {
        return Err(words.duplicate());
    }
    let mut again = false;
    for j in 0..i
        invariant
            i < members@.len(),
            all == members.deep_view(),
            member@ == all[i as int],
            again == exists|k: int| 0 <= k < j && (#[trigger] all[k]).name == member@.name,
    {
        assert(all[j as int] == members@[j as int]@);
        if text::same(members[j].name.as_str(), member.name.as_str()) {
            again = true;
        }
    }
    if again {
        return Err(text::concat("Duplicate archive entry: ", member.name.as_str()));
    }
    let name = text::chars(member.name.as_str());
    let slash = text::find_char(name.as_slice(), '\\', 0);
    proof {
        if slash < name@.len() {
            assert(member@.name.contains('\\'));
        }
    }
    if !member.enclosed || slash < name.len() {
        return Err("Invalid archive entry path".to_owned());
    }
    if member.size > u64::MAX - total {
        return Err("Archive size overflow".to_owned());
    }
    if total + member.size > MAX_EXPANDED_BYTES {
        return Err("Expanded archive exceeds 256 MiB".to_owned());
    }
    Ok(total + member.size)
}

fn check_contents(data: &[u8], members: &Vec<Member>) -> (r: Result<(), String>)
    ensures
        result_view(r) == refused(contents_problem(data@, members.deep_view(), 0, 0)),
{
    let ghost all = members.deep_view();
    let mut total: u64 = 0;
    for i in 0..members.len()
        invariant
            all == members.deep_view(),
            total <= MAX_EXPANDED_BYTES,
            contents_problem(data@, all, 0, 0) == contents_problem(
                data@,
                all,
                i as int,
                total as nat,
            ),
    {
        assert(all[i as int] == members@[i as int]@);
        total = match check_member(members, i, total) {
            Ok(total) => total,
            Err(words) => return Err(words),
        };
        match archive::contents(data, i, MAX_EXPANDED_BYTES + 1) {
            Ok(bytes) => {
                if bytes.len() as u64 != members[i].size {
                    return Err("Archive entry size mismatch".to_owned());
                }
            },
            Err(words) => return Err(words),
        }
    }
    Ok(())
}

/// Check an archive whose members are known.
pub fn inspect_members(data: &[u8], members: Result<Vec<Member>, String>) -> (r: Result<
    (),
    String,
>)
    ensures
        result_view(r) == refused(archive_problem(data@, result_view(members))),
{
    match members {
        Ok(members) => {
            if members.len() > 20_000 {
                return Err("Archive has too many entries".to_owned());
            }
            check_contents(data, &members)
        },
        Err(words) => Err(text::concat("Book is not a ZIP/EPUB: ", words.as_str())),
    }
}

/// Check archive limits and checksums before handing bytes on. Shared by EPUB
/// and CBZ: the hardening is about ZIP, not about either one.
pub fn inspect(data: &[u8]) -> (r: Result<(), String>)
    ensures
        result_view(r) == refused(inspected(data@)),
{
    inspect_members(data, archive::members(data))
}

/// The first element of a name inside another, looking from `from` on, or the
/// length.
pub open spec fn first_inside(nodes: Seq<NodeView>, name: Seq<char>, outer: int, from: int) -> int
    decreases nodes.len() - from,
{
    if from < 0 || from >= nodes.len() {
        nodes.len() as int
    } else if nodes[from].called(name) && xml::within(nodes, from, outer) {
        from
    } else {
        first_inside(nodes, name, outer, from + 1)
    }
}

/// Whether an encryption method only obfuscates fonts.
pub open spec fn font_method(algorithm: Option<Seq<char>>) -> bool {
    ||| algorithm == Some("http://www.idpf.org/2008/embedding"@)
    ||| algorithm == Some("http://ns.adobe.com/pdf/enc#RC"@)
}

/// Whether everything that is encrypted is an obfuscated font.
pub open spec fn fonts_only(nodes: Seq<NodeView>, from: int) -> bool
    decreases nodes.len() - from,
{
    if from < 0 || from >= nodes.len() {
        true
    } else if nodes[from].called("EncryptedData"@) {
        let method = first_inside(nodes, "EncryptionMethod"@, from, from);
        font_method(
            if method < nodes.len() {
                nodes[method].attribute("Algorithm"@)
            } else {
                None
            },
        ) && fonts_only(nodes, from + 1)
    } else {
        fonts_only(nodes, from + 1)
    }
}

fn find_inside(nodes: &Vec<Node>, name: &str, outer: usize) -> (r: usize)
    requires
        outer < nodes@.len(),
    ensures
        r == first_inside(nodes.deep_view(), name@, outer as int, outer as int),
        r <= nodes@.len(),
{
    let mut i: usize = outer;
    while i < nodes.len()
        invariant
            outer <= i <= nodes@.len(),
            first_inside(nodes.deep_view(), name@, outer as int, outer as int) == first_inside(
                nodes.deep_view(),
                name@,
                outer as int,
                i as int,
            ),
        decreases nodes@.len() - i,
    {
        assert(nodes.deep_view()[i as int] == nodes@[i as int]@);
        if nodes[i].is_called(name) && xml::is_within(nodes, i, outer) {
            return i;
        }
        i += 1;
    }
    i
}

/// Whether everything that an encryption document lists is an obfuscated font.
pub fn only_fonts(nodes: &Vec<Node>) -> (r: bool)
    ensures
        r == fonts_only(nodes.deep_view(), 0),
{
    let mut i: usize = 0;
    while i < nodes.len()
        invariant
            i <= nodes@.len(),
            fonts_only(nodes.deep_view(), 0) == fonts_only(nodes.deep_view(), i as int),
        decreases nodes@.len() - i,
    {
        assert(nodes.deep_view()[i as int] == nodes@[i as int]@);
        if nodes[i].is_called("EncryptedData") {
            let method = find_inside(nodes, "EncryptionMethod", i);
            let good = method < nodes.len() && (nodes[method].says(
                "Algorithm",
                "http://www.idpf.org/2008/embedding",
            ) || nodes[method].says("Algorithm", "http://ns.adobe.com/pdf/enc#RC"));
            proof {
                if method < nodes@.len() {
                    assert(nodes.deep_view()[method as int] == nodes@[method as int]@);
                }
            }
            if !good {
                return false;
            }
        }
        i += 1;
    }
    true
}

/// The encryption document of a book whose fonts alone are obfuscated, or the
/// reason such a book is refused.
pub open spec fn font_document(data: Seq<u8>) -> Result<Option<Seq<u8>>, Seq<char>> {
    match members_of(data) {
        Err(words) => Err(words),
        Ok(members) => if has_member(members, "META-INF/rights.xml"@) {
            Err("This book contains Adobe rights metadata; Adobe import is not implemented yet"@)
        } else if !has_member(members, "META-INF/encryption.xml"@) {
            Ok(None)
        } else {
            match named_bytes(data, members, "META-INF/encryption.xml"@) {
                Err(words) => Err(words),
                Ok(bytes) => match decoded(bytes) {
                    Err(words) => Err("Invalid encryption metadata encoding: "@ + words),
                    Ok(text) => match xml::document(text, false) {
                        Err(words) => Err("Invalid encryption metadata: "@ + words),
                        Ok(nodes) => if fonts_only(nodes, 0) {
                            Ok(Some(bytes))
                        } else {
                            Err("EPUB uses an unsupported encryption method"@)
                        },
                    },
                },
            }
        },
    }
}

/// Kobo's key table is separate from EPUB encryption metadata. Preserve font
/// obfuscation metadata that decryption would otherwise discard, and reject
/// additional DRM schemes rather than silently producing an unusable book.
pub fn font_metadata(data: &[u8]) -> (r: Result<Option<Vec<u8>>, String>)
    ensures
        match (r, font_document(data@)) {
            (Ok(Some(bytes)), Ok(Some(wanted))) => bytes@ == wanted,
            (Ok(None), Ok(None)) => true,
            (Err(words), Err(wanted)) => words@ == wanted,
            _ => false,
        },
{
    let members = match archive::members(data) {
        Ok(members) => members,
        Err(words) => return Err(words),
    };
    if find_member(&members, "META-INF/rights.xml").is_some() {
        return Err(
            "This book contains Adobe rights metadata; Adobe import is not implemented yet".to_owned(),
        );
    }
    if find_member(&members, "META-INF/encryption.xml").is_none() {
        return Ok(None);
    }
    let bytes = match read_named(data, &members, "META-INF/encryption.xml") {
        Ok(bytes) => bytes,
        Err(words) => return Err(words),
    };
    let words = match text::decode(bytes.as_slice()) {
        Ok(text) => text,
        Err(words) => {
            return Err(text::concat("Invalid encryption metadata encoding: ", words.as_str()));
        },
    };
    let nodes = match xml::parse(words.as_str(), false) {
        Ok(nodes) => nodes,
        Err(words) => {
            return Err(text::concat("Invalid encryption metadata: ", words.as_str()));
        },
    };
    if !only_fonts(&nodes) {
        return Err("EPUB uses an unsupported encryption method".to_owned());
    }
    Ok(Some(bytes))
}

/// The value of a hexadecimal digit, if a byte is one.
pub open spec fn hex_value(b: u8) -> Option<int> {
    if 48 <= b <= 57 {
        Some(b - 48)
    } else if 97 <= b <= 102 {
        Some(b - 87)
    } else if 65 <= b <= 70 {
        Some(b - 55)
    } else {
        None
    }
}

fn hex_of(b: u8) -> (r: Option<u8>)
    ensures
        match (r, hex_value(b)) {
            (Some(n), Some(wanted)) => n == wanted && n < 16,
            (None, None) => true,
            _ => false,
        },
{
    if 48 <= b && b <= 57 {
        Some(b - 48)
    } else if 97 <= b && b <= 102 {
        Some(b - 87)
    } else if 65 <= b && b <= 70 {
        Some(b - 55)
    } else {
        None
    }
}

/// The byte that two characters behind a percent sign stand for: two
/// hexadecimal digits, or a plus sign and one.
pub open spec fn escaped_byte(a: u8, b: u8) -> Option<u8> {
    match (hex_value(a), hex_value(b)) {
        (Some(x), Some(y)) => Some((16 * x + y) as u8),
        (None, Some(y)) => if a == 43 {
            Some(y as u8)
        } else {
            None
        },
        _ => None,
    }
}

pub(crate) fn unescape(a: u8, b: u8) -> (r: Option<u8>)
    ensures
        r == escaped_byte(a, b),
{
    match (hex_of(a), hex_of(b)) {
        (Some(x), Some(y)) => Some(16 * x + y),
        (None, Some(y)) => if a == 43 {
            Some(y)
        } else {
            None
        },
        _ => None,
    }
}

/// Bytes with the escapes from `from` on written out, or what is wrong with one.
pub open spec fn unescaped(s: Seq<u8>, from: int) -> Result<Seq<u8>, Seq<char>>
    decreases s.len() - from,
{
    if from < 0 || from >= s.len() {
        Ok(Seq::empty())
    } else if s[from] != 37 {
        match unescaped(s, from + 1) {
            Ok(rest) => Ok(seq![s[from]] + rest),
            Err(words) => Err(words),
        }
    } else if from + 2 >= s.len() {
        Err("Invalid escaped EPUB path"@)
    } else if !vstd::utf8::valid_utf8(seq![s[from + 1], s[from + 2]]) {
        Err(text::utf8_problem(seq![s[from + 1], s[from + 2]]))
    } else {
        match (escaped_byte(s[from + 1], s[from + 2]), unescaped(s, from + 3)) {
            (Some(b), Ok(rest)) => Ok(seq![b] + rest),
            (Some(_), Err(words)) => Err(words),
            (None, _) => Err("invalid digit found in string"@),
        }
    }
}

proof fn unescaped_step(s: Seq<u8>, i: int, done: Seq<u8>, whole: Result<Seq<u8>, Seq<char>>)
    requires
        0 <= i < s.len(),
        whole == match unescaped(s, i) {
            Ok(rest) => Ok::<Seq<u8>, Seq<char>>(done + rest),
            Err(words) => Err(words),
        },
    ensures
        s[i] != 37 ==> whole == match unescaped(s, i + 1) {
            Ok(rest) => Ok::<Seq<u8>, Seq<char>>(done.push(s[i]) + rest),
            Err(words) => Err(words),
        },
        s[i] == 37 && i + 2 < s.len() && vstd::utf8::valid_utf8(seq![s[i + 1], s[i + 2]])
            && escaped_byte(s[i + 1], s[i + 2]) is Some ==> whole == match unescaped(s, i + 3) {
            Ok(rest) => Ok::<Seq<u8>, Seq<char>>(
                done.push(escaped_byte(s[i + 1], s[i + 2])->0) + rest,
            ),
            Err(words) => Err(words),
        },
{
    if s[i] != 37 {
        if let Ok(rest) = unescaped(s, i + 1) {
            assert(done + (seq![s[i]] + rest) =~= done.push(s[i]) + rest);
        }
    } else if i + 2 < s.len() && escaped_byte(s[i + 1], s[i + 2]) is Some {
        if let Ok(rest) = unescaped(s, i + 3) {
            let b = escaped_byte(s[i + 1], s[i + 2])->0;
            assert(done + (seq![b] + rest) =~= done.push(b) + rest);
        }
    }
}

fn write_out(s: &[u8]) -> (r: Result<Vec<u8>, String>)
    ensures
        bytes_view(r) == unescaped(s@, 0),
{
    let mut out: Vec<u8> = Vec::new();
    let mut i: usize = 0;
    let ghost whole = unescaped(s@, 0);
    proof {
        if let Ok(rest) = whole {
            assert(out@ + rest =~= rest);
        }
    }
    while i < s.len()
        invariant
            i <= s@.len(),
            whole == unescaped(s@, 0),
            whole == match unescaped(s@, i as int) {
                Ok(rest) => Ok::<Seq<u8>, Seq<char>>(out@ + rest),
                Err(words) => Err(words),
            },
        decreases s@.len() - i,
    {
        proof {
            unescaped_step(s@, i as int, out@, whole);
        }
        if s[i] != 37 {
            out.push(s[i]);
            i += 1;
        } else {
            if s.len() - i < 3 {
                return Err("Invalid escaped EPUB path".to_owned());
            }
            let mut pair: Vec<u8> = Vec::new();
            pair.push(s[i + 1]);
            pair.push(s[i + 2]);
            assert(pair@ =~= seq![s@[i + 1], s@[i + 2]]);
            if let Err(words) = text::decode(pair.as_slice()) {
                return Err(words);
            }
            match unescape(s[i + 1], s[i + 2]) {
                Some(b) => {
                    out.push(b);
                    i += 3;
                },
                None => return Err("invalid digit found in string".to_owned()),
            }
        }
    }
    proof {
        assert(out@ + Seq::<u8>::empty() =~= out@);
    }
    Ok(out)
}

/// Where a reference from a package document leads, inside the archive.
pub open spec fn resolved(base: Seq<char>, href: Seq<char>) -> Result<Seq<char>, Seq<char>> {
    let href = href.take(text::index_from(href, '#', 0));
    match unescaped(vstd::utf8::encode_utf8(href), 0) {
        Err(words) => Err(words),
        Ok(bytes) => match decoded(bytes) {
            Err(words) => Err(words),
            Ok(path) => if (path.len() > 0 && path[0] == '/') || path.contains('\\')
                || path.contains(':') {
                Err("Invalid chapter path"@)
            } else {
                match paths::walked(paths::split(base + path, '/'), true) {
                    None => Err("Chapter path leaves EPUB"@),
                    Some(parts) => Ok(paths::between(parts, "/"@)),
                }
            },
        },
    }
}

fn has_char(s: &str, c: char) -> (r: bool)
    ensures
        r == s@.contains(c),
{
    let all = text::chars(s);
    let at = text::find_char(all.as_slice(), c, 0);
    proof {
        if at < all@.len() {
            assert(s@[at as int] == c);
        }
    }
    at < all.len()
}

pub fn resolve_href(base: &str, href: &str) -> (r: Result<String, String>)
    ensures
        result_view(r) == resolved(base@, href@),
{
    let all = text::chars(href);
    let mark = text::find_char(all.as_slice(), '#', 0);
    let href = text::slice(all.as_slice(), 0, mark);
    proof {
        assert(href@ =~= all@.take(mark as int));
    }
    let bytes = match write_out(href.as_str().as_bytes()) {
        Ok(bytes) => bytes,
        Err(words) => return Err(words),
    };
    let path = match text::decode(bytes.as_slice()) {
        Ok(path) => path,
        Err(words) => return Err(words),
    };
    if paths::is_absolute(path.as_str()) || has_char(path.as_str(), '\\') || has_char(
        path.as_str(),
        ':',
    ) {
        return Err("Invalid chapter path".to_owned());
    }
    let joined = text::concat(base, path.as_str());
    let parts = paths::pieces(joined.as_str(), '/');
    match paths::walk(&parts, true) {
        None => Err("Chapter path leaves EPUB".to_owned()),
        Some(parts) => Ok(paths::join_with(&parts, "/")),
    }
}

/// Where a container document says the package document is.
pub open spec fn package_path(nodes: Seq<NodeView>) -> Option<Seq<char>> {
    let at = first_called(nodes, "rootfile"@, 0);
    if at < nodes.len() {
        nodes[at].attribute("full-path"@)
    } else {
        None
    }
}

pub fn find_package(nodes: &Vec<Node>) -> (r: Option<String>)
    ensures
        r.deep_view() == package_path(nodes.deep_view()),
{
    let at = xml::find_called(nodes, "rootfile", 0);
    if at < nodes.len() {
        assert(nodes.deep_view()[at as int] == nodes@[at as int]@);
        nodes[at].attribute("full-path")
    } else {
        None
    }
}

/// The first manifest item of an id from `from` on, or the length.
pub open spec fn item_at(nodes: Seq<NodeView>, id: Seq<char>, from: int) -> int
    decreases nodes.len() - from,
{
    if from < 0 || from >= nodes.len() {
        nodes.len() as int
    } else if nodes[from].called("item"@) && nodes[from].attribute("id"@) == Some(id) {
        from
    } else {
        item_at(nodes, id, from + 1)
    }
}

fn find_item(nodes: &Vec<Node>, id: &str) -> (r: usize)
    ensures
        r == item_at(nodes.deep_view(), id@, 0),
        r <= nodes@.len(),
{
    let mut i: usize = 0;
    while i < nodes.len()
        invariant
            i <= nodes@.len(),
            item_at(nodes.deep_view(), id@, 0) == item_at(nodes.deep_view(), id@, i as int),
        decreases nodes@.len() - i,
    {
        assert(nodes.deep_view()[i as int] == nodes@[i as int]@);
        if nodes[i].is_called("item") && nodes[i].says("id", id) {
            return i;
        }
        i += 1;
    }
    i
}

/// The manifest item a spine entry stands for, and where its chapter is.
pub open spec fn chapter_of(nodes: Seq<NodeView>, itemref: int, base: Seq<char>) -> Result<
    (int, Seq<char>),
    Seq<char>,
> {
    match nodes[itemref].attribute("idref"@) {
        None => Err("Spine entry has no idref"@),
        Some(id) => {
            let item = item_at(nodes, id, 0);
            if item >= nodes.len() {
                Err("Spine references a missing manifest item"@)
            } else {
                match nodes[item].attribute("href"@) {
                    None => Err("Manifest item has no href"@),
                    Some(href) => match resolved(base, href) {
                        Err(words) => Err(words),
                        Ok(path) => Ok((item, path)),
                    },
                }
            }
        },
    }
}

pub fn find_chapter(nodes: &Vec<Node>, itemref: usize, base: &str) -> (r: Result<
    (usize, String),
    String,
>)
    requires
        itemref < nodes@.len(),
    ensures
        match (r, chapter_of(nodes.deep_view(), itemref as int, base@)) {
            (Ok((item, path)), Ok(wanted)) => (item as int, path@) == wanted && item < nodes@.len(),
            (Err(words), Err(wanted)) => words@ == wanted,
            _ => false,
        },
{
    assert(nodes.deep_view()[itemref as int] == nodes@[itemref as int]@);
    let id = match nodes[itemref].attribute("idref") {
        Some(id) => id,
        None => return Err("Spine entry has no idref".to_owned()),
    };
    let item = find_item(nodes, id.as_str());
    if item >= nodes.len() {
        return Err("Spine references a missing manifest item".to_owned());
    }
    assert(nodes.deep_view()[item as int] == nodes@[item as int]@);
    let href = match nodes[item].attribute("href") {
        Some(href) => href,
        None => return Err("Manifest item has no href".to_owned()),
    };
    match resolve_href(base, href.as_str()) {
        Ok(path) => Ok((item, path)),
        Err(words) => Err(words),
    }
}

/// What is wrong with a chapter, given what its archive holds of it.
pub open spec fn chapter_problem(
    path: Seq<char>,
    prose: bool,
    bytes: Result<Seq<u8>, Seq<char>>,
) -> Option<Seq<char>> {
    match bytes {
        Err(words) => Some("Missing chapter "@ + path + ": "@ + words),
        Ok(bytes) => if prose {
            match decoded(bytes) {
                Err(words) => Some("Chapter is not UTF-8: "@ + words),
                Ok(text) => match xml::document(text, true) {
                    Err(words) => Some(
                        "Chapter "@ + path + " is not readable XHTML: "@ + words,
                    ),
                    Ok(_) => None,
                },
            }
        } else {
            None
        },
    }
}

fn check_chapter(path: &str, prose: bool, bytes: Result<Vec<u8>, String>) -> (r: Option<String>)
    ensures
        r.deep_view() == chapter_problem(path@, prose, bytes_view(bytes)),
{
    let bytes = match bytes {
        Ok(bytes) => bytes,
        Err(words) => {
            return Some(text::concat4("Missing chapter ", path, ": ", words.as_str()));
        },
    };
    if prose {
        let text = match text::decode(bytes.as_slice()) {
            Ok(text) => text,
            Err(words) => return Some(text::concat("Chapter is not UTF-8: ", words.as_str())),
        };
        if let Err(words) = xml::parse(text.as_str(), true) {
            return Some(
                text::concat4("Chapter ", path, " is not readable XHTML: ", words.as_str()),
            );
        }
    }
    None
}

/// What is wrong with the reading order from `from` on, and how many chapters
/// it has.
pub open spec fn spine_problem(
    data: Seq<u8>,
    members: Seq<MemberView>,
    nodes: Seq<NodeView>,
    base: Seq<char>,
    from: int,
    count: nat,
) -> Option<Seq<char>>
    decreases nodes.len() - from,
{
    if from < 0 || from >= nodes.len() {
        if count > 0 {
            None
        } else {
            Some("EPUB has no reading order"@)
        }
    } else if !nodes[from].called("itemref"@) {
        spine_problem(data, members, nodes, base, from + 1, count)
    } else {
        match chapter_of(nodes, from, base) {
            Err(words) => Some(words),
            Ok((item, path)) => {
                let prose = nodes[item].attribute("media-type"@) == Some(
                    "application/xhtml+xml"@,
                );
                match chapter_problem(path, prose, named_bytes(data, members, path)) {
                    Some(words) => Some(words),
                    None => spine_problem(data, members, nodes, base, from + 1, count + 1),
                }
            },
        }
    }
}

fn check_spine(data: &[u8], members: &Vec<Member>, nodes: &Vec<Node>, base: &str) -> (r: Option<
    String,
>)
    ensures
        r.deep_view() == spine_problem(
            data@,
            members.deep_view(),
            nodes.deep_view(),
            base@,
            0,
            0,
        ),
{
    let ghost all = nodes.deep_view();
    let ghost held = members.deep_view();
    let mut any = false;
    let ghost mut count: nat = 0;
    let mut i: usize = 0;
    while i < nodes.len()
        invariant
            i <= nodes@.len(),
            all == nodes.deep_view(),
            held == members.deep_view(),
            any == (count > 0),
            spine_problem(data@, held, all, base@, 0, 0) == spine_problem(
                data@,
                held,
                all,
                base@,
                i as int,
                count,
            ),
        decreases nodes@.len() - i,
    {
        assert(all[i as int] == nodes@[i as int]@);
        if nodes[i].is_called("itemref") {
            let (item, path) = match find_chapter(nodes, i, base) {
                Ok(found) => found,
                Err(words) => return Some(words),
            };
            assert(all[item as int] == nodes@[item as int]@);
            let prose = nodes[item].says("media-type", "application/xhtml+xml");
            let bytes = read_named(data, members, path.as_str());
            if let Some(words) = check_chapter(path.as_str(), prose, bytes) {
                return Some(words);
            }
            any = true;
            proof {
                count = count + 1;
            }
        }
        i += 1;
    }
    if any {
        None
    } else {
        Some("EPUB has no reading order".to_owned())
    }
}

/// The folder of a package document, with its slash.
pub open spec fn base_of(root: Seq<char>) -> Seq<char> {
    let slash = text::last_index(root, '/');
    if slash < 0 {
        Seq::empty()
    } else {
        root.take(slash + 1)
    }
}

fn base_folder(root: &str) -> (r: String)
    ensures
        r@ == base_of(root@),
{
    let c = text::chars(root);
    match text::find_last(c.as_slice(), '/') {
        Some(slash) => {
            proof {
                assert(c@.take(slash as int + 1) =~= c@.subrange(0, slash as int + 1));
            }
            text::slice(c.as_slice(), 0, slash + 1)
        },
        None => String::new(),
    }
}

/// The package document of an archive: where it is, and its nodes.
pub open spec fn package_of(data: Seq<u8>, members: Seq<MemberView>) -> Result<
    (Seq<char>, Seq<NodeView>),
    Seq<char>,
> {
    match named_bytes(data, members, "META-INF/container.xml"@) {
        Err(words) => Err(words),
        Ok(bytes) => match decoded(bytes) {
            Err(words) => Err(words),
            Ok(text) => match xml::document(text, false) {
                Err(words) => Err("Invalid EPUB container.xml: "@ + words),
                Ok(nodes) => match package_path(nodes) {
                    None => Err("EPUB has no package document"@),
                    Some(root) => match named_bytes(data, members, root) {
                        Err(words) => Err("EPUB package document is missing: "@ + words),
                        Ok(bytes) => match decoded(bytes) {
                            Err(words) => Err(words),
                            Ok(text) => match xml::document(text, false) {
                                Err(words) => Err("Invalid EPUB package document: "@ + words),
                                Ok(nodes) => Ok((root, nodes)),
                            },
                        },
                    },
                },
            },
        },
    }
}

fn read_package(data: &[u8], members: &Vec<Member>) -> (r: Result<(String, Vec<Node>), String>)
    ensures
        match (r, package_of(data@, members.deep_view())) {
            (Ok((root, nodes)), Ok(wanted)) => (root@, nodes.deep_view()) == wanted,
            (Err(words), Err(wanted)) => words@ == wanted,
            _ => false,
        },
{
    let bytes = match read_named(data, members, "META-INF/container.xml") {
        Ok(bytes) => bytes,
        Err(words) => return Err(words),
    };
    let container = match text::decode(bytes.as_slice()) {
        Ok(text) => text,
        Err(words) => return Err(words),
    };
    let nodes = match xml::parse(container.as_str(), false) {
        Ok(nodes) => nodes,
        Err(words) => return Err(text::concat("Invalid EPUB container.xml: ", words.as_str())),
    };
    let root = match find_package(&nodes) {
        Some(root) => root,
        None => return Err("EPUB has no package document".to_owned()),
    };
    let bytes = match read_named(data, members, root.as_str()) {
        Ok(bytes) => bytes,
        Err(words) => {
            return Err(text::concat("EPUB package document is missing: ", words.as_str()));
        },
    };
    let package = match text::decode(bytes.as_slice()) {
        Ok(text) => text,
        Err(words) => return Err(words),
    };
    match xml::parse(package.as_str(), false) {
        Ok(nodes) => Ok((root, nodes)),
        Err(words) => Err(text::concat("Invalid EPUB package document: ", words.as_str())),
    }
}

/// The bytes of `application/epub+zip`, which every EPUB says of itself.
pub open spec fn mimetype() -> Seq<u8> {
    seq![
        97u8, 112, 112, 108, 105, 99, 97, 116, 105, 111, 110, 47, 101, 112, 117, 98, 43, 122, 105,
        112,
    ]
}

pub fn mimetype_bytes() -> (r: Vec<u8>)
    ensures
        r@ == mimetype(),
{
    vec![
        97u8, 112, 112, 108, 105, 99, 97, 116, 105, 111, 110, 47, 101, 112, 117, 98, 43, 122, 105,
        112,
    ]
}

pub fn same_bytes(a: &[u8], b: &[u8]) -> (r: bool)
    ensures
        r == (a@ == b@),
{
    if a.len() != b.len() {
        return false;
    }
    for i in 0..a.len()
        invariant
            a@.len() == b@.len(),
            forall|j: int| 0 <= j < i ==> a@[j] == b@[j],
    {
        if a[i] != b[i] {
            return false;
        }
    }
    proof {
        assert(a@ =~= b@);
    }
    true
}

/// What keeps some bytes from being a readable EPUB.
pub open spec fn validated(data: Seq<u8>) -> Option<Seq<char>> {
    match (inspected(data), members_of(data)) {
        (Some(words), _) => Some(words),
        (None, Err(words)) => Some(words),
        (None, Ok(members)) => match named_bytes(data, members, "mimetype"@) {
            Err(words) => Some(words),
            Ok(kind) => if kind != mimetype() {
                Some("Invalid EPUB mimetype"@)
            } else {
                match package_of(data, members) {
                    Err(words) => Some(words),
                    Ok((root, nodes)) => spine_problem(
                        data,
                        members,
                        nodes,
                        base_of(root),
                        0,
                        0,
                    ),
                }
            },
        },
    }
}

/// Basic structural and reading-order validation.
pub fn validate(data: &[u8]) -> (r: Result<(), String>)
    ensures
        result_view(r) == refused(validated(data@)),
{
    if let Err(words) = inspect(data) {
        return Err(words);
    }
    let members = match archive::members(data) {
        Ok(members) => members,
        Err(words) => return Err(words),
    };
    let kind = match read_named(data, &members, "mimetype") {
        Ok(kind) => kind,
        Err(words) => return Err(words),
    };
    if !same_bytes(kind.as_slice(), mimetype_bytes().as_slice()) {
        return Err("Invalid EPUB mimetype".to_owned());
    }
    let (root, nodes) = match read_package(data, &members) {
        Ok(found) => found,
        Err(words) => return Err(words),
    };
    let base = base_folder(root.as_str());
    match check_spine(data, &members, &nodes, base.as_str()) {
        Some(words) => Err(words),
        None => Ok(()),
    }
}

/// What a book says about itself.
#[derive(Clone, Debug, PartialEq, Eq)]
pub struct Metadata {
    pub title: Option<String>,
    pub author: String,
    pub identifiers: Vec<String>,
    /// The series this book belongs to, and where it sits in it.
    pub series: Option<String>,
    pub series_index: Option<Position>,
}

#[verifier::ext_equal]
pub struct MetadataView {
    pub title: Option<Seq<char>>,
    pub author: Seq<char>,
    pub identifiers: Seq<Seq<char>>,
    pub series: Option<Seq<char>>,
    pub series_index: Option<PositionView>,
}

impl View for Metadata {
    type V = MetadataView;

    open spec fn view(&self) -> MetadataView {
        MetadataView {
            title: self.title.deep_view(),
            author: self.author@,
            identifiers: self.identifiers.deep_view(),
            series: self.series.deep_view(),
            series_index: self.series_index.deep_view(),
        }
    }
}

impl DeepView for Metadata {
    type V = MetadataView;

    open spec fn deep_view(&self) -> MetadataView {
        self@
    }
}

/// The namespace of the elements that say what a book is called and whose it
/// is.
pub const DUBLIN_CORE: &'static str = "http://purl.org/dc/elements/1.1/";

/// A text that says something once the whitespace around it is gone.
pub open spec fn said(s: Seq<char>) -> Option<Seq<char>> {
    if text::trimmed(s).len() == 0 {
        None
    } else {
        Some(text::trimmed(s))
    }
}

pub(crate) fn say(s: &str) -> (r: Option<String>)
    ensures
        r.deep_view() == said(s@),
{
    let s = text::trim(s);
    if s.as_str().is_empty() {
        None
    } else {
        Some(s)
    }
}

/// What a node of that tag says, if it is one and says anything.
pub open spec fn value_of(node: NodeView, tag: Seq<char>) -> Option<Seq<char>> {
    if node.tagged(DUBLIN_CORE@, tag) && node.text is Some {
        said(node.text->0)
    } else {
        None
    }
}

/// Everything the elements of a tag say, in document order.
pub open spec fn values(nodes: Seq<NodeView>, tag: Seq<char>) -> Seq<Seq<char>>
    decreases nodes.len(),
{
    if nodes.len() == 0 {
        Seq::empty()
    } else {
        match value_of(nodes.last(), tag) {
            Some(value) => values(nodes.drop_last(), tag).push(value),
            None => values(nodes.drop_last(), tag),
        }
    }
}

fn collect_values(nodes: &Vec<Node>, tag: &str) -> (r: Vec<String>)
    ensures
        r.deep_view() == values(nodes.deep_view(), tag@),
{
    let ghost all = nodes.deep_view();
    let mut out: Vec<String> = Vec::new();
    proof {
        assert(all.take(0) =~= Seq::<NodeView>::empty());
        assert(out.deep_view() =~= Seq::<Seq<char>>::empty());
    }
    for i in 0..nodes.len()
        invariant
            all == nodes.deep_view(),
            out.deep_view() == values(all.take(i as int), tag@),
    {
        let ghost so_far = out.deep_view();
        proof {
            assert(all.take(i as int + 1).drop_last() =~= all.take(i as int));
            assert(all[i as int] == nodes@[i as int]@);
        }
        if nodes[i].is_tagged(DUBLIN_CORE, tag) {
            if let Some(words) = &nodes[i].text {
                if let Some(value) = say(words.as_str()) {
                    out.push(value);
                    proof {
                        assert(out.deep_view() =~= so_far.push(value@));
                    }
                }
            }
        }
    }
    proof {
        assert(all.take(all.len() as int) =~= all);
    }
    out
}

/// The first `meta` element from `from` on with an attribute of that value, or
/// the length.
pub open spec fn meta_with(
    nodes: Seq<NodeView>,
    name: Seq<char>,
    value: Seq<char>,
    from: int,
) -> int
    decreases nodes.len() - from,
{
    if from < 0 || from >= nodes.len() {
        nodes.len() as int
    } else if nodes[from].called("meta"@) && nodes[from].attribute(name) == Some(value) {
        from
    } else {
        meta_with(nodes, name, value, from + 1)
    }
}

fn find_meta(nodes: &Vec<Node>, name: &str, value: &str) -> (r: Option<usize>)
    ensures
        match r {
            Some(i) => i == meta_with(nodes.deep_view(), name@, value@, 0) && i < nodes@.len(),
            None => meta_with(nodes.deep_view(), name@, value@, 0) == nodes@.len(),
        },
{
    let mut i: usize = 0;
    while i < nodes.len()
        invariant
            i <= nodes@.len(),
            meta_with(nodes.deep_view(), name@, value@, 0) == meta_with(
                nodes.deep_view(),
                name@,
                value@,
                i as int,
            ),
        decreases nodes@.len() - i,
    {
        assert(nodes.deep_view()[i as int] == nodes@[i as int]@);
        if nodes[i].is_called("meta") && nodes[i].says(name, value) {
            return Some(i);
        }
        i += 1;
    }
    None
}

/// What the EPUB 2 way of naming a value says.
pub open spec fn named_content(nodes: Seq<NodeView>, name: Seq<char>) -> Option<Seq<char>> {
    let at = meta_with(nodes, "name"@, name, 0);
    if at < nodes.len() {
        nodes[at].attribute("content"@)
    } else {
        None
    }
}

fn find_content(nodes: &Vec<Node>, name: &str) -> (r: Option<String>)
    ensures
        r.deep_view() == named_content(nodes.deep_view(), name@),
{
    match find_meta(nodes, "name", name) {
        Some(at) => {
            assert(nodes.deep_view()[at as int] == nodes@[at as int]@);
            nodes[at].attribute("content")
        },
        None => None,
    }
}

/// The collection an EPUB 3 says it belongs to, or the length.
pub open spec fn collection_at(nodes: Seq<NodeView>) -> int {
    meta_with(nodes, "property"@, "belongs-to-collection"@, 0)
}

/// The series a book belongs to. It is written one way by EPUB 2 and another by
/// EPUB 3, and a file may carry either.
pub open spec fn series_of(nodes: Seq<NodeView>) -> Option<Seq<char>> {
    let calibre = match named_content(nodes, "calibre:series"@) {
        Some(content) => said(content),
        None => None,
    };
    let at = collection_at(nodes);
    if calibre is Some {
        calibre
    } else if at < nodes.len() && nodes[at].text is Some {
        said(nodes[at].text->0)
    } else {
        None
    }
}

fn find_series(nodes: &Vec<Node>) -> (r: Option<String>)
    ensures
        r.deep_view() == series_of(nodes.deep_view()),
{
    if let Some(content) = find_content(nodes, "calibre:series") {
        if let Some(series) = say(content.as_str()) {
            return Some(series);
        }
    }
    if let Some(at) = find_meta(nodes, "property", "belongs-to-collection") {
        assert(nodes.deep_view()[at as int] == nodes@[at as int]@);
        if let Some(words) = &nodes[at].text {
            return say(words.as_str());
        }
    }
    None
}

/// The `meta` element from `from` on that gives the position in a collection,
/// or the length.
pub open spec fn position_at(nodes: Seq<NodeView>, of: Seq<char>, from: int) -> int
    decreases nodes.len() - from,
{
    if from < 0 || from >= nodes.len() {
        nodes.len() as int
    } else if nodes[from].called("meta"@) && nodes[from].attribute("refines"@) == Some(of)
        && nodes[from].attribute("property"@) == Some("group-position"@) {
        from
    } else {
        position_at(nodes, of, from + 1)
    }
}

fn find_position(nodes: &Vec<Node>, of: &str) -> (r: usize)
    ensures
        r == position_at(nodes.deep_view(), of@, 0),
        r <= nodes@.len(),
{
    let mut i: usize = 0;
    while i < nodes.len()
        invariant
            i <= nodes@.len(),
            position_at(nodes.deep_view(), of@, 0) == position_at(
                nodes.deep_view(),
                of@,
                i as int,
            ),
        decreases nodes@.len() - i,
    {
        assert(nodes.deep_view()[i as int] == nodes@[i as int]@);
        if nodes[i].is_called("meta") && nodes[i].says("refines", of) && nodes[i].says(
            "property",
            "group-position",
        ) {
            return i;
        }
        i += 1;
    }
    i
}

/// Where an EPUB 3 says the book sits in its collection.
pub open spec fn refined_position(nodes: Seq<NodeView>) -> Option<PositionView> {
    let at = collection_at(nodes);
    if at >= nodes.len() {
        None
    } else {
        match nodes[at].attribute("id"@) {
            None => None,
            Some(id) => {
                let place = position_at(nodes, "#"@ + id, 0);
                if place < nodes.len() && nodes[place].text is Some {
                    position_of(nodes[place].text->0)
                } else {
                    None
                }
            },
        }
    }
}

/// Where the book sits in its series.
pub open spec fn series_index_of(nodes: Seq<NodeView>) -> Option<PositionView> {
    let calibre = match named_content(nodes, "calibre:series_index"@) {
        Some(content) => position_of(content),
        None => None,
    };
    if calibre is Some {
        calibre
    } else {
        refined_position(nodes)
    }
}

fn find_series_index(nodes: &Vec<Node>) -> (r: Option<Position>)
    ensures
        r.deep_view() == series_index_of(nodes.deep_view()),
{
    if let Some(content) = find_content(nodes, "calibre:series_index") {
        if let Some(position) = read_position(content.as_str()) {
            return Some(position);
        }
    }
    if let Some(at) = find_meta(nodes, "property", "belongs-to-collection") {
        assert(nodes.deep_view()[at as int] == nodes@[at as int]@);
        if let Some(id) = nodes[at].attribute("id") {
            let of = text::concat("#", id.as_str());
            let place = find_position(nodes, of.as_str());
            if place < nodes.len() {
                assert(nodes.deep_view()[place as int] == nodes@[place as int]@);
                if let Some(words) = &nodes[place].text {
                    return read_position(words.as_str());
                }
            }
        }
    }
    None
}

/// What a package document says about its book.
pub open spec fn described(nodes: Seq<NodeView>) -> MetadataView {
    MetadataView {
        title: if values(nodes, "title"@).len() > 0 {
            Some(values(nodes, "title"@)[0])
        } else {
            None
        },
        author: paths::between(values(nodes, "creator"@), ", "@),
        identifiers: values(nodes, "identifier"@),
        series: series_of(nodes),
        series_index: series_index_of(nodes),
    }
}

/// What a package document says about its book.
pub fn describe(nodes: &Vec<Node>) -> (r: Metadata)
    ensures
        r@ == described(nodes.deep_view()),
{
    let titles = collect_values(nodes, "title");
    let creators = collect_values(nodes, "creator");
    let title = if titles.len() > 0 {
        assert(titles.deep_view()[0] == titles@[0]@);
        Some(titles[0].duplicate())
    } else {
        None
    };
    Metadata {
        title,
        author: paths::join_with(&creators, ", "),
        identifiers: collect_values(nodes, "identifier"),
        series: find_series(nodes),
        series_index: find_series_index(nodes),
    }
}

/// A member's contents by name, when it is no larger than metadata may be.
pub open spec fn small_member(data: Seq<u8>, members: Seq<MemberView>, name: Seq<char>) -> Result<
    Seq<u8>,
    Seq<char>,
> {
    let i = member_at(members, name, 0);
    if !(0 <= i < members.len()) {
        Err("specified file not found in archive"@)
    } else if let Some(words) = members[i].problem {
        Err(words)
    } else {
        match bytes_of(data, i as usize, (MAX_METADATA_BYTES + 1) as u64) {
            Err(words) => Err(words),
            Ok(bytes) => if bytes.len() > MAX_METADATA_BYTES {
                Err("EPUB metadata exceeds 8 MiB"@)
            } else {
                Ok(bytes)
            },
        }
    }
}

fn read_small(data: &[u8], members: &Vec<Member>, name: &str) -> (r: Result<Vec<u8>, String>)
    ensures
        bytes_view(r) == small_member(data@, members.deep_view(), name@),
{
    match find_member(members, name) {
        None => Err("specified file not found in archive".to_owned()),
        Some(i) => {
            assert(members.deep_view()[i as int] == members@[i as int]@);
            match &members[i].problem {
                Some(words) => Err(words.duplicate()),
                None => match archive::contents(data, i, MAX_METADATA_BYTES + 1) {
                    Err(words) => Err(words),
                    Ok(bytes) => if bytes.len() as u64 > MAX_METADATA_BYTES {
                        Err("EPUB metadata exceeds 8 MiB".to_owned())
                    } else {
                        Ok(bytes)
                    },
                },
            }
        },
    }
}

/// A small XML document out of an archive.
pub open spec fn small_document(data: Seq<u8>, members: Seq<MemberView>, name: Seq<char>) -> Result<
    Seq<NodeView>,
    Seq<char>,
> {
    match small_member(data, members, name) {
        Err(words) => Err(words),
        Ok(bytes) => match decoded(bytes) {
            Err(words) => Err(words),
            Ok(text) => xml::document(text, false),
        },
    }
}

fn read_document(data: &[u8], members: &Vec<Member>, name: &str) -> (r: Result<Vec<Node>, String>)
    ensures
        result_view(r) == small_document(data@, members.deep_view(), name@),
{
    match read_small(data, members, name) {
        Err(words) => Err(words),
        Ok(bytes) => match text::decode(bytes.as_slice()) {
            Err(words) => Err(words),
            Ok(text) => xml::parse(text.as_str(), false),
        },
    }
}

/// Whether bytes start the way a ZIP archive does.
pub open spec fn zipped(data: Seq<u8>) -> bool {
    data.len() >= 4 && data[0] == 80 && data[1] == 75 && data[2] == 3 && data[3] == 4
}

/// What the book in an archive of known members says about itself.
pub open spec fn metadata_in(data: Seq<u8>, members: Seq<MemberView>) -> Result<
    Option<MetadataView>,
    Seq<char>,
> {
    if !has_member(members, "META-INF/container.xml"@) || !has_member(members, "mimetype"@) {
        Ok(None)
    } else {
        match small_member(data, members, "mimetype"@) {
            Err(words) => Err(words),
            Ok(kind) => if kind != mimetype() {
                Ok(None)
            } else {
                match small_document(data, members, "META-INF/container.xml"@) {
                    Err(words) => Err(words),
                    Ok(nodes) => match package_path(nodes) {
                        None => Err("EPUB has no package document"@),
                        Some(root) => match small_document(data, members, root) {
                            Err(words) => Err(words),
                            Ok(nodes) => Ok(Some(described(nodes))),
                        },
                    },
                }
            },
        }
    }
}

/// What a book says about itself; nothing when the bytes are no EPUB.
pub open spec fn metadata_of(data: Seq<u8>) -> Result<Option<MetadataView>, Seq<char>> {
    if !zipped(data) {
        Ok(None)
    } else {
        match members_of(data) {
            Err(words) => Err(words),
            Ok(members) => metadata_in(data, members),
        }
    }
}

fn metadata_within(data: &[u8], members: &Vec<Member>) -> (r: Result<Option<Metadata>, String>)
    ensures
        result_view(r) == metadata_in(data@, members.deep_view()),
{
    if find_member(members, "META-INF/container.xml").is_none() || find_member(
        members,
        "mimetype",
    ).is_none() {
        return Ok(None);
    }
    let kind = match read_small(data, members, "mimetype") {
        Ok(kind) => kind,
        Err(words) => return Err(words),
    };
    if !same_bytes(kind.as_slice(), mimetype_bytes().as_slice()) {
        return Ok(None);
    }
    let nodes = match read_document(data, members, "META-INF/container.xml") {
        Ok(nodes) => nodes,
        Err(words) => return Err(words),
    };
    let root = match find_package(&nodes) {
        Some(root) => root,
        None => return Err("EPUB has no package document".to_owned()),
    };
    match read_document(data, members, root.as_str()) {
        Ok(nodes) => Ok(Some(describe(&nodes))),
        Err(words) => Err(words),
    }
}

/// Identify EPUBs by their contents, including Calibre files without extensions.
/// Read only bounded metadata here; full validation belongs to import.
pub fn metadata(data: &[u8]) -> (r: Result<Option<Metadata>, String>)
    ensures
        result_view(r) == metadata_of(data@),
{
    if !(data.len() >= 4 && data[0] == 80 && data[1] == 75 && data[2] == 3 && data[3] == 4) {
        return Ok(None);
    }
    match archive::members(data) {
        Ok(members) => metadata_within(data, &members),
        Err(words) => Err(words),
    }
}

/// Put font metadata back into a book that was unpacked without it.
pub fn restore_font_metadata(data: Vec<u8>, metadata: Option<Vec<u8>>) -> (r: Result<
    Vec<u8>,
    String,
>)
    ensures
        metadata is None ==> r == Ok::<Vec<u8>, String>(data),
        metadata matches Some(bytes) ==> bytes_view(r) == archive::appended_to(
            data@,
            "META-INF/encryption.xml"@,
            bytes@,
        ),
{
    match metadata {
        None => Ok(data),
        Some(bytes) => archive::append(data, "META-INF/encryption.xml", bytes.as_slice()),
    }
}

} // verus!
