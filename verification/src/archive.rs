//! ZIP archives: what is in one, what each member holds, and making another.
use crate::text;
use crate::values::result_view;
use vstd::prelude::*;
use vstd::utf8::encode_utf8;

pub mod laws;

verus! {

broadcast use vstd::string::group_string_axioms;

/// A member as the archive lists it.
#[derive(Clone, Debug, PartialEq, Eq)]
pub struct Member {
    pub name: String,
    /// How large the archive says the member is.
    pub size: u64,
    /// The permissions and the kind of file that the archive gives it, if any.
    pub mode: Option<u32>,
    /// Whether the name stays inside the folder an archive is unpacked in.
    pub enclosed: bool,
    /// Why the member cannot be opened, when it cannot.
    pub problem: Option<String>,
}

#[verifier::ext_equal]
pub struct MemberView {
    pub name: Seq<char>,
    pub size: u64,
    pub mode: Option<u32>,
    pub enclosed: bool,
    pub problem: Option<Seq<char>>,
}

impl MemberView {
    /// Whether a member is a folder, which an archive tells by its name alone.
    pub open spec fn folder(self) -> bool {
        slashed(self.name)
    }
}

impl View for Member {
    type V = MemberView;

    open spec fn view(&self) -> MemberView {
        MemberView {
            name: self.name@,
            size: self.size,
            mode: self.mode,
            enclosed: self.enclosed,
            problem: self.problem.deep_view(),
        }
    }
}

impl DeepView for Member {
    type V = MemberView;

    open spec fn deep_view(&self) -> MemberView {
        self@
    }
}

impl Member {
    pub fn is_folder(&self) -> (r: bool)
        ensures
            r == self@.folder(),
    {
        let name = text::chars(self.name.as_str());
        let length: usize = name.len();
        length > 0 && (name[length - 1] == '/' || name[length - 1] == '\\')
    }
}

/// What `zip::ZipArchive::new` finds in some bytes: the members in the order of
/// the central directory, or the words of its complaint.
pub uninterp spec fn members_of(data: Seq<u8>) -> Result<Seq<MemberView>, Seq<char>>;

/// `zip::ZipArchive::new`, with what `ZipArchive::by_index` gives of each
/// member. Both depend on the bytes alone; the result is named.
#[verifier::external_body]
pub(crate) fn members(data: &[u8]) -> (r: Result<Vec<Member>, String>)
    ensures
        result_view(r) == members_of(data@),
{
    let mut z = match zip::ZipArchive::new(std::io::Cursor::new(data)) {
        Ok(archive) => archive,
        Err(e) => return Err(e.to_string()),
    };
    Ok((0..z.len()).map(|i| {
        let name = z.name_for_index(i).unwrap_or_default().to_owned();
        match z.by_index(i) {
            Ok(f) => Member { name, size: f.size(), mode: f.unix_mode(),
                enclosed: f.enclosed_name().is_some(), problem: None },
            Err(e) => Member { name, size: 0, mode: None, enclosed: false,
                problem: Some(e.to_string()) },
        }
    }).collect())
}

/// The first bytes of a member, up to a limit, or why they cannot be read. The
/// bytes are checked against the member's checksum when they reach its end.
pub uninterp spec fn bytes_of(data: Seq<u8>, index: usize, limit: u64) -> Result<
    Seq<u8>,
    Seq<char>,
>;

/// `zip::ZipArchive::by_index` and reading the member with `Read::take` and
/// `Read::read_to_end`: never more bytes than the limit.
#[verifier::external_body]
pub(crate) fn contents(data: &[u8], index: usize, limit: u64) -> (r: Result<Vec<u8>, String>)
    ensures
        match r {
            Ok(bytes) => bytes_of(data@, index, limit) == Ok::<Seq<u8>, Seq<char>>(bytes@)
                && bytes@.len() <= limit,
            Err(words) => bytes_of(data@, index, limit) == Err::<Seq<u8>, Seq<char>>(words@),
        },
{
    let mut out = Vec::new();
    let mut archive = match zip::ZipArchive::new(std::io::Cursor::new(data)) {
        Ok(archive) => archive,
        Err(e) => return Err(e.to_string()),
    };
    let read = match archive.by_index(index) {
        Ok(f) => std::io::Read::read_to_end(&mut std::io::Read::take(f, limit), &mut out),
        Err(e) => return Err(e.to_string()),
    };
    read.map(|_| out).map_err(|e| e.to_string())
}

/// The first member of a name from `from` on, or the length.
pub open spec fn member_at(members: Seq<MemberView>, name: Seq<char>, from: int) -> int
    decreases members.len() - from,
{
    if from < 0 || from >= members.len() {
        members.len() as int
    } else if members[from].name == name {
        from
    } else {
        member_at(members, name, from + 1)
    }
}

/// Whether an archive has a member of that name.
pub open spec fn has_member(members: Seq<MemberView>, name: Seq<char>) -> bool {
    0 <= member_at(members, name, 0) < members.len()
}

pub fn find_member(members: &Vec<Member>, name: &str) -> (r: Option<usize>)
    ensures
        match r {
            Some(i) => i == member_at(members.deep_view(), name@, 0) && i < members@.len()
                && members@[i as int].name@ == name@,
            None => !has_member(members.deep_view(), name@),
        },
{
    let mut i: usize = 0;
    while i < members.len()
        invariant
            i <= members@.len(),
            member_at(members.deep_view(), name@, 0) == member_at(
                members.deep_view(),
                name@,
                i as int,
            ),
        decreases members@.len() - i,
    {
        assert(members.deep_view()[i as int] == members@[i as int]@);
        if text::same(members[i].name.as_str(), name) {
            return Some(i);
        }
        i += 1;
    }
    None
}

/// A member found by name and open for reading, or why it is not.
pub open spec fn opened(members: Seq<MemberView>, name: Seq<char>) -> Result<int, Seq<char>> {
    let i = member_at(members, name, 0);
    if !(0 <= i < members.len()) {
        Err("specified file not found in archive"@)
    } else if let Some(words) = members[i].problem {
        Err(words)
    } else {
        Ok(i)
    }
}

pub fn open_member(members: &Vec<Member>, name: &str) -> (r: Result<usize, String>)
    ensures
        match (r, opened(members.deep_view(), name@)) {
            (Ok(i), Ok(wanted)) => i == wanted && i < members@.len(),
            (Err(words), Err(wanted)) => words@ == wanted,
            _ => false,
        },
{
    match find_member(members, name) {
        None => Err("specified file not found in archive".to_owned()),
        Some(i) => {
            assert(members.deep_view()[i as int] == members@[i as int]@);
            match &members[i].problem {
                Some(words) => Err(words.as_str().to_owned()),
                None => Ok(i),
            }
        },
    }
}

/// A member's whole contents by name, or why they cannot be had.
pub open spec fn named_bytes(data: Seq<u8>, members: Seq<MemberView>, name: Seq<char>) -> Result<
    Seq<u8>,
    Seq<char>,
> {
    let i = member_at(members, name, 0);
    if !(0 <= i < members.len()) {
        Err("Missing EPUB entry "@ + name + ": specified file not found in archive"@)
    } else if let Some(words) = members[i].problem {
        Err("Missing EPUB entry "@ + name + ": "@ + words)
    } else {
        bytes_of(data, i as usize, u64::MAX)
    }
}

/// Bytes, or the words of a refusal, read as what they mean.
pub open spec fn bytes_view(r: Result<Vec<u8>, String>) -> Result<Seq<u8>, Seq<char>> {
    match r {
        Ok(bytes) => Ok(bytes@),
        Err(words) => Err(words@),
    }
}

pub fn read_named(data: &[u8], members: &Vec<Member>, name: &str) -> (r: Result<Vec<u8>, String>)
    ensures
        bytes_view(r) == named_bytes(data@, members.deep_view(), name@),
{
    match find_member(members, name) {
        None => Err(
            text::concat3(
                "Missing EPUB entry ",
                name,
                ": specified file not found in archive",
            ),
        ),
        Some(i) => {
            assert(members.deep_view()[i as int] == members@[i as int]@);
            match &members[i].problem {
                Some(words) => Err(
                    text::concat4("Missing EPUB entry ", name, ": ", words.as_str()),
                ),
                None => contents(data, i, u64::MAX),
            }
        },
    }
}

/// A member of an archive being made.
#[verifier::ext_equal]
pub struct PackedView {
    pub name: Seq<char>,
    /// Whether the bytes are kept as they are rather than compressed.
    pub stored: bool,
    pub directory: bool,
    pub bytes: Seq<u8>,
}

/// An archive being made, member by member: a `zip::ZipWriter` in memory.
#[verifier::external_body]
pub struct Packer {
    writer: zip::ZipWriter<std::io::Cursor<Vec<u8>>>,
}

/// The members that have been put into an archive so far, the last still open.
pub uninterp spec fn packed(packer: Packer) -> Seq<PackedView>;

/// Whether every call on an archive being made has succeeded so far. One that
/// failed may leave the writer without an open member, or with half of one.
pub uninterp spec fn sound(packer: Packer) -> bool;

/// What the members of an archive weigh together.
pub open spec fn weight(members: Seq<PackedView>) -> nat
    decreases members.len(),
{
    if members.len() == 0 {
        0
    } else {
        weight(members.drop_last()) + members.last().bytes.len()
    }
}

/// Members that weigh less than this fit into an archive of the plain kind.
pub const ROOM: usize = 0x7fff_ffff;

/// Whether a name is short enough for an archive.
pub open spec fn short(name: Seq<char>) -> bool {
    encode_utf8(name).len() <= u16::MAX
}

/// Whether an archive being made takes another member of this name.
pub open spec fn takes(members: Seq<PackedView>, name: Seq<char>) -> bool {
    &&& short(name)
    &&& weight(members) < ROOM
    &&& forall|i: int| 0 <= i < members.len() ==> (#[trigger] members[i]).name != name
}

/// `zip::ZipWriter::new` on an empty buffer: an archive with nothing in it.
#[verifier::external_body]
pub(crate) fn new_packer() -> (r: Packer)
    ensures
        packed(r) == Seq::<PackedView>::empty(),
        sound(r),
{
    Packer { writer: zip::ZipWriter::new(std::io::Cursor::new(Vec::new())) }
}

/// `zip::ZipWriter::start_file`: when it succeeds, a new empty member of that
/// name comes last. Writing to memory, it succeeds for a short name that is not
/// there yet, as long as nothing is too large.
#[verifier::external_body]
pub(crate) fn start_member(packer: &mut Packer, name: &str, stored: bool) -> (r: Result<(), String>)
    requires
        sound(*old(packer)),
    ensures
        r is Ok ==> sound(*final(packer)),
        r is Ok ==> packed(*final(packer)) == packed(*old(packer)).push(
            (PackedView { name: name@, stored, directory: false, bytes: Seq::empty() }),
        ),
        takes(packed(*old(packer)), name@) ==> r is Ok,
{
    let method = match stored {
        true => zip::CompressionMethod::Stored,
        false => zip::CompressionMethod::Deflated,
    };
    let options = zip::write::SimpleFileOptions::default().compression_method(method);
    packer.writer.start_file(name, options).map_err(|e| e.to_string())
}

/// `Write::write_all` on a `zip::ZipWriter`: when it succeeds, the bytes are at
/// the end of the member started last. Writing to memory, it succeeds as long as
/// nothing is too large.
#[verifier::external_body]
pub(crate) fn write_member(packer: &mut Packer, bytes: &[u8]) -> (r: Result<(), String>)
    requires
        sound(*old(packer)),
        packed(*old(packer)).len() > 0,
        !packed(*old(packer)).last().directory,
    ensures
        r is Ok ==> sound(*final(packer)),
        r is Ok ==> packed(*final(packer)) == packed(*old(packer)).drop_last().push(
            (PackedView {
                bytes: packed(*old(packer)).last().bytes + bytes@,
                ..packed(*old(packer)).last()
            }),
        ),
        weight(packed(*old(packer))) + bytes@.len() < ROOM ==> r is Ok,
{
    std::io::Write::write_all(&mut packer.writer, bytes).map_err(|e| e.to_string())
}

/// Whether a name is that of a folder: it ends in a slash of either kind.
pub open spec fn slashed(name: Seq<char>) -> bool {
    name.len() > 0 && (name.last() == '/' || name.last() == '\\')
}

/// The name of a folder in an archive.
pub open spec fn folder_name(name: Seq<char>) -> Seq<char> {
    if slashed(name) {
        name
    } else {
        name.push('/')
    }
}

/// `zip::ZipWriter::add_directory`: when it succeeds, a folder of that name
/// comes last, with a slash at its end. It succeeds as `start_file` does.
#[verifier::external_body]
pub(crate) fn add_directory(packer: &mut Packer, name: &str) -> (r: Result<(), String>)
    requires
        sound(*old(packer)),
    ensures
        r is Ok ==> sound(*final(packer)),
        r is Ok ==> packed(*final(packer)) == packed(*old(packer)).push(
            (PackedView {
                name: folder_name(name@),
                stored: true,
                directory: true,
                bytes: Seq::empty(),
            }),
        ),
        takes(packed(*old(packer)), folder_name(name@)) ==> r is Ok,
{
    let options = zip::write::SimpleFileOptions::default();
    packer.writer.add_directory(name, options).map_err(|e| e.to_string())
}

/// Whether some bytes are an archive of exactly these members: it lists them
/// under their names and sizes in their order, and reading one up to a limit gives
/// back what was written.
pub open spec fn holds(data: Seq<u8>, members: Seq<PackedView>) -> bool {
    &&& members_of(data) is Ok
    &&& members_of(data)->Ok_0.len() == members.len()
    &&& forall|i: int|
        #![trigger members[i]]
        0 <= i < members.len() ==> {
            &&& members_of(data)->Ok_0[i].name == members[i].name
            &&& members_of(data)->Ok_0[i].size == members[i].bytes.len()
            &&& members_of(data)->Ok_0[i].problem is None
            &&& forall|limit: u64| #[trigger]
                bytes_of(data, i as usize, limit) == Ok::<Seq<u8>, Seq<char>>(
                    start_of(members[i].bytes, limit),
                )
        }
}

/// As many bytes from the start as a limit allows.
pub open spec fn start_of(bytes: Seq<u8>, limit: u64) -> Seq<u8> {
    if bytes.len() <= limit {
        bytes
    } else {
        bytes.take(limit as int)
    }
}

/// `zip::ZipWriter::finish`: when it succeeds, the bytes are an archive of
/// exactly what was put into it, and reading it gives back what was written.
/// Writing to memory, it succeeds as long as nothing is too large.
#[verifier::external_body]
pub(crate) fn finish_packer(packer: Packer) -> (r: Result<Vec<u8>, String>)
    requires
        sound(packer),
    ensures
        match r {
            Ok(data) => holds(data@, packed(packer)),
            Err(_) => weight(packed(packer)) >= ROOM,
        },
{
    packer.writer.finish().map(|c| c.into_inner()).map_err(|e| e.to_string())
}

/// Put a whole member into an archive.
fn add_member(packer: &mut Packer, name: &str, stored: bool, bytes: &[u8]) -> (r: Result<
    (),
    String,
>)
    requires
        sound(*old(packer)),
    ensures
        r is Ok ==> sound(*final(packer)),
        r is Ok ==> packed(*final(packer)) == packed(*old(packer)).push(
            (PackedView { name: name@, stored, directory: false, bytes: bytes@ }),
        ),
        takes(packed(*old(packer)), name@) && weight(packed(*old(packer))) + bytes@.len() < ROOM
            ==> r is Ok,
{
    match start_member(packer, name, stored) {
        Ok(()) => {},
        Err(words) => return Err(words),
    }
    proof {
        let open = PackedView { name: name@, stored, directory: false, bytes: Seq::empty() };
        assert(packed(*old(packer)).push(open).drop_last() =~= packed(*old(packer)));
    }
    let r = write_member(packer, bytes);
    proof {
        if r is Ok {
            let before = packed(*old(packer));
            let member = PackedView { name: name@, stored, directory: false, bytes: bytes@ };
            assert(Seq::<u8>::empty() + bytes@ =~= bytes@);
            let open = PackedView { name: name@, stored, directory: false, bytes: Seq::empty() };
            assert(before.push(open).drop_last() =~= before);
        }
    }
    r
}

/// An archive with one compressed member more at its end, or why it cannot be
/// appended to.
pub uninterp spec fn appended_to(data: Seq<u8>, name: Seq<char>, bytes: Seq<u8>) -> Result<
    Seq<u8>,
    Seq<char>,
>;

/// `zip::ZipWriter::new_append`, `start_file`, `Write::write_all` and `finish` in
/// memory, which rest on their arguments alone; the result is named. Nothing is
/// stated of the members that were there before: the writer sets down their names
/// and fields anew, not always as it read them.
#[verifier::external_body]
pub(crate) fn append(data: Vec<u8>, name: &str, bytes: &[u8]) -> (r: Result<Vec<u8>, String>)
    ensures
        bytes_view(r) == appended_to(data@, name@, bytes@),
{
    let options = zip::write::SimpleFileOptions::default();
    zip::ZipWriter::new_append(std::io::Cursor::new(data))
        .and_then(|mut w| {
            w.start_file(name, options)?;
            std::io::Write::write_all(&mut w, bytes)?;
            w.finish()
        })
        .map(|c| c.into_inner())
        .map_err(|e| e.to_string())
}

/// A member to put into an archive.
#[derive(Clone, Debug, PartialEq, Eq)]
pub struct Packed {
    pub name: String,
    pub stored: bool,
    pub directory: bool,
    pub bytes: Vec<u8>,
}

impl View for Packed {
    type V = PackedView;

    open spec fn view(&self) -> PackedView {
        PackedView {
            name: self.name@,
            stored: self.stored,
            directory: self.directory,
            bytes: self.bytes@,
        }
    }
}

impl DeepView for Packed {
    type V = PackedView;

    open spec fn deep_view(&self) -> PackedView {
        self@
    }
}

/// A member as it comes out of an archive it was put into: a folder has a slash
/// at its end and holds nothing.
pub open spec fn packed_as(member: PackedView) -> PackedView {
    if member.directory {
        PackedView {
            name: folder_name(member.name),
            stored: true,
            directory: true,
            bytes: Seq::empty(),
        }
    } else {
        member
    }
}

pub open spec fn packed_all(members: Seq<PackedView>) -> Seq<PackedView> {
    Seq::new(members.len(), |i: int| packed_as(members[i]))
}

/// Whether some members can be put into one archive: their names differ and are
/// short, and together they are not too large.
pub open spec fn packable(members: Seq<PackedView>) -> bool {
    &&& weight(members) < ROOM
    &&& forall|i: int| 0 <= i < members.len() ==> short((#[trigger] members[i]).name)
    &&& forall|i: int, j: int|
        0 <= i < j < members.len() ==> (#[trigger] members[i]).name != (#[trigger] members[j]).name
}

proof fn parts_weigh_less(members: Seq<PackedView>, n: int)
    requires
        0 <= n <= members.len(),
    ensures
        weight(members.take(n)) <= weight(members),
        n < members.len() ==> weight(members.take(n)) + members[n].bytes.len() <= weight(members),
    decreases members.len() - n,
{
    if n < members.len() {
        assert(members.take(n + 1).drop_last() =~= members.take(n));
        parts_weigh_less(members, n + 1);
    } else {
        assert(members.take(n) =~= members);
    }
}

/// Make an archive of some members, which fails only where they do not fit.
pub fn pack(members: &Vec<Packed>) -> (r: Result<Vec<u8>, String>)
    ensures
        match r {
            Ok(data) => holds(data@, packed_all(members.deep_view())),
            Err(_) => !packable(packed_all(members.deep_view())),
        },
{
    let mut packer = new_packer();
    let ghost all = packed_all(members.deep_view());
    proof {
        assert(all.take(0) =~= Seq::<PackedView>::empty());
    }
    for i in 0..members.len()
        invariant
            all == packed_all(members.deep_view()),
            sound(packer),
            packed(packer) == all.take(i as int),
    {
        let member = &members[i];
        proof {
            assert(members.deep_view()[i as int] == member@);
            assert(all.take(i as int + 1) =~= all.take(i as int).push(packed_as(member@)));
            parts_weigh_less(all, i as int);
            if packable(all) {
                assert(short(all[i as int].name));
                assert forall|j: int| 0 <= j < i implies (#[trigger] all.take(i as int)[j]).name
                    != all[i as int].name by {
                    assert(all[j].name != all[i as int].name);
                }
                assert(takes(all.take(i as int), all[i as int].name));
            }
        }
        let added = if member.directory {
            add_directory(&mut packer, member.name.as_str())
        } else {
            add_member(&mut packer, member.name.as_str(), member.stored, member.bytes.as_slice())
        };
        if let Err(words) = added {
            return Err(words);
        }
    }
    proof {
        assert(all.take(all.len() as int) =~= all);
    }
    finish_packer(packer)
}

} // verus!
