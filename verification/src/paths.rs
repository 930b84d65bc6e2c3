//! Paths written with slashes, as the devices and the local library name files.
use crate::text;
use vstd::prelude::*;

pub mod laws;

verus! {

/// A text cut at every `c`: one piece more than there are such characters.
pub open spec fn split(s: Seq<char>, c: char) -> Seq<Seq<char>>
    decreases s.len(),
{
    let i = text::last_index(s, c);
    if 0 <= i < s.len() {
        split(s.take(i), c).push(s.skip(i + 1))
    } else {
        seq![s]
    }
}

/// However a text is cut, there is at least one piece.
pub proof fn split_has_a_piece(s: Seq<char>, c: char)
    ensures
        split(s, c).len() > 0,
{
}

/// The part of a path that names something, or nothing: an empty part and a
/// dot are passed over.
pub open spec fn counts(part: Seq<char>) -> bool {
    part.len() > 0 && part != "."@
}

/// The last part of a path that names something.
pub open spec fn last_part(s: Seq<char>) -> Option<Seq<char>>
    decreases s.len(),
{
    let i = text::last_index(s, '/');
    if !(-1 <= i < s.len()) {
        None
    } else if counts(s.skip(i + 1)) {
        Some(s.skip(i + 1))
    } else if i < 0 {
        None
    } else {
        last_part(s.take(i))
    }
}

/// The name of the file a path leads to: its last part, unless that goes up.
pub open spec fn name_of(s: Seq<char>) -> Option<Seq<char>> {
    match last_part(s) {
        Some(part) => if part == ".."@ {
            None
        } else {
            Some(part)
        },
        None => None,
    }
}

fn last(s: &[char]) -> (r: Option<String>)
    ensures
        r.deep_view() == last_part(s@),
{
    let mut end: usize = s.len();
    proof {
        assert(s@.take(end as int) =~= s@);
    }
    loop
        invariant
            end <= s@.len(),
            last_part(s@) == last_part(s@.take(end as int)),
        decreases end,
    {
        let ghost cut = s@.take(end as int);
        let mut from: usize = end;
        proof {
            assert(cut.take(from as int) =~= cut);
        }
        while from > 0 && s[from - 1] != '/'
            invariant
                from <= end <= s@.len(),
                cut == s@.take(end as int),
                text::last_index(cut, '/') == text::last_index(cut.take(from as int), '/'),
            decreases from,
        {
            proof {
                assert(cut.take(from as int).drop_last() =~= cut.take(from as int - 1));
            }
            from -= 1;
        }
        proof {
            assert(text::last_index(cut, '/') == from - 1);
            assert(cut.skip(from as int) =~= s@.subrange(from as int, end as int));
        }
        let part = text::slice(s, from, end);
        if from < end && !text::same(part.as_str(), ".") {
            return Some(part);
        }
        if from == 0 {
            return None;
        }
        proof {
            assert(cut.take(from as int - 1) =~= s@.take(from as int - 1));
        }
        end = from - 1;
    }
}

/// The name of the file a path leads to.
pub fn file_name(path: &str) -> (r: Option<String>)
    ensures
        r.deep_view() == name_of(path@),
{
    let c = text::chars(path);
    match last(c.as_slice()) {
        Some(part) => if text::same(part.as_str(), "..") {
            None
        } else {
            Some(part)
        },
        None => None,
    }
}

proof fn split_push(s: Seq<char>, c: char, x: char)
    ensures
        split(s, c).len() > 0,
        x == c ==> split(s.push(x), c) == split(s, c).push(Seq::empty()),
        x != c ==> split(s.push(x), c) == split(s, c).drop_last().push(split(s, c).last().push(x)),
{
    let t = s.push(x);
    text::last_index_range(s, c);
    text::last_index_range(t, c);
    assert(t.drop_last() =~= s);
    let i = text::last_index(s, c);
    if x == c {
        assert(t.take(s.len() as int) =~= s);
        assert(t.skip(s.len() as int + 1) =~= Seq::<char>::empty());
    } else if i >= 0 {
        assert(t.take(i) =~= s.take(i));
        assert(t.skip(i + 1) =~= s.skip(i + 1).push(x));
        assert(split(s, c).drop_last() =~= split(s.take(i), c));
    } else {
        assert(split(s, c).drop_last() =~= Seq::<Seq<char>>::empty());
        assert(split(t, c) =~= split(s, c).drop_last().push(split(s, c).last().push(x)));
    }
}

/// A text cut at every `c`.
pub fn pieces(s: &str, c: char) -> (r: Vec<String>)
    ensures
        r.deep_view() == split(s@, c),
{
    let all = text::chars(s);
    let mut out: Vec<String> = Vec::new();
    let mut part = String::new();
    proof {
        assert(all@.take(0) =~= Seq::<char>::empty());
        assert(split(all@.take(0), c) =~= seq![Seq::<char>::empty()]);
        assert(out.deep_view().push(part@) =~= seq![Seq::<char>::empty()]);
    }
    for i in 0..all.len()
        invariant
            out.deep_view().push(part@) == split(all@.take(i as int), c),
    {
        let ghost so_far = out.deep_view();
        let ghost piece = part@;
        proof {
            assert(all@.take(i as int + 1) =~= all@.take(i as int).push(all@[i as int]));
            split_push(all@.take(i as int), c, all@[i as int]);
            assert(so_far.push(piece).drop_last() =~= so_far);
        }
        if all[i] == c {
            out.push(part);
            part = String::new();
            proof {
                assert(out.deep_view() =~= so_far.push(piece));
            }
        } else {
            part.push(all[i]);
        }
    }
    proof {
        assert(all@.take(all@.len() as int) =~= all@);
    }
    let ghost so_far = out.deep_view();
    let ghost piece = part@;
    out.push(part);
    proof {
        assert(out.deep_view() =~= so_far.push(piece));
    }
    out
}

/// A folder without the slashes it ends with.
pub open spec fn bare(s: Seq<char>) -> Seq<char>
    decreases s.len(),
{
    if s.len() > 0 && s.last() == '/' {
        bare(s.drop_last())
    } else {
        s
    }
}

pub fn trim_slashes(s: &str) -> (r: String)
    ensures
        r@ == bare(s@),
{
    let c = text::chars(s);
    let mut end: usize = c.len();
    proof {
        assert(c@.take(end as int) =~= c@);
    }
    while end > 0 && c[end - 1] == '/'
        invariant
            end <= c@.len(),
            bare(c@) == bare(c@.take(end as int)),
        decreases end,
    {
        proof {
            assert(c@.take(end as int).drop_last() =~= c@.take(end as int - 1));
        }
        end -= 1;
    }
    proof {
        assert(c@.take(end as int) =~= c@.subrange(0, end as int));
    }
    text::slice(c.as_slice(), 0, end)
}

/// A name inside a folder.
pub open spec fn inside(folder: Seq<char>, name: Seq<char>) -> Seq<char> {
    bare(folder) + "/"@ + name
}

pub fn join(folder: &str, name: &str) -> (r: String)
    ensures
        r@ == inside(folder@, name@),
{
    let folder = trim_slashes(folder);
    text::concat3(folder.as_str(), "/", name)
}

/// Whether a path starts at the root.
pub open spec fn absolute(s: Seq<char>) -> bool {
    s.len() > 0 && s[0] == '/'
}

pub fn is_absolute(s: &str) -> (r: bool)
    ensures
        r == absolute(s@),
{
    let c = text::chars(s);
    c.len() > 0 && c[0] == '/'
}

/// A path taken from a folder on, as a path of its own would be: one that
/// starts at the root stays as it is.
pub open spec fn below(folder: Seq<char>, path: Seq<char>) -> Seq<char> {
    if absolute(path) || folder.len() == 0 {
        path
    } else if folder.last() == '/' {
        folder + path
    } else {
        folder + "/"@ + path
    }
}

pub fn resolve(folder: &str, path: &str) -> (r: String)
    ensures
        r@ == below(folder@, path@),
{
    let c = text::chars(folder);
    if is_absolute(path) || c.len() == 0 {
        path.to_owned()
    } else if c[c.len() - 1] == '/' {
        text::concat(folder, path)
    } else {
        text::concat3(folder, "/", path)
    }
}

/// A path without the slashes it starts with.
pub open spec fn rootless(s: Seq<char>) -> Seq<char>
    decreases s.len(),
{
    if s.len() > 0 && s[0] == '/' {
        rootless(s.drop_first())
    } else {
        s
    }
}

pub fn trim_root(s: &str) -> (r: String)
    ensures
        r@ == rootless(s@),
{
    let c = text::chars(s);
    let mut i: usize = 0;
    proof {
        assert(c@.skip(0) =~= c@);
    }
    while i < c.len() && c[i] == '/'
        invariant
            i <= c@.len(),
            rootless(c@) == rootless(c@.skip(i as int)),
        decreases c@.len() - i,
    {
        proof {
            assert(c@.skip(i as int).drop_first() =~= c@.skip(i as int + 1));
        }
        i += 1;
    }
    proof {
        assert(c@.skip(i as int) =~= c@.subrange(i as int, c@.len() as int));
    }
    text::slice(c.as_slice(), i, c.len())
}

/// Whether a path starts in the home folder: a tilde by itself or before a
/// slash.
pub open spec fn at_home(s: Seq<char>) -> bool {
    s.len() > 0 && s[0] == '~' && (s.len() == 1 || s[1] == '/')
}

pub fn is_at_home(s: &str) -> (r: bool)
    ensures
        r == at_home(s@),
{
    let c = text::chars(s);
    c.len() > 0 && c[0] == '~' && (c.len() == 1 || c[1] == '/')
}

/// What follows the tilde of a path that starts in the home folder.
pub open spec fn from_home(s: Seq<char>) -> Seq<char> {
    rootless(s.skip(1))
}

pub fn after_home(s: &str) -> (r: String)
    requires
        at_home(s@),
    ensures
        r@ == from_home(s@),
{
    let c = text::chars(s);
    let rest = text::slice(c.as_slice(), 1, c.len());
    proof {
        assert(rest@ =~= s@.skip(1));
    }
    trim_root(rest.as_str())
}

/// The parts a path leads through, when each part that goes up takes the one
/// before it away. `strict` refuses to go up from the top; otherwise that is
/// passed over.
pub open spec fn walked(parts: Seq<Seq<char>>, strict: bool) -> Option<Seq<Seq<char>>>
    decreases parts.len(),
{
    if parts.len() == 0 {
        Some(Seq::empty())
    } else {
        match walked(parts.drop_last(), strict) {
            None => None,
            Some(so_far) => if !counts(parts.last()) {
                Some(so_far)
            } else if parts.last() == ".."@ {
                if so_far.len() > 0 {
                    Some(so_far.drop_last())
                } else if strict {
                    None
                } else {
                    Some(so_far)
                }
            } else {
                Some(so_far.push(parts.last()))
            },
        }
    }
}

proof fn walked_prefix(parts: Seq<Seq<char>>, strict: bool, n: int)
    requires
        0 <= n <= parts.len(),
        walked(parts.take(n), strict) is None,
    ensures
        walked(parts, strict) is None,
    decreases parts.len() - n,
{
    if n < parts.len() {
        assert(parts.take(n + 1).drop_last() =~= parts.take(n));
        walked_prefix(parts, strict, n + 1);
    } else {
        assert(parts.take(n) =~= parts);
    }
}

pub fn walk(parts: &Vec<String>, strict: bool) -> (r: Option<Vec<String>>)
    ensures
        r.deep_view() == walked(parts.deep_view(), strict),
{
    let ghost all = parts.deep_view();
    let mut out: Vec<String> = Vec::new();
    proof {
        assert(all.take(0) =~= Seq::<Seq<char>>::empty());
        assert(out.deep_view() =~= Seq::<Seq<char>>::empty());
    }
    for i in 0..parts.len()
        invariant
            all == parts.deep_view(),
            walked(all.take(i as int), strict) == Some(out.deep_view()),
    {
        let ghost so_far = out.deep_view();
        let part = parts[i].as_str();
        proof {
            assert(all.take(i as int + 1).drop_last() =~= all.take(i as int));
            assert(all[i as int] == part@);
        }
        if part.is_empty() || text::same(part, ".") {
        } else if text::same(part, "..") {
            if out.len() > 0 {
                out.pop();
                proof {
                    assert(out.deep_view() =~= so_far.drop_last());
                }
            } else if strict {
                proof {
                    walked_prefix(all, strict, i as int + 1);
                }
                return None;
            }
        } else {
            out.push(part.to_owned());
            proof {
                assert(out.deep_view() =~= so_far.push(part@));
            }
        }
    }
    proof {
        assert(all.take(all.len() as int) =~= all);
    }
    Some(out)
}

/// Parts put together with something between each two.
pub open spec fn between(parts: Seq<Seq<char>>, middle: Seq<char>) -> Seq<char>
    decreases parts.len(),
{
    if parts.len() == 0 {
        Seq::empty()
    } else if parts.len() == 1 {
        parts[0]
    } else {
        between(parts.drop_last(), middle) + middle + parts.last()
    }
}

pub fn join_with(parts: &Vec<String>, middle: &str) -> (r: String)
    ensures
        r@ == between(parts.deep_view(), middle@),
{
    if parts.len() == 0 {
        return String::new();
    }
    let ghost all = parts.deep_view();
    let mut out = parts[0].as_str().to_owned();
    proof {
        assert(all.take(1)[0] == parts@[0]@);
    }
    let mut i: usize = 1;
    while i < parts.len()
        invariant
            1 <= i <= parts@.len(),
            all == parts.deep_view(),
            out@ == between(all.take(i as int), middle@),
        decreases parts@.len() - i,
    {
        out.push_str(middle);
        out.push_str(parts[i].as_str());
        proof {
            assert(all.take(i as int + 1).drop_last() =~= all.take(i as int));
            assert(all[i as int] == parts@[i as int]@);
        }
        i += 1;
    }
    proof {
        assert(all.take(all.len() as int) =~= all);
    }
    out
}

/// Everything before the last slash.
pub open spec fn parent_of(s: Seq<char>) -> Seq<char> {
    let i = text::last_index(s, '/');
    if i < 0 {
        Seq::empty()
    } else {
        s.take(i)
    }
}

pub fn parent(s: &str) -> (r: String)
    ensures
        r@ == parent_of(s@),
{
    let c = text::chars(s);
    match text::find_last(c.as_slice(), '/') {
        Some(i) => {
            proof {
                assert(c@.take(i as int) =~= c@.subrange(0, i as int));
            }
            text::slice(c.as_slice(), 0, i)
        },
        None => String::new(),
    }
}

/// Whether a path is a folder, or lies below it; both in full.
pub open spec fn lies_in(path: Seq<char>, folder: Seq<char>) -> bool {
    path == folder || text::starts(path, bare(folder) + "/"@)
}

pub fn is_in(path: &str, folder: &str) -> (r: bool)
    ensures
        r == lies_in(path@, folder@),
{
    text::same(path, folder) || text::starts_with(
        path,
        text::concat(trim_slashes(folder).as_str(), "/").as_str(),
    )
}

} // verus!
