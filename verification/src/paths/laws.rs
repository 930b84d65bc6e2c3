//! What cutting, joining and walking paths keeps.
use super::{
    bare, below, between, inside, lies_in, name_of, parent_of, rootless, split, walked,
};
use crate::text;
use vstd::prelude::*;

verus! {

broadcast use vstd::string::group_string_axioms;

/// A text that is cut at a character is whole again when its pieces are joined with that
/// character, and no piece holds it.
pub proof fn pieces_make_the_text(s: Seq<char>, c: char)
    ensures
        split(s, c).len() > 0,
        between(split(s, c), seq![c]) == s,
        forall|k: int, i: int|
            0 <= k < split(s, c).len() && 0 <= i < split(s, c)[k].len() ==> #[trigger] split(
                s,
                c,
            )[k][i] != c,
    decreases s.len(),
{
    text::last_index_range(s, c);
    let i = text::last_index(s, c);
    if 0 <= i < s.len() {
        pieces_make_the_text(s.take(i), c);
        let before = split(s.take(i), c);
        assert(split(s, c) =~= before.push(s.skip(i + 1)));
        assert(split(s, c).drop_last() =~= before);
        assert(s =~= s.take(i) + seq![c] + s.skip(i + 1));
        assert forall|k: int, j: int|
            0 <= k < split(s, c).len() && 0 <= j < split(s, c)[k].len() implies #[trigger] split(
            s,
            c,
        )[k][j] != c by {
            if k < before.len() {
                assert(split(s, c)[k] == before[k]);
                assert(before[k][j] != c);
            } else {
                assert(split(s, c)[k][j] == s[i + 1 + j]);
            }
        }
    }
}

/// Whether a text can be the name of something in a folder.
pub open spec fn plain_name(name: Seq<char>) -> bool {
    &&& name.len() > 0
    &&& name != "."@
    &&& name != ".."@
    &&& forall|i: int| 0 <= i < name.len() ==> #[trigger] name[i] != '/'
}

proof fn last_slash(front: Seq<char>, name: Seq<char>)
    requires
        forall|i: int| 0 <= i < name.len() ==> #[trigger] name[i] != '/',
    ensures
        text::last_index(front + "/"@ + name, '/') == front.len(),
{
    reveal_strlit("/");
    let whole = front + "/"@ + name;
    text::last_index_range(whole, '/');
    assert(whole[front.len() as int] == '/');
    let i = text::last_index(whole, '/');
    if i > front.len() {
        assert(whole[i] == name[i - front.len() - 1]);
    }
}

/// What is put into a folder has its name there, and the folder, less its slashes, is
/// where it stands.
pub proof fn a_file_is_in_its_folder(folder: Seq<char>, name: Seq<char>)
    requires
        plain_name(name),
    ensures
        name_of(inside(folder, name)) == Some(name),
        parent_of(inside(folder, name)) == bare(folder),
        lies_in(inside(folder, name), folder),
{
    reveal_strlit("/");
    let front = bare(folder);
    let whole = inside(folder, name);
    last_slash(front, name);
    assert(whole.skip(front.len() as int + 1) =~= name);
    assert(whole.take(front.len() as int) =~= front);
    assert(whole.subrange(0, front.len() as int + 1) =~= front + "/"@);
}

/// A file beside a folder is not in it, though its path starts with the same letters.
pub proof fn a_neighbour_is_not_in_the_folder(folder: Seq<char>, c: char, rest: Seq<char>)
    requires
        folder.len() > 0,
        folder.last() != '/',
        c != '/',
    ensures
        !lies_in(folder.push(c) + rest, folder),
        !lies_in(folder.drop_last(), folder),
{
    reveal_strlit("/");
    let path = folder.push(c) + rest;
    let n = folder.len() as int;
    assert(bare(folder) == folder);
    assert(path[n] == c);
    assert((folder + "/"@)[n] == '/');
    assert(path.len() > folder.len());
    if text::starts(path, folder + "/"@) {
        assert(path.subrange(0, n + 1)[n] == path[n]);
    }
}

/// A folder loses the slashes it ends with and nothing else.
pub proof fn only_slashes_are_taken_off_the_end(s: Seq<char>)
    ensures
        bare(s).len() <= s.len(),
        s.take(bare(s).len() as int) == bare(s),
        bare(s).len() > 0 ==> bare(s).last() != '/',
        forall|i: int| bare(s).len() <= i < s.len() ==> #[trigger] s[i] == '/',
    decreases s.len(),
{
    if s.len() > 0 && s.last() == '/' {
        let less = s.drop_last();
        only_slashes_are_taken_off_the_end(less);
        assert(s.take(bare(s).len() as int) =~= less.take(bare(s).len() as int));
        assert forall|i: int| bare(s).len() <= i < s.len() implies #[trigger] s[i] == '/' by {
            if i < less.len() {
                assert(less[i] == s[i]);
            }
        }
    } else {
        assert(s.take(s.len() as int) =~= s);
    }
}

/// A path loses the slashes it starts with and nothing else.
pub proof fn only_slashes_are_taken_off_the_start(s: Seq<char>)
    ensures
        rootless(s).len() <= s.len(),
        s.skip(s.len() - rootless(s).len()) == rootless(s),
        rootless(s).len() > 0 ==> rootless(s)[0] != '/',
        forall|i: int| 0 <= i < s.len() - rootless(s).len() ==> #[trigger] s[i] == '/',
    decreases s.len(),
{
    if s.len() > 0 && s[0] == '/' {
        let less = s.drop_first();
        only_slashes_are_taken_off_the_start(less);
        assert(s.skip(s.len() - rootless(s).len()) =~= less.skip(less.len() - rootless(s).len()));
        assert forall|i: int| 0 <= i < s.len() - rootless(s).len() implies #[trigger] s[i]
            == '/' by {
            if i > 0 {
                assert(less[i - 1] == s[i]);
            }
        }
    } else {
        assert(s.skip(0) =~= s);
    }
}

/// A path that starts at the root leads there from everywhere; any other leads on from
/// the folder.
pub proof fn a_path_leads_on_from_its_folder(folder: Seq<char>, path: Seq<char>)
    ensures
        path.len() > 0 && path[0] == '/' ==> below(folder, path) == path,
        folder.len() > 0 && folder.last() != '/' && !(path.len() > 0 && path[0] == '/') ==> below(
            folder,
            path,
        ) == inside(folder, path),
        folder.len() > 0 && !(path.len() > 0 && path[0] == '/') ==> below(folder, path).take(
            folder.len() as int,
        ) == folder,
{
    if folder.len() > 0 && !(path.len() > 0 && path[0] == '/') {
        assert(below(folder, path).take(folder.len() as int) =~= folder);
    }
}

/// A path that was walked goes nowhere up and has no empty part.
pub proof fn what_was_walked_goes_down(parts: Seq<Seq<char>>, strict: bool)
    ensures
        walked(parts, strict) matches Some(way) ==> forall|i: int|
            0 <= i < way.len() ==> (#[trigger] way[i]).len() > 0 && way[i] != "."@ && way[i]
                != ".."@,
    decreases parts.len(),
{
    if parts.len() > 0 {
        what_was_walked_goes_down(parts.drop_last(), strict);
    }
}

/// Going into a folder and up again leads back to where one was.
pub proof fn up_undoes_down(parts: Seq<Seq<char>>, part: Seq<char>, strict: bool)
    requires
        part.len() > 0,
        part != "."@,
        part != ".."@,
    ensures
        walked(parts.push(part).push(".."@), strict) == walked(parts, strict),
        walked(parts, strict) matches Some(way) ==> walked(parts.push(part), strict) == Some(
            way.push(part),
        ),
        walked(parts.push("."@), strict) == walked(parts, strict),
        walked(parts.push(""@), strict) == walked(parts, strict),
{
    reveal_strlit("");
    reveal_strlit(".");
    reveal_strlit("..");
    let down = parts.push(part);
    let back = down.push(".."@);
    assert(down.drop_last() =~= parts);
    assert(back.drop_last() =~= down);
    assert(parts.push("."@).drop_last() =~= parts);
    assert(parts.push(""@).drop_last() =~= parts);
    assert("."@.len() == 1 && ".."@.len() == 2);
    if let Some(way) = walked(parts, strict) {
        assert(way.push(part).drop_last() =~= way);
    }
}

/// From the top there is no way up: a strict walk is refused and any other stays there.
pub proof fn nothing_is_above_the_top(parts: Seq<Seq<char>>)
    requires
        walked(parts, false) == Some(Seq::<Seq<char>>::empty()),
    ensures
        walked(parts.push(".."@), true) is None,
        walked(parts.push(".."@), false) == Some(Seq::<Seq<char>>::empty()),
{
    reveal_strlit(".");
    reveal_strlit("..");
    assert("."@.len() == 1 && ".."@.len() == 2);
    assert(parts.push(".."@).drop_last() =~= parts);
    strict_walks_the_same(parts);
}

proof fn strict_walks_the_same(parts: Seq<Seq<char>>)
    ensures
        walked(parts, true) is Some ==> walked(parts, true) == walked(parts, false),
    decreases parts.len(),
{
    if parts.len() > 0 {
        strict_walks_the_same(parts.drop_last());
    }
}

} // verus!
