//! File names are safe, and say what they are names of.
use super::{bad, edge, file_named, masked, peeled, peeled_end, peeled_start, shrunk, titled};
use crate::text;
use crate::text::bytes_utf8;
use vstd::prelude::*;

verus! {

broadcast use vstd::string::group_string_axioms;

/// Whether nothing in a name is refused by a card, and no space or full stop stands at
/// either end.
pub open spec fn safe(name: Seq<char>) -> bool {
    &&& name.len() > 0
    &&& name[0] != '.' && name[0] != ' '
    &&& name.last() != '.' && name.last() != ' '
    &&& forall|i: int|
        0 <= i < name.len() ==> !text::control(#[trigger] name[i]) && name[i] != '/' && name[i]
            != '\\' && name[i] != ':' && name[i] != '*' && name[i] != '?' && name[i] != '"'
            && name[i] != '<' && name[i] != '>' && name[i] != '|'
}

spec fn clean(s: Seq<char>) -> bool {
    forall|i: int| 0 <= i < s.len() ==> !bad(#[trigger] s[i])
}

proof fn shrinking_takes_the_start(s: Seq<char>, limit: nat)
    ensures
        shrunk(s, limit).len() <= s.len(),
        shrunk(s, limit) == s.take(shrunk(s, limit).len() as int),
    decreases s.len(),
{
    if s.len() > 0 && bytes_utf8(s) > limit {
        shrinking_takes_the_start(s.drop_last(), limit);
        let n = shrunk(s, limit).len() as int;
        assert(s.drop_last().take(n) =~= s.take(n));
    } else {
        assert(s.take(s.len() as int) =~= s);
    }
}

proof fn peeling_the_start(s: Seq<char>)
    ensures
        clean(s) ==> clean(peeled_start(s, false)),
        peeled_start(s, false).len() > 0 ==> !edge(peeled_start(s, false)[0], false),
        peeled_start(s, false).len() <= s.len(),
    decreases s.len(),
{
    if s.len() > 0 && edge(s[0], false) {
        if clean(s) {
            assert forall|i: int| 0 <= i < s.drop_first().len() implies !bad(
                #[trigger] s.drop_first()[i],
            ) by {
                assert(s.drop_first()[i] == s[i + 1]);
            }
        }
        peeling_the_start(s.drop_first());
    }
}

proof fn peeling_the_end(s: Seq<char>)
    ensures
        clean(s) ==> clean(peeled_end(s, false)),
        peeled_end(s, false).len() > 0 ==> !edge(peeled_end(s, false).last(), false)
            && peeled_end(s, false)[0] == s[0],
        peeled_end(s, false).len() <= s.len(),
    decreases s.len(),
{
    if s.len() > 0 && edge(s.last(), false) {
        if clean(s) {
            assert forall|i: int| 0 <= i < s.drop_last().len() implies !bad(
                #[trigger] s.drop_last()[i],
            ) by {
                assert(s.drop_last()[i] == s[i]);
            }
        }
        peeling_the_end(s.drop_last());
    }
}

/// Whatever a book is called, its file name is safe and short.
pub proof fn titles_make_safe_names(title: Seq<char>)
    ensures
        safe(titled(title)),
        titled(title).len() <= 80,
{
    let whole = masked(title);
    let start = if whole.len() < 80 {
        whole
    } else {
        whole.take(80)
    };
    reveal_strlit("Book");
    assert(clean(whole)) by {
        assert forall|i: int| 0 <= i < whole.len() implies !bad(#[trigger] whole[i]) by {}
    }
    let short = shrunk(start, 180);
    shrinking_takes_the_start(start, 180);
    assert forall|i: int| 0 <= i < short.len() implies !bad(#[trigger] short[i]) by {
        assert(short[i] == whole[i]);
    }
    peeling_the_start(short);
    peeling_the_end(peeled_start(short, false));
    let name = peeled(short, false);
    if name.len() > 0 {
        assert forall|i: int| 0 <= i < name.len() implies !text::control(#[trigger] name[i])
            && name[i] != '/' && name[i] != '\\' && name[i] != ':' && name[i] != '*' && name[i]
            != '?' && name[i] != '"' && name[i] != '<' && name[i] != '>' && name[i] != '|' by {
            assert(!bad(name[i]));
        }
    }
}

/// A title that is a safe name already, and short, stays as it is.
pub proof fn safe_titles_stay(title: Seq<char>)
    requires
        safe(title),
        title.len() < 80,
        bytes_utf8(title) <= 180,
    ensures
        titled(title) == title,
{
    assert(masked(title) =~= title) by {
        assert forall|i: int| 0 <= i < title.len() implies !bad(#[trigger] title[i]) by {
            assert(!text::control(title[i]));
        }
    }
}

/// A file is named by what it holds and ends as its kind does, so that different contents
/// have different names.
pub proof fn files_are_named_by_contents(
    title: Seq<char>,
    id: Seq<char>,
    other: Seq<char>,
    extension: Seq<char>,
)
    requires
        id.len() >= 12,
        other.len() >= 12,
    ensures
        text::ends(file_named(title, id, extension), "."@ + extension),
        file_named(title, id, extension) == file_named(title, other, extension) ==> id.take(12)
            == other.take(12),
        text::starts(file_named(title, id, extension), titled(title)),
{
    reveal_strlit("].");
    reveal_strlit(".");
    reveal_strlit(" [");
    let a = file_named(title, id, extension);
    let b = file_named(title, other, extension);
    let n = titled(title).len() as int;
    let tail = "."@ + extension;
    assert(a.subrange(a.len() - tail.len(), a.len() as int) =~= tail);
    assert(a.subrange(0, n) =~= titled(title));
    assert(a.subrange(n + 2, n + 14) =~= id.take(12));
    assert(b.subrange(n + 2, n + 14) =~= other.take(12));
}

/// A character that no card takes becomes an underscore, and every other stays.
pub proof fn characters_are_masked_one_by_one(s: Seq<char>, i: int)
    requires
        0 <= i < s.len(),
    ensures
        masked(s).len() == s.len(),
        bad(s[i]) ==> masked(s)[i] == '_',
        !bad(s[i]) ==> masked(s)[i] == s[i],
        s[i] == '/' || s[i] == '\\' || s[i] == ':' || s[i] == '*' || s[i] == '?' || s[i] == '"'
            || s[i] == '<' || s[i] == '>' || s[i] == '|' ==> masked(s)[i] == '_',
{
}

} // verus!
