//! How the members of an archive are found.
use super::{bytes_of, has_member, member_at, named_bytes, opened, MemberView};
use vstd::prelude::*;

verus! {

proof fn first_of_a_name(members: Seq<MemberView>, name: Seq<char>, from: int, i: int)
    requires
        0 <= from <= i <= members.len(),
        i < members.len() ==> members[i].name == name,
        forall|k: int| from <= k < i ==> (#[trigger] members[k]).name != name,
    ensures
        member_at(members, name, from) == i,
    decreases i - from,
{
    if from < i {
        first_of_a_name(members, name, from + 1, i);
    }
}

/// A member is found by its name, and what it holds is read whole; one that cannot be
/// opened is refused.
pub proof fn a_member_is_found_by_its_name(
    data: Seq<u8>,
    members: Seq<MemberView>,
    name: Seq<char>,
    i: int,
)
    requires
        0 <= i < members.len(),
        members[i].name == name,
        forall|k: int| 0 <= k < i ==> (#[trigger] members[k]).name != name,
    ensures
        has_member(members, name),
        members[i].problem is None ==> opened(members, name) == Ok::<int, Seq<char>>(i)
            && named_bytes(data, members, name) == bytes_of(data, i as usize, u64::MAX),
        members[i].problem is Some ==> opened(members, name) is Err && named_bytes(
            data,
            members,
            name,
        ) is Err,
{
    first_of_a_name(members, name, 0, i);
}

/// What is not in an archive is not found.
pub proof fn what_is_not_there_is_not_found(
    data: Seq<u8>,
    members: Seq<MemberView>,
    name: Seq<char>,
)
    requires
        forall|k: int| 0 <= k < members.len() ==> (#[trigger] members[k]).name != name,
    ensures
        !has_member(members, name),
        opened(members, name) is Err,
        named_bytes(data, members, name) is Err,
{
    first_of_a_name(members, name, 0, members.len() as int);
}

} // verus!
