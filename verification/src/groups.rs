//! Group control planning: finding a named group in a bridge's group list
//! and deciding the power command to issue. The network round trips happen
//! outside; these functions fix what is sent for every possible reply.

use vstd::prelude::*;

use crate::errors::GroupError;
use crate::text::str_eq;
use crate::BridgeInfo;

verus! {

/// One group as the bridge reports it: its identifier, display name, and
/// whether all of its lights are currently on.
#[verifier::ext_equal]
pub struct Group {
    pub id: usize,
    pub name: String,
    pub all_on: bool,
}

/// A state-transition command for one group: set every light on or off.
#[derive(Clone, Copy, Debug, PartialEq, Eq, Structural)]
pub struct GroupCommand {
    pub group_id: usize,
    pub on: bool,
}

/// A stateless handle for issuing commands: the bridge address and the
/// client token, copied out of a credential. No network call is made here.
pub struct Session {
    pub ip_addr: String,
    pub client_token: String,
}

/// Open a session from a credential. Pure construction.
pub fn open_session(info: &BridgeInfo) -> (s: Session)
    ensures
        s.ip_addr@ == info.ip_addr@,
        s.client_token@ == info.client_token@,
{
    Session { ip_addr: info.ip_addr.clone(), client_token: info.client_token.clone() }
}

/// `i` is the position of the first group carrying `name`.
pub open spec fn is_first_match(groups: Seq<Group>, name: Seq<char>, i: int) -> bool {
    &&& 0 <= i < groups.len()
    &&& groups[i].name@ == name
    &&& forall|j: int| 0 <= j < i ==> groups[j].name@ != name
}

pub open spec fn has_match(groups: Seq<Group>, name: Seq<char>) -> bool {
    exists|i: int| 0 <= i < groups.len() && groups[i].name@ == name
}

/// The position of the first group carrying `name`; meaningful only when
/// `has_match` holds.
pub open spec fn first_match(groups: Seq<Group>, name: Seq<char>) -> int {
    choose|i: int| is_first_match(groups, name, i)
}

pub proof fn lemma_first_match_unique(groups: Seq<Group>, name: Seq<char>, i: int)
    requires
        is_first_match(groups, name, i),
    ensures
        first_match(groups, name) == i,
{
    let j = first_match(groups, name);
    assert(is_first_match(groups, name, j));
    if i < j {
        assert(groups[i].name@ != name);
    } else if j < i {
        assert(groups[j].name@ != name);
    }
}

proof fn lemma_first_match_from(groups: Seq<Group>, name: Seq<char>, k: int)
    requires
        0 <= k < groups.len(),
        groups[k].name@ == name,
    ensures
        is_first_match(groups, name, first_match(groups, name)),
    decreases k,
{
    if forall|j: int| 0 <= j < k ==> groups[j].name@ != name {
        assert(is_first_match(groups, name, k));
    } else {
        let j = choose|j: int| 0 <= j < k && groups[j].name@ == name;
        lemma_first_match_from(groups, name, j);
    }
}

pub proof fn lemma_exists_first_match(groups: Seq<Group>, name: Seq<char>)
    requires
        has_match(groups, name),
    ensures
        is_first_match(groups, name, first_match(groups, name)),
{
    let k = choose|i: int| 0 <= i < groups.len() && groups[i].name@ == name;
    lemma_first_match_from(groups, name, k);
}

/// The position of the first group named `name`, or `None` when no group
/// carries that name.
fn find_group(groups: &Vec<Group>, name: &str) -> (r: Option<usize>)
    ensures
        match r {
            Some(i) => is_first_match(groups@, name@, i as int) && i as int == first_match(
                groups@,
                name@,
            ),
            None => !has_match(groups@, name@),
        },
{
    let n: usize = groups.len();
    for idx in 0..n
        invariant
            n == groups@.len(),
            forall|j: int| 0 <= j < idx ==> groups@[j].name@ != name@,
    {
        if str_eq(groups[idx].name.as_str(), name) {
            proof {
                assert(is_first_match(groups@, name@, idx as int));
                lemma_first_match_unique(groups@, name@, idx as int);
            }
            return Some(idx);
        }
    }
    proof {
        if has_match(groups@, name@) {
            let i = choose|i: int| 0 <= i < groups@.len() && groups@[i].name@ == name@;
            assert(groups@[i].name@ != name@);
        }
    }
    None
}

/// The command a toggle issues: the opposite of the named group's state.
pub open spec fn toggle_of(groups: Seq<Group>, name: Seq<char>) -> GroupCommand {
    let i = first_match(groups, name);
    GroupCommand { group_id: groups[i].id, on: !groups[i].all_on }
}

/// Plan a toggle of the group called `name`: the first group carrying the
/// name receives the opposite of its current power state; a missing name is
/// an error and produces no command.
pub fn toggle_command(groups: &Vec<Group>, name: &str) -> (r: Result<GroupCommand, GroupError>)
    ensures
        has_match(groups@, name@) ==> r == Ok::<GroupCommand, GroupError>(
            toggle_of(groups@, name@),
        ),
        !has_match(groups@, name@) ==> r == Err::<GroupCommand, GroupError>(GroupError::NotFound),
{
    match find_group(groups, name) {
        Some(i) => Ok(GroupCommand { group_id: groups[i].id, on: !groups[i].all_on }),
        None => Err(GroupError::NotFound),
    }
}

/// Plan an unconditional on/off command for the group called `name`.
pub fn power_command(groups: &Vec<Group>, name: &str, on: bool) -> (r: Result<
    GroupCommand,
    GroupError,
>)
    ensures
        has_match(groups@, name@) ==> r == Ok::<GroupCommand, GroupError>(
            GroupCommand { group_id: groups@[first_match(groups@, name@)].id, on },
        ),
        !has_match(groups@, name@) ==> r == Err::<GroupCommand, GroupError>(GroupError::NotFound),
{
    match find_group(groups, name) {
        Some(i) => Ok(GroupCommand { group_id: groups[i].id, on }),
        None => Err(GroupError::NotFound),
    }
}

/// How the bridge's group list changes when it applies one command: every
/// group with the commanded id takes the commanded state.
pub open spec fn apply_command(groups: Seq<Group>, c: GroupCommand) -> Seq<Group> {
    groups.map_values(
        |g: Group|
            if g.id == c.group_id {
                Group { id: g.id, name: g.name, all_on: c.on }
            } else {
                g
            },
    )
}

/// The bridge never lists one group id twice.
pub open spec fn distinct_ids(groups: Seq<Group>) -> bool {
    forall|i: int, j: int| 0 <= i < j < groups.len() ==> groups[i].id != groups[j].id
}

/// A planned toggle touches exactly the named group: the first group with
/// the name flips to the opposite state, and every group with a different id
/// is untouched.
pub proof fn lemma_toggle_touches_only_named(groups: Seq<Group>, name: Seq<char>)
    requires
        has_match(groups, name),
    ensures
        ({
            let i = first_match(groups, name);
            let c = toggle_of(groups, name);
            let after = apply_command(groups, c);
            &&& c.group_id == groups[i].id
            &&& c.on == !groups[i].all_on
            &&& after.len() == groups.len()
            &&& after[i] == Group { id: groups[i].id, name: groups[i].name, all_on: c.on }
            &&& forall|j: int|
                0 <= j < groups.len() && groups[j].id != c.group_id ==> after[j] == groups[j]
        }),
{
    lemma_exists_first_match(groups, name);
}

/// Toggling a group twice in a row, with nothing else interfering, returns
/// the whole group list to its original state.
pub proof fn lemma_toggle_twice_restores(groups: Seq<Group>, name: Seq<char>)
    requires
        has_match(groups, name),
        distinct_ids(groups),
    ensures
        ({
            let once = apply_command(groups, toggle_of(groups, name));
            apply_command(once, toggle_of(once, name)) == groups
        }),
{
    lemma_exists_first_match(groups, name);
    let i = first_match(groups, name);
    let c1 = toggle_of(groups, name);
    let once = apply_command(groups, c1);
    assert(is_first_match(once, name, i));
    lemma_first_match_unique(once, name, i);
    let c2 = toggle_of(once, name);
    let twice = apply_command(once, c2);
    assert forall|j: int| 0 <= j < groups.len() implies twice[j] == groups[j] by {
        if groups[j].id == c1.group_id {
            if j != i {
                assert(groups[j].id != groups[i].id);
            }
            assert(twice[j] =~= groups[j]);
        } else {
            assert(once[j] == groups[j]);
            assert(twice[j] == once[j]);
        }
    }
    assert(twice =~= groups);
}

} // verus!
