//! The rules by which the partitions of a topic are shared out among its
//! consumers, and the facts that joins and leaves keep.

use vstd::prelude::*;
use vstd::set_lib::{lemma_int_range, lemma_subset_equality, set_int_range};

verus! {

/// A member of a topic's consumer group, as the contracts see it.
pub struct MemberView {
    pub id: Seq<char>,
    /// The partitions that the member reads, in the order in which it got them.
    pub assigned: Seq<int>,
    pub last_accessed: int,
}

/// Slot `s` of member `j` exists.
pub open spec fn is_slot(members: Seq<MemberView>, j: int, s: int) -> bool {
    0 <= j < members.len() && 0 <= s < members[j].assigned.len()
}

/// The rules of a consumer group over `count` partitions. An empty group is
/// in order. Otherwise it has at most `count` members, every member but the
/// first holds exactly one partition, the assignments number `count` in all,
/// each is a partition index, and no index is assigned twice.
pub open spec fn group_ok(members: Seq<MemberView>, count: int) -> bool {
    members.len() == 0 || {
        &&& members.len() <= count
        &&& forall|j: int| 1 <= j < members.len() ==> (#[trigger] members[j]).assigned.len() == 1
        &&& members[0].assigned.len() + members.len() - 1 == count
        &&& forall|j: int, s: int|
            is_slot(members, j, s) ==> 0 <= #[trigger] members[j].assigned[s] < count
        &&& forall|j1: int, s1: int, j2: int, s2: int|
            is_slot(members, j1, s1) && is_slot(members, j2, s2)
                && #[trigger] members[j1].assigned[s1] == #[trigger] members[j2].assigned[s2]
                ==> j1 == j2 && s1 == s2
    }
}

/// Some member of the group reads partition `p`.
pub open spec fn reads(members: Seq<MemberView>, p: int) -> bool {
    exists|j: int, s: int| is_slot(members, j, s) && #[trigger] members[j].assigned[s] == p
}

/// The partition indices `0, 1, .., count - 1`.
pub open spec fn all_partitions(count: int) -> Seq<int> {
    Seq::new(count as nat, |i: int| i)
}

/// A group takes a new member while it is empty or smaller than the number
/// of partitions.
pub open spec fn has_room(members: Seq<MemberView>, count: int) -> bool {
    members.len() == 0 || members.len() < count
}

/// The group after `id` joined. The first member of a group gets every
/// partition. A later one gets the partition that the first member got last,
/// and the first member loses it.
pub open spec fn joined(members: Seq<MemberView>, count: int, id: Seq<char>) -> Seq<MemberView> {
    if members.len() == 0 {
        seq![MemberView { id, assigned: all_partitions(count), last_accessed: -1 }]
    } else {
        let first = members[0];
        members.update(
            0,
            MemberView {
                id: first.id,
                assigned: first.assigned.drop_last(),
                last_accessed: first.last_accessed,
            },
        ).push(MemberView { id, assigned: seq![first.assigned.last()], last_accessed: -1 })
    }
}

/// Some member of the group has this id.
pub open spec fn has_member(members: Seq<MemberView>, id: Seq<char>) -> bool {
    exists|j: int| 0 <= j < members.len() && (#[trigger] members[j]).id == id
}

/// Member `j` is the first of the group with this id.
pub open spec fn is_first_member(members: Seq<MemberView>, id: Seq<char>, j: int) -> bool {
    &&& 0 <= j < members.len()
    &&& members[j].id == id
    &&& forall|i: int| 0 <= i < j ==> (#[trigger] members[i]).id != id
}

/// The position of the first member with this id. Meaningful when
/// `has_member(members, id)`.
pub open spec fn first_member(members: Seq<MemberView>, id: Seq<char>) -> int {
    choose|j: int| is_first_member(members, id, j)
}

/// The group after the member at `index` left. The last member leaves an
/// empty group behind. Otherwise the member is taken out and its partitions
/// are appended to those of the first member that remains.
pub open spec fn without(members: Seq<MemberView>, index: int) -> Seq<MemberView> {
    if members.len() <= 1 {
        Seq::empty()
    } else {
        let rest = members.remove(index);
        rest.update(
            0,
            MemberView {
                id: rest[0].id,
                assigned: rest[0].assigned + members[index].assigned,
                last_accessed: rest[0].last_accessed,
            },
        )
    }
}

/// The group after the first member with this id left.
pub open spec fn left(members: Seq<MemberView>, id: Seq<char>) -> Seq<MemberView> {
    without(members, first_member(members, id))
}

/// The group after every member with this id left, one after the other and
/// the first one first. A session that joined a topic more than once is a
/// member as often, and leaves as often.
pub open spec fn cleared_of(members: Seq<MemberView>, id: Seq<char>) -> Seq<MemberView>
    decreases members.len(),
{
    if has_member(members, id) {
        proof {
            lemma_first_member_exists(members, id);
        }
        cleared_of(left(members, id), id)
    } else {
        members
    }
}

/// The first member with an id is found at one position only.
pub proof fn lemma_first_member_unique(members: Seq<MemberView>, id: Seq<char>, j: int)
    requires
        is_first_member(members, id, j),
    ensures
        has_member(members, id),
        first_member(members, id) == j,
{
    let c = first_member(members, id);
    assert(is_first_member(members, id, c));
    if c < j {
        assert(members[c].id != id);
    } else if j < c {
        assert(members[j].id != id);
    }
}

/// A group with a member of this id has a first such member.
pub proof fn lemma_first_member_exists(members: Seq<MemberView>, id: Seq<char>)
    requires
        has_member(members, id),
    ensures
        is_first_member(members, id, first_member(members, id)),
    decreases members.len(),
{
    let j = choose|j: int| 0 <= j < members.len() && (#[trigger] members[j]).id == id;
    lemma_first_below(members, id, j);
}

proof fn lemma_first_below(members: Seq<MemberView>, id: Seq<char>, j: int)
    requires
        0 <= j < members.len(),
        members[j].id == id,
    ensures
        is_first_member(members, id, first_member(members, id)),
    decreases j,
{
    if exists|i: int| 0 <= i < j && (#[trigger] members[i]).id == id {
        let i = choose|i: int| 0 <= i < j && (#[trigger] members[i]).id == id;
        lemma_first_below(members, id, i);
    } else {
        assert(is_first_member(members, id, j));
    }
}

/// Joining keeps the rules of the group: after a join every partition is
/// still assigned to exactly one member.
pub proof fn lemma_join_keeps_group(members: Seq<MemberView>, count: int, id: Seq<char>)
    requires
        1 <= count,
        group_ok(members, count),
        has_room(members, count),
    ensures
        group_ok(joined(members, count, id), count),
        joined(members, count, id).len() == members.len() + 1,
{
    let after = joined(members, count, id);
    if members.len() == 0 {
        assert(after[0].assigned.len() == count);
        assert forall|j1: int, s1: int, j2: int, s2: int|
            is_slot(after, j1, s1) && is_slot(after, j2, s2) && #[trigger] after[j1].assigned[s1]
                == #[trigger] after[j2].assigned[s2] implies j1 == j2 && s1 == s2 by {
            assert(after[j1].assigned[s1] == s1);
            assert(after[j2].assigned[s2] == s2);
        }
    } else {
        let n = members.len() as int;
        let last = members[0].assigned.len() - 1;
        assert(last >= 1);
        assert forall|j: int| 1 <= j < after.len() implies (#[trigger] after[j]).assigned.len()
            == 1 by {
            if j < n {
                assert(after[j] == members[j]);
            }
        }
        assert forall|j: int, s: int| is_slot(after, j, s) implies 0
            <= #[trigger] after[j].assigned[s] < count by {
            if j == n {
                assert(is_slot(members, 0, last));
                assert(after[j].assigned[s] == members[0].assigned[last]);
            } else {
                assert(is_slot(members, j, s));
                assert(after[j].assigned[s] == members[j].assigned[s]);
            }
        }
        assert forall|j1: int, s1: int, j2: int, s2: int|
            is_slot(after, j1, s1) && is_slot(after, j2, s2) && #[trigger] after[j1].assigned[s1]
                == #[trigger] after[j2].assigned[s2] implies j1 == j2 && s1 == s2 by {
            let (a1, b1) = if j1 == n {
                (0int, last)
            } else {
                (j1, s1)
            };
            let (a2, b2) = if j2 == n {
                (0int, last)
            } else {
                (j2, s2)
            };
            assert(is_slot(members, a1, b1));
            assert(is_slot(members, a2, b2));
            assert(after[j1].assigned[s1] == members[a1].assigned[b1]);
            assert(after[j2].assigned[s2] == members[a2].assigned[b2]);
        }
    }
}

/// A leave keeps the rules of the group: the partitions of the member that
/// left go to the first member that remains, and every partition is still
/// assigned to exactly one member, unless the group is empty now.
pub proof fn lemma_leave_keeps_group(members: Seq<MemberView>, count: int, index: int)
    requires
        group_ok(members, count),
        0 <= index < members.len(),
    ensures
        group_ok(without(members, index), count),
        without(members, index).len() == if members.len() <= 1 {
            0
        } else {
            members.len() - 1
        },
{
    let after = without(members, index);
    if members.len() >= 2 {
        let n = members.len() as int;
        let rest = members.remove(index);
        let kept = rest[0].assigned.len() as int;
        // where slot (j, s) of the new group stood in the old one
        let from = |j: int, s: int|
            if j == 0 && s >= kept {
                (index, s - kept)
            } else if j < index {
                (j, s)
            } else {
                (j + 1, s)
            };
        assert forall|j: int, s: int| is_slot(after, j, s) implies is_slot(
            members,
            from(j, s).0,
            from(j, s).1,
        ) && #[trigger] after[j].assigned[s] == members[from(j, s).0].assigned[from(j, s).1] by {
            if j == 0 {
                assert(after[0].assigned == rest[0].assigned + members[index].assigned);
            } else {
                assert(after[j] == rest[j]);
            }
        }
        assert forall|j: int| 1 <= j < after.len() implies (#[trigger] after[j]).assigned.len()
            == 1 by {
            assert(after[j] == rest[j]);
            if j < index {
                assert(rest[j] == members[j]);
            } else {
                assert(rest[j] == members[j + 1]);
            }
        }
        assert(after[0].assigned.len() + after.len() - 1 == count) by {
            assert(after[0].assigned.len() == kept + members[index].assigned.len());
            if index == 0 {
                assert(rest[0] == members[1]);
            } else {
                assert(rest[0] == members[0]);
                assert(members[index].assigned.len() == 1);
            }
        }
        assert forall|j: int, s: int| is_slot(after, j, s) implies 0
            <= #[trigger] after[j].assigned[s] < count by {
            let (a, b) = from(j, s);
            assert(is_slot(members, a, b));
            assert(after[j].assigned[s] == members[a].assigned[b]);
        }
        assert forall|j1: int, s1: int, j2: int, s2: int|
            is_slot(after, j1, s1) && is_slot(after, j2, s2) && #[trigger] after[j1].assigned[s1]
                == #[trigger] after[j2].assigned[s2] implies j1 == j2 && s1 == s2 by {
            let (a1, b1) = from(j1, s1);
            let (a2, b2) = from(j2, s2);
            assert(is_slot(members, a1, b1));
            assert(is_slot(members, a2, b2));
            assert(after[j1].assigned[s1] == members[a1].assigned[b1]);
            assert(after[j2].assigned[s2] == members[a2].assigned[b2]);
            assert(a1 == a2 && b1 == b2);
            if j1 == 0 && s1 < kept && index == 0 {
                assert(rest[0] == members[1]);
            }
            if j2 == 0 && s2 < kept && index == 0 {
                assert(rest[0] == members[1]);
            }
        }
    }
}

/// What a member held when it left is read by the first member that remains.
pub proof fn lemma_leave_hands_over(members: Seq<MemberView>, index: int, s: int)
    requires
        2 <= members.len(),
        is_slot(members, index, s),
    ensures
        reads(without(members, index), members[index].assigned[s]),
{
    let after = without(members, index);
    let rest = members.remove(index);
    let kept = rest[0].assigned.len() as int;
    assert(after[0].assigned == rest[0].assigned + members[index].assigned);
    assert(is_slot(after, 0, kept + s));
    assert(after[0].assigned[kept + s] == members[index].assigned[s]);
}

/// In a group that is in order and not empty, every partition is read by some
/// member.
pub proof fn lemma_group_covers(members: Seq<MemberView>, count: int)
    requires
        group_ok(members, count),
        members.len() > 0,
    ensures
        forall|p: int| 0 <= p < count ==> reads(members, p),
{
    let n = members.len() as int;
    let first = members[0].assigned;
    let others = Seq::new((n - 1) as nat, |j: int| members[j + 1].assigned[0]);
    let all = first + others;
    assert(all.len() == count);
    // where position `i` of `all` stands in the group
    let slot_of = |i: int|
        if i < first.len() {
            (0int, i)
        } else {
            (i - first.len() + 1, 0int)
        };
    assert forall|i: int| 0 <= i < all.len() implies is_slot(members, slot_of(i).0, slot_of(i).1)
        && #[trigger] all[i] == members[slot_of(i).0].assigned[slot_of(i).1] by {
        if i >= first.len() {
            assert(members[i - first.len() + 1].assigned.len() == 1);
        }
    }
    assert forall|i: int, j: int| 0 <= i < all.len() && 0 <= j < all.len() && i != j implies all[i]
        != all[j] by {
        let (a1, b1) = slot_of(i);
        let (a2, b2) = slot_of(j);
        assert(is_slot(members, a1, b1) && all[i] == members[a1].assigned[b1]);
        assert(is_slot(members, a2, b2) && all[j] == members[a2].assigned[b2]);
    }
    assert(all.no_duplicates());
    all.unique_seq_to_set();
    vstd::seq_lib::seq_to_set_is_finite(all);
    lemma_int_range(0, count);
    let range = set_int_range(0, count);
    assert(all.to_set().subset_of(range)) by {
        assert forall|p: int| all.to_set().contains(p) implies range.contains(p) by {
            let i = choose|i: int| 0 <= i < all.len() && all[i] == p;
            assert(is_slot(members, slot_of(i).0, slot_of(i).1));
        }
    }
    lemma_subset_equality(all.to_set(), range);
    assert forall|p: int| 0 <= p < count implies reads(members, p) by {
        assert(range.contains(p));
        assert(all.to_set().contains(p));
        let i = choose|i: int| 0 <= i < all.len() && all[i] == p;
        let (a, b) = slot_of(i);
        assert(is_slot(members, a, b) && members[a].assigned[b] == p);
    }
}

/// Clearing a group of an id keeps the rules of the group. No member with
/// the id is left, a group that held none is unchanged, and a group whose
/// every member had the id is empty.
pub proof fn lemma_cleared_keeps_group(members: Seq<MemberView>, count: int, id: Seq<char>)
    requires
        group_ok(members, count),
    ensures
        group_ok(cleared_of(members, id), count),
        !has_member(cleared_of(members, id), id),
        cleared_of(members, id).len() <= members.len(),
        !has_member(members, id) ==> cleared_of(members, id) == members,
        has_member(members, id) ==> cleared_of(members, id).len() < members.len(),
    decreases members.len(),
{
    if has_member(members, id) {
        lemma_first_member_exists(members, id);
        let index = first_member(members, id);
        lemma_leave_keeps_group(members, count, index);
        lemma_cleared_keeps_group(without(members, index), count, id);
    }
}

} // verus!
