//! A record of who belongs to which group: pairs of user and group, in the
//! order in which they were entered.

use vstd::prelude::*;

verus! {

/// The pairs of a record as plain text.
pub open spec fn pairs(entries: Seq<(String, String)>) -> Seq<(Seq<char>, Seq<char>)> {
    entries.map_values(|p: (String, String)| (p.0@, p.1@))
}

/// The texts of a list of strings.
pub open spec fn texts(list: Seq<String>) -> Seq<Seq<char>> {
    list.map_values(|s: String| s@)
}

/// The groups that `joins` lists for `user`, in the order in which they were
/// entered.
pub open spec fn groups_of(joins: Seq<(Seq<char>, Seq<char>)>, user: Seq<char>) -> Seq<Seq<char>>
    decreases joins.len(),
{
    if joins.len() == 0 {
        Seq::empty()
    } else if joins.last().0 == user {
        groups_of(joins.drop_last(), user).push(joins.last().1)
    } else {
        groups_of(joins.drop_last(), user)
    }
}

/// Whether `joins` lists `group` for `user`.
pub open spec fn lists(joins: Seq<(Seq<char>, Seq<char>)>, user: Seq<char>, group: Seq<char>) -> bool {
    exists|k: int| 0 <= k < joins.len() && #[trigger] joins[k] == (user, group)
}

/// The groups listed for a user are the groups of the pairs that name the
/// user.
pub proof fn lemma_groups_of(joins: Seq<(Seq<char>, Seq<char>)>, user: Seq<char>, group: Seq<char>)
    ensures
        groups_of(joins, user).contains(group) <==> lists(joins, user, group),
    decreases joins.len(),
{
    if joins.len() > 0 {
        let rest = joins.drop_last();
        lemma_groups_of(rest, user, group);
        if groups_of(joins, user).contains(group) {
            if joins.last() == (user, group) {
                assert(joins[joins.len() - 1] == (user, group));
            } else {
                let listed = groups_of(joins, user);
                let at = choose|at: int| 0 <= at < listed.len() && listed[at] == group;
                if joins.last().0 == user {
                    assert(groups_of(rest, user)[at] == group);
                }
                assert(groups_of(rest, user).contains(group));
                let k = choose|k: int| 0 <= k < rest.len() && #[trigger] rest[k] == (user, group);
                assert(joins[k] == (user, group));
            }
        }
        if lists(joins, user, group) {
            let k = choose|k: int| 0 <= k < joins.len() && #[trigger] joins[k] == (user, group);
            if k < rest.len() {
                assert(rest[k] == (user, group));
                assert(groups_of(rest, user).contains(group));
                let at = choose|at: int|
                    0 <= at < groups_of(rest, user).len() && groups_of(rest, user)[at] == group;
                assert(groups_of(joins, user)[at] == group);
            } else {
                assert(groups_of(joins, user).last() == group);
            }
        }
    }
}

/// Where `entries` holds the pair of `user` and `group`, if it does.
pub fn find_pair(entries: &Vec<(String, String)>, user: &String, group: &String) -> (found: Option<
    usize,
>)
    ensures
        match found {
            Some(k) => k < entries@.len() && pairs(entries@)[k as int] == (user@, group@),
            None => !lists(pairs(entries@), user@, group@),
        },
{
    let mut k: usize = 0;
    while k < entries.len()
        invariant
            k <= entries@.len(),
            forall|j: int| 0 <= j < k ==> #[trigger] pairs(entries@)[j] != (user@, group@),
        decreases entries@.len() - k,
    {
        if entries[k].0 == *user && entries[k].1 == *group {
            return Some(k);
        }
        k += 1;
    }
    None
}

/// The groups that `entries` lists for `user`, in the order in which they
/// were entered.
pub fn listed_groups(entries: &Vec<(String, String)>, user: &String) -> (groups: Vec<String>)
    ensures
        texts(groups@) == groups_of(pairs(entries@), user@),
{
    let mut groups: Vec<String> = Vec::new();
    let mut k: usize = 0;
    while k < entries.len()
        invariant
            k <= entries@.len(),
            texts(groups@) == groups_of(pairs(entries@).take(k as int), user@),
        decreases entries@.len() - k,
    {
        proof {
            assert(pairs(entries@).take(k + 1).drop_last() =~= pairs(entries@).take(k as int));
        }
        let ghost before = groups@;
        if entries[k].0 == *user {
            groups.push(entries[k].1.clone());
            assert(texts(groups@) =~= texts(before).push(pairs(entries@)[k as int].1));
        }
        k += 1;
    }
    assert(pairs(entries@).take(k as int) =~= pairs(entries@));
    groups
}

/// Whether no pair stands twice in `entries`.
pub open spec fn distinct(joins: Seq<(Seq<char>, Seq<char>)>) -> bool {
    forall|a: int, b: int| 0 <= a < b < joins.len() ==> #[trigger] joins[a] != #[trigger] joins[b]
}

/// Whether no pair stands twice in `entries`.
pub fn all_distinct(entries: &Vec<(String, String)>) -> (ok: bool)
    ensures
        ok == distinct(pairs(entries@)),
{
    let mut b: usize = 0;
    while b < entries.len()
        invariant
            b <= entries@.len(),
            forall|x: int, y: int|
                0 <= x < y < b ==> #[trigger] pairs(entries@)[x] != #[trigger] pairs(entries@)[y],
        decreases entries@.len() - b,
    {
        let mut a: usize = 0;
        while a < b
            invariant
                a <= b < entries@.len(),
                forall|x: int|
                    0 <= x < a ==> #[trigger] pairs(entries@)[x] != pairs(entries@)[b as int],
            decreases b - a,
        {
            if entries[a].0 == entries[b].0 && entries[a].1 == entries[b].1 {
                assert(pairs(entries@)[a as int] == pairs(entries@)[b as int]);
                return false;
            }
            a += 1;
        }
        b += 1;
    }
    true
}

/// A copy of a record.
pub fn copy_pairs(entries: &Vec<(String, String)>) -> (copy: Vec<(String, String)>)
    ensures
        copy@ == entries@,
{
    let mut copy: Vec<(String, String)> = Vec::new();
    let mut k: usize = 0;
    while k < entries.len()
        invariant
            k <= entries@.len(),
            copy@.len() == k,
            forall|j: int| 0 <= j < k ==> #[trigger] copy@[j] == entries@[j],
        decreases entries@.len() - k,
    {
        copy.push((entries[k].0.clone(), entries[k].1.clone()));
        k += 1;
    }
    assert(copy@ =~= entries@);
    copy
}

} // verus!
