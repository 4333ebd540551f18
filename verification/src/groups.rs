//! `groups`: the groups of the process or of given users.

use vstd::prelude::*;
use crate::text::{chars_of, string_from_chars, push_str, push_chars, push_quoted, quoted, decimal, u64_decimal};
use crate::id::{lookup, table_view};

verus! {

/// The `groups` tool.
pub struct Groups;

impl Groups {
    /// Name of the tool.
    pub fn name(&self) -> (r: &'static str)
        ensures
            r@ == "groups"@,
    {
        "groups"
    }
}

/// The groups of one user, or of the process (no user).
#[derive(Debug)]
pub struct GroupsEntry {
    /// The user, when one was named.
    pub user: Option<String>,
    /// The names of the groups (a number for a group without a name).
    pub groups: Vec<String>,
}

/// The report of a `groups` run.
#[derive(Debug)]
pub struct GroupsSemantic {
    /// One entry per user found (or one for the process).
    pub entries: Vec<GroupsEntry>,
    /// What is written on standard output.
    pub classic_text: String,
    /// What is written on standard error.
    pub stderr_text: String,
    /// 1 when a user or a group name was not found, else 0.
    pub exit_code: i32,
}

/// The words of `ws`, a space between each two.
pub open spec fn join_spaced(ws: Seq<Seq<char>>) -> Seq<char>
    decreases ws.len(),
{
    if ws.len() == 0 {
        Seq::empty()
    } else if ws.len() == 1 {
        ws[0]
    } else {
        join_spaced(ws.drop_last()) + " "@ + ws.last()
    }
}

/// The names of a list of strings.
pub open spec fn views(v: Seq<String>) -> Seq<Seq<char>> {
    v.map_values(|s: String| s@)
}

/// The line of an entry: `user : g1 g2 ...`, or the groups alone.
pub open spec fn entry_text(user: Option<Seq<char>>, groups: Seq<Seq<char>>) -> Seq<char> {
    match user {
        Some(u) => u + " : "@ + join_spaced(groups),
        None => join_spaced(groups),
    }
}

/// The line of an entry as plain values.
pub open spec fn entry_view(e: GroupsEntry) -> Seq<char> {
    entry_text(match e.user { Some(u) => Some(u@), None => None }, views(e.groups@))
}

/// Appends the strings of `ws`, a space between each two.
fn push_joined(v: &mut Vec<char>, ws: &Vec<String>)
    ensures
        final(v)@ == old(v)@ + join_spaced(views(ws@)),
{
    let ghost wv = views(ws@);
    let ghost v0 = v@;
    let mut i: usize = 0;
    assert(wv.take(0) =~= Seq::<Seq<char>>::empty());
    while i < ws.len()
        invariant
            i <= ws@.len(),
            wv == views(ws@),
            v@ == v0 + join_spaced(wv.take(i as int)),
        decreases ws@.len() - i,
    {
        let ghost pre = wv.take(i as int);
        let ghost pre2 = wv.take(i + 1);
        assert(pre2.drop_last() =~= pre);
        assert(pre2.last() == ws@[i as int]@);
        if i > 0 {
            push_str(v, " ");
        }
        push_str(v, ws[i].as_str());
        assert(v@ =~= v0 + join_spaced(pre2));
        i = i + 1;
    }
    assert(wv.take(ws@.len() as int) =~= wv);
}

impl GroupsEntry {
    /// The line of the entry: `user : g1 g2 ...`, or the groups alone.
    pub fn to_text(&self) -> (r: String)
        ensures
            r@ == entry_view(*self),
    {
        let mut v: Vec<char> = Vec::new();
        match &self.user {
            Some(u) => {
                push_str(&mut v, u.as_str());
                push_str(&mut v, " : ");
            },
            None => {},
        }
        let ghost v0 = v@;
        push_joined(&mut v, &self.groups);
        proof {
            if self.user is None {
                assert(v0 =~= Seq::<char>::empty());
                assert(v@ =~= join_spaced(views(self.groups@)));
            }
        }
        string_from_chars(&v)
    }
}

/// The lines of the first `k` entries, each followed by a line break.
pub open spec fn classic_upto(entries: Seq<GroupsEntry>, k: int) -> Seq<char>
    decreases k,
{
    if k <= 0 {
        Seq::empty()
    } else {
        classic_upto(entries, k - 1) + entry_view(entries[k - 1]) + "\n"@
    }
}

/// What `groups` prints: the line of each entry, each followed by a line
/// break (nothing at all without entries).
pub fn groups_render_classic_text(entries: &[GroupsEntry]) -> (r: String)
    ensures
        r@ == classic_upto(entries@, entries@.len() as int),
{
    let mut v: Vec<char> = Vec::new();
    let mut i: usize = 0;
    while i < entries.len()
        invariant
            i <= entries@.len(),
            v@ == classic_upto(entries@, i as int),
        decreases entries@.len() - i,
    {
        let t = entries[i].to_text();
        push_str(&mut v, t.as_str());
        push_str(&mut v, "\n");
        i = i + 1;
    }
    string_from_chars(&v)
}

/// The first position of `x` in `s`, if it occurs.
pub open spec fn first_index(s: Seq<u32>, x: u32) -> Option<int>
    decreases s.len(),
{
    if s.len() == 0 {
        None
    } else if s[0] == x {
        Some(0)
    } else {
        match first_index(s.skip(1), x) {
            Some(i) => Some(i + 1),
            None => None,
        }
    }
}

/// The groups of a process as GNU lists them: the effective group first,
/// taken from its first place in the list when it is there, the others in
/// their order.
pub open spec fn sorted_groups_spec(groups: Seq<u32>, egid: u32) -> Seq<u32> {
    match first_index(groups, egid) {
        Some(i) => seq![egid] + groups.take(i) + groups.skip(i + 1),
        None => seq![egid] + groups,
    }
}

proof fn lemma_first_index(s: Seq<u32>, x: u32, k: int)
    requires
        0 <= k <= s.len(),
        forall|j: int| 0 <= j < k ==> s[j] != x,
        k == s.len() || s[k] == x,
    ensures
        first_index(s, x) == (if k < s.len() { Some(k) } else { None::<int> }),
    decreases k,
{
    if k > 0 {
        assert forall|j: int| 0 <= j < k - 1 implies s.skip(1)[j] != x by {
            assert(s.skip(1)[j] == s[j + 1]);
        }
        if k < s.len() {
            assert(s.skip(1)[k - 1] == s[k]);
        }
        lemma_first_index(s.skip(1), x, k - 1);
    }
}

proof fn lemma_first_index_found(s: Seq<u32>, x: u32)
    ensures
        first_index(s, x) matches Some(i) ==> 0 <= i < s.len() && s[i] == x,
        first_index(s, x) is None ==> !s.contains(x),
    decreases s.len(),
{
    if s.len() > 0 && s[0] != x {
        lemma_first_index_found(s.skip(1), x);
        if first_index(s.skip(1), x) is None {
            assert forall|j: int| 0 <= j < s.len() implies s[j] != x by {
                if j > 0 {
                    assert(s[j] == s.skip(1)[j - 1]);
                }
            }
        }
    }
}

/// The groups listed are the process's groups with the effective group
/// first: the effective group comes first, and every group is listed as
/// often as it is held, the effective one added when it is not held.
pub proof fn law_effective_group_comes_first(groups: Seq<u32>, egid: u32)
    ensures
        sorted_groups_spec(groups, egid).len() >= 1,
        sorted_groups_spec(groups, egid)[0] == egid,
        sorted_groups_spec(groups, egid).to_multiset() == if groups.contains(egid) {
            groups.to_multiset()
        } else {
            groups.to_multiset().insert(egid)
        },
{
    lemma_first_index_found(groups, egid);
    let e = seq![egid];
    match first_index(groups, egid) {
        Some(i) => {
            let (a, b) = (groups.take(i), groups.skip(i + 1));
            assert(groups =~= a + e + b);
            vstd::seq_lib::lemma_multiset_commutative(e, a);
            vstd::seq_lib::lemma_multiset_commutative(e + a, b);
            vstd::seq_lib::lemma_multiset_commutative(a, e);
            vstd::seq_lib::lemma_multiset_commutative(a + e, b);
            assert(groups.contains(egid)) by {
                assert(groups[i] == egid);
            }
        },
        None => {
            vstd::seq_lib::lemma_multiset_commutative(e, groups);
            vstd::seq_lib::lemma_multiset_commutative(groups, e);
            vstd::seq_lib::to_multiset_build(groups, egid);
            assert(groups + e =~= groups.push(egid));
        },
    }
}

/// Puts the effective group first (`sorted_groups_spec`).
pub fn sort_groups(groups: &Vec<u32>, egid: u32) -> (r: Vec<u32>)
    ensures
        r@ == sorted_groups_spec(groups@, egid),
{
    let mut k: usize = 0;
    while k < groups.len() && groups[k] != egid
        invariant
            k <= groups@.len(),
            forall|j: int| 0 <= j < k ==> groups@[j] != egid,
        decreases groups@.len() - k,
    {
        k = k + 1;
    }
    proof {
        lemma_first_index(groups@, egid, k as int);
    }
    let mut r: Vec<u32> = Vec::new();
    r.push(egid);
    let mut i: usize = 0;
    while i < groups.len()
        invariant
            i <= groups@.len(),
            k <= groups@.len(),
            r@ == seq![egid] + (if i <= k { groups@.take(i as int) } else { groups@.take(k as int) + groups@.subrange(
                k + 1,
                i as int,
            ) }),
        decreases groups@.len() - i,
    {
        if i != k {
            r.push(groups[i]);
        }
        proof {
            if i < k {
                assert(groups@.take(i + 1) =~= groups@.take(i as int).push(groups@[i as int]));
            } else if i == k {
                assert(groups@.subrange(k + 1, i + 1) =~= Seq::<u32>::empty());
                assert(groups@.take(k as int) + groups@.subrange(k + 1, i + 1) =~= groups@.take(i as int));
            } else {
                assert(groups@.subrange(k + 1, i + 1) =~= groups@.subrange(k + 1, i as int).push(groups@[i as int]));
            }
        }
        i = i + 1;
    }
    proof {
        if k < groups@.len() {
            assert(groups@.subrange(k + 1, groups@.len() as int) =~= groups@.skip(k + 1));
        } else {
            assert(groups@.take(groups@.len() as int) =~= groups@);
        }
    }
    r
}

/// Who `groups` reports on.
pub enum GroupsRequest {
    /// The process, with its groups.
    Process(Vec<u32>),
    /// The named users, each with its groups when the user exists.
    Users(Vec<(String, Option<Vec<u32>>)>),
}

/// The name of group `gid` (its number when it has none), and whether it
/// had none.
pub open spec fn group_text(table: Seq<(u32, Seq<char>)>, gid: u32) -> (Seq<char>, bool) {
    match lookup(table, gid) {
        Some(n) => (n, false),
        None => (decimal(gid as nat), true),
    }
}

/// The report of a group without a name.
pub open spec fn no_group_text(gid: u32) -> Seq<char> {
    "groups: cannot find name for group ID "@ + decimal(gid as nat) + "\n"@
}

/// The reports for the groups of `gids` without a name, in order.
pub open spec fn missing_groups(table: Seq<(u32, Seq<char>)>, gids: Seq<u32>) -> Seq<char>
    decreases gids.len(),
{
    if gids.len() == 0 {
        Seq::empty()
    } else {
        missing_groups(table, gids.drop_last()) + if group_text(table, gids.last()).1 {
            no_group_text(gids.last())
        } else {
            Seq::empty()
        }
    }
}

/// Whether one group of `gids` has no name.
pub open spec fn any_missing(table: Seq<(u32, Seq<char>)>, gids: Seq<u32>) -> bool {
    exists|i: int| 0 <= i < gids.len() && #[trigger] group_text(table, gids[i]).1
}

/// The names of `gids`, with the reports of those without one.
fn group_names(table: &Vec<(u32, String)>, gids: &[u32], err: &mut Vec<char>) -> (r: (Vec<String>, bool))
    ensures
        r.0@.len() == gids@.len(),
        forall|i: int| 0 <= i < gids@.len() ==> (#[trigger] r.0@[i])@ == group_text(table_view(table@), gids@[i]).0,
        final(err)@ == old(err)@ + missing_groups(table_view(table@), gids@),
        r.1 == any_missing(table_view(table@), gids@),
{
    let ghost tv = table_view(table@);
    let ghost e0 = err@;
    let mut names: Vec<String> = Vec::new();
    let mut failed = false;
    let mut i: usize = 0;
    assert(gids@.take(0) =~= Seq::<u32>::empty());
    while i < gids.len()
        invariant
            i <= gids@.len(),
            tv == table_view(table@),
            names@.len() == i,
            forall|k: int| 0 <= k < i ==> (#[trigger] names@[k])@ == group_text(tv, gids@[k]).0,
            err@ == e0 + missing_groups(tv, gids@.take(i as int)),
            failed == exists|w: int| 0 <= w < i && #[trigger] group_text(tv, gids@[w]).1,
        decreases gids@.len() - i,
    {
        let g = gids[i];
        let ghost pre = gids@.take(i as int);
        let ghost pre2 = gids@.take(i + 1);
        assert(pre2.drop_last() =~= pre);
        assert(pre2.last() == g);
        let mut k: usize = 0;
        assert(tv.skip(0) =~= tv);
        while k < table.len() && table[k].0 != g
            invariant
                k <= table@.len(),
                tv == table_view(table@),
                lookup(tv.skip(k as int), g) == lookup(tv, g),
            decreases table@.len() - k,
        {
            assert(tv.skip(k as int)[0] == (table@[k as int].0, table@[k as int].1@));
            assert(tv.skip(k as int).skip(1) =~= tv.skip(k + 1));
            k = k + 1;
        }
        if k < table.len() {
            assert(tv.skip(k as int)[0] == (table@[k as int].0, table@[k as int].1@));
            names.push(string_from_chars(&chars_of(table[k].1.as_str())));
        } else {
            proof {
                assert(tv.skip(k as int) =~= Seq::<(u32, Seq<char>)>::empty());
            }
            names.push(string_from_chars(&u64_decimal(g as u64)));
            push_str(err, "groups: cannot find name for group ID ");
            push_chars(err, &u64_decimal(g as u64));
            push_str(err, "\n");
            failed = true;
        }
        assert(err@ =~= e0 + missing_groups(tv, pre2));
        i = i + 1;
    }
    assert(gids@.take(gids@.len() as int) =~= gids@);
    (names, failed)
}

/// `e` is the entry of `user` with the groups `gids`.
pub open spec fn entry_for(e: GroupsEntry, user: Option<Seq<char>>, table: Seq<(u32, Seq<char>)>, gids: Seq<u32>) -> bool {
    &&& (match e.user { Some(u) => Some(u@), None => None }) == user
    &&& e.groups@.len() == gids.len()
    &&& forall|i: int| 0 <= i < gids.len() ==> (#[trigger] e.groups@[i])@ == group_text(table, gids[i]).0
}

/// Number of users found among the first `k`.
pub open spec fn found_upto(list: Seq<(String, Option<Vec<u32>>)>, k: int) -> nat
    decreases k,
{
    if k <= 0 {
        0
    } else {
        found_upto(list, k - 1) + if list[k - 1].1 is Some { 1nat } else { 0nat }
    }
}

/// Standard error after the first `k` users.
pub open spec fn users_stderr(table: Seq<(u32, Seq<char>)>, list: Seq<(String, Option<Vec<u32>>)>, k: int) -> Seq<char>
    decreases k,
{
    if k <= 0 {
        Seq::empty()
    } else {
        users_stderr(table, list, k - 1) + match list[k - 1].1 {
            Some(gids) => missing_groups(table, gids@),
            None => "groups: "@ + quoted(list[k - 1].0@) + ": no such user\n"@,
        }
    }
}

/// Whether one of the first `k` users was not found or has a group
/// without a name.
pub open spec fn users_fail(table: Seq<(u32, Seq<char>)>, list: Seq<(String, Option<Vec<u32>>)>, k: int) -> bool
    decreases k,
{
    if k <= 0 {
        false
    } else {
        users_fail(table, list, k - 1) || match list[k - 1].1 {
            Some(gids) => any_missing(table, gids@),
            None => true,
        }
    }
}

proof fn lemma_found_upto_mono(list: Seq<(String, Option<Vec<u32>>)>, i: int, k: int)
    requires
        0 <= i <= k,
    ensures
        found_upto(list, i) <= found_upto(list, k),
    decreases k - i,
{
    if i < k {
        lemma_found_upto_mono(list, i, k - 1);
    }
}

/// The report of `groups`: for the process, one entry with its groups; for
/// named users, one entry per user found, in order, and the report
/// `'USER': no such user` for each other. A group without a name is shown
/// by its number and reported. The exit code is 1 when anything was
/// reported; standard output holds the line of each entry.
pub fn groups_collect_for_users(request: &GroupsRequest, table: &Vec<(u32, String)>) -> (r: GroupsSemantic)
    ensures
        r.classic_text@ == classic_upto(r.entries@, r.entries@.len() as int),
        match request {
            GroupsRequest::Process(gids) => {
                &&& r.entries@.len() == 1
                &&& entry_for(r.entries@[0], None, table_view(table@), gids@)
                &&& r.stderr_text@ == missing_groups(table_view(table@), gids@)
                &&& r.exit_code == if any_missing(table_view(table@), gids@) { 1i32 } else { 0i32 }
            },
            GroupsRequest::Users(list) => {
                &&& r.entries@.len() == found_upto(list@, list@.len() as int)
                &&& forall|j: int| #![trigger list@[j]] 0 <= j < list@.len() && list@[j].1 is Some ==> entry_for(
                    r.entries@[found_upto(list@, j) as int],
                    Some(list@[j].0@),
                    table_view(table@),
                    list@[j].1->0@,
                )
                &&& r.stderr_text@ == users_stderr(table_view(table@), list@, list@.len() as int)
                &&& r.exit_code == if users_fail(table_view(table@), list@, list@.len() as int) { 1i32 } else { 0i32 }
            },
        },
{
    let ghost tv = table_view(table@);
    let mut entries: Vec<GroupsEntry> = Vec::new();
    let mut err: Vec<char> = Vec::new();
    let mut failed = false;
    match request {
        GroupsRequest::Process(gids) => {
            let (names, f) = group_names(table, gids.as_slice(), &mut err);
            failed = f;
            entries.push(GroupsEntry { user: None, groups: names });
            assert(err@ =~= missing_groups(tv, gids@));
        },
        GroupsRequest::Users(list) => {
            let mut i: usize = 0;
            while i < list.len()
                invariant
                    i <= list@.len(),
                    tv == table_view(table@),
                    entries@.len() == found_upto(list@, i as int),
                    forall|j: int| #![trigger list@[j]] 0 <= j < i && list@[j].1 is Some ==> entry_for(
                        entries@[found_upto(list@, j) as int],
                        Some(list@[j].0@),
                        tv,
                        list@[j].1->0@,
                    ),
                    err@ == users_stderr(tv, list@, i as int),
                    failed == users_fail(tv, list@, i as int),
                decreases list@.len() - i,
            {
                let ghost e0 = entries@;
                match &list[i].1 {
                    Some(gids) => {
                        let (names, f) = group_names(table, gids.as_slice(), &mut err);
                        if f {
                            failed = true;
                        }
                        let u = string_from_chars(&chars_of(list[i].0.as_str()));
                        entries.push(GroupsEntry { user: Some(u), groups: names });
                    },
                    None => {
                        push_str(&mut err, "groups: ");
                        push_quoted(&mut err, list[i].0.as_str());
                        push_str(&mut err, ": no such user\n");
                        failed = true;
                    },
                }
                proof {
                    assert forall|j: int| #![trigger list@[j]] 0 <= j < i + 1 && list@[j].1 is Some implies entry_for(
                        entries@[found_upto(list@, j) as int],
                        Some(list@[j].0@),
                        tv,
                        list@[j].1->0@,
                    ) by {
                        if j < i {
                            lemma_found_upto_mono(list@, j + 1, i as int);
                            assert(entries@[found_upto(list@, j) as int] == e0[found_upto(list@, j) as int]);
                        }
                    }
                }
                i = i + 1;
            }
        },
    }
    let classic = groups_render_classic_text(entries.as_slice());
    GroupsSemantic {
        entries,
        classic_text: classic,
        stderr_text: string_from_chars(&err),
        exit_code: if failed { 1 } else { 0 },
    }
}

} // verus!
