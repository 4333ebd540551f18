//! `id`: the user and group identities of the process or of given users.

use vstd::prelude::*;
use crate::text::{chars_of, string_from_chars, push_str, push_chars, push_quoted, quoted, decimal, u64_decimal, occurs_in};

verus! {

/// The `id` tool.
pub struct Id;

impl Id {
    /// Name of the tool.
    pub fn name(&self) -> (r: &'static str)
        ensures
            r@ == "id"@,
    {
        "id"
    }
}

/// The identities shown for one user or for the process.
#[derive(Debug, Clone, Copy, PartialEq, Eq, Structural)]
pub struct Ids {
    /// User id.
    pub uid: u32,
    /// Group id.
    pub gid: u32,
    /// Effective user id.
    pub euid: u32,
    /// Effective group id.
    pub egid: u32,
}

/// The options of an `id` run.
#[derive(Debug)]
pub struct IdState {
    /// `-n`: names rather than numbers.
    pub is_nflag: bool,
    /// `-u`: the user id only.
    pub is_uflag: bool,
    /// `-g`: the group id only.
    pub is_gflag: bool,
    /// `-G`: all group ids.
    pub is_gsflag: bool,
    /// `-r`: real rather than effective ids.
    pub is_rflag: bool,
    /// `-z`: NUL after each entry rather than white space.
    pub is_zflag: bool,
    /// `-Z`: the security context only.
    pub is_cflag: bool,
    /// Whether the kernel supports SELinux.
    pub is_selinux_supported: bool,
    /// The identities being shown, once known.
    pub ids: Option<Ids>,
    /// Whether users were named on the command line.
    pub is_user_specified: bool,
}

/// The separator between the groups of `-G`: NUL with `-z`, a space
/// otherwise.
pub fn id_get_delimiter(state: &mut IdState) -> (r: String)
    ensures
        r@ == (if old(state).is_zflag { seq!['\0'] } else { seq![' '] }),
        *final(state) == *old(state),
{
    let mut v: Vec<char> = Vec::new();
    if state.is_zflag {
        v.push('\0');
    } else {
        v.push(' ');
    }
    assert(v@ =~= (if state.is_zflag { seq!['\0'] } else { seq![' '] }));
    string_from_chars(&v)
}

/// Whether none of `-u`, `-g`, `-G` was given (the default format).
pub open spec fn default_format(s: IdState) -> bool {
    !(s.is_uflag || s.is_gflag || s.is_gsflag)
}

/// Checks that the options go together; gives whether the default format
/// is used. `-n` and `-r` need `-u`, `-g` or `-G`, so does `-z`, unless
/// `-Z` is given; `-Z` does not go with named users.
pub fn id_flags_validity_checks(state: &mut IdState) -> (r: Result<bool, String>)
    ensures
        *final(state) == *old(state),
        ((old(state).is_nflag || old(state).is_rflag) && default_format(*old(state)) && !old(state).is_cflag)
            ==> (r matches Err(m) && m@ == "cannot print only names or real IDs in default format"@),
        !((old(state).is_nflag || old(state).is_rflag) && default_format(*old(state)) && !old(state).is_cflag)
            && (old(state).is_zflag && default_format(*old(state)) && !old(state).is_cflag) ==> (r matches Err(m)
            && m@ == "option --zero not permitted in default format"@),
        !((old(state).is_nflag || old(state).is_rflag) && default_format(*old(state)) && !old(state).is_cflag)
            && !(old(state).is_zflag && default_format(*old(state)) && !old(state).is_cflag)
            && old(state).is_user_specified && old(state).is_cflag ==> (r matches Err(m) && m@
            == "cannot print security context when user specified"@),
        !((old(state).is_nflag || old(state).is_rflag) && default_format(*old(state)) && !old(state).is_cflag)
            && !(old(state).is_zflag && default_format(*old(state)) && !old(state).is_cflag) && !(
        old(state).is_user_specified && old(state).is_cflag) ==> r == Ok::<bool, String>(
            default_format(*old(state)),
        ),
{
    let is_default_format = !(state.is_uflag || state.is_gflag || state.is_gsflag);
    if (state.is_nflag || state.is_rflag) && is_default_format && !state.is_cflag {
        return Err(string_from_chars(&chars_of("cannot print only names or real IDs in default format")));
    }
    if state.is_zflag && is_default_format && !state.is_cflag {
        return Err(string_from_chars(&chars_of("option --zero not permitted in default format")));
    }
    if state.is_user_specified && state.is_cflag {
        return Err(string_from_chars(&chars_of("cannot print security context when user specified")));
    }
    Ok(is_default_format)
}

// ---------------------------------------------------------------------------
// Names of ids
// ---------------------------------------------------------------------------

/// The name that the first entry for `id` in `table` gives, if one does.
pub open spec fn lookup(table: Seq<(u32, Seq<char>)>, id: u32) -> Option<Seq<char>>
    decreases table.len(),
{
    if table.len() == 0 {
        None
    } else if table[0].0 == id {
        Some(table[0].1)
    } else {
        lookup(table.skip(1), id)
    }
}

/// The entries of a name table as plain values.
pub open spec fn table_view(t: Seq<(u32, String)>) -> Seq<(u32, Seq<char>)> {
    t.map_values(|e: (u32, String)| (e.0, e.1@))
}

/// The name of `id` in `table`.
fn lookup_exec(table: &Vec<(u32, String)>, id: u32) -> (r: Option<Vec<char>>)
    ensures
        match lookup(table_view(table@), id) {
            Some(n) => r matches Some(x) && x@ == n,
            None => r is None,
        },
{
    let ghost tv = table_view(table@);
    let mut i: usize = 0;
    assert(tv.skip(0) =~= tv);
    while i < table.len()
        invariant
            i <= table@.len(),
            tv == table_view(table@),
            lookup(tv.skip(i as int), id) == lookup(tv, id),
        decreases table@.len() - i,
    {
        assert(tv.skip(i as int)[0] == (table@[i as int].0, table@[i as int].1@));
        assert(tv.skip(i as int).skip(1) =~= tv.skip(i + 1));
        if table[i].0 == id {
            return Some(chars_of(table[i].1.as_str()));
        }
        i = i + 1;
    }
    assert(tv.skip(i as int) =~= Seq::<(u32, Seq<char>)>::empty());
    None
}

/// What is written for one id: its name when asked for and known, its
/// number otherwise; and whether a name asked for was missing.
pub open spec fn id_text(table: Seq<(u32, Seq<char>)>, id: u32, want_name: bool) -> (Seq<char>, bool) {
    if want_name {
        match lookup(table, id) {
            Some(n) => (n, false),
            None => (decimal(id as nat), true),
        }
    } else {
        (decimal(id as nat), false)
    }
}

/// The report of a missing group name.
pub open spec fn no_group_name(id: u32) -> Seq<char> {
    "id: cannot find name for group ID "@ + decimal(id as nat) + "\n"@
}

/// The report of a missing user name.
pub open spec fn no_user_name(id: u32) -> Seq<char> {
    "id: cannot find name for user ID "@ + decimal(id as nat) + "\n"@
}

/// The ids of `groups` written with `id_text`, `delim` between each two.
pub open spec fn groups_text(table: Seq<(u32, Seq<char>)>, groups: Seq<u32>, want_name: bool, delim: Seq<char>) -> Seq<char>
    decreases groups.len(),
{
    if groups.len() == 0 {
        Seq::empty()
    } else if groups.len() == 1 {
        id_text(table, groups[0], want_name).0
    } else {
        groups_text(table, groups.drop_last(), want_name, delim) + delim + id_text(table, groups.last(), want_name).0
    }
}

/// The reports of the group names of `groups` that are asked for and missing.
pub open spec fn groups_errors(table: Seq<(u32, Seq<char>)>, groups: Seq<u32>, want_name: bool) -> Seq<char>
    decreases groups.len(),
{
    if groups.len() == 0 {
        Seq::empty()
    } else {
        groups_errors(table, groups.drop_last(), want_name) + if id_text(table, groups.last(), want_name).1 {
            no_group_name(groups.last())
        } else {
            Seq::empty()
        }
    }
}

/// Whether a group name of `groups` is asked for and missing.
pub open spec fn groups_fail(table: Seq<(u32, Seq<char>)>, groups: Seq<u32>, want_name: bool) -> bool {
    exists|i: int| 0 <= i < groups.len() && #[trigger] id_text(table, groups[i], want_name).1
}

/// Appends the text of `id` (`id_text`).
fn push_id(v: &mut Vec<char>, table: &Vec<(u32, String)>, id: u32, want_name: bool) -> (missing: bool)
    ensures
        final(v)@ == old(v)@ + id_text(table_view(table@), id, want_name).0,
        missing == id_text(table_view(table@), id, want_name).1,
{
    if want_name {
        match lookup_exec(table, id) {
            Some(n) => {
                push_chars(v, &n);
                false
            },
            None => {
                let d = u64_decimal(id as u64);
                push_chars(v, &d);
                true
            },
        }
    } else {
        let d = u64_decimal(id as u64);
        push_chars(v, &d);
        false
    }
}

/// Appends `no_group_name(id)` (or `no_user_name(id)` when `user`).
fn push_missing(v: &mut Vec<char>, id: u32, user: bool)
    ensures
        final(v)@ == old(v)@ + if user { no_user_name(id) } else { no_group_name(id) },
{
    if user {
        push_str(v, "id: cannot find name for user ID ");
    } else {
        push_str(v, "id: cannot find name for group ID ");
    }
    let d = u64_decimal(id as u64);
    push_chars(v, &d);
    push_str(v, "\n");
    assert(final(v)@ =~= old(v)@ + if user { no_user_name(id) } else { no_group_name(id) });
}

/// Appends the groups (`groups_text`) to `out` and their missing names
/// (`groups_errors`) to `err`; gives whether one was missing.
fn push_groups(
    out: &mut Vec<char>,
    err: &mut Vec<char>,
    table: &Vec<(u32, String)>,
    groups: &[u32],
    want_name: bool,
    delim: &[char],
) -> (failed: bool)
    ensures
        final(out)@ == old(out)@ + groups_text(table_view(table@), groups@, want_name, delim@),
        final(err)@ == old(err)@ + groups_errors(table_view(table@), groups@, want_name),
        failed == groups_fail(table_view(table@), groups@, want_name),
{
    let ghost tv = table_view(table@);
    let ghost o0 = out@;
    let ghost e0 = err@;
    let mut failed = false;
    let mut i: usize = 0;
    assert(groups@.take(0) =~= Seq::<u32>::empty());
    while i < groups.len()
        invariant
            i <= groups@.len(),
            tv == table_view(table@),
            out@ == o0 + groups_text(tv, groups@.take(i as int), want_name, delim@),
            err@ == e0 + groups_errors(tv, groups@.take(i as int), want_name),
            failed == groups_fail(tv, groups@.take(i as int), want_name),
        decreases groups@.len() - i,
    {
        let ghost pre = groups@.take(i as int);
        let ghost pre2 = groups@.take(i + 1);
        assert(pre2.drop_last() =~= pre);
        assert(pre2.last() == groups@[i as int]);
        if i > 0 {
            push_chars(out, delim);
        }
        let missing = push_id(out, table, groups[i], want_name);
        if missing {
            push_missing(err, groups[i], false);
            failed = true;
        }
        proof {
            assert(out@ =~= o0 + groups_text(tv, pre2, want_name, delim@));
            assert(err@ =~= e0 + groups_errors(tv, pre2, want_name));
            if failed {
                if missing {
                    assert(id_text(tv, pre2[i as int], want_name).1);
                } else {
                    let w = choose|w: int| 0 <= w < pre.len() && #[trigger] id_text(tv, pre[w], want_name).1;
                    assert(pre2[w] == pre[w]);
                }
            } else {
                assert forall|w: int| 0 <= w < pre2.len() implies !#[trigger] id_text(tv, pre2[w], want_name).1 by {
                    if w < pre.len() {
                        assert(pre2[w] == pre[w]);
                    }
                }
            }
        }
        i = i + 1;
    }
    assert(groups@.take(groups@.len() as int) =~= groups@);
    failed
}

// ---------------------------------------------------------------------------
// The report of a run
// ---------------------------------------------------------------------------

/// What is known of one subject (a named user, or the process).
pub enum IdSubject {
    /// The named user does not exist.
    NoSuchUser(String),
    /// The ids to show, and the groups of the subject.
    Known(Ids, Vec<u32>),
}

/// What an `id` run writes.
#[derive(Debug)]
pub struct IdOutput {
    /// Standard output.
    pub stdout: String,
    /// Standard error.
    pub stderr: String,
    /// 1 when something was missing, else 0.
    pub exit_code: i32,
}

/// `name=ID(NAME)` of the default format, and whether the name was missing.
pub open spec fn labelled(table: Seq<(u32, Seq<char>)>, id: u32) -> (Seq<char>, bool) {
    match lookup(table, id) {
        Some(n) => (decimal(id as nat) + "("@ + n + ")"@, false),
        None => (decimal(id as nat) + "("@ + decimal(id as nat) + ")"@, true),
    }
}

/// The groups of the default format, `,` between each two.
pub open spec fn labelled_groups(table: Seq<(u32, Seq<char>)>, groups: Seq<u32>) -> Seq<char>
    decreases groups.len(),
{
    if groups.len() == 0 {
        Seq::empty()
    } else if groups.len() == 1 {
        labelled(table, groups[0]).0
    } else {
        labelled_groups(table, groups.drop_last()) + ","@ + labelled(table, groups.last()).0
    }
}

/// The lines `cannot find name for group ID N` that the default format
/// writes on standard output before the groups.
pub open spec fn labelled_groups_errors(table: Seq<(u32, Seq<char>)>, groups: Seq<u32>) -> Seq<char>
    decreases groups.len(),
{
    if groups.len() == 0 {
        Seq::empty()
    } else {
        labelled_groups_errors(table, groups.drop_last()) + if labelled(table, groups.last()).1 {
            "cannot find name for group ID "@ + decimal(groups.last() as nat) + "\n"@
        } else {
            Seq::empty()
        }
    }
}

/// The line `cannot find name for user ID N` (or group) that the default
/// format writes on standard output when a name is missing.
pub open spec fn inline_missing(id: u32, user: bool, missing: bool) -> Seq<char> {
    if missing {
        (if user { "cannot find name for user ID "@ } else { "cannot find name for group ID "@ }) + decimal(
            id as nat,
        ) + "\n"@
    } else {
        Seq::empty()
    }
}

/// `label=ID(NAME)` with the line of a missing name before it.
pub open spec fn labelled_field(table: Seq<(u32, Seq<char>)>, id: u32, user: bool, label: Seq<char>) -> Seq<char> {
    inline_missing(id, user, labelled(table, id).1) + label + labelled(table, id).0
}

/// The default format for one subject.
pub open spec fn default_text(
    s: IdState,
    ut: Seq<(u32, Seq<char>)>,
    gt: Seq<(u32, Seq<char>)>,
    ids: Ids,
    groups: Seq<u32>,
    context: Option<Seq<char>>,
) -> Seq<char> {
    labelled_field(ut, ids.uid, true, "uid="@) + labelled_field(gt, ids.gid, false, " gid="@) + (if !s.is_user_specified
        && ids.euid != ids.uid {
        labelled_field(ut, ids.euid, true, " euid="@)
    } else {
        Seq::empty()
    }) + (if !s.is_user_specified && ids.egid != ids.gid {
        labelled_field(gt, ids.egid, false, " egid="@)
    } else {
        Seq::empty()
    }) + labelled_groups_errors(gt, groups) + " groups="@ + labelled_groups(gt, groups) + match context {
        Some(c) => if s.is_selinux_supported && !s.is_user_specified { " context="@ + c } else { Seq::empty() },
        None => Seq::empty(),
    }
}

/// An id as the default format shows it: its number, then in parentheses
/// its name in the table, or the number again when it has none.
pub open spec fn id_with_name(table: Seq<(u32, Seq<char>)>, id: u32) -> Seq<char> {
    decimal(id as nat) + "("@ + match lookup(table, id) {
        Some(n) => n,
        None => decimal(id as nat),
    } + ")"@
}

proof fn lemma_field_occurs(a: Seq<char>, b: Seq<char>, table: Seq<(u32, Seq<char>)>, id: u32, user: bool, label: Seq<char>)
    ensures
        occurs_in(label + id_with_name(table, id), a + labelled_field(table, id, user, label) + b),
{
    let m = inline_missing(id, user, labelled(table, id).1);
    let x = label + id_with_name(table, id);
    assert(labelled_field(table, id, user, label) =~= m + x);
    let t = a + labelled_field(table, id, user, label) + b;
    assert(t =~= (a + m) + x + b);
    assert(t.subrange((a + m).len() as int, ((a + m).len() + x.len()) as int) =~= x);
}

/// The default format shows the real user and group ids as `uid=` and
/// ` gid=`, each with its number and name; without named users it also shows
/// the effective user id as ` euid=` where it differs from the real one, and
/// the effective group id as ` egid=` where it differs from the real one,
/// each with its own number and name.
#[verifier::spinoff_prover]
#[verifier::rlimit(50)]
pub proof fn law_default_shows_each_id(
    s: IdState,
    ut: Seq<(u32, Seq<char>)>,
    gt: Seq<(u32, Seq<char>)>,
    ids: Ids,
    groups: Seq<u32>,
    context: Option<Seq<char>>,
)
    ensures
        occurs_in("uid="@ + id_with_name(ut, ids.uid), default_text(s, ut, gt, ids, groups, context)),
        occurs_in(" gid="@ + id_with_name(gt, ids.gid), default_text(s, ut, gt, ids, groups, context)),
        !s.is_user_specified && ids.euid != ids.uid ==> occurs_in(
            " euid="@ + id_with_name(ut, ids.euid),
            default_text(s, ut, gt, ids, groups, context),
        ),
        !s.is_user_specified && ids.egid != ids.gid ==> occurs_in(
            " egid="@ + id_with_name(gt, ids.egid),
            default_text(s, ut, gt, ids, groups, context),
        ),
{
    let f_uid = labelled_field(ut, ids.uid, true, "uid="@);
    let f_gid = labelled_field(gt, ids.gid, false, " gid="@);
    let f_euid = if !s.is_user_specified && ids.euid != ids.uid {
        labelled_field(ut, ids.euid, true, " euid="@)
    } else {
        Seq::empty()
    };
    let f_egid = if !s.is_user_specified && ids.egid != ids.gid {
        labelled_field(gt, ids.egid, false, " egid="@)
    } else {
        Seq::empty()
    };
    let rest = labelled_groups_errors(gt, groups) + " groups="@ + labelled_groups(gt, groups) + match context {
        Some(c) => if s.is_selinux_supported && !s.is_user_specified { " context="@ + c } else { Seq::empty() },
        None => Seq::empty(),
    };
    let t = default_text(s, ut, gt, ids, groups, context);
    assert(t == f_uid + f_gid + f_euid + f_egid + rest);
    lemma_field_occurs(Seq::empty(), f_gid + f_euid + f_egid + rest, ut, ids.uid, true, "uid="@);
    assert(Seq::<char>::empty() + f_uid + (f_gid + f_euid + f_egid + rest) =~= t);
    lemma_field_occurs(f_uid, f_euid + f_egid + rest, gt, ids.gid, false, " gid="@);
    assert(f_uid + f_gid + (f_euid + f_egid + rest) =~= t);
    if !s.is_user_specified && ids.euid != ids.uid {
        lemma_field_occurs(f_uid + f_gid, f_egid + rest, ut, ids.euid, true, " euid="@);
        assert(f_uid + f_gid + f_euid + (f_egid + rest) =~= t);
    }
    if !s.is_user_specified && ids.egid != ids.gid {
        lemma_field_occurs(f_uid + f_gid + f_euid, rest, gt, ids.egid, false, " egid="@);
    }
}

proof fn lemma_occurs_within(x: Seq<char>, s: Seq<char>, a: Seq<char>, b: Seq<char>)
    requires
        occurs_in(x, s),
    ensures
        occurs_in(x, a + s + b),
{
    let i = choose|i: int| 0 <= i && i + x.len() <= s.len() && #[trigger] s.subrange(i, i + x.len()) == x;
    let t = a + s + b;
    assert(t.subrange(a.len() + i, a.len() + i + x.len()) =~= s.subrange(i, i + x.len()));
}

proof fn lemma_groups_listed(table: Seq<(u32, Seq<char>)>, groups: Seq<u32>)
    ensures
        groups.len() > 0 ==> id_with_name(table, groups[0]).len() <= labelled_groups(table, groups).len()
            && labelled_groups(table, groups).subrange(0, id_with_name(table, groups[0]).len() as int)
            == id_with_name(table, groups[0]),
        forall|i: int|
            0 < i < groups.len() ==> occurs_in(","@ + id_with_name(table, #[trigger] groups[i]), labelled_groups(table, groups)),
    decreases groups.len(),
{
    if groups.len() == 1 {
        assert(labelled(table, groups[0]).0 =~= id_with_name(table, groups[0]));
        assert(labelled_groups(table, groups).subrange(0, id_with_name(table, groups[0]).len() as int)
            =~= id_with_name(table, groups[0]));
    } else if groups.len() > 1 {
        let front = groups.drop_last();
        lemma_groups_listed(table, front);
        let lf = labelled_groups(table, front);
        let x = id_with_name(table, groups.last());
        assert(labelled(table, groups.last()).0 =~= x);
        let t = labelled_groups(table, groups);
        assert(t =~= lf + (","@ + x));
        assert(front[0] == groups[0]);
        assert(t.subrange(0, id_with_name(table, groups[0]).len() as int) =~= lf.subrange(
            0,
            id_with_name(table, groups[0]).len() as int,
        ));
        assert forall|i: int| 0 < i < groups.len() implies occurs_in(
            ","@ + id_with_name(table, #[trigger] groups[i]),
            t,
        ) by {
            let y = ","@ + id_with_name(table, groups[i]);
            if i == groups.len() - 1 {
                assert(t.subrange(lf.len() as int, (lf.len() + y.len()) as int) =~= y);
            } else {
                assert(front[i] == groups[i]);
                assert(occurs_in(","@ + id_with_name(table, front[i]), lf));
                lemma_occurs_within(y, lf, Seq::empty(), ","@ + x);
                assert(Seq::<char>::empty() + lf + (","@ + x) =~= t);
            }
        }
    }
}

/// The default format lists the groups after ` groups=`: the first with its
/// number and name right after the label, each later one after a `,`.
#[verifier::spinoff_prover]
pub proof fn law_default_lists_each_group(
    s: IdState,
    ut: Seq<(u32, Seq<char>)>,
    gt: Seq<(u32, Seq<char>)>,
    ids: Ids,
    groups: Seq<u32>,
    context: Option<Seq<char>>,
)
    ensures
        groups.len() > 0 ==> occurs_in(
            " groups="@ + id_with_name(gt, groups[0]),
            default_text(s, ut, gt, ids, groups, context),
        ),
        forall|i: int|
            0 < i < groups.len() ==> occurs_in(
                ","@ + id_with_name(gt, #[trigger] groups[i]),
                default_text(s, ut, gt, ids, groups, context),
            ),
{
    let t = default_text(s, ut, gt, ids, groups, context);
    let pre = labelled_field(ut, ids.uid, true, "uid="@) + labelled_field(gt, ids.gid, false, " gid="@) + (
    if !s.is_user_specified && ids.euid != ids.uid {
        labelled_field(ut, ids.euid, true, " euid="@)
    } else {
        Seq::empty()
    }) + (if !s.is_user_specified && ids.egid != ids.gid {
        labelled_field(gt, ids.egid, false, " egid="@)
    } else {
        Seq::empty()
    }) + labelled_groups_errors(gt, groups);
    let before = pre + " groups="@;
    let lg = labelled_groups(gt, groups);
    let after: Seq<char> = match context {
        Some(c) => if s.is_selinux_supported && !s.is_user_specified { " context="@ + c } else { Seq::empty() },
        None => Seq::empty(),
    };
    assert(t =~= before + lg + after);
    lemma_groups_listed(gt, groups);
    if groups.len() > 0 {
        let w = id_with_name(gt, groups[0]);
        let x = " groups="@ + w;
        assert(lg.subrange(0, w.len() as int) == w);
        reveal_strlit(" groups=");
        assert(" groups="@.len() == 8);
        assert(before.len() == pre.len() + 8);
        assert(t.subrange(pre.len() as int, (pre.len() + x.len()) as int) =~= x) by {
            assert forall|j: int| 0 <= j < x.len() implies t[pre.len() + j] == x[j] by {
                if j < 8 {
                    assert(t[pre.len() + j] == before[pre.len() + j]);
                } else {
                    assert(t[pre.len() + j] == lg[j - 8]);
                    assert(lg[j - 8] == lg.subrange(0, w.len() as int)[j - 8]);
                }
            }
        }
    }
    assert forall|i: int| 0 < i < groups.len() implies occurs_in(
        ","@ + id_with_name(gt, #[trigger] groups[i]),
        t,
    ) by {
        lemma_occurs_within(","@ + id_with_name(gt, groups[i]), lg, before, after);
    }
}

/// For a named user the default format shows neither effective id nor the
/// security context: the text is the same whatever they are.
pub proof fn law_named_user_shows_real_ids_only(
    s: IdState,
    ut: Seq<(u32, Seq<char>)>,
    gt: Seq<(u32, Seq<char>)>,
    ids: Ids,
    groups: Seq<u32>,
    context: Option<Seq<char>>,
    euid: u32,
    egid: u32,
)
    requires
        s.is_user_specified,
    ensures
        default_text(s, ut, gt, ids, groups, context) == default_text(
            s,
            ut,
            gt,
            Ids { euid, egid, ..ids },
            groups,
            None,
        ),
{
}

/// Whether the default format misses a name.
pub open spec fn default_fails(
    s: IdState,
    ut: Seq<(u32, Seq<char>)>,
    gt: Seq<(u32, Seq<char>)>,
    ids: Ids,
    groups: Seq<u32>,
) -> bool {
    labelled(ut, ids.uid).1 || labelled(gt, ids.gid).1 || (!s.is_user_specified && ids.euid != ids.uid
        && labelled(ut, ids.euid).1) || (!s.is_user_specified && ids.egid != ids.gid && labelled(gt, ids.egid).1)
        || exists|i: int| 0 <= i < groups.len() && #[trigger] labelled(gt, groups[i]).1
}

/// What is written on standard output for one known subject.
pub open spec fn subject_stdout(
    s: IdState,
    default: bool,
    ut: Seq<(u32, Seq<char>)>,
    gt: Seq<(u32, Seq<char>)>,
    ids: Ids,
    groups: Seq<u32>,
    several: bool,
    context: Option<Seq<char>>,
) -> Seq<char> {
    (if s.is_gflag { id_text(gt, ids.gid, s.is_nflag).0 } else { Seq::empty() }) + (if s.is_uflag {
        id_text(ut, ids.uid, s.is_nflag).0
    } else {
        Seq::empty()
    }) + (if s.is_gsflag {
        groups_text(gt, groups, s.is_nflag, if s.is_zflag { seq!['\0'] } else { seq![' '] }) + if s.is_zflag
            && s.is_user_specified && several {
            seq!['\0']
        } else {
            Seq::empty()
        }
    } else {
        Seq::empty()
    }) + (if default { default_text(s, ut, gt, ids, groups, context) } else { Seq::empty() }) + if s.is_zflag {
        seq!['\0']
    } else {
        seq!['\n']
    }
}

/// What is written on standard error for one known subject.
pub open spec fn subject_stderr(s: IdState, ut: Seq<(u32, Seq<char>)>, gt: Seq<(u32, Seq<char>)>, ids: Ids, groups: Seq<u32>) -> Seq<char> {
    (if s.is_gflag && id_text(gt, ids.gid, s.is_nflag).1 { no_group_name(ids.gid) } else { Seq::empty() }) + (if s.is_uflag
        && id_text(ut, ids.uid, s.is_nflag).1 {
        no_user_name(ids.uid)
    } else {
        Seq::empty()
    }) + if s.is_gsflag { groups_errors(gt, groups, s.is_nflag) } else { Seq::empty() }
}

/// Whether a name is missing for one known subject.
pub open spec fn subject_fails(
    s: IdState,
    default: bool,
    ut: Seq<(u32, Seq<char>)>,
    gt: Seq<(u32, Seq<char>)>,
    ids: Ids,
    groups: Seq<u32>,
) -> bool {
    (s.is_gflag && id_text(gt, ids.gid, s.is_nflag).1) || (s.is_uflag && id_text(ut, ids.uid, s.is_nflag).1) || (
    s.is_gsflag && groups_fail(gt, groups, s.is_nflag)) || (default && default_fails(s, ut, gt, ids, groups))
}

/// Appends `label=ID(NAME)` with the line of a missing name before it.
fn push_labelled(v: &mut Vec<char>, table: &Vec<(u32, String)>, id: u32, user: bool, label: &str) -> (missing: bool)
    ensures
        final(v)@ == old(v)@ + labelled_field(table_view(table@), id, user, label@),
        missing == labelled(table_view(table@), id).1,
{
    let d = u64_decimal(id as u64);
    let name = lookup_exec(table, id);
    let missing = name.is_none();
    if missing {
        if user {
            push_str(v, "cannot find name for user ID ");
        } else {
            push_str(v, "cannot find name for group ID ");
        }
        push_chars(v, &d);
        push_str(v, "\n");
    }
    push_str(v, label);
    push_chars(v, &d);
    push_str(v, "(");
    match name {
        Some(n) => push_chars(v, &n),
        None => push_chars(v, &d),
    }
    push_str(v, ")");
    assert(final(v)@ =~= old(v)@ + labelled_field(table_view(table@), id, user, label@));
    missing
}

/// Appends `ID(NAME)` (`labelled`).
fn push_id_with_name(v: &mut Vec<char>, table: &Vec<(u32, String)>, id: u32) -> (missing: bool)
    ensures
        final(v)@ == old(v)@ + labelled(table_view(table@), id).0,
        missing == labelled(table_view(table@), id).1,
{
    let d = u64_decimal(id as u64);
    let name = lookup_exec(table, id);
    let missing = name.is_none();
    push_chars(v, &d);
    push_str(v, "(");
    match name {
        Some(n) => push_chars(v, &n),
        None => push_chars(v, &d),
    }
    push_str(v, ")");
    assert(final(v)@ =~= old(v)@ + labelled(table_view(table@), id).0);
    missing
}

/// Appends the groups of the default format, the lines of their missing
/// names first.
fn push_labelled_groups(v: &mut Vec<char>, table: &Vec<(u32, String)>, groups: &[u32]) -> (failed: bool)
    ensures
        final(v)@ == old(v)@ + labelled_groups_errors(table_view(table@), groups@) + " groups="@ + labelled_groups(
            table_view(table@),
            groups@,
        ),
        failed == exists|i: int| 0 <= i < groups@.len() && #[trigger] labelled(table_view(table@), groups@[i]).1,
{
    let ghost tv = table_view(table@);
    let ghost v0 = v@;
    let mut text: Vec<char> = Vec::new();
    let mut failed = false;
    let mut i: usize = 0;
    assert(groups@.take(0) =~= Seq::<u32>::empty());
    while i < groups.len()
        invariant
            i <= groups@.len(),
            tv == table_view(table@),
            v@ == v0 + labelled_groups_errors(tv, groups@.take(i as int)),
            text@ == labelled_groups(tv, groups@.take(i as int)),
            failed == exists|w: int| 0 <= w < i && #[trigger] labelled(tv, groups@[w]).1,
        decreases groups@.len() - i,
    {
        let ghost pre = groups@.take(i as int);
        let ghost pre2 = groups@.take(i + 1);
        assert(pre2.drop_last() =~= pre);
        assert(pre2.last() == groups@[i as int]);
        let g = groups[i];
        if i > 0 {
            push_str(&mut text, ",");
        }
        let missing = push_id_with_name(&mut text, table, g);
        if missing {
            push_str(v, "cannot find name for group ID ");
            let d = u64_decimal(g as u64);
            push_chars(v, &d);
            push_str(v, "\n");
            failed = true;
        }
        proof {
            assert(v@ =~= v0 + labelled_groups_errors(tv, pre2));
            assert(text@ =~= labelled_groups(tv, pre2));
        }
        i = i + 1;
    }
    assert(groups@.take(groups@.len() as int) =~= groups@);
    push_str(v, " groups=");
    push_chars(v, &text);
    failed
}

/// The part of a subject's output that `-g`, `-u` and `-G` ask for.
pub open spec fn flags_text(s: IdState, ut: Seq<(u32, Seq<char>)>, gt: Seq<(u32, Seq<char>)>, ids: Ids, groups: Seq<u32>, several: bool) -> Seq<char> {
    (if s.is_gflag { id_text(gt, ids.gid, s.is_nflag).0 } else { Seq::empty() }) + (if s.is_uflag {
        id_text(ut, ids.uid, s.is_nflag).0
    } else {
        Seq::empty()
    }) + (if s.is_gsflag {
        groups_text(gt, groups, s.is_nflag, if s.is_zflag { seq!['\0'] } else { seq![' '] }) + if s.is_zflag
            && s.is_user_specified && several {
            seq!['\0']
        } else {
            Seq::empty()
        }
    } else {
        Seq::empty()
    })
}

/// An id as `-u`, `-g` and `-G` show it: its name with `-n` when it has one,
/// its number otherwise.
pub open spec fn id_shown(table: Seq<(u32, Seq<char>)>, id: u32, names: bool) -> Seq<char> {
    if names && lookup(table, id) is Some {
        lookup(table, id)->0
    } else {
        decimal(id as nat)
    }
}

/// `-u` alone shows the user id of the subject, and `-g` alone its group id:
/// the number, or with `-n` the name where the table has one.
pub proof fn law_single_id_options(
    s: IdState,
    ut: Seq<(u32, Seq<char>)>,
    gt: Seq<(u32, Seq<char>)>,
    ids: Ids,
    groups: Seq<u32>,
    several: bool,
)
    ensures
        s.is_uflag && !s.is_gflag && !s.is_gsflag ==> flags_text(s, ut, gt, ids, groups, several) == id_shown(
            ut,
            ids.uid,
            s.is_nflag,
        ),
        s.is_gflag && !s.is_uflag && !s.is_gsflag ==> flags_text(s, ut, gt, ids, groups, several) == id_shown(
            gt,
            ids.gid,
            s.is_nflag,
        ),
{
    let e = Seq::<char>::empty();
    assert(e + id_text(ut, ids.uid, s.is_nflag).0 + e =~= id_text(ut, ids.uid, s.is_nflag).0);
    assert(id_text(gt, ids.gid, s.is_nflag).0 + e + e =~= id_text(gt, ids.gid, s.is_nflag).0);
}

proof fn lemma_groups_text_lists(table: Seq<(u32, Seq<char>)>, groups: Seq<u32>, names: bool, delim: Seq<char>)
    ensures
        groups.len() > 0 ==> id_shown(table, groups[0], names).len() <= groups_text(table, groups, names, delim).len()
            && groups_text(table, groups, names, delim).subrange(0, id_shown(table, groups[0], names).len() as int)
            == id_shown(table, groups[0], names),
        forall|i: int|
            0 < i < groups.len() ==> occurs_in(
                delim + id_shown(table, #[trigger] groups[i], names),
                groups_text(table, groups, names, delim),
            ),
    decreases groups.len(),
{
    if groups.len() == 1 {
        assert(id_text(table, groups[0], names).0 == id_shown(table, groups[0], names));
        assert(groups_text(table, groups, names, delim).subrange(0, id_shown(table, groups[0], names).len() as int)
            =~= id_shown(table, groups[0], names));
    } else if groups.len() > 1 {
        let front = groups.drop_last();
        lemma_groups_text_lists(table, front, names, delim);
        let lf = groups_text(table, front, names, delim);
        let x = id_shown(table, groups.last(), names);
        assert(id_text(table, groups.last(), names).0 == x);
        let t = groups_text(table, groups, names, delim);
        assert(t =~= lf + (delim + x));
        assert(front[0] == groups[0]);
        assert(t.subrange(0, id_shown(table, groups[0], names).len() as int) =~= lf.subrange(
            0,
            id_shown(table, groups[0], names).len() as int,
        ));
        assert forall|i: int| 0 < i < groups.len() implies occurs_in(
            delim + id_shown(table, #[trigger] groups[i], names),
            t,
        ) by {
            let y = delim + id_shown(table, groups[i], names);
            if i == groups.len() - 1 {
                assert(t.subrange(lf.len() as int, (lf.len() + y.len()) as int) =~= y);
            } else {
                assert(front[i] == groups[i]);
                assert(occurs_in(delim + id_shown(table, front[i], names), lf));
                lemma_occurs_within(y, lf, Seq::empty(), delim + x);
                assert(Seq::<char>::empty() + lf + (delim + x) =~= t);
            }
        }
    }
}

/// `-G` alone lists every group of the subject: the first at the start, each
/// later one after the delimiter (a space, or NUL with `-z`), each shown as
/// a number, or with `-n` by its name where the table has one.
pub proof fn law_groups_option_lists_each_group(
    s: IdState,
    ut: Seq<(u32, Seq<char>)>,
    gt: Seq<(u32, Seq<char>)>,
    ids: Ids,
    groups: Seq<u32>,
    several: bool,
)
    requires
        s.is_gsflag && !s.is_uflag && !s.is_gflag,
    ensures
        groups.len() > 0 ==> id_shown(gt, groups[0], s.is_nflag).len() <= flags_text(s, ut, gt, ids, groups, several).len()
            && flags_text(s, ut, gt, ids, groups, several).subrange(0, id_shown(gt, groups[0], s.is_nflag).len() as int)
            == id_shown(gt, groups[0], s.is_nflag),
        forall|i: int|
            0 < i < groups.len() ==> occurs_in(
                (if s.is_zflag { seq!['\0'] } else { seq![' '] }) + id_shown(gt, #[trigger] groups[i], s.is_nflag),
                flags_text(s, ut, gt, ids, groups, several),
            ),
{
    let delim = if s.is_zflag { seq!['\0'] } else { seq![' '] };
    let g = groups_text(gt, groups, s.is_nflag, delim);
    let tail = if s.is_zflag && s.is_user_specified && several { seq!['\0'] } else { Seq::<char>::empty() };
    let t = flags_text(s, ut, gt, ids, groups, several);
    assert(t =~= Seq::<char>::empty() + g + tail);
    lemma_groups_text_lists(gt, groups, s.is_nflag, delim);
    if groups.len() > 0 {
        let k = id_shown(gt, groups[0], s.is_nflag).len() as int;
        assert(t.subrange(0, k) =~= g.subrange(0, k));
    }
    assert forall|i: int| 0 < i < groups.len() implies occurs_in(
        delim + id_shown(gt, #[trigger] groups[i], s.is_nflag),
        t,
    ) by {
        lemma_occurs_within(delim + id_shown(gt, groups[i], s.is_nflag), g, Seq::empty(), tail);
    }
}

/// Writes what `-g`, `-u` and `-G` ask for.
#[verifier::rlimit(80)]
fn render_flags(
    out: &mut Vec<char>,
    err: &mut Vec<char>,
    state: &IdState,
    users: &Vec<(u32, String)>,
    groups_table: &Vec<(u32, String)>,
    ids: Ids,
    groups: &[u32],
    several: bool,
) -> (failed: bool)
    ensures
        final(out)@ == old(out)@ + flags_text(*state, table_view(users@), table_view(groups_table@), ids, groups@, several),
        final(err)@ == old(err)@ + subject_stderr(*state, table_view(users@), table_view(groups_table@), ids, groups@),
        failed == ((state.is_gflag && id_text(table_view(groups_table@), ids.gid, state.is_nflag).1) || (state.is_uflag
            && id_text(table_view(users@), ids.uid, state.is_nflag).1) || (state.is_gsflag && groups_fail(
            table_view(groups_table@),
            groups@,
            state.is_nflag,
        ))),
{
    let mut failed = false;
    let ghost o0 = out@;
    let ghost e0 = err@;
    if state.is_gflag {
        let missing = push_id(out, groups_table, ids.gid, state.is_nflag);
        if missing {
            push_missing(err, ids.gid, false);
            failed = true;
        }
    }
    let ghost o1 = out@;
    let ghost e1 = err@;
    if state.is_uflag {
        let missing = push_id(out, users, ids.uid, state.is_nflag);
        if missing {
            push_missing(err, ids.uid, true);
            failed = true;
        }
    }
    let ghost o2 = out@;
    let ghost e2 = err@;
    if state.is_gsflag {
        let mut delim: Vec<char> = Vec::new();
        if state.is_zflag {
            delim.push('\0');
        } else {
            delim.push(' ');
        }
        assert(delim@ =~= (if state.is_zflag { seq!['\0'] } else { seq![' '] }));
        let f = push_groups(out, err, groups_table, groups, state.is_nflag, &delim);
        if f {
            failed = true;
        }
        if state.is_zflag && state.is_user_specified && several {
            out.push('\0');
        }
    }
    assert(out@ =~= o0 + flags_text(*state, table_view(users@), table_view(groups_table@), ids, groups@, several));
    assert(err@ =~= e0 + subject_stderr(*state, table_view(users@), table_view(groups_table@), ids, groups@));
    failed
}

/// Writes the default format.
#[verifier::rlimit(40)]
fn render_default(
    out: &mut Vec<char>,
    state: &IdState,
    users: &Vec<(u32, String)>,
    groups_table: &Vec<(u32, String)>,
    ids: Ids,
    groups: &[u32],
    context: Option<&str>,
) -> (failed: bool)
    ensures
        final(out)@ == old(out)@ + default_text(
            *state,
            table_view(users@),
            table_view(groups_table@),
            ids,
            groups@,
            match context { Some(c) => Some(c@), None => None },
        ),
        failed == default_fails(*state, table_view(users@), table_view(groups_table@), ids, groups@),
{
    let ghost ut = table_view(users@);
    let ghost gt = table_view(groups_table@);
    let mut t: Vec<char> = Vec::new();
    let m1 = push_labelled(&mut t, users, ids.uid, true, "uid=");
    assert(t@ =~= labelled_field(ut, ids.uid, true, "uid="@));
    let m2 = push_labelled(&mut t, groups_table, ids.gid, false, " gid=");
    let ghost a2 = t@;
    let mut m3 = false;
    let mut m4 = false;
    if !state.is_user_specified && ids.euid != ids.uid {
        m3 = push_labelled(&mut t, users, ids.euid, true, " euid=");
    } else {
        assert(t@ =~= a2 + Seq::<char>::empty());
    }
    let ghost a3 = t@;
    if !state.is_user_specified && ids.egid != ids.gid {
        m4 = push_labelled(&mut t, groups_table, ids.egid, false, " egid=");
    } else {
        assert(t@ =~= a3 + Seq::<char>::empty());
    }
    let m5 = push_labelled_groups(&mut t, groups_table, groups);
    let ghost a5 = t@;
    match context {
        Some(c) => {
            if state.is_selinux_supported && !state.is_user_specified {
                push_str(&mut t, " context=");
                push_str(&mut t, c);
                assert(t@ =~= a5 + (" context="@ + c@));
            } else {
                assert(t@ =~= a5 + Seq::<char>::empty());
            }
        },
        None => {
            assert(t@ =~= a5 + Seq::<char>::empty());
        },
    }
    push_chars(out, &t);
    m1 || m2 || m3 || m4 || m5
}

/// Writes one known subject: its output to `out`, the reports of missing
/// names to `err`; gives whether a name was missing.
#[verifier::rlimit(40)]
fn render_subject(
    out: &mut Vec<char>,
    err: &mut Vec<char>,
    state: &IdState,
    default: bool,
    users: &Vec<(u32, String)>,
    groups_table: &Vec<(u32, String)>,
    ids: Ids,
    groups: &[u32],
    several: bool,
    context: Option<&str>,
) -> (failed: bool)
    ensures
        final(out)@ == old(out)@ + subject_stdout(
            *state,
            default,
            table_view(users@),
            table_view(groups_table@),
            ids,
            groups@,
            several,
            match context { Some(c) => Some(c@), None => None },
        ),
        final(err)@ == old(err)@ + subject_stderr(*state, table_view(users@), table_view(groups_table@), ids, groups@),
        failed == subject_fails(*state, default, table_view(users@), table_view(groups_table@), ids, groups@),
{
    let mut t: Vec<char> = Vec::new();
    let f1 = render_flags(&mut t, err, state, users, groups_table, ids, groups, several);
    let ghost a1 = t@;
    let mut f2 = false;
    if default {
        f2 = render_default(&mut t, state, users, groups_table, ids, groups, context);
    } else {
        assert(t@ =~= a1 + Seq::<char>::empty());
    }
    let ghost a2 = t@;
    if state.is_zflag {
        t.push('\0');
        assert(t@ =~= a2 + seq!['\0']);
    } else {
        t.push('\n');
        assert(t@ =~= a2 + seq!['\n']);
    }
    assert(t@ =~= subject_stdout(
        *state,
        default,
        table_view(users@),
        table_view(groups_table@),
        ids,
        groups@,
        several,
        match context { Some(c) => Some(c@), None => None },
    ));
    push_chars(out, &t);
    f1 || f2
}

/// What is written for the subjects, in order: each unknown user reported
/// on standard error; each known one written as `subject_stdout` says,
/// with the reports of its missing names on standard error.
pub open spec fn run_text(
    s: IdState,
    default: bool,
    ut: Seq<(u32, Seq<char>)>,
    gt: Seq<(u32, Seq<char>)>,
    subjects: Seq<IdSubject>,
    context: Option<Seq<char>>,
    k: int,
) -> (Seq<char>, Seq<char>, bool)
    decreases k,
{
    if k <= 0 {
        (Seq::empty(), Seq::empty(), false)
    } else {
        let (o, e, f) = run_text(s, default, ut, gt, subjects, context, k - 1);
        match subjects[k - 1] {
            IdSubject::NoSuchUser(name) => (o, e + "id: "@ + quoted(name@) + ": no such user\n"@, true),
            IdSubject::Known(ids, groups) => (
                o + subject_stdout(s, default, ut, gt, ids, groups@, subjects.len() > 1, context),
                e + subject_stderr(s, ut, gt, ids, groups@),
                f || subject_fails(s, default, ut, gt, ids, groups@),
            ),
        }
    }
}

/// What `id` writes for its subjects (the named users, or the process),
/// from the names of the user and group ids (`users`, `groups`: the first
/// entry for an id gives its name) and the security context to show, if
/// any; the exit code is 1 when a user is unknown or a name is missing.
pub fn id_handle_users(
    state: &IdState,
    default: bool,
    subjects: &[IdSubject],
    users: &Vec<(u32, String)>,
    groups: &Vec<(u32, String)>,
    context: Option<&str>,
) -> (r: IdOutput)
    ensures
        ({
            let (o, e, f) = run_text(
                *state,
                default,
                table_view(users@),
                table_view(groups@),
                subjects@,
                match context { Some(c) => Some(c@), None => None },
                subjects@.len() as int,
            );
            r.stdout@ == o && r.stderr@ == e && r.exit_code == (if f { 1i32 } else { 0i32 })
        }),
{
    let ghost ctx = match context { Some(c) => Some(c@), None => None };
    let several = subjects.len() > 1;
    let mut out: Vec<char> = Vec::new();
    let mut err: Vec<char> = Vec::new();
    let mut failed = false;
    let mut i: usize = 0;
    while i < subjects.len()
        invariant
            i <= subjects@.len(),
            several == (subjects@.len() > 1),
            ctx == (match context { Some(c) => Some(c@), None => None::<Seq<char>> }),
            ({
                let (o, e, f) = run_text(*state, default, table_view(users@), table_view(groups@), subjects@, ctx, i as int);
                out@ == o && err@ == e && failed == f
            }),
        decreases subjects@.len() - i,
    {
        let ghost prev = run_text(*state, default, table_view(users@), table_view(groups@), subjects@, ctx, i as int);
        let ghost next = run_text(*state, default, table_view(users@), table_view(groups@), subjects@, ctx, i + 1);
        assert(out@ == prev.0 && err@ == prev.1 && failed == prev.2);
        match &subjects[i] {
            IdSubject::NoSuchUser(name) => {
                push_str(&mut err, "id: ");
                push_quoted(&mut err, name.as_str());
                push_str(&mut err, ": no such user\n");
                failed = true;
                assert(next == (prev.0, prev.1 + "id: "@ + quoted(name@) + ": no such user\n"@, true));
                assert(err@ =~= next.1);
            },
            IdSubject::Known(ids, gs) => {
                let ghost o0 = out@;
                let gsl = gs.as_slice();
                assert(gsl@ == gs@);
                let idv = *ids;
                let f = render_subject(&mut out, &mut err, state, default, users, groups, idv, gsl, several, context);
                assert(out@ == o0 + subject_stdout(*state, default, table_view(users@), table_view(groups@), idv, gsl@, several, match context { Some(c) => Some(c@), None => None }));
                assert(out@ == o0 + subject_stdout(*state, default, table_view(users@), table_view(groups@), *ids, gs@, several, ctx));
                if f {
                    failed = true;
                }
                assert(next.0 == prev.0 + subject_stdout(*state, default, table_view(users@), table_view(groups@), *ids, gs@, subjects@.len() > 1, ctx));
                assert(out@ =~= next.0);
                assert(err@ =~= next.1);
            },
        }
        i = i + 1;
    }
    IdOutput { stdout: string_from_chars(&out), stderr: string_from_chars(&err), exit_code: if failed { 1 } else { 0 } }
}

/// What `id -Z` does: the context and the line end, or the message when
/// SELinux is not there or the context cannot be had.
pub fn context_only(selinux_supported: bool, context: Option<&str>, zero: bool) -> (r: Result<String, String>)
    ensures
        !selinux_supported ==> (r matches Err(m) && m@ == "--context (-Z) works only on an SELinux-enabled kernel"@),
        selinux_supported && context is None ==> (r matches Err(m) && m@ == "can't get process context"@),
        selinux_supported ==> (context matches Some(c) ==> (r matches Ok(t) && t@ == c@ + if zero {
            seq!['\0']
        } else {
            seq!['\n']
        })),
{
    if !selinux_supported {
        return Err(string_from_chars(&chars_of("--context (-Z) works only on an SELinux-enabled kernel")));
    }
    match context {
        None => Err(string_from_chars(&chars_of("can't get process context"))),
        Some(c) => {
            let mut v = chars_of(c);
            if zero {
                v.push('\0');
            } else {
                v.push('\n');
            }
            Ok(string_from_chars(&v))
        },
    }
}

} // verus!
