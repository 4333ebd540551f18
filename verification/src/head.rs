//! `head`: the first part of each input, by bytes or by lines, or all of it
//! but the last bytes or lines.

use vstd::prelude::*;
use vstd::utf8::*;
use crate::text::{
    quoted, chars_of, string_from_chars, push_str, contains_chars, occurs_in, chars_from, parse_unsigned,
    parse_unsigned_exec, all_digits, is_digit, digits_value, unsigned_body, decimal, u64_decimal, push_quoted,
    clone_strings,
};
use crate::unicode::{lossy_utf8, utf8_lossy};

verus! {

/// The `head` tool.
pub struct Head;

impl Head {
    /// Name of the tool.
    pub fn name(&self) -> (r: &'static str)
        ensures
            r@ == "head"@,
    {
        "head"
    }
}

/// What part of each input is written.
#[derive(Debug, PartialEq, Eq, Structural, Clone, Copy)]
pub enum Mode {
    /// The first lines (`-n NUM`; 10 by default).
    FirstLines(u64),
    /// All but the last lines (`-n -NUM`).
    AllButLastLines(u64),
    /// The first bytes (`-c NUM`).
    FirstBytes(u64),
    /// All but the last bytes (`-c -NUM`).
    AllButLastBytes(u64),
}

impl Mode {
    /// The default mode: the first 10 lines.
    pub fn default() -> (r: Mode)
        ensures
            r == Mode::FirstLines(10),
    {
        Mode::FirstLines(10)
    }
}

// ---------------------------------------------------------------------------
// Counting
// ---------------------------------------------------------------------------

/// Number of times `sep` occurs in `s`.
pub open spec fn count_sep(s: Seq<u8>, sep: u8) -> nat
    decreases s.len(),
{
    if s.len() == 0 {
        0
    } else {
        count_sep(s.drop_last(), sep) + if s.last() == sep { 1nat } else { 0nat }
    }
}

/// Length of the first `n` lines of `s`: up to and including its `n`-th
/// separator, or all of `s` when it has fewer.
pub open spec fn first_lines_len(s: Seq<u8>, n: nat, sep: u8) -> nat
    decreases s.len(),
{
    if n == 0 || s.len() == 0 {
        0
    } else if s[0] == sep {
        1 + first_lines_len(s.skip(1), (n - 1) as nat, sep)
    } else {
        1 + first_lines_len(s.skip(1), n, sep)
    }
}

/// Number of lines of `s`: its separators, plus one for a last line without one.
pub open spec fn line_count(s: Seq<u8>, sep: u8) -> nat {
    count_sep(s, sep) + if s.len() > 0 && s.last() != sep { 1nat } else { 0nat }
}

/// Length of `s` without its last `n` lines.
pub open spec fn all_but_last_lines_len(s: Seq<u8>, n: nat, sep: u8) -> nat {
    if line_count(s, sep) <= n {
        0
    } else {
        first_lines_len(s, (line_count(s, sep) - n) as nat, sep)
    }
}

/// Length of `s` without its last `n` bytes.
pub open spec fn all_but_last_bytes_len(len: nat, n: nat) -> nat {
    if len <= n {
        0
    } else {
        (len - n) as nat
    }
}

/// The first `n` bytes of `input` (all of it when it is shorter).
pub fn read_n_bytes(input: &[u8], n: u64) -> (r: Vec<u8>)
    ensures
        r@ == input@.take(if n as nat <= input@.len() { n as int } else { input@.len() as int }),
{
    let len = input.len();
    let end: usize = if (n as u128) < (len as u128) { n as usize } else { len };
    let mut r: Vec<u8> = Vec::new();
    let mut k: usize = 0;
    while k < end
        invariant
            k <= end <= input@.len(),
            end as int == (if n as nat <= input@.len() { n as int } else { input@.len() as int }),
            r@ == input@.take(k as int),
        decreases end - k,
    {
        r.push(input[k]);
        assert(input@.take(k + 1) =~= input@.take(k as int).push(input@[k as int]));
        k = k + 1;
    }
    r
}

proof fn lemma_first_lines_len_bound(s: Seq<u8>, n: nat, sep: u8)
    ensures
        first_lines_len(s, n, sep) <= s.len(),
    decreases s.len(),
{
    if n != 0 && s.len() != 0 {
        if s[0] == sep {
            lemma_first_lines_len_bound(s.skip(1), (n - 1) as nat, sep);
        } else {
            lemma_first_lines_len_bound(s.skip(1), n, sep);
        }
    }
}

/// The first `n` lines of `input`, the separator `sep` ending each line:
/// everything up to and including the `n`-th separator, or all of `input`
/// when it holds fewer. The input comes as the successive chunks that the
/// reader hands out; reading stops as soon as the `n`-th line is complete.
pub fn read_n_lines(chunks: &[Vec<u8>], n: u64, sep: u8) -> (r: Vec<u8>)
    ensures
        r@ == flatten(chunks@).take(first_lines_len(flatten(chunks@), n as nat, sep) as int),
{
    let ghost all = flatten(chunks@);
    let mut r: Vec<u8> = Vec::new();
    let mut lines_read: u64 = 0;
    let mut c: usize = 0;
    proof {
        lemma_flatten_skip(chunks@, 0);
        assert(all.skip(0) =~= all);
    }
    while lines_read < n && c < chunks.len()
        invariant
            c <= chunks@.len(),
            lines_read <= n,
            all == flatten(chunks@),
            all.skip(flatten(chunks@.take(c as int)).len() as int) == flatten(chunks@.skip(c as int)),
            flatten(chunks@.take(c as int)).len() <= all.len(),
            r@ + all.skip(flatten(chunks@.take(c as int)).len() as int).take(
                first_lines_len(all.skip(flatten(chunks@.take(c as int)).len() as int), (n - lines_read) as nat, sep) as int,
            ) == all.take(first_lines_len(all, n as nat, sep) as int),
        decreases chunks@.len() - c,
    {
        let buf = &chunks[c];
        let ghost done = flatten(chunks@.take(c as int)).len() as int;
        let ghost rest = all.skip(done);
        proof {
            lemma_flatten_take_push(chunks@, c as int);
            assert(chunks@.skip(c as int).skip(1) =~= chunks@.skip(c + 1));
            assert(chunks@.skip(c as int)[0] == chunks@[c as int]);
            assert(rest == buf@ + flatten(chunks@.skip(c + 1)));
            assert(rest.skip(0) =~= rest);
        }
        let mut consumed: usize = 0;
        let mut count: u64 = 0;
        let ghost r0 = r@;
        while consumed < buf.len() && lines_read + count < n
            invariant
                consumed <= buf@.len(),
                lines_read + count <= n,
                rest == buf@ + flatten(chunks@.skip(c + 1)),
                r@ == r0 + buf@.take(consumed as int),
                first_lines_len(rest, (n - lines_read) as nat, sep) == consumed + first_lines_len(
                    rest.skip(consumed as int),
                    (n - lines_read - count) as nat,
                    sep,
                ),
            decreases buf@.len() - consumed,
        {
            let b = buf[consumed];
            proof {
                let t = rest.skip(consumed as int);
                assert(t[0] == b);
                assert(t.skip(1) =~= rest.skip(consumed + 1));
            }
            r.push(b);
            assert(buf@.take(consumed + 1) =~= buf@.take(consumed as int).push(b));
            consumed = consumed + 1;
            if b == sep {
                count = count + 1;
            }
        }
        proof {
            let m = (n - lines_read - count) as nat;
            let t = rest.skip(consumed as int);
            lemma_first_lines_len_bound(t, m, sep);
            if consumed == buf@.len() {
                assert(t =~= flatten(chunks@.skip(c + 1)));
                let done2 = flatten(chunks@.take(c + 1)).len() as int;
                assert(done2 == done + buf@.len());
                assert(all.skip(done2) =~= t);
                lemma_flatten_skip(chunks@, c + 1);
                assert(r@ + t.take(first_lines_len(t, m, sep) as int) =~= r0 + rest.take(
                    first_lines_len(rest, (n - lines_read) as nat, sep) as int,
                ));
            } else {
                assert(m == 0);
                assert(first_lines_len(t, m, sep) == 0);
                assert(r@ =~= r0 + rest.take(first_lines_len(rest, (n - lines_read) as nat, sep) as int));
            }
        }
        lines_read = lines_read + count;
        if consumed < buf.len() {
            assert(lines_read == n);
            assert(all.skip(flatten(chunks@.take(c + 1)).len() as int).take(0) =~= Seq::<u8>::empty());
            assert(r@ == all.take(first_lines_len(all, n as nat, sep) as int));
            return r;
        }
        c = c + 1;
    }
    proof {
        let done = flatten(chunks@.take(c as int)).len() as int;
        if c == chunks@.len() {
            assert(chunks@.skip(c as int) =~= Seq::<Vec<u8>>::empty());
            assert(flatten(Seq::<Vec<u8>>::empty()) =~= Seq::<u8>::empty());
        }
        assert(all.skip(done).take(first_lines_len(all.skip(done), (n - lines_read) as nat, sep) as int)
            =~= Seq::<u8>::empty());
    }
    r
}

/// One step of writing the first lines of an input as it arrives: of the
/// next piece of input, the length to write, and how many lines are still
/// wanted after it. Once none are, the rest of the input is left unread.
pub fn take_lines_from_chunk(chunk: &[u8], wanted: u64, sep: u8) -> (r: (usize, u64))
    ensures
        r.0 == first_lines_len(chunk@, wanted as nat, sep),
        r.1 == if wanted <= count_sep(chunk@, sep) { 0 } else { wanted - count_sep(chunk@, sep) },
        r.1 == 0 || r.0 == chunk@.len(),
{
    let mut consumed: usize = 0;
    let mut count: u64 = 0;
    proof {
        assert(chunk@.skip(0) =~= chunk@);
        assert(chunk@.take(0) =~= Seq::<u8>::empty());
    }
    while consumed < chunk.len() && count < wanted
        invariant
            consumed <= chunk@.len(),
            count <= wanted,
            count == count_sep(chunk@.take(consumed as int), sep),
            first_lines_len(chunk@, wanted as nat, sep) == consumed + first_lines_len(
                chunk@.skip(consumed as int),
                (wanted - count) as nat,
                sep,
            ),
        decreases chunk@.len() - consumed,
    {
        let b = chunk[consumed];
        proof {
            let t = chunk@.skip(consumed as int);
            assert(t[0] == b);
            assert(t.skip(1) =~= chunk@.skip(consumed + 1));
            assert(chunk@.take(consumed + 1).drop_last() =~= chunk@.take(consumed as int));
        }
        consumed = consumed + 1;
        if b == sep {
            count = count + 1;
        }
    }
    proof {
        let t = chunk@.skip(consumed as int);
        if consumed == chunk@.len() {
            assert(chunk@.take(consumed as int) =~= chunk@);
            assert(t.len() == 0);
        } else {
            assert(count == wanted);
            lemma_count_sep_take_mono(chunk@, consumed as int, chunk@.len() as int, sep);
            assert(chunk@.take(chunk@.len() as int) =~= chunk@);
        }
    }
    (consumed, wanted - count)
}

/// One step of writing the first bytes of an input as it arrives: of the
/// next `len` bytes, how many to write, and how many are still wanted after
/// them.
pub fn take_bytes_from_chunk(len: usize, wanted: u64) -> (r: (usize, u64))
    ensures
        r.0 == if wanted as nat <= len as nat { wanted as nat } else { len as nat },
        r.1 == wanted - r.0,
        r.1 == 0 || r.0 == len,
{
    if (wanted as u128) <= (len as u128) {
        (wanted as usize, 0)
    } else {
        (len, wanted - len as u64)
    }
}

/// Reading the first `n` lines piece by piece gives what reading them from
/// the whole input does: the first lines of `a`, then, while lines are
/// still wanted, the first of the remaining ones from `b`.
pub proof fn law_lines_read_in_pieces(a: Seq<u8>, b: Seq<u8>, n: nat, sep: u8)
    ensures
        first_lines_len(a + b, n, sep) == first_lines_len(a, n, sep) + if n <= count_sep(a, sep) {
            0
        } else {
            first_lines_len(b, (n - count_sep(a, sep)) as nat, sep)
        },
    decreases a.len(),
{
    if n == 0 {
    } else if a.len() == 0 {
        assert(a + b =~= b);
    } else {
        let a1 = a.skip(1);
        assert((a + b)[0] == a[0]);
        assert((a + b).skip(1) =~= a1 + b);
        lemma_count_sep_front(a, sep);
        if a[0] == sep {
            law_lines_read_in_pieces(a1, b, (n - 1) as nat, sep);
        } else {
            law_lines_read_in_pieces(a1, b, n, sep);
        }
    }
}

/// Position just after the `t`-th separator counted from the end of `s`
/// (`t` at least 1), or 0 when `s` holds fewer.
pub open spec fn cut_from_end(s: Seq<u8>, t: nat, sep: u8) -> nat
    decreases s.len(),
{
    if s.len() == 0 || t == 0 {
        0
    } else if s.last() == sep {
        if t == 1 {
            s.len()
        } else {
            cut_from_end(s.drop_last(), (t - 1) as nat, sep)
        }
    } else {
        cut_from_end(s.drop_last(), t, sep)
    }
}

/// The cut point that a search from the end of the input gives for "all
/// but the last `n` lines": after the `n+1`-th separator from the end when
/// the input ends in a separator, after the `n`-th otherwise; the whole input
/// when that count is zero, and nothing when there are not enough separators.
pub open spec fn nth_line_from_end_spec(s: Seq<u8>, n: nat, sep: u8) -> nat {
    if s.len() == 0 {
        0
    } else {
        let t = if s.last() == sep { n + 1 } else { n };
        if t == 0 {
            s.len()
        } else {
            cut_from_end(s, t, sep)
        }
    }
}

/// The position in `input` where output stops when writing all but its
/// last `n` lines, found by searching backwards from its end.
pub fn find_nth_line_from_end(input: &[u8], n: u64, sep: u8) -> (r: u64)
    requires
        input@.len() <= u64::MAX,
    ensures
        r as nat == nth_line_from_end_spec(input@, n as nat, sep),
{
    let size = input.len();
    if size == 0 {
        return 0;
    }
    let ends_with_sep = input[size - 1] == sep;
    if n == u64::MAX && ends_with_sep {
        return find_cut(input, u64::MAX, sep, true);
    }
    let target: u64 = if ends_with_sep { n + 1 } else { n };
    if target == 0 {
        return size as u64;
    }
    find_cut(input, target, sep, false)
}

proof fn lemma_cut_from_end_bound(s: Seq<u8>, t: nat, sep: u8)
    requires
        t > count_sep(s, sep),
    ensures
        cut_from_end(s, t, sep) == 0,
    decreases s.len(),
{
    if s.len() > 0 && t > 0 {
        if s.last() == sep {
            lemma_cut_from_end_bound(s.drop_last(), (t - 1) as nat, sep);
        } else {
            lemma_cut_from_end_bound(s.drop_last(), t, sep);
        }
    }
}

proof fn lemma_count_sep_le(s: Seq<u8>, sep: u8)
    ensures
        count_sep(s, sep) <= s.len(),
    decreases s.len(),
{
    if s.len() > 0 {
        lemma_count_sep_le(s.drop_last(), sep);
    }
}

/// Searches backwards for the `t`-th separator from the end (the `t+1`-th
/// when `plus_one`), giving the position after it, or 0.
fn find_cut(input: &[u8], t: u64, sep: u8, plus_one: bool) -> (r: u64)
    requires
        t >= 1,
        input@.len() <= u64::MAX,
        plus_one ==> t == u64::MAX,
    ensures
        r as nat == cut_from_end(input@, if plus_one { t as nat + 1 } else { t as nat }, sep),
{
    let ghost target: nat = if plus_one { t as nat + 1 } else { t as nat };
    let mut pos: usize = input.len();
    let mut found: u64 = 0;
    proof {
        assert(input@.take(input@.len() as int) =~= input@);
    }
    while pos > 0
        invariant
            pos <= input@.len() <= u64::MAX,
            found as nat <= target,
            (found as nat) < target,
            target == (if plus_one { t as nat + 1 } else { t as nat }),
            plus_one ==> t == u64::MAX,
            t >= 1,
            cut_from_end(input@.take(pos as int), (target - found) as nat, sep) == cut_from_end(input@, target, sep),
        decreases pos,
    {
        let b = input[pos - 1];
        let ghost pre = input@.take(pos as int);
        assert(pre.drop_last() =~= input@.take(pos - 1));
        assert(pre.last() == b);
        if b == sep {
            let reached = if plus_one { found == t } else { found + 1 == t };
            if reached {
                return pos as u64;
            }
            if found == u64::MAX {
                proof {
                    lemma_count_sep_le(input@, sep);
                    lemma_count_sep_le(input@.take(pos - 1), sep);
                    lemma_cut_from_end_bound(input@.take(pos - 1), (target - found - 1) as nat, sep);
                }
                return 0;
            }
            found = found + 1;
        }
        pos = pos - 1;
    }
    assert(input@.take(0) =~= Seq::<u8>::empty());
    0
}

/// All but the last `n` lines of the input (read whole from a stream): the
/// positions of its separators are noted in one pass, then the bytes up to
/// the end of the line that is kept last are written.
pub fn read_but_last_n_lines(data: &[u8], n: u64, sep: u8) -> (r: Vec<u8>)
    ensures
        r@ == data@.take(all_but_last_lines_len(data@, n as nat, sep) as int),
{
    let mut positions: Vec<usize> = Vec::new();
    let mut i: usize = 0;
    while i < data.len()
        invariant
            i <= data@.len(),
            positions@.len() == count_sep(data@.take(i as int), sep),
            forall|j: int| 0 <= j < positions@.len() ==> first_lines_len(data@, (j + 1) as nat, sep) == positions@[j] + 1,
            forall|j: int| 0 <= j < positions@.len() ==> positions@[j] < i,
            positions@.len() <= i,
        decreases data@.len() - i,
    {
        assert(data@.take(i + 1).drop_last() =~= data@.take(i as int));
        if data[i] == sep {
            proof {
                lemma_first_lines_len_at(data@, i as int, sep);
            }
            positions.push(i);
        }
        i = i + 1;
    }
    assert(data@.take(data@.len() as int) =~= data@);
    let count = positions.len() as u64;
    let mut total: u64 = count;
    if data.len() > 0 && data[data.len() - 1] != sep {
        proof {
            lemma_count_sep_le(data@.drop_last(), sep);
        }
        total = total + 1;
    }
    assert(total as nat == line_count(data@, sep));
    let len: usize = if total <= n {
        0
    } else {
        let keep = total - n;
        if keep <= count {
            positions[(keep - 1) as usize] + 1
        } else {
            proof {
                lemma_first_lines_len_all(data@, keep as nat, sep);
            }
            data.len()
        }
    };
    read_n_bytes(data, len as u64)
}

/// `sep` counted from the front: the first byte, then the rest.
proof fn lemma_count_sep_front(s: Seq<u8>, sep: u8)
    requires
        s.len() > 0,
    ensures
        count_sep(s, sep) == count_sep(s.skip(1), sep) + if s[0] == sep { 1nat } else { 0nat },
    decreases s.len(),
{
    if s.len() > 1 {
        lemma_count_sep_front(s.drop_last(), sep);
        assert(s.drop_last().skip(1) =~= s.skip(1).drop_last());
        assert(s.drop_last()[0] == s[0]);
    } else {
        assert(s.skip(1) =~= Seq::<u8>::empty());
        assert(s.drop_last() =~= Seq::<u8>::empty());
    }
}

/// The first `k` lines of `s` followed by one more byte `x`.
proof fn lemma_first_lines_len_push(s: Seq<u8>, x: u8, k: nat, sep: u8)
    requires
        k >= 1,
    ensures
        first_lines_len(s.push(x), k, sep) == if k <= count_sep(s, sep) {
            first_lines_len(s, k, sep)
        } else {
            s.len() + 1
        },
    decreases s.len(),
{
    let t = s.push(x);
    if s.len() == 0 {
        assert(t.skip(1) =~= Seq::<u8>::empty());
        assert(first_lines_len(t.skip(1), (k - 1) as nat, sep) == 0);
        assert(first_lines_len(t.skip(1), k, sep) == 0);
        assert(first_lines_len(t, k, sep) == 1);
    } else {
        assert(t.skip(1) =~= s.skip(1).push(x));
        assert(t[0] == s[0]);
        lemma_count_sep_front(s, sep);
        if s[0] == sep {
            assert(first_lines_len(t, k, sep) == 1 + first_lines_len(s.skip(1).push(x), (k - 1) as nat, sep));
            assert(first_lines_len(s, k, sep) == 1 + first_lines_len(s.skip(1), (k - 1) as nat, sep));
            if k > 1 {
                lemma_first_lines_len_push(s.skip(1), x, (k - 1) as nat, sep);
            }
        } else {
            assert(first_lines_len(t, k, sep) == 1 + first_lines_len(s.skip(1).push(x), k, sep));
            assert(first_lines_len(s, k, sep) == 1 + first_lines_len(s.skip(1), k, sep));
            lemma_first_lines_len_push(s.skip(1), x, k, sep);
        }
    }
}

/// Asking for more lines than `s` has separators gives all of `s`.
proof fn lemma_first_lines_len_all(s: Seq<u8>, k: nat, sep: u8)
    requires
        k > count_sep(s, sep),
    ensures
        first_lines_len(s, k, sep) == s.len(),
{
    if s.len() > 0 {
        let p = s.drop_last();
        assert(p.push(s.last()) =~= s);
        lemma_first_lines_len_push(p, s.last(), k, sep);
    }
}

/// The first `k` lines of `s` lie within any prefix that holds `k` separators.
proof fn lemma_first_lines_len_prefix(s: Seq<u8>, j: int, k: nat, sep: u8)
    requires
        0 <= j <= s.len(),
        k >= 1,
        k <= count_sep(s.take(j), sep),
    ensures
        first_lines_len(s, k, sep) == first_lines_len(s.take(j), k, sep),
    decreases s.len() - j,
{
    if j == s.len() {
        assert(s.take(j) =~= s);
    } else {
        let p = s.take(j);
        assert(s.take(j + 1) =~= p.push(s[j]));
        assert(s.take(j + 1).drop_last() =~= p);
        lemma_first_lines_len_push(p, s[j], k, sep);
        lemma_first_lines_len_prefix(s, j + 1, k, sep);
    }
}

/// The line ended by the separator at `i` is line number (separators
/// before `i`) + 1, and it ends at `i + 1`.
proof fn lemma_first_lines_len_at(s: Seq<u8>, i: int, sep: u8)
    requires
        0 <= i < s.len(),
        s[i] == sep,
    ensures
        first_lines_len(s, count_sep(s.take(i), sep) + 1, sep) == i + 1,
{
    let p = s.take(i);
    let m = count_sep(p, sep);
    assert(s.take(i + 1) =~= p.push(sep));
    assert(s.take(i + 1).drop_last() =~= p);
    lemma_first_lines_len_prefix(s, i + 1, m + 1, sep);
    lemma_first_lines_len_push(p, sep, m + 1, sep);
}

/// Counting `t` separators back from the end of `s` stops where counting
/// `count - t + 1` lines from its front does.
proof fn lemma_cut_from_end_front(s: Seq<u8>, t: nat, sep: u8)
    requires
        1 <= t <= count_sep(s, sep),
    ensures
        cut_from_end(s, t, sep) == first_lines_len(s, (count_sep(s, sep) - t + 1) as nat, sep),
    decreases s.len(),
{
    let p = s.drop_last();
    let x = s.last();
    assert(p.push(x) =~= s);
    let k = (count_sep(s, sep) - t + 1) as nat;
    if x == sep {
        if t == 1 {
            lemma_first_lines_len_push(p, x, k, sep);
        } else {
            lemma_cut_from_end_front(p, (t - 1) as nat, sep);
            lemma_first_lines_len_push(p, x, k, sep);
        }
    } else {
        lemma_cut_from_end_front(p, t, sep);
        lemma_first_lines_len_push(p, x, k, sep);
    }
}

/// The two ways of writing all but the last `n` lines agree: the cut point
/// found by searching backwards from the end of a seekable input is the
/// length of the input without its last `n` lines, as a forward pass over
/// a stream gives it.
pub proof fn law_backward_cut_agrees_with_forward(s: Seq<u8>, n: nat, sep: u8)
    ensures
        nth_line_from_end_spec(s, n, sep) == all_but_last_lines_len(s, n, sep),
{
    if s.len() > 0 {
        let c = count_sep(s, sep);
        let t = if s.last() == sep { n + 1 } else { n };
        if t == 0 {
            lemma_first_lines_len_all(s, c + 1, sep);
        } else if t > c {
            lemma_cut_from_end_bound(s, t, sep);
        } else {
            lemma_cut_from_end_front(s, t, sep);
        }
    }
}

/// `head -n K` gives K lines: the part it writes holds K separators, or
/// all of them when the input has fewer, and when it holds K of them it
/// ends with the K-th.
pub proof fn law_first_lines_are_k_lines(s: Seq<u8>, k: nat, sep: u8)
    ensures
        first_lines_len(s, k, sep) <= s.len(),
        count_sep(s.take(first_lines_len(s, k, sep) as int), sep) == (if k <= count_sep(s, sep) {
            k
        } else {
            count_sep(s, sep)
        }),
        1 <= k <= count_sep(s, sep) ==> s[first_lines_len(s, k, sep) - 1] == sep,
    decreases s.len(),
{
    if k == 0 || s.len() == 0 {
        assert(s.take(0) =~= Seq::<u8>::empty());
    } else {
        let t = s.skip(1);
        let k2: nat = if s[0] == sep { (k - 1) as nat } else { k };
        law_first_lines_are_k_lines(t, k2, sep);
        let l2 = first_lines_len(t, k2, sep);
        let p = s.take(1 + l2 as int);
        assert(p.skip(1) =~= t.take(l2 as int));
        assert(p[0] == s[0]);
        lemma_count_sep_front(p, sep);
        lemma_count_sep_front(s, sep);
        if 1 <= k <= count_sep(s, sep) && l2 > 0 {
            assert(s[1 + l2 - 1] == t[l2 - 1]);
        }
        if 1 <= k <= count_sep(s, sep) && l2 == 0 {
            assert(k2 == 0 || t.len() == 0);
        }
    }
}

/// The chunks that a reader hands out are never empty.
pub open spec fn nonempty_chunks(chunks: Seq<Vec<u8>>) -> bool {
    forall|i: int| 0 <= i < chunks.len() ==> (#[trigger] chunks[i])@.len() > 0
}

/// All but the last `n` bytes of the input, which comes as the successive
/// (non-empty) chunks that the reader hands out. With `n` zero all the input
/// is written; with `n` too large for the machine's `usize` nothing is (the
/// tool reports the number as too large). Only the last `n` bytes read are
/// ever held back.
pub fn read_but_last_n_bytes(chunks: &[Vec<u8>], n: u64) -> (r: Vec<u8>)
    requires
        nonempty_chunks(chunks@),
    ensures
        n as nat > usize::MAX ==> r@ == Seq::<u8>::empty(),
        n as nat <= usize::MAX ==> r@ == flatten(chunks@).take(
            all_but_last_bytes_len(flatten(chunks@).len(), n as nat) as int,
        ),
{
    let ghost all = flatten(chunks@);
    if (n as u128) > (usize::MAX as u128) {
        return Vec::new();
    }
    let n = n as usize;
    let mut out: Vec<u8> = Vec::new();
    let mut ring: Vec<u8> = Vec::new();
    let mut c: usize = 0;
    proof {
        assert(flatten(chunks@.take(0)) =~= Seq::<u8>::empty());
    }
    while c < chunks.len()
        invariant
            c <= chunks@.len(),
            all == flatten(chunks@),
            out@ + ring@ == flatten(chunks@.take(c as int)),
            n == 0 ==> ring@.len() == 0,
            ring@.len() as int == (if n == 0 { 0 } else if flatten(chunks@.take(c as int)).len() <= n {
                flatten(chunks@.take(c as int)).len() as int
            } else {
                n as int
            }),
        decreases chunks@.len() - c,
    {
        let chunk = &chunks[c];
        let read = chunk.len();
        proof {
            lemma_flatten_take_push(chunks@, c as int);
        }
        let ghost before = out@ + ring@;
        if n == 0 {
            append_all(&mut out, chunk);
            assert(out@ + ring@ =~= before + chunk@);
        } else if read <= n - ring.len() {
            append_all(&mut ring, chunk);
            assert(out@ + ring@ =~= before + chunk@);
        } else {
            let to_write = read - (n - ring.len());
            if to_write <= ring.len() {
                let ghost r0 = ring@;
                let mut k: usize = 0;
                while k < to_write
                    invariant
                        k <= to_write <= r0.len(),
                        ring@ == r0,
                        out@ == before.take((before.len() - r0.len() + k) as int),
                        before == (out@.take((before.len() - r0.len()) as int)) + r0,
                    decreases to_write - k,
                {
                    out.push(ring[k]);
                    k = k + 1;
                    assert(out@ =~= before.take((before.len() - r0.len() + k) as int));
                }
                let mut rest: Vec<u8> = Vec::new();
                let rl = ring.len();
                let mut k2: usize = to_write;
                while k2 < rl
                    invariant
                        to_write <= k2 <= rl == r0.len(),
                        ring@ == r0,
                        rest@ == r0.subrange(to_write as int, k2 as int),
                    decreases rl - k2,
                {
                    rest.push(ring[k2]);
                    assert(r0.subrange(to_write as int, k2 + 1) =~= r0.subrange(to_write as int, k2 as int).push(r0[k2 as int]));
                    k2 = k2 + 1;
                }
                append_all(&mut rest, chunk);
                ring = rest;
                assert(out@ + ring@ =~= before + chunk@);
            } else {
                let rl = ring.len();
                append_all(&mut out, &ring);
                let remaining = to_write - rl;
                let mut k: usize = 0;
                let ghost o0 = out@;
                while k < remaining
                    invariant
                        k <= remaining <= chunk@.len(),
                        out@ == o0 + chunk@.take(k as int),
                    decreases remaining - k,
                {
                    out.push(chunk[k]);
                    assert(chunk@.take(k + 1) =~= chunk@.take(k as int).push(chunk@[k as int]));
                    k = k + 1;
                }
                let mut rest: Vec<u8> = Vec::new();
                let mut k2: usize = remaining;
                while k2 < read
                    invariant
                        remaining <= k2 <= read == chunk@.len(),
                        rest@ == chunk@.subrange(remaining as int, k2 as int),
                    decreases read - k2,
                {
                    rest.push(chunk[k2]);
                    assert(chunk@.subrange(remaining as int, k2 + 1) =~= chunk@.subrange(remaining as int, k2 as int).push(chunk@[k2 as int]));
                    k2 = k2 + 1;
                }
                ring = rest;
                assert(out@ + ring@ =~= before + chunk@);
            }
        }
        c = c + 1;
    }
    proof {
        assert(chunks@.take(chunks@.len() as int) =~= chunks@);
        assert(out@ =~= all.take(all_but_last_bytes_len(all.len(), n as nat) as int));
    }
    out
}

/// Appends all of `src` to `dst`.
fn append_all(dst: &mut Vec<u8>, src: &Vec<u8>)
    ensures
        final(dst)@ == old(dst)@ + src@,
{
    let mut k: usize = 0;
    while k < src.len()
        invariant
            k <= src@.len(),
            dst@ == old(dst)@ + src@.take(k as int),
        decreases src@.len() - k,
    {
        dst.push(src[k]);
        assert(src@.take(k + 1) =~= src@.take(k as int).push(src@[k as int]));
        k = k + 1;
    }
    assert(src@.take(src@.len() as int) =~= src@);
}

/// All the bytes of a sequence of chunks, in order.
pub open spec fn flatten(chunks: Seq<Vec<u8>>) -> Seq<u8>
    decreases chunks.len(),
{
    if chunks.len() == 0 {
        Seq::empty()
    } else {
        chunks[0]@ + flatten(chunks.skip(1))
    }
}

proof fn lemma_flatten_take_push(chunks: Seq<Vec<u8>>, c: int)
    requires
        0 <= c < chunks.len(),
    ensures
        flatten(chunks.take(c + 1)) == flatten(chunks.take(c)) + chunks[c]@,
    decreases c,
{
    if c == 0 {
        assert(chunks.take(1).skip(1) =~= Seq::<Vec<u8>>::empty());
        assert(flatten(chunks.take(0)) =~= Seq::<u8>::empty());
        assert(flatten(chunks.take(1).skip(1)) =~= Seq::<u8>::empty());
        assert(chunks.take(1)[0] == chunks[0]);
        assert(flatten(chunks.take(1)) =~= chunks[0]@);
    } else {
        lemma_flatten_take_push(chunks.skip(1), c - 1);
        assert(chunks.take(c + 1).skip(1) =~= chunks.skip(1).take(c));
        assert(chunks.take(c).skip(1) =~= chunks.skip(1).take(c - 1));
        assert(chunks.take(c + 1)[0] == chunks[0]);
        assert(chunks.take(c)[0] == chunks[0]);
        assert(chunks.skip(1)[c - 1] == chunks[c]);
        assert(flatten(chunks.take(c + 1)) =~= flatten(chunks.take(c)) + chunks[c]@);
    }
}

proof fn lemma_flatten_skip(chunks: Seq<Vec<u8>>, c: int)
    requires
        0 <= c <= chunks.len(),
    ensures
        flatten(chunks) == flatten(chunks.take(c)) + flatten(chunks.skip(c)),
    decreases c,
{
    if c == 0 {
        assert(chunks.take(0) =~= Seq::<Vec<u8>>::empty());
        assert(chunks.skip(0) =~= chunks);
        assert(flatten(chunks.take(0)) =~= Seq::<u8>::empty());
        assert(flatten(chunks) =~= Seq::<u8>::empty() + flatten(chunks));
    } else {
        lemma_flatten_skip(chunks.skip(1), c - 1);
        assert(chunks.take(c).skip(1) =~= chunks.skip(1).take(c - 1));
        assert(chunks.skip(1).skip(c - 1) =~= chunks.skip(c));
        assert(chunks.take(c)[0] == chunks[0]);
        assert(flatten(chunks) =~= flatten(chunks.take(c)) + flatten(chunks.skip(c)));
    }
}

// ---------------------------------------------------------------------------
// Options, headers and messages
// ---------------------------------------------------------------------------

/// Options of a `head` run.
pub struct HeadOptions {
    /// `-q`: never print file headers.
    pub quiet: bool,
    /// `-v`: always print file headers.
    pub verbose: bool,
    /// `-z`: lines end in NUL rather than newline.
    pub zero_terminated: bool,
    /// Treat every input as a pipe (no seeking).
    pub presume_input_pipe: bool,
    /// What part of each input is written.
    pub mode: Mode,
    /// The inputs; `-` is standard input.
    pub files: Vec<String>,
}

/// The line separator: NUL with `-z`, newline otherwise.
pub open spec fn separator_of(zero_terminated: bool) -> u8 {
    if zero_terminated { 0u8 } else { 10u8 }
}

impl HeadOptions {
    /// The line separator of these options.
    pub fn separator(&self) -> (r: u8)
        ensures
            r == separator_of(self.zero_terminated),
    {
        if self.zero_terminated { 0u8 } else { 10u8 }
    }
}

/// The count of `-n` or `-c`: decimal digits that fit in 64 bits, after a
/// `-` that asks for all but the last lines or bytes; with that flag.
pub open spec fn count_spec(s: Seq<char>) -> Option<(nat, bool)> {
    let all_but_last = s.len() > 0 && s[0] == '-';
    let body = if all_but_last { s.skip(1) } else { s };
    if body.len() > 0 && body[0] == '+' {
        None
    } else {
        match parse_unsigned(body, u64::MAX as nat) {
            Some(v) => Some((v, all_but_last)),
            None => None,
        }
    }
}

/// A count written in decimal reads back as itself, asking for the first
/// lines or bytes; with a `-` before it, for all but the last.
pub proof fn law_count_reads_back(n: nat)
    requires
        n <= u64::MAX,
    ensures
        count_spec(decimal(n)) == Some((n, false)),
        count_spec(seq!['-'] + decimal(n)) == Some((n, true)),
{
    crate::text::law_decimal_reads_back(n, u64::MAX as nat);
    crate::text::lemma_decimal_digits(n);
    assert((seq!['-'] + decimal(n)).skip(1) =~= decimal(n));
    assert(decimal(n)[0] != '-') by {
        assert(crate::text::all_digits(decimal(n)));
        assert(is_digit(decimal(n)[0]));
    }
}

/// Reads the count of `-n` or `-c` (`count_spec`).
pub fn parse_count(text: &str) -> (r: Option<(u64, bool)>)
    ensures
        match count_spec(text@) {
            Some((v, b)) => r == Some((v as u64, b)),
            None => r is None,
        },
{
    let cs = chars_of(text);
    let all_but_last = cs.len() > 0 && cs[0] == '-';
    let body = if all_but_last { chars_from(&cs, 1) } else { chars_from(&cs, 0) };
    proof {
        if !all_but_last {
            assert(cs@.skip(0) =~= cs@);
        }
    }
    if body.len() > 0 && body[0] == '+' {
        return None;
    }
    match parse_unsigned_exec(&body, u64::MAX) {
        Some(v) => Some((v, all_but_last)),
        None => None,
    }
}

/// A count of `-n` or `-c` made of digits (after its `-`) whose value does
/// not fit in 64 bits.
pub open spec fn count_too_large(s: Seq<char>) -> bool {
    let body = if s.len() > 0 && s[0] == '-' { s.skip(1) } else { s };
    body.len() > 0 && all_digits(body) && digits_value(body) > u64::MAX
}

/// The message that refuses the count `s` of `what` (`bytes` or `lines`).
pub open spec fn count_message(what: Seq<char>, s: Seq<char>) -> Seq<char> {
    "invalid number of "@ + what + ": "@ + quoted(s) + if count_too_large(s) {
        ": Value too large for defined data type"@
    } else {
        Seq::empty()
    }
}

/// The mode that `-c` (`bytes`) or else `-n` (`lines`) asks for, the first
/// 10 lines when neither is given, or the message that refuses the count.
pub open spec fn mode_spec(bytes: Option<Seq<char>>, lines: Option<Seq<char>>) -> Result<Mode, Seq<char>> {
    match bytes {
        Some(b) => match count_spec(b) {
            Some((n, true)) => Ok(Mode::AllButLastBytes(n as u64)),
            Some((n, false)) => Ok(Mode::FirstBytes(n as u64)),
            None => Err(count_message("bytes"@, b)),
        },
        None => match lines {
            Some(l) => match count_spec(l) {
                Some((n, true)) => Ok(Mode::AllButLastLines(n as u64)),
                Some((n, false)) => Ok(Mode::FirstLines(n as u64)),
                None => Err(count_message("lines"@, l)),
            },
            None => Ok(Mode::FirstLines(10)),
        },
    }
}

/// Whether a count that `parse_count` refused is too large (`count_too_large`).
fn count_is_too_large(text: &str) -> (r: bool)
    requires
        count_spec(text@) is None,
    ensures
        r == count_too_large(text@),
{
    let cs = chars_of(text);
    let start: usize = if cs.len() > 0 && cs[0] == '-' { 1 } else { 0 };
    let ghost body = if cs@.len() > 0 && cs@[0] == '-' { cs@.skip(1) } else { cs@ };
    assert(body =~= cs@.skip(start as int));
    if start >= cs.len() {
        return false;
    }
    let mut i: usize = start;
    while i < cs.len()
        invariant
            start <= i <= cs@.len(),
            cs@ == text@,
            body == cs@.skip(start as int),
            body == (if text@.len() > 0 && text@[0] == '-' { text@.skip(1) } else { text@ }),
            forall|j: int| start <= j < i ==> is_digit(#[trigger] cs@[j]),
        decreases cs@.len() - i,
    {
        if !('0' <= cs[i] && cs[i] <= '9') {
            assert(!is_digit(body[i - start]));
            return false;
        }
        i = i + 1;
    }
    assert(all_digits(body)) by {
        assert forall|j: int| 0 <= j < body.len() implies is_digit(#[trigger] body[j]) by {
            assert(body[j] == cs@[j + start]);
        }
    }
    assert(body[0] != '+');
    assert(unsigned_body(body) == body);
    true
}

/// The message that refuses a count.
fn count_error(what: &str, text: &str) -> (r: String)
    requires
        count_spec(text@) is None,
    ensures
        r@ == count_message(what@, text@),
{
    let mut v: Vec<char> = Vec::new();
    push_str(&mut v, "invalid number of ");
    push_str(&mut v, what);
    push_str(&mut v, ": ");
    push_quoted(&mut v, text);
    if count_is_too_large(text) {
        push_str(&mut v, ": Value too large for defined data type");
    }
    string_from_chars(&v)
}

/// The mode that the counts of `-c` and `-n` ask for (`mode_spec`).
pub fn mode_from_counts(bytes: Option<&str>, lines: Option<&str>) -> (r: Result<Mode, String>)
    ensures
        match mode_spec(
            match bytes { Some(b) => Some(b@), None => None },
            match lines { Some(l) => Some(l@), None => None },
        ) {
            Ok(m) => r == Ok::<Mode, String>(m),
            Err(e) => r matches Err(t) && t@ == e,
        },
{
    match bytes {
        Some(b) => match parse_count(b) {
            Some((n, true)) => Ok(Mode::AllButLastBytes(n)),
            Some((n, false)) => Ok(Mode::FirstBytes(n)),
            None => Err(count_error("bytes", b)),
        },
        None => match lines {
            Some(l) => match parse_count(l) {
                Some((n, true)) => Ok(Mode::AllButLastLines(n)),
                Some((n, false)) => Ok(Mode::FirstLines(n)),
                None => Err(count_error("lines", l)),
            },
            None => Ok(Mode::FirstLines(10)),
        },
    }
}

/// The settings that the letters after an old-style count give: quiet,
/// verbose, zero-terminated, and the unit of a byte count (`None` for lines).
pub type ObsoleteFlags = (bool, bool, bool, Option<nat>);

/// What one letter after an old-style count does to the settings: `q` and
/// `v` each cancel the other, `z` ends lines with NUL, `c`, `b`, `k` and `m`
/// count bytes in units of 1, 512, 1024 and 1048576, NUL does nothing, and
/// any other character makes the option malformed (`None`).
pub open spec fn obsolete_flag(st: ObsoleteFlags, c: char) -> Option<ObsoleteFlags> {
    if c == 'q' {
        Some((true, false, st.2, st.3))
    } else if c == 'v' {
        Some((false, true, st.2, st.3))
    } else if c == 'z' {
        Some((st.0, st.1, true, st.3))
    } else if c == 'c' {
        Some((st.0, st.1, st.2, Some(1nat)))
    } else if c == 'b' {
        Some((st.0, st.1, st.2, Some(512nat)))
    } else if c == 'k' {
        Some((st.0, st.1, st.2, Some(1024nat)))
    } else if c == 'm' {
        Some((st.0, st.1, st.2, Some(1048576nat)))
    } else if c == '\0' {
        Some(st)
    } else {
        None
    }
}

/// The settings after the first `n` letters of `s`, from none set.
pub open spec fn obsolete_flags(s: Seq<char>, n: int) -> Option<ObsoleteFlags>
    decreases n,
{
    if n <= 0 {
        Some((false, false, false, None))
    } else {
        match obsolete_flags(s, n - 1) {
            Some(st) => obsolete_flag(st, s[n - 1]),
            None => None,
        }
    }
}

/// Where the run of digits of `s` that starts at `k` ends.
pub open spec fn digit_run_end(s: Seq<char>, k: int) -> int
    decreases s.len() - k,
{
    if 0 <= k < s.len() && is_digit(s[k]) {
        digit_run_end(s, k + 1)
    } else {
        k
    }
}

/// The options that the settings stand for, in the order `-q`, `-v`, `-z`.
pub open spec fn obsolete_switches(q: bool, v: bool, z: bool) -> Seq<Seq<char>> {
    (if q { seq!["-q"@] } else { seq![] }) + (if v { seq!["-v"@] } else { seq![] }) + (if z {
        seq!["-z"@]
    } else {
        seq![]
    })
}

/// The message for a malformed old-style option.
pub open spec fn obsolete_syntax_message(arg: Seq<char>) -> Seq<char> {
    "bad argument format: "@ + quoted(arg)
}

/// The message for an old-style count that does not fit.
pub open spec fn obsolete_overflow_message(arg: Seq<char>) -> Seq<char> {
    "invalid argument: "@ + quoted(arg) + " Value too large for defined datatype"@
}

/// The old form of the options as the first argument: `-`, a count, then
/// letters (`obsolete_flag`), such as `-20` or `-5qc`. It stands for the
/// switches it sets, then `-n COUNT`, or `-c` and the count times the unit
/// when a unit was given. A count, or a count of bytes, that does not fit in
/// `usize` is refused, and so is any other letter. An argument that is not
/// `-` followed by a digit leaves the arguments as they are.
pub open spec fn obsolete_args_spec(args: Seq<Seq<char>>) -> Result<Seq<Seq<char>>, Seq<char>> {
    if args.len() < 2 {
        Ok(args)
    } else {
        let a = args[1];
        let e = digit_run_end(a, 1);
        if !(a.len() > 0 && a[0] == '-' && e > 1) {
            Ok(args)
        } else {
            let num = digits_value(a.subrange(1, e));
            if num > usize::MAX {
                Err(obsolete_overflow_message(a))
            } else {
                match obsolete_flags(a.skip(e), a.len() - e) {
                    None => Err(obsolete_syntax_message(a)),
                    Some((q, v, z, unit)) => match unit {
                        Some(k) => if num * k > usize::MAX {
                            Err(obsolete_overflow_message(a))
                        } else {
                            Ok(seq![args[0]] + obsolete_switches(q, v, z) + seq!["-c"@, decimal(num * k)]
                                + args.skip(2))
                        },
                        None => Ok(seq![args[0]] + obsolete_switches(q, v, z) + seq!["-n"@, decimal(num)]
                            + args.skip(2)),
                    },
                }
            }
        }
    }
}

/// `Some` of the value as a `nat`.
pub open spec fn unit_view(m: Option<u64>) -> Option<nat> {
    match m {
        Some(k) => Some(k as nat),
        None => None,
    }
}

/// The arguments with an old-style first option (`obsolete_args_spec`)
/// written out, or the message that refuses it.
pub fn expand_obsolete(args: &[String]) -> (r: Result<Vec<String>, String>)
    ensures
        match obsolete_args_spec(args@.map_values(|s: String| s@)) {
            Ok(v) => r matches Ok(w) && w@.map_values(|s: String| s@) == v,
            Err(m) => r matches Err(e) && e@ == m,
        },
{
    let ghost av = args@.map_values(|s: String| s@);
    if args.len() < 2 {
        let r = clone_strings(args);
        assert(r@.map_values(|s: String| s@) =~= av);
        return Ok(r);
    }
    let a = chars_of(args[1].as_str());
    assert(a@ == av[1]);
    if a.len() == 0 || a[0] != '-' {
        let r = clone_strings(args);
        assert(r@.map_values(|s: String| s@) =~= av);
        return Ok(r);
    }
    let mut e: usize = 1;
    while e < a.len() && '0' <= a[e] && a[e] <= '9'
        invariant
            1 <= e <= a@.len(),
            digit_run_end(a@, e as int) == digit_run_end(a@, 1),
            forall|j: int| 1 <= j < e ==> is_digit(#[trigger] a@[j]),
        decreases a@.len() - e,
    {
        e = e + 1;
    }
    assert(digit_run_end(a@, e as int) == e);
    if e == 1 {
        let r = clone_strings(args);
        assert(r@.map_values(|s: String| s@) =~= av);
        return Ok(r);
    }
    let digits = vstd::slice::slice_subrange(a.as_slice(), 1, e);
    let ghost ds = a@.subrange(1, e as int);
    assert(digits@ =~= ds);
    assert(all_digits(ds)) by {
        assert forall|j: int| 0 <= j < ds.len() implies is_digit(#[trigger] ds[j]) by {
            assert(ds[j] == a@[j + 1]);
        }
    }
    assert(unsigned_body(ds) == ds);
    let num = match parse_unsigned_exec(digits, usize::MAX as u64) {
        Some(n) => n,
        None => {
            return Err(obsolete_message(args[1].as_str(), true));
        },
    };
    let mut q = false;
    let mut v = false;
    let mut z = false;
    let mut unit: Option<u64> = None;
    let ghost tail = a@.skip(e as int);
    let mut k: usize = e;
    while k < a.len()
        invariant
            e <= k <= a@.len(),
            2 <= args@.len(),
            av == args@.map_values(|s: String| s@),
            a@ == av[1],
            a@.len() > 0 && a@[0] == '-',
            1 < e,
            digit_run_end(a@, 1) == e as int,
            num as nat == digits_value(a@.subrange(1, e as int)),
            num <= usize::MAX,
            tail == a@.skip(e as int),
            obsolete_flags(tail, k - e) == Some((q, v, z, unit_view(unit))),
            unit matches Some(u) ==> u <= 1048576,
        decreases a@.len() - k,
    {
        let c = a[k];
        assert(tail[k - e] == c);
        if c == 'q' {
            q = true;
            v = false;
        } else if c == 'v' {
            v = true;
            q = false;
        } else if c == 'z' {
            z = true;
        } else if c == 'c' {
            unit = Some(1);
        } else if c == 'b' {
            unit = Some(512);
        } else if c == 'k' {
            unit = Some(1024);
        } else if c == 'm' {
            unit = Some(1048576);
        } else if c != '\0' {
            assert(obsolete_flags(tail, k + 1 - e) is None);
            proof {
                lemma_obsolete_flags_stay_none(tail, k + 1 - e, a@.len() - e);
            }
            return Err(obsolete_message(args[1].as_str(), false));
        }
        k = k + 1;
    }
    let mut r: Vec<String> = Vec::new();
    r.push(args[0].clone());
    if q {
        r.push(string_from_chars(&chars_of("-q")));
    }
    if v {
        r.push(string_from_chars(&chars_of("-v")));
    }
    if z {
        r.push(string_from_chars(&chars_of("-z")));
    }
    proof {
        assert(r@.map_values(|s: String| s@) =~= seq![av[0]] + obsolete_switches(q, v, z));
    }
    let ghost head_part = seq![av[0]] + obsolete_switches(q, v, z);
    match unit {
        Some(u) => {
            let total = match num.checked_mul(u) {
                Some(t) => t,
                None => {
                    return Err(obsolete_message(args[1].as_str(), true));
                },
            };
            if total > usize::MAX as u64 {
                return Err(obsolete_message(args[1].as_str(), true));
            }
            r.push(string_from_chars(&chars_of("-c")));
            r.push(string_from_chars(&u64_decimal(total)));
            assert(r@.map_values(|s: String| s@) =~= head_part + seq!["-c"@, decimal(total as nat)]);
        },
        None => {
            r.push(string_from_chars(&chars_of("-n")));
            r.push(string_from_chars(&u64_decimal(num)));
            assert(r@.map_values(|s: String| s@) =~= head_part + seq!["-n"@, decimal(num as nat)]);
        },
    }
    let ghost done = r@.map_values(|s: String| s@);
    let mut i: usize = 2;
    while i < args.len()
        invariant
            2 <= i <= args@.len(),
            av == args@.map_values(|s: String| s@),
            r@.map_values(|s: String| s@) == done + av.skip(2).take(i - 2),
        decreases args@.len() - i,
    {
        r.push(args[i].clone());
        assert(av.skip(2).take(i + 1 - 2) =~= av.skip(2).take(i - 2).push(av[i as int]));
        assert(r@.map_values(|s: String| s@) =~= (done + av.skip(2).take(i - 2)).push(av[i as int]));
        i = i + 1;
    }
    assert(av.skip(2).take(args@.len() - 2) =~= av.skip(2));
    Ok(r)
}

/// Once a letter is refused, the settings stay refused.
proof fn lemma_obsolete_flags_stay_none(s: Seq<char>, n: int, m: int)
    requires
        n <= m,
        obsolete_flags(s, n) is None,
    ensures
        obsolete_flags(s, m) is None,
    decreases m - n,
{
    if n < m {
        lemma_obsolete_flags_stay_none(s, n + 1, m);
    }
}

/// The message that refuses an old-style option: the overflow message, or
/// the malformed-option one.
fn obsolete_message(arg: &str, overflow: bool) -> (r: String)
    ensures
        r@ == if overflow { obsolete_overflow_message(arg@) } else { obsolete_syntax_message(arg@) },
{
    let mut v: Vec<char> = Vec::new();
    if overflow {
        push_str(&mut v, "invalid argument: ");
        push_quoted(&mut v, arg);
        push_str(&mut v, " Value too large for defined datatype");
    } else {
        push_str(&mut v, "bad argument format: ");
        push_quoted(&mut v, arg);
    }
    string_from_chars(&v)
}

/// Whether each input is preceded by a `==> name <==` header: with several
/// inputs unless `-q`, and always with `-v`.
pub fn should_print_header(options: &HeadOptions) -> (r: bool)
    ensures
        r == ((options.files@.len() > 1 && !options.quiet) || options.verbose),
{
    (options.files.len() > 1 && !options.quiet) || options.verbose
}

/// The header before an input: an empty line first unless it is the first.
pub open spec fn header_text(first: bool, name: Seq<char>) -> Seq<char> {
    (if first { Seq::<char>::empty() } else { "\n"@ }) + "==> "@ + name + " <==\n"@
}

/// The header written before the input `name`.
pub fn file_header(first: bool, name: &str) -> (r: String)
    ensures
        r@ == header_text(first, name@),
{
    let mut v: Vec<char> = Vec::new();
    if !first {
        push_str(&mut v, "\n");
    }
    push_str(&mut v, "==> ");
    push_str(&mut v, name);
    push_str(&mut v, " <==\n");
    proof {
        if first {
            assert(v@ =~= Seq::<char>::empty() + "==> "@ + name@ + " <==\n"@);
        } else {
            assert(v@ =~= "\n"@ + "==> "@ + name@ + " <==\n"@);
        }
    }
    string_from_chars(&v)
}

/// The name a mode has in reports.
pub open spec fn mode_name(mode: Mode) -> Seq<char> {
    match mode {
        Mode::FirstLines(_) => "first_lines"@,
        Mode::AllButLastLines(_) => "all_but_last_lines"@,
        Mode::FirstBytes(_) => "first_bytes"@,
        Mode::AllButLastBytes(_) => "all_but_last_bytes"@,
    }
}

/// The count a mode carries.
pub open spec fn mode_count(mode: Mode) -> u64 {
    match mode {
        Mode::FirstLines(n) => n,
        Mode::AllButLastLines(n) => n,
        Mode::FirstBytes(n) => n,
        Mode::AllButLastBytes(n) => n,
    }
}

/// The name and count of a mode.
pub fn head_mode_name_and_count(mode: &Mode) -> (r: (&'static str, u64))
    ensures
        r.0@ == mode_name(*mode),
        r.1 == mode_count(*mode),
{
    match mode {
        Mode::FirstLines(n) => ("first_lines", *n),
        Mode::AllButLastLines(n) => ("all_but_last_lines", *n),
        Mode::FirstBytes(n) => ("first_bytes", *n),
        Mode::AllButLastBytes(n) => ("all_but_last_bytes", *n),
    }
}

/// The message of a failed write to standard output, from the system's
/// description of the error.
pub fn write_error(reason: &str) -> (r: String)
    ensures
        r@ == "error writing 'standard output': "@ + reason@,
{
    let mut v: Vec<char> = Vec::new();
    push_str(&mut v, "error writing 'standard output': ");
    push_str(&mut v, reason);
    string_from_chars(&v)
}

/// The report of an input that could not be opened, from the system's
/// description of the error.
pub fn render_head_open_error(name: &str, reason: &str) -> (r: String)
    ensures
        r@ == "head: cannot open "@ + quoted(name@) + " for reading: "@ + reason@ + "\n"@,
{
    let mut v: Vec<char> = Vec::new();
    push_str(&mut v, "head: cannot open ");
    push_str(&mut v, "'");
    push_str(&mut v, name);
    push_str(&mut v, "'");
    push_str(&mut v, " for reading: ");
    push_str(&mut v, reason);
    push_str(&mut v, "\n");
    assert(v@ =~= "head: cannot open "@ + quoted(name@) + " for reading: "@ + reason@ + "\n"@);
    string_from_chars(&v)
}

/// The report of an input that could not be read.
pub fn render_head_read_error(name: &str) -> (r: String)
    ensures
        r@ == "head: error reading "@ + name@ + ": Input/output error\n"@,
{
    let mut v: Vec<char> = Vec::new();
    push_str(&mut v, "head: error reading ");
    push_str(&mut v, name);
    push_str(&mut v, ": Input/output error\n");
    string_from_chars(&v)
}

// ---------------------------------------------------------------------------
// Rows
// ---------------------------------------------------------------------------

/// One line of the output, as reports list it.
#[derive(Debug)]
pub struct HeadRow {
    /// The input it came from.
    pub source_name: String,
    /// Its number, from 1.
    pub row_index: usize,
    /// Its text, without the separator.
    pub line: String,
    /// Its length in bytes, without the separator.
    pub byte_length: usize,
    /// Whether a separator ended it.
    pub terminated: bool,
}

/// Where line `j` (from 0) of `s` starts.
pub open spec fn line_start(s: Seq<u8>, j: nat, sep: u8) -> nat {
    first_lines_len(s, j, sep)
}

/// Where line `j` of `s` ends, before its separator.
pub open spec fn line_end(s: Seq<u8>, j: nat, sep: u8) -> int {
    if j < count_sep(s, sep) {
        first_lines_len(s, j + 1, sep) - 1
    } else {
        s.len() as int
    }
}

/// The bytes of line `j` of `s`, without the separator.
pub open spec fn line_bytes(s: Seq<u8>, j: nat, sep: u8) -> Seq<u8> {
    s.subrange(line_start(s, j, sep) as int, line_end(s, j, sep))
}

/// `row` reports line `j` of the output `s` of the input `name`.
pub open spec fn row_is(row: HeadRow, s: Seq<u8>, name: Seq<char>, j: nat, sep: u8) -> bool {
    &&& row.source_name@ == name
    &&& row.row_index == j + 1
    &&& row.line@ == lossy_utf8(line_bytes(s, j, sep))
    &&& row.byte_length == line_bytes(s, j, sep).len()
    &&& row.terminated == (j < count_sep(s, sep))
}

/// `sep` counted in a longer prefix.
proof fn lemma_count_sep_take_mono(s: Seq<u8>, i: int, j: int, sep: u8)
    requires
        0 <= i <= j <= s.len(),
    ensures
        count_sep(s.take(i), sep) <= count_sep(s.take(j), sep),
    decreases j - i,
{
    if i < j {
        assert(s.take(j).drop_last() =~= s.take(j - 1));
        lemma_count_sep_take_mono(s, i, j - 1, sep);
    }
}

/// The lines of `s` start after its separators.
proof fn lemma_first_lines_len_after_last(s: Seq<u8>, sep: u8)
    ensures
        (first_lines_len(s, count_sep(s, sep), sep) < s.len()) <==> (s.len() > 0 && s.last() != sep),
        first_lines_len(s, count_sep(s, sep), sep) <= s.len(),
{
    lemma_first_lines_len_bound(s, count_sep(s, sep), sep);
    if s.len() > 0 {
        let p = s.drop_last();
        let x = s.last();
        assert(p.push(x) =~= s);
        let c = count_sep(s, sep);
        if c >= 1 {
            lemma_first_lines_len_push(p, x, c, sep);
            if x != sep {
                lemma_first_lines_len_bound(p, c, sep);
            }
        }
    }
}

/// Appends the rows of the output `bytes` of the input `name`.
fn push_rows(rows: &mut Vec<HeadRow>, bytes: &[u8], name: &str, sep: u8)
    ensures
        final(rows)@.len() == old(rows)@.len() + line_count(bytes@, sep),
        forall|k: int| 0 <= k < old(rows)@.len() ==> #[trigger] final(rows)@[k] == old(rows)@[k],
        forall|j: int| 0 <= j < line_count(bytes@, sep) ==> row_is(
            #[trigger] final(rows)@[old(rows)@.len() + j],
            bytes@,
            name@,
            j as nat,
            sep,
        ),
{
    let ghost base = rows@.len();
    let mut start: usize = 0;
    let mut lines: usize = 0;
    let mut index: usize = 0;
    while index < bytes.len()
        invariant
            index <= bytes@.len(),
            rows@.len() == base + count_sep(bytes@.take(index as int), sep),
            lines == count_sep(bytes@.take(index as int), sep),
            count_sep(bytes@.take(index as int), sep) <= index,
            start == first_lines_len(bytes@, count_sep(bytes@.take(index as int), sep), sep),
            start <= index,
            forall|k: int| 0 <= k < base ==> #[trigger] rows@[k] == old(rows)@[k],
            forall|j: int| 0 <= j < count_sep(bytes@.take(index as int), sep) ==> row_is(
                #[trigger] rows@[base + j],
                bytes@,
                name@,
                j as nat,
                sep,
            ),
        decreases bytes@.len() - index,
    {
        let ghost m = count_sep(bytes@.take(index as int), sep);
        assert(bytes@.take(index + 1).drop_last() =~= bytes@.take(index as int));
        if bytes[index] == sep {
            proof {
                lemma_first_lines_len_at(bytes@, index as int, sep);
                lemma_count_sep_take_mono(bytes@, index + 1, bytes@.len() as int, sep);
                assert(bytes@.take(bytes@.len() as int) =~= bytes@);
            }
            let segment = slice_range(bytes, start, index);
            let line = utf8_lossy(segment.as_slice());
            let src = name.to_owned();
            rows.push(HeadRow {
                source_name: src,
                row_index: lines + 1,
                line,
                byte_length: index - start,
                terminated: true,
            });
            lines = lines + 1;
            start = index + 1;
        }
        index = index + 1;
    }
    assert(bytes@.take(bytes@.len() as int) =~= bytes@);
    proof {
        lemma_first_lines_len_after_last(bytes@, sep);
    }
    if start < bytes.len() {
        proof {
            lemma_first_lines_len_all(bytes@, count_sep(bytes@, sep) + 1, sep);
            lemma_count_sep_le(bytes@.drop_last(), sep);
        }
        let segment = slice_range(bytes, start, bytes.len());
        let line = utf8_lossy(segment.as_slice());
        let src = name.to_owned();
        rows.push(HeadRow {
            source_name: src,
            row_index: lines + 1,
            line,
            byte_length: bytes.len() - start,
            terminated: false,
        });
    }
}

/// The bytes `s[from..to]`.
fn slice_range(s: &[u8], from: usize, to: usize) -> (r: Vec<u8>)
    requires
        from <= to <= s@.len(),
    ensures
        r@ == s@.subrange(from as int, to as int),
{
    let mut r: Vec<u8> = Vec::new();
    let mut k: usize = from;
    while k < to
        invariant
            from <= k <= to <= s@.len(),
            r@ == s@.subrange(from as int, k as int),
        decreases to - k,
    {
        r.push(s[k]);
        assert(s@.subrange(from as int, k + 1) =~= s@.subrange(from as int, k as int).push(s@[k as int]));
        k = k + 1;
    }
    r
}

/// The rows of the output `bytes` of the input `source_name`: one per line,
/// numbered from 1, with the separator left out of its text and length, and
/// the last one unterminated when the output does not end in a separator.
pub fn head_rows_from_bytes(bytes: &[u8], source_name: &str, separator: u8) -> (r: Vec<HeadRow>)
    ensures
        r@.len() == line_count(bytes@, separator),
        forall|j: int| 0 <= j < r@.len() ==> row_is(#[trigger] r@[j], bytes@, source_name@, j as nat, separator),
{
    let mut rows: Vec<HeadRow> = Vec::new();
    push_rows(&mut rows, bytes, source_name, separator);
    assert forall|j: int| 0 <= j < rows@.len() implies row_is(#[trigger] rows@[j], bytes@, source_name@, j as nat, separator) by {
        assert(rows@[0 + j] == rows@[j]);
    }
    rows
}

// ---------------------------------------------------------------------------
// The report of a run
// ---------------------------------------------------------------------------

/// What became of one input.
pub enum FileResult {
    /// It could not be opened; the system's description of why.
    OpenFailed(String),
    /// It was read: what was written for it, and the message of the error
    /// that stopped it, if one did.
    Read(Vec<u8>, Option<String>),
}

/// The report of a `head` run.
#[derive(Debug)]
pub struct HeadSemantic {
    /// Name of the mode.
    pub mode: String,
    /// Count of the mode.
    pub count: u64,
    /// Whether lines end in NUL.
    pub zero_terminated: bool,
    /// `-q`.
    pub quiet: bool,
    /// `-v`.
    pub verbose: bool,
    /// The lines written, input by input.
    pub rows: Vec<HeadRow>,
    /// Everything written to standard output, headers included.
    pub classic_text: String,
    /// Everything written to standard error.
    pub stderr_text: String,
    /// 1 when an input failed, else 0.
    pub exit_code: i32,
}

/// Whether `s` is the name `-` of standard input.
pub fn is_stdin_name(s: &str) -> (r: bool)
    ensures
        r == (s@ == "-"@),
{
    proof {
        reveal_strlit("-");
    }
    let cs = chars_of(s);
    let r = cs.len() == 1 && cs[0] == '-';
    proof {
        if r {
            assert(s@ =~= "-"@);
        }
        if s@ == "-"@ {
            assert(cs@.len() == 1 && cs@[0] == '-');
        }
    }
    r
}

/// The name under which an input is reported.
pub open spec fn display_name(file: Seq<char>) -> Seq<char> {
    if file == "-"@ { "standard input"@ } else { file }
}

/// The text that marks a failed write in an error message.
pub open spec fn write_failure_mark() -> Seq<char> {
    "error writing 'standard output'"@
}

/// Whether input `i` failed.
pub open spec fn failed(r: FileResult) -> bool {
    match r {
        FileResult::OpenFailed(_) => true,
        FileResult::Read(_, err) => err is Some,
    }
}

/// What input `i` adds to standard output.
pub open spec fn file_stdout(header: bool, file: Seq<char>, r: FileResult, i: int) -> Seq<u8> {
    match r {
        FileResult::OpenFailed(_) => Seq::empty(),
        FileResult::Read(out, _) => (if header {
            encode_utf8(header_text(i == 0, display_name(file)))
        } else {
            Seq::empty()
        }) + out@,
    }
}

/// What input `i` adds to standard error.
pub open spec fn file_stderr(file: Seq<char>, r: FileResult) -> Seq<char> {
    match r {
        FileResult::OpenFailed(reason) => "head: cannot open "@ + quoted(file) + " for reading: "@ + reason@
            + "\n"@,
        FileResult::Read(_, err) => match err {
            None => Seq::empty(),
            Some(msg) => if occurs_in(write_failure_mark(), msg@) {
                "head: "@ + msg@ + "\n"@
            } else {
                "head: error reading "@ + display_name(file) + ": Input/output error\n"@
            },
        },
    }
}

/// Standard output after the first `k` inputs.
pub open spec fn stdout_upto(header: bool, files: Seq<String>, results: Seq<FileResult>, k: int) -> Seq<u8>
    decreases k,
{
    if k <= 0 {
        Seq::empty()
    } else {
        stdout_upto(header, files, results, k - 1) + file_stdout(header, files[k - 1]@, results[k - 1], k - 1)
    }
}

/// Standard error after the first `k` inputs.
pub open spec fn stderr_upto(files: Seq<String>, results: Seq<FileResult>, k: int) -> Seq<char>
    decreases k,
{
    if k <= 0 {
        Seq::empty()
    } else {
        stderr_upto(files, results, k - 1) + file_stderr(files[k - 1]@, results[k - 1])
    }
}

/// The lines that input `i` contributes to the rows: those of its output
/// when it was read without error.
pub open spec fn rows_of(r: FileResult, sep: u8) -> nat {
    match r {
        FileResult::OpenFailed(_) => 0,
        FileResult::Read(out, err) => if err is None { line_count(out@, sep) } else { 0 },
    }
}

/// Number of rows that the first `k` inputs contribute.
pub open spec fn rows_upto(results: Seq<FileResult>, sep: u8, k: int) -> nat
    decreases k,
{
    if k <= 0 {
        0
    } else {
        rows_upto(results, sep, k - 1) + rows_of(results[k - 1], sep)
    }
}

/// Whether one of the first `k` inputs failed.
pub open spec fn any_failed(results: Seq<FileResult>, k: int) -> bool {
    exists|i: int| 0 <= i < k && #[trigger] failed(results[i])
}

proof fn lemma_rows_upto_mono(results: Seq<FileResult>, sep: u8, i: int, k: int)
    requires
        0 <= i <= k,
    ensures
        rows_upto(results, sep, i) <= rows_upto(results, sep, k),
    decreases k - i,
{
    if i < k {
        lemma_rows_upto_mono(results, sep, i, k - 1);
    }
}

/// Appends the bytes of `src` to `dst`.
fn append_bytes(dst: &mut Vec<u8>, src: &[u8])
    ensures
        final(dst)@ == old(dst)@ + src@,
{
    let mut k: usize = 0;
    while k < src.len()
        invariant
            k <= src@.len(),
            dst@ == old(dst)@ + src@.take(k as int),
        decreases src@.len() - k,
    {
        dst.push(src[k]);
        assert(src@.take(k + 1) =~= src@.take(k as int).push(src@[k as int]));
        k = k + 1;
    }
    assert(src@.take(src@.len() as int) =~= src@);
}

/// The report of a run from what became of each input, in order: standard
/// output holds each header (when headers are printed) and output of the
/// inputs that opened; standard error the report of each failure; the rows
/// are those of the inputs read without error; the exit code is 1 when an
/// input failed.
pub fn head_semantic_from_results(options: &HeadOptions, results: &[FileResult]) -> (r: HeadSemantic)
    requires
        results@.len() == options.files@.len(),
    ensures
        r.mode@ == mode_name(options.mode),
        r.count == mode_count(options.mode),
        r.zero_terminated == options.zero_terminated,
        r.quiet == options.quiet,
        r.verbose == options.verbose,
        r.classic_text@ == lossy_utf8(
            stdout_upto(
                (options.files@.len() > 1 && !options.quiet) || options.verbose,
                options.files@,
                results@,
                results@.len() as int,
            ),
        ),
        r.stderr_text@ == stderr_upto(options.files@, results@, results@.len() as int),
        r.exit_code == (if any_failed(results@, results@.len() as int) { 1i32 } else { 0i32 }),
        r.rows@.len() == rows_upto(results@, separator_of(options.zero_terminated), results@.len() as int),
        forall|i: int, j: int|
            #![trigger r.rows@[rows_upto(results@, separator_of(options.zero_terminated), i) + j], results@[i]]
            0 <= i < results@.len() && 0 <= j < rows_of(results@[i], separator_of(options.zero_terminated))
                ==> (results@[i] matches FileResult::Read(out, _) && row_is(
                r.rows@[rows_upto(results@, separator_of(options.zero_terminated), i) + j],
                out@,
                display_name(options.files@[i]@),
                j as nat,
                separator_of(options.zero_terminated),
            )),
{
    let header = should_print_header(options);
    let sep = options.separator();
    let mut classic: Vec<u8> = Vec::new();
    let mut errors: Vec<char> = Vec::new();
    let mut exit_code: i32 = 0;
    let mut rows: Vec<HeadRow> = Vec::new();
    let mut i: usize = 0;
    while i < results.len()
        invariant
            i <= results@.len() == options.files@.len(),
            header == ((options.files@.len() > 1 && !options.quiet) || options.verbose),
            sep == separator_of(options.zero_terminated),
            classic@ == stdout_upto(header, options.files@, results@, i as int),
            errors@ == stderr_upto(options.files@, results@, i as int),
            exit_code == (if any_failed(results@, i as int) { 1i32 } else { 0i32 }),
            rows@.len() == rows_upto(results@, sep, i as int),
            forall|k: int, j: int|
                #![trigger rows@[rows_upto(results@, sep, k) + j], results@[k]]
                0 <= k < i && 0 <= j < rows_of(results@[k], sep) ==> (results@[k] matches FileResult::Read(out, _)
                    && row_is(rows@[rows_upto(results@, sep, k) + j], out@, display_name(options.files@[k]@), j as nat, sep)),
        decreases results@.len() - i,
    {
        let file = &options.files[i];
        let stdin = is_stdin_name(file.as_str());
        let display: &str = if stdin { "standard input" } else { file.as_str() };
        proof {
            reveal_strlit("-");
        }
        assert(display@ == display_name(file@));
        let ghost rows0 = rows@;
        let ghost classic0 = classic@;
        match &results[i] {
            FileResult::OpenFailed(reason) => {
                let msg = render_head_open_error(file.as_str(), reason.as_str());
                push_str(&mut errors, msg.as_str());
                exit_code = 1;
                assert(failed(results@[i as int]));
            }
            FileResult::Read(out, err) => {
                if header {
                    let h = file_header(i == 0, display);
                    append_bytes(&mut classic, h.as_str().as_bytes());
                }
                append_bytes(&mut classic, out.as_slice());
                assert(classic@ =~= classic0 + file_stdout(header, file@, results@[i as int], i as int));
                match err {
                    Some(msg) => {
                        exit_code = 1;
                        assert(failed(results@[i as int]));
                        let mcs = chars_of(msg.as_str());
                        let mark = chars_of("error writing 'standard output'");
                        if contains_chars(&mcs, &mark) {
                            push_str(&mut errors, "head: ");
                            push_str(&mut errors, msg.as_str());
                            push_str(&mut errors, "\n");
                        } else {
                            let m = render_head_read_error(display);
                            push_str(&mut errors, m.as_str());
                        }
                    }
                    None => {
                        push_rows(&mut rows, out.as_slice(), display, sep);
                    }
                }
            }
        }
        proof {
            assert(errors@ =~= stderr_upto(options.files@, results@, i as int) + file_stderr(file@, results@[i as int]));
            if exit_code == 1 {
                if !failed(results@[i as int]) {
                    let w = choose|w: int| 0 <= w < i && #[trigger] failed(results@[w]);
                    assert(0 <= w < i + 1 && failed(results@[w]));
                } else {
                    assert(0 <= i < i + 1 && failed(results@[i as int]));
                }
            } else {
                assert forall|w: int| 0 <= w < i + 1 implies !#[trigger] failed(results@[w]) by {
                    if w < i {
                    } else {
                    }
                }
            }
            assert forall|k: int, j: int|
                0 <= k < i + 1 && 0 <= j < rows_of(results@[k], sep) implies (results@[k] matches FileResult::Read(out, _)
                    && row_is(#[trigger] rows@[rows_upto(results@, sep, k) + j], out@, display_name(options.files@[k]@), j as nat, sep)) by {
                if k < i {
                    lemma_rows_upto_mono(results@, sep, k + 1, i as int);
                    assert(rows_upto(results@, sep, k) + j < rows0.len());
                    assert(rows@[rows_upto(results@, sep, k) + j] == rows0[rows_upto(results@, sep, k) + j]);
                }
            }
        }
        i = i + 1;
    }
    let (mode, count) = head_mode_name_and_count(&options.mode);
    let classic_text = utf8_lossy(classic.as_slice());
    HeadSemantic {
        mode: mode.to_owned(),
        count,
        zero_terminated: options.zero_terminated,
        quiet: options.quiet,
        verbose: options.verbose,
        rows,
        classic_text,
        stderr_text: string_from_chars(&errors),
        exit_code,
    }
}

} // verus!
