//! The order of `ls -v` ("natural sort of version numbers"): file names
//! compared part by part, runs of digits by their value and the text between
//! them character by character, as GNU's version sort does.

use vstd::prelude::*;
use crate::text::is_digit;

verus! {

/// An ASCII letter.
pub open spec fn is_ascii_letter(c: char) -> bool {
    ('a' <= c && c <= 'z') || ('A' <= c && c <= 'Z')
}

/// The rank of the next character of a run of non-digits (`None` when the
/// run has ended): `~` before the end of the run, the end before the
/// letters, the letters by their code, and every other character after
/// them, by its code.
pub open spec fn run_rank(c: Option<char>) -> int {
    match c {
        None => 0,
        Some(c) => if c == '~' {
            -1
        } else if is_ascii_letter(c) {
            (c as u32) as int
        } else {
            (c as u32) as int + 0x110000
        },
    }
}

/// The first character of `s` when it is not a digit.
pub open spec fn run_head(s: Seq<char>) -> Option<char> {
    if s.len() > 0 && !is_digit(s[0]) {
        Some(s[0])
    } else {
        None
    }
}

/// Compares the runs of non-digits at the fronts of `a` and `b`: -1, 0 or 1.
pub open spec fn text_run_order(a: Seq<char>, b: Seq<char>) -> int
    decreases a.len(),
{
    let ha = run_head(a);
    let hb = run_head(b);
    if ha is Some && hb is Some && a[0] == b[0] {
        text_run_order(a.skip(1), b.skip(1))
    } else if ha is None && hb is None {
        0
    } else if run_rank(ha) < run_rank(hb) {
        -1
    } else {
        1
    }
}

/// The length of the run of characters at the front of `s` that are digits
/// (`digits`) or that are not.
pub open spec fn run_len(s: Seq<char>, digits: bool) -> int
    decreases s.len(),
{
    if s.len() > 0 && is_digit(s[0]) == digits {
        1 + run_len(s.skip(1), digits)
    } else {
        0
    }
}

/// The number of zeros at the front of `s`.
pub open spec fn zeros_len(s: Seq<char>) -> int
    decreases s.len(),
{
    if s.len() > 0 && s[0] == '0' {
        1 + zeros_len(s.skip(1))
    } else {
        0
    }
}

/// Compares two strings character by character, as `str` does: -1, 0 or 1.
pub open spec fn lex_order(a: Seq<char>, b: Seq<char>) -> int
    decreases a.len(),
{
    if a.len() == 0 && b.len() == 0 {
        0
    } else if a.len() == 0 {
        -1
    } else if b.len() == 0 {
        1
    } else if a[0] == b[0] {
        lex_order(a.skip(1), b.skip(1))
    } else if (a[0] as u32) < (b[0] as u32) {
        -1
    } else {
        1
    }
}

/// The digits, without their leading zeros, of the number that follows the
/// run of non-digits at the front of `s`.
pub open spec fn number_part(s: Seq<char>) -> Seq<char> {
    let s2 = s.skip(run_len(s, false));
    s2.subrange(zeros_len(s2), run_len(s2, true))
}

/// What follows the run of non-digits at the front of `s` and the number
/// after it.
pub open spec fn after_part(s: Seq<char>) -> Seq<char> {
    let s2 = s.skip(run_len(s, false));
    s2.skip(run_len(s2, true))
}

/// Compares two numbers written without leading zeros: the longer is the
/// greater, then digit by digit.
pub open spec fn number_order(da: Seq<char>, db: Seq<char>) -> int {
    if da.len() < db.len() {
        -1
    } else if da.len() > db.len() {
        1
    } else {
        lex_order(da, db)
    }
}

/// Compares `a` and `b` part by part: a run of non-digits (`text_run_order`),
/// then the number after it (`number_order`), and so on: -1, 0 or 1.
pub open spec fn parts_order(a: Seq<char>, b: Seq<char>) -> int
    decreases a.len() + b.len(),
{
    let c = text_run_order(a, b);
    if c != 0 {
        c
    } else {
        let n = number_order(number_part(a), number_part(b));
        if n != 0 {
            n
        } else {
            let a3 = after_part(a);
            let b3 = after_part(b);
            // Both rests are shorter unless `a` and `b` are both empty.
            if a3.len() + b3.len() < a.len() + b.len() {
                parts_order(a3, b3)
            } else {
                0
            }
        }
    }
}

/// A character that may follow the first one of a suffix part.
pub open spec fn suffix_char(c: char) -> bool {
    is_ascii_letter(c) || is_digit(c) || c == '~'
}

/// Where the run of suffix characters of `s` that starts at `i` ends.
pub open spec fn suffix_run_end(s: Seq<char>, i: int) -> int
    decreases s.len() - i,
{
    if 0 <= i < s.len() && suffix_char(s[i]) {
        suffix_run_end(s, i + 1)
    } else {
        i
    }
}

/// From `i` on, `s` is made of suffix parts: each a dot, a letter or `~`,
/// then letters, digits and `~` (the suffix `(\.[A-Za-z~][A-Za-z0-9~]*)*$`).
pub open spec fn suffix_from(s: Seq<char>, i: int) -> bool
    decreases s.len() - i,
{
    if i < 0 || i > s.len() {
        false
    } else if i == s.len() {
        true
    } else if i + 1 < s.len() && s[i] == '.' && (is_ascii_letter(s[i + 1]) || s[i + 1] == '~') {
        let k = suffix_run_end(s, i + 2);
        if k > i && k <= s.len() && (k == s.len() || s[k] == '.') {
            suffix_from(s, k)
        } else {
            false
        }
    } else {
        false
    }
}

/// The first position at or after `p` from which `s` is a suffix.
pub open spec fn suffix_start_from(s: Seq<char>, p: int) -> int
    decreases s.len() - p,
{
    if p >= s.len() || suffix_from(s, p) {
        p
    } else {
        suffix_start_from(s, p + 1)
    }
}

/// Where the suffix of a file name starts (such as `.tar.gz`).
pub open spec fn suffix_start(s: Seq<char>) -> int {
    suffix_start_from(s, 0)
}

/// The version order of two file names: -1, 0 or 1. Equal names are equal.
/// Otherwise the empty name comes first, then `.`, then `..`, then the
/// names that begin with a dot (compared without it); then the names are
/// compared part by part (`parts_order`) without their suffixes, then whole,
/// and at last character by character.
pub open spec fn version_order(a: Seq<char>, b: Seq<char>) -> int {
    if a == b {
        0
    } else if a.len() == 0 {
        -1
    } else if b.len() == 0 {
        1
    } else if a == seq!['.'] {
        -1
    } else if b == seq!['.'] {
        1
    } else if a == seq!['.', '.'] {
        -1
    } else if b == seq!['.', '.'] {
        1
    } else if a[0] == '.' && b[0] != '.' {
        -1
    } else if b[0] == '.' && a[0] != '.' {
        1
    } else {
        let x = if a[0] == '.' { a.skip(1) } else { a };
        let y = if a[0] == '.' { b.skip(1) } else { b };
        let c1 = parts_order(x.take(suffix_start(x)), y.take(suffix_start(y)));
        if c1 != 0 {
            c1
        } else {
            let c2 = parts_order(x, y);
            if c2 != 0 {
                c2
            } else {
                lex_order(a, b)
            }
        }
    }
}

/// Comparing character by character is antisymmetric, and finds two
/// strings equal only when they are.
pub proof fn lemma_lex_order(a: Seq<char>, b: Seq<char>)
    ensures
        lex_order(a, b) == -lex_order(b, a),
        -1 <= lex_order(a, b) <= 1,
        (lex_order(a, b) == 0) == (a == b),
    decreases a.len(),
{
    if a.len() > 0 && b.len() > 0 && a[0] == b[0] {
        lemma_lex_order(a.skip(1), b.skip(1));
        if a.skip(1) == b.skip(1) {
            assert(a =~= seq![a[0]] + a.skip(1));
            assert(b =~= seq![b[0]] + b.skip(1));
        }
    }
    if a.len() == 0 && b.len() == 0 {
        assert(a =~= b);
    }
    if a.len() > 0 && b.len() > 0 && a[0] != b[0] {
        vstd::utf8::char_u32_cast(a[0], a[0] as u32);
        vstd::utf8::char_u32_cast(b[0], b[0] as u32);
    }
}

/// Comparing runs of non-digits is antisymmetric.
proof fn lemma_text_run_order(a: Seq<char>, b: Seq<char>)
    ensures
        text_run_order(a, b) == -text_run_order(b, a),
        -1 <= text_run_order(a, b) <= 1,
    decreases a.len(),
{
    let ha = run_head(a);
    let hb = run_head(b);
    if ha is Some && hb is Some && a[0] == b[0] {
        lemma_text_run_order(a.skip(1), b.skip(1));
    } else if ha is Some && hb is Some {
        let (x, y) = (a[0], b[0]);
        vstd::utf8::char_u32_cast(x, x as u32);
        vstd::utf8::char_u32_cast(y, y as u32);
        vstd::utf8::char_is_scalar(x);
        vstd::utf8::char_is_scalar(y);
        assert(run_rank(ha) != run_rank(hb));
    } else if ha is Some || hb is Some {
        assert(run_rank(ha) != run_rank(hb));
    }
}

/// Comparing numbers is antisymmetric, and finds two equal only when their
/// digits are the same.
proof fn lemma_number_order(da: Seq<char>, db: Seq<char>)
    ensures
        number_order(da, db) == -number_order(db, da),
        -1 <= number_order(da, db) <= 1,
        (number_order(da, db) == 0) == (da == db),
{
    lemma_lex_order(da, db);
}

/// Comparing part by part is antisymmetric.
proof fn lemma_parts_order(a: Seq<char>, b: Seq<char>)
    ensures
        parts_order(a, b) == -parts_order(b, a),
        -1 <= parts_order(a, b) <= 1,
    decreases a.len() + b.len(),
{
    lemma_text_run_order(a, b);
    lemma_number_order(number_part(a), number_part(b));
    if text_run_order(a, b) == 0 && number_order(number_part(a), number_part(b)) == 0 {
        let a3 = after_part(a);
        let b3 = after_part(b);
        if a3.len() + b3.len() < a.len() + b.len() {
            lemma_parts_order(a3, b3);
        }
    }
}

/// Distinct characters of a run have distinct ranks, none of them that of
/// the end of a run.
proof fn lemma_rank_distinct(x: char, y: char)
    ensures
        run_rank(Some(x)) != 0,
        run_rank(Some(x)) == run_rank(Some(y)) ==> x == y,
        ((x as u32) == (y as u32)) == (x == y),
{
    vstd::utf8::char_u32_cast(x, x as u32);
    vstd::utf8::char_u32_cast(y, y as u32);
    vstd::utf8::char_is_scalar(x);
    vstd::utf8::char_is_scalar(y);
}

/// Comparing character by character is transitive.
pub proof fn lemma_lex_order_trans(a: Seq<char>, b: Seq<char>, c: Seq<char>)
    requires
        lex_order(a, b) <= 0,
        lex_order(b, c) <= 0,
    ensures
        lex_order(a, c) <= 0,
    decreases a.len(),
{
    if a.len() > 0 && b.len() > 0 && c.len() > 0 {
        lemma_rank_distinct(a[0], b[0]);
        lemma_rank_distinct(b[0], c[0]);
        lemma_rank_distinct(a[0], c[0]);
        lemma_lex_order(a.skip(1), b.skip(1));
        lemma_lex_order(b.skip(1), c.skip(1));
        lemma_lex_order(a.skip(1), c.skip(1));
        if a[0] == b[0] && b[0] == c[0] {
            lemma_lex_order_trans(a.skip(1), b.skip(1), c.skip(1));
        }
    }
}

/// Comparing runs of non-digits is transitive.
proof fn lemma_text_run_order_trans(a: Seq<char>, b: Seq<char>, c: Seq<char>)
    requires
        text_run_order(a, b) <= 0,
        text_run_order(b, c) <= 0,
    ensures
        text_run_order(a, c) <= 0,
    decreases a.len(),
{
    let (ha, hb, hc) = (run_head(a), run_head(b), run_head(c));
    if ha is Some {
        lemma_rank_distinct(a[0], a[0]);
    }
    if hb is Some {
        lemma_rank_distinct(b[0], b[0]);
    }
    if hc is Some {
        lemma_rank_distinct(c[0], c[0]);
    }
    if ha is Some && hb is Some {
        lemma_rank_distinct(a[0], b[0]);
    }
    if hb is Some && hc is Some {
        lemma_rank_distinct(b[0], c[0]);
    }
    if ha is Some && hc is Some {
        lemma_rank_distinct(a[0], c[0]);
    }
    if a.len() > 0 && b.len() > 0 && c.len() > 0 {
        lemma_text_run_order(a.skip(1), b.skip(1));
        lemma_text_run_order(b.skip(1), c.skip(1));
        lemma_text_run_order(a.skip(1), c.skip(1));
    }
    if ha is Some && hb is Some && hc is Some && a[0] == b[0] && b[0] == c[0] {
        lemma_text_run_order_trans(a.skip(1), b.skip(1), c.skip(1));
    }
}

/// Comparing numbers is transitive.
proof fn lemma_number_order_trans(a: Seq<char>, b: Seq<char>, c: Seq<char>)
    requires
        number_order(a, b) <= 0,
        number_order(b, c) <= 0,
    ensures
        number_order(a, c) <= 0,
{
    if a.len() == b.len() && b.len() == c.len() {
        lemma_lex_order_trans(a, b, c);
    }
}

/// Reading a part takes at least one character of a name that is not empty.
proof fn lemma_after_part_shorter(s: Seq<char>)
    ensures
        after_part(s).len() <= s.len(),
        s.len() > 0 ==> after_part(s).len() < s.len(),
{
    lemma_run_len_bounds(s, false);
    let s2 = s.skip(run_len(s, false));
    lemma_run_len_bounds(s2, true);
    if s.len() > 0 {
        lemma_run_len_bounds(s.skip(1), false);
        if is_digit(s[0]) {
            assert(s2 =~= s);
            lemma_run_len_bounds(s.skip(1), true);
        }
    }
}

/// A relation that is transitive in its `<= 0` form and antisymmetric is
/// strictly transitive: `x < y <= z` and `x <= y < z` give `x < z`.
pub proof fn lemma_strict_from_weak(ab: int, ba: int, bc: int, cb: int, ac: int, ca: int)
    requires
        ab == -ba,
        bc == -cb,
        ac == -ca,
        ab <= 0 && bc <= 0 ==> ac <= 0,
        ca <= 0 && ab <= 0 ==> cb <= 0,
        bc <= 0 && ca <= 0 ==> ba <= 0,
        cb <= 0 && ba <= 0 ==> ca <= 0,
    ensures
        (ab < 0 && bc <= 0) || (ab <= 0 && bc < 0) ==> ac < 0,
        ab == 0 && bc == 0 ==> ac == 0,
{
}

/// Comparing part by part is transitive.
proof fn lemma_parts_order_trans(a: Seq<char>, b: Seq<char>, c: Seq<char>)
    requires
        parts_order(a, b) <= 0,
        parts_order(b, c) <= 0,
    ensures
        parts_order(a, c) <= 0,
    decreases a.len() + b.len() + c.len(),
{
    lemma_text_run_order(a, b);
    lemma_text_run_order(b, c);
    lemma_text_run_order(a, c);
    let (tab, tbc, tac) = (text_run_order(a, b), text_run_order(b, c), text_run_order(a, c));
    if tab <= 0 && tbc <= 0 {
        lemma_text_run_order_trans(a, b, c);
    }
    if tac >= 0 && tab <= 0 {
        lemma_text_run_order_trans(c, a, b);
    }
    if tbc <= 0 && tac >= 0 {
        lemma_text_run_order_trans(b, c, a);
    }
    if tbc >= 0 && tab >= 0 {
        lemma_text_run_order_trans(c, b, a);
    }
    lemma_strict_from_weak(tab, -tab, tbc, -tbc, tac, -tac);
    let (na, nb, nc) = (number_part(a), number_part(b), number_part(c));
    lemma_number_order(na, nb);
    lemma_number_order(nb, nc);
    lemma_number_order(na, nc);
    let (nab, nbc, nac) = (number_order(na, nb), number_order(nb, nc), number_order(na, nc));
    if nab <= 0 && nbc <= 0 {
        lemma_number_order_trans(na, nb, nc);
    }
    if nac >= 0 && nab <= 0 {
        lemma_number_order_trans(nc, na, nb);
    }
    if nbc <= 0 && nac >= 0 {
        lemma_number_order_trans(nb, nc, na);
    }
    if nbc >= 0 && nab >= 0 {
        lemma_number_order_trans(nc, nb, na);
    }
    lemma_strict_from_weak(nab, -nab, nbc, -nbc, nac, -nac);
    if tab == 0 && tbc == 0 && nab == 0 && nbc == 0 {
        let (a3, b3, c3) = (after_part(a), after_part(b), after_part(c));
        lemma_after_part_shorter(a);
        lemma_after_part_shorter(b);
        lemma_after_part_shorter(c);
        if a.len() + b.len() + c.len() > 0 {
            if a.len() == 0 && b.len() == 0 {
                assert(a3.len() == 0 && b3.len() == 0);
                assert(parts_order(a3, b3) == 0);
            }
            if b.len() == 0 && c.len() == 0 {
                assert(b3.len() == 0 && c3.len() == 0);
                assert(parts_order(b3, c3) == 0);
            }
            lemma_parts_order_trans(a3, b3, c3);
        }
    }
}

/// The version order is a comparison: antisymmetric, and it finds two
/// names equal only when they are the same name.
pub proof fn law_version_order_antisymmetric(a: Seq<char>, b: Seq<char>)
    ensures
        version_order(a, b) == -version_order(b, a),
        -1 <= version_order(a, b) <= 1,
        (version_order(a, b) == 0) == (a == b),
{
    lemma_lex_order(a, b);
    if a != b && a.len() > 0 && b.len() > 0 {
        let x = if a[0] == '.' { a.skip(1) } else { a };
        let y = if a[0] == '.' { b.skip(1) } else { b };
        lemma_parts_order(x.take(suffix_start(x)), y.take(suffix_start(y)));
        lemma_parts_order(x, y);
    }
}

/// The group of a name in the version order: the empty name, `.`, `..`,
/// the other names that begin with a dot, and the rest.
pub open spec fn name_group(a: Seq<char>) -> int {
    if a.len() == 0 {
        0
    } else if a == seq!['.'] {
        1
    } else if a == seq!['.', '.'] {
        2
    } else if a[0] == '.' {
        3
    } else {
        4
    }
}

/// The name without the dot that begins it, if any.
pub open spec fn undotted(a: Seq<char>) -> Seq<char> {
    if a.len() > 0 && a[0] == '.' {
        a.skip(1)
    } else {
        a
    }
}

/// The comparison of names of the same group past the first three.
pub open spec fn same_group_order(a: Seq<char>, b: Seq<char>) -> int {
    let x = undotted(a);
    let y = undotted(b);
    let c1 = parts_order(x.take(suffix_start(x)), y.take(suffix_start(y)));
    if c1 != 0 {
        c1
    } else {
        let c2 = parts_order(x, y);
        if c2 != 0 {
            c2
        } else {
            lex_order(a, b)
        }
    }
}

/// The version order of different names goes by their groups, then, within
/// the last two groups, by `same_group_order`.
proof fn lemma_version_order_by_group(a: Seq<char>, b: Seq<char>)
    ensures
        a != b ==> version_order(a, b) == if name_group(a) < name_group(b) {
            -1
        } else if name_group(a) > name_group(b) {
            1
        } else {
            same_group_order(a, b)
        },
        a != b && name_group(a) == name_group(b) ==> name_group(a) >= 3,
{
    if a != b && name_group(a) == name_group(b) {
        if name_group(a) == 0 {
            assert(a =~= b);
        }
        if name_group(a) == 1 || name_group(a) == 2 {
            assert(a == b);
        }
    }
}

/// The comparison within a group is transitive.
proof fn lemma_same_group_order_trans(a: Seq<char>, b: Seq<char>, c: Seq<char>)
    requires
        same_group_order(a, b) <= 0,
        same_group_order(b, c) <= 0,
    ensures
        same_group_order(a, c) <= 0,
{
    let (x, y, z) = (undotted(a), undotted(b), undotted(c));
    let (px, py, pz) = (x.take(suffix_start(x)), y.take(suffix_start(y)), z.take(suffix_start(z)));
    lemma_parts_order(px, py);
    lemma_parts_order(py, pz);
    lemma_parts_order(px, pz);
    let (ab, bc, ac) = (parts_order(px, py), parts_order(py, pz), parts_order(px, pz));
    if ab <= 0 && bc <= 0 {
        lemma_parts_order_trans(px, py, pz);
    }
    if ac >= 0 && ab <= 0 {
        lemma_parts_order_trans(pz, px, py);
    }
    if bc <= 0 && ac >= 0 {
        lemma_parts_order_trans(py, pz, px);
    }
    if bc >= 0 && ab >= 0 {
        lemma_parts_order_trans(pz, py, px);
    }
    lemma_strict_from_weak(ab, -ab, bc, -bc, ac, -ac);
    lemma_parts_order(x, y);
    lemma_parts_order(y, z);
    lemma_parts_order(x, z);
    let (ab2, bc2, ac2) = (parts_order(x, y), parts_order(y, z), parts_order(x, z));
    if ab2 <= 0 && bc2 <= 0 {
        lemma_parts_order_trans(x, y, z);
    }
    if ac2 >= 0 && ab2 <= 0 {
        lemma_parts_order_trans(z, x, y);
    }
    if bc2 <= 0 && ac2 >= 0 {
        lemma_parts_order_trans(y, z, x);
    }
    if bc2 >= 0 && ab2 >= 0 {
        lemma_parts_order_trans(z, y, x);
    }
    lemma_strict_from_weak(ab2, -ab2, bc2, -bc2, ac2, -ac2);
    lemma_lex_order(a, b);
    lemma_lex_order(b, c);
    lemma_lex_order(a, c);
    let (ab3, bc3, ac3) = (lex_order(a, b), lex_order(b, c), lex_order(a, c));
    if ab3 <= 0 && bc3 <= 0 {
        lemma_lex_order_trans(a, b, c);
    }
    if ac3 >= 0 && ab3 <= 0 {
        lemma_lex_order_trans(c, a, b);
    }
    if bc3 <= 0 && ac3 >= 0 {
        lemma_lex_order_trans(b, c, a);
    }
    if bc3 >= 0 && ab3 >= 0 {
        lemma_lex_order_trans(c, b, a);
    }
    lemma_strict_from_weak(ab3, -ab3, bc3, -bc3, ac3, -ac3);
}

/// The version order is transitive: a name that comes no later than a
/// second, which comes no later than a third, comes no later than the third.
pub proof fn law_version_order_transitive(a: Seq<char>, b: Seq<char>, c: Seq<char>)
    requires
        version_order(a, b) <= 0,
        version_order(b, c) <= 0,
    ensures
        version_order(a, c) <= 0,
{
    law_version_order_antisymmetric(a, b);
    law_version_order_antisymmetric(b, c);
    law_version_order_antisymmetric(a, c);
    lemma_version_order_by_group(a, b);
    lemma_version_order_by_group(b, c);
    lemma_version_order_by_group(a, c);
    if a != b && b != c && a != c && name_group(a) == name_group(b) && name_group(b) == name_group(c) {
        lemma_same_group_order_trans(a, b, c);
    }
}

/// Entry `i` comes before entry `j` of `names` in the version order; entries
/// of the same name keep their order.
pub open spec fn version_before(names: Seq<Seq<char>>, i: int, j: int) -> bool {
    version_order(names[i], names[j]) < 0 || (version_order(names[i], names[j]) == 0 && i < j)
}

/// `version_before` is a strict total order of the entries.
pub proof fn lemma_version_before(names: Seq<Seq<char>>, i: int, j: int, k: int)
    ensures
        !version_before(names, i, i),
        i != j ==> version_before(names, i, j) || version_before(names, j, i),
        version_before(names, i, j) ==> !version_before(names, j, i),
        version_before(names, i, j) && version_before(names, j, k) ==> version_before(names, i, k),
{
    let (a, b, c) = (names[i], names[j], names[k]);
    law_version_order_antisymmetric(a, a);
    law_version_order_antisymmetric(a, b);
    law_version_order_antisymmetric(b, c);
    law_version_order_antisymmetric(a, c);
    if version_order(a, b) <= 0 && version_order(b, c) <= 0 {
        law_version_order_transitive(a, b, c);
    }
}

fn is_digit_char(c: char) -> (r: bool)
    ensures
        r == is_digit(c),
{
    '0' <= c && c <= '9'
}

fn is_letter_char(c: char) -> (r: bool)
    ensures
        r == is_ascii_letter(c),
{
    ('a' <= c && c <= 'z') || ('A' <= c && c <= 'Z')
}

fn rank_of(c: Option<char>) -> (r: i64)
    ensures
        r == run_rank(c),
{
    match c {
        None => 0,
        Some(c) => if c == '~' {
            -1
        } else if is_letter_char(c) {
            c as u32 as i64
        } else {
            c as u32 as i64 + 0x110000
        },
    }
}

fn head_of(s: &[char]) -> (r: Option<char>)
    ensures
        r == run_head(s@),
{
    if s.len() > 0 && !is_digit_char(s[0]) {
        Some(s[0])
    } else {
        None
    }
}

fn rest(s: &[char], k: usize) -> (r: &[char])
    requires
        k <= s@.len(),
    ensures
        r@ == s@.skip(k as int),
{
    let r = vstd::slice::slice_subrange(s, k, s.len());
    assert(r@ =~= s@.skip(k as int));
    r
}

fn text_run_order_exec(a: &[char], b: &[char]) -> (r: i8)
    ensures
        r == text_run_order(a@, b@),
    decreases a@.len(),
{
    let ha = head_of(a);
    let hb = head_of(b);
    if ha.is_some() && hb.is_some() && a[0] == b[0] {
        text_run_order_exec(rest(a, 1), rest(b, 1))
    } else if ha.is_none() && hb.is_none() {
        0
    } else if rank_of(ha) < rank_of(hb) {
        -1
    } else {
        1
    }
}

fn run_len_exec(s: &[char], digits: bool) -> (r: usize)
    ensures
        r == run_len(s@, digits),
        r <= s@.len(),
    decreases s@.len(),
{
    if s.len() > 0 && is_digit_char(s[0]) == digits {
        1 + run_len_exec(rest(s, 1), digits)
    } else {
        0
    }
}

fn zeros_len_exec(s: &[char]) -> (r: usize)
    ensures
        r == zeros_len(s@),
        r <= s@.len(),
    decreases s@.len(),
{
    if s.len() > 0 && s[0] == '0' {
        1 + zeros_len_exec(rest(s, 1))
    } else {
        0
    }
}

/// Compares two strings character by character (`lex_order`).
pub fn lex_order_exec(a: &[char], b: &[char]) -> (r: i8)
    ensures
        r == lex_order(a@, b@),
    decreases a@.len(),
{
    if a.len() == 0 && b.len() == 0 {
        0
    } else if a.len() == 0 {
        -1
    } else if b.len() == 0 {
        1
    } else if a[0] == b[0] {
        lex_order_exec(rest(a, 1), rest(b, 1))
    } else if (a[0] as u32) < (b[0] as u32) {
        -1
    } else {
        1
    }
}

fn same_chars(a: &[char], b: &[char]) -> (r: bool)
    ensures
        r == (a@ == b@),
{
    if a.len() != b.len() {
        return false;
    }
    let mut i: usize = 0;
    while i < a.len()
        invariant
            i <= a@.len(),
            a@.len() == b@.len(),
            forall|j: int| 0 <= j < i ==> a@[j] == b@[j],
        decreases a@.len() - i,
    {
        if a[i] != b[i] {
            return false;
        }
        i = i + 1;
    }
    assert(a@ =~= b@);
    true
}

/// The zeros at the front are among the digits at the front.
proof fn lemma_zeros_within_digits(s: Seq<char>)
    ensures
        0 <= zeros_len(s) <= run_len(s, true),
    decreases s.len(),
{
    if s.len() > 0 {
        lemma_zeros_within_digits(s.skip(1));
        lemma_run_len_bounds(s.skip(1), true);
    }
}

proof fn lemma_run_len_bounds(s: Seq<char>, digits: bool)
    ensures
        0 <= run_len(s, digits) <= s.len(),
    decreases s.len(),
{
    if s.len() > 0 {
        lemma_run_len_bounds(s.skip(1), digits);
    }
}

fn parts_order_exec(a: &[char], b: &[char]) -> (r: i8)
    ensures
        r == parts_order(a@, b@),
    decreases a@.len() + b@.len(),
{
    let c = text_run_order_exec(a, b);
    if c != 0 {
        return c;
    }
    let a2 = rest(a, run_len_exec(a, false));
    let b2 = rest(b, run_len_exec(b, false));
    let ea = run_len_exec(a2, true);
    let eb = run_len_exec(b2, true);
    proof {
        lemma_zeros_within_digits(a2@);
        lemma_zeros_within_digits(b2@);
    }
    let da = vstd::slice::slice_subrange(a2, zeros_len_exec(a2), ea);
    let db = vstd::slice::slice_subrange(b2, zeros_len_exec(b2), eb);
    let n: i8 = if da.len() < db.len() {
        -1
    } else if da.len() > db.len() {
        1
    } else {
        lex_order_exec(da, db)
    };
    if n != 0 {
        return n;
    }
    let a3 = rest(a2, ea);
    let b3 = rest(b2, eb);
    assert(a3@.len() <= a@.len() && b3@.len() <= b@.len());
    if a3.len() < a.len() || b3.len() < b.len() {
        parts_order_exec(a3, b3)
    } else {
        0
    }
}

proof fn lemma_suffix_run_end_bounds(s: Seq<char>, i: int)
    ensures
        i <= suffix_run_end(s, i),
        0 <= i <= s.len() ==> suffix_run_end(s, i) <= s.len(),
    decreases s.len() - i,
{
    if 0 <= i < s.len() && suffix_char(s[i]) {
        lemma_suffix_run_end_bounds(s, i + 1);
    }
}

fn suffix_run_end_exec(s: &[char], i: usize) -> (r: usize)
    requires
        i <= s@.len(),
    ensures
        r == suffix_run_end(s@, i as int),
        i <= r <= s@.len(),
    decreases s@.len() - i,
{
    if i < s.len() && (is_letter_char(s[i]) || is_digit_char(s[i]) || s[i] == '~') {
        suffix_run_end_exec(s, i + 1)
    } else {
        i
    }
}

fn suffix_from_exec(s: &[char], i: usize) -> (r: bool)
    requires
        i <= s@.len(),
    ensures
        r == suffix_from(s@, i as int),
    decreases s@.len() - i,
{
    if i == s.len() {
        true
    } else if i + 1 < s.len() && s[i] == '.' && (is_letter_char(s[i + 1]) || s[i + 1] == '~') {
        let k = suffix_run_end_exec(s, i + 2);
        if k > i && k <= s.len() && (k == s.len() || s[k] == '.') {
            suffix_from_exec(s, k)
        } else {
            false
        }
    } else {
        false
    }
}

fn suffix_start_exec(s: &[char]) -> (r: usize)
    ensures
        r == suffix_start(s@),
        r <= s@.len(),
{
    let mut p: usize = 0;
    while p < s.len() && !suffix_from_exec(s, p)
        invariant
            p <= s@.len(),
            suffix_start_from(s@, p as int) == suffix_start(s@),
        decreases s@.len() - p,
    {
        p = p + 1;
    }
    p
}

/// The version order of two file names (`version_order`): -1 when `a`
/// comes first, 0 when they are equal, 1 when `b` comes first.
pub fn compare_versions(a: &str, b: &str) -> (r: i8)
    ensures
        r == version_order(a@, b@),
{
    let av = crate::text::chars_of(a);
    let bv = crate::text::chars_of(b);
    compare_version_chars(av.as_slice(), bv.as_slice())
}

/// The version order of two file names given by their characters.
pub fn compare_version_chars(x: &[char], y: &[char]) -> (r: i8)
    ensures
        r == version_order(x@, y@),
{
    if same_chars(x, y) {
        return 0;
    }
    if x.len() == 0 {
        return -1;
    }
    if y.len() == 0 {
        return 1;
    }
    let one_dot = x.len() == 1 && x[0] == '.';
    let other_dot = y.len() == 1 && y[0] == '.';
    assert(one_dot == (x@ == seq!['.'])) by {
        if x@.len() == 1 && x@[0] == '.' {
            assert(x@ =~= seq!['.']);
        }
    }
    assert(other_dot == (y@ == seq!['.'])) by {
        if y@.len() == 1 && y@[0] == '.' {
            assert(y@ =~= seq!['.']);
        }
    }
    if one_dot {
        return -1;
    }
    if other_dot {
        return 1;
    }
    let two_dots = x.len() == 2 && x[0] == '.' && x[1] == '.';
    let other_two = y.len() == 2 && y[0] == '.' && y[1] == '.';
    assert(two_dots == (x@ == seq!['.', '.'])) by {
        if x@.len() == 2 && x@[0] == '.' && x@[1] == '.' {
            assert(x@ =~= seq!['.', '.']);
        }
    }
    assert(other_two == (y@ == seq!['.', '.'])) by {
        if y@.len() == 2 && y@[0] == '.' && y@[1] == '.' {
            assert(y@ =~= seq!['.', '.']);
        }
    }
    if two_dots {
        return -1;
    }
    if other_two {
        return 1;
    }
    if x[0] == '.' && y[0] != '.' {
        return -1;
    }
    if y[0] == '.' && x[0] != '.' {
        return 1;
    }
    let (x1, y1) = if x[0] == '.' {
        (rest(x, 1), rest(y, 1))
    } else {
        (x, y)
    };
    let px = vstd::slice::slice_subrange(x1, 0, suffix_start_exec(x1));
    let py = vstd::slice::slice_subrange(y1, 0, suffix_start_exec(y1));
    assert(px@ =~= x1@.take(suffix_start(x1@)));
    assert(py@ =~= y1@.take(suffix_start(y1@)));
    let c1 = parts_order_exec(px, py);
    if c1 != 0 {
        return c1;
    }
    let c2 = parts_order_exec(x1, y1);
    if c2 != 0 {
        return c2;
    }
    lex_order_exec(x, y)
}

} // verus!
