//! Small string and number helpers shared by the tools.

use vstd::prelude::*;

verus! {

/// Appends one character to a string (`String::push`).
/// Claims that the new contents are the old ones followed by `c`.
#[verifier::external_body]
pub(crate) fn push_char(s: &mut String, c: char)
    ensures
        final(s)@ == old(s)@.push(c),
{
    s.push(c);
}

/// The contents of a list of strings.
pub open spec fn strs(v: Seq<String>) -> Seq<Seq<char>> {
    v.map_values(|s: String| s@)
}

/// A decimal digit.
pub open spec fn is_digit(c: char) -> bool {
    '0' <= c && c <= '9'
}

/// A copy of a list of strings.
pub fn clone_strings(v: &[String]) -> (r: Vec<String>)
    ensures
        r@ == v@,
{
    let mut r: Vec<String> = Vec::new();
    let mut i: usize = 0;
    while i < v.len()
        invariant
            i <= v@.len(),
            r@ == v@.take(i as int),
        decreases v@.len() - i,
    {
        r.push(v[i].clone());
        assert(r@ =~= v@.take(i + 1));
        i = i + 1;
    }
    assert(v@.take(v@.len() as int) =~= v@);
    r
}

/// The characters of a string, in order.
pub fn chars_of(s: &str) -> (r: Vec<char>)
    ensures
        r@ == s@,
{
    let mut r: Vec<char> = Vec::new();
    for c in it: s.chars()
        invariant
            r@ == it.seq().take(it.index() as int),
            it.seq() == s@,
    {
        r.push(c);
    }
    r
}

/// A string made of the given characters, in order.
pub fn string_from_chars(cs: &[char]) -> (r: String)
    ensures
        r@ == cs@,
{
    let mut r = String::new();
    let mut i: usize = 0;
    while i < cs.len()
        invariant
            i <= cs@.len(),
            r@ == cs@.take(i as int),
        decreases cs@.len() - i,
    {
        push_char(&mut r, cs[i]);
        assert(cs@.take(i + 1) =~= cs@.take(i as int).push(cs@[i as int]));
        i = i + 1;
    }
    assert(cs@.take(cs@.len() as int) =~= cs@);
    r
}

/// The result of `str::replace`: every occurrence of the non-empty `pat`,
/// found from left to right without overlap, replaced by `rep`.
pub open spec fn replace_all(s: Seq<char>, pat: Seq<char>, rep: Seq<char>) -> Seq<char>
    decreases s.len(),
{
    if s.len() == 0 || pat.len() == 0 {
        s
    } else if pat.len() <= s.len() && s.take(pat.len() as int) == pat {
        rep + replace_all(s.skip(pat.len() as int), pat, rep)
    } else {
        seq![s[0]] + replace_all(s.skip(1), pat, rep)
    }
}

/// Whether `pat` occurs in `s` at position `i`.
fn matches_at(s: &[char], i: usize, pat: &[char]) -> (r: bool)
    requires
        i <= s@.len(),
    ensures
        r == (pat@.len() <= s@.len() - i && s@.skip(i as int).take(pat@.len() as int) == pat@),
{
    if pat.len() > s.len() - i {
        return false;
    }
    let mut k: usize = 0;
    while k < pat.len()
        invariant
            k <= pat@.len() <= s@.len() - i,
            i + pat@.len() <= s.len(),
            forall|j: int| 0 <= j < k ==> s@[i + j] == pat@[j],
        decreases pat@.len() - k,
    {
        if s[i + k] != pat[k] {
            assert(s@.skip(i as int).take(pat@.len() as int)[k as int] != pat@[k as int]);
            return false;
        }
        k = k + 1;
    }
    assert(s@.skip(i as int).take(pat@.len() as int) =~= pat@);
    true
}

/// Whether `pat` occurs somewhere in `s`.
pub open spec fn occurs_in(pat: Seq<char>, s: Seq<char>) -> bool {
    exists|i: int| 0 <= i && i + pat.len() <= s.len() && #[trigger] s.subrange(i, i + pat.len()) == pat
}

/// Whether `pat` occurs somewhere in `s` (`str::contains`).
pub fn contains_chars(s: &[char], pat: &[char]) -> (r: bool)
    ensures
        r == occurs_in(pat@, s@),
{
    if pat.len() == 0 {
        let ghost z: int = 0;
        assert(s@.subrange(z, z + pat@.len()) =~= pat@);
        return true;
    }
    if pat.len() > s.len() {
        return false;
    }
    let last = s.len() - pat.len();
    let mut i: usize = 0;
    while i <= last
        invariant
            last == s@.len() - pat@.len(),
            s@.len() <= usize::MAX,
            pat@.len() > 0,
            i <= last + 1,
            forall|j: int| 0 <= j < i ==> #[trigger] s@.subrange(j, j + pat@.len()) != pat@,
        decreases last + 1 - i,
    {
        assert(s@.subrange(i as int, i + pat@.len()) =~= s@.skip(i as int).take(pat@.len() as int));
        if matches_at(s, i, pat) {
            return true;
        }
        i = i + 1;
    }
    false
}

/// Replaces every occurrence of `pat` in `s` by `rep`, as `str::replace` does.
pub fn replace_chars(s: &[char], pat: &[char], rep: &[char]) -> (r: Vec<char>)
    requires
        pat@.len() > 0,
    ensures
        r@ == replace_all(s@, pat@, rep@),
{
    let mut r: Vec<char> = Vec::new();
    let mut i: usize = 0;
    assert(s@.skip(0) =~= s@);
    assert(r@ + replace_all(s@, pat@, rep@) =~= replace_all(s@, pat@, rep@));
    while i < s.len()
        invariant
            i <= s@.len(),
            pat@.len() > 0,
            r@ + replace_all(s@.skip(i as int), pat@, rep@) == replace_all(s@, pat@, rep@),
        decreases s@.len() - i,
    {
        let ghost rest = s@.skip(i as int);
        if matches_at(s, i, pat) {
            assert(rest.take(pat@.len() as int) == pat@);
            assert(rest.skip(pat@.len() as int) =~= s@.skip(i + pat@.len()));
            let mut k: usize = 0;
            let ghost r0 = r@;
            while k < rep.len()
                invariant
                    k <= rep@.len(),
                    r@ == r0 + rep@.take(k as int),
                decreases rep@.len() - k,
            {
                r.push(rep[k]);
                assert(rep@.take(k + 1) =~= rep@.take(k as int).push(rep@[k as int]));
                k = k + 1;
            }
            assert(rep@.take(rep@.len() as int) =~= rep@);
            assert(r@ + replace_all(s@.skip(i + pat@.len()), pat@, rep@) =~= r0 + replace_all(
                rest,
                pat@,
                rep@,
            ));
            i = i + pat.len();
        } else {
            assert(rest.skip(1) =~= s@.skip(i + 1));
            let ghost r0 = r@;
            r.push(s[i]);
            assert(r@ + replace_all(s@.skip(i + 1), pat@, rep@) =~= r0 + replace_all(
                rest,
                pat@,
                rep@,
            ));
            i = i + 1;
        }
    }
    assert(replace_all(s@.skip(i as int), pat@, rep@) =~= Seq::<char>::empty());
    assert(r@ + Seq::<char>::empty() =~= r@);
    r
}

/// Appends the characters of `t` to `v`.
pub fn push_str(v: &mut Vec<char>, t: &str)
    ensures
        final(v)@ == old(v)@ + t@,
{
    let cs = chars_of(t);
    let mut k: usize = 0;
    while k < cs.len()
        invariant
            k <= cs@.len(),
            cs@ == t@,
            v@ == old(v)@ + cs@.take(k as int),
        decreases cs@.len() - k,
    {
        v.push(cs[k]);
        assert(cs@.take(k + 1) =~= cs@.take(k as int).push(cs@[k as int]));
        k = k + 1;
    }
    assert(cs@.take(cs@.len() as int) =~= cs@);
}

/// Appends the characters of `t` to `v`.
pub fn push_chars(v: &mut Vec<char>, t: &[char])
    ensures
        final(v)@ == old(v)@ + t@,
{
    let mut k: usize = 0;
    while k < t.len()
        invariant
            k <= t@.len(),
            v@ == old(v)@ + t@.take(k as int),
        decreases t@.len() - k,
    {
        v.push(t[k]);
        assert(t@.take(k + 1) =~= t@.take(k as int).push(t@[k as int]));
        k = k + 1;
    }
    assert(t@.take(t@.len() as int) =~= t@);
}

/// The character of a decimal digit.
pub open spec fn digit_char(d: nat) -> char {
    if d == 0 { '0' } else if d == 1 { '1' } else if d == 2 { '2' } else if d == 3 { '3' }
    else if d == 4 { '4' } else if d == 5 { '5' } else if d == 6 { '6' } else if d == 7 { '7' }
    else if d == 8 { '8' } else { '9' }
}

/// The decimal digits of `n`, without leading zeros (`0` for zero).
pub open spec fn decimal(n: nat) -> Seq<char>
    decreases n,
{
    if n < 10 {
        seq![digit_char(n)]
    } else {
        decimal(n / 10).push(digit_char(n % 10))
    }
}

/// The decimal form of `n`, as `to_string` writes it.
pub fn u64_decimal(n: u64) -> (r: Vec<char>)
    ensures
        r@ == decimal(n as nat),
    decreases n,
{
    let d = n % 10;
    let c = if d == 0 { '0' } else if d == 1 { '1' } else if d == 2 { '2' } else if d == 3 { '3' }
        else if d == 4 { '4' } else if d == 5 { '5' } else if d == 6 { '6' } else if d == 7 { '7' }
        else if d == 8 { '8' } else { '9' };
    if n < 10 {
        vec![c]
    } else {
        let mut r = u64_decimal(n / 10);
        r.push(c);
        r
    }
}

/// The value of a string of decimal digits.
pub open spec fn digits_value(s: Seq<char>) -> nat
    decreases s.len(),
{
    if s.len() == 0 {
        0
    } else {
        digits_value(s.drop_last()) * 10 + ((s.last() as u32) - ('0' as u32)) as nat
    }
}

/// All characters are decimal digits.
pub open spec fn all_digits(s: Seq<char>) -> bool {
    forall|i: int| 0 <= i < s.len() ==> is_digit(#[trigger] s[i])
}

/// A number's text without its leading `+`, if any.
pub open spec fn unsigned_body(s: Seq<char>) -> Seq<char> {
    if s.len() > 0 && s[0] == '+' {
        s.skip(1)
    } else {
        s
    }
}

/// What `str::parse` gives for an unsigned integer type of maximum `max`:
/// an optional `+`, then at least one digit and nothing else, with a value
/// that fits.
pub open spec fn parse_unsigned(s: Seq<char>, max: nat) -> Option<nat> {
    let body = unsigned_body(s);
    if body.len() > 0 && all_digits(body) && digits_value(body) <= max {
        Some(digits_value(body))
    } else {
        None
    }
}

/// Parses an unsigned decimal number of at most `max`, as `str::parse` does.
pub fn parse_unsigned_exec(s: &[char], max: u64) -> (r: Option<u64>)
    ensures
        match parse_unsigned(s@, max as nat) {
            Some(v) => r == Some(v as u64),
            None => r is None,
        },
{
    let start: usize = if s.len() > 0 && s[0] == '+' { 1 } else { 0 };
    let ghost body = unsigned_body(s@);
    assert(body =~= s@.skip(start as int));
    if start >= s.len() {
        return None;
    }
    let mut v: u64 = 0;
    let mut i: usize = start;
    assert(s@.subrange(start as int, start as int) =~= Seq::<char>::empty());
    while i < s.len()
        invariant
            start <= i <= s@.len(),
            body == s@.skip(start as int),
            body == unsigned_body(s@),
            all_digits(s@.subrange(start as int, i as int)),
            v as nat == digits_value(s@.subrange(start as int, i as int)),
            v <= max,
        decreases s@.len() - i,
    {
        let c = s[i];
        if !('0' <= c && c <= '9') {
            assert(body[i - start] == c);
            assert(!is_digit(body[i - start]));
            assert(!all_digits(body));
            return None;
        }
        let d = (c as u32 - '0' as u32) as u64;
        let ghost pre = s@.subrange(start as int, i + 1);
        assert(pre.drop_last() =~= s@.subrange(start as int, i as int));
        assert(pre.last() == c);
        let w: u128 = (v as u128) * 10 + (d as u128);
        assert(w as nat == digits_value(pre));
        if w > max as u128 {
            proof {
                if all_digits(body) {
                    lemma_digits_prefix_monotone(body, (i + 1 - start) as int);
                    assert(body.take(i + 1 - start) =~= pre);
                    assert(digits_value(body) >= digits_value(pre));
                    assert(digits_value(body) > max as nat);
                }
            }
            return None;
        }
        v = w as u64;
        assert(all_digits(pre)) by {
            assert forall|j: int| 0 <= j < pre.len() implies is_digit(#[trigger] pre[j]) by {
                if j < pre.len() - 1 {
                    assert(pre[j] == s@.subrange(start as int, i as int)[j]);
                }
            }
        }
        i = i + 1;
    }
    assert(s@.subrange(start as int, s@.len() as int) =~= body);
    Some(v)
}

pub proof fn lemma_digit_char(d: nat)
    requires
        d < 10,
    ensures
        is_digit(digit_char(d)),
        ((digit_char(d) as u32) - ('0' as u32)) as nat == d,
{
}

pub proof fn lemma_decimal_digits(n: nat)
    ensures
        decimal(n).len() > 0,
        all_digits(decimal(n)),
        digits_value(decimal(n)) == n,
        decimal(n)[0] != '+',
    decreases n,
{
    lemma_digit_char(n % 10);
    if n < 10 {
        assert(decimal(n) =~= seq![digit_char(n)]);
        assert(seq![digit_char(n)].drop_last() =~= Seq::<char>::empty());
        assert(digits_value(Seq::<char>::empty()) == 0);
        assert(n % 10 == n);
    } else {
        lemma_decimal_digits(n / 10);
        let s = decimal(n);
        assert(s.drop_last() =~= decimal(n / 10));
        assert(s.last() == digit_char(n % 10));
        assert(s[0] == decimal(n / 10)[0]);
        assert(n == (n / 10) * 10 + n % 10) by (nonlinear_arith);
        assert forall|i: int| 0 <= i < s.len() implies is_digit(#[trigger] s[i]) by {
            if i < s.len() - 1 {
                assert(s[i] == decimal(n / 10)[i]);
            }
        }
    }
}

/// The decimal text that the tools write for a number reads back as that
/// number, as `str::parse` reads numbers, wherever the number fits.
pub proof fn law_decimal_reads_back(n: nat, max: nat)
    requires
        n <= max,
    ensures
        parse_unsigned(decimal(n), max) == Some(n),
{
    lemma_decimal_digits(n);
}

/// A longer digit prefix has at least the value of a shorter one.
pub proof fn lemma_digits_prefix_monotone(s: Seq<char>, k: int)
    requires
        0 <= k <= s.len(),
        all_digits(s),
    ensures
        digits_value(s.take(k)) <= digits_value(s),
    decreases s.len() - k,
{
    if k < s.len() {
        lemma_digits_prefix_monotone(s, k + 1);
        assert(s.take(k + 1).drop_last() =~= s.take(k));
        assert(is_digit(s[k]));
    } else {
        assert(s.take(k) =~= s);
    }
}

/// Whether two character sequences are equal.
pub fn seq_eq(a: &[char], b: &[char]) -> (r: bool)
    ensures
        r == (a@ == b@),
{
    if a.len() != b.len() {
        return false;
    }
    let mut i: usize = 0;
    while i < a.len()
        invariant
            i <= a@.len() == b@.len(),
            forall|j: int| 0 <= j < i ==> a@[j] == b@[j],
        decreases a@.len() - i,
    {
        if a[i] != b[i] {
            return false;
        }
        i = i + 1;
    }
    assert(a@ =~= b@);
    true
}

/// Whether two strings are equal.
pub fn str_is(a: &str, b: &str) -> (r: bool)
    ensures
        r == (a@ == b@),
{
    let x = chars_of(a);
    let y = chars_of(b);
    seq_eq(&x, &y)
}

/// A name as messages quote it.
pub open spec fn quoted(name: Seq<char>) -> Seq<char> {
    "'"@ + name + "'"@
}

/// Appends `name` to `v`, quoted as messages quote it.
pub fn push_quoted(v: &mut Vec<char>, name: &str)
    ensures
        final(v)@ == old(v)@ + quoted(name@),
{
    push_str(v, "'");
    push_str(v, name);
    push_str(v, "'");
    assert(final(v)@ =~= old(v)@ + quoted(name@));
}

/// `n` spaces.
pub open spec fn spaces(n: nat) -> Seq<char> {
    Seq::new(n, |i: int| ' ')
}

/// `s` padded with spaces on the left to at least `w` characters
/// (`format!("{:>w$}")` on text of one column per character).
pub open spec fn pad_start(s: Seq<char>, w: nat) -> Seq<char> {
    if s.len() >= w { s } else { spaces((w - s.len()) as nat) + s }
}

/// `s` padded with spaces on the right to at least `w` characters
/// (`format!("{:<w$}")` on text of one column per character).
pub open spec fn pad_end(s: Seq<char>, w: nat) -> Seq<char> {
    if s.len() >= w { s } else { s + spaces((w - s.len()) as nat) }
}

/// Appends `n` spaces to `v`.
pub fn push_spaces(v: &mut Vec<char>, n: usize)
    ensures
        final(v)@ == old(v)@ + spaces(n as nat),
{
    let mut k: usize = 0;
    while k < n
        invariant
            k <= n,
            v@ == old(v)@ + spaces(k as nat),
        decreases n - k,
    {
        v.push(' ');
        k = k + 1;
        assert(v@ =~= old(v)@ + spaces(k as nat));
    }
}

/// Appends `s` padded on the left to `w` characters.
pub fn push_pad_start(v: &mut Vec<char>, s: &[char], w: usize)
    ensures
        final(v)@ == old(v)@ + pad_start(s@, w as nat),
{
    if s.len() < w {
        push_spaces(v, w - s.len());
    }
    push_chars(v, s);
    assert(final(v)@ =~= old(v)@ + pad_start(s@, w as nat));
}

/// Appends `s` padded on the right to `w` characters.
pub fn push_pad_end(v: &mut Vec<char>, s: &[char], w: usize)
    ensures
        final(v)@ == old(v)@ + pad_end(s@, w as nat),
{
    push_chars(v, s);
    if s.len() < w {
        push_spaces(v, w - s.len());
    }
    assert(final(v)@ =~= old(v)@ + pad_end(s@, w as nat));
}

/// The decimal form of an integer, with `-` before a negative one.
pub open spec fn signed_decimal(n: int) -> Seq<char> {
    if n < 0 { seq!['-'] + decimal((-n) as nat) } else { decimal(n as nat) }
}

/// The decimal form of `n`, as `to_string` writes it.
pub fn i64_decimal(n: i64) -> (r: Vec<char>)
    ensures
        r@ == signed_decimal(n as int),
{
    if n < 0 {
        let m: u64 = if n == i64::MIN { 9223372036854775808u64 } else { (-n) as u64 };
        let mut r: Vec<char> = vec!['-'];
        let d = u64_decimal(m);
        push_chars(&mut r, &d);
        assert(r@ =~= seq!['-'] + decimal((-n) as nat));
        r
    } else {
        u64_decimal(n as u64)
    }
}

/// Why a text is not an integer of the type asked for (`IntErrorKind`).
#[derive(Debug, Clone, Copy, PartialEq, Eq, Structural)]
pub enum IntError {
    /// The text is empty.
    Empty,
    /// A character is not a digit, or a sign stands alone.
    InvalidDigit,
    /// The value is above the type's maximum.
    PosOverflow,
    /// The value is below the type's minimum.
    NegOverflow,
}

/// The message that std's `ParseIntError` displays.
pub open spec fn int_error_text(e: IntError) -> Seq<char> {
    match e {
        IntError::Empty => "cannot parse integer from empty string"@,
        IntError::InvalidDigit => "invalid digit found in string"@,
        IntError::PosOverflow => "number too large to fit in target type"@,
        IntError::NegOverflow => "number too small to fit in target type"@,
    }
}

/// The message of a parse error.
pub fn int_error_message(e: IntError) -> (r: &'static str)
    ensures
        r@ == int_error_text(e),
{
    match e {
        IntError::Empty => "cannot parse integer from empty string",
        IntError::InvalidDigit => "invalid digit found in string",
        IntError::PosOverflow => "number too large to fit in target type",
        IntError::NegOverflow => "number too small to fit in target type",
    }
}

/// Digits read from the left onto `acc`, each making it `acc * 10 + d`
/// (or `acc * 10 - d` for a negative number); the first character that is
/// not a digit, or the first step that leaves `[min, max]`, is the error.
pub open spec fn scan_digits(s: Seq<char>, acc: int, neg: bool, min: int, max: int) -> Result<int, IntError>
    decreases s.len(),
{
    if s.len() == 0 {
        Ok(acc)
    } else if !is_digit(s[0]) {
        Err(IntError::InvalidDigit)
    } else {
        let d = (s[0] as u32 - '0' as u32) as int;
        let next = if neg { acc * 10 - d } else { acc * 10 + d };
        if next > max {
            Err(IntError::PosOverflow)
        } else if next < min {
            Err(IntError::NegOverflow)
        } else {
            scan_digits(s.skip(1), next, neg, min, max)
        }
    }
}

/// What `str::parse` gives for a signed integer type of range `[min, max]`:
/// an optional sign, then digits.
pub open spec fn parse_signed(s: Seq<char>, min: int, max: int) -> Result<int, IntError> {
    if s.len() == 0 {
        Err(IntError::Empty)
    } else if (s[0] == '+' || s[0] == '-') && s.len() == 1 {
        Err(IntError::InvalidDigit)
    } else if s[0] == '+' {
        scan_digits(s.skip(1), 0, false, min, max)
    } else if s[0] == '-' {
        scan_digits(s.skip(1), 0, true, min, max)
    } else {
        scan_digits(s, 0, false, min, max)
    }
}

/// Parses an `i32` as `str::parse` does.
pub fn parse_i32(s: &[char]) -> (r: Result<i32, IntError>)
    ensures
        match parse_signed(s@, i32::MIN as int, i32::MAX as int) {
            Ok(v) => r matches Ok(x) && x as int == v,
            Err(e) => r == Err::<i32, IntError>(e),
        },
{
    if s.len() == 0 {
        return Err(IntError::Empty);
    }
    if (s[0] == '+' || s[0] == '-') && s.len() == 1 {
        return Err(IntError::InvalidDigit);
    }
    let neg = s[0] == '-';
    let start: usize = if s[0] == '+' || s[0] == '-' { 1 } else { 0 };
    let ghost body = s@.skip(start as int);
    assert(body == (if s@[0] == '+' || s@[0] == '-' { s@.skip(1) } else { s@ }));
    proof {
        if start == 0 {
            assert(s@.skip(0) =~= s@);
        }
    }
    assert(parse_signed(s@, i32::MIN as int, i32::MAX as int) == scan_digits(body, 0, neg, i32::MIN as int, i32::MAX as int));
    let mut acc: i64 = 0;
    let mut i: usize = start;
    while i < s.len()
        invariant
            start <= i <= s@.len(),
            body == s@.skip(start as int),
            parse_signed(s@, i32::MIN as int, i32::MAX as int) == scan_digits(body, 0, neg, i32::MIN as int, i32::MAX as int),
            i32::MIN <= acc <= i32::MAX,
            scan_digits(s@.skip(i as int), acc as int, neg, i32::MIN as int, i32::MAX as int)
                == scan_digits(body, 0, neg, i32::MIN as int, i32::MAX as int),
        decreases s@.len() - i,
    {
        let c = s[i];
        assert(s@.skip(i as int)[0] == c);
        assert(s@.skip(i as int).skip(1) =~= s@.skip(i + 1));
        if !('0' <= c && c <= '9') {
            return Err(IntError::InvalidDigit);
        }
        let d = (c as u32 - '0' as u32) as i64;
        let next: i64 = if neg { acc * 10 - d } else { acc * 10 + d };
        if next > i32::MAX as i64 {
            return Err(IntError::PosOverflow);
        }
        if next < i32::MIN as i64 {
            return Err(IntError::NegOverflow);
        }
        acc = next;
        i = i + 1;
    }
    assert(s@.skip(i as int) =~= Seq::<char>::empty());
    Ok(acc as i32)
}

/// Whether `s` begins with `p`.
pub fn starts_with_chars(s: &[char], p: &str) -> (r: bool)
    ensures
        r == (s@.len() >= p@.len() && s@.take(p@.len() as int) == p@),
{
    let pc = chars_of(p);
    if pc.len() > s.len() {
        return false;
    }
    let mut k: usize = 0;
    while k < pc.len()
        invariant
            k <= pc@.len() <= s@.len(),
            pc@ == p@,
            forall|j: int| 0 <= j < k ==> s@[j] == pc@[j],
        decreases pc@.len() - k,
    {
        if s[k] != pc[k] {
            assert(s@.take(pc@.len() as int)[k as int] != pc@[k as int]);
            return false;
        }
        k = k + 1;
    }
    assert(s@.take(pc@.len() as int) =~= pc@);
    true
}

/// The characters of `s` from position `from` on.
pub fn chars_from(s: &[char], from: usize) -> (r: Vec<char>)
    requires
        from <= s@.len(),
    ensures
        r@ == s@.skip(from as int),
{
    let mut r: Vec<char> = Vec::new();
    let mut k: usize = from;
    while k < s.len()
        invariant
            from <= k <= s@.len(),
            r@ == s@.subrange(from as int, k as int),
        decreases s@.len() - k,
    {
        r.push(s[k]);
        assert(s@.subrange(from as int, k + 1) =~= s@.subrange(from as int, k as int).push(s@[k as int]));
        k = k + 1;
    }
    assert(r@ =~= s@.skip(from as int));
    r
}

/// Where `pat` first occurs in `s`, if it does.
pub open spec fn first_occurrence(pat: Seq<char>, s: Seq<char>, i: int) -> Option<int>
    decreases s.len() + 1 - i,
{
    if i < 0 || i + pat.len() > s.len() {
        None
    } else if s.subrange(i, i + pat.len()) == pat {
        Some(i)
    } else {
        first_occurrence(pat, s, i + 1)
    }
}

/// Where `pat` first occurs in `s` (`str::find`).
pub fn find_chars(s: &[char], pat: &[char]) -> (r: Option<usize>)
    ensures
        match first_occurrence(pat@, s@, 0) {
            Some(i) => r matches Some(x) && x as int == i,
            None => r is None,
        },
{
    if pat.len() > s.len() {
        return None;
    }
    let last = s.len() - pat.len();
    let mut i: usize = 0;
    while i <= last
        invariant
            last == s@.len() - pat@.len(),
            s@.len() <= usize::MAX,
            i <= last + 1,
            first_occurrence(pat@, s@, i as int) == first_occurrence(pat@, s@, 0),
        decreases last + 1 - i,
    {
        assert(s@.subrange(i as int, i + pat@.len()) =~= s@.skip(i as int).take(pat@.len() as int));
        if matches_at(s, i, pat) {
            return Some(i);
        }
        if i == last {
            assert(first_occurrence(pat@, s@, i + 1) == None::<int>);
            return None;
        }
        i = i + 1;
    }
    None
}

} // verus!
