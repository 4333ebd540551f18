//! `hashsum` and the `*sum` tools: choosing the algorithm, writing checksum
//! lines, reading them back in check mode, and reporting the results.

use vstd::prelude::*;
use crate::text::{
    seq_eq, str_is, chars_of, string_from_chars, replace_all, replace_chars, push_str,
    push_chars, decimal, u64_decimal, scan_digits, IntError,
};

verus! {

/// The `hashsum` tool.
pub struct Hashsum;

/// The `md5sum` tool.
pub struct Md5sum;

/// The `sha1sum` tool.
pub struct Sha1sum;

/// The `sha224sum` tool.
pub struct Sha224sum;

/// The `sha256sum` tool.
pub struct Sha256sum;

/// The `sha384sum` tool.
pub struct Sha384sum;

/// The `sha512sum` tool.
pub struct Sha512sum;

/// The `sha3-224sum` tool.
pub struct Sha3_224sum;

/// The `sha3-256sum` tool.
pub struct Sha3_256sum;

/// The `sha3-384sum` tool.
pub struct Sha3_384sum;

/// The `sha3-512sum` tool.
pub struct Sha3_512sum;

/// The `b2sum` tool.
pub struct B2sum;

/// The `sha3sum` tool.
pub struct Sha3sum;

/// The `shake128sum` tool.
pub struct Shake128sum;

/// The `shake256sum` tool.
pub struct Shake256sum;

/// The `b3sum` tool.
pub struct B3sum;

impl Hashsum {
    /// Name of the tool.
    pub fn name(&self) -> (r: &'static str)
        ensures
            r@ == "hashsum"@,
    {
        "hashsum"
    }
}

impl Md5sum {
    /// Name of the tool.
    pub fn name(&self) -> (r: &'static str)
        ensures
            r@ == "md5sum"@,
    {
        "md5sum"
    }
}

impl Sha1sum {
    /// Name of the tool.
    pub fn name(&self) -> (r: &'static str)
        ensures
            r@ == "sha1sum"@,
    {
        "sha1sum"
    }
}

impl Sha224sum {
    /// Name of the tool.
    pub fn name(&self) -> (r: &'static str)
        ensures
            r@ == "sha224sum"@,
    {
        "sha224sum"
    }
}

impl Sha256sum {
    /// Name of the tool.
    pub fn name(&self) -> (r: &'static str)
        ensures
            r@ == "sha256sum"@,
    {
        "sha256sum"
    }
}

impl Sha384sum {
    /// Name of the tool.
    pub fn name(&self) -> (r: &'static str)
        ensures
            r@ == "sha384sum"@,
    {
        "sha384sum"
    }
}

impl Sha512sum {
    /// Name of the tool.
    pub fn name(&self) -> (r: &'static str)
        ensures
            r@ == "sha512sum"@,
    {
        "sha512sum"
    }
}

impl Sha3_224sum {
    /// Name of the tool.
    pub fn name(&self) -> (r: &'static str)
        ensures
            r@ == "sha3-224sum"@,
    {
        "sha3-224sum"
    }
}

impl Sha3_256sum {
    /// Name of the tool.
    pub fn name(&self) -> (r: &'static str)
        ensures
            r@ == "sha3-256sum"@,
    {
        "sha3-256sum"
    }
}

impl Sha3_384sum {
    /// Name of the tool.
    pub fn name(&self) -> (r: &'static str)
        ensures
            r@ == "sha3-384sum"@,
    {
        "sha3-384sum"
    }
}

impl Sha3_512sum {
    /// Name of the tool.
    pub fn name(&self) -> (r: &'static str)
        ensures
            r@ == "sha3-512sum"@,
    {
        "sha3-512sum"
    }
}

impl B2sum {
    /// Name of the tool.
    pub fn name(&self) -> (r: &'static str)
        ensures
            r@ == "b2sum"@,
    {
        "b2sum"
    }
}

impl Sha3sum {
    /// Name of the tool.
    pub fn name(&self) -> (r: &'static str)
        ensures
            r@ == "sha3sum"@,
    {
        "sha3sum"
    }
}

impl Shake128sum {
    /// Name of the tool.
    pub fn name(&self) -> (r: &'static str)
        ensures
            r@ == "shake128sum"@,
    {
        "shake128sum"
    }
}

impl Shake256sum {
    /// Name of the tool.
    pub fn name(&self) -> (r: &'static str)
        ensures
            r@ == "shake256sum"@,
    {
        "shake256sum"
    }
}

impl B3sum {
    /// Name of the tool.
    pub fn name(&self) -> (r: &'static str)
        ensures
            r@ == "b3sum"@,
    {
        "b3sum"
    }
}

// ---------------------------------------------------------------------------
// File names in checksum lines
// ---------------------------------------------------------------------------

/// A file name with its backslashes, newlines and carriage returns escaped
/// (`\\`, `\n`, `\r`), in that order of replacement.
pub open spec fn escape_spec(s: Seq<char>) -> Seq<char> {
    replace_all(
        replace_all(replace_all(s, seq!['\\'], seq!['\\', '\\']), seq!['\n'], seq!['\\', 'n']),
        seq!['\r'],
        seq!['\\', 'r'],
    )
}

/// A file name read from a checksum line with `\\`, `\n` and `\r` turned back
/// into a backslash, a newline and a carriage return, in that order of replacement.
pub open spec fn unescape_spec(s: Seq<char>) -> Seq<char> {
    replace_all(
        replace_all(replace_all(s, seq!['\\', '\\'], seq!['\\']), seq!['\\', 'n'], seq!['\n']),
        seq!['\\', 'r'],
        seq!['\r'],
    )
}

/// What escaping makes of one character of a name.
pub open spec fn escaped_char(c: char) -> Seq<char> {
    if c == '\\' {
        seq!['\\', '\\']
    } else if c == '\n' {
        seq!['\\', 'n']
    } else if c == '\r' {
        seq!['\\', 'r']
    } else {
        seq![c]
    }
}

/// No backslash of a name is followed by `n` or `r`.
pub open spec fn no_escape_lookalike(s: Seq<char>) -> bool {
    forall|i: int, j: int|
        0 <= i && j == i + 1 && j < s.len() && #[trigger] s[i] == '\\' ==> #[trigger] s[j] != 'n' && s[j] != 'r'
}

/// A name holds no backslash.
pub open spec fn no_backslash(s: Seq<char>) -> bool {
    forall|i: int| 0 <= i < s.len() ==> s[i] != '\\'
}

/// Replacing starts after a first character that does not begin the
/// pattern.
proof fn lemma_replace_keeps_first(c: char, y: Seq<char>, pat: Seq<char>, rep: Seq<char>)
    requires
        pat.len() > 0,
        c != pat[0],
    ensures
        replace_all(seq![c] + y, pat, rep) == seq![c] + replace_all(y, pat, rep),
{
    let s = seq![c] + y;
    assert(s[0] == c);
    if pat.len() <= s.len() && s.take(pat.len() as int) == pat {
        assert(s.take(pat.len() as int)[0] == c);
    }
    assert(s.skip(1) =~= y);
}

/// The pattern at the front is replaced.
proof fn lemma_replace_front(y: Seq<char>, pat: Seq<char>, rep: Seq<char>)
    requires
        pat.len() > 0,
    ensures
        replace_all(pat + y, pat, rep) == rep + replace_all(y, pat, rep),
{
    let s = pat + y;
    assert(s.take(pat.len() as int) =~= pat);
    assert(s.skip(pat.len() as int) =~= y);
}

/// A backslash followed by a character other than the pattern's second
/// one is kept.
proof fn lemma_replace_keeps_backslash(d: char, y: Seq<char>, pat: Seq<char>, rep: Seq<char>)
    requires
        pat.len() == 2,
        pat[0] == '\\',
        d != pat[1],
        d != '\\',
    ensures
        replace_all(seq!['\\', d] + y, pat, rep) == seq!['\\', d] + replace_all(y, pat, rep),
{
    let s = seq!['\\', d] + y;
    assert(s.take(2)[1] == d);
    assert(s.skip(1) =~= seq![d] + y);
    lemma_replace_keeps_first(d, y, pat, rep);
    assert(seq![s[0]] + (seq![d] + replace_all(y, pat, rep)) =~= seq!['\\', d] + replace_all(y, pat, rep));
}

/// A name without a backslash loses nothing to the first replacement of
/// escaping.
proof fn lemma_no_backslash_unchanged(s: Seq<char>)
    requires
        no_backslash(s),
    ensures
        replace_all(s, seq!['\\'], seq!['\\', '\\']) == s,
    decreases s.len(),
{
    if s.len() > 0 {
        let t = s.skip(1);
        assert(seq![s[0]] + t =~= s);
        assert(no_backslash(t)) by {
            assert forall|i: int| 0 <= i < t.len() implies t[i] != '\\' by {
                assert(t[i] == s[i + 1]);
            }
        }
        lemma_no_backslash_unchanged(t);
        lemma_replace_keeps_first(s[0], t, seq!['\\'], seq!['\\', '\\']);
    }
}

/// Escaping a name, character by character.
proof fn lemma_escape_cons(c: char, t: Seq<char>)
    ensures
        escape_spec(seq![c] + t) == escaped_char(c) + escape_spec(t),
{
    let pb = seq!['\\'];
    let pn = seq!['\n'];
    let pr = seq!['\r'];
    let rb = seq!['\\', '\\'];
    let rn = seq!['\\', 'n'];
    let rr = seq!['\\', 'r'];
    let r1 = replace_all(t, pb, rb);
    let r2 = replace_all(r1, pn, rn);
    if c == '\\' {
        assert(seq![c] + t =~= pb + t);
        lemma_replace_front(t, pb, rb);
        assert(rb + r1 =~= seq!['\\'] + (seq!['\\'] + r1));
        lemma_replace_keeps_first('\\', seq!['\\'] + r1, pn, rn);
        lemma_replace_keeps_first('\\', r1, pn, rn);
        assert(seq!['\\'] + (seq!['\\'] + r2) =~= seq!['\\'] + (seq!['\\'] + r2));
        lemma_replace_keeps_first('\\', seq!['\\'] + r2, pr, rr);
        lemma_replace_keeps_first('\\', r2, pr, rr);
        assert(seq!['\\'] + (seq!['\\'] + replace_all(r2, pr, rr)) =~= rb + replace_all(r2, pr, rr));
    } else {
        lemma_replace_keeps_first(c, t, pb, rb);
        if c == '\n' {
            assert(seq![c] + r1 =~= pn + r1);
            lemma_replace_front(r1, pn, rn);
            assert(rn + r2 =~= seq!['\\'] + (seq!['n'] + r2));
            lemma_replace_keeps_first('\\', seq!['n'] + r2, pr, rr);
            lemma_replace_keeps_first('n', r2, pr, rr);
            assert(seq!['\\'] + (seq!['n'] + replace_all(r2, pr, rr)) =~= rn + replace_all(r2, pr, rr));
        } else {
            lemma_replace_keeps_first(c, r1, pn, rn);
            if c == '\r' {
                assert(seq![c] + r2 =~= pr + r2);
                lemma_replace_front(r2, pr, rr);
            } else {
                lemma_replace_keeps_first(c, r2, pr, rr);
            }
        }
    }
}

/// The first character that replacing leaves at the front.
proof fn lemma_replace_first(z: Seq<char>, pat: Seq<char>, rep: Seq<char>)
    requires
        z.len() > 0,
        pat.len() > 0,
        rep.len() > 0,
    ensures
        replace_all(z, pat, rep).len() > 0,
        replace_all(z, pat, rep)[0] == if pat.len() <= z.len() && z.take(pat.len() as int) == pat {
            rep[0]
        } else {
            z[0]
        },
{
}

/// A first character that does not begin an occurrence of the pattern is
/// kept.
proof fn lemma_replace_no_match_front(c: char, y: Seq<char>, pat: Seq<char>, rep: Seq<char>)
    requires
        pat.len() > 0,
        !(pat.len() <= y.len() + 1 && (seq![c] + y).take(pat.len() as int) == pat),
    ensures
        replace_all(seq![c] + y, pat, rep) == seq![c] + replace_all(y, pat, rep),
{
    let s = seq![c] + y;
    assert(s[0] == c);
    assert(s.skip(1) =~= y);
}

/// Reading back an escaped backslash, when what follows does not begin
/// with `n` or `r`.
proof fn lemma_unescape_backslash(y: Seq<char>)
    requires
        y.len() == 0 || (y[0] != 'n' && y[0] != 'r'),
    ensures
        unescape_spec(seq!['\\', '\\'] + y) == seq!['\\'] + unescape_spec(y),
{
    let p1 = seq!['\\', '\\'];
    let p2 = seq!['\\', 'n'];
    let p3 = seq!['\\', 'r'];
    let r1 = seq!['\\'];
    let r2 = seq!['\n'];
    let r3 = seq!['\r'];
    let u1 = replace_all(y, p1, r1);
    let u2 = replace_all(u1, p2, r2);
    lemma_replace_front(y, p1, r1);
    assert(r1 + u1 =~= seq!['\\'] + u1);
    if y.len() > 0 {
        lemma_replace_first(y, p1, r1);
        if y.len() >= 2 && y.take(2) == p1 {
            assert(y.take(2)[0] == y[0]);
        }
        assert(u1[0] != 'n' && u1[0] != 'r');
        assert((seq!['\\'] + u1).take(2)[1] == u1[0]);
        lemma_replace_first(u1, p2, r2);
        if u1.len() >= 2 && u1.take(2) == p2 {
            assert(u1.take(2)[0] == u1[0]);
        }
        assert(u2[0] != 'r');
        assert((seq!['\\'] + u2).take(2)[1] == u2[0]);
    } else {
        assert(u1.len() == 0);
        assert(u2.len() == 0);
    }
    lemma_replace_no_match_front('\\', u1, p2, r2);
    lemma_replace_no_match_front('\\', u2, p3, r3);
}

/// Reading back an escaped character, with anything after it.
proof fn lemma_unescape_cons(c: char, y: Seq<char>)
    requires
        c != '\\',
    ensures
        unescape_spec(escaped_char(c) + y) == seq![c] + unescape_spec(y),
{
    let p1 = seq!['\\', '\\'];
    let p2 = seq!['\\', 'n'];
    let p3 = seq!['\\', 'r'];
    let r1 = seq!['\\'];
    let r2 = seq!['\n'];
    let r3 = seq!['\r'];
    let u1 = replace_all(y, p1, r1);
    let u2 = replace_all(u1, p2, r2);
    if c == '\n' {
        lemma_replace_keeps_backslash('n', y, p1, r1);
        lemma_replace_front(u1, p2, r2);
        assert(r2 + u2 =~= seq!['\n'] + u2);
        lemma_replace_keeps_first('\n', u2, p3, r3);
    } else if c == '\r' {
        lemma_replace_keeps_backslash('r', y, p1, r1);
        lemma_replace_keeps_backslash('r', u1, p2, r2);
        lemma_replace_front(u2, p3, r3);
    } else {
        lemma_replace_keeps_first(c, y, p1, r1);
        lemma_replace_keeps_first(c, u1, p2, r2);
        lemma_replace_keeps_first(c, u2, p3, r3);
    }
}

/// A file name reads back from a checksum line as it was written:
/// unescaping what escaping made of it gives the name again, and a line
/// marks the name as escaped exactly when unescaping changes what it lists.
/// It fails for a name in which a backslash is followed by `n` or `r`: the
/// two characters come back as a newline or a carriage return.
pub proof fn law_escape_then_unescape(s: Seq<char>)
    requires
        no_escape_lookalike(s),
    ensures
        unescape_spec(escape_spec(s)) == s,
        (escape_spec(s) != s) == (unescape_spec(escape_spec(s)) != escape_spec(s)),
    decreases s.len(),
{
    if s.len() == 0 {
        assert(escape_spec(s) =~= s);
        assert(unescape_spec(s) =~= s);
    } else {
        let c = s[0];
        let t = s.skip(1);
        assert(seq![c] + t =~= s);
        assert(no_escape_lookalike(t)) by {
            assert forall|i: int, j: int|
                0 <= i && j == i + 1 && j < t.len() && #[trigger] t[i] == '\\' implies #[trigger] t[j] != 'n' && t[j]
                    != 'r' by {
                assert(t[i] == s[i + 1] && t[j] == s[j + 1]);
            }
        }
        lemma_escape_cons(c, t);
        law_escape_then_unescape(t);
        let et = escape_spec(t);
        if c == '\\' {
            if t.len() > 0 {
                assert(t[0] == s[1]);
                assert(s[0] == '\\');
                assert(seq![t[0]] + t.skip(1) =~= t);
                lemma_escape_cons(t[0], t.skip(1));
                assert(et[0] == escaped_char(t[0])[0]);
            } else {
                assert(et.len() == 0);
            }
            lemma_unescape_backslash(et);
        } else {
            lemma_unescape_cons(c, et);
        }
    }
}

/// The prefix of a line whose file name was changed by escaping: a backslash.
pub open spec fn escape_prefix(changed: bool) -> Seq<char> {
    if changed {
        seq!['\\']
    } else {
        Seq::empty()
    }
}

fn prefix_str(changed: bool) -> (r: &'static str)
    ensures
        r@ == escape_prefix(changed),
{
    if changed {
        let r = "\\";
        proof {
            reveal_strlit("\\");
        }
        assert(r@ =~= seq!['\\']);
        r
    } else {
        let r = "";
        proof {
            reveal_strlit("");
        }
        assert(r@ =~= Seq::<char>::empty());
        r
    }
}

/// Turns `\\`, `\n` and `\r` in a file name read from a checksum line back
/// into the characters they stand for; the prefix is a backslash when this
/// changed the name, and empty otherwise.
pub fn unescape_filename(filename: &str) -> (r: (String, &'static str))
    ensures
        r.0@ == unescape_spec(filename@),
        r.1@ == escape_prefix(unescape_spec(filename@) != filename@),
{
    let s = chars_of(filename);
    let (p1, r1) = (vec!['\\', '\\'], vec!['\\']);
    let (p2, r2) = (vec!['\\', 'n'], vec!['\n']);
    let (p3, r3) = (vec!['\\', 'r'], vec!['\r']);
    assert(p1@ =~= seq!['\\', '\\'] && r1@ =~= seq!['\\']);
    assert(p2@ =~= seq!['\\', 'n'] && r2@ =~= seq!['\n']);
    assert(p3@ =~= seq!['\\', 'r'] && r3@ =~= seq!['\r']);
    let a = replace_chars(&s, &p1, &r1);
    let b = replace_chars(&a, &p2, &r2);
    let c = replace_chars(&b, &p3, &r3);
    let same = seq_eq(&c, &s);
    (string_from_chars(&c), prefix_str(!same))
}

/// Escapes backslashes, newlines and carriage returns in a file name for a
/// checksum line; the prefix is a backslash when this changed the name.
pub fn escape_filename(filename: &str) -> (r: (String, &'static str))
    ensures
        r.0@ == escape_spec(filename@),
        r.1@ == escape_prefix(escape_spec(filename@) != filename@),
{
    let s = chars_of(filename);
    let (p1, r1) = (vec!['\\'], vec!['\\', '\\']);
    let (p2, r2) = (vec!['\n'], vec!['\\', 'n']);
    let (p3, r3) = (vec!['\r'], vec!['\\', 'r']);
    assert(p1@ =~= seq!['\\'] && r1@ =~= seq!['\\', '\\']);
    assert(p2@ =~= seq!['\n'] && r2@ =~= seq!['\\', 'n']);
    assert(p3@ =~= seq!['\r'] && r3@ =~= seq!['\\', 'r']);
    let a = replace_chars(&s, &p1, &r1);
    let b = replace_chars(&a, &p2, &r2);
    let c = replace_chars(&b, &p3, &r3);
    let same = seq_eq(&c, &s);
    (string_from_chars(&c), prefix_str(!same))
}

// ---------------------------------------------------------------------------
// Choosing the algorithm
// ---------------------------------------------------------------------------

/// A hash algorithm.
#[derive(Debug, Clone, Copy, PartialEq, Eq, Structural)]
pub enum Algorithm {
    Md5,
    Sha1,
    Sha224,
    Sha256,
    Sha384,
    Sha512,
    /// BLAKE2b with the given output length in bytes (64 by default).
    Blake2b(usize),
    Blake3,
    Sha3_224,
    Sha3_256,
    Sha3_384,
    Sha3_512,
    Shake128,
    Shake256,
}

/// The algorithm chosen, the name shown for it, and the number of output bits.
#[derive(Debug, Clone, Copy)]
pub struct AlgoChoice {
    pub algorithm: Algorithm,
    pub name: &'static str,
    pub output_bits: usize,
}

/// Why no algorithm could be chosen.
#[derive(Debug, Clone, Copy, PartialEq, Eq, Structural)]
pub enum AlgoError {
    /// `--length` above 512.
    LengthTooLarge,
    /// `--length` not a multiple of 8.
    LengthNotMultipleOf8,
    /// `--bits` for SHA3 not one of 224, 256, 384, 512.
    InvalidSha3Size,
    /// `--bits` missing for SHA3.
    Sha3BitsRequired,
    /// `--bits` missing for SHAKE-128.
    Shake128BitsRequired,
    /// `--bits` missing for SHAKE-256.
    Shake256BitsRequired,
    /// More than one algorithm flag.
    MultipleAlgorithms,
    /// No algorithm flag.
    NoAlgorithm,
}

/// The message of an error in choosing the algorithm.
pub open spec fn algo_error_text(e: AlgoError) -> Seq<char> {
    match e {
        AlgoError::LengthTooLarge => "Invalid length (maximum digest length is 512 bits)"@,
        AlgoError::LengthNotMultipleOf8 => "Invalid length (expected a multiple of 8)"@,
        AlgoError::InvalidSha3Size => "Invalid output size for SHA3 (expected 224, 256, 384, or 512)"@,
        AlgoError::Sha3BitsRequired => "--bits required for SHA3"@,
        AlgoError::Shake128BitsRequired => "--bits required for SHAKE-128"@,
        AlgoError::Shake256BitsRequired => "--bits required for SHAKE-256"@,
        AlgoError::MultipleAlgorithms => "You cannot combine multiple hash algorithms!"@,
        AlgoError::NoAlgorithm => "You must specify hash algorithm!"@,
    }
}

impl AlgoError {
    /// The message of the error.
    pub fn message(&self) -> (r: &'static str)
        ensures
            r@ == algo_error_text(*self),
    {
        match self {
            AlgoError::LengthTooLarge => "Invalid length (maximum digest length is 512 bits)",
            AlgoError::LengthNotMultipleOf8 => "Invalid length (expected a multiple of 8)",
            AlgoError::InvalidSha3Size => "Invalid output size for SHA3 (expected 224, 256, 384, or 512)",
            AlgoError::Sha3BitsRequired => "--bits required for SHA3",
            AlgoError::Shake128BitsRequired => "--bits required for SHAKE-128",
            AlgoError::Shake256BitsRequired => "--bits required for SHAKE-256",
            AlgoError::MultipleAlgorithms => "You cannot combine multiple hash algorithms!",
            AlgoError::NoAlgorithm => "You must specify hash algorithm!",
        }
    }
}

/// The algorithm options of the command line.
#[derive(Debug, Clone, Copy, PartialEq, Eq, Structural)]
pub struct AlgoOptions {
    pub md5: bool,
    pub sha1: bool,
    pub sha224: bool,
    pub sha256: bool,
    pub sha384: bool,
    pub sha512: bool,
    pub b2sum: bool,
    pub b3sum: bool,
    pub sha3: bool,
    pub sha3_224: bool,
    pub sha3_256: bool,
    pub sha3_384: bool,
    pub sha3_512: bool,
    pub shake128: bool,
    pub shake256: bool,
    /// `--length`, in bits.
    pub length: Option<usize>,
    /// `--bits`.
    pub bits: Option<usize>,
}

/// BLAKE2b as `--length` asks for it.
pub open spec fn blake2b_spec(length: Option<usize>) -> Result<(Algorithm, usize), AlgoError> {
    match length {
        None => Ok((Algorithm::Blake2b(64), 512)),
        Some(n) => if n == 0 {
            Ok((Algorithm::Blake2b(64), 512))
        } else if n > 512 {
            Err(AlgoError::LengthTooLarge)
        } else if n % 8 == 0 {
            Ok((Algorithm::Blake2b((n / 8) as usize), n))
        } else {
            Err(AlgoError::LengthNotMultipleOf8)
        },
    }
}

/// What `str::parse::<usize>` gives: an optional `+`, then decimal digits
/// with a value that fits.
pub open spec fn parse_usize_spec(s: Seq<char>) -> Result<int, IntError> {
    if s.len() == 0 {
        Err(IntError::Empty)
    } else if s[0] == '+' && s.len() == 1 {
        Err(IntError::InvalidDigit)
    } else if s[0] == '+' {
        scan_digits(s.skip(1), 0, false, 0, usize::MAX as int)
    } else {
        scan_digits(s, 0, false, 0, usize::MAX as int)
    }
}

/// Reads the value of `--bits` (or `--length`) as a number of bits.
pub fn parse_bit_num(arg: &str) -> (r: Result<usize, IntError>)
    ensures
        match parse_usize_spec(arg@) {
            Ok(v) => r matches Ok(x) && x as int == v,
            Err(e) => r == Err::<usize, IntError>(e),
        },
{
    let s = chars_of(arg);
    if s.len() == 0 {
        return Err(IntError::Empty);
    }
    if s[0] == '+' && s.len() == 1 {
        return Err(IntError::InvalidDigit);
    }
    let start: usize = if s[0] == '+' { 1 } else { 0 };
    let ghost body = s@.skip(start as int);
    proof {
        if start == 0 {
            assert(s@.skip(0) =~= s@);
        }
    }
    assert(parse_usize_spec(s@) == scan_digits(body, 0, false, 0, usize::MAX as int));
    let mut acc: usize = 0;
    let mut i: usize = start;
    while i < s.len()
        invariant
            start <= i <= s@.len(),
            body == s@.skip(start as int),
            s@ == arg@,
            parse_usize_spec(s@) == scan_digits(body, 0, false, 0, usize::MAX as int),
            scan_digits(s@.skip(i as int), acc as int, false, 0, usize::MAX as int) == scan_digits(
                body,
                0,
                false,
                0,
                usize::MAX as int,
            ),
        decreases s@.len() - i,
    {
        let c = s[i];
        assert(s@.skip(i as int)[0] == c);
        assert(s@.skip(i as int).skip(1) =~= s@.skip(i + 1));
        if !('0' <= c && c <= '9') {
            return Err(IntError::InvalidDigit);
        }
        let d = (c as u32 - '0' as u32) as usize;
        match acc.checked_mul(10) {
            None => {
                assert(acc * 10 + d > usize::MAX);
                return Err(IntError::PosOverflow);
            },
            Some(m) => match m.checked_add(d) {
                None => {
                    return Err(IntError::PosOverflow);
                },
                Some(next) => {
                    acc = next;
                },
            },
        }
        i = i + 1;
    }
    assert(s@.skip(i as int) =~= Seq::<char>::empty());
    Ok(acc)
}

/// SHA3 as `--bits` asks for it.
pub open spec fn sha3_spec(bits: Option<usize>) -> Result<(Algorithm, usize), AlgoError> {
    match bits {
        Some(224) => Ok((Algorithm::Sha3_224, 224)),
        Some(256) => Ok((Algorithm::Sha3_256, 256)),
        Some(384) => Ok((Algorithm::Sha3_384, 384)),
        Some(512) => Ok((Algorithm::Sha3_512, 512)),
        Some(_) => Err(AlgoError::InvalidSha3Size),
        None => Err(AlgoError::Sha3BitsRequired),
    }
}

/// The name shown for an algorithm.
pub open spec fn algo_name(a: Algorithm) -> Seq<char> {
    match a {
        Algorithm::Md5 => "MD5"@,
        Algorithm::Sha1 => "SHA1"@,
        Algorithm::Sha224 => "SHA224"@,
        Algorithm::Sha256 => "SHA256"@,
        Algorithm::Sha384 => "SHA384"@,
        Algorithm::Sha512 => "SHA512"@,
        Algorithm::Blake2b(_) => "BLAKE2"@,
        Algorithm::Blake3 => "BLAKE3"@,
        Algorithm::Sha3_224 => "SHA3-224"@,
        Algorithm::Sha3_256 => "SHA3-256"@,
        Algorithm::Sha3_384 => "SHA3-384"@,
        Algorithm::Sha3_512 => "SHA3-512"@,
        Algorithm::Shake128 => "SHAKE128"@,
        Algorithm::Shake256 => "SHAKE256"@,
    }
}

/// A choice made of an algorithm and its output size.
pub open spec fn is_choice(c: AlgoChoice, a: Algorithm, bits: int) -> bool {
    c.algorithm == a && c.name@ == algo_name(a) && c.output_bits == bits
}

/// The candidates that the algorithm flags name, in the order in which they
/// are examined: `None` for a flag not given.
pub open spec fn flag_candidates(o: AlgoOptions) -> Seq<Option<Result<(Algorithm, usize), AlgoError>>> {
    Seq::empty()
        .push(fixed_spec(o.md5, Algorithm::Md5, 128))
        .push(fixed_spec(o.sha1, Algorithm::Sha1, 160))
        .push(fixed_spec(o.sha224, Algorithm::Sha224, 224))
        .push(fixed_spec(o.sha256, Algorithm::Sha256, 256))
        .push(fixed_spec(o.sha384, Algorithm::Sha384, 384))
        .push(fixed_spec(o.sha512, Algorithm::Sha512, 512))
        .push(fixed_spec(o.b2sum, Algorithm::Blake2b(64), 512))
        .push(fixed_spec(o.b3sum, Algorithm::Blake3, 256))
        .push(if o.sha3 { Some(sha3_spec(o.bits)) } else { None })
        .push(fixed_spec(o.sha3_224, Algorithm::Sha3_224, 224))
        .push(fixed_spec(o.sha3_256, Algorithm::Sha3_256, 256))
        .push(fixed_spec(o.sha3_384, Algorithm::Sha3_384, 384))
        .push(fixed_spec(o.sha3_512, Algorithm::Sha3_512, 512))
        .push(shake_spec(o.shake128, o.bits, Algorithm::Shake128, AlgoError::Shake128BitsRequired))
        .push(shake_spec(o.shake256, o.bits, Algorithm::Shake256, AlgoError::Shake256BitsRequired))
}

/// The candidate of a flag naming an algorithm of fixed size.
pub open spec fn fixed_spec(on: bool, a: Algorithm, bits: usize) -> Option<Result<(Algorithm, usize), AlgoError>> {
    if on {
        Some(Ok((a, bits)))
    } else {
        None
    }
}

/// The candidate of a SHAKE flag, which needs `--bits`.
pub open spec fn shake_spec(on: bool, bits: Option<usize>, a: Algorithm, e: AlgoError) -> Option<
    Result<(Algorithm, usize), AlgoError>,
> {
    if on {
        Some(
            match bits {
                Some(b) => Ok((a, b)),
                None => Err(e),
            },
        )
    } else {
        None
    }
}

/// Walks the candidates from index `i` with the algorithm chosen so far: the
/// first failing candidate is the error, a second algorithm is an error, and
/// none at all is an error.
pub open spec fn combine_candidates(
    c: Seq<Option<Result<(Algorithm, usize), AlgoError>>>,
    i: int,
    chosen: Option<(Algorithm, usize)>,
) -> Result<(Algorithm, usize), AlgoError>
    decreases c.len() - i,
{
    if i < 0 || i >= c.len() {
        match chosen {
            Some(x) => Ok(x),
            None => Err(AlgoError::NoAlgorithm),
        }
    } else {
        match c[i] {
            None => combine_candidates(c, i + 1, chosen),
            Some(Err(e)) => Err(e),
            Some(Ok(x)) => if chosen is Some {
                Err(AlgoError::MultipleAlgorithms)
            } else {
                combine_candidates(c, i + 1, Some(x))
            },
        }
    }
}

/// The algorithm that the flags of `hashsum` select.
pub open spec fn flags_algo_spec(o: AlgoOptions) -> Result<(Algorithm, usize), AlgoError> {
    combine_candidates(flag_candidates(o), 0, None)
}

/// The algorithm that a program name selects, the flags deciding for
/// `hashsum` and any other name.
pub open spec fn detect_algo_spec(program: Seq<char>, o: AlgoOptions) -> Result<(Algorithm, usize), AlgoError> {
    if program == "md5sum"@ {
        Ok((Algorithm::Md5, 128))
    } else if program == "sha1sum"@ {
        Ok((Algorithm::Sha1, 160))
    } else if program == "sha224sum"@ {
        Ok((Algorithm::Sha224, 224))
    } else if program == "sha256sum"@ {
        Ok((Algorithm::Sha256, 256))
    } else if program == "sha384sum"@ {
        Ok((Algorithm::Sha384, 384))
    } else if program == "sha512sum"@ {
        Ok((Algorithm::Sha512, 512))
    } else if program == "b2sum"@ {
        blake2b_spec(o.length)
    } else if program == "b3sum"@ {
        Ok((Algorithm::Blake3, 256))
    } else if program == "sha3sum"@ {
        sha3_spec(o.bits)
    } else if program == "sha3-224sum"@ {
        Ok((Algorithm::Sha3_224, 224))
    } else if program == "sha3-256sum"@ {
        Ok((Algorithm::Sha3_256, 256))
    } else if program == "sha3-384sum"@ {
        Ok((Algorithm::Sha3_384, 384))
    } else if program == "sha3-512sum"@ {
        Ok((Algorithm::Sha3_512, 512))
    } else if program == "shake128sum"@ {
        match o.bits {
            Some(b) => Ok((Algorithm::Shake128, b)),
            None => Err(AlgoError::Shake128BitsRequired),
        }
    } else if program == "shake256sum"@ {
        match o.bits {
            Some(b) => Ok((Algorithm::Shake256, b)),
            None => Err(AlgoError::Shake256BitsRequired),
        }
    } else {
        flags_algo_spec(o)
    }
}

/// Each tool named after an algorithm computes that algorithm: `md5sum`
/// MD5 (128 bits), `sha1sum` SHA-1 (160), `sha224sum` to `sha512sum` the SHA-2
/// digests of their sizes, `b3sum` BLAKE3 (256), and `sha3-224sum` to
/// `sha3-512sum` the SHA-3 digests of their sizes, whatever the options.
pub proof fn law_each_tool_name_selects_its_algorithm(o: AlgoOptions)
    ensures
        detect_algo_spec("md5sum"@, o) == Ok::<(Algorithm, usize), AlgoError>((Algorithm::Md5, 128usize)),
        detect_algo_spec("sha1sum"@, o) == Ok::<(Algorithm, usize), AlgoError>((Algorithm::Sha1, 160usize)),
        detect_algo_spec("sha224sum"@, o) == Ok::<(Algorithm, usize), AlgoError>((Algorithm::Sha224, 224usize)),
        detect_algo_spec("sha256sum"@, o) == Ok::<(Algorithm, usize), AlgoError>((Algorithm::Sha256, 256usize)),
        detect_algo_spec("sha384sum"@, o) == Ok::<(Algorithm, usize), AlgoError>((Algorithm::Sha384, 384usize)),
        detect_algo_spec("sha512sum"@, o) == Ok::<(Algorithm, usize), AlgoError>((Algorithm::Sha512, 512usize)),
        detect_algo_spec("b3sum"@, o) == Ok::<(Algorithm, usize), AlgoError>((Algorithm::Blake3, 256usize)),
        detect_algo_spec("sha3-224sum"@, o) == Ok::<(Algorithm, usize), AlgoError>((Algorithm::Sha3_224, 224usize)),
        detect_algo_spec("sha3-256sum"@, o) == Ok::<(Algorithm, usize), AlgoError>((Algorithm::Sha3_256, 256usize)),
        detect_algo_spec("sha3-384sum"@, o) == Ok::<(Algorithm, usize), AlgoError>((Algorithm::Sha3_384, 384usize)),
        detect_algo_spec("sha3-512sum"@, o) == Ok::<(Algorithm, usize), AlgoError>((Algorithm::Sha3_512, 512usize)),
{
    reveal_strlit("md5sum");
    reveal_strlit("sha1sum");
    reveal_strlit("sha224sum");
    reveal_strlit("sha256sum");
    reveal_strlit("sha384sum");
    reveal_strlit("sha512sum");
    reveal_strlit("b2sum");
    reveal_strlit("b3sum");
    reveal_strlit("sha3sum");
    reveal_strlit("sha3-224sum");
    reveal_strlit("sha3-256sum");
    reveal_strlit("sha3-384sum");
    reveal_strlit("sha3-512sum");
    reveal_strlit("shake128sum");
    reveal_strlit("shake256sum");
    assert("md5sum"@.len() != "sha1sum"@.len());
    assert("md5sum"@.len() != "sha224sum"@.len());
    assert("md5sum"@.len() != "sha256sum"@.len());
    assert("md5sum"@.len() != "sha384sum"@.len());
    assert("md5sum"@.len() != "sha512sum"@.len());
    assert("md5sum"@.len() != "b2sum"@.len());
    assert("md5sum"@.len() != "b3sum"@.len());
    assert("md5sum"@.len() != "sha3sum"@.len());
    assert("md5sum"@.len() != "sha3-224sum"@.len());
    assert("md5sum"@.len() != "sha3-256sum"@.len());
    assert("md5sum"@.len() != "sha3-384sum"@.len());
    assert("md5sum"@.len() != "sha3-512sum"@.len());
    assert("md5sum"@.len() != "shake128sum"@.len());
    assert("md5sum"@.len() != "shake256sum"@.len());
    assert("sha1sum"@.len() != "sha224sum"@.len());
    assert("sha1sum"@.len() != "sha256sum"@.len());
    assert("sha1sum"@.len() != "sha384sum"@.len());
    assert("sha1sum"@.len() != "sha512sum"@.len());
    assert("sha1sum"@.len() != "b2sum"@.len());
    assert("sha1sum"@.len() != "b3sum"@.len());
    assert("sha1sum"@[3] != "sha3sum"@[3]);
    assert("sha1sum"@.len() != "sha3-224sum"@.len());
    assert("sha1sum"@.len() != "sha3-256sum"@.len());
    assert("sha1sum"@.len() != "sha3-384sum"@.len());
    assert("sha1sum"@.len() != "sha3-512sum"@.len());
    assert("sha1sum"@.len() != "shake128sum"@.len());
    assert("sha1sum"@.len() != "shake256sum"@.len());
    assert("sha224sum"@[4] != "sha256sum"@[4]);
    assert("sha224sum"@[3] != "sha384sum"@[3]);
    assert("sha224sum"@[3] != "sha512sum"@[3]);
    assert("sha224sum"@.len() != "b2sum"@.len());
    assert("sha224sum"@.len() != "b3sum"@.len());
    assert("sha224sum"@.len() != "sha3sum"@.len());
    assert("sha224sum"@.len() != "sha3-224sum"@.len());
    assert("sha224sum"@.len() != "sha3-256sum"@.len());
    assert("sha224sum"@.len() != "sha3-384sum"@.len());
    assert("sha224sum"@.len() != "sha3-512sum"@.len());
    assert("sha224sum"@.len() != "shake128sum"@.len());
    assert("sha224sum"@.len() != "shake256sum"@.len());
    assert("sha256sum"@[3] != "sha384sum"@[3]);
    assert("sha256sum"@[3] != "sha512sum"@[3]);
    assert("sha256sum"@.len() != "b2sum"@.len());
    assert("sha256sum"@.len() != "b3sum"@.len());
    assert("sha256sum"@.len() != "sha3sum"@.len());
    assert("sha256sum"@.len() != "sha3-224sum"@.len());
    assert("sha256sum"@.len() != "sha3-256sum"@.len());
    assert("sha256sum"@.len() != "sha3-384sum"@.len());
    assert("sha256sum"@.len() != "sha3-512sum"@.len());
    assert("sha256sum"@.len() != "shake128sum"@.len());
    assert("sha256sum"@.len() != "shake256sum"@.len());
    assert("sha384sum"@[3] != "sha512sum"@[3]);
    assert("sha384sum"@.len() != "b2sum"@.len());
    assert("sha384sum"@.len() != "b3sum"@.len());
    assert("sha384sum"@.len() != "sha3sum"@.len());
    assert("sha384sum"@.len() != "sha3-224sum"@.len());
    assert("sha384sum"@.len() != "sha3-256sum"@.len());
    assert("sha384sum"@.len() != "sha3-384sum"@.len());
    assert("sha384sum"@.len() != "sha3-512sum"@.len());
    assert("sha384sum"@.len() != "shake128sum"@.len());
    assert("sha384sum"@.len() != "shake256sum"@.len());
    assert("sha512sum"@.len() != "b2sum"@.len());
    assert("sha512sum"@.len() != "b3sum"@.len());
    assert("sha512sum"@.len() != "sha3sum"@.len());
    assert("sha512sum"@.len() != "sha3-224sum"@.len());
    assert("sha512sum"@.len() != "sha3-256sum"@.len());
    assert("sha512sum"@.len() != "sha3-384sum"@.len());
    assert("sha512sum"@.len() != "sha3-512sum"@.len());
    assert("sha512sum"@.len() != "shake128sum"@.len());
    assert("sha512sum"@.len() != "shake256sum"@.len());
    assert("b2sum"@[1] != "b3sum"@[1]);
    assert("b2sum"@.len() != "sha3sum"@.len());
    assert("b2sum"@.len() != "sha3-224sum"@.len());
    assert("b2sum"@.len() != "sha3-256sum"@.len());
    assert("b2sum"@.len() != "sha3-384sum"@.len());
    assert("b2sum"@.len() != "sha3-512sum"@.len());
    assert("b2sum"@.len() != "shake128sum"@.len());
    assert("b2sum"@.len() != "shake256sum"@.len());
    assert("b3sum"@.len() != "sha3sum"@.len());
    assert("b3sum"@.len() != "sha3-224sum"@.len());
    assert("b3sum"@.len() != "sha3-256sum"@.len());
    assert("b3sum"@.len() != "sha3-384sum"@.len());
    assert("b3sum"@.len() != "sha3-512sum"@.len());
    assert("b3sum"@.len() != "shake128sum"@.len());
    assert("b3sum"@.len() != "shake256sum"@.len());
    assert("sha3sum"@.len() != "sha3-224sum"@.len());
    assert("sha3sum"@.len() != "sha3-256sum"@.len());
    assert("sha3sum"@.len() != "sha3-384sum"@.len());
    assert("sha3sum"@.len() != "sha3-512sum"@.len());
    assert("sha3sum"@.len() != "shake128sum"@.len());
    assert("sha3sum"@.len() != "shake256sum"@.len());
    assert("sha3-224sum"@[6] != "sha3-256sum"@[6]);
    assert("sha3-224sum"@[5] != "sha3-384sum"@[5]);
    assert("sha3-224sum"@[5] != "sha3-512sum"@[5]);
    assert("sha3-224sum"@[3] != "shake128sum"@[3]);
    assert("sha3-224sum"@[3] != "shake256sum"@[3]);
    assert("sha3-256sum"@[5] != "sha3-384sum"@[5]);
    assert("sha3-256sum"@[5] != "sha3-512sum"@[5]);
    assert("sha3-256sum"@[3] != "shake128sum"@[3]);
    assert("sha3-256sum"@[3] != "shake256sum"@[3]);
    assert("sha3-384sum"@[5] != "sha3-512sum"@[5]);
    assert("sha3-384sum"@[3] != "shake128sum"@[3]);
    assert("sha3-384sum"@[3] != "shake256sum"@[3]);
    assert("sha3-512sum"@[3] != "shake128sum"@[3]);
    assert("sha3-512sum"@[3] != "shake256sum"@[3]);
    assert("shake128sum"@[5] != "shake256sum"@[5]);
}

/// The choice for an algorithm and output size, with the algorithm's name.
fn make_choice(a: Algorithm, bits: usize) -> (r: AlgoChoice)
    ensures
        is_choice(r, a, bits as int),
{
    let name: &'static str = match a {
        Algorithm::Md5 => "MD5",
        Algorithm::Sha1 => "SHA1",
        Algorithm::Sha224 => "SHA224",
        Algorithm::Sha256 => "SHA256",
        Algorithm::Sha384 => "SHA384",
        Algorithm::Sha512 => "SHA512",
        Algorithm::Blake2b(_) => "BLAKE2",
        Algorithm::Blake3 => "BLAKE3",
        Algorithm::Sha3_224 => "SHA3-224",
        Algorithm::Sha3_256 => "SHA3-256",
        Algorithm::Sha3_384 => "SHA3-384",
        Algorithm::Sha3_512 => "SHA3-512",
        Algorithm::Shake128 => "SHAKE128",
        Algorithm::Shake256 => "SHAKE256",
    };
    AlgoChoice { algorithm: a, name, output_bits: bits }
}

/// BLAKE2b as `--length` (in bits) asks for it.
pub fn create_blake2b(length: Option<usize>) -> (r: Result<(Algorithm, usize), AlgoError>)
    ensures
        r == blake2b_spec(length),
{
    match length {
        None => Ok((Algorithm::Blake2b(64), 512)),
        Some(n) => if n == 0 {
            Ok((Algorithm::Blake2b(64), 512))
        } else if n > 512 {
            Err(AlgoError::LengthTooLarge)
        } else if n % 8 == 0 {
            Ok((Algorithm::Blake2b(n / 8), n))
        } else {
            Err(AlgoError::LengthNotMultipleOf8)
        },
    }
}

/// SHA3 as `--bits` asks for it.
pub fn create_sha3(bits: Option<usize>) -> (r: Result<(Algorithm, usize), AlgoError>)
    ensures
        r == sha3_spec(bits),
{
    match bits {
        Some(224) => Ok((Algorithm::Sha3_224, 224)),
        Some(256) => Ok((Algorithm::Sha3_256, 256)),
        Some(384) => Ok((Algorithm::Sha3_384, 384)),
        Some(512) => Ok((Algorithm::Sha3_512, 512)),
        Some(_) => Err(AlgoError::InvalidSha3Size),
        None => Err(AlgoError::Sha3BitsRequired),
    }
}

fn fixed_candidate(on: bool, a: Algorithm, bits: usize) -> (r: Option<Result<(Algorithm, usize), AlgoError>>)
    ensures
        r == fixed_spec(on, a, bits),
{
    if on {
        Some(Ok((a, bits)))
    } else {
        None
    }
}

fn shake_candidate(on: bool, bits: Option<usize>, a: Algorithm, e: AlgoError) -> (r: Option<
    Result<(Algorithm, usize), AlgoError>,
>)
    ensures
        r == shake_spec(on, bits, a, e),
{
    if on {
        Some(
            match bits {
                Some(b) => Ok((a, b)),
                None => Err(e),
            },
        )
    } else {
        None
    }
}

fn candidates(o: &AlgoOptions) -> (r: Vec<Option<Result<(Algorithm, usize), AlgoError>>>)
    ensures
        r@ == flag_candidates(*o),
{
    let mut v = Vec::new();
    v.push(fixed_candidate(o.md5, Algorithm::Md5, 128));
    v.push(fixed_candidate(o.sha1, Algorithm::Sha1, 160));
    v.push(fixed_candidate(o.sha224, Algorithm::Sha224, 224));
    v.push(fixed_candidate(o.sha256, Algorithm::Sha256, 256));
    v.push(fixed_candidate(o.sha384, Algorithm::Sha384, 384));
    v.push(fixed_candidate(o.sha512, Algorithm::Sha512, 512));
    v.push(fixed_candidate(o.b2sum, Algorithm::Blake2b(64), 512));
    v.push(fixed_candidate(o.b3sum, Algorithm::Blake3, 256));
    v.push(if o.sha3 { Some(create_sha3(o.bits)) } else { None });
    v.push(fixed_candidate(o.sha3_224, Algorithm::Sha3_224, 224));
    v.push(fixed_candidate(o.sha3_256, Algorithm::Sha3_256, 256));
    v.push(fixed_candidate(o.sha3_384, Algorithm::Sha3_384, 384));
    v.push(fixed_candidate(o.sha3_512, Algorithm::Sha3_512, 512));
    v.push(shake_candidate(o.shake128, o.bits, Algorithm::Shake128, AlgoError::Shake128BitsRequired));
    v.push(shake_candidate(o.shake256, o.bits, Algorithm::Shake256, AlgoError::Shake256BitsRequired));
    v
}

/// The algorithm that the flags of `hashsum` select.
pub fn create_algorithm_from_flags(o: &AlgoOptions) -> (r: Result<(Algorithm, usize), AlgoError>)
    ensures
        r == flags_algo_spec(*o),
{
    let cands = candidates(o);
    let mut chosen: Option<(Algorithm, usize)> = None;
    let mut i: usize = 0;
    while i < cands.len()
        invariant
            i <= cands@.len(),
            cands@ == flag_candidates(*o),
            combine_candidates(cands@, i as int, chosen) == flags_algo_spec(*o),
        decreases cands@.len() - i,
    {
        match cands[i] {
            None => {},
            Some(Err(e)) => {
                return Err(e);
            },
            Some(Ok(x)) => {
                if chosen.is_some() {
                    return Err(AlgoError::MultipleAlgorithms);
                }
                chosen = Some(x);
            },
        }
        i = i + 1;
    }
    match chosen {
        Some(x) => Ok(x),
        None => Err(AlgoError::NoAlgorithm),
    }
}

/// The algorithm that the program name (`md5sum`, `sha256sum`, ...) selects,
/// the flags deciding for `hashsum` and any other name; with its displayed
/// name and number of output bits.
pub fn detect_algo(program: &str, o: &AlgoOptions) -> (r: Result<AlgoChoice, AlgoError>)
    ensures
        match detect_algo_spec(program@, *o) {
            Ok((a, bits)) => r matches Ok(c) && is_choice(c, a, bits as int),
            Err(e) => r == Err::<AlgoChoice, AlgoError>(e),
        },
{
    let res = if str_is(program, "md5sum") {
        Ok((Algorithm::Md5, 128))
    } else if str_is(program, "sha1sum") {
        Ok((Algorithm::Sha1, 160))
    } else if str_is(program, "sha224sum") {
        Ok((Algorithm::Sha224, 224))
    } else if str_is(program, "sha256sum") {
        Ok((Algorithm::Sha256, 256))
    } else if str_is(program, "sha384sum") {
        Ok((Algorithm::Sha384, 384))
    } else if str_is(program, "sha512sum") {
        Ok((Algorithm::Sha512, 512))
    } else if str_is(program, "b2sum") {
        create_blake2b(o.length)
    } else if str_is(program, "b3sum") {
        Ok((Algorithm::Blake3, 256))
    } else if str_is(program, "sha3sum") {
        create_sha3(o.bits)
    } else if str_is(program, "sha3-224sum") {
        Ok((Algorithm::Sha3_224, 224))
    } else if str_is(program, "sha3-256sum") {
        Ok((Algorithm::Sha3_256, 256))
    } else if str_is(program, "sha3-384sum") {
        Ok((Algorithm::Sha3_384, 384))
    } else if str_is(program, "sha3-512sum") {
        Ok((Algorithm::Sha3_512, 512))
    } else if str_is(program, "shake128sum") {
        match o.bits {
            Some(b) => Ok((Algorithm::Shake128, b)),
            None => Err(AlgoError::Shake128BitsRequired),
        }
    } else if str_is(program, "shake256sum") {
        match o.bits {
            Some(b) => Ok((Algorithm::Shake256, b)),
            None => Err(AlgoError::Shake256BitsRequired),
        }
    } else {
        create_algorithm_from_flags(o)
    };
    match res {
        Ok((a, bits)) => Ok(make_choice(a, bits)),
        Err(e) => Err(e),
    }
}

// ---------------------------------------------------------------------------
// Options
// ---------------------------------------------------------------------------

/// The switches of the command line, as given.
#[derive(Debug, Clone, Copy, PartialEq, Eq, Structural)]
pub struct HashsumSwitches {
    pub binary: bool,
    pub text: bool,
    pub check: bool,
    pub tag: bool,
    pub no_names: bool,
    pub status: bool,
    pub quiet: bool,
    pub strict: bool,
    pub warn: bool,
    pub zero: bool,
    pub ignore_missing: bool,
}

/// The settings of a run.
#[derive(Debug, Clone, Copy)]
pub struct HashsumFlags {
    pub algoname: &'static str,
    pub output_bits: usize,
    pub is_binary: bool,
    pub is_check: bool,
    pub is_tag: bool,
    pub is_nonames: bool,
    pub is_status: bool,
    pub is_quiet: bool,
    pub is_strict: bool,
    pub is_warn: bool,
    pub is_zero: bool,
    pub is_ignore_missing: bool,
}

impl HashsumFlags {
    /// Settings from the chosen algorithm and the switches: binary mode only
    /// when `--binary` is given (text mode is the default), `--status`
    /// implying `--quiet` and cancelling `--warn`.
    pub fn new(choice: &AlgoChoice, sw: &HashsumSwitches) -> (r: HashsumFlags)
        ensures
            r.algoname == choice.name,
            r.output_bits == choice.output_bits,
            r.is_binary == sw.binary,
            r.is_check == sw.check,
            r.is_tag == sw.tag,
            r.is_nonames == sw.no_names,
            r.is_status == sw.status,
            r.is_quiet == (sw.quiet || sw.status),
            r.is_strict == sw.strict,
            r.is_warn == (sw.warn && !sw.status),
            r.is_zero == sw.zero,
            r.is_ignore_missing == sw.ignore_missing,
    {
        HashsumFlags {
            algoname: choice.name,
            output_bits: choice.output_bits,
            is_binary: if sw.binary {
                true
            } else if sw.text {
                false
            } else {
                false
            },
            is_check: sw.check,
            is_tag: sw.tag,
            is_nonames: sw.no_names,
            is_status: sw.status,
            is_quiet: sw.quiet || sw.status,
            is_strict: sw.strict,
            is_warn: sw.warn && !sw.status,
            is_zero: sw.zero,
            is_ignore_missing: sw.ignore_missing,
        }
    }
}

/// Number of hexadecimal digits of a digest of the algorithm, when fixed:
/// a quarter of its output bits, none for SHAKE (whose digest has no fixed
/// size) or when that quarter is zero.
pub open spec fn digest_hex_len_spec(a: Algorithm, output_bits: usize) -> Option<nat> {
    if a == Algorithm::Shake128 || a == Algorithm::Shake256 || output_bits / 4 == 0 {
        None
    } else {
        Some((output_bits / 4) as nat)
    }
}

/// Number of hexadecimal digits that a checksum line must hold, when fixed.
pub fn digest_hex_len(a: Algorithm, output_bits: usize) -> (r: Option<usize>)
    ensures
        match digest_hex_len_spec(a, output_bits) {
            Some(n) => r == Some(n as usize),
            None => r is None,
        },
{
    match a {
        Algorithm::Shake128 | Algorithm::Shake256 => None,
        _ => if output_bits / 4 == 0 {
            None
        } else {
            Some(output_bits / 4)
        },
    }
}

// ---------------------------------------------------------------------------
// Writing checksum lines
// ---------------------------------------------------------------------------

/// The line that the tool writes for a file and its checksum: the BSD form
/// `ALGO (name) = sum` with `--tag`, the sum alone with `--no-names`, and
/// otherwise `sum` then a space, the mode marker (`*` binary, space text) and
/// the name. With `--zero` the line ends in NUL and the name is written as
/// it is; otherwise it ends in a newline, the name is escaped, and a
/// backslash starts the line when escaping changed it.
pub open spec fn hash_line_spec(f: HashsumFlags, filename: Seq<char>, sum: Seq<char>) -> Seq<char> {
    let marker = if f.is_binary { seq!['*'] } else { seq![' '] };
    let esc = escape_spec(filename);
    let prefix = escape_prefix(esc != filename);
    if f.is_tag {
        if f.is_zero {
            f.algoname@ + " ("@ + filename + ") = "@ + sum + seq!['\0']
        } else {
            prefix + f.algoname@ + " ("@ + esc + ") = "@ + sum + seq!['\n']
        }
    } else if f.is_nonames {
        sum + seq!['\n']
    } else if f.is_zero {
        sum + seq![' '] + marker + filename + seq!['\0']
    } else {
        prefix + sum + seq![' '] + marker + esc + seq!['\n']
    }
}

/// The line that the tool writes for the file `filename` whose checksum is `sum`.
pub fn hash_line(f: &HashsumFlags, filename: &str, sum: &str) -> (r: String)
    ensures
        r@ == hash_line_spec(*f, filename@, sum@),
{
    let mut v: Vec<char> = Vec::new();
    let marker = if f.is_binary { '*' } else { ' ' };
    if f.is_tag {
        if f.is_zero {
            push_str(&mut v, f.algoname);
            push_str(&mut v, " (");
            push_str(&mut v, filename);
            push_str(&mut v, ") = ");
            push_str(&mut v, sum);
            v.push('\0');
        } else {
            let (esc, prefix) = escape_filename(filename);
            push_str(&mut v, prefix);
            push_str(&mut v, f.algoname);
            push_str(&mut v, " (");
            push_str(&mut v, esc.as_str());
            push_str(&mut v, ") = ");
            push_str(&mut v, sum);
            v.push('\n');
        }
    } else if f.is_nonames {
        push_str(&mut v, sum);
        v.push('\n');
    } else if f.is_zero {
        push_str(&mut v, sum);
        v.push(' ');
        v.push(marker);
        push_str(&mut v, filename);
        v.push('\0');
    } else {
        let (esc, prefix) = escape_filename(filename);
        push_str(&mut v, prefix);
        push_str(&mut v, sum);
        v.push(' ');
        v.push(marker);
        push_str(&mut v, esc.as_str());
        v.push('\n');
    }
    proof {
        reveal_strlit(" (");
        reveal_strlit(") = ");
    }
    assert(v@ =~= hash_line_spec(*f, filename@, sum@));
    string_from_chars(&v)
}

/// Hexadecimal digits, lower case, of each byte in turn.
pub open spec fn hex_lower(bytes: Seq<u8>) -> Seq<char>
    decreases bytes.len(),
{
    if bytes.len() == 0 {
        Seq::empty()
    } else {
        seq![hex_digit(bytes[0] / 16), hex_digit(bytes[0] % 16)] + hex_lower(bytes.skip(1))
    }
}

/// The lower-case hexadecimal digit of a value below 16.
pub open spec fn hex_digit(d: u8) -> char {
    if d < 10 {
        (('0' as u8) + d) as char
    } else {
        (('a' as u8) + d - 10) as char
    }
}

/// The value of a lower-case hexadecimal digit.
pub open spec fn hex_value(c: char) -> int {
    if '0' <= c && c <= '9' {
        (c as u32) - 48
    } else {
        (c as u32) - 87
    }
}

/// Hexadecimal text reads back as the bytes it was made of: two lower-case
/// digits per byte, the high half first.
pub proof fn law_hex_lower_reads_back(bytes: Seq<u8>)
    ensures
        hex_lower(bytes).len() == 2 * bytes.len(),
        forall|i: int| 0 <= i < hex_lower(bytes).len() ==> ('0' <= #[trigger] hex_lower(bytes)[i] <= '9') || (
        'a' <= hex_lower(bytes)[i] <= 'f'),
        forall|i: int|
            0 <= i < bytes.len() ==> hex_value(#[trigger] hex_lower(bytes)[2 * i]) * 16 + hex_value(
                hex_lower(bytes)[2 * i + 1],
            ) == bytes[i],
    decreases bytes.len(),
{
    if bytes.len() > 0 {
        law_hex_lower_reads_back(bytes.skip(1));
        let h = hex_lower(bytes);
        let t = hex_lower(bytes.skip(1));
        let b = bytes[0];
        let (hi, lo) = (b / 16, b % 16);
        assert(h == seq![hex_digit(hi), hex_digit(lo)] + t);
        lemma_hex_digit(hi);
        lemma_hex_digit(lo);
        assert forall|i: int| 0 <= i < h.len() implies ('0' <= #[trigger] h[i] <= '9') || ('a' <= h[i] <= 'f') by {
            if i >= 2 {
                assert(h[i] == t[i - 2]);
            }
        }
        assert forall|i: int| 0 <= i < bytes.len() implies hex_value(#[trigger] h[2 * i]) * 16 + hex_value(h[2 * i + 1])
            == bytes[i] by {
            if i > 0 {
                assert(h[2 * i] == t[2 * (i - 1)]);
                assert(h[2 * i + 1] == t[2 * (i - 1) + 1]);
                assert(bytes[i] == bytes.skip(1)[i - 1]);
            }
        }
    }
}

proof fn lemma_hex_digit(d: u8)
    requires
        d < 16,
    ensures
        hex_value(hex_digit(d)) == d,
        ('0' <= hex_digit(d) <= '9') || ('a' <= hex_digit(d) <= 'f'),
{
}

/// `hex::encode`: claims the lower-case hexadecimal digits of each byte in
/// turn, two per byte.
#[verifier::external_body]
fn hex_encode(bytes: &[u8]) -> (r: String)
    ensures
        r@ == hex_lower(bytes@),
{
    hex::encode(bytes)
}

/// The checksum text of an algorithm without a fixed digest size (SHAKE):
/// the digest bytes in lower-case hexadecimal.
pub fn digest_bytes_hex(bytes: &[u8]) -> (r: String)
    ensures
        r@ == hex_lower(bytes@),
{
    hex_encode(bytes)
}

/// Number of bytes to draw from an algorithm without a fixed digest size
/// for `output_bits` bits: the bits rounded up to whole bytes.
pub fn digest_byte_count(output_bits: usize) -> (r: usize)
    ensures
        r as int == (output_bits as int + 7) / 8,
{
    output_bits / 8 + if output_bits % 8 == 0 { 0 } else { 1 }
}

// ---------------------------------------------------------------------------
// Computing digests
// ---------------------------------------------------------------------------

/// The MD5 digest of a text.
pub uninterp spec fn md5_of(data: Seq<u8>) -> Seq<u8>;

/// `Digest::digest` of `md5::Md5`: claims that the result is the MD5 digest
/// of the data, 16 bytes long.
#[verifier::external_body]
fn md5_digest(data: &[u8]) -> (r: Vec<u8>)
    ensures
        r@ == md5_of(data@),
        r@.len() == 16,
{
    <md5::Md5 as md5::Digest>::digest(data).to_vec()
}

/// The SHA-1 digest of a text.
pub uninterp spec fn sha1_of(data: Seq<u8>) -> Seq<u8>;

/// `Digest::digest` of `sha1::Sha1`: claims that the result is the SHA-1 digest
/// of the data, 20 bytes long.
#[verifier::external_body]
fn sha1_digest(data: &[u8]) -> (r: Vec<u8>)
    ensures
        r@ == sha1_of(data@),
        r@.len() == 20,
{
    <sha1::Sha1 as sha1::Digest>::digest(data).to_vec()
}

/// The SHA-224 digest of a text.
pub uninterp spec fn sha224_of(data: Seq<u8>) -> Seq<u8>;

/// `Digest::digest` of `sha2::Sha224`: claims that the result is the SHA-224 digest
/// of the data, 28 bytes long.
#[verifier::external_body]
fn sha224_digest(data: &[u8]) -> (r: Vec<u8>)
    ensures
        r@ == sha224_of(data@),
        r@.len() == 28,
{
    <sha2::Sha224 as sha2::Digest>::digest(data).to_vec()
}

/// The SHA-256 digest of a text.
pub uninterp spec fn sha256_of(data: Seq<u8>) -> Seq<u8>;

/// `Digest::digest` of `sha2::Sha256`: claims that the result is the SHA-256 digest
/// of the data, 32 bytes long.
#[verifier::external_body]
fn sha256_digest(data: &[u8]) -> (r: Vec<u8>)
    ensures
        r@ == sha256_of(data@),
        r@.len() == 32,
{
    <sha2::Sha256 as sha2::Digest>::digest(data).to_vec()
}

/// The SHA-384 digest of a text.
pub uninterp spec fn sha384_of(data: Seq<u8>) -> Seq<u8>;

/// `Digest::digest` of `sha2::Sha384`: claims that the result is the SHA-384 digest
/// of the data, 48 bytes long.
#[verifier::external_body]
fn sha384_digest(data: &[u8]) -> (r: Vec<u8>)
    ensures
        r@ == sha384_of(data@),
        r@.len() == 48,
{
    <sha2::Sha384 as sha2::Digest>::digest(data).to_vec()
}

/// The SHA-512 digest of a text.
pub uninterp spec fn sha512_of(data: Seq<u8>) -> Seq<u8>;

/// `Digest::digest` of `sha2::Sha512`: claims that the result is the SHA-512 digest
/// of the data, 64 bytes long.
#[verifier::external_body]
fn sha512_digest(data: &[u8]) -> (r: Vec<u8>)
    ensures
        r@ == sha512_of(data@),
        r@.len() == 64,
{
    <sha2::Sha512 as sha2::Digest>::digest(data).to_vec()
}

/// The SHA3-224 digest of a text.
pub uninterp spec fn sha3_224_of(data: Seq<u8>) -> Seq<u8>;

/// `Digest::digest` of `sha3::Sha3_224`: claims that the result is the SHA3-224 digest
/// of the data, 28 bytes long.
#[verifier::external_body]
fn sha3_224_digest(data: &[u8]) -> (r: Vec<u8>)
    ensures
        r@ == sha3_224_of(data@),
        r@.len() == 28,
{
    <sha3::Sha3_224 as sha3::Digest>::digest(data).to_vec()
}

/// The SHA3-256 digest of a text.
pub uninterp spec fn sha3_256_of(data: Seq<u8>) -> Seq<u8>;

/// `Digest::digest` of `sha3::Sha3_256`: claims that the result is the SHA3-256 digest
/// of the data, 32 bytes long.
#[verifier::external_body]
fn sha3_256_digest(data: &[u8]) -> (r: Vec<u8>)
    ensures
        r@ == sha3_256_of(data@),
        r@.len() == 32,
{
    <sha3::Sha3_256 as sha3::Digest>::digest(data).to_vec()
}

/// The SHA3-384 digest of a text.
pub uninterp spec fn sha3_384_of(data: Seq<u8>) -> Seq<u8>;

/// `Digest::digest` of `sha3::Sha3_384`: claims that the result is the SHA3-384 digest
/// of the data, 48 bytes long.
#[verifier::external_body]
fn sha3_384_digest(data: &[u8]) -> (r: Vec<u8>)
    ensures
        r@ == sha3_384_of(data@),
        r@.len() == 48,
{
    <sha3::Sha3_384 as sha3::Digest>::digest(data).to_vec()
}

/// The SHA3-512 digest of a text.
pub uninterp spec fn sha3_512_of(data: Seq<u8>) -> Seq<u8>;

/// `Digest::digest` of `sha3::Sha3_512`: claims that the result is the SHA3-512 digest
/// of the data, 64 bytes long.
#[verifier::external_body]
fn sha3_512_digest(data: &[u8]) -> (r: Vec<u8>)
    ensures
        r@ == sha3_512_of(data@),
        r@.len() == 64,
{
    <sha3::Sha3_512 as sha3::Digest>::digest(data).to_vec()
}

/// The BLAKE2b digest of a text, `len` bytes long.
pub uninterp spec fn blake2b_of(data: Seq<u8>, len: usize) -> Seq<u8>;

/// `Params::hash_length` then `Params::hash` of blake2b_simd: claims that the
/// result is the BLAKE2b digest of that length (which the crate asserts to
/// be from 1 to 64).
#[verifier::external_body]
fn blake2b_digest(data: &[u8], len: usize) -> (r: Vec<u8>)
    requires
        1 <= len <= 64,
    ensures
        r@ == blake2b_of(data@, len),
        r@.len() == len,
{
    blake2b_simd::Params::new().hash_length(len).hash(data).as_bytes().to_vec()
}

/// The BLAKE3 digest of a text.
pub uninterp spec fn blake3_of(data: Seq<u8>) -> Seq<u8>;

/// `blake3::hash`: claims that the result is the BLAKE3 digest, 32 bytes long.
#[verifier::external_body]
fn blake3_digest(data: &[u8]) -> (r: Vec<u8>)
    ensures
        r@ == blake3_of(data@),
        r@.len() == 32,
{
    blake3::hash(data).as_bytes().to_vec()
}

/// The first `len` bytes of the SHAKE128 output for a text.
pub uninterp spec fn shake128_of(data: Seq<u8>, len: usize) -> Seq<u8>;

/// `ExtendableOutput::digest_xof` of `sha3::Shake128`: claims that the
/// buffer of `len` bytes is filled with the SHAKE128 output of the data.
#[verifier::external_body]
fn shake128_digest(data: &[u8], len: usize) -> (r: Vec<u8>)
    ensures
        r@ == shake128_of(data@, len),
        r@.len() == len,
{
    let mut out = vec![0u8; len];
    <sha3::Shake128 as sha3::digest::ExtendableOutput>::digest_xof(data, &mut out);
    out
}

/// The first `len` bytes of the SHAKE256 output for a text.
pub uninterp spec fn shake256_of(data: Seq<u8>, len: usize) -> Seq<u8>;

/// `ExtendableOutput::digest_xof` of `sha3::Shake256`: claims that the
/// buffer of `len` bytes is filled with the SHAKE256 output of the data.
#[verifier::external_body]
fn shake256_digest(data: &[u8], len: usize) -> (r: Vec<u8>)
    ensures
        r@ == shake256_of(data@, len),
        r@.len() == len,
{
    let mut out = vec![0u8; len];
    <sha3::Shake256 as sha3::digest::ExtendableOutput>::digest_xof(data, &mut out);
    out
}

/// The digest bytes of a text under an algorithm: for SHAKE, as many bytes
/// as the output bits take, rounded up.
pub open spec fn digest_spec(a: Algorithm, output_bits: usize, data: Seq<u8>) -> Seq<u8> {
    match a {
        Algorithm::Md5 => md5_of(data),
        Algorithm::Sha1 => sha1_of(data),
        Algorithm::Sha224 => sha224_of(data),
        Algorithm::Sha256 => sha256_of(data),
        Algorithm::Sha384 => sha384_of(data),
        Algorithm::Sha512 => sha512_of(data),
        Algorithm::Blake2b(n) => blake2b_of(data, n),
        Algorithm::Blake3 => blake3_of(data),
        Algorithm::Sha3_224 => sha3_224_of(data),
        Algorithm::Sha3_256 => sha3_256_of(data),
        Algorithm::Sha3_384 => sha3_384_of(data),
        Algorithm::Sha3_512 => sha3_512_of(data),
        Algorithm::Shake128 => shake128_of(data, ((output_bits as int + 7) / 8) as usize),
        Algorithm::Shake256 => shake256_of(data, ((output_bits as int + 7) / 8) as usize),
    }
}

/// Each algorithm computes its own digest: MD5 the MD5 digest, SHA3-512 the
/// SHA3-512 digest, BLAKE2b the BLAKE2b digest of its length, and so on;
/// SHAKE128 and SHAKE256 give as many bytes as the output bits need.
pub proof fn law_each_algorithm_computes_its_own_digest(output_bits: usize, data: Seq<u8>, n: usize)
    ensures
        digest_spec(Algorithm::Md5, output_bits, data) == md5_of(data),
        digest_spec(Algorithm::Sha1, output_bits, data) == sha1_of(data),
        digest_spec(Algorithm::Sha224, output_bits, data) == sha224_of(data),
        digest_spec(Algorithm::Sha256, output_bits, data) == sha256_of(data),
        digest_spec(Algorithm::Sha384, output_bits, data) == sha384_of(data),
        digest_spec(Algorithm::Sha512, output_bits, data) == sha512_of(data),
        digest_spec(Algorithm::Blake2b(n), output_bits, data) == blake2b_of(data, n),
        digest_spec(Algorithm::Blake3, output_bits, data) == blake3_of(data),
        digest_spec(Algorithm::Sha3_224, output_bits, data) == sha3_224_of(data),
        digest_spec(Algorithm::Sha3_256, output_bits, data) == sha3_256_of(data),
        digest_spec(Algorithm::Sha3_384, output_bits, data) == sha3_384_of(data),
        digest_spec(Algorithm::Sha3_512, output_bits, data) == sha3_512_of(data),
        8 * n >= output_bits && 8 * n < output_bits + 8 ==> digest_spec(Algorithm::Shake128, output_bits, data)
            == shake128_of(data, n),
        8 * n >= output_bits && 8 * n < output_bits + 8 ==> digest_spec(Algorithm::Shake256, output_bits, data)
            == shake256_of(data, n),
{
}

/// The checksum of a text, in lower-case hexadecimal, under the algorithm
/// chosen (with its output bits, which size SHAKE's output); a BLAKE2b
/// length is from 1 to 64 bytes, as `create_blake2b` makes it.
pub fn compute_digest(a: Algorithm, output_bits: usize, data: &[u8]) -> (r: String)
    requires
        a matches Algorithm::Blake2b(n) ==> 1 <= n <= 64,
    ensures
        r@ == hex_lower(digest_spec(a, output_bits, data@)),
{
    let bytes = match a {
        Algorithm::Md5 => md5_digest(data),
        Algorithm::Sha1 => sha1_digest(data),
        Algorithm::Sha224 => sha224_digest(data),
        Algorithm::Sha256 => sha256_digest(data),
        Algorithm::Sha384 => sha384_digest(data),
        Algorithm::Sha512 => sha512_digest(data),
        Algorithm::Blake2b(n) => blake2b_digest(data, n),
        Algorithm::Blake3 => blake3_digest(data),
        Algorithm::Sha3_224 => sha3_224_digest(data),
        Algorithm::Sha3_256 => sha3_256_digest(data),
        Algorithm::Sha3_384 => sha3_384_digest(data),
        Algorithm::Sha3_512 => sha3_512_digest(data),
        Algorithm::Shake128 => shake128_digest(data, digest_byte_count(output_bits)),
        Algorithm::Shake256 => shake256_digest(data, digest_byte_count(output_bits)),
    };
    hex_encode(bytes.as_slice())
}

// ---------------------------------------------------------------------------
// Reading checksum lines
// ---------------------------------------------------------------------------

/// A hexadecimal digit, either case.
pub open spec fn is_hex(c: char) -> bool {
    ('0' <= c && c <= '9') || ('a' <= c && c <= 'f') || ('A' <= c && c <= 'F')
}

/// All characters are hexadecimal digits.
pub open spec fn all_hex(s: Seq<char>) -> bool {
    forall|i: int| 0 <= i < s.len() ==> is_hex(#[trigger] s[i])
}

/// Length of the longest prefix made of hexadecimal digits.
pub open spec fn hex_run(s: Seq<char>) -> nat
    decreases s.len(),
{
    if s.len() > 0 && is_hex(s[0]) {
        1 + hex_run(s.skip(1))
    } else {
        0
    }
}

/// The text up to the first newline (`.` of a regular expression stops there).
pub open spec fn upto_newline(s: Seq<char>) -> Seq<char>
    decreases s.len(),
{
    if s.len() == 0 || s[0] == '\n' {
        Seq::empty()
    } else {
        seq![s[0]] + upto_newline(s.skip(1))
    }
}

/// ASCII lower case of a character.
pub open spec fn ascii_lower(c: char) -> char {
    if 'A' <= c && c <= 'Z' {
        ((c as u32) + 32) as char
    } else {
        c
    }
}

/// ASCII lower case of a text.
pub open spec fn lower(s: Seq<char>) -> Seq<char> {
    s.map_values(|c: char| ascii_lower(c))
}

/// Whether the mode marker after a GNU-style digest is optional (the first
/// line of a file), absent (the first line had none) or required (it had one).
#[derive(Debug, Clone, Copy, PartialEq, Eq, Structural)]
pub enum MarkerForm {
    Optional,
    Absent,
    Required,
}

/// A GNU-style line `DIGEST NAME`, `DIGEST  NAME` or `DIGEST *NAME` with a
/// digest of `len` hexadecimal digits (any number when `None`): the digest,
/// the mode marker read, and the name.
pub open spec fn gnu_fields(line: Seq<char>, len: Option<nat>, form: MarkerForm) -> Option<(Seq<char>, Option<char>, Seq<char>)> {
    let n: int = match len {
        Some(k) => k as int,
        None => hex_run(line) as int,
    };
    if 1 <= n < line.len() && all_hex(line.take(n)) && line[n] == ' ' {
        let rest = line.skip(n + 1);
        let marked = rest.len() > 0 && (rest[0] == ' ' || rest[0] == '*');
        match form {
            MarkerForm::Optional => if marked {
                Some((line.take(n), Some(rest[0]), upto_newline(rest.skip(1))))
            } else {
                Some((line.take(n), None, upto_newline(rest)))
            },
            MarkerForm::Absent => Some((line.take(n), None, upto_newline(rest))),
            MarkerForm::Required => if marked {
                Some((line.take(n), Some(rest[0]), upto_newline(rest.skip(1))))
            } else {
                None
            },
        }
    } else {
        None
    }
}

/// Where the name starts in a BSD-style line `ALGO (NAME) = DIGEST`, which
/// may begin with a backslash.
pub open spec fn bsd_start(line: Seq<char>, algo: Seq<char>) -> Option<int> {
    let head = algo + " ("@;
    if head.len() <= line.len() && line.take(head.len() as int) == head {
        Some(head.len() as int)
    } else if line.len() > 0 && line[0] == '\\' && head.len() + 1 <= line.len() && line.subrange(
        1,
        head.len() + 1int,
    ) == head {
        Some(head.len() + 1int)
    } else {
        None
    }
}

/// Length of the digest right after position `p`, when `) = ` and a digest stand there.
pub open spec fn bsd_digest_at(line: Seq<char>, p: int, len: Option<nat>) -> Option<nat> {
    if 0 <= p && p + 4 <= line.len() && line.subrange(p, p + 4) == ") = "@ {
        match len {
            Some(k) => if p + 4 + k <= line.len() && all_hex(line.subrange(p + 4, p + 4 + k)) {
                Some(k)
            } else {
                None
            },
            None => if hex_run(line.skip(p + 4)) >= 1 {
                Some(hex_run(line.skip(p + 4)))
            } else {
                None
            },
        }
    } else {
        None
    }
}

/// The last position `p` in `[b, q]` where `) = ` and a digest stand.
pub open spec fn bsd_last_split(line: Seq<char>, b: int, q: int, len: Option<nat>) -> Option<int>
    decreases q - b + 1,
{
    if q < b {
        None
    } else if bsd_digest_at(line, q, len) is Some {
        Some(q)
    } else {
        bsd_last_split(line, b, q - 1, len)
    }
}

/// Index of the first newline at or after `b`, or the length.
pub open spec fn newline_from(line: Seq<char>, b: int) -> int
    decreases line.len() - b,
{
    if b >= line.len() || b < 0 {
        line.len() as int
    } else if line[b] == '\n' {
        b
    } else {
        newline_from(line, b + 1)
    }
}

/// A BSD-style line `ALGO (NAME) = DIGEST` (possibly after a backslash):
/// the name, which runs to the last `) = ` before any newline that a digest
/// follows, and the digest.
pub open spec fn bsd_fields(line: Seq<char>, algo: Seq<char>, len: Option<nat>) -> Option<(Seq<char>, Seq<char>)> {
    match bsd_start(line, algo) {
        None => None,
        Some(b) => match bsd_last_split(line, b, newline_from(line, b), len) {
            None => None,
            Some(p) => {
                let k = bsd_digest_at(line, p, len)->0;
                Some((line.subrange(b, p), line.subrange(p + 4, p + 4 + k)))
            },
        },
    }
}

/// What a checksum line gives, with the marker form of the file's earlier
/// lines (`None` before the first GNU-style line): the name, the digest in
/// lower case and whether the file is read in binary mode, and the marker
/// form for the next lines; `None` for a line in no known format.
pub open spec fn parse_line_spec(line: Seq<char>, algo: Seq<char>, len: Option<nat>, reversed: Option<bool>) -> (Option<(Seq<char>, Seq<char>, bool)>, Option<bool>) {
    let form = match reversed {
        None => MarkerForm::Optional,
        Some(true) => MarkerForm::Absent,
        Some(false) => MarkerForm::Required,
    };
    match gnu_fields(line, len, form) {
        Some((digest, marker, name)) => {
            let next = match reversed {
                None => Some(marker is None),
                Some(r) => Some(r),
            };
            (Some((name, lower(digest), next == Some(false) && marker == Some('*'))), next)
        },
        None => match bsd_fields(line, algo, len) {
            Some((name, digest)) => (Some((name, lower(digest), true)), reversed),
            None => (None, reversed),
        },
    }
}

/// A digest as the tool writes it: lower-case hexadecimal digits.
pub open spec fn lower_hex(s: Seq<char>) -> bool {
    forall|i: int| 0 <= i < s.len() ==> ('0' <= #[trigger] s[i] <= '9') || ('a' <= s[i] <= 'f')
}

/// A name that escaping leaves as it is: no backslash, newline or carriage
/// return.
pub open spec fn plain_name(s: Seq<char>) -> bool {
    forall|i: int| 0 <= i < s.len() ==> #[trigger] s[i] != '\\' && s[i] != '\n' && s[i] != '\r'
}

/// Escaping leaves a plain name as it is.
proof fn lemma_escape_plain(s: Seq<char>)
    requires
        plain_name(s),
    ensures
        escape_spec(s) == s,
    decreases s.len(),
{
    if s.len() == 0 {
        lemma_no_backslash_unchanged(s);
        assert(replace_all(s, seq!['\n'], seq!['\\', 'n']) =~= s);
    } else {
        let t = s.skip(1);
        assert(seq![s[0]] + t =~= s);
        assert(plain_name(t)) by {
            assert forall|i: int| 0 <= i < t.len() implies #[trigger] t[i] != '\\' && t[i] != '\n' && t[i] != '\r' by {
                assert(t[i] == s[i + 1]);
            }
        }
        assert(s[0] != '\\');
        lemma_escape_cons(s[0], t);
        lemma_escape_plain(t);
        assert(escaped_char(s[0]) == seq![s[0]]);
    }
}

/// An escaped name without backslashes holds no newline.
proof fn lemma_escape_no_newline(s: Seq<char>)
    requires
        no_backslash(s),
    ensures
        forall|i: int| 0 <= i < escape_spec(s).len() ==> #[trigger] escape_spec(s)[i] != '\n',
    decreases s.len(),
{
    if s.len() == 0 {
        lemma_no_backslash_unchanged(s);
        assert(escape_spec(s) =~= s);
    } else {
        let c = s[0];
        let t = s.skip(1);
        assert(seq![c] + t =~= s);
        assert(no_backslash(t)) by {
            assert forall|i: int| 0 <= i < t.len() implies t[i] != '\\' by {
                assert(t[i] == s[i + 1]);
            }
        }
        lemma_escape_cons(c, t);
        lemma_escape_no_newline(t);
        let e = escaped_char(c);
        assert forall|i: int| 0 <= i < escape_spec(s).len() implies #[trigger] escape_spec(s)[i] != '\n' by {
            if i < e.len() {
                assert(escape_spec(s)[i] == e[i]);
            } else {
                assert(escape_spec(s)[i] == escape_spec(t)[i - e.len()]);
            }
        }
    }
}

/// A line without a newline from `b` on gives its length.
proof fn lemma_newline_from_none(line: Seq<char>, b: int)
    requires
        0 <= b <= line.len(),
        forall|j: int| b <= j < line.len() ==> line[j] != '\n',
    ensures
        newline_from(line, b) == line.len(),
    decreases line.len() - b,
{
    if b < line.len() {
        lemma_newline_from_none(line, b + 1);
    }
}

/// The last split at or below `q` is `p0` when `) = ` and the digest stand
/// at `p0` and end the line.
proof fn lemma_bsd_last_split_at(line: Seq<char>, b: int, q: int, p0: int, k: nat)
    requires
        b <= p0 <= q,
        p0 + 4 + k == line.len(),
        bsd_digest_at(line, p0, Some(k)) == Some(k),
    ensures
        bsd_last_split(line, b, q, Some(k)) == Some(p0),
    decreases q - p0,
{
    if q > p0 {
        assert(bsd_digest_at(line, q, Some(k)) is None);
        lemma_bsd_last_split_at(line, b, q - 1, p0, k);
    }
}

/// The GNU-style line of a plain name reads back as written.
proof fn lemma_gnu_line_reads_back(f: HashsumFlags, name: Seq<char>, sum: Seq<char>)
    requires
        !f.is_zero,
        !f.is_nonames,
        !f.is_tag,
        sum.len() >= 2,
        all_hex(sum),
        plain_name(name),
    ensures
        gnu_fields(hash_line_spec(f, name, sum).drop_last(), Some(sum.len()), MarkerForm::Optional) == Some(
            (sum, Some(if f.is_binary { '*' } else { ' ' }), name),
        ),
{
    let k = sum.len();
    lemma_escape_plain(name);
    let marker = if f.is_binary { seq!['*'] } else { seq![' '] };
    let line = hash_line_spec(f, name, sum).drop_last();
    assert(line =~= sum + seq![' '] + marker + name);
    assert(line.take(k as int) =~= sum);
    assert(line[k as int] == ' ');
    let rest = line.skip(k as int + 1);
    assert(rest =~= marker + name);
    assert(rest[0] == marker[0]);
    assert(rest.skip(1) =~= name);
    assert forall|j: int| 0 <= j < name.len() implies name[j] != '\n' by {
        assert(name[j] != '\\' && name[j] != '\n' && name[j] != '\r');
    }
    lemma_upto_newline_prefix(name, name.len() as int);
    assert(name.take(name.len() as int) =~= name);
}

/// The BSD-style line of a name without backslashes reads back with the
/// escaped name.
#[verifier::spinoff_prover]
#[verifier::rlimit(40)]
proof fn lemma_bsd_line_reads_back(f: HashsumFlags, name: Seq<char>, sum: Seq<char>)
    requires
        !f.is_zero,
        f.is_tag,
        sum.len() >= 2,
        all_hex(sum),
        no_backslash(name),
        f.algoname@.len() >= 2,
        f.algoname@[0] != '\\',
        !(is_hex(f.algoname@[0]) && is_hex(f.algoname@[1])),
    ensures
        gnu_fields(hash_line_spec(f, name, sum).drop_last(), Some(sum.len()), MarkerForm::Optional) is None,
        bsd_fields(hash_line_spec(f, name, sum).drop_last(), f.algoname@, Some(sum.len())) == Some(
            (escape_spec(name), sum),
        ),
{
    reveal_strlit(" (");
    reveal_strlit(") = ");
    let k = sum.len();
    let ki: int = k as int;
    let algo = f.algoname@;
    let esc = escape_spec(name);
    let prefix = escape_prefix(esc != name);
    let head = algo + " ("@;
    let line = hash_line_spec(f, name, sum).drop_last();
    assert(line =~= prefix + algo + " ("@ + esc + ") = "@ + sum);
    assert(!all_hex(line.take(ki))) by {
        if prefix.len() > 0 {
            assert(line.take(ki)[0] == '\\');
        } else {
            assert(line.take(ki)[0] == algo[0]);
            assert(line.take(ki)[1] == algo[1]);
        }
    }
    let b: int = (prefix.len() + head.len()) as int;
    let hl: int = head.len() as int;
    if prefix.len() > 0 {
        assert(line.take(hl)[0] == '\\');
        assert(head[0] == algo[0]);
        assert(line.subrange(1, hl + 1) =~= head);
    } else {
        assert(line.take(hl) =~= head);
    }
    assert(bsd_start(line, algo) == Some(b));
    lemma_escape_no_newline(name);
    let p0: int = b + esc.len();
    let tail = ") = "@ + sum;
    assert(line.skip(p0) =~= tail);
    assert forall|j: int| b <= j < line.len() implies line[j] != '\n' by {
        if j < p0 {
            assert(line[j] == esc[j - b]);
        } else {
            assert(line[j] == line.skip(p0)[j - p0]);
            if j - p0 >= 4 {
                assert(tail[j - p0] == sum[j - p0 - 4]);
            }
        }
    }
    lemma_newline_from_none(line, b);
    assert(line.subrange(p0, p0 + 4) =~= ") = "@);
    assert(line.subrange(p0 + 4, p0 + 4 + ki) =~= sum);
    assert(bsd_digest_at(line, p0, Some(k)) == Some(k));
    lemma_bsd_last_split_at(line, b, line.len() as int, p0, k);
    assert(line.subrange(b, p0) =~= esc);
}

/// What `hash_line` writes is read back by `parse_hash_line`, on the first
/// line of a checksum file, with its line end taken off: for a file whose
/// name holds no backslash and a digest of lower-case hexadecimal digits
/// (the digest length the check expects), not with `--zero` or
/// `--no-names`. In the BSD format (`--tag`) the line gives the escaped
/// name, which unescaping turns back into the name, the digest, and binary
/// mode; in the GNU format the name itself, the digest and the mode written,
/// for a name that needs no escaping. The algorithm's name starts with a
/// character other than a backslash, and its first two characters are not
/// both hexadecimal digits.
pub proof fn law_hash_line_reads_back(f: HashsumFlags, name: Seq<char>, sum: Seq<char>)
    requires
        !f.is_zero,
        !f.is_nonames,
        sum.len() >= 2,
        lower_hex(sum),
        no_backslash(name),
        !f.is_tag ==> plain_name(name),
        f.algoname@.len() >= 2,
        f.algoname@[0] != '\\',
        !(is_hex(f.algoname@[0]) && is_hex(f.algoname@[1])),
    ensures
        ({
            let (r, next) = parse_line_spec(
                hash_line_spec(f, name, sum).drop_last(),
                f.algoname@,
                Some(sum.len()),
                None,
            );
            if f.is_tag {
                r == Some((escape_spec(name), sum, true))
            } else {
                r == Some((name, sum, f.is_binary))
            }
        }),
        unescape_spec(escape_spec(name)) == name,
{
    law_escape_then_unescape(name);
    assert(lower(sum) =~= sum);
    assert(all_hex(sum));
    if f.is_tag {
        lemma_bsd_line_reads_back(f, name, sum);
    } else {
        lemma_gnu_line_reads_back(f, name, sum);
    }
}

fn hex_char(c: char) -> (r: bool)
    ensures
        r == is_hex(c),
{
    ('0' <= c && c <= '9') || ('a' <= c && c <= 'f') || ('A' <= c && c <= 'F')
}

fn lower_char(c: char) -> (r: char)
    ensures
        r == ascii_lower(c),
{
    if 'A' <= c && c <= 'Z' {
        let u = c as u32 + 32;
        assert(65 <= u <= 122);
        let b = u as u8;
        let r = b as char;
        assert(r == ((c as u32) + 32) as char);
        r
    } else {
        c
    }
}

pub(crate) fn lower_vec(s: &[char]) -> (r: Vec<char>)
    ensures
        r@ == lower(s@),
{
    let mut r: Vec<char> = Vec::new();
    let mut i: usize = 0;
    while i < s.len()
        invariant
            i <= s@.len(),
            r@ == lower(s@.take(i as int)),
        decreases s@.len() - i,
    {
        r.push(lower_char(s[i]));
        assert(lower(s@.take(i + 1)) =~= lower(s@.take(i as int)).push(ascii_lower(s@[i as int])));
        i = i + 1;
    }
    assert(s@.take(s@.len() as int) =~= s@);
    r
}

proof fn lemma_hex_run_le(s: Seq<char>)
    ensures
        hex_run(s) <= s.len(),
    decreases s.len(),
{
    if s.len() > 0 && is_hex(s[0]) {
        lemma_hex_run_le(s.skip(1));
    }
}

proof fn lemma_hex_run(s: Seq<char>, k: int)
    requires
        0 <= k <= s.len(),
        all_hex(s.take(k)),
    ensures
        hex_run(s) >= k,
        k < s.len() && !is_hex(s[k]) ==> hex_run(s) == k,
    decreases k,
{
    if k > 0 {
        assert(is_hex(s.take(k)[0]));
        assert(s.skip(1).take(k - 1) =~= s.take(k).skip(1));
        assert forall|j: int| 0 <= j < k - 1 implies is_hex(#[trigger] s.skip(1).take(k - 1)[j]) by {
            assert(s.skip(1).take(k - 1)[j] == s.take(k)[j + 1]);
        }
        lemma_hex_run(s.skip(1), k - 1);
        if k < s.len() {
            assert(s.skip(1)[k - 1] == s[k]);
        }
    }
}

/// Length of the longest prefix of `s[from..]` made of hexadecimal digits.
fn hex_run_exec(s: &[char], from: usize) -> (r: usize)
    requires
        from <= s@.len(),
    ensures
        r == hex_run(s@.skip(from as int)),
        from + r <= s@.len(),
{
    let mut k: usize = from;
    while k < s.len() && hex_char(s[k])
        invariant
            from <= k <= s@.len(),
            all_hex(s@.skip(from as int).take(k - from)),
        decreases s@.len() - k,
    {
        assert forall|j: int| 0 <= j < k + 1 - from implies is_hex(#[trigger] s@.skip(from as int).take(k + 1 - from)[j]) by {
            if j < k - from {
                assert(s@.skip(from as int).take(k + 1 - from)[j] == s@.skip(from as int).take(k - from)[j]);
            }
        }
        k = k + 1;
    }
    proof {
        lemma_hex_run(s@.skip(from as int), (k - from) as int);
        lemma_hex_run_le(s@.skip(from as int));
        if k < s@.len() {
            assert(s@.skip(from as int)[k - from] == s@[k as int]);
        }
    }
    k - from
}

proof fn lemma_upto_newline_prefix(s: Seq<char>, k: int)
    requires
        0 <= k <= s.len(),
        forall|j: int| 0 <= j < k ==> s[j] != '\n',
        k == s.len() || s[k] == '\n',
    ensures
        upto_newline(s) == s.take(k),
    decreases k,
{
    if k == 0 {
        assert(s.take(0) =~= Seq::<char>::empty());
    } else {
        assert forall|j: int| 0 <= j < k - 1 implies s.skip(1)[j] != '\n' by {
            assert(s.skip(1)[j] == s[j + 1]);
        }
        if k < s.len() {
            assert(s.skip(1)[k - 1] == s[k]);
        }
        lemma_upto_newline_prefix(s.skip(1), k - 1);
        assert(s.take(k) =~= seq![s[0]] + s.skip(1).take(k - 1));
    }
}

/// The characters of `s[from..]` up to the first newline.
fn upto_newline_exec(s: &[char], from: usize) -> (r: Vec<char>)
    requires
        from <= s@.len(),
    ensures
        r@ == upto_newline(s@.skip(from as int)),
{
    let mut r: Vec<char> = Vec::new();
    let mut k: usize = from;
    while k < s.len() && s[k] != '\n'
        invariant
            from <= k <= s@.len(),
            r@ == s@.subrange(from as int, k as int),
            forall|j: int| from <= j < k ==> s@[j] != '\n',
        decreases s@.len() - k,
    {
        r.push(s[k]);
        assert(s@.subrange(from as int, k + 1) =~= s@.subrange(from as int, k as int).push(s@[k as int]));
        k = k + 1;
    }
    proof {
        let t = s@.skip(from as int);
        assert forall|j: int| 0 <= j < k - from implies t[j] != '\n' by {
            assert(t[j] == s@[from + j]);
        }
        if k < s@.len() {
            assert(t[k - from] == s@[k as int]);
        }
        lemma_upto_newline_prefix(t, (k - from) as int);
        assert(t.take(k - from) =~= s@.subrange(from as int, k as int));
    }
    r
}

fn take_vec(s: &[char], from: usize, to: usize) -> (r: Vec<char>)
    requires
        from <= to <= s@.len(),
    ensures
        r@ == s@.subrange(from as int, to as int),
{
    let mut r: Vec<char> = Vec::new();
    let mut k: usize = from;
    while k < to
        invariant
            from <= k <= to <= s@.len(),
            r@ == s@.subrange(from as int, k as int),
        decreases to - k,
    {
        r.push(s[k]);
        assert(s@.subrange(from as int, k + 1) =~= s@.subrange(from as int, k as int).push(s@[k as int]));
        k = k + 1;
    }
    r
}

fn all_hex_exec(s: &[char], from: usize, to: usize) -> (r: bool)
    requires
        from <= to <= s@.len(),
    ensures
        r == all_hex(s@.subrange(from as int, to as int)),
{
    let mut k: usize = from;
    while k < to
        invariant
            from <= k <= to <= s@.len(),
            forall|j: int| from <= j < k ==> is_hex(s@[j]),
        decreases to - k,
    {
        if !hex_char(s[k]) {
            assert(s@.subrange(from as int, to as int)[k - from] == s@[k as int]);
            return false;
        }
        k = k + 1;
    }
    assert forall|j: int| 0 <= j < to - from implies is_hex(#[trigger] s@.subrange(from as int, to as int)[j]) by {
        assert(s@.subrange(from as int, to as int)[j] == s@[from + j]);
    }
    true
}

fn gnu_fields_exec(line: &[char], len: Option<usize>, form: MarkerForm) -> (r: Option<(Vec<char>, Option<char>, Vec<char>)>)
    ensures
        match gnu_fields(line@, match len { Some(k) => Some(k as nat), None => None }, form) {
            Some((d, m, name)) => r matches Some((d2, m2, name2)) && d2@ == d && m2 == m && name2@ == name,
            None => r is None,
        },
{
    let n: usize = match len {
        Some(k) => k,
        None => hex_run_exec(line, 0),
    };
    proof {
        assert(line@.skip(0) =~= line@);
    }
    if !(1 <= n && n < line.len()) {
        return None;
    }
    if !all_hex_exec(line, 0, n) || line[n] != ' ' {
        assert(line@.subrange(0, n as int) =~= line@.take(n as int));
        return None;
    }
    assert(line@.subrange(0, n as int) =~= line@.take(n as int));
    let digest = take_vec(line, 0, n);
    let ghost rest = line@.skip(n + 1);
    let marked = n + 1 < line.len() && (line[n + 1] == ' ' || line[n + 1] == '*');
    proof {
        if n + 1 < line@.len() {
            assert(rest[0] == line@[n + 1]);
            assert(line@.skip(n + 2) =~= rest.skip(1));
        }
    }
    match form {
        MarkerForm::Optional => if marked {
            Some((digest, Some(line[n + 1]), upto_newline_exec(line, n + 2)))
        } else {
            Some((digest, None, upto_newline_exec(line, n + 1)))
        },
        MarkerForm::Absent => Some((digest, None, upto_newline_exec(line, n + 1))),
        MarkerForm::Required => if marked {
            Some((digest, Some(line[n + 1]), upto_newline_exec(line, n + 2)))
        } else {
            None
        },
    }
}

fn prefix_at(line: &[char], at: usize, head: &[char]) -> (r: bool)
    requires
        at <= line@.len(),
    ensures
        r == (at + head@.len() <= line@.len() && line@.subrange(at as int, at + head@.len()) == head@),
{
    if head.len() > line.len() - at {
        return false;
    }
    let mut k: usize = 0;
    while k < head.len()
        invariant
            k <= head@.len(),
            at + head@.len() <= line@.len(),
            line@.len() == line.len(),
            forall|j: int| 0 <= j < k ==> line@[at + j] == head@[j],
        decreases head@.len() - k,
    {
        if line[at + k] != head[k] {
            assert(line@.subrange(at as int, at + head@.len())[k as int] == line@[at + k]);
            return false;
        }
        k = k + 1;
    }
    assert(line@.subrange(at as int, at + head@.len()) =~= head@);
    true
}

fn bsd_digest_at_exec(line: &[char], p: usize, len: Option<usize>) -> (r: Option<usize>)
    requires
        p <= line@.len(),
    ensures
        match bsd_digest_at(line@, p as int, match len { Some(k) => Some(k as nat), None => None }) {
            Some(k) => r == Some(k as usize) && p + 4 + k <= line@.len(),
            None => r is None,
        },
{
    let sep = vec![')', ' ', '=', ' '];
    assert(sep@ =~= ") = "@) by {
        reveal_strlit(") = ");
    }
    let ln = line.len();
    if !prefix_at(line, p, &sep) {
        return None;
    }
    match len {
        Some(k) => {
            if k > line.len() - (p + 4) {
                return None;
            }
            if all_hex_exec(line, p + 4, p + 4 + k) {
                Some(k)
            } else {
                None
            }
        },
        None => {
            let k = hex_run_exec(line, p + 4);
            if k >= 1 {
                Some(k)
            } else {
                None
            }
        },
    }
}

fn bsd_fields_exec(line: &[char], algo: &str, len: Option<usize>) -> (r: Option<(Vec<char>, Vec<char>)>)
    ensures
        match bsd_fields(line@, algo@, match len { Some(k) => Some(k as nat), None => None }) {
            Some((name, d)) => r matches Some((name2, d2)) && name2@ == name && d2@ == d,
            None => r is None,
        },
{
    let ghost glen = match len { Some(k) => Some(k as nat), None => None };
    let mut head = chars_of(algo);
    push_str(&mut head, " (");
    let b: usize = if prefix_at(line, 0, &head) {
        assert(line@.subrange(0, head@.len() as int) =~= line@.take(head@.len() as int));
        head.len()
    } else if line.len() > 0 && line[0] == '\\' && prefix_at(line, 1, &head) {
        assert(!(head@.len() <= line@.len() && line@.take(head@.len() as int) == head@)) by {
            assert(line@.subrange(0, head@.len() as int) =~= line@.take(head@.len() as int));
        }
        head.len() + 1
    } else {
        assert(!(head@.len() <= line@.len() && line@.take(head@.len() as int) == head@)) by {
            assert(line@.subrange(0, head@.len() as int) =~= line@.take(head@.len() as int));
        }
        return None;
    };
    assert(bsd_start(line@, algo@) == Some(b as int));
    let mut q: usize = b;
    while q < line.len() && line[q] != '\n'
        invariant
            b <= q <= line@.len(),
            newline_from(line@, b as int) == newline_from(line@, q as int),
        decreases line@.len() - q,
    {
        q = q + 1;
    }
    assert(newline_from(line@, q as int) == q);
    let mut p: usize = q;
    let ln = line.len();
    loop
        invariant
            b <= p <= q <= line@.len() == ln,
            glen == (match len { Some(k) => Some(k as nat), None => None }),
            bsd_start(line@, algo@) == Some(b as int),
            newline_from(line@, b as int) == q,
            bsd_last_split(line@, b as int, q as int, glen) == bsd_last_split(line@, b as int, p as int, glen),
        decreases p - b,
    {
        match bsd_digest_at_exec(line, p, len) {
            Some(k) => {
                let name = take_vec(line, b, p);
                let digest = take_vec(line, p + 4, p + 4 + k);
                return Some((name, digest));
            },
            None => {
                if p == b {
                    assert(bsd_last_split(line@, b as int, b - 1, glen) is None);
                    return None;
                }
                p = p - 1;
            },
        }
    }
}

/// What a checksum line gives (see `parse_line_spec`): the name, the digest
/// in lower case, and whether the file is to be read in binary mode; `None`
/// for an improperly formatted line. `bsd_reversed` holds, from the first
/// GNU-style line of the file on, whether that line had no mode marker.
pub fn parse_hash_line(line: &str, algoname: &str, digest_len: Option<usize>, bsd_reversed: &mut Option<bool>) -> (r: Option<(String, String, bool)>)
    ensures
        ({
            let (res, next) = parse_line_spec(
                line@,
                algoname@,
                match digest_len { Some(k) => Some(k as nat), None => None },
                *old(bsd_reversed),
            );
            &&& *final(bsd_reversed) == next
            &&& match res {
                Some((name, d, bin)) => r matches Some((n2, d2, b2)) && n2@ == name && d2@ == d && b2 == bin,
                None => r is None,
            }
        }),
{
    let cs = chars_of(line);
    let form = match *bsd_reversed {
        None => MarkerForm::Optional,
        Some(true) => MarkerForm::Absent,
        Some(false) => MarkerForm::Required,
    };
    match gnu_fields_exec(&cs, digest_len, form) {
        Some((digest, marker, name)) => {
            let next = match *bsd_reversed {
                None => Some(marker.is_none()),
                Some(x) => Some(x),
            };
            *bsd_reversed = next;
            let binary = next == Some(false) && marker == Some('*');
            Some((string_from_chars(&name), string_from_chars(&lower_vec(&digest)), binary))
        },
        None => match bsd_fields_exec(&cs, algoname, digest_len) {
            Some((name, digest)) => Some((string_from_chars(&name), string_from_chars(&lower_vec(&digest)), true)),
            None => None,
        },
    }
}

// ---------------------------------------------------------------------------
// Reporting in check mode
// ---------------------------------------------------------------------------

/// What checking one listed file gave: the text written, whether the file
/// counts as verified, and whether it counts as a file that could not be read.
pub struct VerifyReport {
    pub text: String,
    pub passed: bool,
    pub open_failed: bool,
}

/// The report of a listed file `name` (as written in the checksum line)
/// whose expected digest is `expected`: `actual` is the digest computed, or
/// `None` when the file could not be opened. A missing file is skipped
/// silently with `--ignore-missing`; otherwise it is reported as not found
/// (after the program name `util`) and as failed. A matching digest
/// (compared in lower case) prints `OK` unless `--quiet`; another prints
/// `FAILED` unless `--status`. The prefix is the backslash of an escaped name.
pub open spec fn verify_report_spec(f: HashsumFlags, util: Seq<char>, name: Seq<char>, expected: Seq<char>, actual: Option<Seq<char>>) -> (Seq<char>, bool, bool) {
    let prefix = escape_prefix(unescape_spec(name) != name);
    match actual {
        None => if f.is_ignore_missing {
            (Seq::empty(), true, false)
        } else {
            (util + ": "@ + name + ": No such file or directory\n"@ + name + ": FAILED open or read\n"@, false, true)
        },
        Some(sum) => if lower(sum) == expected {
            (if f.is_quiet { Seq::empty() } else { prefix + name + ": OK\n"@ }, true, false)
        } else {
            (if f.is_status { Seq::empty() } else { prefix + name + ": FAILED\n"@ }, false, false)
        },
    }
}

/// The hexadecimal text of digest bytes is lower-case hexadecimal, two
/// digits per byte.
proof fn lemma_hex_lower(bytes: Seq<u8>)
    ensures
        lower_hex(hex_lower(bytes)),
        hex_lower(bytes).len() == 2 * bytes.len(),
    decreases bytes.len(),
{
    if bytes.len() > 0 {
        lemma_hex_lower(bytes.skip(1));
        let h = hex_lower(bytes);
        let t = hex_lower(bytes.skip(1));
        let d0 = hex_digit(bytes[0] / 16);
        let d1 = hex_digit(bytes[0] % 16);
        assert(h == seq![d0, d1] + t);
        assert(('0' <= d0 <= '9') || ('a' <= d0 <= 'f'));
        assert(('0' <= d1 <= '9') || ('a' <= d1 <= 'f'));
        assert forall|i: int| 0 <= i < h.len() implies ('0' <= #[trigger] h[i] <= '9') || ('a' <= h[i] <= 'f') by {
            if i >= 2 {
                assert(h[i] == t[i - 2]);
            }
        }
    }
}

/// A file checks out against the line written for it: when `hash_line`
/// writes the digest of a file (as hexadecimal text), reading that line back
/// (the first of a checksum file, its line end taken off) and checking the
/// same digest reports the file as verified, under the listed name, which
/// unescapes to the file's name. The conditions are those of
/// `law_hash_line_reads_back`, for a digest of at least one byte.
pub proof fn law_written_checksum_verifies(f: HashsumFlags, util: Seq<char>, name: Seq<char>, digest: Seq<u8>)
    requires
        !f.is_zero,
        !f.is_nonames,
        digest.len() >= 1,
        no_backslash(name),
        !f.is_tag ==> plain_name(name),
        f.algoname@.len() >= 2,
        f.algoname@[0] != '\\',
        !(is_hex(f.algoname@[0]) && is_hex(f.algoname@[1])),
    ensures
        ({
            let sum = hex_lower(digest);
            let (r, next) = parse_line_spec(
                hash_line_spec(f, name, sum).drop_last(),
                f.algoname@,
                Some(sum.len()),
                None,
            );
            &&& r matches Some((listed, expected, _)) && unescape_spec(listed) == name && verify_report_spec(
                f,
                util,
                listed,
                expected,
                Some(sum),
            ).1
        }),
{
    let sum = hex_lower(digest);
    lemma_hex_lower(digest);
    law_hash_line_reads_back(f, name, sum);
    assert(lower(sum) =~= sum);
    if !f.is_tag {
        lemma_escape_plain(name);
    }
    let (r, next) = parse_line_spec(hash_line_spec(f, name, sum).drop_last(), f.algoname@, Some(sum.len()), None);
    let listed = if f.is_tag { escape_spec(name) } else { name };
    assert(r->0 == (listed, sum, if f.is_tag { true } else { f.is_binary }));
    assert(unescape_spec(listed) == name);
    assert(verify_report_spec(f, util, listed, sum, Some(sum)).1);
}

/// The report of a listed file (see `verify_report_spec`).
pub fn verify_report(f: &HashsumFlags, util: &str, name: &str, expected: &str, actual: Option<&str>) -> (r: VerifyReport)
    ensures
        ({
            let (text, passed, open_failed) = verify_report_spec(
                *f,
                util@,
                name@,
                expected@,
                match actual { Some(a) => Some(a@), None => None },
            );
            r.text@ == text && r.passed == passed && r.open_failed == open_failed
        }),
{
    let (_, prefix) = unescape_filename(name);
    let mut v: Vec<char> = Vec::new();
    proof {
        reveal_strlit(": ");
        reveal_strlit(": No such file or directory\n");
        reveal_strlit(": FAILED open or read\n");
        reveal_strlit(": OK\n");
        reveal_strlit(": FAILED\n");
    }
    match actual {
        None => {
            if f.is_ignore_missing {
                assert(v@ =~= Seq::<char>::empty());
                return VerifyReport { text: string_from_chars(&v), passed: true, open_failed: false };
            }
            push_str(&mut v, util);
            push_str(&mut v, ": ");
            push_str(&mut v, name);
            push_str(&mut v, ": No such file or directory\n");
            push_str(&mut v, name);
            push_str(&mut v, ": FAILED open or read\n");
            VerifyReport { text: string_from_chars(&v), passed: false, open_failed: true }
        },
        Some(sum) => {
            let real_sum = lower_vec(&chars_of(sum));
            let exp = chars_of(expected);
            if seq_eq(&real_sum, &exp) {
                if !f.is_quiet {
                    push_str(&mut v, prefix);
                    push_str(&mut v, name);
                    push_str(&mut v, ": OK\n");
                }
                VerifyReport { text: string_from_chars(&v), passed: true, open_failed: false }
            } else {
                if !f.is_status {
                    push_str(&mut v, prefix);
                    push_str(&mut v, name);
                    push_str(&mut v, ": FAILED\n");
                }
                VerifyReport { text: string_from_chars(&v), passed: false, open_failed: false }
            }
        },
    }
}

/// The warnings after all files: the number of improperly formatted lines,
/// of checksums that did not match and of listed files that could not be read.
pub open spec fn summary_spec(bad_format: nat, failed_cksum: nat, failed_open_file: nat) -> Seq<Seq<char>> {
    let a: Seq<Seq<char>> = if bad_format == 1 {
        seq!["1 line is improperly formatted"@]
    } else if bad_format > 1 {
        seq![decimal(bad_format) + " lines are improperly formatted"@]
    } else {
        Seq::empty()
    };
    let b: Seq<Seq<char>> = if failed_cksum > 0 {
        seq![decimal(failed_cksum) + " computed checksum did NOT match"@]
    } else {
        Seq::empty()
    };
    let c: Seq<Seq<char>> = if failed_open_file == 1 {
        seq!["1 listed file could not be read"@]
    } else if failed_open_file > 1 {
        seq![decimal(failed_open_file) + " listed files could not be read"@]
    } else {
        Seq::empty()
    };
    a + b + c
}

/// The warnings after all files (see `summary_spec`).
pub fn summary_warnings(bad_format: u64, failed_cksum: u64, failed_open_file: u64) -> (r: Vec<String>)
    ensures
        r@.map_values(|s: String| s@) == summary_spec(bad_format as nat, failed_cksum as nat, failed_open_file as nat),
{
    let mut r: Vec<String> = Vec::new();
    proof {
        reveal_strlit("1");
    }
    if bad_format == 1 {
        let mut v = u64_decimal(1);
        push_str(&mut v, " line is improperly formatted");
        r.push(string_from_chars(&v));
        proof {
            reveal_strlit(" line is improperly formatted");
            reveal_strlit("1 line is improperly formatted");
            assert(decimal(1) =~= seq!['1']);
        }
        assert(v@ =~= "1 line is improperly formatted"@);
    } else if bad_format > 1 {
        let mut v = u64_decimal(bad_format);
        push_str(&mut v, " lines are improperly formatted");
        r.push(string_from_chars(&v));
    }
    let ghost ra = r@.map_values(|s: String| s@);
    if failed_cksum > 0 {
        let mut v = u64_decimal(failed_cksum);
        push_str(&mut v, " computed checksum did NOT match");
        r.push(string_from_chars(&v));
    }
    let ghost rb = r@.map_values(|s: String| s@);
    if failed_open_file == 1 {
        let mut v = u64_decimal(1);
        push_str(&mut v, " listed file could not be read");
        r.push(string_from_chars(&v));
        proof {
            reveal_strlit(" listed file could not be read");
            reveal_strlit("1 listed file could not be read");
            assert(decimal(1) =~= seq!['1']);
        }
        assert(v@ =~= "1 listed file could not be read"@);
    } else if failed_open_file > 1 {
        let mut v = u64_decimal(failed_open_file);
        push_str(&mut v, " listed files could not be read");
        r.push(string_from_chars(&v));
    }
    assert(r@.map_values(|s: String| s@) =~= summary_spec(
        bad_format as nat,
        failed_cksum as nat,
        failed_open_file as nat,
    ));
    r
}

/// Whether the run ends in failure: in check mode when a line was
/// improperly formatted under `--strict`, a checksum did not match, a listed
/// file could not be read, or a checksum file had no valid line; and in any
/// mode when a named file could not be opened.
pub fn run_failed(f: &HashsumFlags, bad_format: u64, failed_cksum: u64, failed_open_file: u64, no_valid_lines: bool, missing_file: u64) -> (r: bool)
    ensures
        r == ((f.is_check && ((bad_format > 0 && f.is_strict) || failed_cksum > 0 || failed_open_file > 0
            || no_valid_lines)) || missing_file > 0),
{
    if f.is_check {
        if (bad_format > 0 && f.is_strict) || failed_cksum > 0 || failed_open_file > 0 || no_valid_lines {
            return true;
        }
    }
    missing_file > 0
}

/// The counts that a run keeps across its files: improperly formatted
/// lines, listed files that did not check out, listed files that could not
/// be read, named files that could not be opened, and whether a checksum
/// file held no valid line.
#[derive(Debug, Clone, Copy, PartialEq, Eq, Structural)]
pub struct CheckTally {
    pub bad_format: u64,
    pub failed_cksum: u64,
    pub failed_open_file: u64,
    pub missing_file: u64,
    pub no_valid_lines: bool,
}

/// What happened next in a run.
#[derive(Debug, Clone, Copy, PartialEq, Eq, Structural)]
pub enum CheckEvent {
    /// A named file could not be opened.
    NamedFileUnopened,
    /// A line of a checksum file was not properly formatted.
    Malformed,
    /// A listed file was checked: whether it checked out, and whether it
    /// could not be read (its report, `verify_report`).
    Checked(bool, bool),
    /// A checksum file ended: whether it held a valid line.
    ChecksumFileEnded(bool),
}

/// What the run does after an event.
#[derive(Debug, Clone, Copy, PartialEq, Eq, Structural)]
pub enum CheckAction {
    /// Goes on with the next line or file.
    Continue,
    /// Warns of the improperly formatted line (`--warn`), then goes on.
    WarnMalformed,
    /// Warns that the checksum file held no valid line, then goes on.
    WarnNoValidLines,
    /// Ends the run at once, in failure (`--strict`).
    Stop,
}

/// One more, short of the largest count.
pub open spec fn bump(x: u64) -> u64 {
    if x < u64::MAX {
        (x + 1) as u64
    } else {
        x
    }
}

/// The counts before the first file.
pub open spec fn tally_start() -> CheckTally {
    CheckTally { bad_format: 0, failed_cksum: 0, failed_open_file: 0, missing_file: 0, no_valid_lines: false }
}

/// The counts and the action after an event: a file that cannot be opened
/// is counted and the run goes on; an improperly formatted line is counted,
/// and ends the run under `--strict`; a listed file that does not check
/// out is counted as failed, and also as unreadable when it could not be
/// read; a checksum file without a valid line is noted.
pub open spec fn check_step_spec(f: HashsumFlags, t: CheckTally, e: CheckEvent) -> (CheckTally, CheckAction) {
    match e {
        CheckEvent::NamedFileUnopened => (
            CheckTally { missing_file: bump(t.missing_file), ..t },
            CheckAction::Continue,
        ),
        CheckEvent::Malformed => {
            let t2 = CheckTally { bad_format: bump(t.bad_format), ..t };
            if f.is_strict {
                (t2, CheckAction::Stop)
            } else if f.is_warn {
                (t2, CheckAction::WarnMalformed)
            } else {
                (t2, CheckAction::Continue)
            }
        },
        CheckEvent::Checked(passed, open_failed) => (
            CheckTally {
                failed_cksum: if passed { t.failed_cksum } else { bump(t.failed_cksum) },
                failed_open_file: if open_failed { bump(t.failed_open_file) } else { t.failed_open_file },
                ..t
            },
            CheckAction::Continue,
        ),
        CheckEvent::ChecksumFileEnded(valid) => if valid {
            (t, CheckAction::Continue)
        } else {
            (CheckTally { no_valid_lines: true, ..t }, CheckAction::WarnNoValidLines)
        },
    }
}

impl CheckTally {
    /// The counts before the first file.
    pub fn new() -> (r: CheckTally)
        ensures
            r == tally_start(),
    {
        CheckTally { bad_format: 0, failed_cksum: 0, failed_open_file: 0, missing_file: 0, no_valid_lines: false }
    }
}

fn bump_count(x: u64) -> (r: u64)
    ensures
        r == bump(x),
{
    if x < u64::MAX {
        x + 1
    } else {
        x
    }
}

/// The counts and the action after an event (`check_step_spec`). Only an
/// improperly formatted line under `--strict` stops the run: every other
/// file is handled, whatever failed before it.
pub fn check_step(f: &HashsumFlags, t: CheckTally, e: CheckEvent) -> (r: (CheckTally, CheckAction))
    ensures
        r == check_step_spec(*f, t, e),
        (r.1 == CheckAction::Stop) <==> (e == CheckEvent::Malformed && f.is_strict),
{
    match e {
        CheckEvent::NamedFileUnopened => (CheckTally { missing_file: bump_count(t.missing_file), ..t }, CheckAction::Continue),
        CheckEvent::Malformed => {
            let t2 = CheckTally { bad_format: bump_count(t.bad_format), ..t };
            if f.is_strict {
                (t2, CheckAction::Stop)
            } else if f.is_warn {
                (t2, CheckAction::WarnMalformed)
            } else {
                (t2, CheckAction::Continue)
            }
        },
        CheckEvent::Checked(passed, open_failed) => (
            CheckTally {
                failed_cksum: if passed { t.failed_cksum } else { bump_count(t.failed_cksum) },
                failed_open_file: if open_failed { bump_count(t.failed_open_file) } else { t.failed_open_file },
                ..t
            },
            CheckAction::Continue,
        ),
        CheckEvent::ChecksumFileEnded(valid) => if valid {
            (t, CheckAction::Continue)
        } else {
            (CheckTally { no_valid_lines: true, ..t }, CheckAction::WarnNoValidLines)
        },
    }
}

/// Whether a run that kept the counts `t` ends in failure (`run_failed`).
pub fn tally_failed(f: &HashsumFlags, t: &CheckTally) -> (r: bool)
    ensures
        r == ((f.is_check && ((t.bad_format > 0 && f.is_strict) || t.failed_cksum > 0 || t.failed_open_file > 0
            || t.no_valid_lines)) || t.missing_file > 0),
{
    run_failed(f, t.bad_format, t.failed_cksum, t.failed_open_file, t.no_valid_lines, t.missing_file)
}

/// The warning for an improperly formatted line (`line_no` counts from 1).
pub fn improper_line_warning(file: &str, line_no: u64, algoname: &str) -> (r: String)
    ensures
        r@ == file@ + ": "@ + decimal(line_no as nat) + ": improperly formatted "@ + algoname@ + " checksum line"@,
{
    let mut v: Vec<char> = Vec::new();
    push_str(&mut v, file);
    push_str(&mut v, ": ");
    let d = u64_decimal(line_no);
    push_chars(&mut v, &d);
    push_str(&mut v, ": improperly formatted ");
    push_str(&mut v, algoname);
    push_str(&mut v, " checksum line");
    string_from_chars(&v)
}

/// The warning for a checksum file without a single valid line.
pub fn no_valid_lines_warning(file: &str, algoname: &str) -> (r: String)
    ensures
        r@ == file@ + ": no properly formatted "@ + algoname@ + " checksum lines found"@,
{
    let mut v: Vec<char> = Vec::new();
    push_str(&mut v, file);
    push_str(&mut v, ": no properly formatted ");
    push_str(&mut v, algoname);
    push_str(&mut v, " checksum lines found");
    string_from_chars(&v)
}

} // verus!
