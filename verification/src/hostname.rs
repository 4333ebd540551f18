//! `hostname` and its other names (`dnsdomainname`, `domainname`,
//! `nisdomainname`, `ypdomainname`): showing or setting the system's names.

use vstd::prelude::*;
use crate::text::{find_chars, first_occurrence, chars_of, string_from_chars, push_str, push_chars, seq_eq, str_is, chars_from};

verus! {

/// The `hostname` tool.
pub struct Hostname;

/// The `dnsdomainname` tool.
pub struct Dnsdomainname;

/// The `domainname` tool.
pub struct Domainname;

/// The `nisdomainname` tool.
pub struct Nisdomainname;

/// The `ypdomainname` tool.
pub struct Ypdomainname;

impl Hostname {
    /// Name of the tool.
    pub fn name(&self) -> (r: &'static str)
        ensures
            r@ == "hostname"@,
    {
        "hostname"
    }
}

impl Dnsdomainname {
    /// Name of the tool.
    pub fn name(&self) -> (r: &'static str)
        ensures
            r@ == "dnsdomainname"@,
    {
        "dnsdomainname"
    }
}

impl Domainname {
    /// Name of the tool.
    pub fn name(&self) -> (r: &'static str)
        ensures
            r@ == "domainname"@,
    {
        "domainname"
    }
}

impl Nisdomainname {
    /// Name of the tool.
    pub fn name(&self) -> (r: &'static str)
        ensures
            r@ == "nisdomainname"@,
    {
        "nisdomainname"
    }
}

impl Ypdomainname {
    /// Name of the tool.
    pub fn name(&self) -> (r: &'static str)
        ensures
            r@ == "ypdomainname"@,
    {
        "ypdomainname"
    }
}

/// Which name is shown or set.
#[derive(Clone, Copy, Debug, PartialEq, Eq, Structural)]
pub enum NameType {
    /// The host name.
    Default,
    /// The DNS domain (`-d`).
    Dns,
    /// The fully qualified name (`-f`).
    Fqdn,
    /// The host name up to its first dot (`-s`).
    Short,
    /// The aliases (`-a`).
    Alias,
    /// The addresses of the host name (`-i`).
    Ip,
    /// The NIS domain, as `domainname` shows it.
    Nis,
    /// The NIS domain (`-y`).
    NisDef,
    /// The names of all addresses (`-A`).
    AllFqdns,
    /// All addresses (`-I`).
    AllIps,
}

/// The name type that the program's name selects.
pub open spec fn default_type_spec(progname: Seq<char>) -> NameType {
    if progname == "dnsdomainname"@ {
        NameType::Dns
    } else if progname == "domainname"@ {
        NameType::Nis
    } else if progname == "ypdomainname"@ || progname == "nisdomainname"@ {
        NameType::NisDef
    } else {
        NameType::Default
    }
}

/// The name type that the program's name selects: `dnsdomainname` the DNS
/// domain, `domainname` the NIS domain, `ypdomainname` and `nisdomainname`
/// the NIS domain as `-y` shows it, any other the host name.
pub fn default_type(progname: &str) -> (r: NameType)
    ensures
        r == default_type_spec(progname@),
{
    if str_is(progname, "dnsdomainname") {
        NameType::Dns
    } else if str_is(progname, "domainname") {
        NameType::Nis
    } else if str_is(progname, "ypdomainname") || str_is(progname, "nisdomainname") {
        NameType::NisDef
    } else {
        NameType::Default
    }
}

/// What follows the last `/` of `s` (all of `s` without one).
pub open spec fn after_last_slash(s: Seq<char>) -> Seq<char>
    decreases s.len(),
{
    if s.len() == 0 {
        s
    } else if s.last() == '/' {
        Seq::empty()
    } else {
        after_last_slash(s.drop_last()).push(s.last())
    }
}

/// The program's name: the last part of its path, or `hostname` when there
/// is none.
pub open spec fn program_name_spec(argv0: Option<Seq<char>>) -> Seq<char> {
    match argv0 {
        Some(a) => if after_last_slash(a).len() > 0 { after_last_slash(a) } else { "hostname"@ },
        None => "hostname"@,
    }
}

/// The program's name from the first argument, if there is one.
pub fn program_name(argv0: Option<&str>) -> (r: String)
    ensures
        r@ == program_name_spec(match argv0 { Some(a) => Some(a@), None => None }),
{
    match argv0 {
        None => string_from_chars(&chars_of("hostname")),
        Some(a) => {
            let cs = chars_of(a);
            let mut start: usize = cs.len();
            proof {
                assert(cs@.take(cs@.len() as int) =~= cs@);
                assert(cs@.skip(cs@.len() as int) =~= Seq::<char>::empty());
                assert(after_last_slash(cs@.take(cs@.len() as int)) + cs@.skip(cs@.len() as int)
                    =~= after_last_slash(cs@));
            }
            while start > 0 && cs[start - 1] != '/'
                invariant
                    start <= cs@.len(),
                    forall|j: int| start <= j < cs@.len() ==> cs@[j] != '/',
                    after_last_slash(cs@) == after_last_slash(cs@.take(start as int)) + cs@.skip(start as int),
                decreases start,
            {
                let ghost p = cs@.take(start as int);
                assert(p.drop_last() =~= cs@.take(start - 1));
                assert(cs@.skip(start - 1) =~= seq![cs@[start - 1]] + cs@.skip(start as int));
                assert(after_last_slash(p) == after_last_slash(p.drop_last()).push(p.last()));
                assert(after_last_slash(cs@.take(start - 1)).push(cs@[start - 1]) + cs@.skip(start as int)
                    =~= after_last_slash(cs@.take(start - 1)) + cs@.skip(start - 1));
                start = start - 1;
            }
            proof {
                if start > 0 {
                    assert(cs@.take(start as int).last() == '/');
                }
                assert(after_last_slash(cs@.take(start as int)) =~= Seq::<char>::empty());
                assert(after_last_slash(cs@) =~= cs@.skip(start as int));
            }
            let tail = chars_from(&cs, start);
            if tail.len() > 0 {
                string_from_chars(&tail)
            } else {
                string_from_chars(&chars_of("hostname"))
            }
        },
    }
}

// ---------------------------------------------------------------------------
// Host names
// ---------------------------------------------------------------------------

/// An ASCII letter or digit.
pub open spec fn is_alnum(c: char) -> bool {
    ('0' <= c && c <= '9') || ('a' <= c && c <= 'z') || ('A' <= c && c <= 'Z')
}

/// A valid host name: not empty, made of ASCII letters, digits, `-` and
/// `.`, beginning and ending with a letter or digit, with no `-` next to a
/// `.` and no two `.` in a row.
pub open spec fn valid_host_name(s: Seq<char>) -> bool {
    &&& s.len() > 0
    &&& is_alnum(s[0])
    &&& is_alnum(s.last())
    &&& forall|i: int| 0 <= i < s.len() ==> is_alnum(#[trigger] s[i]) || s[i] == '-' || s[i] == '.'
    &&& forall|i: int| 0 < i < s.len() ==> !(#[trigger] s[i] == '-' && s[i - 1] == '.')
    &&& forall|i: int| 0 <= i < s.len() - 1 ==> !(#[trigger] s[i] == '-' && s[i + 1] == '.')
    &&& forall|i: int| 0 < i < s.len() ==> !(#[trigger] s[i] == '.' && s[i - 1] == '.')
}

fn alnum(c: char) -> (r: bool)
    ensures
        r == is_alnum(c),
{
    ('0' <= c && c <= '9') || ('a' <= c && c <= 'z') || ('A' <= c && c <= 'Z')
}

/// Whether `name` is a valid host name (see `valid_host_name`). The check
/// is made on the UTF-8 bytes of the name, and no byte of a non-ASCII
/// character is a letter, a digit, `-` or `.`, so it agrees with the check
/// on characters.
pub fn check_name(name: &str) -> (r: bool)
    ensures
        r == valid_host_name(name@),
{
    let s = chars_of(name);
    let n = s.len();
    if n == 0 {
        return false;
    }
    if !alnum(s[0]) || !alnum(s[n - 1]) {
        return false;
    }
    let mut idx: usize = 0;
    while idx < n
        invariant
            n == s@.len() > 0,
            s@ == name@,
            idx <= n,
            forall|i: int| 0 <= i < idx ==> is_alnum(#[trigger] s@[i]) || s@[i] == '-' || s@[i] == '.',
            forall|i: int| 0 < i < idx ==> !(#[trigger] s@[i] == '-' && s@[i - 1] == '.'),
            forall|i: int| 0 <= i < idx && i < n - 1 ==> !(#[trigger] s@[i] == '-' && s@[i + 1] == '.'),
            forall|i: int| 0 < i < idx ==> !(#[trigger] s@[i] == '.' && s@[i - 1] == '.'),
        decreases n - idx,
    {
        let ch = s[idx];
        assert(s@[idx as int] == ch);
        if !(alnum(ch) || ch == '-' || ch == '.') {
            return false;
        }
        if ch == '-' {
            if idx > 0 && s[idx - 1] == '.' {
                assert(s@[idx as int] == '-' && s@[idx - 1] == '.');
                return false;
            }
            if idx + 1 < n && s[idx + 1] == '.' {
                assert(s@[idx as int] == '-' && s@[idx + 1] == '.');
                return false;
            }
        }
        if ch == '.' && idx > 0 && s[idx - 1] == '.' {
            assert(s@[idx as int] == '.' && s@[idx - 1] == '.');
            return false;
        }
        idx = idx + 1;
    }
    true
}

/// A character that `char::is_whitespace` accepts (the Unicode White_Space
/// property).
pub open spec fn is_space(c: char) -> bool {
    let u = c as u32;
    (0x09 <= u && u <= 0x0d) || u == 0x20 || u == 0x85 || u == 0xa0 || u == 0x1680 || (0x2000 <= u && u
        <= 0x200a) || u == 0x2028 || u == 0x2029 || u == 0x202f || u == 0x205f || u == 0x3000
}

/// Whether `c` is white space (`char::is_whitespace`).
pub fn space(c: char) -> (r: bool)
    ensures
        r == is_space(c),
{
    let u = c as u32;
    (0x09 <= u && u <= 0x0d) || u == 0x20 || u == 0x85 || u == 0xa0 || u == 0x1680 || (0x2000 <= u && u
        <= 0x200a) || u == 0x2028 || u == 0x2029 || u == 0x202f || u == 0x205f || u == 0x3000
}

/// `s` without the white space at its start and end (`str::trim`).
pub open spec fn trim_spec(s: Seq<char>) -> Seq<char>
    decreases s.len(),
{
    if s.len() > 0 && is_space(s[0]) {
        trim_spec(s.skip(1))
    } else if s.len() > 0 && is_space(s.last()) {
        trim_spec(s.drop_last())
    } else {
        s
    }
}

/// `s` without the white space at its start and end.
pub fn trim(s: &[char]) -> (r: Vec<char>)
    ensures
        r@ == trim_spec(s@),
{
    let mut lo: usize = 0;
    let mut hi: usize = s.len();
    assert(s@.subrange(0, s@.len() as int) =~= s@);
    while lo < hi && space(s[lo])
        invariant
            lo <= hi == s@.len(),
            trim_spec(s@.subrange(lo as int, hi as int)) == trim_spec(s@),
        decreases hi - lo,
    {
        assert(s@.subrange(lo as int, hi as int).skip(1) =~= s@.subrange(lo + 1, hi as int));
        lo = lo + 1;
    }
    while lo < hi && space(s[hi - 1])
        invariant
            lo <= hi <= s@.len(),
            lo == hi || !is_space(s@[lo as int]),
            trim_spec(s@.subrange(lo as int, hi as int)) == trim_spec(s@),
        decreases hi - lo,
    {
        let ghost t = s@.subrange(lo as int, hi as int);
        assert(t.drop_last() =~= s@.subrange(lo as int, hi - 1));
        assert(t[0] == s@[lo as int]);
        hi = hi - 1;
    }
    let mut r: Vec<char> = Vec::new();
    let mut k: usize = lo;
    while k < hi
        invariant
            lo <= k <= hi <= s@.len(),
            r@ == s@.subrange(lo as int, k as int),
        decreases hi - k,
    {
        r.push(s[k]);
        assert(s@.subrange(lo as int, k + 1) =~= s@.subrange(lo as int, k as int).push(s@[k as int]));
        k = k + 1;
    }
    proof {
        let t = s@.subrange(lo as int, hi as int);
        if t.len() > 0 {
            assert(t[0] == s@[lo as int]);
            assert(t.last() == s@[hi - 1]);
        }
        assert(trim_spec(t) == t);
    }
    r
}

// ---------------------------------------------------------------------------
// Reading the options as getopt does
// ---------------------------------------------------------------------------

/// The part of `s` before its first `c` (all of `s` without one).
pub open spec fn before_char(s: Seq<char>, c: char) -> Seq<char>
    decreases s.len(),
{
    if s.len() == 0 || s[0] == c {
        Seq::empty()
    } else {
        seq![s[0]] + before_char(s.skip(1), c)
    }
}

/// The part before the first `c` is the longest beginning of `s` without a
/// `c`: a prefix of `s` holding no `c`, which ends where `s` ends or at a `c`.
pub proof fn law_before_char_is_the_part_before_the_first(s: Seq<char>, c: char)
    ensures
        before_char(s, c).len() <= s.len(),
        before_char(s, c) == s.take(before_char(s, c).len() as int),
        forall|i: int| 0 <= i < before_char(s, c).len() ==> #[trigger] before_char(s, c)[i] != c,
        before_char(s, c).len() == s.len() || s[before_char(s, c).len() as int] == c,
    decreases s.len(),
{
    if s.len() > 0 && s[0] != c {
        law_before_char_is_the_part_before_the_first(s.skip(1), c);
        let b = before_char(s.skip(1), c);
        assert(before_char(s, c) =~= seq![s[0]] + b);
        assert(seq![s[0]] + b =~= s.take(b.len() + 1int));
        if b.len() < s.skip(1).len() {
            assert(s[b.len() + 1int] == s.skip(1)[b.len() as int]);
        }
        assert forall|i: int| 0 <= i < before_char(s, c).len() implies #[trigger] before_char(s, c)[i] != c by {
            if i > 0 {
                assert(before_char(s, c)[i] == b[i - 1]);
            }
        }
    } else {
        assert(s.take(0) =~= Seq::<char>::empty());
    }
}

/// Whether `c` occurs in `s`.
pub open spec fn has_char(s: Seq<char>, c: char) -> bool {
    exists|i: int| 0 <= i < s.len() && s[i] == c
}

/// The part of `s` before its first `c`, and whether there is one.
fn split_at_char(s: &[char], c: char) -> (r: (Vec<char>, bool))
    ensures
        r.0@ == before_char(s@, c),
        r.1 == has_char(s@, c),
{
    let mut k: usize = 0;
    let mut out: Vec<char> = Vec::new();
    assert(s@.skip(0) =~= s@);
    while k < s.len() && s[k] != c
        invariant
            k <= s@.len(),
            forall|j: int| 0 <= j < k ==> s@[j] != c,
            before_char(s@, c) == out@ + before_char(s@.skip(k as int), c),
            out@ == s@.take(k as int),
        decreases s@.len() - k,
    {
        assert(s@.skip(k as int)[0] == s@[k as int]);
        assert(s@.skip(k as int).skip(1) =~= s@.skip(k + 1));
        out.push(s[k]);
        assert(out@ + before_char(s@.skip(k + 1), c) =~= s@.take(k as int) + (seq![s@[k as int]] + before_char(s@.skip(k + 1), c)));
        k = k + 1;
        assert(out@ =~= s@.take(k as int));
    }
    proof {
        if k < s@.len() {
            assert(s@.skip(k as int)[0] == c);
            assert(s@[k as int] == c);
        }
        assert(before_char(s@.skip(k as int), c) =~= Seq::<char>::empty());
        assert(out@ + Seq::<char>::empty() =~= out@);
    }
    (out, k < s.len())
}

/// The name type that a long option selects (none for `--file` and the
/// options that select none).
pub open spec fn long_type(name: Seq<char>, t: NameType) -> NameType {
    if name == "domain"@ {
        NameType::Dns
    } else if name == "fqdn"@ || name == "long"@ {
        NameType::Fqdn
    } else if name == "all-fqdns"@ {
        NameType::AllFqdns
    } else if name == "short"@ {
        NameType::Short
    } else if name == "alias"@ {
        NameType::Alias
    } else if name == "ip-address"@ {
        NameType::Ip
    } else if name == "all-ip-addresses"@ {
        NameType::AllIps
    } else if name == "nis"@ || name == "yp"@ {
        NameType::NisDef
    } else {
        t
    }
}

/// The name type that a short option selects.
pub open spec fn short_type(c: char, t: NameType) -> NameType {
    if c == 'd' {
        NameType::Dns
    } else if c == 'a' {
        NameType::Alias
    } else if c == 'f' {
        NameType::Fqdn
    } else if c == 'A' {
        NameType::AllFqdns
    } else if c == 'i' {
        NameType::Ip
    } else if c == 'I' {
        NameType::AllIps
    } else if c == 's' {
        NameType::Short
    } else if c == 'y' {
        NameType::NisDef
    } else {
        t
    }
}

/// A cluster of short options read from the left: the name type it leaves,
/// and whether `-F` at its end takes the next argument as its operand.
pub open spec fn short_cluster(cs: Seq<char>, t: NameType, has_next: bool) -> (NameType, bool)
    decreases cs.len(),
{
    if cs.len() == 0 {
        (t, false)
    } else if cs[0] == 'F' {
        (t, cs.len() == 1 && has_next)
    } else {
        short_cluster(cs.skip(1), short_type(cs[0], t), has_next)
    }
}

/// Whether `a` is a long option (`--` and more).
pub open spec fn is_long_opt(a: Seq<char>) -> bool {
    a.len() > 2 && a[0] == '-' && a[1] == '-'
}

/// Whether `a` is a cluster of short options (`-` and more).
pub open spec fn is_short_opt(a: Seq<char>) -> bool {
    a.len() > 1 && a[0] == '-'
}

/// The name type that the options from argument `i` on select, the last
/// one deciding; `--` ends the options, and the operand of `--file`/`-F`
/// is passed over.
pub open spec fn resolve_from(args: Seq<Seq<char>>, i: int, t: NameType) -> NameType
    decreases args.len() - i,
{
    if i < 0 || i >= args.len() {
        t
    } else if args[i] == "--"@ {
        t
    } else if is_long_opt(args[i]) {
        let long = args[i].skip(2);
        let name = before_char(long, '=');
        let j: int = if name == "file"@ && !has_char(long, '=') { i + 2 } else { i + 1 };
        if j >= args.len() { long_type(name, t) } else { resolve_from(args, j, long_type(name, t)) }
    } else if is_short_opt(args[i]) {
        let (t2, next) = short_cluster(args[i].skip(1), t, i + 1 < args.len());
        let j: int = if next { i + 2 } else { i + 1 };
        if j >= args.len() { t2 } else { resolve_from(args, j, t2) }
    } else {
        resolve_from(args, i + 1, t)
    }
}

/// Whether the characters `a` spell `t`.
fn chars_are(a: &[char], t: &str) -> (r: bool)
    ensures
        r == (a@ == t@),
{
    let tc = chars_of(t);
    seq_eq(a, &tc)
}

/// The name type of a long option.
fn long_type_exec(name: &[char], t: NameType) -> (r: NameType)
    ensures
        r == long_type(name@, t),
{
    if chars_are(name, "domain") {
        NameType::Dns
    } else if chars_are(name, "fqdn") || chars_are(name, "long") {
        NameType::Fqdn
    } else if chars_are(name, "all-fqdns") {
        NameType::AllFqdns
    } else if chars_are(name, "short") {
        NameType::Short
    } else if chars_are(name, "alias") {
        NameType::Alias
    } else if chars_are(name, "ip-address") {
        NameType::Ip
    } else if chars_are(name, "all-ip-addresses") {
        NameType::AllIps
    } else if chars_are(name, "nis") || chars_are(name, "yp") {
        NameType::NisDef
    } else {
        t
    }
}

/// The name type of a short option.
fn short_type_exec(c: char, t: NameType) -> (r: NameType)
    ensures
        r == short_type(c, t),
{
    match c {
        'd' => NameType::Dns,
        'a' => NameType::Alias,
        'f' => NameType::Fqdn,
        'A' => NameType::AllFqdns,
        'i' => NameType::Ip,
        'I' => NameType::AllIps,
        's' => NameType::Short,
        'y' => NameType::NisDef,
        _ => t,
    }
}

/// The arguments as character sequences.
pub open spec fn arg_views(args: Seq<String>) -> Seq<Seq<char>> {
    args.map_values(|s: String| s@)
}

/// The name type that the arguments select (the first argument is the
/// program's name), starting from `default`.
pub fn resolve_name_type(default: NameType, args: &[String]) -> (r: NameType)
    ensures
        r == resolve_from(arg_views(args@), 1, default),
{
    let ghost av = arg_views(args@);
    let mut t = default;
    let mut i: usize = 1;
    while i < args.len()
        invariant
            1 <= i,
            av == arg_views(args@),
            resolve_from(av, i as int, t) == resolve_from(av, 1, default),
        decreases args@.len() - i,
    {
        let a = chars_of(args[i].as_str());
        assert(av[i as int] == a@);
        if chars_are(&a, "--") {
            return t;
        }
        if a.len() > 2 && a[0] == '-' && a[1] == '-' {
            let long = chars_from(&a, 2);
            let (name, inline) = split_at_char(&long, '=');
            let nt = long_type_exec(&name, t);
            let skip_file = chars_are(&name, "file") && !inline;
            t = nt;
            if skip_file {
                if args.len() - i <= 2 {
                    return t;
                }
                i = i + 2;
            } else {
                i = i + 1;
            }
            continue;
        }
        if a.len() > 1 && a[0] == '-' {
            let cs = chars_from(&a, 1);
            let has_next = i + 1 < args.len();
            let mut k: usize = 0;
            let ghost t0 = t;
            assert(cs@.skip(0) =~= cs@);
            while k < cs.len() && cs[k] != 'F'
                invariant
                    k <= cs@.len(),
                    short_cluster(cs@.skip(k as int), t, has_next) == short_cluster(cs@, t0, has_next),
                decreases cs@.len() - k,
            {
                let c = cs[k];
                assert(cs@.skip(k as int)[0] == c);
                assert(cs@.skip(k as int).skip(1) =~= cs@.skip(k + 1));
                t = short_type_exec(c, t);
                k = k + 1;
            }
            let next = k < cs.len() && k + 1 == cs.len() && has_next;
            proof {
                if k == cs@.len() {
                    assert(cs@.skip(k as int) =~= Seq::<char>::empty());
                } else {
                    assert(cs@.skip(k as int)[0] == 'F');
                }
            }
            assert(short_cluster(cs@, t0, has_next) == (t, next));
            if next {
                if args.len() - i <= 2 {
                    return t;
                }
                i = i + 2;
            } else {
                i = i + 1;
            }
            continue;
        }
        i = i + 1;
    }
    t
}

/// The long options that take no operand.
pub open spec fn long_flag(name: Seq<char>) -> bool {
    name == "domain"@ || name == "boot"@ || name == "fqdn"@ || name == "all-fqdns"@ || name == "help"@
        || name == "long"@ || name == "short"@ || name == "version"@ || name == "alias"@ || name
        == "ip-address"@ || name == "all-ip-addresses"@ || name == "nis"@ || name == "yp"@
}

/// The short options that take no operand.
pub open spec fn short_flag(c: char) -> bool {
    c == 'a' || c == 'A' || c == 'd' || c == 'f' || c == 'b' || c == 'h' || c == '?' || c == 'i' || c == 'I'
        || c == 's' || c == 'V' || c == 'y'
}

/// What getopt reports for a cluster of short options: the report, if
/// one is due, and whether `-F` at its end takes the next argument.
pub open spec fn short_error(p: Seq<char>, cs: Seq<char>, has_next: bool) -> (Option<Seq<char>>, bool)
    decreases cs.len(),
{
    if cs.len() == 0 {
        (None, false)
    } else if short_flag(cs[0]) {
        short_error(p, cs.skip(1), has_next)
    } else if cs[0] == 'F' {
        if cs.len() == 1 && !has_next {
            (Some(p + ": option requires an argument -- 'F'"@), false)
        } else {
            (None, cs.len() == 1)
        }
    } else {
        (Some(p + ": invalid option -- '"@ + seq![cs[0]] + "'"@), false)
    }
}

/// The report that getopt would print for the arguments from `i` on, for
/// the program `p`, if it would print one.
pub open spec fn getopt_error_from(p: Seq<char>, args: Seq<Seq<char>>, i: int) -> Option<Seq<char>>
    decreases args.len() - i,
{
    if i < 0 || i >= args.len() {
        None
    } else if args[i] == "--"@ {
        None
    } else if is_long_opt(args[i]) {
        let long = args[i].skip(2);
        let name = before_char(long, '=');
        let inline = has_char(long, '=');
        if long_flag(name) {
            if inline {
                Some(p + ": option '--"@ + name + "' doesn't allow an argument"@)
            } else {
                getopt_error_from(p, args, i + 1)
            }
        } else if name == "file"@ {
            if !inline && i + 1 >= args.len() {
                Some(p + ": option '--file' requires an argument"@)
            } else {
                let j: int = if inline { i + 1 } else { i + 2 };
                if j >= args.len() { None } else { getopt_error_from(p, args, j) }
            }
        } else {
            Some(p + ": unrecognized option '--"@ + name + "'"@)
        }
    } else if is_short_opt(args[i]) {
        let (err, next) = short_error(p, args[i].skip(1), i + 1 < args.len());
        match err {
            Some(m) => Some(m),
            None => {
                let j: int = if next { i + 2 } else { i + 1 };
                if j >= args.len() { None } else { getopt_error_from(p, args, j) }
            },
        }
    } else {
        getopt_error_from(p, args, i + 1)
    }
}

fn long_flag_exec(name: &[char]) -> (r: bool)
    ensures
        r == long_flag(name@),
{
    chars_are(name, "domain") || chars_are(name, "boot") || chars_are(name, "fqdn") || chars_are(name, "all-fqdns")
        || chars_are(name, "help") || chars_are(name, "long") || chars_are(name, "short") || chars_are(
        name,
        "version",
    ) || chars_are(name, "alias") || chars_are(name, "ip-address") || chars_are(name, "all-ip-addresses")
        || chars_are(name, "nis") || chars_are(name, "yp")
}

fn short_flag_exec(c: char) -> (r: bool)
    ensures
        r == short_flag(c),
{
    c == 'a' || c == 'A' || c == 'd' || c == 'f' || c == 'b' || c == 'h' || c == '?' || c == 'i' || c == 'I'
        || c == 's' || c == 'V' || c == 'y'
}

/// The report that getopt would print for these arguments (the first is
/// the program's name) when the command line is refused, if it would print
/// one: an option that takes no operand given one, `--file` or `-F` without
/// its operand, an unknown option. `--` ends the options.
pub fn emit_getopt_style_error(progname: &str, args: &[String]) -> (r: Option<String>)
    ensures
        match getopt_error_from(progname@, arg_views(args@), 1) {
            Some(m) => r matches Some(x) && x@ == m,
            None => r is None,
        },
{
    let ghost av = arg_views(args@);
    let ghost p = progname@;
    let mut i: usize = 1;
    while i < args.len()
        invariant
            1 <= i,
            av == arg_views(args@),
            p == progname@,
            getopt_error_from(p, av, i as int) == getopt_error_from(p, av, 1),
        decreases args@.len() - i,
    {
        let a = chars_of(args[i].as_str());
        assert(av[i as int] == a@);
        if chars_are(&a, "--") {
            return None;
        }
        if a.len() > 2 && a[0] == '-' && a[1] == '-' {
            let long = chars_from(&a, 2);
            let (name, inline) = split_at_char(&long, '=');
            if long_flag_exec(&name) {
                if inline {
                    let mut v = chars_of(progname);
                    push_str(&mut v, ": option '--");
                    push_chars(&mut v, &name);
                    push_str(&mut v, "' doesn't allow an argument");
                    assert(v@ =~= p + ": option '--"@ + name@ + "' doesn't allow an argument"@);
                    return Some(string_from_chars(&v));
                }
                i = i + 1;
                continue;
            }
            if chars_are(&name, "file") {
                if !inline && args.len() - i <= 1 {
                    let mut v = chars_of(progname);
                    push_str(&mut v, ": option '--file' requires an argument");
                    return Some(string_from_chars(&v));
                }
                if inline {
                    i = i + 1;
                } else {
                    if args.len() - i <= 2 {
                        return None;
                    }
                    i = i + 2;
                }
                continue;
            }
            let mut v = chars_of(progname);
            push_str(&mut v, ": unrecognized option '--");
            push_chars(&mut v, &name);
            push_str(&mut v, "'");
            assert(v@ =~= p + ": unrecognized option '--"@ + name@ + "'"@);
            return Some(string_from_chars(&v));
        }
        if a.len() > 1 && a[0] == '-' {
            let cs = chars_from(&a, 1);
            let has_next = i + 1 < args.len();
            let mut k: usize = 0;
            assert(cs@.skip(0) =~= cs@);
            while k < cs.len() && short_flag_exec(cs[k])
                invariant
                    k <= cs@.len(),
                    short_error(p, cs@.skip(k as int), has_next) == short_error(p, cs@, has_next),
                decreases cs@.len() - k,
            {
                assert(cs@.skip(k as int)[0] == cs@[k as int]);
                assert(cs@.skip(k as int).skip(1) =~= cs@.skip(k + 1));
                k = k + 1;
            }
            let mut next = false;
            if k < cs.len() {
                let c = cs[k];
                assert(cs@.skip(k as int)[0] == c);
                if c == 'F' {
                    if k + 1 == cs.len() && !has_next {
                        let mut v = chars_of(progname);
                        push_str(&mut v, ": option requires an argument -- 'F'");
                        return Some(string_from_chars(&v));
                    }
                    next = k + 1 == cs.len();
                } else {
                    let mut v = chars_of(progname);
                    push_str(&mut v, ": invalid option -- '");
                    v.push(c);
                    push_str(&mut v, "'");
                    assert(v@ =~= p + ": invalid option -- '"@ + seq![c] + "'"@);
                    return Some(string_from_chars(&v));
                }
            } else {
                assert(cs@.skip(k as int) =~= Seq::<char>::empty());
            }
            assert(short_error(p, cs@, has_next) == (None::<Seq<char>>, next));
            if next {
                if args.len() - i <= 2 {
                    return None;
                }
                i = i + 2;
            } else {
                i = i + 1;
            }
            continue;
        }
        i = i + 1;
    }
    None
}

// ---------------------------------------------------------------------------
// Lines and words
// ---------------------------------------------------------------------------

/// What `before_char` gives: a prefix that stops at the first `c`.
pub proof fn lemma_before_char(s: Seq<char>, c: char)
    ensures
        before_char(s, c).len() <= s.len(),
        before_char(s, c) == s.take(before_char(s, c).len() as int),
        !has_char(s, c) ==> before_char(s, c) == s,
        has_char(s, c) ==> before_char(s, c).len() < s.len() && s[before_char(s, c).len() as int] == c,
        forall|j: int| 0 <= j < before_char(s, c).len() ==> s[j] != c,
    decreases s.len(),
{
    if s.len() > 0 && s[0] != c {
        lemma_before_char(s.skip(1), c);
        let b = before_char(s.skip(1), c);
        assert(before_char(s, c) == seq![s[0]] + b);
        assert(seq![s[0]] + b =~= s.take(b.len() + 1int)) by {
            assert(b =~= s.skip(1).take(b.len() as int));
        }
        if has_char(s, c) {
            let i = choose|i: int| 0 <= i < s.len() && s[i] == c;
            assert(i > 0);
            assert(s.skip(1)[i - 1] == c);
            assert(has_char(s.skip(1), c));
            assert(s.skip(1)[b.len() as int] == c);
        } else {
            assert forall|i: int| 0 <= i < s.skip(1).len() implies s.skip(1)[i] != c by {
                assert(s.skip(1)[i] == s[i + 1]);
            }
            assert(!has_char(s.skip(1), c));
            assert(seq![s[0]] + s.skip(1) =~= s);
        }
        assert forall|j: int| 0 <= j < before_char(s, c).len() implies s[j] != c by {
            if j > 0 {
                assert(s[j] == s.skip(1)[j - 1]);
            }
        }
    } else if s.len() > 0 {
        assert(has_char(s, c));
        assert(s.take(0) =~= Seq::<char>::empty());
    } else {
        assert(s.take(0) =~= s);
    }
}

/// The parts of `s` between the occurrences of `c` (an occurrence at the
/// very end ends the last part and starts none).
pub open spec fn split_on(s: Seq<char>, c: char) -> Seq<Seq<char>>
    decreases s.len(),
{
    if s.len() == 0 {
        Seq::empty()
    } else {
        let part = before_char(s, c);
        proof {
            lemma_before_char(s, c);
        }
        if has_char(s, c) {
            seq![part] + split_on(s.skip(part.len() + 1int), c)
        } else {
            seq![part]
        }
    }
}

/// The lines of `s`, each without its `\n`.
pub open spec fn split_lines(s: Seq<char>) -> Seq<Seq<char>> {
    split_on(s, '\n')
}

/// The word at the start of `s`: up to its first white space.
pub open spec fn first_word(s: Seq<char>) -> Seq<char>
    decreases s.len(),
{
    if s.len() == 0 || is_space(s[0]) {
        Seq::empty()
    } else {
        seq![s[0]] + first_word(s.skip(1))
    }
}

/// What `first_word` gives: a prefix that stops at the first white space.
pub proof fn lemma_first_word(s: Seq<char>)
    ensures
        first_word(s).len() <= s.len(),
        first_word(s) == s.take(first_word(s).len() as int),
        first_word(s).len() < s.len() ==> is_space(s[first_word(s).len() as int]),
        forall|j: int| 0 <= j < first_word(s).len() ==> !is_space(s[j]),
    decreases s.len(),
{
    if s.len() > 0 && !is_space(s[0]) {
        lemma_first_word(s.skip(1));
        let w = first_word(s.skip(1));
        assert(seq![s[0]] + w =~= s.take(w.len() + 1int)) by {
            assert(w =~= s.skip(1).take(w.len() as int));
        }
        if w.len() + 1 < s.len() {
            assert(s.skip(1)[w.len() as int] == s[w.len() + 1int]);
        }
        assert forall|j: int| 0 <= j < first_word(s).len() implies !is_space(s[j]) by {
            if j > 0 {
                assert(s[j] == s.skip(1)[j - 1]);
            }
        }
    } else {
        assert(s.take(0) =~= Seq::<char>::empty());
    }
}

/// The words of `s`, as `str::split_whitespace` gives them.
pub open spec fn words(s: Seq<char>) -> Seq<Seq<char>>
    decreases s.len(),
{
    if s.len() == 0 {
        Seq::empty()
    } else if is_space(s[0]) {
        words(s.skip(1))
    } else {
        let w = first_word(s);
        proof {
            lemma_first_word(s);
        }
        seq![w] + words(s.skip(w.len() as int))
    }
}

/// The words of `ws` other than `x`.
pub open spec fn without(ws: Seq<Seq<char>>, x: Seq<char>) -> Seq<Seq<char>>
    decreases ws.len(),
{
    if ws.len() == 0 {
        Seq::empty()
    } else {
        without(ws.drop_last(), x) + if ws.last() == x { Seq::empty() } else { seq![ws.last()] }
    }
}

/// The words of `ws`, a space between each two.
pub open spec fn join_words(ws: Seq<Seq<char>>) -> Seq<char>
    decreases ws.len(),
{
    if ws.len() == 0 {
        Seq::empty()
    } else if ws.len() == 1 {
        ws[0]
    } else {
        join_words(ws.drop_last()) + " "@ + ws.last()
    }
}

/// The parts of `s` between the occurrences of `c`.
pub fn split_on_char(s: &[char], c: char) -> (r: Vec<Vec<char>>)
    ensures
        r@.map_values(|l: Vec<char>| l@) == split_on(s@, c),
{
    let mut r: Vec<Vec<char>> = Vec::new();
    let mut start: usize = 0;
    assert(s@.skip(0) =~= s@);
    while start < s.len()
        invariant
            start <= s@.len(),
            r@.map_values(|l: Vec<char>| l@) + split_on(s@.skip(start as int), c) == split_on(s@, c),
        decreases s@.len() - start,
    {
        let ghost rest = s@.skip(start as int);
        proof {
            lemma_before_char(rest, c);
        }
        let mut line: Vec<char> = Vec::new();
        let mut k: usize = start;
        while k < s.len() && s[k] != c
            invariant
                start <= k <= s@.len(),
                rest == s@.skip(start as int),
                line@ == s@.subrange(start as int, k as int),
                forall|j: int| start <= j < k ==> s@[j] != c,
            decreases s@.len() - k,
        {
            line.push(s[k]);
            assert(s@.subrange(start as int, k + 1) =~= s@.subrange(start as int, k as int).push(s@[k as int]));
            k = k + 1;
        }
        let ghost bl = before_char(rest, c);
        proof {
            if k < s@.len() {
                assert(rest[k - start] == c);
                assert(has_char(rest, c));
                assert(bl.len() == k - start) by {
                    if bl.len() < k - start {
                        assert(rest[bl.len() as int] == s@[start + bl.len()]);
                    }
                    if bl.len() > k - start {
                        assert(rest[k - start] == c);
                    }
                }
            } else {
                if has_char(rest, c) {
                    assert(rest[bl.len() as int] == s@[start + bl.len()]);
                }
                assert(!has_char(rest, c));
            }
            assert(line@ =~= bl);
        }
        let ghost r0 = r@;
        r.push(line);
        assert(r@.map_values(|l: Vec<char>| l@) =~= r0.map_values(|l: Vec<char>| l@).push(bl));
        if k < s.len() {
            assert(rest.skip(bl.len() + 1int) =~= s@.skip(k + 1));
            assert(split_on(rest, c) == seq![bl] + split_on(rest.skip(bl.len() + 1int), c));
            start = k + 1;
        } else {
            assert(split_on(rest, c) == seq![bl]);
            assert(s@.skip(k as int) =~= Seq::<char>::empty());
            start = k;
        }
        assert(r@.map_values(|l: Vec<char>| l@) + split_on(s@.skip(start as int), c) =~= split_on(s@, c));
    }
    assert(s@.skip(start as int) =~= Seq::<char>::empty());
    assert(r@.map_values(|l: Vec<char>| l@) + Seq::<Seq<char>>::empty() =~= r@.map_values(|l: Vec<char>| l@));
    r
}

/// The lines of `s`.
pub fn lines_of(s: &[char]) -> (r: Vec<Vec<char>>)
    ensures
        r@.map_values(|l: Vec<char>| l@) == split_lines(s@),
{
    split_on_char(s, '\n')
}

/// The words of `s`.
pub fn words_of(s: &[char]) -> (r: Vec<Vec<char>>)
    ensures
        r@.map_values(|l: Vec<char>| l@) == words(s@),
{
    let mut r: Vec<Vec<char>> = Vec::new();
    let mut i: usize = 0;
    assert(s@.skip(0) =~= s@);
    while i < s.len()
        invariant
            i <= s@.len(),
            r@.map_values(|l: Vec<char>| l@) + words(s@.skip(i as int)) == words(s@),
        decreases s@.len() - i,
    {
        let ghost rest = s@.skip(i as int);
        if space(s[i]) {
            assert(rest[0] == s@[i as int]);
            assert(rest.skip(1) =~= s@.skip(i + 1));
            i = i + 1;
            continue;
        }
        proof {
            lemma_first_word(rest);
        }
        let mut w: Vec<char> = Vec::new();
        let mut k: usize = i;
        while k < s.len() && !space(s[k])
            invariant
                i <= k <= s@.len(),
                rest == s@.skip(i as int),
                w@ == s@.subrange(i as int, k as int),
                forall|j: int| i <= j < k ==> !is_space(s@[j]),
            decreases s@.len() - k,
        {
            w.push(s[k]);
            assert(s@.subrange(i as int, k + 1) =~= s@.subrange(i as int, k as int).push(s@[k as int]));
            k = k + 1;
        }
        let ghost fw = first_word(rest);
        proof {
            assert(rest[0] == s@[i as int]);
            assert(fw.len() == k - i) by {
                if fw.len() < k - i {
                    assert(rest[fw.len() as int] == s@[i + fw.len()]);
                }
                if fw.len() > k - i {
                    assert(rest[k - i] == s@[k as int]);
                }
            }
            assert(w@ =~= fw);
            assert(rest.skip(fw.len() as int) =~= s@.skip(k as int));
            assert(words(rest) == seq![fw] + words(rest.skip(fw.len() as int)));
        }
        let ghost r0 = r@;
        r.push(w);
        assert(r@.map_values(|l: Vec<char>| l@) =~= r0.map_values(|l: Vec<char>| l@).push(fw));
        i = k;
        assert(r@.map_values(|l: Vec<char>| l@) + words(s@.skip(i as int)) =~= words(s@));
    }
    assert(s@.skip(i as int) =~= Seq::<char>::empty());
    assert(r@.map_values(|l: Vec<char>| l@) + Seq::<Seq<char>>::empty() =~= r@.map_values(|l: Vec<char>| l@));
    r
}

// ---------------------------------------------------------------------------
// Names shown and set
// ---------------------------------------------------------------------------

/// The aliases that the hosts file gives to `host`: on the first line that
/// is not blank or a comment and lists `host` after its address, the other
/// names listed after the address.
pub open spec fn alias_in_lines(lines: Seq<Seq<char>>, host: Seq<char>) -> Option<Seq<char>>
    decreases lines.len(),
{
    if lines.len() == 0 {
        None
    } else {
        let t = trim_spec(lines[0]);
        let f = words(t);
        if t.len() == 0 || t[0] == '#' || f.len() < 2 || !f.skip(1).contains(host) {
            alias_in_lines(lines.skip(1), host)
        } else {
            Some(join_words(without(f.skip(1), host)))
        }
    }
}

/// What `hostname -a` prints, from the text of the hosts file.
pub open spec fn alias_output(hosts: Seq<char>, host: Seq<char>) -> Seq<char> {
    match alias_in_lines(split_lines(hosts), host) {
        Some(a) => a + "\n"@,
        None => "\n"@,
    }
}

/// Whether `x` is one of `ws[from..]`.
fn contains_word(ws: &Vec<Vec<char>>, from: usize, x: &[char]) -> (r: bool)
    requires
        from <= ws@.len(),
    ensures
        r == ws@.map_values(|l: Vec<char>| l@).skip(from as int).contains(x@),
{
    let ghost v = ws@.map_values(|l: Vec<char>| l@);
    let mut k: usize = from;
    while k < ws.len()
        invariant
            from <= k <= ws@.len(),
            v == ws@.map_values(|l: Vec<char>| l@),
            forall|j: int| from <= j < k ==> v[j] != x@,
        decreases ws@.len() - k,
    {
        if seq_eq(&ws[k], x) {
            assert(v.skip(from as int)[k - from] == x@);
            return true;
        }
        k = k + 1;
    }
    proof {
        if v.skip(from as int).contains(x@) {
            let j = choose|j: int| 0 <= j < v.skip(from as int).len() && v.skip(from as int)[j] == x@;
            assert(v[from + j] == x@);
        }
    }
    false
}

/// The words `ws[1..]` other than `host`, a space between each two.
fn join_without(ws: &Vec<Vec<char>>, host: &[char]) -> (r: Vec<char>)
    requires
        ws@.len() >= 1,
    ensures
        r@ == join_words(without(ws@.map_values(|l: Vec<char>| l@).skip(1), host@)),
{
    let ghost v = ws@.map_values(|l: Vec<char>| l@).skip(1);
    let mut out: Vec<char> = Vec::new();
    let mut count: usize = 0;
    let mut k: usize = 1;
    assert(v.take(0) =~= Seq::<Seq<char>>::empty());
    while k < ws.len()
        invariant
            1 <= k <= ws@.len(),
            v == ws@.map_values(|l: Vec<char>| l@).skip(1),
            out@ == join_words(without(v.take(k - 1), host@)),
            count == without(v.take(k - 1), host@).len(),
            count <= k - 1,
        decreases ws@.len() - k,
    {
        let ghost pre = v.take(k - 1);
        let ghost pre2 = v.take(k as int);
        assert(pre2.drop_last() =~= pre);
        assert(pre2.last() == ws@[k as int]@);
        if !seq_eq(&ws[k], host) {
            let ghost w0 = without(pre, host@);
            if count > 0 {
                push_str(&mut out, " ");
            }
            let wk = &ws[k];
            let mut j: usize = 0;
            let ghost o0 = out@;
            while j < wk.len()
                invariant
                    j <= wk@.len(),
                    out@ == o0 + wk@.take(j as int),
                decreases wk@.len() - j,
            {
                out.push(wk[j]);
                assert(wk@.take(j + 1) =~= wk@.take(j as int).push(wk@[j as int]));
                j = j + 1;
            }
            assert(wk@.take(wk@.len() as int) =~= wk@);
            let ghost w1 = without(pre2, host@);
            assert(w1 =~= w0.push(wk@));
            assert(w1.drop_last() =~= w0);
            if count > 0 {
                assert(out@ =~= join_words(w0) + " "@ + wk@);
            } else {
                assert(w0.len() == 0);
                assert(out@ =~= wk@);
            }
            count = count + 1;
        } else {
            assert(without(pre2, host@) =~= without(pre, host@));
        }
        k = k + 1;
    }
    assert(v.take(ws@.len() - 1) =~= v);
    out
}

/// What `hostname -a` prints, from the text of the hosts file and the
/// host name.
pub fn alias_line(hosts: &str, host: &str) -> (r: String)
    ensures
        r@ == alias_output(hosts@, host@),
{
    let hc = chars_of(hosts);
    let h = chars_of(host);
    let lines = lines_of(&hc);
    let ghost lv = lines@.map_values(|l: Vec<char>| l@);
    let mut i: usize = 0;
    assert(lv.skip(0) =~= lv);
    while i < lines.len()
        invariant
            i <= lines@.len(),
            lv == lines@.map_values(|l: Vec<char>| l@),
            lv == split_lines(hosts@),
            h@ == host@,
            alias_in_lines(lv.skip(i as int), host@) == alias_in_lines(lv, host@),
        decreases lines@.len() - i,
    {
        let ghost rest = lv.skip(i as int);
        assert(rest[0] == lines@[i as int]@);
        assert(rest.skip(1) =~= lv.skip(i + 1));
        let t = trim(&lines[i]);
        let f = words_of(&t);
        let ghost fv = f@.map_values(|l: Vec<char>| l@);
        if t.len() == 0 || t[0] == '#' || f.len() < 2 || !contains_word(&f, 1, &h) {
            i = i + 1;
            continue;
        }
        let mut out = join_without(&f, &h);
        push_str(&mut out, "\n");
        return string_from_chars(&out);
    }
    proof {
        assert(lv.skip(i as int) =~= Seq::<Seq<char>>::empty());
    }
    string_from_chars(&chars_of("\n"))
}

/// The name that a name file gives: its first line that is neither empty
/// nor a comment, or nothing.
pub open spec fn name_in_lines(lines: Seq<Seq<char>>) -> Seq<char>
    decreases lines.len(),
{
    if lines.len() == 0 {
        Seq::empty()
    } else if lines[0].len() > 0 && lines[0][0] != '#' {
        lines[0]
    } else {
        name_in_lines(lines.skip(1))
    }
}

/// The name read from the text of a name file (`-F FILE`): its first line
/// that is neither empty nor a comment (`#`), without its line break, or
/// the empty name when there is none.
pub fn name_from_file_text(content: &str) -> (r: String)
    ensures
        r@ == name_in_lines(split_lines(content@)),
{
    let cs = chars_of(content);
    let lines = lines_of(&cs);
    let ghost lv = lines@.map_values(|l: Vec<char>| l@);
    let mut i: usize = 0;
    assert(lv.skip(0) =~= lv);
    while i < lines.len()
        invariant
            i <= lines@.len(),
            lv == lines@.map_values(|l: Vec<char>| l@),
            name_in_lines(lv.skip(i as int)) == name_in_lines(split_lines(content@)),
        decreases lines@.len() - i,
    {
        let ghost rest = lv.skip(i as int);
        assert(rest[0] == lines@[i as int]@);
        assert(rest.skip(1) =~= lv.skip(i + 1));
        if lines[i].len() > 0 && lines[i][0] != '#' {
            return string_from_chars(&lines[i]);
        }
        i = i + 1;
    }
    assert(lv.skip(i as int) =~= Seq::<Seq<char>>::empty());
    String::new()
}

/// Whether `-b` must fall back on the current host name: with `-F` and
/// `-b`, when the file gave no name or an empty one.
pub fn needs_boot_fallback(file_given: bool, boot: bool, name: Option<&str>) -> (r: bool)
    ensures
        r == (file_given && boot && match name {
            Some(n) => n@.len() == 0,
            None => true,
        }),
{
    file_given && boot && match name {
        Some(n) => chars_of(n).len() == 0,
        None => true,
    }
}

/// The name that `-b` sets from the current host name: `localhost` when
/// it is empty or `(none)`.
pub fn boot_host_name(local: &str) -> (r: String)
    ensures
        r@ == (if local@.len() == 0 || local@ == "(none)"@ { "localhost"@ } else { local@ }),
{
    if chars_of(local).len() == 0 || str_is(local, "(none)") {
        string_from_chars(&chars_of("localhost"))
    } else {
        string_from_chars(&chars_of(local))
    }
}

/// The name to set, from the name file (if one gave a name) and the
/// operands: at most one of the two, and at most one operand; `Err` when
/// the usage is to be shown.
pub fn choose_name(from_file: Option<String>, operands: &[String]) -> (r: Result<Option<String>, ()>)
    ensures
        operands@.len() > 1 || (operands@.len() == 1 && from_file is Some) ==> r is Err,
        operands@.len() == 1 && from_file is None ==> (r matches Ok(Some(n)) && n@ == operands@[0]@),
        operands@.len() == 0 ==> (r matches Ok(n) && match from_file {
            Some(f) => n matches Some(x) && x@ == f@,
            None => n is None,
        }),
{
    if operands.len() > 0 {
        if from_file.is_some() || operands.len() > 1 {
            return Err(());
        }
        return Ok(Some(string_from_chars(&chars_of(operands[0].as_str()))));
    }
    Ok(from_file)
}

/// What setting a name amounts to.
#[derive(Debug)]
pub enum SetRequest {
    /// Set the host name to this.
    Host(String),
    /// Set the NIS domain to this.
    Domain(String),
    /// The name is refused.
    Invalid,
    /// This name type cannot be set: show the usage.
    Usage,
}

/// How a name is set: the host name without the white space around it,
/// if it is then a valid host name; the NIS domain as given, if it holds no
/// NUL; no other name type can be set.
pub fn set_name_plan(name_type: NameType, name: &str) -> (r: SetRequest)
    ensures
        name_type == NameType::Default ==> (if valid_host_name(trim_spec(name@)) {
            r matches SetRequest::Host(h) && h@ == trim_spec(name@)
        } else {
            r is Invalid
        }),
        (name_type == NameType::Nis || name_type == NameType::NisDef) ==> (if has_char(name@, '\0') {
            r is Invalid
        } else {
            r matches SetRequest::Domain(d) && d@ == name@
        }),
        !(name_type == NameType::Default || name_type == NameType::Nis || name_type == NameType::NisDef)
            ==> r is Usage,
{
    match name_type {
        NameType::Default => {
            let cs = chars_of(name);
            let t = trim(&cs);
            let ts = string_from_chars(&t);
            if check_name(ts.as_str()) {
                SetRequest::Host(ts)
            } else {
                SetRequest::Invalid
            }
        },
        NameType::Nis | NameType::NisDef => {
            let cs = chars_of(name);
            let (_, nul) = split_at_char(&cs, '\0');
            if nul {
                SetRequest::Invalid
            } else {
                SetRequest::Domain(string_from_chars(&cs))
            }
        },
        _ => SetRequest::Usage,
    }
}

/// Why setting a name failed.
#[derive(Debug, Clone, Copy, PartialEq, Eq, Structural)]
pub enum SetFailure {
    /// The caller may not (`EPERM`).
    NotPermitted,
    /// The name is refused (`EINVAL`).
    InvalidArgument,
    /// Any other reason.
    Other,
}

/// The report of a failed change of name, if one is printed.
pub fn set_failure_message(progname: &str, domain: bool, why: SetFailure) -> (r: Option<String>)
    ensures
        match why {
            SetFailure::NotPermitted => r matches Some(m) && m@ == progname@ + (if domain {
                ": you must be root to change the domain name"@
            } else {
                ": you must be root to change the host name"@
            }),
            SetFailure::InvalidArgument => r matches Some(m) && m@ == progname@ + ": name too long"@,
            SetFailure::Other => r is None,
        },
{
    let mut v = chars_of(progname);
    match why {
        SetFailure::NotPermitted => {
            if domain {
                push_str(&mut v, ": you must be root to change the domain name");
            } else {
                push_str(&mut v, ": you must be root to change the host name");
            }
            Some(string_from_chars(&v))
        },
        SetFailure::InvalidArgument => {
            push_str(&mut v, ": name too long");
            Some(string_from_chars(&v))
        },
        SetFailure::Other => None,
    }
}

/// The report of a name that cannot be set.
pub fn invalid_name_message(progname: &str) -> (r: String)
    ensures
        r@ == progname@ + ": the specified hostname is invalid"@,
{
    let mut v = chars_of(progname);
    push_str(&mut v, ": the specified hostname is invalid");
    string_from_chars(&v)
}

/// The host name up to its first dot (`hostname -s`).
pub fn short_name(host: &str) -> (r: String)
    ensures
        r@ == before_char(host@, '.'),
{
    let cs = chars_of(host);
    let (b, _) = split_at_char(&cs, '.');
    string_from_chars(&b)
}

/// The DNS domain of a canonical name: what follows its first dot, if it
/// has one (`hostname -d`).
pub fn dns_domain(canon: &str) -> (r: Option<String>)
    ensures
        has_char(canon@, '.') ==> (r matches Some(d) && d@ == canon@.skip(before_char(canon@, '.').len() + 1int)),
        !has_char(canon@, '.') ==> r is None,
{
    let cs = chars_of(canon);
    let (b, dot) = split_at_char(&cs, '.');
    if dot {
        proof {
            lemma_before_char(cs@, '.');
        }
        assert(b@.len() < cs@.len());
        let from = b.len() + 1;
        Some(string_from_chars(&chars_from(&cs, from)))
    } else {
        None
    }
}

/// The description of a system error up to ` (os error`, if that occurs.
pub open spec fn strip_os_error_spec(msg: Seq<char>) -> Seq<char> {
    match first_occurrence(" (os error "@, msg, 0) {
        Some(i) => msg.take(i),
        None => msg,
    }
}

/// The report of a failed system call: the program's name, then the
/// system's description of the error up to ` (os error`.
pub fn io_error_message(progname: &str, description: &str) -> (r: String)
    ensures
        r@ == progname@ + ": "@ + strip_os_error_spec(description@),
{
    let d = chars_of(description);
    let pat = chars_of(" (os error ");
    let cut: usize = match find_chars(&d, &pat) {
        Some(i) => i,
        None => d.len(),
    };
    proof {
        match first_occurrence(" (os error "@, d@, 0) {
            Some(i) => { lemma_first_occurrence_bound(" (os error "@, d@, 0); },
            None => {},
        }
    }
    let mut v = chars_of(progname);
    push_str(&mut v, ": ");
    let mut j: usize = 0;
    let ghost v0 = v@;
    while j < cut
        invariant
            j <= cut <= d@.len(),
            v@ == v0 + d@.take(j as int),
        decreases cut - j,
    {
        v.push(d[j]);
        assert(d@.take(j + 1) =~= d@.take(j as int).push(d@[j as int]));
        j = j + 1;
    }
    assert(d@.take(d@.len() as int) =~= d@);
    string_from_chars(&v)
}

proof fn lemma_first_occurrence_bound(pat: Seq<char>, s: Seq<char>, i: int)
    ensures
        first_occurrence(pat, s, i) matches Some(k) ==> 0 <= k <= s.len(),
    decreases s.len() + 1 - i,
{
    if !(i < 0 || i + pat.len() > s.len()) && s.subrange(i, i + pat.len()) != pat {
        lemma_first_occurrence_bound(pat, s, i + 1);
    }
}

/// The address family of an interface address.
#[derive(Debug, Clone, Copy, PartialEq, Eq, Structural)]
pub enum AddrFamily {
    /// IPv4.
    Inet,
    /// IPv6.
    Inet6,
    /// Any other.
    Other,
}

/// Whether `hostname -I`/`-A` lists an interface address: the interface
/// has one, is up and is not the loopback; the address is IPv4 or IPv6; an
/// IPv6 address is neither link-local unicast nor link-local multicast
/// (first segment `ff02` under the mask `ff0f`).
pub fn list_interface_address(
    has_address: bool,
    loopback: bool,
    up: bool,
    family: AddrFamily,
    v6_first_segment: u16,
    v6_unicast_link_local: bool,
) -> (r: bool)
    ensures
        r == (has_address && !loopback && up && (family == AddrFamily::Inet || family == AddrFamily::Inet6)
            && !(family == AddrFamily::Inet6 && (v6_unicast_link_local || (v6_first_segment & 0xff0f) == 0xff02))),
{
    if !has_address || loopback || !up {
        return false;
    }
    match family {
        AddrFamily::Inet => true,
        AddrFamily::Inet6 => !(v6_unicast_link_local || (v6_first_segment & 0xff0f) == 0xff02),
        AddrFamily::Other => false,
    }
}

/// Each value followed by a space, then a line break.
pub open spec fn spaced_line(values: Seq<Seq<char>>) -> Seq<char>
    decreases values.len(),
{
    if values.len() == 0 {
        "\n"@
    } else {
        values[0] + " "@ + spaced_line(values.skip(1))
    }
}

/// The line that `hostname -I`/`-A` prints: each name or address followed
/// by a space.
pub fn addresses_line(values: &[String]) -> (r: String)
    ensures
        r@ == spaced_line(arg_views(values@)),
{
    let ghost av = arg_views(values@);
    let mut v: Vec<char> = Vec::new();
    let mut i: usize = 0;
    assert(av.skip(0) =~= av);
    while i < values.len()
        invariant
            i <= values@.len(),
            av == arg_views(values@),
            v@ + spaced_line(av.skip(i as int)) == spaced_line(av),
        decreases values@.len() - i,
    {
        let ghost v0 = v@;
        push_str(&mut v, values[i].as_str());
        push_str(&mut v, " ");
        assert(av.skip(i as int)[0] == values@[i as int]@);
        assert(av.skip(i as int).skip(1) =~= av.skip(i + 1));
        assert(v@ + spaced_line(av.skip(i + 1)) =~= v0 + spaced_line(av.skip(i as int)));
        i = i + 1;
    }
    assert(av.skip(i as int) =~= Seq::<Seq<char>>::empty());
    push_str(&mut v, "\n");
    assert(v@ =~= spaced_line(av));
    string_from_chars(&v)
}

/// The values separated by single spaces.
pub open spec fn space_joined(values: Seq<Seq<char>>) -> Seq<char>
    decreases values.len(),
{
    if values.len() == 0 {
        Seq::empty()
    } else if values.len() == 1 {
        values[0]
    } else {
        values[0] + " "@ + space_joined(values.skip(1))
    }
}

/// The addresses that `hostname -i` prints, separated by single spaces.
pub fn ip_addresses_text(values: &[String]) -> (r: String)
    ensures
        r@ == space_joined(arg_views(values@)),
{
    let ghost av = arg_views(values@);
    let mut v: Vec<char> = Vec::new();
    if values.len() == 0 {
        assert(v@ =~= space_joined(av));
        return string_from_chars(&v);
    }
    let n = values.len();
    let mut i: usize = n - 1;
    push_str(&mut v, values[n - 1].as_str());
    assert(av.skip(i as int) =~= seq![av[i as int]]);
    assert(v@ == space_joined(av.skip(i as int)));
    while i > 0
        invariant
            0 <= i < values@.len(),
            n == values@.len(),
            av == arg_views(values@),
            v@ == space_joined(av.skip(i as int)),
        decreases i,
    {
        let mut w: Vec<char> = Vec::new();
        push_str(&mut w, values[i - 1].as_str());
        push_str(&mut w, " ");
        push_chars(&mut w, &v);
        proof {
            let t = av.skip(i - 1);
            assert(t.len() >= 2);
            assert(t[0] == values@[i - 1]@);
            assert(t.skip(1) =~= av.skip(i as int));
            assert(w@ =~= t[0] + " "@ + space_joined(t.skip(1)));
        }
        v = w;
        i = i - 1;
    }
    assert(av.skip(0) =~= av);
    string_from_chars(&v)
}

} // verus!
