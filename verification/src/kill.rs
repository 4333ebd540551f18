//! `kill`: sending signals to processes, and naming and numbering signals.

use vstd::prelude::*;
use crate::text::{starts_with_chars, chars_from, 
    chars_of, string_from_chars, push_str, push_chars, push_quoted, quoted, seq_eq, parse_unsigned,
    parse_unsigned_exec, parse_signed, parse_i32, int_error_text, int_error_message, IntError, decimal,
    u64_decimal, signed_decimal, i64_decimal, pad_start, pad_end, push_pad_start, push_pad_end, is_digit,
    unsigned_body, all_digits, law_decimal_reads_back,
};
use crate::hashsum::{lower, lower_vec};
use crate::hostname::{words, words_of};

verus! {

/// The `kill` tool.
pub struct Kill;

impl Kill {
    /// Name of the tool.
    pub fn name(&self) -> (r: &'static str)
        ensures
            r@ == "kill"@,
    {
        "kill"
    }
}

/// Which `kill` the tool behaves like.
#[derive(Debug, Clone, Copy, PartialEq, Eq, Structural)]
pub enum KillCompatMode {
    /// The shell's builtin (the default).
    Bash,
    /// `/usr/bin/kill` of util-linux.
    UtilLinux,
    /// GNU coreutils' `kill`.
    Coreutils,
}

impl Default for KillCompatMode {
    fn default() -> (r: Self)
        ensures
            r == KillCompatMode::Bash,
    {
        KillCompatMode::Bash
    }
}

/// The mode that a value of the mode variable selects, once lower-cased;
/// an unknown value selects the default.
pub open spec fn mode_for_value(v: Seq<char>) -> KillCompatMode {
    if v == "bash"@ || v == "bash-builtin"@ {
        KillCompatMode::Bash
    } else if v == "util-linux"@ || v == "utillinux"@ || v == "util_linux"@ {
        KillCompatMode::UtilLinux
    } else if v == "coreutils"@ || v == "gnu"@ {
        KillCompatMode::Coreutils
    } else {
        KillCompatMode::Bash
    }
}

impl KillCompatMode {
    /// The mode chosen by the value of the mode variable, if it is set: the
    /// value is compared without regard to the case of its ASCII letters (no
    /// other character lower-cases to a letter of the names compared with).
    pub fn from_env_value(value: Option<&str>) -> (r: Self)
        ensures
            r == (match value {
                Some(v) => mode_for_value(lower(v@)),
                None => KillCompatMode::Bash,
            }),
    {
        match value {
            None => KillCompatMode::Bash,
            Some(v) => {
                let low = lower_vec(&chars_of(v));
                if chars_are(&low, "bash") || chars_are(&low, "bash-builtin") {
                    KillCompatMode::Bash
                } else if chars_are(&low, "util-linux") || chars_are(&low, "utillinux") || chars_are(
                    &low,
                    "util_linux",
                ) {
                    KillCompatMode::UtilLinux
                } else if chars_are(&low, "coreutils") || chars_are(&low, "gnu") {
                    KillCompatMode::Coreutils
                } else {
                    KillCompatMode::Bash
                }
            },
        }
    }

    /// Whether `-l` lists signals as the shell does (numbered, `SIG`
    /// prefixed, five to a line).
    pub fn use_bash_list_output(&self) -> (r: bool)
        ensures
            r == (*self == KillCompatMode::Bash),
    {
        match self {
            KillCompatMode::Bash => true,
            _ => false,
        }
    }

    /// Whether `-t` is accepted (coreutils only).
    pub fn supports_table_option(&self) -> (r: bool)
        ensures
            r == (*self == KillCompatMode::Coreutils),
    {
        match self {
            KillCompatMode::Coreutils => true,
            _ => false,
        }
    }

    /// Whether `-n` is accepted (the shell and coreutils).
    pub fn supports_signum_option(&self) -> (r: bool)
        ensures
            r == (*self == KillCompatMode::Bash || *self == KillCompatMode::Coreutils),
    {
        match self {
            KillCompatMode::Bash | KillCompatMode::Coreutils => true,
            _ => false,
        }
    }

    /// Whether the options of util-linux (`-q`, `-p`, `-a`, `-r`,
    /// `--timeout`, `--verbose`) are accepted.
    pub fn supports_util_linux_options(&self) -> (r: bool)
        ensures
            r == (*self == KillCompatMode::UtilLinux),
    {
        match self {
            KillCompatMode::UtilLinux => true,
            _ => false,
        }
    }

    /// The exit code when neither a process nor `-l`/`-t` is given.
    pub fn no_args_exit_code(&self) -> (r: i32)
        ensures
            r == (if *self == KillCompatMode::Bash { 2i32 } else { 1i32 }),
    {
        match self {
            KillCompatMode::Bash => 2,
            KillCompatMode::UtilLinux => 1,
            KillCompatMode::Coreutils => 1,
        }
    }

    /// The message when neither a process nor `-l`/`-t` is given.
    pub fn no_args_error_message(&self) -> (r: &'static str)
        ensures
            r@ == (if *self == KillCompatMode::Bash {
                "usage: kill [-s sigspec | -n signum | -sigspec] pid | jobspec ... or kill -l [sigspec]"@
            } else {
                "not enough arguments"@
            }),
    {
        match self {
            KillCompatMode::Bash => {
                "usage: kill [-s sigspec | -n signum | -sigspec] pid | jobspec ... or kill -l [sigspec]"
            },
            KillCompatMode::UtilLinux | KillCompatMode::Coreutils => "not enough arguments",
        }
    }
}

/// Whether the characters `a` spell `t`.
fn chars_are(a: &[char], t: &str) -> (r: bool)
    ensures
        r == (a@ == t@),
{
    let tc = chars_of(t);
    seq_eq(a, &tc)
}

// ---------------------------------------------------------------------------
// The signal table
// ---------------------------------------------------------------------------

/// Number of signals in the table (numbers 0 to 31).
pub const SIGNAL_COUNT: usize = 32;

/// The name of signal `i`, without its `SIG` prefix (`EXIT` for 0).
pub open spec fn signal_name(i: nat) -> Seq<char> {
    if i == 0 { "EXIT"@ } else if i == 1 { "HUP"@ } else if i == 2 { "INT"@ } else if i == 3 { "QUIT"@ }
    else if i == 4 { "ILL"@ } else if i == 5 { "TRAP"@ } else if i == 6 { "ABRT"@ } else if i == 7 { "BUS"@ }
    else if i == 8 { "FPE"@ } else if i == 9 { "KILL"@ } else if i == 10 { "USR1"@ } else if i == 11 { "SEGV"@ }
    else if i == 12 { "USR2"@ } else if i == 13 { "PIPE"@ } else if i == 14 { "ALRM"@ } else if i == 15 { "TERM"@ }
    else if i == 16 { "STKFLT"@ } else if i == 17 { "CHLD"@ } else if i == 18 { "CONT"@ } else if i == 19 { "STOP"@ }
    else if i == 20 { "TSTP"@ } else if i == 21 { "TTIN"@ } else if i == 22 { "TTOU"@ } else if i == 23 { "URG"@ }
    else if i == 24 { "XCPU"@ } else if i == 25 { "XFSZ"@ } else if i == 26 { "VTALRM"@ } else if i == 27 { "PROF"@ }
    else if i == 28 { "WINCH"@ } else if i == 29 { "POLL"@ } else if i == 30 { "PWR"@ } else { "SYS"@ }
}

/// The facts that the names of the table rest on: none is empty, none
/// starts with a digit, a `+` or `SIG`.
proof fn lemma_signal_name_shape(i: nat)
    requires
        i < 32,
    ensures
        signal_name(i).len() >= 3,
        !is_digit(signal_name(i)[0]),
        signal_name(i)[0] != '+',
        signal_name(i).take(3) != "SIG"@,
{
    reveal_strlit("EXIT");
    reveal_strlit("HUP");
    reveal_strlit("INT");
    reveal_strlit("QUIT");
    reveal_strlit("ILL");
    reveal_strlit("TRAP");
    reveal_strlit("ABRT");
    reveal_strlit("BUS");
    reveal_strlit("FPE");
    reveal_strlit("KILL");
    reveal_strlit("USR1");
    reveal_strlit("SEGV");
    reveal_strlit("USR2");
    reveal_strlit("PIPE");
    reveal_strlit("ALRM");
    reveal_strlit("TERM");
    reveal_strlit("STKFLT");
    reveal_strlit("CHLD");
    reveal_strlit("CONT");
    reveal_strlit("STOP");
    reveal_strlit("TSTP");
    reveal_strlit("TTIN");
    reveal_strlit("TTOU");
    reveal_strlit("URG");
    reveal_strlit("XCPU");
    reveal_strlit("XFSZ");
    reveal_strlit("VTALRM");
    reveal_strlit("PROF");
    reveal_strlit("WINCH");
    reveal_strlit("POLL");
    reveal_strlit("PWR");
    reveal_strlit("SYS");
    reveal_strlit("SIG");
    let s = signal_name(i);
    if s.take(3) == "SIG"@ {
        assert(s.take(3)[0] == s[0] && s.take(3)[1] == s[1]);
        assert(s[0] == 'S' && s[1] == 'I');
    }
}

/// A number that tells the names of the table apart: their length, first
/// two characters and last character.
spec fn name_code(s: Seq<char>) -> int {
    ((s.len() * 128 + s[0] as int) * 128 + s[1] as int) * 128 + s.last() as int
}

/// The signal whose name has the code `c`.
spec fn signal_of_code(c: int) -> nat {
    if c == 9530452 { 0 }
    else if c == 7482064 { 1 }
    else if c == 7497556 { 2 }
    else if c == 9726676 { 3 }
    else if c == 7497292 { 4 }
    else if c == 9775440 { 5 }
    else if c == 9462100 { 6 }
    else if c == 7383763 { 7 }
    else if c == 7448645 { 8 }
    else if c == 9626828 { 9 }
    else if c == 9791921 { 10 }
    else if c == 9757398 { 11 }
    else if c == 9791922 { 12 }
    else if c == 9708741 { 13 }
    else if c == 9463373 { 14 }
    else if c == 9773773 { 15 }
    else if c == 13953620 { 16 }
    else if c == 9495620 { 17 }
    else if c == 9496532 { 18 }
    else if c == 9759312 { 19 }
    else if c == 9775568 { 20 }
    else if c == 9775694 { 21 }
    else if c == 9775701 { 22 }
    else if c == 7694663 { 23 }
    else if c == 9839061 { 24 }
    else if c == 9839450 { 25 }
    else if c == 14002765 { 26 }
    else if c == 9709894 { 27 }
    else if c == 11920584 { 28 }
    else if c == 9709516 { 29 }
    else if c == 7613394 { 30 }
    else { 31 }
}

/// Each name's code leads back to its signal.
proof fn lemma_name_code(i: nat)
    requires
        i < 32,
    ensures
        signal_of_code(name_code(signal_name(i))) == i,
{
    reveal_strlit("EXIT");
    reveal_strlit("HUP");
    reveal_strlit("INT");
    reveal_strlit("QUIT");
    reveal_strlit("ILL");
    reveal_strlit("TRAP");
    reveal_strlit("ABRT");
    reveal_strlit("BUS");
    reveal_strlit("FPE");
    reveal_strlit("KILL");
    reveal_strlit("USR1");
    reveal_strlit("SEGV");
    reveal_strlit("USR2");
    reveal_strlit("PIPE");
    reveal_strlit("ALRM");
    reveal_strlit("TERM");
    reveal_strlit("STKFLT");
    reveal_strlit("CHLD");
    reveal_strlit("CONT");
    reveal_strlit("STOP");
    reveal_strlit("TSTP");
    reveal_strlit("TTIN");
    reveal_strlit("TTOU");
    reveal_strlit("URG");
    reveal_strlit("XCPU");
    reveal_strlit("XFSZ");
    reveal_strlit("VTALRM");
    reveal_strlit("PROF");
    reveal_strlit("WINCH");
    reveal_strlit("POLL");
    reveal_strlit("PWR");
    reveal_strlit("SYS");
}

/// Different signals have different names.
proof fn lemma_signal_names_distinct(j: nat, k: nat)
    requires
        j < k < 32,
    ensures
        signal_name(j) != signal_name(k),
{
    lemma_name_code(j);
    lemma_name_code(k);
}

/// Searching from `i` finds signal `k` when `k` has the name and no signal
/// from `i` up to `k` does.
proof fn lemma_find_signal_at(name: Seq<char>, i: nat, k: nat)
    requires
        i <= k < 32,
        signal_name(k) == name,
        forall|j: nat| i <= j < k ==> signal_name(j) != name,
    ensures
        find_signal(name, i) == Some(k),
    decreases k - i,
{
    if i < k {
        lemma_find_signal_at(name, i + 1, k);
    }
}

/// Every signal of the table is read back from its name and from its
/// number: the name that `signal_name_of` gives, and the number written in
/// decimal, both lead `signal_from_upper` (and so `kill -l`, `-s`, `-n`) to
/// that signal.
pub proof fn law_signal_names_read_back(i: nat)
    requires
        i < 32,
    ensures
        signal_of_upper(signal_name(i)) == Some(i),
        signal_of_upper(decimal(i)) == Some(i),
{
    let name = signal_name(i);
    lemma_signal_name_shape(i);
    assert(unsigned_body(name) == name);
    assert(!all_digits(name)) by {
        assert(!is_digit(name[0]));
    }
    assert(parse_unsigned(name, usize::MAX as nat) is None);
    assert(trim_sig(name) == name);
    assert forall|j: nat| 0 <= j < i implies signal_name(j) != name by {
        lemma_signal_names_distinct(j, i);
    }
    lemma_find_signal_at(name, 0, i);
    law_decimal_reads_back(i, usize::MAX as nat);
}

/// The common signals have their Linux numbers: `HUP` 1, `INT` 2, `QUIT` 3,
/// `KILL` 9, `USR1` 10, `SEGV` 11, `USR2` 12, `PIPE` 13, `ALRM` 14, `TERM`
/// 15, `CHLD` 17, `CONT` 18, `STOP` 19, `TSTP` 20.
pub proof fn law_common_signal_numbers()
    ensures
        signal_of_upper("HUP"@) == Some(1nat),
        signal_of_upper("INT"@) == Some(2nat),
        signal_of_upper("QUIT"@) == Some(3nat),
        signal_of_upper("KILL"@) == Some(9nat),
        signal_of_upper("USR1"@) == Some(10nat),
        signal_of_upper("SEGV"@) == Some(11nat),
        signal_of_upper("USR2"@) == Some(12nat),
        signal_of_upper("PIPE"@) == Some(13nat),
        signal_of_upper("ALRM"@) == Some(14nat),
        signal_of_upper("TERM"@) == Some(15nat),
        signal_of_upper("CHLD"@) == Some(17nat),
        signal_of_upper("CONT"@) == Some(18nat),
        signal_of_upper("STOP"@) == Some(19nat),
        signal_of_upper("TSTP"@) == Some(20nat),
{
    law_signal_names_read_back(1);
    law_signal_names_read_back(2);
    law_signal_names_read_back(3);
    law_signal_names_read_back(9);
    law_signal_names_read_back(10);
    law_signal_names_read_back(11);
    law_signal_names_read_back(12);
    law_signal_names_read_back(13);
    law_signal_names_read_back(14);
    law_signal_names_read_back(15);
    law_signal_names_read_back(17);
    law_signal_names_read_back(18);
    law_signal_names_read_back(19);
    law_signal_names_read_back(20);
}

/// The name of signal `i`.
pub fn signal_name_of(i: usize) -> (r: &'static str)
    requires
        i < SIGNAL_COUNT,
    ensures
        r@ == signal_name(i as nat),
{
    match i {
        0 => "EXIT", 1 => "HUP", 2 => "INT", 3 => "QUIT", 4 => "ILL", 5 => "TRAP", 6 => "ABRT", 7 => "BUS",
        8 => "FPE", 9 => "KILL", 10 => "USR1", 11 => "SEGV", 12 => "USR2", 13 => "PIPE", 14 => "ALRM",
        15 => "TERM", 16 => "STKFLT", 17 => "CHLD", 18 => "CONT", 19 => "STOP", 20 => "TSTP", 21 => "TTIN",
        22 => "TTOU", 23 => "URG", 24 => "XCPU", 25 => "XFSZ", 26 => "VTALRM", 27 => "PROF", 28 => "WINCH",
        29 => "POLL", 30 => "PWR", _ => "SYS",
    }
}

/// The first signal, from number `i` on, whose name is `name`.
pub open spec fn find_signal(name: Seq<char>, i: nat) -> Option<nat>
    decreases 32 - i,
{
    if i >= 32 {
        None
    } else if signal_name(i) == name {
        Some(i)
    } else {
        find_signal(name, i + 1)
    }
}

/// `s` without all the `SIG` that begin it.
pub open spec fn trim_sig(s: Seq<char>) -> Seq<char>
    decreases s.len(),
{
    if s.len() >= 3 && s.take(3) == "SIG"@ {
        trim_sig(s.skip(3))
    } else {
        s
    }
}

/// The signal that an upper-cased name or number gives: a number (as
/// `str::parse` reads one) is the signal of that number when there is one;
/// otherwise a name, with or without `SIG` before it.
pub open spec fn signal_of_upper(u: Seq<char>) -> Option<nat> {
    match parse_unsigned(u, usize::MAX as nat) {
        Some(v) => if v < 32 { Some(v) } else { None },
        None => find_signal(trim_sig(u), 0),
    }
}

/// What `str::to_uppercase` makes of a text.
pub uninterp spec fn upper_case(s: Seq<char>) -> Seq<char>;

/// `str::to_uppercase`: claims that the result is the upper-cased text.
#[verifier::external_body]
fn to_upper(s: &str) -> (r: String)
    ensures
        r@ == upper_case(s@),
{
    s.to_uppercase()
}

/// Whether `s` begins with `SIG`.
fn starts_with_sig(s: &[char], from: usize) -> (r: bool)
    requires
        from <= s@.len(),
    ensures
        r == (s@.skip(from as int).len() >= 3 && s@.skip(from as int).take(3) == "SIG"@),
{
    proof {
        reveal_strlit("SIG");
    }
    if s.len() - from < 3 {
        return false;
    }
    let r = s[from] == 'S' && s[from + 1] == 'I' && s[from + 2] == 'G';
    proof {
        let t = s@.skip(from as int).take(3);
        if r {
            assert(t =~= "SIG"@);
        } else {
            assert(t[0] == s@[from as int] && t[1] == s@[from + 1] && t[2] == s@[from + 2]);
        }
    }
    r
}

/// The number of the signal named `name` (without `SIG`), if there is one.
fn lookup_signal(name: &[char]) -> (r: Option<usize>)
    ensures
        match find_signal(name@, 0) {
            Some(v) => r matches Some(x) && x as nat == v,
            None => r is None,
        },
        r matches Some(x) ==> x < SIGNAL_COUNT,
{
    let mut i: usize = 0;
    while i < SIGNAL_COUNT
        invariant
            i <= 32,
            find_signal(name@, 0) == find_signal(name@, i as nat),
        decreases 32 - i,
    {
        let n = chars_of(signal_name_of(i));
        if seq_eq(&n, name) {
            return Some(i);
        }
        i = i + 1;
    }
    None
}

/// The signal that an upper-cased name or number gives.
pub fn signal_from_upper(u: &str) -> (r: Option<usize>)
    ensures
        match signal_of_upper(u@) {
            Some(v) => r matches Some(x) && x as nat == v,
            None => r is None,
        },
        r matches Some(x) ==> x < SIGNAL_COUNT,
{
    let cs = chars_of(u);
    match parse_unsigned_exec(&cs, usize::MAX as u64) {
        Some(v) => {
            if v < 32 {
                Some(v as usize)
            } else {
                None
            }
        },
        None => {
            let mut from: usize = 0;
            assert(cs@.skip(0) =~= cs@);
            while cs.len() - from >= 3 && starts_with_sig(&cs, from)
                invariant
                    from <= cs@.len(),
                    trim_sig(cs@.skip(from as int)) == trim_sig(cs@),
                decreases cs@.len() - from,
            {
                assert(cs@.skip(from as int).skip(3) =~= cs@.skip(from + 3));
                from = from + 3;
            }
            let mut rest: Vec<char> = Vec::new();
            let mut k: usize = from;
            while k < cs.len()
                invariant
                    from <= k <= cs@.len(),
                    rest@ == cs@.subrange(from as int, k as int),
                decreases cs@.len() - k,
            {
                rest.push(cs[k]);
                assert(cs@.subrange(from as int, k + 1) =~= cs@.subrange(from as int, k as int).push(cs@[k as int]));
                k = k + 1;
            }
            assert(rest@ =~= cs@.skip(from as int));
            lookup_signal(&rest)
        },
    }
}

/// The signal that a name or number gives, the name compared without regard
/// to case (`kill -s`, `kill -SIG`).
pub fn signal_by_name_or_value(s: &str) -> (r: Option<usize>)
    ensures
        match signal_of_upper(upper_case(s@)) {
            Some(v) => r matches Some(x) && x as nat == v,
            None => r is None,
        },
        r matches Some(x) ==> x < SIGNAL_COUNT,
{
    let u = to_upper(s);
    signal_from_upper(u.as_str())
}

// ---------------------------------------------------------------------------
// Reading signals and processes from the command line
// ---------------------------------------------------------------------------

/// The signal that a `-s`/`-n` operand gives, from what the table lookup
/// found: that signal, else an exit status of 128 plus a signal number.
pub open spec fn signal_value_spec(name: Seq<char>, found: Option<nat>) -> Option<nat> {
    match found {
        Some(v) => Some(v),
        None => match parse_unsigned(name, usize::MAX as nat) {
            Some(num) => if num >= 128 && num % 128 < 32 { Some(num % 128) } else { None },
            None => None,
        },
    }
}

/// The message for a name that is no signal.
pub open spec fn unknown_signal_text(name: Seq<char>) -> Seq<char> {
    "unknown signal name "@ + quoted(name)
}

/// The signal that the operand `name` gives, from what the table lookup
/// found for it, or the message that it names no signal.
pub fn signal_value_from_lookup(name: &str, found: Option<usize>) -> (r: Result<usize, String>)
    requires
        found matches Some(v) ==> v < SIGNAL_COUNT,
    ensures
        r matches Ok(x) ==> x < SIGNAL_COUNT,
        match signal_value_spec(name@, match found { Some(v) => Some(v as nat), None => None }) {
            Some(v) => r matches Ok(x) && x == v,
            None => r matches Err(m) && m@ == unknown_signal_text(name@),
        },
{
    match found {
        Some(v) => Ok(v),
        None => {
            let cs = chars_of(name);
            if let Some(num) = parse_unsigned_exec(&cs, usize::MAX as u64) {
                if num >= 128 && num % 128 < 32 {
                    return Ok((num % 128) as usize);
                }
            }
            let mut v: Vec<char> = Vec::new();
            push_str(&mut v, "unknown signal name ");
            push_quoted(&mut v, name);
            Err(string_from_chars(&v))
        },
    }
}

/// The signal that the operand of `-s` or `-n` gives, or the message that
/// it names no signal.
pub fn kill_parse_signal_value(signal_name: &str) -> (r: Result<usize, String>)
    ensures
        r matches Ok(x) ==> x < SIGNAL_COUNT,
        match signal_value_spec(signal_name@, signal_of_upper(upper_case(signal_name@))) {
            Some(v) => r matches Ok(x) && x == v,
            None => r matches Err(m) && m@ == unknown_signal_text(signal_name@),
        },
{
    let found = signal_by_name_or_value(signal_name);
    assert((match found { Some(v) => Some(v as nat), None => None::<nat> }) == signal_of_upper(upper_case(signal_name@)));
    signal_value_from_lookup(signal_name, found)
}

/// The signal that the second argument gives when it is `-SIGNAL`, the old
/// form of `-s SIGNAL`: with at least three arguments, a second one that is
/// `-` followed by a signal name or number.
pub open spec fn obsolete_signal(args: Seq<Seq<char>>) -> Option<nat> {
    if args.len() > 2 && args[1].len() >= 1 && args[1][0] == '-' {
        signal_of_upper(upper_case(args[1].skip(1)))
    } else {
        None
    }
}

/// Takes the old form `-SIGNAL` out of the arguments: when the second
/// argument is one, it is removed and its signal returned; otherwise the
/// arguments stay as they are.
pub fn kill_handle_obsolete(args: &mut Vec<String>) -> (r: Option<usize>)
    ensures
        match obsolete_signal(old(args)@.map_values(|s: String| s@)) {
            Some(v) => r matches Some(x) && x as nat == v && final(args)@ == old(args)@.remove(1),
            None => r is None && final(args)@ == old(args)@,
        },
{
    let ghost views = old(args)@.map_values(|s: String| s@);
    if args.len() > 2 {
        let cs = chars_of(args[1].as_str());
        assert(views[1] == args@[1]@);
        if cs.len() >= 1 && cs[0] == '-' {
            let mut rest: Vec<char> = Vec::new();
            let mut k: usize = 1;
            while k < cs.len()
                invariant
                    1 <= k <= cs@.len(),
                    rest@ == cs@.subrange(1, k as int),
                decreases cs@.len() - k,
            {
                rest.push(cs[k]);
                assert(cs@.subrange(1, k + 1) =~= cs@.subrange(1, k as int).push(cs@[k as int]));
                k = k + 1;
            }
            assert(rest@ =~= cs@.skip(1));
            let name = string_from_chars(&rest);
            let found = signal_by_name_or_value(name.as_str());
            if found.is_some() {
                args.remove(1);
                return found;
            }
        }
    }
    None
}

/// The message for a process operand that is no number.
pub open spec fn bad_pid_text(arg: Seq<char>, e: IntError) -> Seq<char> {
    "failed to parse argument "@ + quoted(arg) + ": "@ + int_error_text(e)
}

/// The process numbers given as operands, each read as an `i32`; the first
/// that is not one gives the message.
pub fn kill_parse_pids(pids: &[String]) -> (r: Result<Vec<i32>, String>)
    ensures
        r is Ok <==> (forall|i: int| 0 <= i < pids@.len() ==> #[trigger] parse_signed(pids@[i]@, i32::MIN as int, i32::MAX as int) is Ok),
        r matches Ok(v) ==> v@.len() == pids@.len() && forall|i: int| 0 <= i < pids@.len() ==> parse_signed(
            #[trigger] pids@[i]@,
            i32::MIN as int,
            i32::MAX as int,
        ) == Ok::<int, IntError>(v@[i] as int),
        r matches Err(m) ==> exists|i: int| 0 <= i < pids@.len()
            && (forall|j: int| 0 <= j < i ==> #[trigger] parse_signed(pids@[j]@, i32::MIN as int, i32::MAX as int) is Ok)
            && (#[trigger] parse_signed(pids@[i]@, i32::MIN as int, i32::MAX as int) matches Err(e)
                && m@ == bad_pid_text(pids@[i]@, e)),
{
    let mut out: Vec<i32> = Vec::new();
    let mut i: usize = 0;
    while i < pids.len()
        invariant
            i <= pids@.len(),
            out@.len() == i,
            forall|j: int| 0 <= j < i ==> parse_signed(#[trigger] pids@[j]@, i32::MIN as int, i32::MAX as int)
                == Ok::<int, IntError>(out@[j] as int),
        decreases pids@.len() - i,
    {
        let cs = chars_of(pids[i].as_str());
        match parse_i32(&cs) {
            Ok(v) => {
                out.push(v);
            },
            Err(e) => {
                let mut m: Vec<char> = Vec::new();
                push_str(&mut m, "failed to parse argument ");
                push_quoted(&mut m, pids[i].as_str());
                push_str(&mut m, ": ");
                push_str(&mut m, int_error_message(e));
                assert(m@ =~= bad_pid_text(pids@[i as int]@, e));
                assert(forall|j: int| 0 <= j < i ==> #[trigger] parse_signed(pids@[j]@, i32::MIN as int, i32::MAX as int) is Ok);
                return Err(string_from_chars(&m));
            },
        }
        i = i + 1;
    }
    Ok(out)
}

// ---------------------------------------------------------------------------
// Listing signals
// ---------------------------------------------------------------------------

/// What follows the cell numbered `count` (from 1) in a grid of `cols`
/// columns: a line break after the last of a line, a space otherwise.
pub open spec fn cell_sep(count: nat, cols: nat) -> Seq<char> {
    if count % cols == 0 { "\n"@ } else { " "@ }
}

/// The first `k` cells laid out in a grid of `cols` columns, the first of
/// them being cell number `first`.
pub open spec fn layout(cells: Seq<Seq<char>>, cols: nat, first: nat, k: int) -> Seq<char>
    decreases k,
{
    if k <= 0 {
        Seq::empty()
    } else {
        layout(cells, cols, first, k - 1) + cells[k - 1] + cell_sep((first + k - 1) as nat, cols)
    }
}

/// Length of the longest of the first `k` signal names.
pub open spec fn name_width_upto(k: nat) -> nat
    decreases k,
{
    if k == 0 {
        0
    } else {
        let w = name_width_upto((k - 1) as nat);
        let l = signal_name((k - 1) as nat).len();
        if l > w { l } else { w }
    }
}

/// A cell of the signal table: the number on two columns, then the name
/// padded to the longest name.
pub open spec fn table_cell(i: nat) -> Seq<char> {
    pad_start(decimal(i), 2) + " "@ + pad_end(signal_name(i), name_width_upto(32))
}

/// The signal table (`kill -t`): every signal, three to a line.
pub open spec fn table_text() -> Seq<char> {
    layout(Seq::new(32, |i: int| table_cell(i as nat)), 3, 1, 32) + "\n"@
}

/// Length of the longest signal name.
fn name_width() -> (r: usize)
    ensures
        r == name_width_upto(32),
{
    let mut w: usize = 0;
    let mut i: usize = 0;
    while i < SIGNAL_COUNT
        invariant
            i <= 32,
            w == name_width_upto(i as nat),
        decreases 32 - i,
    {
        let l = chars_of(signal_name_of(i)).len();
        if l > w {
            w = l;
        }
        i = i + 1;
    }
    w
}

/// The signal table that `kill -t` prints.
pub fn kill_table() -> (r: String)
    ensures
        r@ == table_text(),
{
    let width = name_width();
    let ghost cells = Seq::new(32, |i: int| table_cell(i as nat));
    let mut v: Vec<char> = Vec::new();
    let mut idx: usize = 0;
    while idx < SIGNAL_COUNT
        invariant
            idx <= 32,
            width == name_width_upto(32),
            cells == Seq::new(32, |i: int| table_cell(i as nat)),
            v@ == layout(cells, 3, 1, idx as int),
        decreases 32 - idx,
    {
        let ghost v0 = v@;
        let num = u64_decimal(idx as u64);
        push_pad_start(&mut v, &num, 2);
        push_str(&mut v, " ");
        let name = chars_of(signal_name_of(idx));
        push_pad_end(&mut v, &name, width);
        if (idx + 1) % 3 == 0 {
            push_str(&mut v, "\n");
        } else {
            push_str(&mut v, " ");
        }
        assert(v@ =~= v0 + cells[idx as int] + cell_sep((1 + idx) as nat, 3));
        idx = idx + 1;
    }
    push_str(&mut v, "\n");
    string_from_chars(&v)
}

/// The other names of signals, with their numbers.
pub open spec fn signal_alias(k: nat) -> (Seq<char>, nat) {
    if k == 0 { ("IOT"@, 6) } else if k == 1 { ("CLD"@, 17) } else { ("IO"@, 29) }
}

/// Number of other names.
pub const ALIAS_COUNT: usize = 3;

/// Another name of a signal, with the signal's number.
fn signal_alias_of(k: usize) -> (r: (&'static str, usize))
    requires
        k < ALIAS_COUNT,
    ensures
        r.0@ == signal_alias(k as nat).0,
        r.1 == signal_alias(k as nat).1,
{
    match k {
        0 => ("IOT", 6),
        1 => ("CLD", 17),
        _ => ("IO", 29),
    }
}

/// The names of the first `k` signals, each after a space but the first.
pub open spec fn names_upto(k: nat) -> Seq<char>
    decreases k,
{
    if k == 0 {
        Seq::empty()
    } else {
        names_upto((k - 1) as nat) + (if k > 1 { " "@ } else { Seq::empty() }) + signal_name((k - 1) as nat)
    }
}

/// The first `k` other names, each after a space.
pub open spec fn aliases_upto(k: nat) -> Seq<char>
    decreases k,
{
    if k == 0 { Seq::empty() } else { aliases_upto((k - 1) as nat) + " "@ + signal_alias((k - 1) as nat).0 }
}

/// The list of coreutils' `kill -l`: the names on one line, the other
/// names after them, and the forms of the real-time signals.
pub open spec fn coreutils_list_text() -> Seq<char> {
    names_upto(32) + aliases_upto(3) + " RT<N> RTMIN+<N> RTMAX-<N>"@ + "\n"@
}

/// The list that `kill -l` prints as coreutils does.
pub fn kill_print_signals_coreutils() -> (r: String)
    ensures
        r@ == coreutils_list_text(),
{
    let mut v: Vec<char> = Vec::new();
    let mut idx: usize = 0;
    while idx < SIGNAL_COUNT
        invariant
            idx <= 32,
            v@ == names_upto(idx as nat),
        decreases 32 - idx,
    {
        let ghost v0 = v@;
        if idx > 0 {
            push_str(&mut v, " ");
        }
        push_str(&mut v, signal_name_of(idx));
        assert(v@ =~= v0 + (if idx + 1 > 1 { " "@ } else { Seq::<char>::empty() }) + signal_name(idx as nat));
        idx = idx + 1;
    }
    let mut k: usize = 0;
    let ghost names = v@;
    while k < ALIAS_COUNT
        invariant
            k <= 3,
            v@ == names + aliases_upto(k as nat),
        decreases 3 - k,
    {
        push_str(&mut v, " ");
        let (a, _) = signal_alias_of(k);
        push_str(&mut v, a);
        assert(v@ =~= names + aliases_upto((k + 1) as nat));
        k = k + 1;
    }
    push_str(&mut v, " RT<N> RTMIN+<N> RTMAX-<N>");
    push_str(&mut v, "\n");
    string_from_chars(&v)
}

/// A cell of the shell's list for a signal of the table.
pub open spec fn shell_cell(i: nat) -> Seq<char> {
    pad_start(decimal(i), 2) + ") SIG"@ + pad_end(signal_name(i), 9)
}

/// The cell of the first real-time signal.
pub open spec fn rtmin_cell(rtmin: int) -> Seq<char> {
    pad_start(signed_decimal(rtmin), 2) + ") SIGRTMIN   "@
}

/// The cells `SIGRTMIN+i` from `i` to 15, stopping at the last real-time signal.
pub open spec fn rt_plus_cells(rtmin: int, rtmax: int, i: nat) -> Seq<Seq<char>>
    decreases 16 - i,
{
    if i > 15 || rtmin + i > rtmax {
        Seq::empty()
    } else {
        seq![pad_start(signed_decimal(rtmin + i), 2) + ") SIGRTMIN+"@ + pad_end(decimal(i), 2)]
            + rt_plus_cells(rtmin, rtmax, i + 1)
    }
}

/// The cells `SIGRTMAX-i` from `i` down to 0 (`SIGRTMAX` for 0), leaving
/// out the numbers that the `SIGRTMIN+` cells cover.
pub open spec fn rt_minus_cells(rtmin: int, rtmax: int, i: int) -> Seq<Seq<char>>
    decreases i + 1,
{
    if i < 0 {
        Seq::empty()
    } else {
        let cell = if i == 0 {
            pad_start(signed_decimal(rtmax), 2) + ") SIGRTMAX   "@
        } else {
            pad_start(signed_decimal(rtmax - i), 2) + ") SIGRTMAX-"@ + pad_end(decimal(i as nat), 2)
        };
        (if rtmax - i <= rtmin + 15 { Seq::empty() } else { seq![cell] }) + rt_minus_cells(rtmin, rtmax, i - 1)
    }
}

/// All the cells of the real-time signals.
pub open spec fn rt_cells(rtmin: int, rtmax: int) -> Seq<Seq<char>> {
    seq![rtmin_cell(rtmin)] + rt_plus_cells(rtmin, rtmax, 1) + rt_minus_cells(rtmin, rtmax, 14)
}

/// The shell's `kill -l`: the signals of the table five to a line, then the
/// real-time signals from `rtmin` to `rtmax` five to a line.
pub open spec fn shell_list_text(rtmin: int, rtmax: int) -> Seq<char> {
    let cells = rt_cells(rtmin, rtmax);
    layout(Seq::new(31, |k: int| shell_cell((k + 1) as nat)), 5, 1, 31) + "\n"@ + cells[0] + layout(
        cells.skip(1),
        5,
        2,
        cells.len() - 1,
    ) + (if cells.len() % 5 != 0 { "\n"@ } else { Seq::empty() })
}

/// Appends the cell for real-time signal `num`.
fn push_rt_cell(v: &mut Vec<char>, num: i64, label: &str, offset: Option<u64>)
    ensures
        final(v)@ == old(v)@ + pad_start(signed_decimal(num as int), 2) + label@ + match offset {
            Some(o) => pad_end(decimal(o as nat), 2),
            None => Seq::empty(),
        },
{
    let n = i64_decimal(num);
    push_pad_start(v, &n, 2);
    push_str(v, label);
    match offset {
        Some(o) => {
            let d = u64_decimal(o);
            push_pad_end(v, &d, 2);
        },
        None => {},
    }
    assert(final(v)@ =~= old(v)@ + pad_start(signed_decimal(num as int), 2) + label@ + match offset {
        Some(o) => pad_end(decimal(o as nat), 2),
        None => Seq::empty(),
    });
}

/// The list that `kill -l` prints as the shell does, for real-time signals
/// numbered from `rtmin` to `rtmax`.
#[verifier::rlimit(40)]
pub fn kill_print_signals_shell(rtmin: i32, rtmax: i32) -> (r: String)
    ensures
        r@ == shell_list_text(rtmin as int, rtmax as int),
{
    let ghost std_cells = Seq::new(31, |k: int| shell_cell((k + 1) as nat));
    let mut v: Vec<char> = Vec::new();
    let mut idx: usize = 1;
    while idx < SIGNAL_COUNT
        invariant
            1 <= idx <= 32,
            std_cells == Seq::new(31, |k: int| shell_cell((k + 1) as nat)),
            v@ == layout(std_cells, 5, 1, idx - 1),
        decreases 32 - idx,
    {
        let ghost v0 = v@;
        let num = u64_decimal(idx as u64);
        push_pad_start(&mut v, &num, 2);
        push_str(&mut v, ") SIG");
        let name = chars_of(signal_name_of(idx));
        push_pad_end(&mut v, &name, 9);
        if idx % 5 == 0 {
            push_str(&mut v, "\n");
        } else {
            push_str(&mut v, " ");
        }
        assert(std_cells[idx - 1] == shell_cell(idx as nat));
        assert(v@ =~= v0 + std_cells[idx - 1] + cell_sep((1 + idx - 1) as nat, 5));
        idx = idx + 1;
    }
    push_str(&mut v, "\n");
    let ghost cells = rt_cells(rtmin as int, rtmax as int);
    let ghost head = v@;
    let lo = rtmin as i64;
    let hi = rtmax as i64;
    push_rt_cell(&mut v, lo, ") SIGRTMIN   ", None);
    assert(v@ =~= head + rtmin_cell(rtmin as int));
    let ghost first = v@;
    let mut count: u64 = 1;
    let ghost mut done: Seq<Seq<char>> = Seq::empty();
    let mut i: i64 = 1;
    while i <= 15 && lo + i <= hi
        invariant
            1 <= i <= 16,
            lo == rtmin, hi == rtmax,
            done + rt_plus_cells(lo as int, hi as int, i as nat) == rt_plus_cells(lo as int, hi as int, 1),
            v@ == first + layout(done, 5, 2, done.len() as int),
            count as int == (done.len() + 1) % 5,
        decreases 16 - i,
    {
        let ghost v0 = v@;
        push_rt_cell(&mut v, lo + i, ") SIGRTMIN+", Some(i as u64));
        let ghost cell = pad_start(signed_decimal(lo + i), 2) + ") SIGRTMIN+"@ + pad_end(decimal(i as nat), 2);
        count = count + 1;
        if count % 5 == 0 {
            push_str(&mut v, "\n");
            count = 0;
        } else {
            push_str(&mut v, " ");
        }
        proof {
            let d2 = done.push(cell);
            assert(d2.take(done.len() as int) =~= done);
            lemma_layout_prefix(d2, 5, 2, done.len() as int);
            assert(v@ =~= first + layout(d2, 5, 2, d2.len() as int));
            assert(rt_plus_cells(lo as int, hi as int, i as nat) =~= seq![cell] + rt_plus_cells(lo as int, hi as int, (i + 1) as nat));
            assert(d2 + rt_plus_cells(lo as int, hi as int, (i + 1) as nat) =~= done + rt_plus_cells(lo as int, hi as int, i as nat));
            done = d2;
        }
        i = i + 1;
    }
    assert(rt_plus_cells(lo as int, hi as int, i as nat) =~= Seq::<Seq<char>>::empty());
    assert(done =~= rt_plus_cells(lo as int, hi as int, 1));
    let mut j: i64 = 14;
    while j >= 0
        invariant
            -1 <= j <= 14,
            lo == rtmin, hi == rtmax,
            done + rt_minus_cells(lo as int, hi as int, j as int) == rt_plus_cells(lo as int, hi as int, 1)
                + rt_minus_cells(lo as int, hi as int, 14),
            v@ == first + layout(done, 5, 2, done.len() as int),
            count as int == (done.len() + 1) % 5,
        decreases j + 1,
    {
        let num = hi - j;
        if num <= lo + 15 {
            assert(rt_minus_cells(lo as int, hi as int, j as int) =~= rt_minus_cells(lo as int, hi as int, j - 1));
            j = j - 1;
            continue;
        }
        let ghost v0 = v@;
        if j == 0 {
            push_rt_cell(&mut v, num, ") SIGRTMAX   ", None);
        } else {
            push_rt_cell(&mut v, num, ") SIGRTMAX-", Some(j as u64));
        }
        let ghost cell = if j == 0 {
            pad_start(signed_decimal(hi as int), 2) + ") SIGRTMAX   "@
        } else {
            pad_start(signed_decimal(hi - j), 2) + ") SIGRTMAX-"@ + pad_end(decimal(j as nat), 2)
        };
        count = count + 1;
        if count % 5 == 0 {
            push_str(&mut v, "\n");
            count = 0;
        } else {
            push_str(&mut v, " ");
        }
        proof {
            let d2 = done.push(cell);
            assert(d2.take(done.len() as int) =~= done);
            lemma_layout_prefix(d2, 5, 2, done.len() as int);
            assert(v@ =~= first + layout(d2, 5, 2, d2.len() as int));
            assert(rt_minus_cells(lo as int, hi as int, j as int) =~= seq![cell] + rt_minus_cells(lo as int, hi as int, j - 1));
            assert(d2 + rt_minus_cells(lo as int, hi as int, j - 1) =~= done + rt_minus_cells(lo as int, hi as int, j as int));
            done = d2;
        }
        j = j - 1;
    }
    proof {
        assert(rt_minus_cells(lo as int, hi as int, -1) =~= Seq::<Seq<char>>::empty());
        assert(cells =~= seq![rtmin_cell(rtmin as int)] + done);
        assert(cells.skip(1) =~= done);
        assert(cells[0] == rtmin_cell(rtmin as int));
    }
    if count > 0 {
        push_str(&mut v, "\n");
    }
    assert(v@ =~= shell_list_text(rtmin as int, rtmax as int));
    string_from_chars(&v)
}

/// The layout of the first `k` cells depends on those cells only.
proof fn lemma_layout_prefix(cells: Seq<Seq<char>>, cols: nat, first: nat, k: int)
    requires
        0 <= k <= cells.len(),
    ensures
        layout(cells, cols, first, k) == layout(cells.take(k), cols, first, k),
    decreases k,
{
    if k > 0 {
        lemma_layout_prefix(cells, cols, first, k - 1);
        lemma_layout_prefix(cells.take(k), cols, first, k - 1);
        assert(cells.take(k).take(k - 1) =~= cells.take(k - 1));
        assert(cells.take(k)[k - 1] == cells[k - 1]);
    }
}

// ---------------------------------------------------------------------------
// Naming one signal
// ---------------------------------------------------------------------------

/// `kill -l ARG` by the table: the number of the signal named `arg` (with
/// or without `SIG`), or the name of the signal numbered `arg`, the first
/// signal that matches either way deciding.
pub open spec fn print_by_table(arg: Seq<char>, v: nat) -> Option<Seq<char>>
    decreases 32 - v,
{
    if v >= 32 {
        None
    } else if signal_name(v) == arg || "SIG"@ + signal_name(v) == arg {
        Some(decimal(v))
    } else if arg == decimal(v) {
        Some(signal_name(v))
    } else {
        print_by_table(arg, v + 1)
    }
}

/// `kill -l ARG` by the other names of signals.
pub open spec fn print_by_alias(arg: Seq<char>, k: nat) -> Option<Seq<char>>
    decreases 3 - k,
{
    if k >= 3 {
        None
    } else if signal_alias(k).0 == arg || "SIG"@ + signal_alias(k).0 == arg {
        Some(decimal(signal_alias(k).1))
    } else if arg == decimal(signal_alias(k).1) && signal_alias(k).1 < 32 {
        Some(signal_name(signal_alias(k).1))
    } else {
        print_by_alias(arg, k + 1)
    }
}

/// A count after `RTMIN+` or `RTMAX-`: digits only.
pub open spec fn rt_offset(s: Seq<char>) -> Option<nat> {
    if s.len() > 0 && s[0] != '+' {
        parse_unsigned(s, i32::MAX as nat)
    } else {
        None
    }
}

/// The number of a real-time signal named `RTMIN`, `RTMAX`, `RTMIN+n` or
/// `RTMAX-n` (the `SIG` already taken off), within `rtmin..=rtmax`.
pub open spec fn rt_value(name: Seq<char>, rtmin: int, rtmax: int) -> Option<int> {
    if name == "RTMIN"@ {
        Some(rtmin)
    } else if name == "RTMAX"@ {
        Some(rtmax)
    } else if name.len() > 6 && name.take(6) == "RTMIN+"@ {
        match rt_offset(name.skip(6)) {
            Some(n) => if rtmin + n <= rtmax { Some(rtmin + n) } else { None },
            None => None,
        }
    } else if name.len() > 6 && name.take(6) == "RTMAX-"@ {
        match rt_offset(name.skip(6)) {
            Some(n) => if rtmax - n >= rtmin { Some(rtmax - n) } else { None },
            None => None,
        }
    } else {
        None
    }
}

/// Half of `x`, rounded towards zero, as integer division does.
pub open spec fn half(x: int) -> int {
    if x >= 0 { x / 2 } else { -((-x) / 2) }
}

/// The name of real-time signal `num`.
pub open spec fn rt_name(num: int, rtmin: int, rtmax: int) -> Seq<char> {
    if num == rtmin {
        "RTMIN"@
    } else if num == rtmax {
        "RTMAX"@
    } else if num < half(rtmin + rtmax) {
        "RTMIN+"@ + signed_decimal(num - rtmin)
    } else {
        "RTMAX-"@ + signed_decimal(rtmax - num)
    }
}

/// What `kill -l ARG` prints, for real-time signals from `rtmin` to
/// `rtmax`, or the message that `arg` names no signal. In order: the
/// table, the other names, a real-time signal's name, a real-time signal's
/// number, an exit status of 128 plus a signal number.
pub open spec fn print_signal_spec(arg: Seq<char>, rtmin: int, rtmax: int) -> Result<Seq<char>, Seq<char>> {
    match print_by_table(arg, 0) {
        Some(t) => Ok(t + "\n"@),
        None => match print_by_alias(arg, 0) {
            Some(t) => Ok(t + "\n"@),
            None => match rt_value(trim_sig(arg), rtmin, rtmax) {
                Some(n) => Ok(signed_decimal(n) + "\n"@),
                None => match parse_signed(arg, i32::MIN as int, i32::MAX as int) {
                    Ok(num) if rtmin <= num <= rtmax => Ok(rt_name(num, rtmin, rtmax) + "\n"@),
                    _ => match parse_unsigned(arg, usize::MAX as nat) {
                        Some(num) if num >= 128 && num % 128 < 32 => Ok(signal_name(num % 128) + "\n"@),
                        _ => Err(unknown_signal_text(arg)),
                    },
                },
            },
        },
    }
}

/// `kill -l ARG` by the table.
fn print_table_match(arg: &[char]) -> (r: Option<Vec<char>>)
    ensures
        match print_by_table(arg@, 0) {
            Some(t) => r matches Some(x) && x@ == t,
            None => r is None,
        },
{
    let mut v: usize = 0;
    while v < SIGNAL_COUNT
        invariant
            v <= 32,
            print_by_table(arg@, 0) == print_by_table(arg@, v as nat),
        decreases 32 - v,
    {
        let name = chars_of(signal_name_of(v));
        let mut sig = chars_of("SIG");
        push_chars(&mut sig, &name);
        let num = u64_decimal(v as u64);
        if seq_eq(&name, arg) || seq_eq(&sig, arg) {
            return Some(num);
        }
        if seq_eq(arg, &num) {
            return Some(name);
        }
        v = v + 1;
    }
    None
}

/// `kill -l ARG` by the other names.
fn print_alias_match(arg: &[char]) -> (r: Option<Vec<char>>)
    ensures
        match print_by_alias(arg@, 0) {
            Some(t) => r matches Some(x) && x@ == t,
            None => r is None,
        },
{
    let mut k: usize = 0;
    while k < ALIAS_COUNT
        invariant
            k <= 3,
            print_by_alias(arg@, 0) == print_by_alias(arg@, k as nat),
        decreases 3 - k,
    {
        let (a, n) = signal_alias_of(k);
        let name = chars_of(a);
        let mut sig = chars_of("SIG");
        push_chars(&mut sig, &name);
        let num = u64_decimal(n as u64);
        if seq_eq(&name, arg) || seq_eq(&sig, arg) {
            return Some(num);
        }
        if seq_eq(arg, &num) && n < SIGNAL_COUNT {
            return Some(chars_of(signal_name_of(n)));
        }
        k = k + 1;
    }
    None
}

/// Whether `s` is exactly `t`.
fn chars_equal_str(s: &[char], t: &str) -> (r: bool)
    ensures
        r == (s@ == t@),
{
    let tc = chars_of(t);
    seq_eq(s, &tc)
}

/// The number of a real-time signal name (the `SIG` already taken off).
fn rt_value_exec(name: &[char], rtmin: i64, rtmax: i64) -> (r: Option<i64>)
    requires
        i32::MIN <= rtmin <= i32::MAX,
        i32::MIN <= rtmax <= i32::MAX,
    ensures
        match rt_value(name@, rtmin as int, rtmax as int) {
            Some(n) => r matches Some(x) && x as int == n,
            None => r is None,
        },
{
    proof {
        reveal_strlit("RTMIN+");
        reveal_strlit("RTMAX-");
        reveal_strlit("RTMIN");
        reveal_strlit("RTMAX");
    }
    if chars_equal_str(name, "RTMIN") {
        return Some(rtmin);
    }
    if chars_equal_str(name, "RTMAX") {
        return Some(rtmax);
    }
    let plus = starts_with_chars(name, "RTMIN+");
    let minus = starts_with_chars(name, "RTMAX-");
    if name.len() > 6 && (plus || minus) {
        let rest = chars_from(name, 6);
        if rest[0] == '+' {
            return None;
        }
        match parse_unsigned_exec(&rest, i32::MAX as u64) {
            Some(n) => {
                let n = n as i64;
                if plus {
                    if rtmin + n <= rtmax {
                        return Some(rtmin + n);
                    }
                } else {
                    if rtmax - n >= rtmin {
                        return Some(rtmax - n);
                    }
                }
                None
            },
            None => None,
        }
    } else {
        None
    }
}

/// What `kill -l ARG` prints, for real-time signals numbered from `rtmin`
/// to `rtmax`, or the message that `arg` names no signal.
pub fn kill_print_signal_with(arg: &str, rtmin: i32, rtmax: i32) -> (r: Result<String, String>)
    ensures
        match print_signal_spec(arg@, rtmin as int, rtmax as int) {
            Ok(t) => r matches Ok(x) && x@ == t,
            Err(m) => r matches Err(x) && x@ == m,
        },
{
    let a = chars_of(arg);
    if let Some(mut t) = print_table_match(&a) {
        push_str(&mut t, "\n");
        return Ok(string_from_chars(&t));
    }
    if let Some(mut t) = print_alias_match(&a) {
        push_str(&mut t, "\n");
        return Ok(string_from_chars(&t));
    }
    let mut from: usize = 0;
    assert(a@.skip(0) =~= a@);
    while a.len() - from >= 3 && starts_with_sig(&a, from)
        invariant
            from <= a@.len(),
            trim_sig(a@.skip(from as int)) == trim_sig(a@),
        decreases a@.len() - from,
    {
        assert(a@.skip(from as int).skip(3) =~= a@.skip(from + 3));
        from = from + 3;
    }
    let trimmed = chars_from(&a, from);
    let lo = rtmin as i64;
    let hi = rtmax as i64;
    if let Some(n) = rt_value_exec(&trimmed, lo, hi) {
        let mut t = i64_decimal(n);
        push_str(&mut t, "\n");
        return Ok(string_from_chars(&t));
    }
    if let Ok(num) = parse_i32(&a) {
        let num = num as i64;
        if lo <= num && num <= hi {
            let mut t: Vec<char> = Vec::new();
            if num == lo {
                push_str(&mut t, "RTMIN");
            } else if num == hi {
                push_str(&mut t, "RTMAX");
            } else if num < (lo + hi) / 2 {
                push_str(&mut t, "RTMIN+");
                let d = i64_decimal(num - lo);
                push_chars(&mut t, &d);
            } else {
                push_str(&mut t, "RTMAX-");
                let d = i64_decimal(hi - num);
                push_chars(&mut t, &d);
            }
            push_str(&mut t, "\n");
            assert(t@ =~= rt_name(num as int, lo as int, hi as int) + "\n"@);
            return Ok(string_from_chars(&t));
        }
    }
    if let Some(num) = parse_unsigned_exec(&a, usize::MAX as u64) {
        if num >= 128 && num % 128 < 32 {
            let mut t = chars_of(signal_name_of((num % 128) as usize));
            push_str(&mut t, "\n");
            return Ok(string_from_chars(&t));
        }
    }
    let mut v: Vec<char> = Vec::new();
    push_str(&mut v, "unknown signal name ");
    push_quoted(&mut v, arg);
    Err(string_from_chars(&v))
}

/// The lowest number of a real-time signal on this system (`SIGRTMIN`).
/// Nothing is claimed of the value, which the C library decides at run time.
#[verifier::external_body]
fn sigrtmin() -> (r: i32) {
    libc::SIGRTMIN()
}

/// The highest number of a real-time signal on this system (`SIGRTMAX`).
/// Nothing is claimed of the value, which the C library decides at run time.
#[verifier::external_body]
fn sigrtmax() -> (r: i32) {
    libc::SIGRTMAX()
}

/// What `kill -l` prints: for one operand, its number or name (or the
/// message that it names no signal); without one, the list of all signals
/// in the mode's form. Real-time signals are numbered as this system does.
pub fn kill_list(opt_arg: Option<&str>, mode: KillCompatMode) -> (r: Result<String, String>)
    ensures
        opt_arg is None && mode != KillCompatMode::Bash ==> (r matches Ok(x) && x@ == coreutils_list_text()),
        opt_arg is None && mode == KillCompatMode::Bash ==> exists|lo: i32, hi: i32| #![trigger shell_list_text(lo as int, hi as int)] (r matches Ok(x) && x@ == shell_list_text(lo as int, hi as int)),
        opt_arg matches Some(a) ==> exists|lo: i32, hi: i32| #![trigger print_signal_spec(a@, lo as int, hi as int)] match print_signal_spec(a@, lo as int, hi as int) {
            Ok(t) => r matches Ok(x) && x@ == t,
            Err(m) => r matches Err(x) && x@ == m,
        },
{
    let lo = sigrtmin();
    let hi = sigrtmax();
    match opt_arg {
        Some(a) => kill_print_signal_with(a, lo, hi),
        None => {
            if mode.use_bash_list_output() {
                Ok(kill_print_signals_shell(lo, hi))
            } else {
                Ok(kill_print_signals_coreutils())
            }
        },
    }
}

// ---------------------------------------------------------------------------
// Deciding what to do
// ---------------------------------------------------------------------------

/// What `kill` was asked on its command line (the old form `-SIGNAL`
/// already taken out of it).
pub struct KillRequest {
    /// `-l`.
    pub list: bool,
    /// `-t`.
    pub table: bool,
    /// The operand of `-s`.
    pub signal: Option<String>,
    /// The operand of `-n`.
    pub signum: Option<String>,
    /// The signal of the old form `-SIGNAL`.
    pub obsolete: Option<usize>,
    /// The processes (or, with `-l`, the signal to name).
    pub operands: Vec<String>,
    /// `-p`: print the processes instead of signalling them.
    pub pid_only: bool,
    /// `--verbose`.
    pub verbose: bool,
    /// `-r`: only processes that handle the signal.
    pub require_handler: bool,
    /// The operand of `-q`.
    pub queue: Option<String>,
    /// The operands of `--timeout`.
    pub timeout: Option<Vec<String>>,
}

/// What `kill` does, once its options are checked.
#[derive(Debug)]
pub enum KillAction {
    /// Print the signal table.
    Table,
    /// Name one signal, or list them all.
    List(Option<String>),
    /// Signal processes.
    Send,
}

/// The decision of `kill` on its options: the failure (exit code and
/// message) or the action.
pub open spec fn kill_plan_spec(
    mode: KillCompatMode,
    list: bool,
    table: bool,
    has_signal: bool,
    operands: Seq<Seq<char>>,
) -> Result<u8, (i32, Seq<char>)> {
    if (list || table) && has_signal {
        Err((1i32, "cannot combine signal with -l or -t"@))
    } else if operands.len() == 0 && !(list || table) {
        Err((
            if mode == KillCompatMode::Bash { 2i32 } else { 1i32 },
            if mode == KillCompatMode::Bash {
                "usage: kill [-s sigspec | -n signum | -sigspec] pid | jobspec ... or kill -l [sigspec]"@
            } else {
                "not enough arguments"@
            },
        ))
    } else if table {
        if mode != KillCompatMode::Coreutils {
            Err((1i32, "invalid option -- 't'\nTry 'kill --help' for more information."@))
        } else if operands.len() > 0 {
            Err((1i32, "extra operand "@ + quoted(operands[0])))
        } else {
            Ok(0u8)
        }
    } else if list {
        Ok(1u8)
    } else {
        Ok(2u8)
    }
}

/// What `kill` does with its options: a failure (exit code and message),
/// or the table (`-t`, coreutils only, with no operand), the list (`-l`,
/// with the first operand if there is one), or signalling processes. A
/// signal (`-s` or `-SIGNAL`) cannot go with `-l` or `-t`, and without
/// `-l` or `-t` an operand is needed.
pub fn kill_plan(mode: KillCompatMode, req: &KillRequest) -> (r: Result<KillAction, (i32, String)>)
    ensures
        match kill_plan_spec(
            mode,
            req.list,
            req.table,
            req.obsolete is Some || req.signal is Some,
            req.operands@.map_values(|s: String| s@),
        ) {
            Ok(0u8) => r matches Ok(KillAction::Table),
            Ok(1u8) => r matches Ok(KillAction::List(a)) && (match a {
                Some(x) => req.operands@.len() > 0 && x@ == req.operands@[0]@,
                None => req.operands@.len() == 0,
            }),
            Ok(_) => r matches Ok(KillAction::Send),
            Err((code, msg)) => r matches Err((c, m)) && c == code && m@ == msg,
        },
{
    let ghost ops = req.operands@.map_values(|s: String| s@);
    let has_list_or_table = req.list || req.table;
    let has_signal = req.obsolete.is_some() || req.signal.is_some();
    if has_list_or_table && has_signal {
        return Err((1, string_from_chars(&chars_of("cannot combine signal with -l or -t"))));
    }
    if req.operands.len() == 0 && !has_list_or_table {
        let msg = mode.no_args_error_message();
        let code = mode.no_args_exit_code();
        return Err((code, string_from_chars(&chars_of(msg))));
    }
    if req.table {
        if !mode.supports_table_option() {
            return Err((
                1,
                string_from_chars(&chars_of("invalid option -- 't'\nTry 'kill --help' for more information.")),
            ));
        }
        if req.operands.len() > 0 {
            let mut m: Vec<char> = Vec::new();
            push_str(&mut m, "extra operand ");
            push_quoted(&mut m, req.operands[0].as_str());
            assert(ops[0] == req.operands@[0]@);
            return Err((1, string_from_chars(&m)));
        }
        return Ok(KillAction::Table);
    }
    if req.list {
        if req.operands.len() > 0 {
            let first = string_from_chars(&chars_of(req.operands[0].as_str()));
            return Ok(KillAction::List(Some(first)));
        }
        return Ok(KillAction::List(None));
    }
    Ok(KillAction::Send)
}

/// Whether nix knows a signal of this number on this system.
pub uninterp spec fn signal_supported(n: int) -> bool;

/// `Signal::try_from` of nix: claims only that its success depends on the
/// number alone.
#[verifier::external_body]
fn nix_signal_supported(n: i32) -> (r: bool)
    ensures
        r == signal_supported(n as int),
{
    nix::sys::signal::Signal::try_from(n).is_ok()
}

/// The signal that `-SIGNAL`, `-s`, `-n` or the default (`TERM`, 15) gives.
pub open spec fn requested_signal(
    obsolete: Option<nat>,
    signal: Option<Seq<char>>,
    signum: Option<Seq<char>>,
) -> Result<nat, Seq<char>> {
    match obsolete {
        Some(v) => Ok(v),
        None => match signal {
            Some(s) => match signal_value_spec(s, signal_of_upper(upper_case(s))) {
                Some(v) => Ok(v),
                None => Err(unknown_signal_text(s)),
            },
            None => match signum {
                Some(s) => match signal_value_spec(s, signal_of_upper(upper_case(s))) {
                    Some(v) => Ok(v),
                    None => Err(unknown_signal_text(s)),
                },
                None => Ok(15),
            },
        },
    }
}

/// The signal to send, or the message that the request names none that
/// this system has.
pub fn kill_get_signal_value(obsolete: Option<usize>, signal: Option<&str>, signum: Option<&str>) -> (r: Result<usize, String>)
    requires
        obsolete matches Some(v) ==> v < SIGNAL_COUNT,
    ensures
        match requested_signal(
            match obsolete { Some(v) => Some(v as nat), None => None },
            match signal { Some(s) => Some(s@), None => None },
            match signum { Some(s) => Some(s@), None => None },
        ) {
            Ok(v) => if signal_supported(v as int) {
                r matches Ok(x) && x == v
            } else {
                r matches Err(m) && m@ == "Invalid argument"@
            },
            Err(m) => r matches Err(x) && x@ == m,
        },
{
    let sig: usize = match obsolete {
        Some(v) => v,
        None => match signal {
            Some(s) => kill_parse_signal_value(s)?,
            None => match signum {
                Some(s) => kill_parse_signal_value(s)?,
                None => 15,
            },
        },
    };
    if sig < 32 && nix_signal_supported(sig as i32) {
        Ok(sig)
    } else {
        Err(string_from_chars(&chars_of("Invalid argument")))
    }
}

/// How processes are signalled.
pub struct SendPlan {
    /// The signal.
    pub signal: usize,
    /// The processes.
    pub pids: Vec<i32>,
    /// `-p`: print the processes only.
    pub pid_only: bool,
    /// `--timeout` with two operands: the wait in milliseconds and the
    /// signal that follows, or the message that one of them is bad.
    pub follow_up: Option<Result<(u64, usize), String>>,
    /// `-q`: the value sent with the signal, or the message that it is bad.
    pub queue: Option<Result<i32, String>>,
}

/// Reads the operands of `--timeout`: a wait in milliseconds, then a signal.
pub fn parse_timeout(values: &[String]) -> (r: Result<(u64, usize), String>)
    requires
        values@.len() >= 2,
    ensures
        match parse_unsigned(values@[0]@, u64::MAX as nat) {
            None => r matches Err(m) && m@ == "argument error: "@ + values@[0]@,
            Some(ms) => match signal_value_spec(values@[1]@, signal_of_upper(upper_case(values@[1]@))) {
                None => r matches Err(m) && m@ == unknown_signal_text(values@[1]@),
                Some(v) => if signal_supported(v as int) {
                    r matches Ok((a, b)) && a == ms && b == v
                } else {
                    r matches Err(m) && m@ == "Invalid argument"@
                },
            },
        },
{
    let cs = chars_of(values[0].as_str());
    let ms = match parse_unsigned_exec(&cs, u64::MAX) {
        Some(v) => v,
        None => {
            let mut m: Vec<char> = Vec::new();
            push_str(&mut m, "argument error: ");
            push_str(&mut m, values[0].as_str());
            return Err(string_from_chars(&m));
        },
    };
    let sig = kill_parse_signal_value(values[1].as_str())?;
    if sig < 32 && nix_signal_supported(sig as i32) {
        Ok((ms, sig))
    } else {
        Err(string_from_chars(&chars_of("Invalid argument")))
    }
}

/// Reads the operand of `-q`.
pub fn parse_queue_value(value: &str) -> (r: Result<i32, String>)
    ensures
        match parse_signed(value@, i32::MIN as int, i32::MAX as int) {
            Ok(v) => r matches Ok(x) && x as int == v,
            Err(_) => r matches Err(m) && m@ == "argument error: "@ + value@,
        },
{
    let cs = chars_of(value);
    match parse_i32(&cs) {
        Ok(v) => Ok(v),
        Err(_) => {
            let mut m: Vec<char> = Vec::new();
            push_str(&mut m, "argument error: ");
            push_str(&mut m, value);
            Err(string_from_chars(&m))
        },
    }
}

/// How `kill` signals processes, or why it cannot: `-p` excludes a
/// signal and `-q`; then the signal, then the processes are read; the
/// operands of `--timeout` (when there are two) and of `-q` are read only
/// when they are used.
pub fn kill_exec_plan(req: &KillRequest) -> (r: Result<SendPlan, String>)
    requires
        req.obsolete matches Some(v) ==> v < SIGNAL_COUNT,
    ensures
        req.pid_only && (req.signal is Some || req.queue is Some) ==> (r matches Err(m) && m@
            == "--pid and --signal are mutually exclusive"@),
        r matches Ok(p) ==> !(req.pid_only && (req.signal is Some || req.queue is Some)) && p.pid_only == req.pid_only
            && (match requested_signal(
                match req.obsolete { Some(v) => Some(v as nat), None => None },
                match req.signal { Some(s) => Some(s@), None => None },
                match req.signum { Some(s) => Some(s@), None => None },
            ) {
                Ok(v) => p.signal == v && signal_supported(v as int),
                Err(_) => false,
            }) && p.pids@.len() == req.operands@.len() && (forall|i: int| 0 <= i < req.operands@.len()
                ==> parse_signed(#[trigger] req.operands@[i]@, i32::MIN as int, i32::MAX as int)
                == Ok::<int, IntError>(p.pids@[i] as int)),
        !(req.pid_only && (req.signal is Some || req.queue is Some)) && (match requested_signal(
            match req.obsolete { Some(v) => Some(v as nat), None => None },
            match req.signal { Some(s) => Some(s@), None => None },
            match req.signum { Some(s) => Some(s@), None => None },
        ) {
            Ok(v) => signal_supported(v as int),
            Err(_) => false,
        }) && (forall|i: int| 0 <= i < req.operands@.len() ==> #[trigger] parse_signed(
            req.operands@[i]@,
            i32::MIN as int,
            i32::MAX as int,
        ) is Ok) ==> r is Ok,
{
    if req.pid_only && (req.signal.is_some() || req.queue.is_some()) {
        return Err(string_from_chars(&chars_of("--pid and --signal are mutually exclusive")));
    }
    let sig_opt = match &req.signal { Some(s) => Some(s.as_str()), None => None };
    let num_opt = match &req.signum { Some(s) => Some(s.as_str()), None => None };
    let signal = kill_get_signal_value(req.obsolete, sig_opt, num_opt)?;
    let pids = kill_parse_pids(req.operands.as_slice())?;
    let follow_up = match &req.timeout {
        Some(values) => {
            if values.len() >= 2 {
                Some(parse_timeout(values.as_slice()))
            } else {
                None
            }
        },
        None => None,
    };
    let queue = match &req.queue {
        Some(q) => Some(parse_queue_value(q.as_str())),
        None => None,
    };
    Ok(SendPlan { signal, pids, pid_only: req.pid_only, follow_up, queue })
}

/// The line that `--verbose` prints for each process signalled.
pub fn sending_signal_line(signal: usize, pid: i32) -> (r: String)
    ensures
        r@ == "sending signal "@ + decimal(signal as nat) + " to pid "@ + signed_decimal(pid as int),
{
    let mut v: Vec<char> = Vec::new();
    push_str(&mut v, "sending signal ");
    let d = u64_decimal(signal as u64);
    push_chars(&mut v, &d);
    push_str(&mut v, " to pid ");
    let p = i64_decimal(pid as i64);
    push_chars(&mut v, &p);
    string_from_chars(&v)
}


// ---------------------------------------------------------------------------
// Whether a process handles a signal (`-r`)
// ---------------------------------------------------------------------------

/// Where `c` last occurs in `s`.
pub open spec fn last_index_of(s: Seq<char>, c: char) -> Option<int>
    decreases s.len(),
{
    if s.len() == 0 {
        None
    } else if s.last() == c {
        Some(s.len() - 1)
    } else {
        last_index_of(s.drop_last(), c)
    }
}

proof fn lemma_last_index_of(s: Seq<char>, c: char)
    ensures
        last_index_of(s, c) matches Some(p) ==> 0 <= p < s.len() && s[p] == c,
    decreases s.len(),
{
    if s.len() > 0 && s.last() != c {
        lemma_last_index_of(s.drop_last(), c);
    }
}

/// Bit `k` of `v`.
pub open spec fn bit_set(v: u64, k: u32) -> bool {
    (v >> k) & 1u64 == 1u64
}

/// Whether the line of `/proc/PID/stat` says that the process catches the
/// signal `sig`: the words after the `) ` that ends the command name hold
/// the mask of caught signals as their 32nd, whose bit `sig - 1` is then
/// set. Without that word, or when it is no number, the answer is yes.
pub open spec fn stat_handles(stat: Seq<char>, sig: u32) -> bool {
    match last_index_of(stat, ')') {
        None => true,
        Some(pos) => {
            let fields = words(stat.skip(pos + 2));
            if fields.len() <= 31 {
                true
            } else {
                match parse_unsigned(fields[31], u64::MAX as nat) {
                    None => true,
                    Some(mask) => bit_set(mask as u64, (sig - 1) as u32),
                }
            }
        },
    }
}

/// A `stat` line that the tool can cut after its last `)`: a character
/// follows it, and that character is ASCII.
pub open spec fn stat_cuttable(stat: Seq<char>) -> bool {
    last_index_of(stat, ')') matches Some(pos) ==> pos + 1 < stat.len() && (stat[pos + 1] as u32) < 0x80
}

/// Whether `kill -r` signals the process whose `/proc/PID/stat` line is
/// `stat` (`stat_handles`).
pub fn has_userspace_handler(stat: &str, sig: u32) -> (r: bool)
    requires
        1 <= sig <= 64,
        stat_cuttable(stat@),
    ensures
        r == stat_handles(stat@, sig),
{
    let cs = chars_of(stat);
    let mut i: usize = cs.len();
    let mut found: Option<usize> = None;
    assert(cs@.take(cs@.len() as int) =~= cs@);
    while i > 0 && found.is_none()
        invariant
            i <= cs@.len(),
            cs@ == stat@,
            found is None ==> last_index_of(cs@, ')') == last_index_of(cs@.take(i as int), ')'),
            found matches Some(p) ==> last_index_of(cs@, ')') == Some(p as int),
        decreases i,
    {
        i = i - 1;
        assert(cs@.take(i + 1).drop_last() =~= cs@.take(i as int));
        if cs[i] == ')' {
            found = Some(i);
        }
    }
    if found.is_none() {
        assert(cs@.take(0) =~= Seq::<char>::empty());
    }
    proof {
        lemma_last_index_of(cs@, ')');
    }
    match found {
        None => true,
        Some(pos) => {
            let rest = chars_from(&cs, pos + 2);
            let fields = words_of(&rest);
            if fields.len() <= 31 {
                return true;
            }
            assert(fields@[31]@ == words(stat@.skip(pos + 2))[31]);
            match parse_unsigned_exec(&fields[31], u64::MAX) {
                None => true,
                Some(mask) => (mask >> (sig - 1)) & 1u64 == 1u64,
            }
        },
    }
}

/// The line of `--verbose` for a process that `-r` leaves alone.
pub fn no_handler_line(pid: i32, sig: u32) -> (r: String)
    ensures
        r@ == "not signalling pid "@ + signed_decimal(pid as int) + ", it has no userspace handler for signal "@
            + decimal(sig as nat),
{
    let mut v: Vec<char> = Vec::new();
    push_str(&mut v, "not signalling pid ");
    push_chars(&mut v, &i64_decimal(pid as i64));
    push_str(&mut v, ", it has no userspace handler for signal ");
    push_chars(&mut v, &u64_decimal(sig as u64));
    string_from_chars(&v)
}

} // verus!
