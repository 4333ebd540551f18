//! `install`: copying files (or creating directories) and setting their
//! attributes.

use vstd::prelude::*;
use crate::hostname::{split_on, split_on_char, before_char, has_char, lemma_before_char};
use crate::text::{
    chars_of, string_from_chars, push_str, push_chars, push_quoted, quoted, str_is, chars_from, decimal, i64_decimal,
    signed_decimal, u64_decimal,
};

verus! {

/// The `install` tool.
pub struct Install;

impl Install {
    /// Name of the tool.
    pub fn name(&self) -> (r: &'static str)
        ensures
            r@ == "install"@,
    {
        "install"
    }
}

/// The mode given to what is installed when none is specified: `rwxr-xr-x`.
pub const DEFAULT_MODE: u32 = 0o755;

/// What `install` does.
#[derive(Clone, Copy, Debug, PartialEq, Eq, Structural)]
pub enum MainFunction {
    /// Create directories (`-d`).
    Directory,
    /// Install files.
    Standard,
}

/// How an existing destination is backed up.
#[derive(Clone, Copy, Debug, PartialEq, Eq, Structural)]
pub enum BackupMode {
    /// No backup.
    NoBackup,
    /// A backup with the suffix.
    Simple,
    /// Numbered backups.
    Numbered,
    /// Numbered backups where some exist, simple ones otherwise.
    Existing,
}

/// The settings of an `install` run.
#[derive(Debug)]
pub struct Installer {
    /// Install files or create directories.
    pub main_function: MainFunction,
    /// The mode given with `-m`.
    pub specified_mode: Option<u32>,
    /// The backup of existing destinations.
    pub backup_mode: BackupMode,
    /// The suffix of backups.
    pub suffix: String,
    /// The owner given with `-o`, as a user id.
    pub owner_id: Option<u32>,
    /// The group given with `-g`, as a group id.
    pub group_id: Option<u32>,
    /// `-v`.
    pub verbose: bool,
    /// `-p`.
    pub preserve_timestamps: bool,
    /// `-C`: copy only files that differ.
    pub compare: bool,
    /// `-s`.
    pub strip: bool,
    /// The program that strips (`--strip-program`).
    pub strip_program: String,
    /// `-D`: create the leading directories.
    pub create_leading: bool,
    /// `-t`.
    pub target_dir: Option<String>,
    /// `-T`.
    pub no_target_dir: bool,
    /// `--preserve-context`.
    pub preserve_context: bool,
    /// `-Z` was given.
    pub set_context: bool,
    /// The context given with `-Z`.
    pub context: Option<String>,
}

impl Installer {
    /// The settings without options: install files, no backup, the `strip`
    /// program.
    pub fn default() -> (r: Installer)
        ensures
            r.main_function == MainFunction::Standard,
            r.specified_mode is None,
            r.backup_mode == BackupMode::NoBackup,
            r.suffix@.len() == 0,
            r.owner_id is None,
            r.group_id is None,
            !r.verbose && !r.preserve_timestamps && !r.compare && !r.strip,
            r.strip_program@ == "strip"@,
            !r.create_leading,
            r.target_dir is None,
            !r.no_target_dir && !r.preserve_context && !r.set_context,
            r.context is None,
    {
        Installer {
            main_function: MainFunction::Standard,
            specified_mode: None,
            backup_mode: BackupMode::NoBackup,
            suffix: String::new(),
            owner_id: None,
            group_id: None,
            verbose: false,
            preserve_timestamps: false,
            compare: false,
            strip: false,
            strip_program: string_from_chars(&chars_of("strip")),
            create_leading: false,
            target_dir: None,
            no_target_dir: false,
            preserve_context: false,
            set_context: false,
            context: None,
        }
    }

    /// The mode given to what is installed: the specified one, else
    /// `DEFAULT_MODE`.
    pub fn mode(&self) -> (r: u32)
        ensures
            r == match self.specified_mode {
                Some(m) => m,
                None => DEFAULT_MODE,
            },
    {
        match self.specified_mode {
            Some(x) => x,
            None => DEFAULT_MODE,
        }
    }

    /// The owner and group to give what is installed: those specified (the
    /// effective ones standing in for the other); for root without either,
    /// root's; otherwise none.
    pub fn get_chown_ids(&self, euid: u32, egid: u32) -> (r: Option<(u32, u32)>)
        ensures
            (self.owner_id is Some || self.group_id is Some) ==> r == Some((
                match self.owner_id { Some(o) => o, None => euid },
                match self.group_id { Some(g) => g, None => egid },
            )),
            (self.owner_id is None && self.group_id is None) ==> r == (if euid == 0 { Some((0u32, 0u32)) } else { None }),
    {
        if self.owner_id.is_some() || self.group_id.is_some() {
            let o = match self.owner_id { Some(o) => o, None => euid };
            let g = match self.group_id { Some(g) => g, None => egid };
            Some((o, g))
        } else if euid == 0 {
            Some((0, 0))
        } else {
            None
        }
    }
}

/// The value of a text of octal digits.
pub open spec fn octal_value(s: Seq<char>) -> nat
    decreases s.len(),
{
    if s.len() == 0 {
        0
    } else {
        octal_value(s.drop_last()) * 8 + ((s.last() as u32) - ('0' as u32)) as nat
    }
}

/// All characters are octal digits.
pub open spec fn octal_digits(s: Seq<char>) -> bool {
    forall|i: int| 0 <= i < s.len() ==> '0' <= #[trigger] s[i] && s[i] <= '7'
}

/// A numeric `-m` mode: octal digits of a value up to `07777`.
pub open spec fn octal_mode_spec(s: Seq<char>) -> Option<u32> {
    if s.len() > 0 && octal_digits(s) && octal_value(s) <= 0o7777 {
        Some(octal_value(s) as u32)
    } else {
        None
    }
}

/// The octal digits of `m`, without leading zeros (`0` for zero).
pub open spec fn octal_text(m: nat) -> Seq<char>
    decreases m,
{
    if m < 8 {
        seq![crate::text::digit_char(m)]
    } else {
        octal_text(m / 8).push(crate::text::digit_char(m % 8))
    }
}

proof fn lemma_octal_text(m: nat)
    ensures
        octal_text(m).len() > 0,
        octal_digits(octal_text(m)),
        octal_value(octal_text(m)) == m,
    decreases m,
{
    let d = m % 8;
    assert(d < 8);
    crate::text::lemma_digit_char(d);
    if m < 8 {
        crate::text::lemma_digit_char(m);
        assert(octal_value(seq![crate::text::digit_char(m)].drop_last()) == 0);
        assert(octal_text(m).drop_last() =~= Seq::<char>::empty());
    } else {
        lemma_octal_text(m / 8);
        let s = octal_text(m);
        assert(s.drop_last() =~= octal_text(m / 8));
        assert(m == (m / 8) * 8 + m % 8) by (nonlinear_arith);
        assert forall|i: int| 0 <= i < s.len() implies '0' <= #[trigger] s[i] && s[i] <= '7' by {
            if i < s.len() - 1 {
                assert(s[i] == octal_text(m / 8)[i]);
            }
        }
    }
}

/// A mode written in octal reads back as itself, for every mode up to
/// `07777`; and what is read is never above `07777`.
pub proof fn law_octal_mode_reads_back(m: nat, s: Seq<char>)
    ensures
        m <= 0o7777 ==> octal_mode_spec(octal_text(m)) == Some(m as u32),
        octal_mode_spec(s) matches Some(v) ==> v <= 0o7777,
{
    lemma_octal_text(m);
}

/// Reads a numeric `-m` mode (`octal_mode_spec`).
pub fn parse_octal_mode(text: &str) -> (r: Option<u32>)
    ensures
        r == octal_mode_spec(text@),
{
    let cs = chars_of(text);
    if cs.len() == 0 {
        return None;
    }
    let mut v: u32 = 0;
    let mut big = false;
    let mut i: usize = 0;
    assert(cs@.take(0) =~= Seq::<char>::empty());
    while i < cs.len()
        invariant
            i <= cs@.len(),
            cs@ == text@,
            octal_digits(cs@.take(i as int)),
            big ==> octal_value(cs@.take(i as int)) > 0o7777,
            !big ==> v as nat == octal_value(cs@.take(i as int)) && v <= 0o7777,
        decreases cs@.len() - i,
    {
        let c = cs[i];
        if !('0' <= c && c <= '7') {
            assert(!octal_digits(cs@)) by {
                assert(cs@[i as int] == c);
            }
            return None;
        }
        let ghost pre = cs@.take(i + 1);
        assert(pre.drop_last() =~= cs@.take(i as int));
        assert(pre.last() == c);
        assert(octal_digits(pre)) by {
            assert forall|j: int| 0 <= j < pre.len() implies '0' <= #[trigger] pre[j] && pre[j] <= '7' by {
                if j < pre.len() - 1 {
                    assert(pre[j] == cs@.take(i as int)[j]);
                }
            }
        }
        if !big {
            let w: u32 = v * 8 + (c as u32 - '0' as u32);
            if w > 0o7777 {
                big = true;
            } else {
                v = w;
            }
        }
        i = i + 1;
    }
    assert(cs@.take(cs@.len() as int) =~= cs@);
    if big {
        None
    } else {
        Some(v)
    }
}

/// The backup mode that a control word names: `none`/`off`, `simple`/
/// `never`, `numbered`/`t`, `existing`/`nil` (also the empty word); `None`
/// for any other word.
pub open spec fn control_mode(word: Seq<char>) -> Option<BackupMode> {
    if word.len() == 0 || word == "existing"@ || word == "nil"@ {
        Some(BackupMode::Existing)
    } else if word == "none"@ || word == "off"@ {
        Some(BackupMode::NoBackup)
    } else if word == "simple"@ || word == "never"@ {
        Some(BackupMode::Simple)
    } else if word == "numbered"@ || word == "t"@ {
        Some(BackupMode::Numbered)
    } else {
        None
    }
}

/// Each backup control word names its kind of backup: `existing` and `nil`
/// numbered backups only where some exist, `none` and `off` no backup,
/// `simple` and `never` a simple backup, `numbered` and `t` numbered
/// backups; `--backup` with no word and no `VERSION_CONTROL` means
/// `existing`, and neither `-b` nor `--backup` means no backup.
pub proof fn law_each_backup_word_names_its_mode(env: Option<Seq<char>>, value: Option<Seq<char>>)
    ensures
        control_mode("existing"@) == Some(BackupMode::Existing),
        control_mode("nil"@) == Some(BackupMode::Existing),
        control_mode("none"@) == Some(BackupMode::NoBackup),
        control_mode("off"@) == Some(BackupMode::NoBackup),
        control_mode("simple"@) == Some(BackupMode::Simple),
        control_mode("never"@) == Some(BackupMode::Simple),
        control_mode("numbered"@) == Some(BackupMode::Numbered),
        control_mode("t"@) == Some(BackupMode::Numbered),
        backup_mode_spec(true, None, false, None) == Ok::<BackupMode, Seq<char>>(BackupMode::Existing),
        backup_mode_spec(false, value, false, env) == Ok::<BackupMode, Seq<char>>(BackupMode::NoBackup),
{
    reveal_strlit("existing");
    reveal_strlit("nil");
    reveal_strlit("none");
    reveal_strlit("off");
    reveal_strlit("simple");
    reveal_strlit("never");
    reveal_strlit("numbered");
    reveal_strlit("t");
    assert("existing"@.len() != "nil"@.len());
    assert("existing"@.len() != "none"@.len());
    assert("existing"@.len() != "off"@.len());
    assert("existing"@.len() != "simple"@.len());
    assert("existing"@.len() != "never"@.len());
    assert("existing"@[0] != "numbered"@[0]);
    assert("existing"@.len() != "t"@.len());
    assert("nil"@.len() != "none"@.len());
    assert("nil"@[0] != "off"@[0]);
    assert("nil"@.len() != "simple"@.len());
    assert("nil"@.len() != "never"@.len());
    assert("nil"@.len() != "numbered"@.len());
    assert("nil"@.len() != "t"@.len());
    assert("none"@.len() != "off"@.len());
    assert("none"@.len() != "simple"@.len());
    assert("none"@.len() != "never"@.len());
    assert("none"@.len() != "numbered"@.len());
    assert("none"@.len() != "t"@.len());
    assert("off"@.len() != "simple"@.len());
    assert("off"@.len() != "never"@.len());
    assert("off"@.len() != "numbered"@.len());
    assert("off"@.len() != "t"@.len());
    assert("simple"@.len() != "never"@.len());
    assert("simple"@.len() != "numbered"@.len());
    assert("simple"@.len() != "t"@.len());
    assert("never"@.len() != "numbered"@.len());
    assert("never"@.len() != "t"@.len());
    assert("numbered"@.len() != "t"@.len());
}

/// The backup mode from `--backup[=CONTROL]` (`backup` given, with its
/// value if any), `-b` and `VERSION_CONTROL` (`env`): without either option
/// no backup; else the control word (the option's value, or the
/// variable), `existing` when there is none; the error for a word that
/// names no mode.
pub open spec fn backup_mode_spec(backup: bool, value: Option<Seq<char>>, simple: bool, env: Option<Seq<char>>) -> Result<
    BackupMode,
    Seq<char>,
> {
    if !backup && !simple {
        Ok(BackupMode::NoBackup)
    } else {
        let word = if backup && value is Some { value } else { env };
        match word {
            None => Ok(BackupMode::Existing),
            Some(w) => match control_mode(w) {
                Some(m) => Ok(m),
                None => Err("invalid argument "@ + quoted(w) + " for 'backup type'"@),
            },
        }
    }
}

/// The backup mode (`backup_mode_spec`).
pub fn backup_mode(backup: bool, value: Option<&str>, simple: bool, env: Option<&str>) -> (r: Result<BackupMode, String>)
    ensures
        match backup_mode_spec(
            backup,
            match value { Some(v) => Some(v@), None => None },
            simple,
            match env { Some(e) => Some(e@), None => None },
        ) {
            Ok(m) => r == Ok::<BackupMode, String>(m),
            Err(msg) => r matches Err(x) && x@ == msg,
        },
{
    if !backup && !simple {
        return Ok(BackupMode::NoBackup);
    }
    let word = if backup && value.is_some() { value } else { env };
    match word {
        None => Ok(BackupMode::Existing),
        Some(w) => {
            if chars_of(w).len() == 0 || str_is(w, "existing") || str_is(w, "nil") {
                Ok(BackupMode::Existing)
            } else if str_is(w, "none") || str_is(w, "off") {
                Ok(BackupMode::NoBackup)
            } else if str_is(w, "simple") || str_is(w, "never") {
                Ok(BackupMode::Simple)
            } else if str_is(w, "numbered") || str_is(w, "t") {
                Ok(BackupMode::Numbered)
            } else {
                let mut v = chars_of("invalid argument ");
                push_quoted(&mut v, w);
                push_str(&mut v, " for 'backup type'");
                Err(string_from_chars(&v))
            }
        },
    }
}

/// The name of a simple backup: the path, then the suffix.
pub fn simple_backup_name(path: &str, suffix: &str) -> (r: String)
    ensures
        r@ == path@ + suffix@,
{
    let mut v = chars_of(path);
    push_str(&mut v, suffix);
    string_from_chars(&v)
}

/// The name of the numbered backup `n`: the path, then `.~N~`.
pub fn numbered_backup_name(path: &str, n: u64) -> (r: String)
    ensures
        r@ == path@ + ".~"@ + decimal(n as nat) + "~"@,
{
    let mut v = chars_of(path);
    push_str(&mut v, ".~");
    push_chars(&mut v, &u64_decimal(n));
    push_str(&mut v, "~");
    string_from_chars(&v)
}

/// The message of `--compare` together with `-p` or `-s`, if they are.
pub open spec fn conflict_message(preserve_timestamps: bool, compare: bool, strip: bool) -> Option<Seq<char>> {
    if preserve_timestamps && compare {
        Some("options --compare (-C) and --preserve-timestamps are mutually exclusive"@)
    } else if compare && strip {
        Some("options --compare (-C) and --strip are mutually exclusive"@)
    } else {
        None
    }
}

/// Refuses `--compare` with `--preserve-timestamps` or `--strip`.
pub fn check_conflicts(preserve_timestamps: bool, compare: bool, strip: bool) -> (r: Result<(), String>)
    ensures
        match conflict_message(preserve_timestamps, compare, strip) {
            Some(m) => r matches Err(x) && x@ == m,
            None => r is Ok,
        },
{
    if preserve_timestamps && compare {
        return Err(string_from_chars(&chars_of("options --compare (-C) and --preserve-timestamps are mutually exclusive")));
    }
    if compare && strip {
        return Err(string_from_chars(&chars_of("options --compare (-C) and --strip are mutually exclusive")));
    }
    Ok(())
}

/// Whether the kernel supports SELinux, as the selinux crate reports it.
#[derive(Clone, Copy, Debug, PartialEq, Eq, Structural)]
pub enum KernelSupport {
    /// No SELinux.
    Unsupported,
    /// SELinux, not enforcing.
    SELinux,
    /// SELinux with MLS.
    SELinuxMLS,
}

/// Whether SELinux can be used.
pub fn selinux_supported(support: KernelSupport) -> (r: bool)
    ensures
        r == (support != KernelSupport::Unsupported),
{
    match support {
        KernelSupport::Unsupported => false,
        _ => true,
    }
}

/// The context options once the kernel's support is known: without SELinux
/// both are dropped, each with a warning appended to `warnings`.
pub fn normalize_context_flags(
    supported: bool,
    preserve_context: bool,
    set_context: bool,
    context: Option<String>,
    warnings: &mut Vec<String>,
) -> (r: (bool, bool, Option<String>))
    ensures
        supported ==> r.0 == preserve_context && r.1 == set_context && r.2 == context && final(warnings)@ == old(warnings)@,
        !supported ==> !r.0 && !r.1 && r.2 is None && final(warnings)@.map_values(|s: String| s@) == old(warnings)@.map_values(
            |s: String| s@,
        ) + (if preserve_context {
            seq!["WARNING: ignoring --preserve-context; this kernel is not SELinux-enabled"@]
        } else {
            Seq::empty()
        }) + (if context is Some {
            seq!["warning: ignoring --context; it requires an SELinux-enabled kernel"@]
        } else {
            Seq::empty()
        }),
{
    if supported {
        return (preserve_context, set_context, context);
    }
    let ghost w0 = warnings@.map_values(|s: String| s@);
    if preserve_context {
        warnings.push(string_from_chars(&chars_of("WARNING: ignoring --preserve-context; this kernel is not SELinux-enabled")));
    }
    let ghost w1 = warnings@.map_values(|s: String| s@);
    assert(w1 =~= w0 + (if preserve_context {
        seq!["WARNING: ignoring --preserve-context; this kernel is not SELinux-enabled"@]
    } else {
        Seq::empty()
    }));
    if context.is_some() {
        warnings.push(string_from_chars(&chars_of("warning: ignoring --context; it requires an SELinux-enabled kernel")));
    }
    assert(warnings@.map_values(|s: String| s@) =~= w1 + (if context is Some {
        seq!["warning: ignoring --context; it requires an SELinux-enabled kernel"@]
    } else {
        Seq::empty()
    }));
    (false, false, None)
}

/// The options of an `install` run, with what the system made of them.
pub struct InstallOptions {
    /// `-d`.
    pub directory: bool,
    /// `-m`: the mode, or why its text is not one.
    pub mode: Option<Result<u32, String>>,
    /// The backup mode, or why the backup options are refused.
    pub backup_mode: Result<BackupMode, String>,
    /// The suffix of backups.
    pub suffix: String,
    /// `-t`.
    pub target_dir: Option<String>,
    /// `-p`.
    pub preserve_timestamps: bool,
    /// `-C`.
    pub compare: bool,
    /// `-s`.
    pub strip: bool,
    /// `--strip-program`.
    pub strip_program: Option<String>,
    /// `-T`.
    pub no_target_dir: bool,
    /// `--preserve-context`.
    pub preserve_context: bool,
    /// `-Z` was given.
    pub context_given: bool,
    /// The context given with `-Z`.
    pub context: Option<String>,
    /// `-o`: the name, and its user id if the user exists.
    pub owner: Option<(String, Option<u32>)>,
    /// `-g`: the name, and its group id if the group exists.
    pub group: Option<(String, Option<u32>)>,
    /// `-v`.
    pub verbose: bool,
    /// `-D`.
    pub create_leading: bool,
    /// Whether the kernel supports SELinux.
    pub selinux: bool,
}

/// A name given with `-o`/`-g` that names nobody.
pub open spec fn unknown_name(given: Option<(String, Option<u32>)>) -> Option<Seq<char>> {
    match given {
        Some((n, id)) => if n@.len() > 0 && id is None { Some(n@) } else { None },
        None => None,
    }
}

/// The id that `-o`/`-g` gives.
pub open spec fn given_id(given: Option<(String, Option<u32>)>) -> Option<u32> {
    match given {
        Some((n, id)) => if n@.len() > 0 { id } else { None },
        None => None,
    }
}

/// Why the options are refused, checked in this order, up to the checks of
/// the context options.
pub open spec fn options_error(o: InstallOptions) -> Option<Seq<char>> {
    match o.mode {
        Some(Err(m)) => Some("Invalid mode string: "@ + m@),
        _ => match o.backup_mode {
            Err(m) => Some(m@),
            Ok(_) => if conflict_message(o.preserve_timestamps, o.compare, o.strip) is Some {
                conflict_message(o.preserve_timestamps, o.compare, o.strip)
            } else {
                match unknown_name(o.owner) {
                    Some(n) => Some("invalid user: "@ + quoted(n)),
                    None => match unknown_name(o.group) {
                        Some(n) => Some("invalid group: "@ + quoted(n)),
                        None => if o.directory && o.strip {
                            Some("the strip option may not be used when installing a directory"@)
                        } else if o.directory && o.target_dir is Some {
                            Some("target directory not allowed when installing a directory"@)
                        } else if o.no_target_dir && o.target_dir is Some {
                            Some("cannot combine --target-directory (-t) and --no-target-directory (-T)"@)
                        } else {
                            None
                        },
                    },
                }
            },
        },
    }
}

/// Whether `--compare` is dropped: a mode with bits other than permission
/// bits is given.
pub open spec fn compare_dropped(o: InstallOptions) -> bool {
    o.compare && match o.mode {
        Some(Ok(m)) => m & !0o777u32 != 0,
        _ => false,
    }
}

/// The warnings printed once the options pass those checks.
pub open spec fn options_warnings(o: InstallOptions) -> Seq<Seq<char>> {
    (if compare_dropped(o) {
        seq!["the --compare (-C) option is ignored when you specify a mode with non-permission bits"@]
    } else {
        Seq::empty()
    }) + (if !o.strip && o.strip_program is Some {
        seq!["WARNING: ignoring --strip-program option as -s option was not specified"@]
    } else {
        Seq::empty()
    }) + (if !o.selinux && o.preserve_context {
        seq!["WARNING: ignoring --preserve-context; this kernel is not SELinux-enabled"@]
    } else {
        Seq::empty()
    }) + (if !o.selinux && o.context is Some {
        seq!["warning: ignoring --context; it requires an SELinux-enabled kernel"@]
    } else {
        Seq::empty()
    })
}

/// The checks of the options, up to those of the context options: the
/// mode, backup mode, owner and group ids, or why they are refused.
fn check_options(o: &InstallOptions) -> (r: Result<(Option<u32>, BackupMode, Option<u32>, Option<u32>), String>)
    ensures
        options_error(*o) matches Some(m) ==> (r matches Err(x) && x@ == m),
        options_error(*o) is None ==> (r matches Ok((mode, b, u, g)) && mode == (match o.mode { Some(Ok(m)) => Some(m), _ => None })
            && o.backup_mode == Ok::<BackupMode, String>(b) && u == given_id(o.owner) && g == given_id(o.group)),
{
    let specified_mode = match &o.mode {
        Some(Err(m)) => {
            let mut v = chars_of("Invalid mode string: ");
            push_str(&mut v, m.as_str());
            return Err(string_from_chars(&v));
        },
        Some(Ok(m)) => Some(*m),
        None => None,
    };
    let backup_mode = match &o.backup_mode {
        Err(m) => {
            return Err(string_from_chars(&chars_of(m.as_str())));
        },
        Ok(b) => *b,
    };
    check_conflicts(o.preserve_timestamps, o.compare, o.strip)?;
    let owner_id = match &o.owner {
        Some((n, id)) => {
            if chars_of(n.as_str()).len() == 0 {
                None
            } else {
                match id {
                    Some(u) => Some(*u),
                    None => {
                        let mut v = chars_of("invalid user: ");
                        push_quoted(&mut v, n.as_str());
                        return Err(string_from_chars(&v));
                    },
                }
            }
        },
        None => None,
    };
    let group_id = match &o.group {
        Some((n, id)) => {
            if chars_of(n.as_str()).len() == 0 {
                None
            } else {
                match id {
                    Some(g) => Some(*g),
                    None => {
                        let mut v = chars_of("invalid group: ");
                        push_quoted(&mut v, n.as_str());
                        return Err(string_from_chars(&v));
                    },
                }
            }
        },
        None => None,
    };
    if o.directory && o.strip {
        return Err(string_from_chars(&chars_of("the strip option may not be used when installing a directory")));
    }
    if o.directory && o.target_dir.is_some() {
        return Err(string_from_chars(&chars_of("target directory not allowed when installing a directory")));
    }
    if o.no_target_dir && o.target_dir.is_some() {
        return Err(string_from_chars(&chars_of("cannot combine --target-directory (-t) and --no-target-directory (-T)")));
    }
    Ok((specified_mode, backup_mode, owner_id, group_id))
}

impl Installer {
    /// The settings of a run from its options, or why they are refused;
    /// with the warnings printed on the way.
    pub fn new(o: InstallOptions) -> (r: (Result<Installer, String>, Vec<String>))
        ensures
            options_error(o) matches Some(m) ==> (r.0 matches Err(x) && x@ == m && r.1@.len() == 0),
            options_error(o) is None ==> r.1@.map_values(|s: String| s@) == options_warnings(o),
            options_error(o) is None && o.selinux && o.preserve_context && o.context_given ==> (r.0 matches Err(x)
                && x@ == "cannot set target context and preserve it"@),
            options_error(o) is None && !(o.selinux && o.preserve_context && o.context_given) ==> (r.0 matches Ok(i) && {
                &&& i.main_function == (if o.directory { MainFunction::Directory } else { MainFunction::Standard })
                &&& i.specified_mode == (match o.mode { Some(Ok(m)) => Some(m), _ => None })
                &&& o.backup_mode == Ok::<BackupMode, String>(i.backup_mode)
                &&& i.suffix@ == o.suffix@
                &&& i.owner_id == given_id(o.owner)
                &&& i.group_id == given_id(o.group)
                &&& i.verbose == o.verbose
                &&& i.preserve_timestamps == o.preserve_timestamps
                &&& i.compare == (o.compare && !compare_dropped(o))
                &&& i.strip == o.strip
                &&& i.strip_program@ == (match o.strip_program { Some(p) => p@, None => "strip"@ })
                &&& i.create_leading == o.create_leading
                &&& i.target_dir == o.target_dir
                &&& i.no_target_dir == o.no_target_dir
                &&& i.preserve_context == (o.selinux && o.preserve_context)
                &&& i.set_context == (o.selinux && o.context_given)
                &&& i.context == (if o.selinux { o.context } else { None })
            }),
    {
        let ghost og = o;
        let (specified_mode, backup_mode, owner_id, group_id) = match check_options(&o) {
            Ok(x) => x,
            Err(m) => {
                return (Err(m), Vec::new());
            },
        };
        let main_function = if o.directory { MainFunction::Directory } else { MainFunction::Standard };
        let mut warnings: Vec<String> = Vec::new();
        let mut compare = o.compare;
        if compare {
            if let Some(m) = specified_mode {
                if m & !0o777u32 != 0 {
                    warnings.push(string_from_chars(&chars_of(
                        "the --compare (-C) option is ignored when you specify a mode with non-permission bits",
                    )));
                    compare = false;
                }
            }
        }
        if !o.strip && o.strip_program.is_some() {
            warnings.push(string_from_chars(&chars_of("WARNING: ignoring --strip-program option as -s option was not specified")));
        }
        let strip_program = match &o.strip_program {
            Some(p) => string_from_chars(&chars_of(p.as_str())),
            None => string_from_chars(&chars_of("strip")),
        };
        let ghost w2 = warnings@.map_values(|s: String| s@);
        assert(w2 =~= (if compare_dropped(og) {
            seq!["the --compare (-C) option is ignored when you specify a mode with non-permission bits"@]
        } else {
            Seq::empty()
        }) + (if !og.strip && og.strip_program is Some {
            seq!["WARNING: ignoring --strip-program option as -s option was not specified"@]
        } else {
            Seq::empty()
        }));
        let (preserve_context, set_context, context) = normalize_context_flags(
            o.selinux,
            o.preserve_context,
            o.context_given,
            o.context,
            &mut warnings,
        );
        assert(warnings@.map_values(|s: String| s@) =~= options_warnings(og));
        if preserve_context && set_context {
            return (Err(string_from_chars(&chars_of("cannot set target context and preserve it"))), warnings);
        }
        let i = Installer {
            main_function,
            specified_mode,
            backup_mode,
            suffix: o.suffix,
            owner_id,
            group_id,
            verbose: o.verbose,
            preserve_timestamps: o.preserve_timestamps,
            compare,
            strip: o.strip,
            strip_program,
            create_leading: o.create_leading,
            target_dir: o.target_dir,
            no_target_dir: o.no_target_dir,
            preserve_context,
            set_context,
            context,
        };
        (Ok(i), warnings)
    }
}

// ---------------------------------------------------------------------------
// Errors
// ---------------------------------------------------------------------------

/// What can go wrong while installing.
#[derive(Debug)]
pub enum InstallError {
    /// Changing the mode of this path failed.
    ChmodFailed(String),
    /// Changing the owner of this path failed, for this reason.
    ChownFailed(String, String),
    /// The target does not exist.
    InvalidTarget(String),
    /// Backing up the first path as the second failed, for this reason.
    BackupFailed(String, String, String),
    /// Copying the first path to the second failed, for this reason.
    InstallFailed(String, String, String),
    /// The strip program failed, for this reason.
    StripProgramFailed(String),
    /// Reading the attributes of a file failed, for this reason.
    MetadataFailed(String),
    /// No such user.
    InvalidUser(String),
    /// No such group.
    InvalidGroup(String),
    /// Creating this directory failed, for this reason.
    CreateDirFailed(String, String),
    /// A directory given as a file is passed over.
    OmittingDirectory(String),
    /// This path is not a directory.
    NotADirectory(String),
}

/// The message of an error.
pub open spec fn install_error_text(e: InstallError) -> Seq<char> {
    match e {
        InstallError::ChmodFailed(p) => "failed to chmod "@ + quoted(p@),
        InstallError::ChownFailed(p, m) => "failed to chown "@ + quoted(p@) + ": "@ + m@,
        InstallError::InvalidTarget(p) => "failed to access "@ + quoted(p@) + ": No such file or directory"@,
        InstallError::BackupFailed(f, t, m) => "cannot backup "@ + quoted(f@) + " to "@ + quoted(t@) + ": "@ + m@,
        InstallError::InstallFailed(f, t, m) => "cannot install "@ + quoted(f@) + " to "@ + quoted(t@) + ": "@ + m@,
        InstallError::StripProgramFailed(m) => "strip program failed: "@ + m@,
        InstallError::MetadataFailed(m) => m@,
        InstallError::InvalidUser(u) => "invalid user: "@ + quoted(u@),
        InstallError::InvalidGroup(g) => "invalid group: "@ + quoted(g@),
        InstallError::CreateDirFailed(d, m) => "failed to create "@ + quoted(d@) + ": "@ + m@,
        InstallError::OmittingDirectory(d) => "omitting directory "@ + quoted(d@),
        InstallError::NotADirectory(d) => "failed to access "@ + quoted(d@) + ": Not a directory"@,
    }
}

impl InstallError {
    /// The message of the error.
    pub fn message(&self) -> (r: String)
        ensures
            r@ == install_error_text(*self),
    {
        let mut v: Vec<char> = Vec::new();
        match self {
            InstallError::ChmodFailed(p) => {
                push_str(&mut v, "failed to chmod ");
                push_quoted(&mut v, p.as_str());
            },
            InstallError::ChownFailed(p, m) => {
                push_str(&mut v, "failed to chown ");
                push_quoted(&mut v, p.as_str());
                push_str(&mut v, ": ");
                push_str(&mut v, m.as_str());
            },
            InstallError::InvalidTarget(p) => {
                push_str(&mut v, "failed to access ");
                push_quoted(&mut v, p.as_str());
                push_str(&mut v, ": No such file or directory");
            },
            InstallError::BackupFailed(f, t, m) => {
                push_str(&mut v, "cannot backup ");
                push_quoted(&mut v, f.as_str());
                push_str(&mut v, " to ");
                push_quoted(&mut v, t.as_str());
                push_str(&mut v, ": ");
                push_str(&mut v, m.as_str());
            },
            InstallError::InstallFailed(f, t, m) => {
                push_str(&mut v, "cannot install ");
                push_quoted(&mut v, f.as_str());
                push_str(&mut v, " to ");
                push_quoted(&mut v, t.as_str());
                push_str(&mut v, ": ");
                push_str(&mut v, m.as_str());
            },
            InstallError::StripProgramFailed(m) => {
                push_str(&mut v, "strip program failed: ");
                push_str(&mut v, m.as_str());
            },
            InstallError::MetadataFailed(m) => {
                push_str(&mut v, m.as_str());
            },
            InstallError::InvalidUser(u) => {
                push_str(&mut v, "invalid user: ");
                push_quoted(&mut v, u.as_str());
            },
            InstallError::InvalidGroup(g) => {
                push_str(&mut v, "invalid group: ");
                push_quoted(&mut v, g.as_str());
            },
            InstallError::CreateDirFailed(d, m) => {
                push_str(&mut v, "failed to create ");
                push_quoted(&mut v, d.as_str());
                push_str(&mut v, ": ");
                push_str(&mut v, m.as_str());
            },
            InstallError::OmittingDirectory(d) => {
                push_str(&mut v, "omitting directory ");
                push_quoted(&mut v, d.as_str());
            },
            InstallError::NotADirectory(d) => {
                push_str(&mut v, "failed to access ");
                push_quoted(&mut v, d.as_str());
                push_str(&mut v, ": Not a directory");
            },
        }
        assert(v@ =~= install_error_text(*self));
        string_from_chars(&v)
    }
}

/// The message of a strip program that ended with an exit code other than 0.
pub fn strip_exit_message(code: i32) -> (r: String)
    ensures
        r@ == "strip process terminated abnormally - exit code: "@ + signed_decimal(code as int),
{
    let mut v = chars_of("strip process terminated abnormally - exit code: ");
    let d = i64_decimal(code as i64);
    push_chars(&mut v, &d);
    string_from_chars(&v)
}

// ---------------------------------------------------------------------------
// Whether to copy
// ---------------------------------------------------------------------------

/// The attributes of a file that decide whether it is copied again.
#[derive(Clone, Copy, Debug, PartialEq, Eq, Structural)]
pub struct FileFacts {
    /// Whether it is a regular file.
    pub is_file: bool,
    /// Its mode bits.
    pub mode: u32,
    /// Its length.
    pub len: u64,
    /// Its owner.
    pub uid: u32,
    /// Its group.
    pub gid: u32,
}

/// Whether `--compare` must copy, judged from the files' attributes: `Some`
/// when they decide, `None` when the contents (and contexts) must be
/// compared.
pub open spec fn need_copy_spec(
    b: Installer,
    from_link_is_file: Option<bool>,
    to_link_is_file: Option<bool>,
    from: Option<FileFacts>,
    to: Option<FileFacts>,
    euid: u32,
    egid: u32,
) -> Option<bool> {
    match (from_link_is_file, to_link_is_file) {
        (Some(fl), Some(tl)) => if !fl || !tl {
            Some(true)
        } else {
            match (from, to) {
                (Some(f), Some(t)) => {
                    let mode = match b.specified_mode { Some(m) => m, None => DEFAULT_MODE };
                    let special = (match b.specified_mode { Some(m) => m, None => 0u32 }) & 0o7000u32 != 0
                        || f.mode & 0o7000u32 != 0 || t.mode & 0o7000u32 != 0;
                    let attributes = mode != t.mode & 0o7777u32 || !f.is_file || !t.is_file || f.len != t.len;
                    let ownership = (match b.owner_id { Some(o) => o != t.uid, None => false }) || match b.group_id {
                        Some(g) => g != t.gid,
                        None => t.uid != euid || t.gid != egid,
                    };
                    if special || attributes || ownership { Some(true) } else { None }
                },
                _ => Some(true),
            }
        },
        _ => Some(true),
    }
}

/// The permission bits that an install gives a file: those of `-m`, or
/// `0755`.
pub open spec fn mode_installed(b: Installer) -> u32 {
    match b.specified_mode {
        Some(m) => m,
        None => 0o755u32,
    }
}

/// `--compare` copies whenever it cannot show that the destination already
/// is what the copy would make: it never answers "no copy" by itself; it
/// copies when either file is missing or is not a regular file; and, for
/// two regular files, when the destination's permission bits are not the
/// mode the install sets (`mode_installed`), when their lengths differ, when
/// a mode holds setuid, setgid or sticky bits, or when the destination's
/// owner or group is not the one the install gives it. Otherwise the
/// contents decide.
pub proof fn law_compare_copies_unless_attributes_match(
    b: Installer,
    from_link_is_file: Option<bool>,
    to_link_is_file: Option<bool>,
    from: Option<FileFacts>,
    to: Option<FileFacts>,
    euid: u32,
    egid: u32,
)
    ensures
        need_copy_spec(b, from_link_is_file, to_link_is_file, from, to, euid, egid) != Some(false),
        from_link_is_file != Some(true) || to_link_is_file != Some(true) || from is None || to is None
            ==> need_copy_spec(b, from_link_is_file, to_link_is_file, from, to, euid, egid) == Some(true),
        from matches Some(f) && to matches Some(t) && (!f.is_file || !t.is_file)
            ==> need_copy_spec(b, from_link_is_file, to_link_is_file, from, to, euid, egid) == Some(true),
        to matches Some(t) && (t.mode & 0o7777u32) != mode_installed(b)
            ==> need_copy_spec(b, from_link_is_file, to_link_is_file, from, to, euid, egid) == Some(true),
        from matches Some(f) && to matches Some(t) && f.len != t.len
            ==> need_copy_spec(b, from_link_is_file, to_link_is_file, from, to, euid, egid) == Some(true),
        from matches Some(f) && to matches Some(t) && ((f.mode & 0o7000u32) != 0 || (t.mode & 0o7000u32) != 0
            || (mode_installed(b) & 0o7000u32) != 0)
            ==> need_copy_spec(b, from_link_is_file, to_link_is_file, from, to, euid, egid) == Some(true),
        to matches Some(t) && ((b.owner_id matches Some(o) && o != t.uid) || (b.group_id matches Some(g) && g != t.gid)
            || (b.group_id is None && (t.uid != euid || t.gid != egid)))
            ==> need_copy_spec(b, from_link_is_file, to_link_is_file, from, to, euid, egid) == Some(true),
        from matches Some(f) && to matches Some(t) && from_link_is_file == Some(true) && to_link_is_file == Some(true)
            && f.is_file && t.is_file && (t.mode & 0o7777u32) == mode_installed(b) && f.len == t.len && (f.mode
            & 0o7000u32) == 0 && (t.mode & 0o7000u32) == 0 && (mode_installed(b) & 0o7000u32) == 0 && !(
        b.owner_id matches Some(o) && o != t.uid) && !(b.group_id matches Some(g) && g != t.gid) && !(b.group_id is None
            && (t.uid != euid || t.gid != egid)) ==> need_copy_spec(
            b,
            from_link_is_file,
            to_link_is_file,
            from,
            to,
            euid,
            egid,
        ) is None,
{
    assert(0o755u32 & 0o7000u32 == 0) by (bit_vector);
    assert(0u32 & 0o7000u32 == 0) by (bit_vector);
}

impl Installer {
    /// Whether `--compare` must copy, from what the file system says of both
    /// files (without following a last link, then following it) and the
    /// effective ids: a copy is needed when either is missing or not a
    /// regular file, when a mode has setuid, setgid or sticky bits, when the
    /// destination's mode, length, owner or group is not what the copy
    /// would have; `None` leaves the decision to the contents.
    pub fn need_copy(
        &self,
        from_link_is_file: Option<bool>,
        to_link_is_file: Option<bool>,
        from: Option<FileFacts>,
        to: Option<FileFacts>,
        euid: u32,
        egid: u32,
    ) -> (r: Option<bool>)
        ensures
            r == need_copy_spec(*self, from_link_is_file, to_link_is_file, from, to, euid, egid),
    {
        match (from_link_is_file, to_link_is_file) {
            (Some(fl), Some(tl)) => {
                if !fl || !tl {
                    return Some(true);
                }
            },
            _ => {
                return Some(true);
            },
        }
        let (f, t) = match (from, to) {
            (Some(f), Some(t)) => (f, t),
            _ => {
                return Some(true);
            },
        };
        let extra: u32 = 0o7000;
        let given = match self.specified_mode { Some(m) => m, None => 0 };
        if given & extra != 0 || f.mode & extra != 0 || t.mode & extra != 0 {
            return Some(true);
        }
        if self.mode() != t.mode & 0o7777 || !f.is_file || !t.is_file || f.len != t.len {
            return Some(true);
        }
        if let Some(o) = self.owner_id {
            if o != t.uid {
                return Some(true);
            }
        }
        match self.group_id {
            Some(g) => {
                if g != t.gid {
                    return Some(true);
                }
            },
            None => {
                if t.uid != euid || t.gid != egid {
                    return Some(true);
                }
            },
        }
        None
    }
}

// ---------------------------------------------------------------------------
// Paths
// ---------------------------------------------------------------------------

/// The parts of a path that name something: those between `/` that are
/// neither empty nor `.`.
pub open spec fn named_parts(parts: Seq<Seq<char>>) -> Seq<Seq<char>>
    decreases parts.len(),
{
    if parts.len() == 0 {
        Seq::empty()
    } else {
        named_parts(parts.drop_last()) + if parts.last().len() > 0 && parts.last() != "."@ {
            seq![parts.last()]
        } else {
            Seq::empty()
        }
    }
}

/// The last part of a path (`Path::file_name`): none for a path that ends in
/// `..` or names no part (`/`, `.`, the empty path).
pub open spec fn file_name_spec(p: Seq<char>) -> Option<Seq<char>> {
    let n = named_parts(split_on(p, '/'));
    if n.len() == 0 || n.last() == ".."@ { None } else { Some(n.last()) }
}

/// The last part of a path, if it has one (`Path::file_name`).
pub fn file_name_of(path: &str) -> (r: Option<String>)
    ensures
        match file_name_spec(path@) {
            Some(n) => r matches Some(x) && x@ == n,
            None => r is None,
        },
{
    let cs = chars_of(path);
    let parts = split_on_char(&cs, '/');
    let ghost pv = parts@.map_values(|l: Vec<char>| l@);
    let mut last: Option<usize> = None;
    let mut i: usize = 0;
    proof {
        assert(pv.take(0) =~= Seq::<Seq<char>>::empty());
    }
    while i < parts.len()
        invariant
            i <= parts@.len(),
            pv == parts@.map_values(|l: Vec<char>| l@),
            match last {
                Some(k) => k < i && named_parts(pv.take(i as int)).len() > 0 && named_parts(pv.take(i as int)).last() == pv[k as int],
                None => named_parts(pv.take(i as int)).len() == 0,
            },
        decreases parts@.len() - i,
    {
        let ghost pre = pv.take(i as int);
        let ghost pre2 = pv.take(i + 1);
        assert(pre2.drop_last() =~= pre);
        assert(pre2.last() == parts@[i as int]@);
        let part = &parts[i];
        let dot = part.len() == 1 && part[0] == '.';
        proof {
            reveal_strlit(".");
            if part@ == "."@ {
                assert(part@.len() == 1 && part@[0] == '.');
            }
            if dot {
                assert(part@ =~= "."@);
            }
        }
        if part.len() > 0 && !dot {
            last = Some(i);
        }
        i = i + 1;
    }
    assert(pv.take(parts@.len() as int) =~= pv);
    match last {
        None => None,
        Some(k) => {
            let name = &parts[k];
            let dd = name.len() == 2 && name[0] == '.' && name[1] == '.';
            proof {
                reveal_strlit("..");
                if name@ == ".."@ {
                    assert(name@.len() == 2 && name@[0] == '.' && name@[1] == '.');
                }
                if dd {
                    assert(name@ =~= ".."@);
                }
            }
            if dd {
                None
            } else {
                Some(string_from_chars(name))
            }
        },
    }
}

/// `name` under the directory `dir` (`Path::join` with a relative name):
/// a `/` between them unless `dir` is empty or already ends in one.
pub open spec fn join_spec(dir: Seq<char>, name: Seq<char>) -> Seq<char> {
    if dir.len() == 0 || dir.last() == '/' { dir + name } else { dir + "/"@ + name }
}

/// `name` under the directory `dir`.
pub fn join_path(dir: &str, name: &str) -> (r: String)
    ensures
        r@ == join_spec(dir@, name@),
{
    let mut v = chars_of(dir);
    if v.len() > 0 && v[v.len() - 1] != '/' {
        push_str(&mut v, "/");
    }
    push_str(&mut v, name);
    string_from_chars(&v)
}

/// A name that a path can end in: not empty, without `/`, neither `.`
/// nor `..`.
pub open spec fn plain_name(n: Seq<char>) -> bool {
    n.len() > 0 && !has_char(n, '/') && n != "."@ && n != ".."@
}

proof fn lemma_before_char_concat(p: Seq<char>, n: Seq<char>, c: char)
    requires
        has_char(p, c),
    ensures
        before_char(p + n, c) == before_char(p, c),
    decreases p.len(),
{
    let s = p + n;
    assert(s[0] == p[0]);
    if p[0] != c {
        let i = choose|i: int| 0 <= i < p.len() && p[i] == c;
        assert(i > 0);
        assert(p.skip(1)[i - 1] == c);
        lemma_before_char_concat(p.skip(1), n, c);
        assert(s.skip(1) =~= p.skip(1) + n);
    }
}

proof fn lemma_split_append_name(p: Seq<char>, n: Seq<char>)
    requires
        p.len() == 0 || p.last() == '/',
        n.len() > 0,
        !has_char(n, '/'),
    ensures
        split_on(p + n, '/') == split_on(p, '/').push(n),
    decreases p.len(),
{
    lemma_before_char(n, '/');
    if p.len() == 0 {
        assert(p + n =~= n);
        assert(split_on(p, '/') =~= Seq::<Seq<char>>::empty());
        assert(split_on(n, '/') =~= seq![n]);
    } else {
        let s = p + n;
        assert(p[p.len() - 1] == '/');
        assert(has_char(p, '/'));
        assert(s[p.len() - 1] == '/');
        assert(has_char(s, '/'));
        lemma_before_char(p, '/');
        lemma_before_char_concat(p, n, '/');
        let part = before_char(p, '/');
        let rest = p.skip(part.len() + 1int);
        assert(s.skip(part.len() + 1int) =~= rest + n);
        if rest.len() > 0 {
            assert(rest.last() == p.last());
        }
        lemma_split_append_name(rest, n);
        assert(split_on(s, '/') == seq![part] + split_on(rest + n, '/'));
        assert(split_on(p, '/') == seq![part] + split_on(rest, '/'));
        assert(seq![part] + split_on(rest, '/').push(n) =~= (seq![part] + split_on(rest, '/')).push(n));
    }
}

/// The name of a file put into a directory is the name it was given:
/// `install SOURCE DIR` copies to `DIR/NAME`, and the last part of that
/// path is `NAME` again.
pub proof fn law_file_name_of_joined(dir: Seq<char>, name: Seq<char>)
    requires
        plain_name(name),
    ensures
        file_name_spec(join_spec(dir, name)) == Some(name),
{
    reveal_strlit("/");
    let p = if dir.len() == 0 || dir.last() == '/' { dir } else { dir + "/"@ };
    assert(join_spec(dir, name) =~= p + name);
    if !(dir.len() == 0 || dir.last() == '/') {
        assert(p.last() == '/');
    }
    lemma_split_append_name(p, name);
    let parts = split_on(p, '/');
    assert(parts.push(name).drop_last() =~= parts);
    assert(named_parts(parts.push(name)) == named_parts(parts) + seq![name]);
}

/// Whether a path may name a directory: it ends in `/`, or it is one.
pub fn is_potential_directory_path(path: &str, is_dir: bool) -> (r: bool)
    ensures
        r == ((path@.len() > 0 && path@.last() == '/') || is_dir),
{
    let cs = chars_of(path);
    (cs.len() > 0 && cs[cs.len() - 1] == '/') || is_dir
}

/// The path given to the strip program: `./` before a name that begins
/// with `-`, so that it is not read as an option.
pub fn prepare_strip_path(path: &str) -> (r: String)
    ensures
        r@ == (if path@.len() > 0 && path@[0] == '-' { "./"@ + path@ } else { path@ }),
{
    let cs = chars_of(path);
    if cs.len() > 0 && cs[0] == '-' {
        let mut v = chars_of("./");
        push_chars(&mut v, &cs);
        string_from_chars(&v)
    } else {
        string_from_chars(&cs)
    }
}

// ---------------------------------------------------------------------------
// What is installed where
// ---------------------------------------------------------------------------

/// Where the files go.
#[derive(Debug)]
pub enum StandardPlan {
    /// `install SOURCE DEST`.
    Single(String, String),
    /// `install SOURCE... DIRECTORY` or `install -t DIRECTORY SOURCE...`.
    Multi(String, Vec<String>),
}

/// Why the operands are refused, if they are.
pub open spec fn operands_error(paths: Seq<Seq<char>>, no_target_dir: bool, has_target_dir: bool) -> Option<Seq<char>> {
    if paths.len() == 0 {
        Some("missing file operand"@)
    } else if no_target_dir && paths.len() > 2 {
        Some("extra operand "@ + quoted(paths[2]))
    } else if !has_target_dir && paths.len() < 2 {
        Some("missing destination file operand after "@ + quoted(paths[0]))
    } else {
        None
    }
}

/// Where the files named by the operands go: with two operands and no
/// `-t`, the first is copied to the second; otherwise every operand but
/// the last (every operand, with `-t`) goes into the directory that the
/// last one (that of `-t`) names.
pub fn install_standard_plan(paths: &[String], b: &Installer) -> (r: Result<StandardPlan, String>)
    ensures
        match operands_error(paths@.map_values(|s: String| s@), b.no_target_dir, b.target_dir is Some) {
            Some(m) => r matches Err(x) && x@ == m,
            None => if b.target_dir is None && paths@.len() == 2 {
                r matches Ok(StandardPlan::Single(f, t)) && f@ == paths@[0]@ && t@ == paths@[1]@
            } else {
                r matches Ok(StandardPlan::Multi(d, sources)) && d@ == (match b.target_dir {
                    Some(t) => t@,
                    None => paths@.last()@,
                }) && sources@.map_values(|s: String| s@) == (if b.target_dir is Some {
                    paths@.map_values(|s: String| s@)
                } else {
                    paths@.map_values(|s: String| s@).drop_last()
                })
            },
        },
{
    let ghost pv = paths@.map_values(|s: String| s@);
    if paths.len() == 0 {
        return Err(string_from_chars(&chars_of("missing file operand")));
    }
    if b.no_target_dir && paths.len() > 2 {
        let mut v = chars_of("extra operand ");
        push_quoted(&mut v, paths[2].as_str());
        assert(pv[2] == paths@[2]@);
        return Err(string_from_chars(&v));
    }
    if b.target_dir.is_none() && paths.len() < 2 {
        let mut v = chars_of("missing destination file operand after ");
        push_quoted(&mut v, paths[0].as_str());
        assert(pv[0] == paths@[0]@);
        return Err(string_from_chars(&v));
    }
    if b.target_dir.is_none() && paths.len() == 2 {
        let f = string_from_chars(&chars_of(paths[0].as_str()));
        let t = string_from_chars(&chars_of(paths[1].as_str()));
        return Ok(StandardPlan::Single(f, t));
    }
    let n = match &b.target_dir {
        Some(_) => paths.len(),
        None => paths.len() - 1,
    };
    let dir = match &b.target_dir {
        Some(t) => string_from_chars(&chars_of(t.as_str())),
        None => string_from_chars(&chars_of(paths[paths.len() - 1].as_str())),
    };
    let mut sources: Vec<String> = Vec::new();
    let mut i: usize = 0;
    while i < n
        invariant
            i <= n <= paths@.len(),
            pv == paths@.map_values(|s: String| s@),
            sources@.map_values(|s: String| s@) == pv.take(i as int),
        decreases n - i,
    {
        let ghost s0 = sources@.map_values(|s: String| s@);
        sources.push(string_from_chars(&chars_of(paths[i].as_str())));
        assert(pv[i as int] == paths@[i as int]@);
        assert(sources@.map_values(|s: String| s@) =~= s0.push(pv[i as int]));
        assert(sources@.map_values(|s: String| s@) =~= pv.take(i + 1));
        i = i + 1;
    }
    proof {
        if b.target_dir is Some {
            assert(pv.take(n as int) =~= pv);
        } else {
            assert(pv.take(n as int) =~= pv.drop_last());
        }
    }
    Ok(StandardPlan::Multi(dir, sources))
}

/// Where `install SOURCE DEST` copies `from`: to `to` itself, or, when `to`
/// is a directory (and `-T` is not given), to the file of the same name in
/// it; or the error: with `-T`, a directory cannot be replaced by a file;
/// a directory is not installed as a file.
pub fn single_destination(no_target_dir: bool, from: &str, to: &str, from_is_dir: bool, to_is_dir: bool) -> (r: Result<String, String>)
    ensures
        no_target_dir && to_is_dir ==> (r matches Err(m) && m@ == "cannot create regular file "@ + quoted(to@)
            + ": Is a directory"@),
        no_target_dir && !to_is_dir ==> (r matches Ok(d) && d@ == to@),
        !no_target_dir && to_is_dir ==> (if from_is_dir || file_name_spec(from@) is None {
            r matches Err(m) && m@ == "omitting directory "@ + quoted(from@)
        } else {
            r matches Ok(d) && d@ == join_spec(to@, file_name_spec(from@)->0)
        }),
        !no_target_dir && !to_is_dir ==> (r matches Ok(d) && d@ == to@),
{
    if no_target_dir {
        if to_is_dir {
            let mut v = chars_of("cannot create regular file ");
            push_quoted(&mut v, to);
            push_str(&mut v, ": Is a directory");
            return Err(string_from_chars(&v));
        }
        return Ok(string_from_chars(&chars_of(to)));
    }
    if to_is_dir {
        let name = if from_is_dir { None } else { file_name_of(from) };
        match name {
            None => {
                let mut v = chars_of("omitting directory ");
                push_quoted(&mut v, from);
                Err(string_from_chars(&v))
            },
            Some(n) => Ok(join_path(to, n.as_str())),
        }
    } else {
        Ok(string_from_chars(&chars_of(to)))
    }
}

/// Where `install SOURCE... DIRECTORY` copies `from`: the file of the same
/// name in the directory; nothing for a path without a last part; the
/// error for a directory.
pub fn multi_destination(target_dir: &str, from: &str, from_is_dir: bool) -> (r: Result<Option<String>, String>)
    ensures
        from_is_dir ==> (r matches Err(m) && m@ == "omitting directory "@ + quoted(from@)),
        !from_is_dir ==> match file_name_spec(from@) {
            Some(n) => r matches Ok(Some(d)) && d@ == join_spec(target_dir@, n),
            None => r matches Ok(None),
        },
{
    if from_is_dir {
        let mut v = chars_of("omitting directory ");
        push_quoted(&mut v, from);
        return Err(string_from_chars(&v));
    }
    match file_name_of(from) {
        None => Ok(None),
        Some(n) => Ok(Some(join_path(target_dir, n.as_str()))),
    }
}

/// The line of `-v` for a file installed, with its backup if one was made.
pub fn verbose_copy_line(from: &str, to: &str, backup: Option<&str>) -> (r: String)
    ensures
        r@ == quoted(from@) + " -> "@ + quoted(to@) + match backup {
            Some(b) => " (backup: "@ + quoted(b@) + ")"@,
            None => Seq::empty(),
        } + "\n"@,
{
    let mut v: Vec<char> = Vec::new();
    push_quoted(&mut v, from);
    push_str(&mut v, " -> ");
    push_quoted(&mut v, to);
    let ghost v0 = v@;
    match backup {
        Some(b) => {
            push_str(&mut v, " (backup: ");
            push_quoted(&mut v, b);
            push_str(&mut v, ")");
        },
        None => {},
    }
    push_str(&mut v, "\n");
    assert(v@ =~= quoted(from@) + " -> "@ + quoted(to@) + match backup {
        Some(b) => " (backup: "@ + quoted(b@) + ")"@,
        None => Seq::empty(),
    } + "\n"@);
    string_from_chars(&v)
}

/// The line of `-v` for a directory created.
pub fn creating_directory_line(dir: &str) -> (r: String)
    ensures
        r@ == "install: creating directory "@ + quoted(dir@) + "\n"@,
{
    let mut v = chars_of("install: creating directory ");
    push_quoted(&mut v, dir);
    push_str(&mut v, "\n");
    string_from_chars(&v)
}

/// The line of `-v` for a destination replaced.
pub fn removed_line(path: &str) -> (r: String)
    ensures
        r@ == "removed "@ + quoted(path@) + "\n"@,
{
    let mut v = chars_of("removed ");
    push_quoted(&mut v, path);
    push_str(&mut v, "\n");
    string_from_chars(&v)
}

} // verus!
