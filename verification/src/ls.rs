//! `ls`: listing directory contents; the reading of its options and the
//! layout of what it prints.

use vstd::prelude::*;
use crate::text::{starts_with_chars, 
    chars_of, string_from_chars, push_str, push_chars, push_quoted, quoted, str_is, chars_from, is_digit,
    pad_start, pad_end, push_pad_start, push_pad_end, IntError, decimal, u64_decimal, digits_value, all_digits,
};

verus! {

/// The `ls` tool.
pub struct Ls;

impl Ls {
    /// Name of the tool.
    pub fn name(&self) -> (r: &'static str)
        ensures
            r@ == "ls"@,
    {
        "ls"
    }
}

/// How entries are laid out.
#[derive(PartialEq, Eq, Debug, Clone, Copy, Structural)]
pub enum LsFormat {
    /// In columns, filled downwards.
    Columns,
    /// One long line per entry.
    Long,
    /// One name per line.
    OneLine,
    /// In columns, filled across.
    Across,
    /// Separated by commas.
    Commas,
}

/// How entries are sorted.
#[derive(PartialEq, Eq, Debug, Clone, Copy, Structural)]
pub enum LsSort {
    /// Not at all.
    Unsorted,
    /// By name.
    Name,
    /// By size.
    Size,
    /// By time.
    Time,
    /// By version.
    Version,
    /// By extension.
    Extension,
    /// By width of the name.
    Width,
}

/// Which entries are listed.
#[derive(PartialEq, Eq, Debug, Clone, Copy, Structural)]
pub enum LsFiles {
    /// All, `.` and `..` included (`-a`).
    LsAll,
    /// All but `.` and `..` (`-A`).
    LsAlmostAll,
    /// Those not beginning with `.`.
    LsNormal,
}

/// Which time is shown and sorted by.
#[derive(PartialEq, Eq, Debug, Clone, Copy, Structural)]
pub enum LsTime {
    /// Last modification.
    LsModification,
    /// Last access.
    LsAccess,
    /// Last change of status.
    LsChange,
    /// Creation.
    LsBirth,
}

/// How times are written.
#[derive(PartialEq, Eq, Debug)]
pub enum LsTimeStyle {
    /// `full-iso`.
    LsFullIso,
    /// `long-iso`.
    LsLongIso,
    /// `iso`.
    LsIso,
    /// `locale`.
    LsLocale,
    /// `+FORMAT`.
    LsFormat(String),
}

/// What is written after a name to show the type of its file.
#[derive(PartialEq, Eq, Debug, Clone, Copy, Structural)]
pub enum LsIndicatorStyle {
    /// Nothing.
    NoIndicator,
    /// `/` after directories.
    Slash,
    /// The type of each file but executables.
    FileType,
    /// The type of each file.
    Classify,
}

/// How sizes are written.
#[derive(PartialEq, Eq, Debug, Clone, Copy, Structural)]
pub enum LsSizeFormat {
    /// In bytes or blocks.
    Bytes,
    /// With powers of 1024 (`-h`).
    Binary,
    /// With powers of 1000 (`--si`).
    Decimal,
}

/// Which symbolic links are followed.
#[derive(PartialEq, Eq, Debug, Clone, Copy, Structural)]
pub enum LsDereference {
    /// None.
    LsNone,
    /// Those given as operands that name directories.
    LsDirArgs,
    /// Those given as operands.
    LsArgs,
    /// All.
    LsAll,
}

/// How names are quoted.
#[derive(PartialEq, Eq, Debug, Clone, Copy, Structural)]
pub enum QuotingStyle {
    /// As they are.
    Literal { show_control: bool },
    /// As a shell reads them.
    Shell { escape: bool, always_quote: bool, show_control: bool },
    /// As C strings, with double quotes or none.
    C { double_quotes: bool },
}

/// The format that a `--format` value names.
pub open spec fn format_of(f: Seq<char>) -> Option<LsFormat> {
    if f == "long"@ || f == "verbose"@ {
        Some(LsFormat::Long)
    } else if f == "single-column"@ {
        Some(LsFormat::OneLine)
    } else if f == "columns"@ || f == "vertical"@ {
        Some(LsFormat::Columns)
    } else if f == "across"@ || f == "horizontal"@ {
        Some(LsFormat::Across)
    } else if f == "commas"@ {
        Some(LsFormat::Commas)
    } else {
        None
    }
}

/// The format that a `--format` value names (one that the command line
/// accepts).
pub fn ls_format_str_to_type(f: &str) -> (r: LsFormat)
    requires
        format_of(f@) is Some,
    ensures
        format_of(f@) == Some(r),
{
    if str_is(f, "long") || str_is(f, "verbose") {
        LsFormat::Long
    } else if str_is(f, "single-column") {
        LsFormat::OneLine
    } else if str_is(f, "columns") || str_is(f, "vertical") {
        LsFormat::Columns
    } else if str_is(f, "across") || str_is(f, "horizontal") {
        LsFormat::Across
    } else {
        LsFormat::Commas
    }
}

/// The sort that a `--sort` value names.
pub open spec fn sort_of(f: Seq<char>) -> Option<LsSort> {
    if f == "none"@ {
        Some(LsSort::Unsorted)
    } else if f == "name"@ {
        Some(LsSort::Name)
    } else if f == "time"@ {
        Some(LsSort::Time)
    } else if f == "version"@ {
        Some(LsSort::Version)
    } else if f == "extension"@ {
        Some(LsSort::Extension)
    } else if f == "size"@ {
        Some(LsSort::Size)
    } else if f == "width"@ {
        Some(LsSort::Width)
    } else {
        None
    }
}

/// The sort that a `--sort` value names (one that the command line accepts).
pub fn sort_str_to_type(field_str: &str) -> (r: LsSort)
    requires
        sort_of(field_str@) is Some,
    ensures
        sort_of(field_str@) == Some(r),
{
    if str_is(field_str, "none") {
        LsSort::Unsorted
    } else if str_is(field_str, "name") {
        LsSort::Name
    } else if str_is(field_str, "time") {
        LsSort::Time
    } else if str_is(field_str, "version") {
        LsSort::Version
    } else if str_is(field_str, "extension") {
        LsSort::Extension
    } else if str_is(field_str, "size") {
        LsSort::Size
    } else {
        LsSort::Width
    }
}

/// The indicator style that an `--indicator-style` value names (`none`
/// for any other).
pub open spec fn indicator_of(f: Seq<char>) -> LsIndicatorStyle {
    if f == "file-type"@ {
        LsIndicatorStyle::FileType
    } else if f == "classify"@ {
        LsIndicatorStyle::Classify
    } else if f == "slash"@ {
        LsIndicatorStyle::Slash
    } else {
        LsIndicatorStyle::NoIndicator
    }
}

/// The indicator style that an `--indicator-style` value names.
pub fn indicator_str_to_type(field: &str) -> (r: LsIndicatorStyle)
    ensures
        r == indicator_of(field@),
{
    if str_is(field, "file-type") {
        LsIndicatorStyle::FileType
    } else if str_is(field, "classify") {
        LsIndicatorStyle::Classify
    } else if str_is(field, "slash") {
        LsIndicatorStyle::Slash
    } else {
        LsIndicatorStyle::NoIndicator
    }
}

/// The time that a `--time` value names.
pub open spec fn time_of(f: Seq<char>) -> Option<LsTime> {
    if f == "ctime"@ || f == "status"@ {
        Some(LsTime::LsChange)
    } else if f == "access"@ || f == "atime"@ || f == "use"@ {
        Some(LsTime::LsAccess)
    } else if f == "birth"@ || f == "creation"@ {
        Some(LsTime::LsBirth)
    } else if f == "mtime"@ || f == "modification"@ {
        Some(LsTime::LsModification)
    } else {
        None
    }
}

/// The time to show: that of `--time`, else `-u` (access), else `-c`
/// (change), else modification.
pub fn extract_time(time: Option<&str>, access: bool, change: bool) -> (r: LsTime)
    requires
        time matches Some(t) ==> time_of(t@) is Some,
    ensures
        r == match time {
            Some(t) => time_of(t@)->0,
            None => if access { LsTime::LsAccess } else if change { LsTime::LsChange } else { LsTime::LsModification },
        },
{
    match time {
        Some(t) => {
            if str_is(t, "ctime") || str_is(t, "status") {
                LsTime::LsChange
            } else if str_is(t, "access") || str_is(t, "atime") || str_is(t, "use") {
                LsTime::LsAccess
            } else if str_is(t, "birth") || str_is(t, "creation") {
                LsTime::LsBirth
            } else {
                LsTime::LsModification
            }
        },
        None => {
            if access {
                LsTime::LsAccess
            } else if change {
                LsTime::LsChange
            } else {
                LsTime::LsModification
            }
        },
    }
}

/// Each `--format` word names its layout: `long` and `verbose` the long
/// format, `single-column` one name per line, `columns` and `vertical`
/// columns, `across` and `horizontal` rows, `commas` the comma format.
pub proof fn law_each_format_word_names_its_format()
    ensures
        format_of("long"@) == Some(LsFormat::Long),
        format_of("verbose"@) == Some(LsFormat::Long),
        format_of("single-column"@) == Some(LsFormat::OneLine),
        format_of("columns"@) == Some(LsFormat::Columns),
        format_of("vertical"@) == Some(LsFormat::Columns),
        format_of("across"@) == Some(LsFormat::Across),
        format_of("horizontal"@) == Some(LsFormat::Across),
        format_of("commas"@) == Some(LsFormat::Commas),
{
    reveal_strlit("long");
    reveal_strlit("verbose");
    reveal_strlit("single-column");
    reveal_strlit("columns");
    reveal_strlit("vertical");
    reveal_strlit("across");
    reveal_strlit("horizontal");
    reveal_strlit("commas");
    assert("long"@.len() != "verbose"@.len());
    assert("long"@.len() != "single-column"@.len());
    assert("long"@.len() != "columns"@.len());
    assert("long"@.len() != "vertical"@.len());
    assert("long"@.len() != "across"@.len());
    assert("long"@.len() != "horizontal"@.len());
    assert("long"@.len() != "commas"@.len());
    assert("verbose"@.len() != "single-column"@.len());
    assert("verbose"@[0] != "columns"@[0]);
    assert("verbose"@.len() != "vertical"@.len());
    assert("verbose"@.len() != "across"@.len());
    assert("verbose"@.len() != "horizontal"@.len());
    assert("verbose"@.len() != "commas"@.len());
    assert("single-column"@.len() != "columns"@.len());
    assert("single-column"@.len() != "vertical"@.len());
    assert("single-column"@.len() != "across"@.len());
    assert("single-column"@.len() != "horizontal"@.len());
    assert("single-column"@.len() != "commas"@.len());
    assert("columns"@.len() != "vertical"@.len());
    assert("columns"@.len() != "across"@.len());
    assert("columns"@.len() != "horizontal"@.len());
    assert("columns"@.len() != "commas"@.len());
    assert("vertical"@.len() != "across"@.len());
    assert("vertical"@.len() != "horizontal"@.len());
    assert("vertical"@.len() != "commas"@.len());
    assert("across"@.len() != "horizontal"@.len());
    assert("across"@[0] != "commas"@[0]);
    assert("horizontal"@.len() != "commas"@.len());
}

/// Each `--time` word names its time: `ctime` and `status` the change
/// time, `access`, `atime` and `use` the access time, `birth` and
/// `creation` the birth time, `mtime` and `modification` the modification
/// time.
pub proof fn law_each_time_word_names_its_time()
    ensures
        time_of("ctime"@) == Some(LsTime::LsChange),
        time_of("status"@) == Some(LsTime::LsChange),
        time_of("access"@) == Some(LsTime::LsAccess),
        time_of("atime"@) == Some(LsTime::LsAccess),
        time_of("use"@) == Some(LsTime::LsAccess),
        time_of("birth"@) == Some(LsTime::LsBirth),
        time_of("creation"@) == Some(LsTime::LsBirth),
        time_of("mtime"@) == Some(LsTime::LsModification),
        time_of("modification"@) == Some(LsTime::LsModification),
{
    reveal_strlit("ctime");
    reveal_strlit("status");
    reveal_strlit("access");
    reveal_strlit("atime");
    reveal_strlit("use");
    reveal_strlit("birth");
    reveal_strlit("creation");
    reveal_strlit("mtime");
    reveal_strlit("modification");
    assert("ctime"@.len() != "status"@.len());
    assert("ctime"@.len() != "access"@.len());
    assert("ctime"@[0] != "atime"@[0]);
    assert("ctime"@.len() != "use"@.len());
    assert("ctime"@[0] != "birth"@[0]);
    assert("ctime"@.len() != "creation"@.len());
    assert("ctime"@[0] != "mtime"@[0]);
    assert("ctime"@.len() != "modification"@.len());
    assert("status"@[0] != "access"@[0]);
    assert("status"@.len() != "atime"@.len());
    assert("status"@.len() != "use"@.len());
    assert("status"@.len() != "birth"@.len());
    assert("status"@.len() != "creation"@.len());
    assert("status"@.len() != "mtime"@.len());
    assert("status"@.len() != "modification"@.len());
    assert("access"@.len() != "atime"@.len());
    assert("access"@.len() != "use"@.len());
    assert("access"@.len() != "birth"@.len());
    assert("access"@.len() != "creation"@.len());
    assert("access"@.len() != "mtime"@.len());
    assert("access"@.len() != "modification"@.len());
    assert("atime"@.len() != "use"@.len());
    assert("atime"@[0] != "birth"@[0]);
    assert("atime"@.len() != "creation"@.len());
    assert("atime"@[0] != "mtime"@[0]);
    assert("atime"@.len() != "modification"@.len());
    assert("use"@.len() != "birth"@.len());
    assert("use"@.len() != "creation"@.len());
    assert("use"@.len() != "mtime"@.len());
    assert("use"@.len() != "modification"@.len());
    assert("birth"@.len() != "creation"@.len());
    assert("birth"@[0] != "mtime"@[0]);
    assert("birth"@.len() != "modification"@.len());
    assert("creation"@.len() != "mtime"@.len());
    assert("creation"@.len() != "modification"@.len());
    assert("mtime"@.len() != "modification"@.len());
}

/// Each `--indicator-style` word names its style: `file-type`, `classify`,
/// `slash`, and `none` for no indicator.
pub proof fn law_each_indicator_word_names_its_style()
    ensures
        indicator_of("file-type"@) == LsIndicatorStyle::FileType,
        indicator_of("classify"@) == LsIndicatorStyle::Classify,
        indicator_of("slash"@) == LsIndicatorStyle::Slash,
        indicator_of("none"@) == LsIndicatorStyle::NoIndicator,
{
    reveal_strlit("file-type");
    reveal_strlit("classify");
    reveal_strlit("slash");
    reveal_strlit("none");
    assert("file-type"@.len() != "classify"@.len());
    assert("file-type"@.len() != "slash"@.len());
    assert("file-type"@.len() != "none"@.len());
    assert("classify"@.len() != "slash"@.len());
    assert("classify"@.len() != "none"@.len());
    assert("slash"@.len() != "none"@.len());
}

/// Each `--quoting-style` word names its style: `literal` as is; `shell`
/// quoted only where needed, `shell-always` always, and the `-escape`
/// forms escaping what cannot be shown; `c` as C strings in double quotes,
/// `escape` the same without the quotes.
pub proof fn law_each_quoting_word_names_its_style(show_control: bool)
    ensures
        quoting_style_of("literal"@, show_control) == Some(QuotingStyle::Literal { show_control }),
        quoting_style_of("shell"@, show_control) == Some(QuotingStyle::Shell { escape: false, always_quote: false, show_control }),
        quoting_style_of("shell-always"@, show_control) == Some(QuotingStyle::Shell { escape: false, always_quote: true, show_control }),
        quoting_style_of("shell-escape"@, show_control) == Some(QuotingStyle::Shell { escape: true, always_quote: false, show_control }),
        quoting_style_of("shell-escape-always"@, show_control) == Some(QuotingStyle::Shell { escape: true, always_quote: true, show_control }),
        quoting_style_of("c"@, show_control) == Some(QuotingStyle::C { double_quotes: true }),
        quoting_style_of("escape"@, show_control) == Some(QuotingStyle::C { double_quotes: false }),
{
    reveal_strlit("literal");
    reveal_strlit("shell");
    reveal_strlit("shell-always");
    reveal_strlit("shell-escape");
    reveal_strlit("shell-escape-always");
    reveal_strlit("c");
    reveal_strlit("escape");
    assert("literal"@.len() != "shell"@.len());
    assert("literal"@.len() != "shell-always"@.len());
    assert("literal"@.len() != "shell-escape"@.len());
    assert("literal"@.len() != "shell-escape-always"@.len());
    assert("literal"@.len() != "c"@.len());
    assert("literal"@.len() != "escape"@.len());
    assert("shell"@.len() != "shell-always"@.len());
    assert("shell"@.len() != "shell-escape"@.len());
    assert("shell"@.len() != "shell-escape-always"@.len());
    assert("shell"@.len() != "c"@.len());
    assert("shell"@.len() != "escape"@.len());
    assert("shell-always"@[6] != "shell-escape"@[6]);
    assert("shell-always"@.len() != "shell-escape-always"@.len());
    assert("shell-always"@.len() != "c"@.len());
    assert("shell-always"@.len() != "escape"@.len());
    assert("shell-escape"@.len() != "shell-escape-always"@.len());
    assert("shell-escape"@.len() != "c"@.len());
    assert("shell-escape"@.len() != "escape"@.len());
    assert("shell-escape-always"@.len() != "c"@.len());
    assert("shell-escape-always"@.len() != "escape"@.len());
    assert("c"@.len() != "escape"@.len());
}

/// `s` padded with spaces on the left to `cnt` characters
/// (`format!("{s:>cnt$}")`).
pub fn pad_left(string: &str, cnt: usize) -> (r: String)
    ensures
        r@ == pad_start(string@, cnt as nat),
{
    let mut v: Vec<char> = Vec::new();
    let cs = chars_of(string);
    push_pad_start(&mut v, &cs, cnt);
    string_from_chars(&v)
}

/// `s` padded with spaces on the right to `cnt` characters
/// (`format!("{s:<cnt$}")`).
pub fn pad_right(string: &str, cnt: usize) -> (r: String)
    ensures
        r@ == pad_end(string@, cnt as nat),
{
    let mut v: Vec<char> = Vec::new();
    let cs = chars_of(string);
    push_pad_end(&mut v, &cs, cnt);
    string_from_chars(&v)
}

/// The quoting style that a `--quoting-style` value (or the value of
/// `QUOTING_STYLE`) names.
pub open spec fn quoting_style_of(style: Seq<char>, show_control: bool) -> Option<QuotingStyle> {
    if style == "literal"@ {
        Some(QuotingStyle::Literal { show_control })
    } else if style == "shell"@ {
        Some(QuotingStyle::Shell { escape: false, always_quote: false, show_control })
    } else if style == "shell-always"@ {
        Some(QuotingStyle::Shell { escape: false, always_quote: true, show_control })
    } else if style == "shell-escape"@ {
        Some(QuotingStyle::Shell { escape: true, always_quote: false, show_control })
    } else if style == "shell-escape-always"@ {
        Some(QuotingStyle::Shell { escape: true, always_quote: true, show_control })
    } else if style == "c"@ {
        Some(QuotingStyle::C { double_quotes: true })
    } else if style == "escape"@ {
        Some(QuotingStyle::C { double_quotes: false })
    } else {
        None
    }
}

/// The quoting style that a name names, if it names one.
pub fn match_quoting_style_name(style: &str, show_control: bool) -> (r: Option<QuotingStyle>)
    ensures
        r == quoting_style_of(style@, show_control),
{
    if str_is(style, "literal") {
        Some(QuotingStyle::Literal { show_control })
    } else if str_is(style, "shell") {
        Some(QuotingStyle::Shell { escape: false, always_quote: false, show_control })
    } else if str_is(style, "shell-always") {
        Some(QuotingStyle::Shell { escape: false, always_quote: true, show_control })
    } else if str_is(style, "shell-escape") {
        Some(QuotingStyle::Shell { escape: true, always_quote: false, show_control })
    } else if str_is(style, "shell-escape-always") {
        Some(QuotingStyle::Shell { escape: true, always_quote: true, show_control })
    } else if str_is(style, "c") {
        Some(QuotingStyle::C { double_quotes: true })
    } else if str_is(style, "escape") {
        Some(QuotingStyle::C { double_quotes: false })
    } else {
        None
    }
}

/// Digits in base `radix` (8 or 10) read from the left onto `acc`; the
/// first character that is no such digit, or the first step above `max`,
/// is the error.
pub open spec fn scan_radix(s: Seq<char>, acc: int, radix: int, max: int) -> Result<int, IntError>
    decreases s.len(),
{
    if s.len() == 0 {
        Ok(acc)
    } else if !(is_digit(s[0]) && (s[0] as u32 - '0' as u32) < radix) {
        Err(IntError::InvalidDigit)
    } else {
        let next = acc * radix + (s[0] as u32 - '0' as u32) as int;
        if next > max {
            Err(IntError::PosOverflow)
        } else {
            scan_radix(s.skip(1), next, radix, max)
        }
    }
}

/// What `u16::from_str_radix` gives (for base 8 or 10).
pub open spec fn parse_u16_radix(s: Seq<char>, radix: int) -> Result<int, IntError> {
    if s.len() == 0 {
        Err(IntError::Empty)
    } else if (s[0] == '+' || s[0] == '-') && s.len() == 1 {
        Err(IntError::InvalidDigit)
    } else if s[0] == '+' {
        scan_radix(s.skip(1), 0, radix, 65535)
    } else {
        scan_radix(s, 0, radix, 65535)
    }
}

/// Reads a `u16` in base 8 or 10, as `u16::from_str_radix` does.
fn parse_u16_radix_exec(s: &[char], radix: u32) -> (r: Result<u16, IntError>)
    requires
        radix == 8 || radix == 10,
    ensures
        match parse_u16_radix(s@, radix as int) {
            Ok(v) => r matches Ok(x) && x as int == v,
            Err(e) => r == Err::<u16, IntError>(e),
        },
{
    if s.len() == 0 {
        return Err(IntError::Empty);
    }
    if (s[0] == '+' || s[0] == '-') && s.len() == 1 {
        return Err(IntError::InvalidDigit);
    }
    let start: usize = if s[0] == '+' { 1 } else { 0 };
    let ghost body = s@.skip(start as int);
    proof {
        if start == 0 {
            assert(s@.skip(0) =~= s@);
        }
    }
    assert(parse_u16_radix(s@, radix as int) == scan_radix(body, 0, radix as int, 65535));
    let mut acc: u32 = 0;
    let mut i: usize = start;
    while i < s.len()
        invariant
            start <= i <= s@.len(),
            body == s@.skip(start as int),
            radix == 8 || radix == 10,
            acc <= 65535,
            parse_u16_radix(s@, radix as int) == scan_radix(body, 0, radix as int, 65535),
            scan_radix(s@.skip(i as int), acc as int, radix as int, 65535) == scan_radix(body, 0, radix as int, 65535),
        decreases s@.len() - i,
    {
        let c = s[i];
        assert(s@.skip(i as int)[0] == c);
        assert(s@.skip(i as int).skip(1) =~= s@.skip(i + 1));
        if !('0' <= c && c <= '9' && (c as u32 - '0' as u32) < radix) {
            return Err(IntError::InvalidDigit);
        }
        assert(acc * radix <= 655350) by (nonlinear_arith)
            requires
                acc <= 65535,
                radix <= 10,
        ;
        let next = acc * radix + (c as u32 - '0' as u32);
        if next > 65535 {
            return Err(IntError::PosOverflow);
        }
        acc = next;
        i = i + 1;
    }
    assert(s@.skip(i as int) =~= Seq::<char>::empty());
    Ok(acc as u16)
}

/// The errors of `ls`.
#[derive(Debug)]
pub enum LsError {
    /// A `--width` that is no width.
    LsInvalidLineWidth(String),
    /// Another input or output error, with its description.
    LsIOError(String),
    /// A `--block-size` that is no size.
    LsBlockSizeParseError(String),
    /// `--dired` without the long format.
    LsConflictingArgumentDired,
    /// `--dired` with `--zero`.
    LsDiredAndZeroAreIncompatible,
    /// A directory met again while recursing.
    LsAlreadyListedError(String),
    /// A `--time-style` that is no style.
    LsTimeStyleParseError(String),
    /// An operation on a path failed: the kind of failure, the system's
    /// error number (1 when there is none), the path, whether the path is a
    /// directory, the failure's own description in debugging form, and
    /// whether the path was named on the command line.
    LsIOErrorContext(IoFailure, i32, String, bool, String, bool),
}

/// The kinds of failed operations on a path that the messages tell apart.
#[derive(Debug, Clone, Copy, PartialEq, Eq, Structural)]
pub enum IoFailure {
    /// The path does not exist.
    NotFound,
    /// The operation is not allowed.
    PermissionDenied,
    /// Any other failure.
    Other,
}

/// How the debugging form (`{:?}`) writes a string: in double quotes, with
/// its special characters escaped.
pub uninterp spec fn debug_text(s: Seq<char>) -> Seq<char>;

/// `format!("{:?}", s)` on a string slice: claims only that the result is
/// the debugging form of the string's characters.
#[verifier::external_body]
fn debug_string(s: &str) -> (r: String)
    ensures
        r@ == debug_text(s@),
{
    format!("{:?}", s)
}

/// The message for a failed operation on path `p`.
pub open spec fn io_context_text(kind: IoFailure, errno: i32, p: Seq<char>, is_dir: bool, detail: Seq<char>) -> Seq<char> {
    match kind {
        IoFailure::NotFound => "cannot access "@ + quoted(p) + ": No such file or directory"@,
        IoFailure::PermissionDenied => if errno == 1 {
            "cannot access "@ + quoted(p) + ": Operation not permitted"@
        } else if is_dir {
            "cannot open directory "@ + quoted(p) + ": Permission denied"@
        } else {
            "cannot open file "@ + quoted(p) + ": Permission denied"@
        },
        IoFailure::Other => if errno == 9 {
            "cannot open directory "@ + quoted(p) + ": Bad file descriptor"@
        } else {
            "unknown io error: "@ + quoted(debug_text(p)) + ", "@ + quoted(detail)
        },
    }
}

/// The exit code of an error.
pub open spec fn ls_error_code(e: LsError) -> i32 {
    match e {
        LsError::LsIOError(_) => 1,
        LsError::LsConflictingArgumentDired => 1,
        LsError::LsIOErrorContext(_, _, _, _, _, command_line) => if command_line { 2 } else { 1 },
        _ => 2,
    }
}

/// The message of an error.
pub open spec fn ls_error_text(e: LsError) -> Seq<char> {
    match e {
        LsError::LsInvalidLineWidth(s) => "invalid line width: "@ + quoted(s@),
        LsError::LsIOError(m) => "general io error: "@ + m@,
        LsError::LsBlockSizeParseError(s) => "invalid --block-size argument "@ + quoted(s@),
        LsError::LsConflictingArgumentDired => "--dired requires --format=long"@,
        LsError::LsDiredAndZeroAreIncompatible => "--dired and --zero are incompatible"@,
        LsError::LsAlreadyListedError(p) => p@ + ": not listing already-listed directory"@,
        LsError::LsTimeStyleParseError(s) => "invalid --time-style argument "@ + quoted(s@)
            + "\nPossible values are: [\"full-iso\", \"long-iso\", \"iso\", \"locale\", \"+FORMAT (e.g., +%H:%M) for a 'date'-style format\"]\n\nFor more information try --help"@,
        LsError::LsIOErrorContext(kind, errno, p, is_dir, detail, _) => io_context_text(kind, errno, p@, is_dir, detail@),
    }
}

impl LsError {
    /// The exit code of the error.
    pub fn code(&self) -> (r: i32)
        ensures
            r == ls_error_code(*self),
    {
        match self {
            LsError::LsIOError(_) => 1,
            LsError::LsConflictingArgumentDired => 1,
            LsError::LsIOErrorContext(_, _, _, _, _, command_line) => if *command_line { 2 } else { 1 },
            _ => 2,
        }
    }

    /// The message of the error.
    pub fn message(&self) -> (r: String)
        ensures
            r@ == ls_error_text(*self),
    {
        let mut v: Vec<char> = Vec::new();
        match self {
            LsError::LsInvalidLineWidth(s) => {
                push_str(&mut v, "invalid line width: ");
                push_quoted(&mut v, s.as_str());
            },
            LsError::LsIOError(m) => {
                push_str(&mut v, "general io error: ");
                push_str(&mut v, m.as_str());
            },
            LsError::LsBlockSizeParseError(s) => {
                push_str(&mut v, "invalid --block-size argument ");
                push_quoted(&mut v, s.as_str());
            },
            LsError::LsConflictingArgumentDired => {
                push_str(&mut v, "--dired requires --format=long");
            },
            LsError::LsDiredAndZeroAreIncompatible => {
                push_str(&mut v, "--dired and --zero are incompatible");
            },
            LsError::LsAlreadyListedError(p) => {
                push_str(&mut v, p.as_str());
                push_str(&mut v, ": not listing already-listed directory");
            },
            LsError::LsTimeStyleParseError(s) => {
                push_str(&mut v, "invalid --time-style argument ");
                push_quoted(&mut v, s.as_str());
                push_str(
                    &mut v,
                    "\nPossible values are: [\"full-iso\", \"long-iso\", \"iso\", \"locale\", \"+FORMAT (e.g., +%H:%M) for a 'date'-style format\"]\n\nFor more information try --help",
                );
            },
            LsError::LsIOErrorContext(kind, errno, p, is_dir, detail, _) => {
                match kind {
                    IoFailure::NotFound => {
                        push_str(&mut v, "cannot access ");
                        push_quoted(&mut v, p.as_str());
                        push_str(&mut v, ": No such file or directory");
                    },
                    IoFailure::PermissionDenied => {
                        if *errno == 1 {
                            push_str(&mut v, "cannot access ");
                            push_quoted(&mut v, p.as_str());
                            push_str(&mut v, ": Operation not permitted");
                        } else if *is_dir {
                            push_str(&mut v, "cannot open directory ");
                            push_quoted(&mut v, p.as_str());
                            push_str(&mut v, ": Permission denied");
                        } else {
                            push_str(&mut v, "cannot open file ");
                            push_quoted(&mut v, p.as_str());
                            push_str(&mut v, ": Permission denied");
                        }
                    },
                    IoFailure::Other => {
                        if *errno == 9 {
                            push_str(&mut v, "cannot open directory ");
                            push_quoted(&mut v, p.as_str());
                            push_str(&mut v, ": Bad file descriptor");
                        } else {
                            let d = debug_string(p.as_str());
                            push_str(&mut v, "unknown io error: ");
                            push_quoted(&mut v, d.as_str());
                            push_str(&mut v, ", ");
                            push_quoted(&mut v, detail.as_str());
                        }
                    },
                }
            },
        }
        assert(v@ =~= ls_error_text(*self));
        string_from_chars(&v)
    }
}

/// What `--width` gives: the number, in base 8 when it begins with `0` and
/// has more digits; the largest width for a number too large; otherwise
/// the error.
pub open spec fn width_spec(s: Seq<char>) -> Option<int> {
    let radix: int = if s.len() > 1 && s[0] == '0' { 8 } else { 10 };
    match parse_u16_radix(s, radix) {
        Ok(v) => Some(v),
        Err(IntError::PosOverflow) => Some(65535),
        Err(_) => None,
    }
}

/// Reads the value of `--width`.
pub fn parse_width(s: &str) -> (r: Result<u16, LsError>)
    ensures
        match width_spec(s@) {
            Some(w) => r matches Ok(x) && x as int == w,
            None => r matches Err(LsError::LsInvalidLineWidth(t)) && t@ == s@,
        },
{
    let cs = chars_of(s);
    let radix: u32 = if cs.len() > 1 && cs[0] == '0' { 8 } else { 10 };
    match parse_u16_radix_exec(&cs, radix) {
        Ok(x) => Ok(x),
        Err(IntError::PosOverflow) => Ok(u16::MAX),
        Err(_) => Err(LsError::LsInvalidLineWidth(string_from_chars(&cs))),
    }
}

/// A time style as plain values: its kind (0 `full-iso`, 1 `long-iso`,
/// 2 `iso`, 3 `locale`, 4 `+FORMAT`) and the format.
pub open spec fn style_view(t: LsTimeStyle) -> (u8, Seq<char>) {
    match t {
        LsTimeStyle::LsFullIso => (0u8, Seq::empty()),
        LsTimeStyle::LsLongIso => (1u8, Seq::empty()),
        LsTimeStyle::LsIso => (2u8, Seq::empty()),
        LsTimeStyle::LsLocale => (3u8, Seq::empty()),
        LsTimeStyle::LsFormat(f) => (4u8, f@),
    }
}

/// The style that a `--time-style` value names: each leading `posix-`
/// means `locale` in the POSIX locale and is dropped otherwise; then a
/// style name, or `+` and a format.
pub open spec fn time_style_of(f: Seq<char>, posix: bool) -> Option<(u8, Seq<char>)>
    decreases f.len(),
{
    if f.len() >= 6 && f.take(6) == "posix-"@ {
        if posix { Some((3u8, Seq::empty())) } else { time_style_of(f.skip(6), posix) }
    } else if f == "full-iso"@ {
        Some((0u8, Seq::empty()))
    } else if f == "long-iso"@ {
        Some((1u8, Seq::empty()))
    } else if f == "iso"@ {
        Some((2u8, Seq::empty()))
    } else if f == "locale"@ {
        Some((3u8, Seq::empty()))
    } else if f.len() > 0 && f[0] == '+' {
        Some((4u8, f.skip(1)))
    } else {
        None
    }
}

/// The time style: `--full-time` when it comes after `--time-style` (or
/// without it); else the style that `--time-style` names, or the error;
/// `locale` without either.
pub fn ls_parse_time_style(
    style: Option<&str>,
    full_time: bool,
    full_time_last: bool,
    posix_locale: bool,
) -> (r: Result<LsTimeStyle, LsError>)
    ensures
        match style {
            Some(f) => if full_time && full_time_last {
                r matches Ok(t) && style_view(t) == (0u8, Seq::<char>::empty())
            } else {
                match time_style_of(f@, posix_locale) {
                    Some(v) => r matches Ok(t) && style_view(t) == v,
                    None => r matches Err(LsError::LsTimeStyleParseError(x)) && x@ == f@,
                }
            },
            None => r matches Ok(t) && style_view(t) == (if full_time { (0u8, Seq::<char>::empty()) } else { (3u8, Seq::<char>::empty()) }),
        },
{
    match style {
        None => {
            if full_time {
                Ok(LsTimeStyle::LsFullIso)
            } else {
                Ok(LsTimeStyle::LsLocale)
            }
        },
        Some(field) => {
            if full_time && full_time_last {
                return Ok(LsTimeStyle::LsFullIso);
            }
            let all = chars_of(field);
            let mut f = chars_of(field);
            while starts_with_chars(&f, "posix-")
                invariant
                    time_style_of(f@, posix_locale) == time_style_of(all@, posix_locale),
                    all@ == field@,
                    style == Some(field),
                    !(full_time && full_time_last),
                decreases f@.len(),
            {
                proof {
                    reveal_strlit("posix-");
                }
                assert(f@.len() >= 6 && f@.take(6) == "posix-"@);
                if posix_locale {
                    assert(time_style_of(f@, posix_locale) == Some((3u8, Seq::<char>::empty())));
                    return Ok(LsTimeStyle::LsLocale);
                }
                f = chars_from(&f, 6);
            }
            let fs = string_from_chars(&f);
            let g = fs.as_str();
            if str_is(g, "full-iso") {
                Ok(LsTimeStyle::LsFullIso)
            } else if str_is(g, "long-iso") {
                Ok(LsTimeStyle::LsLongIso)
            } else if str_is(g, "iso") {
                Ok(LsTimeStyle::LsIso)
            } else if str_is(g, "locale") {
                Ok(LsTimeStyle::LsLocale)
            } else if f.len() > 0 && f[0] == '+' {
                Ok(LsTimeStyle::LsFormat(string_from_chars(&chars_from(&f, 1))))
            } else {
                Err(LsError::LsTimeStyleParseError(string_from_chars(&all)))
            }
        },
    }
}

/// Whether the locale of times is POSIX: the first of `LC_ALL`, `LC_TIME`,
/// `LANG` that is set and not empty decides (`C` or `POSIX`); with none, it
/// is.
pub fn is_posix_locale(lc_all: Option<&str>, lc_time: Option<&str>, lang: Option<&str>) -> (r: bool)
    ensures
        r == (match lc_all {
            Some(v) if v@.len() > 0 => v@ == "C"@ || v@ == "POSIX"@,
            _ => match lc_time {
                Some(v) if v@.len() > 0 => v@ == "C"@ || v@ == "POSIX"@,
                _ => match lang {
                    Some(v) if v@.len() > 0 => v@ == "C"@ || v@ == "POSIX"@,
                    _ => true,
                },
            },
        }),
{
    if let Some(v) = lc_all {
        if chars_of(v).len() > 0 {
            return str_is(v, "C") || str_is(v, "POSIX");
        }
    }
    if let Some(v) = lc_time {
        if chars_of(v).len() > 0 {
            return str_is(v, "C") || str_is(v, "POSIX");
        }
    }
    if let Some(v) = lang {
        if chars_of(v).len() > 0 {
            return str_is(v, "C") || str_is(v, "POSIX");
        }
    }
    true
}

/// Whether names are coloured: never on a terminal that cannot show
/// colours; without `--color`, no; `--color` alone or with `always`, `yes`,
/// `force` (or empty), yes; with `auto`, `tty`, `if-tty`, when standard
/// output is a terminal; otherwise no.
pub open spec fn color_spec(compatible_term: bool, value: Option<Seq<char>>, given: bool, is_tty: bool) -> bool {
    compatible_term && match value {
        None => given,
        Some(v) => if v.len() == 0 || v == "always"@ || v == "yes"@ || v == "force"@ {
            true
        } else if v == "auto"@ || v == "tty"@ || v == "if-tty"@ {
            is_tty
        } else {
            false
        },
    }
}

/// Whether a terminal name matches a pattern of the known colour
/// terminals: the pattern itself, or the start of a pattern that ends in `*`.
pub open spec fn term_pattern_matches(term: Seq<char>, pat: Seq<char>) -> bool {
    term == pat || (pat.len() > 0 && pat.last() == '*' && term.len() >= pat.len() - 1 && term.take(pat.len() - 1)
        == pat.drop_last())
}

/// The value of `TERM`, empty when it is not set.
pub open spec fn term_text(term: Option<Seq<char>>) -> Seq<char> {
    match term {
        Some(x) => x,
        None => Seq::empty(),
    }
}

/// Whether the terminal can show colours, from `TERM` and `COLORTERM` (when
/// set) and the patterns of the known colour terminals: not when both are
/// set and empty, nor when `TERM` names a terminal that no pattern matches.
pub open spec fn color_term_spec(term: Option<Seq<char>>, colorterm: Option<Seq<char>>, pats: Seq<Seq<char>>) -> bool {
    if term is Some && term_text(term).len() == 0 && (colorterm matches Some(c) && c.len() == 0) {
        false
    } else if term_text(term).len() > 0 && !(exists|i: int|
        0 <= i < pats.len() && #[trigger] term_pattern_matches(term_text(term), pats[i])) {
        false
    } else {
        true
    }
}

/// Whether `term` matches `pat` (`term_pattern_matches`).
fn term_matches_pattern(term: &Vec<char>, pat: &str) -> (r: bool)
    ensures
        r == term_pattern_matches(term@, pat@),
{
    let pc = chars_of(pat);
    if pc.len() == term.len() {
        let mut k: usize = 0;
        let mut same = true;
        assert(pc@.take(0) =~= term@.take(0));
        while k < pc.len()
            invariant
                k <= pc@.len() == term@.len(),
                same == (pc@.take(k as int) == term@.take(k as int)),
            decreases pc@.len() - k,
        {
            if pc[k] != term[k] {
                same = false;
            }
            proof {
                assert(pc@.take(k + 1) == pc@.take(k as int).push(pc@[k as int]));
                assert(term@.take(k + 1) == term@.take(k as int).push(term@[k as int]));
                if pc@.take(k + 1) == term@.take(k + 1) {
                    assert(pc@.take(k + 1)[k as int] == term@.take(k + 1)[k as int]);
                    assert(pc@.take(k + 1).drop_last() =~= pc@.take(k as int));
                    assert(term@.take(k + 1).drop_last() =~= term@.take(k as int));
                }
            }
            k = k + 1;
        }
        assert(pc@.take(pc@.len() as int) =~= pc@);
        assert(term@.take(term@.len() as int) =~= term@);
        if same {
            return true;
        }
    }
    if pc.len() > 0 && pc[pc.len() - 1] == '*' {
        let stem = pc.len() - 1;
        if term.len() >= stem {
            let mut k: usize = 0;
            let mut same = true;
            assert(pc@.take(0) =~= term@.take(0));
            while k < stem
                invariant
                    k <= stem,
                    stem + 1 == pc@.len(),
                    stem <= term@.len(),
                    same == (pc@.take(k as int) == term@.take(k as int)),
                decreases stem - k,
            {
                if pc[k] != term[k] {
                    same = false;
                }
                proof {
                    assert(pc@.take(k + 1) == pc@.take(k as int).push(pc@[k as int]));
                    assert(term@.take(k + 1) == term@.take(k as int).push(term@[k as int]));
                    if pc@.take(k + 1) == term@.take(k + 1) {
                        assert(pc@.take(k + 1)[k as int] == term@.take(k + 1)[k as int]);
                        assert(pc@.take(k + 1).drop_last() =~= pc@.take(k as int));
                        assert(term@.take(k + 1).drop_last() =~= term@.take(k as int));
                    }
                }
                k = k + 1;
            }
            assert(pc@.drop_last() =~= pc@.take(stem as int));
            return same;
        }
    }
    false
}

/// Whether the terminal can show colours (`color_term_spec`); `patterns`
/// are those of the known colour terminals.
pub fn is_color_compatible_term(term: Option<&str>, colorterm: Option<&str>, patterns: &Vec<String>) -> (r: bool)
    ensures
        r == color_term_spec(
            match term { Some(t) => Some(t@), None => None },
            match colorterm { Some(c) => Some(c@), None => None },
            patterns@.map_values(|s: String| s@),
        ),
{
    let ghost pats = patterns@.map_values(|s: String| s@);
    let ghost tv = match term { Some(x) => Some(x@), None => None::<Seq<char>> };
    let t: Vec<char> = match term {
        Some(x) => chars_of(x),
        None => Vec::new(),
    };
    assert(t@ == term_text(tv));
    let colorterm_empty = match colorterm {
        Some(c) => chars_of(c).len() == 0,
        None => false,
    };
    if term.is_some() && t.len() == 0 && colorterm_empty {
        return false;
    }
    if t.len() == 0 {
        return true;
    }
    let mut i: usize = 0;
    while i < patterns.len()
        invariant
            i <= patterns@.len(),
            pats == patterns@.map_values(|s: String| s@),
            tv == (match term { Some(x) => Some(x@), None => None::<Seq<char>> }),
            t@ == term_text(tv),
            t@.len() > 0,
            forall|j: int| 0 <= j < i ==> !#[trigger] term_pattern_matches(term_text(tv), pats[j]),
        decreases patterns@.len() - i,
    {
        if term_matches_pattern(&t, patterns[i].as_str()) {
            assert(term_pattern_matches(term_text(tv), pats[i as int]));
            return true;
        }
        i = i + 1;
    }
    false
}

/// Whether names are coloured (`color_spec`).
pub fn extract_color(compatible_term: bool, value: Option<&str>, given: bool, is_tty: bool) -> (r: bool)
    ensures
        r == color_spec(compatible_term, match value { Some(v) => Some(v@), None => None }, given, is_tty),
{
    if !compatible_term {
        return false;
    }
    match value {
        None => given,
        Some(v) => {
            if chars_of(v).len() == 0 || str_is(v, "always") || str_is(v, "yes") || str_is(v, "force") {
                true
            } else if str_is(v, "auto") || str_is(v, "tty") || str_is(v, "if-tty") {
                is_tty
            } else {
                false
            }
        },
    }
}

/// Whether names are links: `always`, `yes`, `force`, or `auto`, `tty`,
/// `if-tty` on a terminal.
pub open spec fn hyperlink_spec(value: Seq<char>, is_tty: bool) -> bool {
    if value == "always"@ || value == "yes"@ || value == "force"@ {
        true
    } else if value == "auto"@ || value == "tty"@ || value == "if-tty"@ {
        is_tty
    } else {
        false
    }
}

/// Whether names are links (`hyperlink_spec`).
pub fn extract_hyperlink(value: &str, is_tty: bool) -> (r: bool)
    ensures
        r == hyperlink_spec(value@, is_tty),
{
    if str_is(value, "always") || str_is(value, "yes") || str_is(value, "force") {
        true
    } else if str_is(value, "auto") || str_is(value, "tty") || str_is(value, "if-tty") {
        is_tty
    } else {
        false
    }
}

/// The indicator style that the options give.
pub open spec fn indicator_spec(indicator: Option<Seq<char>>, classify: Option<Seq<char>>, slash: bool, file_type: bool, is_tty: bool) -> LsIndicatorStyle {
    match indicator {
        Some(f) => indicator_of(f),
        None => match classify {
            Some(w) => if w == "always"@ || w == "yes"@ || w == "force"@ {
                LsIndicatorStyle::Classify
            } else if (w == "auto"@ || w == "tty"@ || w == "if-tty"@) && is_tty {
                LsIndicatorStyle::Classify
            } else {
                LsIndicatorStyle::NoIndicator
            },
            None => if slash {
                LsIndicatorStyle::Slash
            } else if file_type {
                LsIndicatorStyle::FileType
            } else {
                LsIndicatorStyle::NoIndicator
            },
        },
    }
}

/// The indicator style: `--indicator-style`, else `--classify[=WHEN]`, else
/// `-p` (slash), else `--file-type`, else none.
pub fn extract_indicator_style(
    indicator: Option<&str>,
    classify: Option<&str>,
    slash: bool,
    file_type: bool,
    is_tty: bool,
) -> (r: LsIndicatorStyle)
    ensures
        r == indicator_spec(
            match indicator { Some(f) => Some(f@), None => None },
            match classify { Some(f) => Some(f@), None => None },
            slash,
            file_type,
            is_tty,
        ),
{
    match indicator {
        Some(f) => indicator_str_to_type(f),
        None => match classify {
            Some(w) => {
                if str_is(w, "always") || str_is(w, "yes") || str_is(w, "force") {
                    LsIndicatorStyle::Classify
                } else if (str_is(w, "auto") || str_is(w, "tty") || str_is(w, "if-tty")) && is_tty {
                    LsIndicatorStyle::Classify
                } else {
                    LsIndicatorStyle::NoIndicator
                }
            },
            None => {
                if slash {
                    LsIndicatorStyle::Slash
                } else if file_type {
                    LsIndicatorStyle::FileType
                } else {
                    LsIndicatorStyle::NoIndicator
                }
            },
        },
    }
}

/// Whether control characters are shown as they are: not with `-q`, yes
/// with `--show-control-chars`, otherwise unless standard output is a
/// terminal.
pub fn show_control_chars(hide: bool, show: bool, is_tty: bool) -> (r: bool)
    ensures
        r == (if hide { false } else if show { true } else { !is_tty }),
{
    if hide {
        false
    } else if show {
        true
    } else {
        !is_tty
    }
}

/// The quoting style that the options give.
pub open spec fn quoting_spec(
    style: Option<Seq<char>>,
    literal: bool,
    escape: bool,
    c: bool,
    dired: bool,
    env: Option<Seq<char>>,
    is_tty: bool,
    show_control: bool,
) -> QuotingStyle {
    match style {
        Some(s) => quoting_style_of(s, show_control)->0,
        None => if literal {
            QuotingStyle::Literal { show_control }
        } else if escape {
            QuotingStyle::C { double_quotes: false }
        } else if c {
            QuotingStyle::C { double_quotes: true }
        } else if dired {
            QuotingStyle::Literal { show_control }
        } else {
            match env {
                Some(e) if quoting_style_of(e, show_control) is Some => quoting_style_of(e, show_control)->0,
                _ => if is_tty {
                    QuotingStyle::Shell { escape: true, always_quote: false, show_control }
                } else {
                    QuotingStyle::Literal { show_control }
                },
            }
        },
    }
}

/// The quoting style: `--quoting-style`; else `-N` (literal), `-b`
/// (escape), `-Q` (C), `--dired` (literal); else the value of
/// `QUOTING_STYLE` if it names a style (with a warning when it does not);
/// else shell escaping on a terminal and literal otherwise.
pub fn extract_quoting_style(
    style: Option<&str>,
    literal: bool,
    escape: bool,
    c: bool,
    dired: bool,
    env: Option<&str>,
    is_tty: bool,
    show_control: bool,
    progname: &str,
) -> (r: (QuotingStyle, Option<String>))
    requires
        style matches Some(s) ==> quoting_style_of(s@, show_control) is Some,
    ensures
        r.0 == quoting_spec(
            match style { Some(x) => Some(x@), None => None },
            literal,
            escape,
            c,
            dired,
            match env { Some(x) => Some(x@), None => None },
            is_tty,
            show_control,
        ),
        style matches Some(s) ==> r.0 == quoting_style_of(s@, show_control)->0 && r.1 is None,
        style is None && literal ==> r.0 == (QuotingStyle::Literal { show_control }) && r.1 is None,
        style is None && !literal && escape ==> r.0 == (QuotingStyle::C { double_quotes: false }) && r.1 is None,
        style is None && !literal && !escape && c ==> r.0 == (QuotingStyle::C { double_quotes: true }) && r.1 is None,
        style is None && !literal && !escape && !c && dired ==> r.0 == (QuotingStyle::Literal { show_control }) && r.1 is None,
        style is None && !literal && !escape && !c && !dired ==> match env {
            Some(e) => match quoting_style_of(e@, show_control) {
                Some(q) => r.0 == q && r.1 is None,
                None => r.0 == (if is_tty {
                    QuotingStyle::Shell { escape: true, always_quote: false, show_control }
                } else {
                    QuotingStyle::Literal { show_control }
                }) && (r.1 matches Some(w) && w@ == progname@ + ": Ignoring invalid value of environment variable QUOTING_STYLE: '"@ + e@ + "'"@),
            },
            None => r.0 == (if is_tty {
                QuotingStyle::Shell { escape: true, always_quote: false, show_control }
            } else {
                QuotingStyle::Literal { show_control }
            }) && r.1 is None,
        },
{
    if let Some(s) = style {
        let q = match_quoting_style_name(s, show_control);
        match q {
            Some(q) => {
                return (q, None);
            },
            None => {
                return (QuotingStyle::Literal { show_control }, None);
            },
        }
    }
    if literal {
        return (QuotingStyle::Literal { show_control }, None);
    }
    if escape {
        return (QuotingStyle::C { double_quotes: false }, None);
    }
    if c {
        return (QuotingStyle::C { double_quotes: true }, None);
    }
    if dired {
        return (QuotingStyle::Literal { show_control }, None);
    }
    let mut warning: Option<String> = None;
    if let Some(e) = env {
        match match_quoting_style_name(e, show_control) {
            Some(q) => {
                return (q, None);
            },
            None => {
                let mut v = chars_of(progname);
                push_str(&mut v, ": Ignoring invalid value of environment variable QUOTING_STYLE: '");
                push_str(&mut v, e);
                push_str(&mut v, "'");
                warning = Some(string_from_chars(&v));
            },
        }
    }
    let q = if is_tty {
        QuotingStyle::Shell { escape: true, always_quote: false, show_control }
    } else {
        QuotingStyle::Literal { show_control }
    };
    (q, warning)
}

// ---------------------------------------------------------------------------
// The layout, from the options and their places on the command line
// ---------------------------------------------------------------------------

/// The format that the format options give, and which of them gave it
/// (0 none, 1 `--format`, 2 `-l`, 3 `-x`, 4 `-m`, 5 `-C`); without one, columns
/// on a terminal and one name per line otherwise.
pub open spec fn extract_format_spec(format_value: Option<Seq<char>>, long: bool, across: bool, commas: bool, columns: bool, is_tty: bool) -> (LsFormat, u8) {
    match format_value {
        Some(f) => (format_of(f)->0, 1u8),
        None => if long {
            (LsFormat::Long, 2u8)
        } else if across {
            (LsFormat::Across, 3u8)
        } else if commas {
            (LsFormat::Commas, 4u8)
        } else if columns {
            (LsFormat::Columns, 5u8)
        } else if is_tty {
            (LsFormat::Columns, 0u8)
        } else {
            (LsFormat::OneLine, 0u8)
        },
    }
}

/// The format that the format options give, and which of them gave it.
pub fn ls_extract_format(format_value: Option<&str>, long: bool, across: bool, commas: bool, columns: bool, is_tty: bool) -> (r: (LsFormat, u8))
    requires
        format_value matches Some(f) ==> format_of(f@) is Some,
    ensures
        r == extract_format_spec(match format_value { Some(f) => Some(f@), None => None }, long, across, commas, columns, is_tty),
{
    match format_value {
        Some(f) => (ls_format_str_to_type(f), 1),
        None => {
            if long {
                (LsFormat::Long, 2)
            } else if across {
                (LsFormat::Across, 3)
            } else if commas {
                (LsFormat::Commas, 4)
            } else if columns {
                (LsFormat::Columns, 5)
            } else if is_tty {
                (LsFormat::Columns, 0)
            } else {
                (LsFormat::OneLine, 0)
            }
        },
    }
}

/// Where each option last stands on the command line (0 when it is not
/// there).
#[derive(Clone, Copy, Debug)]
pub struct LsIndices {
    /// `--format`, `-l`, `-x`, `-m`, `-C`, `-1`.
    pub format: usize,
    pub long: usize,
    pub across: usize,
    pub commas: usize,
    pub columns: usize,
    pub one_line: usize,
    /// `-g`, `-o`, `-n`, `--full-time`.
    pub no_owner: usize,
    pub no_group: usize,
    pub numeric: usize,
    pub full_time: usize,
    /// `--sort`, `-t`, `-S`, `-U`, `-v`, `-X`.
    pub sort: usize,
    pub sort_time: usize,
    pub sort_size: usize,
    pub sort_none: usize,
    pub sort_version: usize,
    pub sort_extension: usize,
    /// `-a`, `-A`, `-f`.
    pub all: usize,
    pub almost_all: usize,
    pub f: usize,
    /// `--color`, `--hyperlink`, `-s`.
    pub color: usize,
    pub hyperlink: usize,
    pub alloc_size: usize,
    /// `--zero`.
    pub zero: usize,
    /// `-q`, `--show-control-chars`.
    pub hide_control: usize,
    pub show_control: usize,
    /// `--quoting-style`, `-Q`, `-b`, `-N`.
    pub quoting_style: usize,
    pub quote_c: usize,
    pub escape: usize,
    pub literal: usize,
}

/// The larger of two places.
pub open spec fn max2(a: usize, b: usize) -> usize {
    if a >= b { a } else { b }
}

/// The place of the option that gave the format.
pub open spec fn format_place(ix: LsIndices, which: u8) -> usize {
    if which == 1 { ix.format } else if which == 2 { ix.long } else if which == 3 { ix.across } else if which == 4 {
        ix.commas
    } else if which == 5 {
        ix.columns
    } else {
        0
    }
}

/// The format once `-g`, `-o`, `-n`, `--full-time` (which imply the long
/// format) and `-1` are weighed against the option that gave it: the later
/// one wins.
pub open spec fn weighed_format(format: LsFormat, which: u8, ix: LsIndices) -> LsFormat {
    let idx = format_place(ix, which);
    if format == LsFormat::Long {
        format
    } else if (ix.no_owner != 0 && ix.no_owner >= idx) || (ix.no_group != 0 && ix.no_group >= idx) || (ix.numeric != 0
        && ix.numeric >= idx) || (ix.full_time != 0 && ix.full_time >= idx) {
        LsFormat::Long
    } else if ix.one_line != 0 && ix.one_line > idx {
        LsFormat::OneLine
    } else {
        format
    }
}

/// The format once the long-format options and `-1` are weighed.
pub fn weigh_format(format: LsFormat, which: u8, ix: &LsIndices) -> (r: LsFormat)
    ensures
        r == weighed_format(format, which, *ix),
{
    let idx: usize = if which == 1 { ix.format } else if which == 2 { ix.long } else if which == 3 { ix.across } else if which == 4 {
        ix.commas
    } else if which == 5 {
        ix.columns
    } else {
        0
    };
    if format == LsFormat::Long {
        format
    } else if (ix.no_owner != 0 && ix.no_owner >= idx) || (ix.no_group != 0 && ix.no_group >= idx) || (ix.numeric != 0
        && ix.numeric >= idx) || (ix.full_time != 0 && ix.full_time >= idx) {
        LsFormat::Long
    } else if ix.one_line != 0 && ix.one_line > idx {
        LsFormat::OneLine
    } else {
        format
    }
}

/// What `-f` and `--zero` change, when they come after the options they
/// override.
#[derive(Clone, Copy, Debug, PartialEq, Eq, Structural)]
pub struct Overridden {
    /// The format.
    pub format: LsFormat,
    /// The sort.
    pub sort: LsSort,
    /// Which entries are listed.
    pub files: LsFiles,
    /// Colours.
    pub color: bool,
    /// Links.
    pub hyperlink: bool,
    /// `-s`.
    pub alloc_size: bool,
    /// Control characters shown.
    pub show_control: bool,
    /// The quoting style.
    pub quoting: QuotingStyle,
}

/// `-f` (all entries, unsorted, no colour, links or sizes, no long format)
/// and then `--zero` (one name per line unless long, no colour, control
/// characters shown, literal names), each over the options before it.
pub open spec fn overridden_spec(o: Overridden, ix: LsIndices, is_tty: bool) -> Overridden {
    let f = ix.f;
    let a = if f > 0 {
        Overridden {
            sort: if f > max2(max2(max2(ix.sort, ix.sort_time), max2(ix.sort_size, ix.sort_none)), max2(ix.sort_version, ix.sort_extension)) {
                LsSort::Unsorted
            } else {
                o.sort
            },
            files: if f > max2(ix.all, ix.almost_all) { LsFiles::LsAll } else { o.files },
            color: if f > ix.color { false } else { o.color },
            hyperlink: if f > ix.hyperlink { false } else { o.hyperlink },
            alloc_size: if f > ix.alloc_size { false } else { o.alloc_size },
            format: if o.format == LsFormat::Long && f > max2(max2(max2(ix.long, ix.format), max2(ix.no_group, ix.no_owner)), max2(ix.numeric, ix.full_time)) {
                if is_tty { LsFormat::Columns } else { LsFormat::OneLine }
            } else {
                o.format
            },
            ..o
        }
    } else {
        o
    };
    let z = ix.zero;
    let fmt_max = max2(max2(max2(ix.across, ix.columns), max2(ix.commas, ix.long)), max2(max2(ix.no_group, ix.no_owner), max2(max2(ix.numeric, ix.one_line), ix.format)));
    let b = Overridden {
        format: if z > fmt_max { if a.format == LsFormat::Long { a.format } else { LsFormat::OneLine } } else { a.format },
        color: if z > ix.color { false } else { a.color },
        show_control: if z > max2(ix.hide_control, ix.show_control) { true } else { a.show_control },
        ..a
    };
    Overridden {
        quoting: if z > max2(max2(ix.quoting_style, ix.quote_c), max2(ix.escape, ix.literal)) {
            QuotingStyle::Literal { show_control: b.show_control }
        } else {
            b.quoting
        },
        ..b
    }
}

fn max_of(a: usize, b: usize) -> (r: usize)
    ensures
        r == max2(a, b),
{
    if a >= b { a } else { b }
}

/// Applies `-f` and `--zero` over the options before them.
pub fn apply_overrides(o: Overridden, ix: &LsIndices, is_tty: bool) -> (r: Overridden)
    ensures
        r == overridden_spec(o, *ix, is_tty),
{
    let mut a = o;
    let f = ix.f;
    if f > 0 {
        let sort_max = max_of(max_of(max_of(ix.sort, ix.sort_time), max_of(ix.sort_size, ix.sort_none)), max_of(ix.sort_version, ix.sort_extension));
        if f > sort_max {
            a.sort = LsSort::Unsorted;
        }
        if f > max_of(ix.all, ix.almost_all) {
            a.files = LsFiles::LsAll;
        }
        if f > ix.color {
            a.color = false;
        }
        if f > ix.hyperlink {
            a.hyperlink = false;
        }
        if f > ix.alloc_size {
            a.alloc_size = false;
        }
        let long_max = max_of(max_of(max_of(ix.long, ix.format), max_of(ix.no_group, ix.no_owner)), max_of(ix.numeric, ix.full_time));
        if o.format == LsFormat::Long && f > long_max {
            a.format = if is_tty { LsFormat::Columns } else { LsFormat::OneLine };
        }
    }
    let z = ix.zero;
    let fmt_max = max_of(max_of(max_of(ix.across, ix.columns), max_of(ix.commas, ix.long)), max_of(max_of(ix.no_group, ix.no_owner), max_of(max_of(ix.numeric, ix.one_line), ix.format)));
    if z > fmt_max {
        if a.format != LsFormat::Long {
            a.format = LsFormat::OneLine;
        }
    }
    if z > ix.color {
        a.color = false;
    }
    if z > max_of(ix.hide_control, ix.show_control) {
        a.show_control = true;
    }
    if z > max_of(max_of(ix.quoting_style, ix.quote_c), max_of(ix.escape, ix.literal)) {
        a.quoting = QuotingStyle::Literal { show_control: a.show_control };
    }
    a
}

/// Which links are followed: `-L` all, `-H` the operands,
/// `--dereference-command-line-symlink-to-dir` the operands that name
/// directories; else none with `-d`, `--classify` or the long format, and
/// the operands that name directories otherwise.
pub fn extract_dereference(all: bool, args: bool, dir_args: bool, directory: bool, indicator: LsIndicatorStyle, format: LsFormat) -> (r: LsDereference)
    ensures
        r == (if all {
            LsDereference::LsAll
        } else if args {
            LsDereference::LsArgs
        } else if dir_args {
            LsDereference::LsDirArgs
        } else if directory || indicator == LsIndicatorStyle::Classify || format == LsFormat::Long {
            LsDereference::LsNone
        } else {
            LsDereference::LsDirArgs
        }),
{
    if all {
        LsDereference::LsAll
    } else if args {
        LsDereference::LsArgs
    } else if dir_args {
        LsDereference::LsDirArgs
    } else if directory || indicator == LsIndicatorStyle::Classify || format == LsFormat::Long {
        LsDereference::LsNone
    } else {
        LsDereference::LsDirArgs
    }
}

/// Whether `--dired` holds: only with the long format, and never with
/// `--zero`.
pub fn check_dired(dired: bool, format: LsFormat, zero: bool) -> (r: Result<bool, LsError>)
    ensures
        !(dired && format == LsFormat::Long) ==> r matches Ok(false),
        dired && format == LsFormat::Long && zero ==> r matches Err(LsError::LsDiredAndZeroAreIncompatible),
        dired && format == LsFormat::Long && !zero ==> r matches Ok(true),
{
    if dired && format == LsFormat::Long {
        if zero {
            Err(LsError::LsDiredAndZeroAreIncompatible)
        } else {
            Ok(true)
        }
    } else {
        Ok(false)
    }
}

// ---------------------------------------------------------------------------
// Sizes and width
// ---------------------------------------------------------------------------

/// Whether sizes are in powers of 1000 (`--si` or `--block-size=si`).
pub open spec fn si_spec(block_size: Option<Seq<char>>, si: bool) -> bool {
    block_size == Some("si"@) || si
}

/// Whether sizes are in powers of 1024 (`-h` or `--block-size=human-readable`).
pub open spec fn hr_spec(block_size: Option<Seq<char>>, human: bool) -> bool {
    block_size == Some("human-readable"@) || human
}

/// How sizes are written.
pub fn size_format(block_size: Option<&str>, si: bool, human: bool) -> (r: LsSizeFormat)
    ensures
        r == (if si_spec(match block_size { Some(b) => Some(b@), None => None }, si) {
            LsSizeFormat::Decimal
        } else if hr_spec(match block_size { Some(b) => Some(b@), None => None }, human) {
            LsSizeFormat::Binary
        } else {
            LsSizeFormat::Bytes
        }),
{
    let is_si = match block_size { Some(b) => str_is(b, "si"), None => false } || si;
    let is_hr = match block_size { Some(b) => str_is(b, "human-readable"), None => false } || human;
    proof {
        match block_size {
            Some(b) => {
                assert((Some(b@) == Some("si"@)) == (b@ == "si"@));
                assert((Some(b@) == Some("human-readable"@)) == (b@ == "human-readable"@));
            },
            None => {},
        }
    }
    if is_si {
        LsSizeFormat::Decimal
    } else if is_hr {
        LsSizeFormat::Binary
    } else {
        LsSizeFormat::Bytes
    }
}

/// Length of the run of decimal digits that starts a text.
pub open spec fn digit_run(s: Seq<char>) -> nat
    decreases s.len(),
{
    if s.len() > 0 && is_digit(s[0]) {
        1 + digit_run(s.skip(1))
    } else {
        0
    }
}

/// `b` to the power `e`.
pub open spec fn pow_nat(b: nat, e: nat) -> nat
    decreases e,
{
    if e == 0 { 1 } else { b * pow_nat(b, (e - 1) as nat) }
}

/// The power of a unit letter: `K` (or `k`) 1, `M` 2, `G` 3, `T` 4, `P` 5,
/// `E` 6.
pub open spec fn unit_power(c: char) -> Option<nat> {
    if c == 'K' || c == 'k' {
        Some(1)
    } else if c == 'M' {
        Some(2)
    } else if c == 'G' {
        Some(3)
    } else if c == 'T' {
        Some(4)
    } else if c == 'P' {
        Some(5)
    } else if c == 'E' {
        Some(6)
    } else {
        None
    }
}

/// The factor of a size suffix: none is 1; a unit letter alone or followed
/// by `iB` a power of 1024, followed by `B` a power of 1000.
pub open spec fn suffix_factor(u: Seq<char>) -> Option<nat> {
    if u.len() == 0 {
        Some(1)
    } else {
        match unit_power(u[0]) {
            None => None,
            Some(p) => if u.len() == 1 || u.skip(1) == "iB"@ {
                Some(pow_nat(1024, p))
            } else if u.skip(1) == "B"@ {
                Some(pow_nat(1000, p))
            } else {
                None
            },
        }
    }
}

/// A size as `--block-size` and the environment write it: a decimal number
/// (1 when only a unit is written) times the factor of its suffix; `None`
/// for anything else, or for a size beyond 64 bits.
pub open spec fn size_spec(s: Seq<char>) -> Option<nat> {
    let d = digit_run(s);
    let unit = s.skip(d as int);
    if d == 0 && unit.len() == 0 {
        None
    } else {
        let n = if d == 0 { 1 } else { digits_value(s.take(d as int)) };
        match suffix_factor(unit) {
            None => None,
            Some(f) => if n * f <= u64::MAX { Some(n * f) } else { None },
        }
    }
}

proof fn lemma_pow_pos(b: nat, e: nat)
    requires
        b >= 1,
    ensures
        pow_nat(b, e) >= 1,
    decreases e,
{
    if e > 0 {
        lemma_pow_pos(b, (e - 1) as nat);
        let q = pow_nat(b, (e - 1) as nat);
        assert(b * q >= 1) by (nonlinear_arith)
            requires
                b >= 1,
                q >= 1,
        ;
    }
}

proof fn lemma_digit_run(s: Seq<char>, i: int)
    requires
        0 <= i <= s.len(),
        all_digits(s.take(i)),
        i == s.len() || !is_digit(s[i]),
    ensures
        digit_run(s) == i,
    decreases i,
{
    if i > 0 {
        assert(s.take(i)[0] == s[0]);
        assert(s.skip(1).take(i - 1) =~= s.take(i).skip(1));
        assert(all_digits(s.skip(1).take(i - 1))) by {
            assert forall|j: int| 0 <= j < i - 1 implies is_digit(#[trigger] s.skip(1).take(i - 1)[j]) by {
                assert(s.skip(1).take(i - 1)[j] == s.take(i)[j + 1]);
            }
        }
        if i < s.len() {
            assert(s.skip(1)[i - 1] == s[i]);
        }
        lemma_digit_run(s.skip(1), i - 1);
    }
}

/// The factor of a unit letter's power (`pow_nat`), for base 1024 or 1000.
fn unit_factor(p: u64, binary: bool) -> (r: u64)
    requires
        1 <= p <= 6,
    ensures
        r as nat == pow_nat(if binary { 1024 } else { 1000 }, p as nat),
{
    reveal_with_fuel(pow_nat, 7);
    if binary {
        if p == 1 { 1024 } else if p == 2 { 1048576 } else if p == 3 { 1073741824 } else if p == 4 {
            1099511627776
        } else if p == 5 { 1125899906842624 } else { 1152921504606846976 }
    } else {
        if p == 1 { 1000 } else if p == 2 { 1000000 } else if p == 3 { 1000000000 } else if p == 4 {
            1000000000000
        } else if p == 5 { 1000000000000000 } else { 1000000000000000000 }
    }
}

/// Reads a size such as `1K`, `4096`, `2MB`, `1GiB` (`size_spec`).
pub fn parse_size(text: &str) -> (r: Option<u64>)
    ensures
        match size_spec(text@) {
            Some(v) => r == Some(v as u64),
            None => r is None,
        },
{
    proof {
        reveal_strlit("iB");
        reveal_strlit("B");
    }
    let cs = chars_of(text);
    let mut i: usize = 0;
    let mut n: u64 = 0;
    let mut over = false;
    assert(cs@.take(0) =~= Seq::<char>::empty());
    while i < cs.len() && '0' <= cs[i] && cs[i] <= '9'
        invariant
            i <= cs@.len(),
            all_digits(cs@.take(i as int)),
            !over ==> n as nat == digits_value(cs@.take(i as int)),
            over ==> digits_value(cs@.take(i as int)) > u64::MAX,
        decreases cs@.len() - i,
    {
        let ghost pre = cs@.take(i + 1);
        assert(pre.drop_last() =~= cs@.take(i as int));
        assert(pre.last() == cs@[i as int]);
        let d = (cs[i] as u32 - '0' as u32) as u64;
        if !over {
            let w: u128 = (n as u128) * 10 + (d as u128);
            if w > u64::MAX as u128 {
                over = true;
            } else {
                n = w as u64;
            }
        }
        assert(all_digits(pre)) by {
            assert forall|j: int| 0 <= j < pre.len() implies is_digit(#[trigger] pre[j]) by {
                if j < pre.len() - 1 {
                    assert(pre[j] == cs@.take(i as int)[j]);
                }
            }
        }
        i = i + 1;
    }
    proof {
        lemma_digit_run(cs@, i as int);
    }
    let unit = chars_from(&cs, i);
    if i == 0 && unit.len() == 0 {
        return None;
    }
    if over {
        proof {
            let u = cs@.skip(i as int);
            let v = digits_value(cs@.take(i as int));
            if u.len() > 0 {
                match unit_power(u[0]) {
                    Some(p) => {
                        lemma_pow_pos(1024, p);
                        lemma_pow_pos(1000, p);
                    },
                    None => {},
                }
            }
            match suffix_factor(u) {
                Some(f) => {
                    assert(v * f >= v) by (nonlinear_arith)
                        requires
                            f >= 1,
                    ;
                },
                None => {},
            }
        }
        return None;
    }
    let base: u64 = if i == 0 { 1 } else { n };
    let factor: u64 = if unit.len() == 0 {
        1
    } else {
        let c = unit[0];
        let p: u64 = if c == 'K' || c == 'k' { 1 } else if c == 'M' { 2 } else if c == 'G' { 3 } else if c == 'T' {
            4
        } else if c == 'P' { 5 } else if c == 'E' { 6 } else { 0 };
        if p == 0 {
            return None;
        }
        let rest = chars_from(&unit, 1);
        let ib = rest.len() == 2 && rest[0] == 'i' && rest[1] == 'B';
        let b = rest.len() == 1 && rest[0] == 'B';
        proof {
            if rest@.len() == 2 {
                if rest@ == "iB"@ {
                    assert(rest@[0] == 'i' && rest@[1] == 'B');
                } else if rest@[0] == 'i' && rest@[1] == 'B' {
                    assert(rest@ =~= "iB"@);
                }
            }
            if rest@.len() == 1 {
                if rest@[0] == 'B' {
                    assert(rest@ =~= "B"@);
                }
            }
        }
        if rest.len() == 0 || ib {
            unit_factor(p, true)
        } else if b {
            unit_factor(p, false)
        } else {
            return None;
        }
    };
    assert((base as u128) * (factor as u128) <= u128::MAX) by (nonlinear_arith)
        requires
            base <= u64::MAX,
            factor <= u64::MAX,
    ;
    let product: u128 = (base as u128) * (factor as u128);
    if product > u64::MAX as u128 {
        return None;
    }
    Some(product as u64)
}

/// The block size text in force: `--block-size`, else `LS_BLOCK_SIZE`,
/// else `BLOCK_SIZE`, else `BLOCKSIZE` (which is then said to have given
/// it), else none.
pub fn raw_block_size(option: Option<&str>, ls_block_size: Option<&str>, block_size: Option<&str>, blocksize: Option<&str>) -> (r: (String, bool))
    ensures
        r.0@ == (match option {
            Some(o) => o@,
            None => match ls_block_size {
                Some(v) => v@,
                None => match block_size {
                    Some(v) => v@,
                    None => match blocksize {
                        Some(v) => v@,
                        None => Seq::empty(),
                    },
                },
            },
        }),
        r.1 == (option is None && ls_block_size is None && block_size is None && blocksize is Some),
{
    match option {
        Some(o) => (string_from_chars(&chars_of(o)), false),
        None => match ls_block_size {
            Some(v) => (string_from_chars(&chars_of(v)), false),
            None => match block_size {
                Some(v) => (string_from_chars(&chars_of(v)), false),
                None => match blocksize {
                    Some(v) => (string_from_chars(&chars_of(v)), true),
                    None => (String::new(), false),
                },
            },
        },
    }
}

/// The unit of file sizes, the unit of block counts, and the suffix written
/// after sizes; from the block size text in force (`raw`, `parsed` being
/// its value when it is a size), whether `BLOCKSIZE` gave it, whether
/// `--block-size` was given, `--si`/`-h`, `-k` and `POSIXLY_CORRECT`.
pub open spec fn block_sizes_spec(
    raw: Seq<char>,
    from_blocksize: bool,
    option_given: bool,
    is_si: bool,
    is_hr: bool,
    kb: bool,
    posixly_correct: bool,
    parsed: Option<u64>,
) -> Option<(u64, u64, Seq<char>)> {
    if !is_si && !is_hr && raw.len() > 0 {
        match parsed {
            Some(size) => {
                let suffix = if !is_digit(raw[0]) { raw } else { Seq::empty() };
                if from_blocksize && kb {
                    Some((1, 1024, suffix))
                } else if from_blocksize {
                    Some((1, size, suffix))
                } else if kb {
                    if option_given { Some((size, size, suffix)) } else { Some((size, 1024, suffix)) }
                } else {
                    Some((size, size, suffix))
                }
            },
            None => if option_given {
                None
            } else if from_blocksize {
                Some((1, 1024, Seq::empty()))
            } else {
                Some((1024, 1024, Seq::empty()))
            },
        }
    } else if posixly_correct {
        if kb { Some((1, 1024, Seq::empty())) } else { Some((1, 512, Seq::empty())) }
    } else if is_si {
        Some((1, 1000, Seq::empty()))
    } else {
        Some((1, 1024, Seq::empty()))
    }
}

/// The units of sizes and block counts and the size suffix, or the error of
/// a `--block-size` that is no size (`block_sizes_spec`).
pub fn block_sizes(
    raw: &str,
    from_blocksize: bool,
    option_given: bool,
    is_si: bool,
    is_hr: bool,
    kb: bool,
    posixly_correct: bool,
    parsed: Option<u64>,
) -> (r: Result<(u64, u64, String), LsError>)
    ensures
        match block_sizes_spec(raw@, from_blocksize, option_given, is_si, is_hr, kb, posixly_correct, parsed) {
            Some((a, b, suffix)) => r matches Ok((x, y, z)) && x == a && y == b && z@ == suffix,
            None => r matches Err(LsError::LsBlockSizeParseError(t)) && t@ == raw@,
        },
{
    let cs = chars_of(raw);
    if !is_si && !is_hr && cs.len() > 0 {
        match parsed {
            Some(size) => {
                let suffix = if !('0' <= cs[0] && cs[0] <= '9') { string_from_chars(&cs) } else { String::new() };
                if from_blocksize && kb {
                    Ok((1, 1024, suffix))
                } else if from_blocksize {
                    Ok((1, size, suffix))
                } else if kb {
                    if option_given {
                        Ok((size, size, suffix))
                    } else {
                        Ok((size, 1024, suffix))
                    }
                } else {
                    Ok((size, size, suffix))
                }
            },
            None => {
                if option_given {
                    Err(LsError::LsBlockSizeParseError(string_from_chars(&cs)))
                } else if from_blocksize {
                    Ok((1, 1024, String::new()))
                } else {
                    Ok((1024, 1024, String::new()))
                }
            },
        }
    } else if posixly_correct {
        if kb {
            Ok((1, 1024, String::new()))
        } else {
            Ok((1, 512, String::new()))
        }
    } else if is_si {
        Ok((1, 1000, String::new()))
    } else {
        Ok((1, 1024, String::new()))
    }
}

/// The width of the output: `--width`; else the terminal's; else that of
/// `COLUMNS` when it is a number (a warning and 80 when it is not); else 80.
pub fn choose_width(option: Option<&str>, terminal: Option<u16>, columns: Option<&str>) -> (r: Result<(u16, Option<String>), LsError>)
    ensures
        match option {
            Some(o) => match width_spec(o@) {
                Some(w) => r matches Ok((x, None)) && x as int == w,
                None => r matches Err(LsError::LsInvalidLineWidth(t)) && t@ == o@,
            },
            None => match terminal {
                Some(t) => r matches Ok((x, None)) && x == t,
                None => match columns {
                    Some(c) => match parse_u16_radix(c@, 10) {
                        Ok(v) => r matches Ok((x, None)) && x as int == v,
                        Err(_) => r matches Ok((x, Some(w))) && x == 80 && w@
                            == "ignoring invalid width in environment variable COLUMNS: "@ + quoted(c@),
                    },
                    None => r matches Ok((x, None)) && x == 80,
                },
            },
        },
{
    match option {
        Some(o) => {
            let w = parse_width(o)?;
            Ok((w, None))
        },
        None => match terminal {
            Some(t) => Ok((t, None)),
            None => match columns {
                Some(c) => {
                    let cs = chars_of(c);
                    match parse_u16_radix_exec(&cs, 10) {
                        Ok(v) => Ok((v, None)),
                        Err(_) => {
                            let mut m = chars_of("ignoring invalid width in environment variable COLUMNS: ");
                            push_quoted(&mut m, c);
                            Ok((80, Some(string_from_chars(&m))))
                        },
                    }
                },
                None => Ok((80, None)),
            },
        },
    }
}

/// The line `total N` of a listing, from the blocks of its entries (in
/// bytes): counted in blocks of `block_size` (rounded up) when sizes are in
/// bytes, as they are otherwise; `size_text` writes the number as sizes are
/// written.
pub open spec fn total_blocks(total: nat, human: bool, block_size: nat) -> nat {
    if human { total } else { ((total + block_size - 1) / (block_size as int)) as nat }
}

/// The number shown by `total`.
pub fn display_total(total: u64, format: LsSizeFormat, block_size: u64) -> (r: u64)
    requires
        block_size > 0,
    ensures
        r as nat == total_blocks(total as nat, format != LsSizeFormat::Bytes, block_size as nat),
{
    match format {
        LsSizeFormat::Binary | LsSizeFormat::Decimal => total,
        LsSizeFormat::Bytes => {
            let q = total / block_size;
            let r = total % block_size;
            if r != 0 {
                assert(block_size >= 2);
                assert(q <= total / 2) by (nonlinear_arith)
                    requires
                        q == total / block_size,
                        block_size >= 2,
                ;
            }
            let res = if r == 0 { q } else { q + 1 };
            proof {
                let t = total as int;
                let b = block_size as int;
                assert(t == b * (t / b) + t % b) by (nonlinear_arith)
                    requires
                        b > 0,
                ;
                assert((t + b - 1) / b == if t % b == 0 { t / b } else { t / b + 1 }) by (nonlinear_arith)
                    requires
                        b > 0,
                        t >= 0,
                        t == b * (t / b) + t % b,
                        0 <= t % b < b,
                ;
            }
            res
        },
    }
}

// ---------------------------------------------------------------------------
// The whole configuration
// ---------------------------------------------------------------------------

/// Whether glob accepts a pattern.
pub uninterp spec fn glob_pattern_valid(p: Seq<char>) -> bool;

/// `glob::Pattern::new` of glob: claims only that whether it accepts a
/// pattern depends on the pattern alone.
#[verifier::external_body]
fn pattern_is_valid(p: &str) -> (r: bool)
    ensures
        r == glob_pattern_valid(p@),
{
    glob::Pattern::new(p).is_ok()
}

/// The sort that the sort options give.
pub open spec fn sort_spec(sort: Option<Seq<char>>, time: bool, size: bool, none: bool, version: bool, extension: bool) -> LsSort {
    match sort {
        Some(f) => sort_of(f)->0,
        None => if time {
            LsSort::Time
        } else if size {
            LsSort::Size
        } else if none {
            LsSort::Unsorted
        } else if version {
            LsSort::Version
        } else if extension {
            LsSort::Extension
        } else {
            LsSort::Name
        },
    }
}

/// Each sort option asks for its own order: `--sort=WORD` for the order it
/// names, whatever the flags; without it `-t` for time, `-S` for size, `-U`
/// for none, `-v` for version and `-X` for extension, the earlier of these
/// winning over the later; and the order by name when none is given.
pub proof fn law_each_sort_option_asks_for_its_order(time: bool, size: bool, none: bool, version: bool, extension: bool)
    ensures
        sort_spec(Some("name"@), time, size, none, version, extension) == LsSort::Name,
        sort_spec(Some("none"@), time, size, none, version, extension) == LsSort::Unsorted,
        sort_spec(Some("time"@), time, size, none, version, extension) == LsSort::Time,
        sort_spec(Some("size"@), time, size, none, version, extension) == LsSort::Size,
        sort_spec(Some("version"@), time, size, none, version, extension) == LsSort::Version,
        sort_spec(Some("extension"@), time, size, none, version, extension) == LsSort::Extension,
        sort_spec(Some("width"@), time, size, none, version, extension) == LsSort::Width,
        time ==> sort_spec(None, time, size, none, version, extension) == LsSort::Time,
        !time && size ==> sort_spec(None, time, size, none, version, extension) == LsSort::Size,
        !time && !size && none ==> sort_spec(None, time, size, none, version, extension) == LsSort::Unsorted,
        !time && !size && !none && version ==> sort_spec(None, time, size, none, version, extension)
            == LsSort::Version,
        !time && !size && !none && !version && extension ==> sort_spec(None, time, size, none, version, extension)
            == LsSort::Extension,
        !time && !size && !none && !version && !extension ==> sort_spec(None, time, size, none, version, extension)
            == LsSort::Name,
{
    reveal_strlit("name");
    reveal_strlit("none");
    reveal_strlit("time");
    reveal_strlit("size");
    reveal_strlit("version");
    reveal_strlit("extension");
    reveal_strlit("width");
    assert("name"@[1] != "none"@[1]);
    assert("time"@[0] != "none"@[0] && "time"@[0] != "name"@[0]);
    assert("size"@[0] != "none"@[0] && "size"@[0] != "name"@[0] && "size"@[0] != "time"@[0]);
    assert("width"@.len() != "version"@.len() && "width"@.len() != "extension"@.len());
    assert("width"@[0] != "time"@[0] && "width"@[0] != "name"@[0] && "width"@[0] != "none"@[0] && "width"@[0] != "size"@[0]);
}

/// The sort that the sort options give: `--sort`, else `-t`, `-S`, `-U`,
/// `-v`, `-X`, else by name.
pub fn extract_sort(sort: Option<&str>, time: bool, size: bool, none: bool, version: bool, extension: bool) -> (r: LsSort)
    requires
        sort matches Some(f) ==> sort_of(f@) is Some,
    ensures
        r == sort_spec(match sort { Some(f) => Some(f@), None => None }, time, size, none, version, extension),
{
    match sort {
        Some(f) => sort_str_to_type(f),
        None => {
            if time {
                LsSort::Time
            } else if size {
                LsSort::Size
            } else if none {
                LsSort::Unsorted
            } else if version {
                LsSort::Version
            } else if extension {
                LsSort::Extension
            } else {
                LsSort::Name
            }
        },
    }
}

/// Which entries are listed: `-a`, else `-A`, else the visible ones.
pub fn extract_files(all: bool, almost_all: bool) -> (r: LsFiles)
    ensures
        r == (if all { LsFiles::LsAll } else if almost_all { LsFiles::LsAlmostAll } else { LsFiles::LsNormal }),
{
    if all {
        LsFiles::LsAll
    } else if almost_all {
        LsFiles::LsAlmostAll
    } else {
        LsFiles::LsNormal
    }
}

/// The patterns of entries left out, in order: with `-B` those of backup
/// files; those of `--ignore`; those of `--hide` when no `-a`/`-A`. A
/// pattern that glob refuses is left out with a warning.
pub open spec fn patterns_spec(backups: bool, ignore: Seq<Seq<char>>, hide: Seq<Seq<char>>, normal: bool) -> (Seq<Seq<char>>, Seq<Seq<char>>) {
    let base = if backups { seq!["*~"@, ".*~"@] } else { Seq::empty() };
    let (i_ok, i_bad) = valid_patterns(ignore, "Invalid pattern for ignore: "@);
    let (h_ok, h_bad) = if normal { valid_patterns(hide, "Invalid pattern for hide: "@) } else { (Seq::empty(), Seq::empty()) };
    (base + i_ok + h_ok, i_bad + h_bad)
}

/// The patterns that glob accepts, and a warning for each other.
pub open spec fn valid_patterns(ps: Seq<Seq<char>>, label: Seq<char>) -> (Seq<Seq<char>>, Seq<Seq<char>>)
    decreases ps.len(),
{
    if ps.len() == 0 {
        (Seq::empty(), Seq::empty())
    } else {
        let (ok, bad) = valid_patterns(ps.drop_last(), label);
        if glob_pattern_valid(ps.last()) {
            (ok.push(ps.last()), bad)
        } else {
            (ok, bad.push(label + quoted(ps.last())))
        }
    }
}

/// Appends the patterns that glob accepts to `ok`, and a warning for each
/// other to `bad`.
fn collect_patterns(ps: &Vec<String>, label: &str, ok: &mut Vec<String>, bad: &mut Vec<String>)
    ensures
        final(ok)@.map_values(|s: String| s@) == old(ok)@.map_values(|s: String| s@) + valid_patterns(
            ps@.map_values(|s: String| s@),
            label@,
        ).0,
        final(bad)@.map_values(|s: String| s@) == old(bad)@.map_values(|s: String| s@) + valid_patterns(
            ps@.map_values(|s: String| s@),
            label@,
        ).1,
{
    let ghost pv = ps@.map_values(|s: String| s@);
    let ghost ok0 = ok@.map_values(|s: String| s@);
    let ghost bad0 = bad@.map_values(|s: String| s@);
    let mut i: usize = 0;
    assert(pv.take(0) =~= Seq::<Seq<char>>::empty());
    while i < ps.len()
        invariant
            i <= ps@.len(),
            pv == ps@.map_values(|s: String| s@),
            ok@.map_values(|s: String| s@) == ok0 + valid_patterns(pv.take(i as int), label@).0,
            bad@.map_values(|s: String| s@) == bad0 + valid_patterns(pv.take(i as int), label@).1,
        decreases ps@.len() - i,
    {
        let ghost pre2 = pv.take(i + 1);
        assert(pre2.drop_last() =~= pv.take(i as int));
        assert(pre2.last() == ps@[i as int]@);
        let ghost o1 = ok@.map_values(|s: String| s@);
        let ghost b1 = bad@.map_values(|s: String| s@);
        if pattern_is_valid(ps[i].as_str()) {
            ok.push(string_from_chars(&chars_of(ps[i].as_str())));
            assert(ok@.map_values(|s: String| s@) =~= o1.push(ps@[i as int]@));
        } else {
            let mut m = chars_of(label);
            push_quoted(&mut m, ps[i].as_str());
            bad.push(string_from_chars(&m));
            assert(bad@.map_values(|s: String| s@) =~= b1.push(label@ + quoted(ps@[i as int]@)));
        }
        i = i + 1;
    }
    assert(pv.take(ps@.len() as int) =~= pv);
}

/// The patterns of entries left out, and the warnings.
pub fn ignore_patterns(backups: bool, ignore: &Vec<String>, hide: &Vec<String>, normal: bool) -> (r: (Vec<String>, Vec<String>))
    ensures
        (r.0@.map_values(|s: String| s@), r.1@.map_values(|s: String| s@)) == patterns_spec(
            backups,
            ignore@.map_values(|s: String| s@),
            hide@.map_values(|s: String| s@),
            normal,
        ),
{
    let mut ok: Vec<String> = Vec::new();
    let mut bad: Vec<String> = Vec::new();
    if backups {
        ok.push(string_from_chars(&chars_of("*~")));
        ok.push(string_from_chars(&chars_of(".*~")));
    }
    assert(ok@.map_values(|s: String| s@) =~= (if backups { seq!["*~"@, ".*~"@] } else { Seq::<Seq<char>>::empty() }));
    assert(bad@.map_values(|s: String| s@) =~= Seq::<Seq<char>>::empty());
    collect_patterns(ignore, "Invalid pattern for ignore: ", &mut ok, &mut bad);
    if normal {
        collect_patterns(hide, "Invalid pattern for hide: ", &mut ok, &mut bad);
    } else {
        assert(ok@.map_values(|s: String| s@) =~= ok@.map_values(|s: String| s@) + Seq::<Seq<char>>::empty());
        assert(bad@.map_values(|s: String| s@) =~= bad@.map_values(|s: String| s@) + Seq::<Seq<char>>::empty());
    }
    (ok, bad)
}

/// The fields of the long format that are shown.
#[derive(PartialEq, Eq, Debug, Clone, Copy, Structural)]
pub struct LsLongFormat {
    /// `--author`.
    pub is_author: bool,
    /// The group (neither `-G` nor `-o`).
    pub is_group: bool,
    /// The owner (no `-g`).
    pub is_owner: bool,
    /// `-n`.
    pub is_numeric_uid_gid: bool,
}

/// The fields of the long format that are shown.
pub fn long_format(author: bool, no_group: bool, long_no_group: bool, long_no_owner: bool, numeric: bool) -> (r: LsLongFormat)
    ensures
        r == (LsLongFormat {
            is_author: author,
            is_group: !no_group && !long_no_group,
            is_owner: !long_no_owner,
            is_numeric_uid_gid: numeric,
        }),
{
    LsLongFormat { is_author: author, is_group: !no_group && !long_no_group, is_owner: !long_no_owner, is_numeric_uid_gid: numeric }
}

/// The options of an `ls` run, where they stand on the command line, and
/// what the environment says.
pub struct LsArgs {
    /// Where each option last stands.
    pub indices: LsIndices,
    /// `--format`.
    pub format: Option<String>,
    /// `-l`, `-x`, `-m`, `-C`.
    pub long: bool,
    pub across: bool,
    pub commas: bool,
    pub columns: bool,
    /// `--sort`, `-t`, `-S`, `-U`, `-v`, `-X`.
    pub sort: Option<String>,
    pub sort_time: bool,
    pub sort_size: bool,
    pub sort_none: bool,
    pub sort_version: bool,
    pub sort_extension: bool,
    /// `--time`, `-u`, `-c`.
    pub time: Option<String>,
    pub time_access: bool,
    pub time_change: bool,
    /// `-a`, `-A`.
    pub all: bool,
    pub almost_all: bool,
    /// `--color`: its value, whether it was given, whether the terminal
    /// can show colours.
    pub color: Option<String>,
    pub color_given: bool,
    pub compatible_term: bool,
    /// `--hyperlink`.
    pub hyperlink: String,
    /// `-s`.
    pub alloc_size: bool,
    /// `--block-size`, `--si`, `-h`, `-k`.
    pub block_size: Option<String>,
    pub si: bool,
    pub human: bool,
    pub kb: bool,
    /// `LS_BLOCK_SIZE`, `BLOCK_SIZE`, `BLOCKSIZE`, `POSIXLY_CORRECT`.
    pub env_ls_block_size: Option<String>,
    pub env_block_size: Option<String>,
    pub env_blocksize: Option<String>,
    pub posixly_correct: bool,
    /// The value of the block size text in force, when it is a size.
    pub parsed_block_size: Option<u64>,
    /// `--author`, `-G`, `-o`, `-g`, `-n`.
    pub author: bool,
    pub no_group: bool,
    pub long_no_group: bool,
    pub long_no_owner: bool,
    pub numeric: bool,
    /// `--width`, the terminal's width, `COLUMNS`.
    pub width: Option<String>,
    pub terminal_width: Option<u16>,
    pub columns_env: Option<String>,
    /// `-q`, `--show-control-chars`, whether standard output is a terminal.
    pub hide_control: bool,
    pub show_control: bool,
    pub is_tty: bool,
    /// `--quoting-style`, `-N`, `-b`, `-Q`, `--dired`, `QUOTING_STYLE`, the
    /// program's name.
    pub quoting_style: Option<String>,
    pub literal: bool,
    pub escape: bool,
    pub quote_c: bool,
    pub dired: bool,
    pub quoting_env: Option<String>,
    pub progname: String,
    /// `--indicator-style`, `--classify`, `-p`, `--file-type`.
    pub indicator_style: Option<String>,
    pub classify: Option<String>,
    pub slash: bool,
    pub file_type: bool,
    /// `--time-style`, `--full-time`, whether it comes last, whether the
    /// locale of times is POSIX.
    pub time_style: Option<String>,
    pub full_time: bool,
    pub full_time_last: bool,
    pub posix_locale: bool,
    /// `-B`, `--ignore`, `--hide`.
    pub ignore_backups: bool,
    pub ignore: Vec<String>,
    pub hide: Vec<String>,
    /// `-L`, `-H`, `--dereference-command-line-symlink-to-dir`, `-d`.
    pub dereference_all: bool,
    pub dereference_args: bool,
    pub dereference_dir_args: bool,
    pub directory: bool,
    /// `-R`, `-r`, `-i`, `--group-directories-first`, `--zero`, `-Z`,
    /// whether SELinux is there.
    pub recursive: bool,
    pub reverse: bool,
    pub inode: bool,
    pub group_directories_first: bool,
    pub zero: bool,
    pub context: bool,
    pub selinux_supported: bool,
}

/// The configuration of an `ls` run.
#[derive(Debug)]
pub struct LsConfig {
    pub format: LsFormat,
    pub files: LsFiles,
    pub sort: LsSort,
    pub is_recursive: bool,
    pub is_reverse: bool,
    pub dereference: LsDereference,
    pub ignore_patterns: Vec<String>,
    pub size_format: LsSizeFormat,
    pub is_directory: bool,
    pub time: LsTime,
    pub is_inode: bool,
    pub color: bool,
    pub long: LsLongFormat,
    pub is_alloc_size: bool,
    pub file_size_block_size: u64,
    pub block_size: u64,
    pub width: u16,
    pub quoting_style: QuotingStyle,
    pub indicator_style: LsIndicatorStyle,
    pub time_style: LsTimeStyle,
    pub is_context: bool,
    pub is_selinux_supported: bool,
    pub is_group_directories_first: bool,
    pub zero: bool,
    pub is_dired: bool,
    pub is_hyperlink: bool,
    pub size_suffix: String,
}

/// An optional string as a plain value.
pub open spec fn opt(s: Option<String>) -> Option<Seq<char>> {
    match s { Some(x) => Some(x@), None => None }
}

/// The block size text in force.
pub open spec fn raw_spec(a: LsArgs) -> Seq<char> {
    match opt(a.block_size) {
        Some(o) => o,
        None => match opt(a.env_ls_block_size) {
            Some(v) => v,
            None => match opt(a.env_block_size) {
                Some(v) => v,
                None => match opt(a.env_blocksize) {
                    Some(v) => v,
                    None => Seq::empty(),
                },
            },
        },
    }
}

/// The units of sizes that the options and environment give.
pub open spec fn sizes_spec(a: LsArgs) -> Option<(u64, u64, Seq<char>)> {
    block_sizes_spec(
        raw_spec(a),
        a.block_size is None && a.env_ls_block_size is None && a.env_block_size is None && a.env_blocksize is Some,
        a.block_size is Some,
        si_spec(opt(a.block_size), a.si),
        hr_spec(opt(a.block_size), a.human),
        a.kb,
        a.posixly_correct,
        a.parsed_block_size,
    )
}

/// Whether control characters are shown as they are: `-q` hides them,
/// `--show-control-chars` shows them, and otherwise they are shown when the
/// output is no terminal.
pub open spec fn show_control_spec(a: LsArgs) -> bool {
    if a.hide_control { false } else if a.show_control { true } else { !a.is_tty }
}

/// The layout choices before `-f` and `--zero` are weighed.
pub open spec fn before_overrides(a: LsArgs) -> Overridden {
    let fw = extract_format_spec(opt(a.format), a.long, a.across, a.commas, a.columns, a.is_tty);
    let sc = show_control_spec(a);
    Overridden {
        format: weighed_format(fw.0, fw.1, a.indices),
        sort: sort_spec(opt(a.sort), a.sort_time, a.sort_size, a.sort_none, a.sort_version, a.sort_extension),
        files: if a.all { LsFiles::LsAll } else if a.almost_all { LsFiles::LsAlmostAll } else { LsFiles::LsNormal },
        color: color_spec(a.compatible_term, opt(a.color), a.color_given, a.is_tty),
        hyperlink: hyperlink_spec(a.hyperlink@, a.is_tty),
        alloc_size: a.alloc_size,
        show_control: sc,
        quoting: quoting_spec(opt(a.quoting_style), a.literal, a.escape, a.quote_c, a.dired, opt(a.quoting_env), a.is_tty, sc),
    }
}

/// Why the options are refused: exit code and message, checked in order
/// (block size, width, time style, `--dired` with `--zero`).
#[verifier::opaque]
pub open spec fn config_error(a: LsArgs) -> Option<(i32, Seq<char>)> {
    if sizes_spec(a) is None {
        Some((2i32, "invalid --block-size argument "@ + quoted(raw_spec(a))))
    } else if a.width matches Some(w) && width_spec(w@) is None {
        Some((2i32, "invalid line width: "@ + quoted(opt(a.width)->0)))
    } else if a.time_style matches Some(t) && !(a.full_time && a.full_time_last) && time_style_of(t@, a.posix_locale) is None {
        Some((2i32, ls_error_text(LsError::LsTimeStyleParseError(a.time_style->0))))
    } else if a.dired && overridden_spec(before_overrides(a), a.indices, a.is_tty).format == LsFormat::Long && a.zero {
        Some((2i32, "--dired and --zero are incompatible"@))
    } else {
        None
    }
}

/// The width that the options and environment give, with the warning about
/// `COLUMNS` if one is printed.
pub open spec fn width_choice(a: LsArgs) -> Option<(int, Option<Seq<char>>)> {
    match opt(a.width) {
        Some(o) => match width_spec(o) {
            Some(w) => Some((w, None)),
            None => None,
        },
        None => match a.terminal_width {
            Some(t) => Some((t as int, None)),
            None => match opt(a.columns_env) {
                Some(c) => match parse_u16_radix(c, 10) {
                    Ok(v) => Some((v, None)),
                    Err(_) => Some((80, Some("ignoring invalid width in environment variable COLUMNS: "@ + quoted(c)))),
                },
                None => Some((80, None)),
            },
        },
    }
}

/// The width chosen.
pub open spec fn chosen_width(a: LsArgs) -> int {
    match width_choice(a) { Some((w, _)) => w, None => 0 }
}

/// The warning about `COLUMNS`, if one is printed.
pub open spec fn width_warning(a: LsArgs) -> Option<Seq<char>> {
    match width_choice(a) { Some((_, w)) => w, None => None }
}

/// The warning about `QUOTING_STYLE`, if one is printed.
pub open spec fn quoting_warning(a: LsArgs) -> Option<Seq<char>> {
    match opt(a.quoting_env) {
        Some(e) => if a.quoting_style is None && !a.literal && !a.escape && !a.quote_c && !a.dired && quoting_style_of(
            e,
            show_control_spec(a),
        ) is None {
            Some(a.progname@ + ": Ignoring invalid value of environment variable QUOTING_STYLE: '"@ + e + "'"@)
        } else {
            None
        },
        None => None,
    }
}

/// An optional warning as a list.
pub open spec fn opt_list(w: Option<Seq<char>>) -> Seq<Seq<char>> {
    match w { Some(x) => seq![x], None => Seq::empty() }
}

/// The time that the options give.
pub open spec fn time_spec(a: LsArgs) -> LsTime {
    match opt(a.time) {
        Some(t) => time_of(t)->0,
        None => if a.time_access { LsTime::LsAccess } else if a.time_change { LsTime::LsChange } else { LsTime::LsModification },
    }
}

/// Whether the options are ones that the command line accepts.
pub open spec fn args_valid(a: LsArgs) -> bool {
    &&& (opt(a.format) matches Some(f) ==> format_of(f) is Some)
    &&& (opt(a.sort) matches Some(f) ==> sort_of(f) is Some)
    &&& (opt(a.time) matches Some(f) ==> time_of(f) is Some)
    &&& (opt(a.quoting_style) matches Some(q) ==> quoting_style_of(q, true) is Some)
}

proof fn lemma_quoting_name_control(q: Seq<char>, x: bool, y: bool)
    ensures
        (quoting_style_of(q, x) is Some) == (quoting_style_of(q, y) is Some),
{
}

/// The configuration that the options give (see `LsConfig::from`): each
/// choice that of the helper of the same name, after `-f` and `--zero`
/// override the options before them (`overridden_spec`).
#[verifier::opaque]
pub open spec fn config_matches(a: LsArgs, c: LsConfig) -> bool {
    let o = overridden_spec(before_overrides(a), a.indices, a.is_tty);
    let sizes = sizes_spec(a)->0;
    &&& c.format == o.format
    &&& c.sort == o.sort
    &&& c.files == o.files
    &&& c.color == o.color
    &&& c.is_hyperlink == o.hyperlink
    &&& c.is_alloc_size == o.alloc_size
    &&& c.quoting_style == o.quoting
    &&& c.size_format == (if si_spec(opt(a.block_size), a.si) {
        LsSizeFormat::Decimal
    } else if hr_spec(opt(a.block_size), a.human) {
        LsSizeFormat::Binary
    } else {
        LsSizeFormat::Bytes
    })
    &&& c.file_size_block_size == sizes.0
    &&& c.block_size == sizes.1
    &&& c.size_suffix@ == sizes.2
    &&& c.long == (LsLongFormat {
        is_author: a.author,
        is_group: !a.no_group && !a.long_no_group,
        is_owner: !a.long_no_owner,
        is_numeric_uid_gid: a.numeric,
    })
    &&& c.width as int == chosen_width(a)
    &&& c.indicator_style == indicator_spec(opt(a.indicator_style), opt(a.classify), a.slash, a.file_type, a.is_tty)
    &&& style_view(c.time_style) == (match opt(a.time_style) {
        Some(f) => if a.full_time && a.full_time_last { (0u8, Seq::empty()) } else { time_style_of(f, a.posix_locale)->0 },
        None => if a.full_time { (0u8, Seq::empty()) } else { (3u8, Seq::empty()) },
    })
    &&& c.time == time_spec(a)
    &&& c.ignore_patterns@.map_values(|s: String| s@) == patterns_spec(
        a.ignore_backups,
        a.ignore@.map_values(|s: String| s@),
        a.hide@.map_values(|s: String| s@),
        !a.all && !a.almost_all,
    ).0
    &&& c.is_dired == (a.dired && o.format == LsFormat::Long)
    &&& c.dereference == (if a.dereference_all {
        LsDereference::LsAll
    } else if a.dereference_args {
        LsDereference::LsArgs
    } else if a.dereference_dir_args {
        LsDereference::LsDirArgs
    } else if a.directory || c.indicator_style == LsIndicatorStyle::Classify || o.format == LsFormat::Long {
        LsDereference::LsNone
    } else {
        LsDereference::LsDirArgs
    })
    &&& c.is_recursive == a.recursive
    &&& c.is_reverse == a.reverse
    &&& c.is_directory == a.directory
    &&& c.is_inode == a.inode
    &&& c.is_context == a.context
    &&& c.is_selinux_supported == a.selinux_supported
    &&& c.is_group_directories_first == a.group_directories_first
    &&& c.zero == a.zero
}

/// The warnings printed on the way: about `COLUMNS`, about `QUOTING_STYLE`,
/// and one for each refused pattern.
pub open spec fn config_warnings(a: LsArgs) -> Seq<Seq<char>> {
    opt_list(width_warning(a)) + opt_list(quoting_warning(a)) + patterns_spec(
        a.ignore_backups,
        a.ignore@.map_values(|s: String| s@),
        a.hide@.map_values(|s: String| s@),
        !a.all && !a.almost_all,
    ).1
}

proof fn lemma_error_sizes(a: LsArgs)
    requires
        sizes_spec(a) is None,
    ensures
        config_error(a) == Some((2i32, "invalid --block-size argument "@ + quoted(raw_spec(a)))),
{
    reveal(config_error);
}

proof fn lemma_error_width(a: LsArgs)
    requires
        sizes_spec(a) is Some,
        a.width matches Some(w) && width_spec(w@) is None,
    ensures
        config_error(a) == Some((2i32, "invalid line width: "@ + quoted(opt(a.width)->0))),
{
    reveal(config_error);
}

proof fn lemma_error_time_style(a: LsArgs)
    requires
        sizes_spec(a) is Some,
        !(a.width matches Some(w) && width_spec(w@) is None),
        a.time_style matches Some(t) && !(a.full_time && a.full_time_last) && time_style_of(t@, a.posix_locale) is None,
    ensures
        config_error(a) == Some((2i32, ls_error_text(LsError::LsTimeStyleParseError(a.time_style->0)))),
{
    reveal(config_error);
}

proof fn lemma_error_dired(a: LsArgs)
    requires
        sizes_spec(a) is Some,
        !(a.width matches Some(w) && width_spec(w@) is None),
        !(a.time_style matches Some(t) && !(a.full_time && a.full_time_last) && time_style_of(t@, a.posix_locale) is None),
        a.dired && overridden_spec(before_overrides(a), a.indices, a.is_tty).format == LsFormat::Long && a.zero,
    ensures
        config_error(a) == Some((2i32, "--dired and --zero are incompatible"@)),
{
    reveal(config_error);
}

proof fn lemma_no_error(a: LsArgs)
    requires
        sizes_spec(a) is Some,
        !(a.width matches Some(w) && width_spec(w@) is None),
        !(a.time_style matches Some(t) && !(a.full_time && a.full_time_last) && time_style_of(t@, a.posix_locale) is None),
        !(a.dired && overridden_spec(before_overrides(a), a.indices, a.is_tty).format == LsFormat::Long && a.zero),
    ensures
        config_error(a) is None,
{
    reveal(config_error);
}

impl LsConfig {
    /// The configuration of a run from its options (`LsArgs`), or the error
    /// that refuses them (`config_error`); with the warnings printed on the
    /// way (`config_warnings`).
    pub fn from(a: LsArgs) -> (r: (Result<LsConfig, LsError>, Vec<String>))
        requires
            args_valid(a),
        ensures
            config_error(a) matches Some((code, text)) ==> (r.0 matches Err(e) && ls_error_code(e) == code
                && ls_error_text(e) == text),
            config_error(a) is None ==> (r.0 matches Ok(c) && config_matches(a, c)
                && r.1@.map_values(|s: String| s@) == config_warnings(a)),
    {
        let ghost ag = a;
        let mut warnings: Vec<String> = Vec::new();
        let (file_size_block_size, block_size, size_suffix) = match ls_units(&a) {
            Ok(x) => x,
            Err(e) => {
                proof {
                    lemma_error_sizes(ag);
                }
                return (Err(e), warnings);
            },
        };
        let (width, wwarn) = match choose_width(opt_str(&a.width), a.terminal_width, opt_str(&a.columns_env)) {
            Ok(x) => x,
            Err(e) => {
                proof {
                    lemma_error_width(ag);
                }
                return (Err(e), warnings);
            },
        };
        match wwarn {
            Some(w) => warnings.push(w),
            None => {},
        }
        let (before, qwarn) = ls_layout(&a);
        match qwarn {
            Some(w) => warnings.push(w),
            None => {},
        }
        let ghost w2 = warnings@.map_values(|s: String| s@);
        assert(w2 =~= opt_list(width_warning(ag)) + opt_list(quoting_warning(ag)));
        let time_style = match ls_parse_time_style(opt_str(&a.time_style), a.full_time, a.full_time_last, a.posix_locale) {
            Ok(t) => t,
            Err(e) => {
                proof {
                    lemma_error_time_style(ag);
                }
                return (Err(e), warnings);
            },
        };
        let o = apply_overrides(before, &a.indices, a.is_tty);
        let is_dired = match check_dired(a.dired, o.format, a.zero) {
            Ok(d) => d,
            Err(e) => {
                proof {
                    lemma_error_dired(ag);
                }
                return (Err(e), warnings);
            },
        };
        proof {
            lemma_no_error(ag);
        }
        let (patterns, pwarn) = ignore_patterns(a.ignore_backups, &a.ignore, &a.hide, !a.all && !a.almost_all);
        append_strings(&mut warnings, &pwarn);
        let c = ls_config_parts(&a, o, file_size_block_size, block_size, size_suffix, width, time_style, is_dired, patterns);
        (Ok(c), warnings)
    }
}

/// An optional string, borrowed.
fn opt_str(s: &Option<String>) -> (r: Option<&str>)
    ensures
        r is Some == s is Some,
        r is Some ==> r->0@ == s->0@,
{
    match s {
        Some(f) => Some(f.as_str()),
        None => None,
    }
}

/// Appends the strings of `more` to `out`.
fn append_strings(out: &mut Vec<String>, more: &Vec<String>)
    ensures
        final(out)@.map_values(|s: String| s@) == old(out)@.map_values(|s: String| s@) + more@.map_values(|s: String| s@),
{
    let ghost start = out@.map_values(|s: String| s@);
    let mut k: usize = 0;
    while k < more.len()
        invariant
            k <= more@.len(),
            out@.map_values(|s: String| s@) == start + more@.map_values(|s: String| s@).take(k as int),
        decreases more@.len() - k,
    {
        let ghost before = out@.map_values(|s: String| s@);
        out.push(string_from_chars(&chars_of(more[k].as_str())));
        assert(out@.map_values(|s: String| s@) =~= before.push(more@[k as int]@));
        assert(more@.map_values(|s: String| s@).take(k + 1) =~= more@.map_values(|s: String| s@).take(k as int).push(more@[k as int]@));
        k = k + 1;
    }
    assert(more@.map_values(|s: String| s@).take(more@.len() as int) =~= more@.map_values(|s: String| s@));
}

/// The units of sizes and block counts and the size suffix, or the error of
/// a `--block-size` that is no size.
fn ls_units(a: &LsArgs) -> (r: Result<(u64, u64, String), LsError>)
    ensures
        sizes_spec(*a) matches Some(z) ==> (r matches Ok(x) && x.0 == z.0 && x.1 == z.1 && x.2@ == z.2),
        sizes_spec(*a) is None ==> (r matches Err(e) && ls_error_code(e) == 2
            && ls_error_text(e) == "invalid --block-size argument "@ + quoted(raw_spec(*a))),
{
    let bs_opt = opt_str(&a.block_size);
    let (raw, from_bs) = raw_block_size(
        bs_opt,
        opt_str(&a.env_ls_block_size),
        opt_str(&a.env_block_size),
        opt_str(&a.env_blocksize),
    );
    let is_si = match bs_opt { Some(b) => str_is(b, "si"), None => false } || a.si;
    let is_hr = match bs_opt { Some(b) => str_is(b, "human-readable"), None => false } || a.human;
    proof {
        match bs_opt {
            Some(b) => {
                assert((Some(b@) == Some("si"@)) == (b@ == "si"@));
                assert((Some(b@) == Some("human-readable"@)) == (b@ == "human-readable"@));
            },
            None => {},
        }
    }
    block_sizes(raw.as_str(), from_bs, a.block_size.is_some(), is_si, is_hr, a.kb, a.posixly_correct, a.parsed_block_size)
}

/// The layout choices before `-f` and `--zero` are weighed, with the
/// warning about `QUOTING_STYLE` if one is printed.
fn ls_layout(a: &LsArgs) -> (r: (Overridden, Option<String>))
    requires
        args_valid(*a),
    ensures
        r.0 == before_overrides(*a),
        opt(r.1) == quoting_warning(*a),
{
    let (format0, which) = ls_extract_format(opt_str(&a.format), a.long, a.across, a.commas, a.columns, a.is_tty);
    let format1 = weigh_format(format0, which, &a.indices);
    let files = extract_files(a.all, a.almost_all);
    let sort = extract_sort(opt_str(&a.sort), a.sort_time, a.sort_size, a.sort_none, a.sort_version, a.sort_extension);
    let color = extract_color(a.compatible_term, opt_str(&a.color), a.color_given, a.is_tty);
    let hyperlink = extract_hyperlink(a.hyperlink.as_str(), a.is_tty);
    let show_control = show_control_chars(a.hide_control, a.show_control, a.is_tty);
    let (quoting, qwarn) = ls_quoting(a, show_control);
    let before = Overridden { format: format1, sort, files, color, hyperlink, alloc_size: a.alloc_size, show_control, quoting };
    proof {
        let b = before_overrides(*a);
        assert(before.format == b.format);
        assert(before.sort == b.sort);
        assert(before.files == b.files);
        assert(before.color == b.color);
        assert(before.hyperlink == b.hyperlink);
        assert(before.show_control == b.show_control);
        assert(before.quoting == b.quoting);
    }
    (before, qwarn)
}

/// The quoting style and the warning about `QUOTING_STYLE`.
fn ls_quoting(a: &LsArgs, show_control: bool) -> (r: (QuotingStyle, Option<String>))
    requires
        args_valid(*a),
        show_control == show_control_spec(*a),
    ensures
        r.0 == quoting_spec(opt(a.quoting_style), a.literal, a.escape, a.quote_c, a.dired, opt(a.quoting_env), a.is_tty, show_control),
        opt(r.1) == quoting_warning(*a),
{
    proof {
        match opt(a.quoting_style) {
            Some(q) => {
                lemma_quoting_name_control(q, true, show_control);
            },
            None => {},
        }
    }
    extract_quoting_style(
        opt_str(&a.quoting_style),
        a.literal,
        a.escape,
        a.quote_c,
        a.dired,
        opt_str(&a.quoting_env),
        a.is_tty,
        show_control,
        a.progname.as_str(),
    )
}

/// The configuration from the choices already made.
#[verifier::rlimit(60)]
fn ls_config_parts(
    a: &LsArgs,
    o: Overridden,
    file_size_block_size: u64,
    block_size: u64,
    size_suffix: String,
    width: u16,
    time_style: LsTimeStyle,
    is_dired: bool,
    patterns: Vec<String>,
) -> (c: LsConfig)
    requires
        args_valid(*a),
        o == overridden_spec(before_overrides(*a), a.indices, a.is_tty),
        sizes_spec(*a) == Some((file_size_block_size, block_size, size_suffix@)),
        width as int == chosen_width(*a),
        style_view(time_style) == (match opt(a.time_style) {
            Some(f) => if a.full_time && a.full_time_last { (0u8, Seq::empty()) } else { time_style_of(f, a.posix_locale)->0 },
            None => if a.full_time { (0u8, Seq::empty()) } else { (3u8, Seq::empty()) },
        }),
        is_dired == (a.dired && o.format == LsFormat::Long),
        patterns@.map_values(|s: String| s@) == patterns_spec(
            a.ignore_backups,
            a.ignore@.map_values(|s: String| s@),
            a.hide@.map_values(|s: String| s@),
            !a.all && !a.almost_all,
        ).0,
    ensures
        config_matches(*a, c),
{
    let size_format = size_format(opt_str(&a.block_size), a.si, a.human);
    let time = extract_time(opt_str(&a.time), a.time_access, a.time_change);
    let long = long_format(a.author, a.no_group, a.long_no_group, a.long_no_owner, a.numeric);
    let indicator = extract_indicator_style(
        opt_str(&a.indicator_style),
        opt_str(&a.classify),
        a.slash,
        a.file_type,
        a.is_tty,
    );
    let dereference = extract_dereference(
        a.dereference_all,
        a.dereference_args,
        a.dereference_dir_args,
        a.directory,
        indicator,
        o.format,
    );
    let c = LsConfig {
        format: o.format,
        files: o.files,
        sort: o.sort,
        is_recursive: a.recursive,
        is_reverse: a.reverse,
        dereference,
        ignore_patterns: patterns,
        size_format,
        is_directory: a.directory,
        time,
        is_inode: a.inode,
        color: o.color,
        long,
        is_alloc_size: o.alloc_size,
        file_size_block_size,
        block_size,
        width,
        quoting_style: o.quoting,
        indicator_style: indicator,
        time_style,
        is_context: a.context,
        is_selinux_supported: a.selinux_supported,
        is_group_directories_first: a.group_directories_first,
        zero: a.zero,
        is_dired,
        is_hyperlink: o.hyperlink,
        size_suffix,
    };
    proof {
        reveal(config_matches);
    }
    c
}

} // verus!
