//! `ls`: what each listed entry shows (mode string, type indicator, sizes,
//! the long line, the name cell), which entries are listed, and how the
//! short formats lay the names out.

use vstd::prelude::*;
use crate::text::{chars_of, string_from_chars, push_str, push_chars, decimal, u64_decimal, pad_start, pad_end,
    push_pad_start, push_pad_end};
use crate::ls::{
    LsFiles, LsFormat, LsIndicatorStyle, LsSizeFormat, LsLongFormat, LsSort, LsTimeStyle, QuotingStyle, glob_pattern_valid,
};
use crate::unicode::{text_width, str_width, byte_len, str_byte_len};
use crate::version_sort::{
    version_before, lemma_version_before, compare_version_chars, lex_order, lemma_lex_order, lemma_lex_order_trans,
    lemma_strict_from_weak, lex_order_exec,
};

verus! {

// ---------------------------------------------------------------------------
// File types and modes
// ---------------------------------------------------------------------------

/// The type of a file, as the file system reports it.
#[derive(PartialEq, Eq, Structural, Clone, Copy, Debug)]
pub enum FileKind {
    Dir,
    Symlink,
    Socket,
    Fifo,
    File,
    CharDevice,
    BlockDevice,
    Other,
}

/// Whether a bit of a mode is set.
pub open spec fn has_bit(mode: u32, bit: u32) -> bool {
    mode & bit != 0
}

/// The letter of the file type in a mode string (`S_IFMT` bits).
pub open spec fn type_letter(mode: u32) -> char {
    let t = mode & 0o170000u32;
    if t == 0o040000u32 {
        'd'
    } else if t == 0o020000u32 {
        'c'
    } else if t == 0o060000u32 {
        'b'
    } else if t == 0o100000u32 {
        '-'
    } else if t == 0o010000u32 {
        'p'
    } else if t == 0o120000u32 {
        'l'
    } else if t == 0o140000u32 {
        's'
    } else {
        '?'
    }
}

/// `c` when the bit is set, `-` otherwise.
pub open spec fn flag_letter(mode: u32, bit: u32, c: char) -> char {
    if has_bit(mode, bit) { c } else { '-' }
}

/// The execute letter of a class: `x` or `-`, or, with the special bit
/// (set-user-ID, set-group-ID, sticky) set, `on` with execution and `off`
/// without it.
pub open spec fn exec_letter(mode: u32, special: u32, x: u32, on: char, off: char) -> char {
    if has_bit(mode, special) {
        if has_bit(mode, x) { on } else { off }
    } else if has_bit(mode, x) {
        'x'
    } else {
        '-'
    }
}

/// The ten-letter mode string of `ls -l`, such as `drwxr-xr-x`.
pub open spec fn permissions_text(mode: u32) -> Seq<char> {
    seq![
        type_letter(mode),
        flag_letter(mode, 0o400u32, 'r'),
        flag_letter(mode, 0o200u32, 'w'),
        exec_letter(mode, 0o4000u32, 0o100u32, 's', 'S'),
        flag_letter(mode, 0o040u32, 'r'),
        flag_letter(mode, 0o020u32, 'w'),
        exec_letter(mode, 0o2000u32, 0o010u32, 's', 'S'),
        flag_letter(mode, 0o004u32, 'r'),
        flag_letter(mode, 0o002u32, 'w'),
        exec_letter(mode, 0o1000u32, 0o001u32, 't', 'T'),
    ]
}

/// The mode string reads back as the mode: the first letter names the file
/// type (`d` directory, `-` regular file, `l` link, `c`, `b`, `p`, `s`);
/// then for the owner, the group and the others in turn `r` where reading
/// is allowed and `-` where not, `w` likewise for writing, and for
/// execution a lower-case letter exactly when it is allowed, which is `s`
/// (`t` for the others) exactly when the set-user-ID (set-group-ID, sticky)
/// bit is set and otherwise `x`; with that bit set and no execution the
/// letter is `S` (`T`), and with neither it is `-`.
pub proof fn law_mode_string_reads_back(mode: u32)
    ensures
        permissions_text(mode).len() == 10,
        (permissions_text(mode)[0] == 'd') == (mode & 0o170000u32 == 0o040000u32),
        (permissions_text(mode)[0] == '-') == (mode & 0o170000u32 == 0o100000u32),
        (permissions_text(mode)[0] == 'l') == (mode & 0o170000u32 == 0o120000u32),
        permissions_text(mode)[1] == (if mode & 0o400u32 != 0 { 'r' } else { '-' }),
        permissions_text(mode)[2] == (if mode & 0o200u32 != 0 { 'w' } else { '-' }),
        permissions_text(mode)[3] == (if mode & 0o4000u32 != 0 {
            if mode & 0o100u32 != 0 { 's' } else { 'S' }
        } else if mode & 0o100u32 != 0 {
            'x'
        } else {
            '-'
        }),
        permissions_text(mode)[4] == (if mode & 0o040u32 != 0 { 'r' } else { '-' }),
        permissions_text(mode)[5] == (if mode & 0o020u32 != 0 { 'w' } else { '-' }),
        permissions_text(mode)[6] == (if mode & 0o2000u32 != 0 {
            if mode & 0o010u32 != 0 { 's' } else { 'S' }
        } else if mode & 0o010u32 != 0 {
            'x'
        } else {
            '-'
        }),
        permissions_text(mode)[7] == (if mode & 0o004u32 != 0 { 'r' } else { '-' }),
        permissions_text(mode)[8] == (if mode & 0o002u32 != 0 { 'w' } else { '-' }),
        permissions_text(mode)[9] == (if mode & 0o1000u32 != 0 {
            if mode & 0o001u32 != 0 { 't' } else { 'T' }
        } else if mode & 0o001u32 != 0 {
            'x'
        } else {
            '-'
        }),
{
}

/// The mode string of a file, with its type letter first.
pub fn display_permissions(mode: u32) -> (r: String)
    ensures
        r@ == permissions_text(mode),
{
    let t = mode & 0o170000u32;
    let first = if t == 0o040000u32 {
        'd'
    } else if t == 0o020000u32 {
        'c'
    } else if t == 0o060000u32 {
        'b'
    } else if t == 0o100000u32 {
        '-'
    } else if t == 0o010000u32 {
        'p'
    } else if t == 0o120000u32 {
        'l'
    } else if t == 0o140000u32 {
        's'
    } else {
        '?'
    };
    let mut v: Vec<char> = Vec::new();
    v.push(first);
    v.push(if mode & 0o400u32 != 0 { 'r' } else { '-' });
    v.push(if mode & 0o200u32 != 0 { 'w' } else { '-' });
    v.push(exec_char(mode, 0o4000u32, 0o100u32, 's', 'S'));
    v.push(if mode & 0o040u32 != 0 { 'r' } else { '-' });
    v.push(if mode & 0o020u32 != 0 { 'w' } else { '-' });
    v.push(exec_char(mode, 0o2000u32, 0o010u32, 's', 'S'));
    v.push(if mode & 0o004u32 != 0 { 'r' } else { '-' });
    v.push(if mode & 0o002u32 != 0 { 'w' } else { '-' });
    v.push(exec_char(mode, 0o1000u32, 0o001u32, 't', 'T'));
    assert(v@ =~= permissions_text(mode));
    string_from_chars(&v)
}

fn exec_char(mode: u32, special: u32, x: u32, on: char, off: char) -> (r: char)
    ensures
        r == exec_letter(mode, special, x, on, off),
{
    if mode & special != 0 {
        if mode & x != 0 { on } else { off }
    } else if mode & x != 0 {
        'x'
    } else {
        '-'
    }
}

/// Whether anyone may execute the file: one of the three execute bits.
pub fn file_is_executable(mode: u32) -> (r: bool)
    ensures
        r == has_bit(mode, 0o111u32),
{
    mode & 0o111u32 != 0
}

/// The character that `--classify` puts after a name: `/` for a directory,
/// `@` for a symbolic link, `=` for a socket, `|` for a pipe, `*` for a
/// regular file that can be executed (when its mode is known); nothing for
/// the rest or when the type is unknown.
pub open spec fn classify_spec(kind: Option<FileKind>, mode: Option<u32>) -> Option<char> {
    match kind {
        None => None,
        Some(FileKind::Dir) => Some('/'),
        Some(FileKind::Symlink) => Some('@'),
        Some(FileKind::Socket) => Some('='),
        Some(FileKind::Fifo) => Some('|'),
        Some(FileKind::File) => match mode {
            Some(m) => if has_bit(m, 0o111u32) { Some('*') } else { None },
            None => None,
        },
        Some(_) => None,
    }
}

/// The type indicator of an entry (`classify_spec`).
pub fn classify_file(kind: Option<FileKind>, mode: Option<u32>) -> (r: Option<char>)
    ensures
        r == classify_spec(kind, mode),
{
    match kind {
        None => None,
        Some(FileKind::Dir) => Some('/'),
        Some(FileKind::Symlink) => Some('@'),
        Some(FileKind::Socket) => Some('='),
        Some(FileKind::Fifo) => Some('|'),
        Some(FileKind::File) => match mode {
            Some(m) => if file_is_executable(m) { Some('*') } else { None },
            None => None,
        },
        Some(_) => None,
    }
}

/// The indicator that a style keeps: all of them for `--classify`, all but
/// `*` for `--file-type`, only `/` for `-p`, none without a style.
pub open spec fn indicator_spec_of(style: LsIndicatorStyle, sym: Option<char>) -> Option<char> {
    match style {
        LsIndicatorStyle::Classify => sym,
        LsIndicatorStyle::FileType => if sym == Some('*') { None } else { sym },
        LsIndicatorStyle::Slash => if sym == Some('/') { Some('/') } else { None },
        LsIndicatorStyle::NoIndicator => None,
    }
}

/// What `-F`, `--file-type` and `-p` put after a name: with `-F` a
/// directory gets `/`, a link `@`, a socket `=`, a pipe `|`, and a regular
/// file `*` exactly when one of its execute bits is set; `--file-type`
/// is the same without `*`; `-p` marks only directories; no style marks
/// nothing.
pub proof fn law_type_indicators(mode: u32)
    ensures
        indicator_spec_of(LsIndicatorStyle::Classify, classify_spec(Some(FileKind::Dir), Some(mode))) == Some('/'),
        indicator_spec_of(LsIndicatorStyle::Classify, classify_spec(Some(FileKind::Symlink), Some(mode))) == Some('@'),
        indicator_spec_of(LsIndicatorStyle::Classify, classify_spec(Some(FileKind::Socket), Some(mode))) == Some('='),
        indicator_spec_of(LsIndicatorStyle::Classify, classify_spec(Some(FileKind::Fifo), Some(mode))) == Some('|'),
        indicator_spec_of(LsIndicatorStyle::Classify, classify_spec(Some(FileKind::File), Some(mode))) == if mode
            & 0o111u32 != 0 {
            Some('*')
        } else {
            None::<char>
        },
        indicator_spec_of(LsIndicatorStyle::FileType, classify_spec(Some(FileKind::File), Some(mode))) is None,
        indicator_spec_of(LsIndicatorStyle::FileType, classify_spec(Some(FileKind::Dir), Some(mode))) == Some('/'),
        indicator_spec_of(LsIndicatorStyle::Slash, classify_spec(Some(FileKind::Dir), Some(mode))) == Some('/'),
        indicator_spec_of(LsIndicatorStyle::Slash, classify_spec(Some(FileKind::Symlink), Some(mode))) is None,
        indicator_spec_of(LsIndicatorStyle::NoIndicator, classify_spec(Some(FileKind::Dir), Some(mode))) is None,
{
}

/// The indicator put after a name under a style (`indicator_spec_of`).
pub fn indicator_char(style: LsIndicatorStyle, sym: Option<char>) -> (r: Option<char>)
    ensures
        r == indicator_spec_of(style, sym),
{
    match style {
        LsIndicatorStyle::Classify => sym,
        LsIndicatorStyle::FileType => match sym {
            Some('*') => None,
            _ => sym,
        },
        LsIndicatorStyle::Slash => match sym {
            Some('/') => Some('/'),
            _ => None,
        },
        LsIndicatorStyle::NoIndicator => None,
    }
}

// ---------------------------------------------------------------------------
// Sizes
// ---------------------------------------------------------------------------

/// The size shown for a file of `len` bytes in units of `unit` bytes,
/// rounded up.
pub fn len_adjusted(len: u64, unit: u64) -> (r: u64)
    requires
        unit > 0,
    ensures
        r as int == (len as int + unit as int - 1) / (unit as int),
{
    let d = len / unit;
    let rem = len % unit;
    proof {
        assert(len as int == d as int * unit as int + rem as int) by (nonlinear_arith)
            requires
                d == len / unit,
                rem == len % unit,
                unit > 0,
        ;
        assert(d as int * unit as int <= len as int);
    }
    if rem == 0 {
        proof {
            assert((len as int + unit as int - 1) / (unit as int) == d as int) by (nonlinear_arith)
                requires
                    len as int == d as int * unit as int,
                    unit > 0,
            ;
        }
        d
    } else {
        proof {
            assert((len as int + unit as int - 1) / (unit as int) == d as int + 1) by (nonlinear_arith)
                requires
                    len as int == d as int * unit as int + rem as int,
                    0 < rem < unit,
            ;
            assert(d < u64::MAX) by (nonlinear_arith)
                requires
                    d as int * unit as int <= len as int,
                    unit > 1,
            ;
        }
        d + 1
    }
}

/// The bytes that a file's blocks take: none for a device, 512 for each
/// block otherwise.
pub fn raw_block_size(kind: Option<FileKind>, blocks: u64) -> (r: u64)
    requires
        blocks * 512 <= u64::MAX,
    ensures
        r == (if kind == Some(FileKind::CharDevice) || kind == Some(FileKind::BlockDevice) {
            0
        } else {
            blocks * 512
        }),
{
    match kind {
        Some(FileKind::CharDevice) | Some(FileKind::BlockDevice) => 0,
        _ => blocks * 512,
    }
}

/// The allocated size shown by `-s`: the bytes themselves in a human
/// format, else the count of blocks of `block_size` bytes, rounded up.
pub fn block_count(raw: u64, format: LsSizeFormat, block_size: u64) -> (r: u64)
    requires
        block_size > 0,
    ensures
        format != LsSizeFormat::Bytes ==> r == raw,
        format == LsSizeFormat::Bytes ==> r as int == (raw as int + block_size as int - 1) / (block_size as int),
{
    match format {
        LsSizeFormat::Binary | LsSizeFormat::Decimal => raw,
        LsSizeFormat::Bytes => len_adjusted(raw, block_size),
    }
}

/// A size written in bytes: its decimal digits and the suffix of the
/// block size, if any.
pub fn size_text_bytes(size: u64, suffix: &str) -> (r: String)
    ensures
        r@ == decimal(size as nat) + suffix@,
{
    let mut v = u64_decimal(size);
    push_str(&mut v, suffix);
    string_from_chars(&v)
}

/// The sum of the blocks of a listing's entries, in bytes.
pub open spec fn sum_of(s: Seq<u64>) -> nat
    decreases s.len(),
{
    if s.len() == 0 { 0 } else { sum_of(s.drop_last()) + s.last() as nat }
}

/// Adds up the bytes of the entries' blocks.
pub fn total_size(raws: &[u64]) -> (r: u64)
    requires
        sum_of(raws@) <= u64::MAX,
    ensures
        r as nat == sum_of(raws@),
{
    let mut total: u64 = 0;
    let mut i: usize = 0;
    while i < raws.len()
        invariant
            i <= raws@.len(),
            total as nat == sum_of(raws@.take(i as int)),
            sum_of(raws@) <= u64::MAX,
        decreases raws@.len() - i,
    {
        assert(raws@.take(i + 1).drop_last() =~= raws@.take(i as int));
        proof {
            lemma_sum_prefix(raws@, i + 1);
        }
        total = total + raws[i];
        i = i + 1;
    }
    assert(raws@.take(raws@.len() as int) =~= raws@);
    total
}

/// A prefix adds up to no more than the whole.
pub proof fn lemma_sum_prefix(s: Seq<u64>, k: int)
    requires
        0 <= k <= s.len(),
    ensures
        sum_of(s.take(k)) <= sum_of(s),
    decreases s.len() - k,
{
    if k < s.len() {
        lemma_sum_prefix(s, k + 1);
        assert(s.take(k + 1).drop_last() =~= s.take(k));
    } else {
        assert(s.take(k) =~= s);
    }
}

/// The line `total N` of a listing, from the text of `N`.
pub fn total_line(size_text: &str, zero: bool) -> (r: String)
    ensures
        r@ == "total "@ + size_text@ + (if zero { "\0"@ } else { "\n"@ }),
{
    let mut v = chars_of("total ");
    push_str(&mut v, size_text);
    if zero {
        push_str(&mut v, "\0");
    } else {
        push_str(&mut v, "\n");
    }
    string_from_chars(&v)
}

// ---------------------------------------------------------------------------
// Which entries are listed
// ---------------------------------------------------------------------------

/// Whether glob's pattern `p` matches `name` when a leading dot must be
/// matched literally, `/` may be matched by wildcards, and case matters.
pub uninterp spec fn glob_match(p: Seq<char>, name: Seq<char>) -> bool;

/// `glob::Pattern::new` then `Pattern::matches_with` of glob, with those
/// options: claims that the answer is `glob_match` for a pattern that glob
/// accepts, and no match for one that it refuses.
#[verifier::external_body]
fn pattern_matches(p: &str, name: &str) -> (r: bool)
    ensures
        glob_pattern_valid(p@) ==> r == glob_match(p@, name@),
        !glob_pattern_valid(p@) ==> !r,
{
    match glob::Pattern::new(p) {
        Ok(pat) => pat.matches_with(
            name,
            glob::MatchOptions { case_sensitive: true, require_literal_separator: false, require_literal_leading_dot: true },
        ),
        Err(_) => false,
    }
}

/// A hidden name: one that starts with a dot.
pub open spec fn hidden_name(name: Seq<char>) -> bool {
    name.len() > 0 && name[0] == '.'
}

/// Whether a name starts with a dot.
pub fn is_hidden(name: &str) -> (r: bool)
    ensures
        r == hidden_name(name@),
{
    let cs = chars_of(name);
    cs.len() > 0 && cs[0] == '.'
}

/// Whether one of the patterns, as glob reads it, matches the name.
pub open spec fn ignored_by(ps: Seq<Seq<char>>, name: Seq<char>) -> bool {
    exists|i: int| 0 <= i < ps.len() && glob_pattern_valid(ps[i]) && #[trigger] glob_match(ps[i], name)
}

/// Whether an entry of a directory is listed: not a hidden one without
/// `-a`/`-A`, and none that an ignore pattern matches.
pub open spec fn shown_spec(name: Seq<char>, files: LsFiles, ps: Seq<Seq<char>>) -> bool {
    !(files == LsFiles::LsNormal && hidden_name(name)) && !ignored_by(ps, name)
}

/// Without ignore patterns, `-a` and `-A` list every entry read and a plain
/// listing every entry whose name does not start with a dot; a valid
/// pattern that matches a name hides it whatever the options.
pub proof fn law_hidden_entries(name: Seq<char>, ps: Seq<Seq<char>>, files: LsFiles, k: int)
    ensures
        shown_spec(name, LsFiles::LsAll, Seq::empty()),
        shown_spec(name, LsFiles::LsAlmostAll, Seq::empty()),
        shown_spec(name, LsFiles::LsNormal, Seq::empty()) == !(name.len() > 0 && name[0] == '.'),
        0 <= k < ps.len() && glob_pattern_valid(ps[k]) && glob_match(ps[k], name) ==> !shown_spec(name, files, ps),
{
}

/// Whether an entry of a directory is listed (`shown_spec`).
pub fn should_display(name: &str, files: LsFiles, patterns: &Vec<String>) -> (r: bool)
    ensures
        r == shown_spec(name@, files, patterns@.map_values(|s: String| s@)),
{
    let ghost ps = patterns@.map_values(|s: String| s@);
    if files == LsFiles::LsNormal && is_hidden(name) {
        return false;
    }
    let mut i: usize = 0;
    while i < patterns.len()
        invariant
            i <= patterns@.len(),
            ps == patterns@.map_values(|s: String| s@),
            forall|j: int| 0 <= j < i ==> !(glob_pattern_valid(ps[j]) && #[trigger] glob_match(ps[j], name@)),
        decreases patterns@.len() - i,
    {
        if pattern_matches(patterns[i].as_str(), name) {
            assert(glob_pattern_valid(ps[i as int]) && glob_match(ps[i as int], name@));
            return false;
        }
        i = i + 1;
    }
    true
}

/// The entries of a listing that `-R` enters, by index and in order: the
/// directories, past `.` and `..` when `-a` put them first.
pub open spec fn dir_targets_spec(is_dir: Seq<bool>, start: int, n: int) -> Seq<usize>
    decreases n,
{
    if n <= start || n <= 0 {
        Seq::empty()
    } else if is_dir[n - 1] {
        dir_targets_spec(is_dir, start, n - 1).push((n - 1) as usize)
    } else {
        dir_targets_spec(is_dir, start, n - 1)
    }
}

/// Whether `-R` has already entered the directory `id` (its device and
/// inode numbers) on the way down to it: it is then not listed again.
pub fn already_listed(ancestors: &[(u64, u64)], id: (u64, u64)) -> (r: bool)
    ensures
        r == ancestors@.contains(id),
{
    let mut i: usize = 0;
    while i < ancestors.len()
        invariant
            i <= ancestors@.len(),
            forall|j: int| 0 <= j < i ==> ancestors@[j] != id,
        decreases ancestors@.len() - i,
    {
        let a = ancestors[i];
        if a.0 == id.0 && a.1 == id.1 {
            assert(ancestors@[i as int] == id);
            return true;
        }
        i = i + 1;
    }
    false
}

/// What `-R` does with a subdirectory.
#[derive(Debug, Clone, Copy, PartialEq, Eq, Structural)]
pub enum EnterAction {
    /// Lists it, after noting it among the directories being listed.
    Enter,
    /// Reports it as already listed and goes on.
    AlreadyListed,
}

/// Before `-R` enters the subdirectory `id` (its device and inode numbers),
/// given the directories on the way down to it: a directory among them is
/// reported as already listed and left as it is; any other is entered and
/// joins them.
pub fn enter_step(ancestors: &mut Vec<(u64, u64)>, id: (u64, u64)) -> (r: EnterAction)
    ensures
        old(ancestors)@.contains(id) ==> r == EnterAction::AlreadyListed && final(ancestors)@ == old(ancestors)@,
        !old(ancestors)@.contains(id) ==> r == EnterAction::Enter && final(ancestors)@ == old(ancestors)@.push(id),
{
    if already_listed(ancestors.as_slice(), id) {
        EnterAction::AlreadyListed
    } else {
        ancestors.push(id);
        EnterAction::Enter
    }
}

/// After `-R` has listed a subdirectory it entered: it leaves the
/// directories on the way down, which are again those before it was entered.
pub fn leave_step(ancestors: &mut Vec<(u64, u64)>)
    requires
        old(ancestors)@.len() > 0,
    ensures
        final(ancestors)@ == old(ancestors)@.drop_last(),
{
    ancestors.pop();
}

/// Entering a directory and leaving it again gives back the directories on
/// the way down as they were.
pub proof fn law_enter_then_leave_restores(ancestors: Seq<(u64, u64)>, id: (u64, u64))
    requires
        !ancestors.contains(id),
    ensures
        ancestors.push(id).drop_last() == ancestors,
        ancestors.push(id).contains(id),
{
    assert(ancestors.push(id).drop_last() =~= ancestors);
    assert(ancestors.push(id)[ancestors.len() as int] == id);
}

/// The entries that `-R` enters (`dir_targets_spec`); `is_dir` says of each
/// entry whether its type is known and is a directory.
pub fn recursion_targets(files: LsFiles, is_dir: &[bool]) -> (r: Vec<usize>)
    ensures
        r@ == dir_targets_spec(is_dir@, if files == LsFiles::LsAll { 2 } else { 0 }, is_dir@.len() as int),
{
    let start: usize = if files == LsFiles::LsAll { 2 } else { 0 };
    let mut r: Vec<usize> = Vec::new();
    let mut i: usize = start;
    if i > is_dir.len() {
        i = is_dir.len();
    }
    assert(dir_targets_spec(is_dir@, start as int, i as int) =~= Seq::<usize>::empty());
    while i < is_dir.len()
        invariant
            i <= is_dir@.len(),
            start <= i || i == is_dir@.len(),
            r@ == dir_targets_spec(is_dir@, start as int, i as int),
        decreases is_dir@.len() - i,
    {
        if is_dir[i] {
            r.push(i);
        }
        i = i + 1;
    }
    r
}


// ---------------------------------------------------------------------------
// The name cell
// ---------------------------------------------------------------------------

/// A name as shown, with its width in columns (styling codes not counted).
pub struct NameCell {
    pub contents: String,
    pub width: usize,
}

/// The security context put before a name: as it is in the comma format,
/// padded on the left to `pad` columns otherwise.
pub open spec fn context_prefix(ctx: Seq<char>, pad: nat, format: LsFormat) -> Seq<char> {
    if format == LsFormat::Commas { ctx } else { pad_start(ctx, pad) }
}

/// The text of a name cell: the styled name, after the leading
/// information (`more`) outside the long format, then the indicator, the
/// target of a symbolic link (` -> target`), and the security context
/// first with a space.
pub open spec fn name_text(
    styled: Seq<char>,
    more: Seq<char>,
    format: LsFormat,
    indicator: Option<char>,
    target: Option<Seq<char>>,
    context: Option<(Seq<char>, nat)>,
) -> Seq<char> {
    let n1 = if format != LsFormat::Long && more.len() > 0 { more + styled } else { styled };
    let n2 = match indicator { Some(c) => n1.push(c), None => n1 };
    let n3 = match target { Some(t) => n2 + " -> "@ + t, None => n2 };
    match context { Some((ctx, pad)) => context_prefix(ctx, pad, format) + " "@ + n3, None => n3 }
}

/// The width of a name cell: that of the escaped name, of the leading
/// information when it goes first, one for an indicator, and the bytes of
/// the context and a space.
pub open spec fn name_width(
    escaped: Seq<char>,
    more: Seq<char>,
    format: LsFormat,
    indicator: Option<char>,
    context: Option<(Seq<char>, nat)>,
) -> int {
    text_width(escaped) + (if format != LsFormat::Long && more.len() > 0 { text_width(more) as int } else { 0 })
        + (if indicator is Some { 1int } else { 0 })
        + match context { Some((ctx, pad)) => byte_len(context_prefix(ctx, pad, format)) + 1, None => 0 }
}

/// The cell of a name: `styled` is the escaped name (`escaped`) after any
/// hyperlink and colouring, `more` the leading information, `indicator` the
/// character that the indicator style keeps, `target` the text of a
/// symbolic link's target in the long format, and `context` the security
/// context and the width it is padded to, when `-Z` shows it there.
pub fn display_item_name(
    styled: &str,
    escaped: &str,
    more: &str,
    format: LsFormat,
    indicator: Option<char>,
    target: Option<&str>,
    context: Option<(&str, usize)>,
) -> (r: NameCell)
    requires
        name_width(escaped@, more@, format, indicator, match context {
            Some((c, p)) => Some((c@, p as nat)),
            None => None,
        }) <= usize::MAX,
    ensures
        r.contents@ == name_text(styled@, more@, format, indicator, match target {
            Some(t) => Some(t@),
            None => None,
        }, match context {
            Some((c, p)) => Some((c@, p as nat)),
            None => None,
        }),
        r.width as int == name_width(escaped@, more@, format, indicator, match context {
            Some((c, p)) => Some((c@, p as nat)),
            None => None,
        }),
{
    let mut v: Vec<char> = Vec::new();
    let w0 = str_width(escaped);
    let mut width: usize = w0;
    let more_cs = chars_of(more);
    if format != LsFormat::Long && more_cs.len() > 0 {
        width = width + str_width(more);
        push_chars(&mut v, &more_cs);
    }
    push_str(&mut v, styled);
    match indicator {
        Some(c) => {
            v.push(c);
            width = width + 1;
        },
        None => {},
    }
    match target {
        Some(t) => {
            push_str(&mut v, " -> ");
            push_str(&mut v, t);
        },
        None => {},
    }
    match context {
        Some((ctx, pad)) => {
            let mut p: Vec<char> = Vec::new();
            let cs = chars_of(ctx);
            if format == LsFormat::Commas {
                push_chars(&mut p, &cs);
            } else {
                push_pad_start(&mut p, &cs, pad);
            }
            let ps = string_from_chars(&p);
            width = width + str_byte_len(ps.as_str()) + 1;
            push_str(&mut p, " ");
            push_chars(&mut p, &v);
            v = p;
        },
        None => {},
    }
    let ghost tv = match target { Some(t) => Some(t@), None => None };
    let ghost cv = match context { Some((c, p)) => Some((c@, p as nat)), None => None };
    assert(v@ =~= name_text(styled@, more@, format, indicator, tv, cv));
    NameCell { contents: string_from_chars(&v), width }
}

/// The lower-case hexadecimal digit of a value below 16.
pub open spec fn hex_lower_digit(d: nat) -> char {
    if d == 0 { '0' } else if d == 1 { '1' } else if d == 2 { '2' } else if d == 3 { '3' }
    else if d == 4 { '4' } else if d == 5 { '5' } else if d == 6 { '6' } else if d == 7 { '7' }
    else if d == 8 { '8' } else if d == 9 { '9' } else if d == 10 { 'a' } else if d == 11 { 'b' }
    else if d == 12 { 'c' } else if d == 13 { 'd' } else if d == 14 { 'e' } else { 'f' }
}

fn hex_char(d: u32) -> (r: char)
    requires
        d < 16,
    ensures
        r == hex_lower_digit(d as nat),
{
    if d == 0 { '0' } else if d == 1 { '1' } else if d == 2 { '2' } else if d == 3 { '3' }
    else if d == 4 { '4' } else if d == 5 { '5' } else if d == 6 { '6' } else if d == 7 { '7' }
    else if d == 8 { '8' } else if d == 9 { '9' } else if d == 10 { 'a' } else if d == 11 { 'b' }
    else if d == 12 { 'c' } else if d == 13 { 'd' } else if d == 14 { 'e' } else { 'f' }
}

/// Whether std counts a character as alphanumeric (`char::is_alphanumeric`).
pub uninterp spec fn alphanumeric(c: char) -> bool;

/// `char::is_alphanumeric` of std: claims only that the answer depends on
/// the character alone.
#[verifier::external_body]
fn is_alphanumeric(c: char) -> (r: bool)
    ensures
        r == alphanumeric(c),
{
    c.is_alphanumeric()
}

/// A character that a file URL keeps as it is.
pub open spec fn url_safe(c: char) -> bool {
    alphanumeric(c) || c == '_' || c == '-' || c == '.' || c == ':' || c == '~' || c == '/'
}

/// A path in a file URL: each character that is not kept becomes `%` and
/// two hexadecimal digits of the low byte of its code point.
pub open spec fn percent_encoded(s: Seq<char>) -> Seq<char>
    decreases s.len(),
{
    if s.len() == 0 {
        Seq::empty()
    } else {
        let c = s.last();
        let code = (c as u32) as nat % 256;
        percent_encoded(s.drop_last()) + if url_safe(c) {
            seq![c]
        } else {
            seq!['%', hex_lower_digit(code / 16), hex_lower_digit(code % 16)]
        }
    }
}

/// The terminal hyperlink around a name: `ESC ] 8 ; ; file://` host and
/// encoded path, `BEL`, the name, then `ESC ] 8 ; ; BEL`.
pub open spec fn hyperlink_spec(name: Seq<char>, host: Seq<char>, path: Seq<char>) -> Seq<char> {
    seq!['\x1b'] + "]8;;file://"@ + host + percent_encoded(path) + seq!['\x07'] + name + seq!['\x1b'] + "]8;;"@
        + seq!['\x07']
}

/// A name made a hyperlink to its file, from the host's name and the
/// file's absolute path (`hyperlink_spec`).
pub fn create_hyperlink(name: &str, host: &str, path: &str) -> (r: String)
    ensures
        r@ == hyperlink_spec(name@, host@, path@),
{
    let mut v: Vec<char> = Vec::new();
    v.push('\x1b');
    push_str(&mut v, "]8;;file://");
    push_str(&mut v, host);
    let ghost head = v@;
    let cs = chars_of(path);
    let mut i: usize = 0;
    while i < cs.len()
        invariant
            i <= cs@.len(),
            cs@ == path@,
            v@ == head + percent_encoded(cs@.take(i as int)),
        decreases cs@.len() - i,
    {
        let c = cs[i];
        assert(cs@.take(i + 1).drop_last() =~= cs@.take(i as int));
        if is_alphanumeric(c) || c == '_' || c == '-' || c == '.' || c == ':' || c == '~' || c == '/' {
            v.push(c);
        } else {
            let code: u32 = (c as u32) % 256;
            v.push('%');
            v.push(hex_char(code / 16));
            v.push(hex_char(code % 16));
        }
        assert(v@ =~= head + percent_encoded(cs@.take(i + 1)));
        i = i + 1;
    }
    assert(cs@.take(cs@.len() as int) =~= cs@);
    v.push('\x07');
    push_str(&mut v, name);
    v.push('\x1b');
    push_str(&mut v, "]8;;");
    v.push('\x07');
    assert(v@ =~= hyperlink_spec(name@, host@, path@));
    string_from_chars(&v)
}


// ---------------------------------------------------------------------------
// The long format
// ---------------------------------------------------------------------------

/// The size column of a long line: a size, or a device's major and minor
/// numbers.
pub enum SizeField {
    Size(String),
    Device(String, String),
}

/// What the long format shows of an entry whose metadata could be read,
/// each field already written out.
pub struct LongFields {
    pub permissions: String,
    pub acl: bool,
    pub link_count: String,
    pub owner: String,
    pub group: String,
    pub size: SizeField,
    pub date: String,
}

// ---------------------------------------------------------------------------
// Quoting names
// ---------------------------------------------------------------------------

/// A control character (general category `Cc`, as `char::is_control`).
pub open spec fn is_control_char(c: char) -> bool {
    (c as u32) < 0x20 || (0x7f <= (c as u32) && (c as u32) < 0xa0)
}

/// A character that makes the shell styles quote a name.
pub open spec fn shell_special(c: char) -> bool {
    " \t\n'\"\\$`!*?[]{}()<>|&;#~=%^"@.contains(c) || is_control_char(c)
}

/// Three octal digits of a number below 512.
pub open spec fn octal3(n: u32) -> Seq<char> {
    seq![
        (('0' as u32) + (n / 64) % 8) as char,
        (('0' as u32) + (n / 8) % 8) as char,
        (('0' as u32) + n % 8) as char,
    ]
}

/// What a style makes of one character of a name: the literal style shows a
/// control character as `?` unless control characters are shown; the shell
/// styles write a quote as `'\''` and, when escaping, a control character
/// as `'$'\NNN''`; the C style escapes quotes (with double quotes),
/// backslashes, newlines, tabs, spaces (without double quotes) and control
/// characters.
pub open spec fn quoted_char(c: char, style: QuotingStyle) -> Seq<char> {
    match style {
        QuotingStyle::Literal { show_control } => if is_control_char(c) && !show_control { seq!['?'] } else { seq![c] },
        QuotingStyle::Shell { escape, always_quote, show_control } => if c == '\'' {
            seq!['\'', '\\', '\'', '\'']
        } else if is_control_char(c) && escape {
            seq!['\'', '$', '\'', '\\'] + octal3(c as u32) + seq!['\'', '\'']
        } else if is_control_char(c) && !show_control {
            seq!['?']
        } else {
            seq![c]
        },
        QuotingStyle::C { double_quotes } => if c == '"' && double_quotes {
            seq!['\\', '"']
        } else if c == '\\' {
            seq!['\\', '\\']
        } else if c == '\n' {
            seq!['\\', 'n']
        } else if c == '\t' {
            seq!['\\', 't']
        } else if c == ' ' && !double_quotes {
            seq!['\\', ' ']
        } else if is_control_char(c) {
            seq!['\\'] + octal3(c as u32)
        } else {
            seq![c]
        },
    }
}

/// Each character of a name as the style writes it.
pub open spec fn quoted_body(s: Seq<char>, style: QuotingStyle) -> Seq<char>
    decreases s.len(),
{
    if s.len() == 0 {
        Seq::empty()
    } else {
        quoted_body(s.drop_last(), style) + quoted_char(s.last(), style)
    }
}

/// A name as the quoting style shows it: the body, between single quotes
/// in the shell styles when quoting is forced, the name is empty, or it
/// holds a special character; between double quotes in the C style that
/// uses them.
pub open spec fn escape_name_spec(name: Seq<char>, style: QuotingStyle) -> Seq<char> {
    let body = quoted_body(name, style);
    match style {
        QuotingStyle::Literal { .. } => body,
        QuotingStyle::Shell { always_quote, .. } => if always_quote || name.len() == 0 || exists|i: int|
            0 <= i < name.len() && #[trigger] shell_special(name[i]) {
            seq!['\''] + body + seq!['\'']
        } else {
            body
        },
        QuotingStyle::C { double_quotes } => if double_quotes { seq!['"'] + body + seq!['"'] } else { body },
    }
}

fn control_char(c: char) -> (r: bool)
    ensures
        r == is_control_char(c),
{
    (c as u32) < 0x20 || (0x7f <= (c as u32) && (c as u32) < 0xa0)
}

fn special_char(c: char) -> (r: bool)
    ensures
        r == shell_special(c),
{
    proof {
        reveal_strlit(" \t\n'\"\\$`!*?[]{}()<>|&;#~=%^");
    }
    let specials = chars_of(" \t\n'\"\\$`!*?[]{}()<>|&;#~=%^");
    let mut k: usize = 0;
    while k < specials.len()
        invariant
            k <= specials@.len(),
            specials@ == " \t\n'\"\\$`!*?[]{}()<>|&;#~=%^"@,
            forall|j: int| 0 <= j < k ==> specials@[j] != c,
        decreases specials@.len() - k,
    {
        if specials[k] == c {
            assert(specials@.contains(c));
            return true;
        }
        k = k + 1;
    }
    control_char(c)
}

fn push_octal3(v: &mut Vec<char>, n: u32)
    requires
        n < 512,
    ensures
        final(v)@ == old(v)@ + octal3(n),
{
    let a = (('0' as u32) + (n / 64) % 8) as u8 as char;
    let b = (('0' as u32) + (n / 8) % 8) as u8 as char;
    let c = (('0' as u32) + n % 8) as u8 as char;
    v.push(a);
    v.push(b);
    v.push(c);
    assert(final(v)@ =~= old(v)@ + octal3(n));
}

/// A name as the quoting style shows it (`escape_name_spec`).
pub fn escape_name(name: &str, style: QuotingStyle) -> (r: String)
    ensures
        r@ == escape_name_spec(name@, style),
{
    let cs = chars_of(name);
    let mut body: Vec<char> = Vec::new();
    let mut special = false;
    let mut i: usize = 0;
    assert(cs@.take(0) =~= Seq::<char>::empty());
    while i < cs.len()
        invariant
            i <= cs@.len(),
            cs@ == name@,
            body@ == quoted_body(cs@.take(i as int), style),
            special == exists|j: int| 0 <= j < i && #[trigger] shell_special(cs@[j]),
        decreases cs@.len() - i,
    {
        let c = cs[i];
        let ghost b0 = body@;
        if special_char(c) {
            special = true;
        }
        let ctrl = control_char(c);
        match style {
            QuotingStyle::Literal { show_control } => {
                if ctrl && !show_control {
                    body.push('?');
                } else {
                    body.push(c);
                }
            },
            QuotingStyle::Shell { escape, always_quote, show_control } => {
                if c == '\'' {
                    body.push('\'');
                    body.push('\\');
                    body.push('\'');
                    body.push('\'');
                } else if ctrl && escape {
                    body.push('\'');
                    body.push('$');
                    body.push('\'');
                    body.push('\\');
                    push_octal3(&mut body, c as u32);
                    body.push('\'');
                    body.push('\'');
                } else if ctrl && !show_control {
                    body.push('?');
                } else {
                    body.push(c);
                }
            },
            QuotingStyle::C { double_quotes } => {
                if c == '"' && double_quotes {
                    body.push('\\');
                    body.push('"');
                } else if c == '\\' {
                    body.push('\\');
                    body.push('\\');
                } else if c == '\n' {
                    body.push('\\');
                    body.push('n');
                } else if c == '\t' {
                    body.push('\\');
                    body.push('t');
                } else if c == ' ' && !double_quotes {
                    body.push('\\');
                    body.push(' ');
                } else if ctrl {
                    body.push('\\');
                    push_octal3(&mut body, c as u32);
                } else {
                    body.push(c);
                }
            },
        }
        proof {
            let t = cs@.take(i + 1);
            assert(t.drop_last() =~= cs@.take(i as int));
            assert(t.last() == c);
            assert(body@ =~= b0 + quoted_char(c, style));
            if shell_special(c) {
                assert(shell_special(cs@[i as int]));
            }
        }
        i = i + 1;
    }
    assert(cs@.take(cs@.len() as int) =~= cs@);
    let quote = match style {
        QuotingStyle::Literal { .. } => 0u8,
        QuotingStyle::Shell { always_quote, .. } => if always_quote || cs.len() == 0 || special { 1u8 } else { 0u8 },
        QuotingStyle::C { double_quotes } => if double_quotes { 2u8 } else { 0u8 },
    };
    let mut v: Vec<char> = Vec::new();
    if quote == 1 {
        v.push('\'');
    } else if quote == 2 {
        v.push('"');
    }
    push_chars(&mut v, &body);
    if quote == 1 {
        v.push('\'');
    } else if quote == 2 {
        v.push('"');
    }
    proof {
        if quote == 1 {
            assert(v@ =~= seq!['\''] + body@ + seq!['\'']);
        } else if quote == 2 {
            assert(v@ =~= seq!['"'] + body@ + seq!['"']);
        } else {
            assert(v@ =~= body@);
        }
    }
    string_from_chars(&v)
}

/// The major number of a device, as glibc packs it into a `dev_t`.
pub open spec fn dev_major(dev: u64) -> u32 {
    (((dev & 0xfff00u64) >> 8u64) | ((dev & 0xfffff00000000000u64) >> 32u64)) as u32
}

/// The minor number of a device, as glibc packs it into a `dev_t`.
pub open spec fn dev_minor(dev: u64) -> u32 {
    ((dev & 0xffu64) | ((dev & 0xffffff00000u64) >> 12u64)) as u32
}

/// The size column of a device: its major and minor numbers (what libc's
/// `major` and `minor` compute).
pub fn device_field(rdev: u64) -> (r: SizeField)
    ensures
        r matches SizeField::Device(a, b) && a@ == decimal(dev_major(rdev) as nat) && b@ == decimal(
            dev_minor(rdev) as nat,
        ),
{
    let major: u32 = (((rdev & 0xfff00u64) >> 8u64) | ((rdev & 0xfffff00000000000u64) >> 32u64)) as u32;
    let minor: u32 = ((rdev & 0xffu64) | ((rdev & 0xffffff00000u64) >> 12u64)) as u32;
    SizeField::Device(string_from_chars(&u64_decimal(major as u64)), string_from_chars(&u64_decimal(minor as u64)))
}

/// Half of the average Gregorian year, in nanoseconds: dates less old than
/// this are recent.
pub open spec fn half_year_nanos() -> int {
    15_778_476_000_000_000
}

/// Whether a date (in nanoseconds since the epoch) is recent: in the last
/// half year, and not in the future.
pub open spec fn recent_spec(time: i128, now: i128) -> bool {
    now - half_year_nanos() < time && time < now
}

/// Whether a date is recent (`recent_spec`).
pub fn is_recent(time: i128, now: i128) -> (r: bool)
    ensures
        r == recent_spec(time, now),
{
    let half: i128 = 15_778_476_000_000_000;
    let after = if now >= i128::MIN + half { time > now - half } else { true };
    after && time < now
}

/// The `strftime` format of a date in the long format: the ISO forms, the
/// locale's form (both of which differ for recent dates), or the format
/// given after `+`.
pub open spec fn date_format_spec(style: LsTimeStyle, recent: bool) -> Seq<char> {
    match style {
        LsTimeStyle::LsFullIso => "%Y-%m-%d %H:%M:%S.%f %z"@,
        LsTimeStyle::LsLongIso => "%Y-%m-%d %H:%M"@,
        LsTimeStyle::LsIso => if recent { "%m-%d %H:%M"@ } else { "%Y-%m-%d "@ },
        LsTimeStyle::LsLocale => if recent { "%b %e %H:%M"@ } else { "%b %e  %Y"@ },
        LsTimeStyle::LsFormat(f) => f@,
    }
}

/// The format of a date (`date_format_spec`).
pub fn date_format(style: &LsTimeStyle, recent: bool) -> (r: String)
    ensures
        r@ == date_format_spec(*style, recent),
{
    match style {
        LsTimeStyle::LsFullIso => string_from_chars(&chars_of("%Y-%m-%d %H:%M:%S.%f %z")),
        LsTimeStyle::LsLongIso => string_from_chars(&chars_of("%Y-%m-%d %H:%M")),
        LsTimeStyle::LsIso => if recent {
            string_from_chars(&chars_of("%m-%d %H:%M"))
        } else {
            string_from_chars(&chars_of("%Y-%m-%d "))
        },
        LsTimeStyle::LsLocale => if recent {
            string_from_chars(&chars_of("%b %e %H:%M"))
        } else {
            string_from_chars(&chars_of("%b %e  %Y"))
        },
        LsTimeStyle::LsFormat(f) => string_from_chars(&chars_of(f.as_str())),
    }
}

/// The widths that the columns of a listing are padded to.
#[derive(PartialEq, Eq, Structural, Clone, Copy, Debug)]
pub struct LsPadding {
    pub inode: usize,
    pub link_count: usize,
    pub uname: usize,
    pub group: usize,
    pub context: usize,
    pub size: usize,
    pub major: usize,
    pub minor: usize,
    pub block_size: usize,
}

/// The end of a line: NUL with `--zero`, newline otherwise.
pub open spec fn line_end(zero: bool) -> Seq<char> {
    if zero { "\0"@ } else { "\n"@ }
}

/// A column of the long format: a space and the text padded on the right,
/// when the column is shown.
pub open spec fn column(show: bool, text: Seq<char>, w: nat) -> Seq<char> {
    if show { " "@ + pad_end(text, w) } else { Seq::empty() }
}

/// `a + b` on `usize`, stopping at the largest value.
pub open spec fn sat_add(a: usize, b: usize) -> usize {
    if a + b > usize::MAX { usize::MAX } else { (a + b) as usize }
}

/// `a - b` on `usize`, stopping at zero.
pub open spec fn sat_sub(a: usize, b: usize) -> usize {
    if a < b { 0 } else { (a - b) as usize }
}

/// The width of a device's major number: its own padding, or what the
/// size column leaves beside the minor number and `, `.
pub open spec fn major_width(p: LsPadding) -> usize {
    let w = sat_sub(p.size, sat_add(p.minor, 2));
    if p.major >= w { p.major } else { w }
}

/// The size column of a long line, with its leading space.
pub open spec fn size_column(f: SizeField, p: LsPadding) -> Seq<char> {
    match f {
        SizeField::Size(s) => " "@ + pad_start(s@, p.size as nat),
        SizeField::Device(major, minor) => " "@ + pad_start(major@, major_width(p) as nat) + ", "@ + pad_start(
            minor@,
            p.minor as nat,
        ),
    }
}

/// Whether an entry has a security context to mark: one longer than a
/// byte (`?` stands for none).
pub open spec fn has_context(ctx: Seq<char>) -> bool {
    byte_len(ctx) > 1
}

/// The name of a long line: after a space when some name of the listing
/// is quoted and this one is not.
pub open spec fn shown_name(name: Seq<char>, quoted: bool) -> Seq<char> {
    if quoted && !(name.len() > 0 && name[0] == '\'') { " "@ + name } else { name }
}

/// The long line of an entry whose metadata could be read: mode string
/// and access mark (`+` for an ACL, `.` for a security context), link
/// count, owner, group, context, author, size, date, name; each column
/// padded; two spaces first with `--dired`.
pub open spec fn long_known_text(
    f: LongFields,
    ctx: Seq<char>,
    name: Seq<char>,
    p: LsPadding,
    long: LsLongFormat,
    is_context: bool,
    dired: bool,
    quoted: bool,
    zero: bool,
) -> Seq<char> {
    (if dired { "  "@ } else { Seq::empty() }) + f.permissions@ + (if f.acl {
        "+"@
    } else if has_context(ctx) {
        "."@
    } else {
        Seq::empty()
    }) + " "@ + pad_start(f.link_count@, p.link_count as nat) + column(long.is_owner, f.owner@, p.uname as nat)
        + column(long.is_group, f.group@, p.group as nat) + column(is_context, ctx, p.context as nat) + column(
        long.is_author,
        f.owner@,
        p.uname as nat,
    ) + size_column(f.size, p) + " "@ + f.date@ + " "@ + shown_name(name, quoted) + line_end(zero)
}

/// The type letter of an entry whose metadata could not be read.
pub open spec fn unknown_letter(kind: Option<FileKind>) -> char {
    match kind {
        Some(FileKind::CharDevice) => 'c',
        Some(FileKind::BlockDevice) => 'b',
        Some(FileKind::Symlink) => 'l',
        Some(FileKind::Dir) => 'd',
        _ => '-',
    }
}

/// The start of the long line of an entry whose metadata could not be
/// read: its type letter, `?` for the mode, the context mark, `?` for the
/// link count.
pub open spec fn unknown_lead(kind: Option<FileKind>, ctx: Seq<char>, p: LsPadding, dired: bool) -> Seq<char> {
    (if dired { "  "@ } else { Seq::empty() }) + seq![unknown_letter(kind)] + "?????????"@ + (if has_context(ctx) {
        "."@
    } else {
        Seq::empty()
    }) + " "@ + pad_start("?"@, p.link_count as nat)
}

/// The owner, group, context and author columns, `?` standing for what is
/// unknown.
pub open spec fn unknown_owners(ctx: Seq<char>, p: LsPadding, long: LsLongFormat, is_context: bool) -> Seq<char> {
    column(long.is_owner, "?"@, p.uname as nat) + column(long.is_group, "?"@, p.group as nat) + column(
        is_context,
        ctx,
        p.context as nat,
    ) + column(long.is_author, "?"@, p.uname as nat)
}

/// The size and date columns, both `?`.
pub open spec fn unknown_tail(p: LsPadding) -> Seq<char> {
    " "@ + pad_start("?"@, p.size as nat) + " "@ + pad_start("?"@, 12) + " "@
}

/// The columns of the long line of an entry whose metadata could not be
/// read, up to its name.
pub open spec fn unknown_columns(
    kind: Option<FileKind>,
    ctx: Seq<char>,
    p: LsPadding,
    long: LsLongFormat,
    is_context: bool,
    dired: bool,
) -> Seq<char> {
    unknown_lead(kind, ctx, p, dired) + unknown_owners(ctx, p, long, is_context) + unknown_tail(p)
}

/// The long line of an entry whose metadata could not be read.
pub open spec fn long_unknown_text(
    kind: Option<FileKind>,
    ctx: Seq<char>,
    name: Seq<char>,
    p: LsPadding,
    long: LsLongFormat,
    is_context: bool,
    dired: bool,
    zero: bool,
) -> Seq<char> {
    unknown_columns(kind, ctx, p, long, is_context, dired) + name + line_end(zero)
}

fn push_column(v: &mut Vec<char>, show: bool, text: &str, w: usize)
    ensures
        final(v)@ == old(v)@ + column(show, text@, w as nat),
{
    if show {
        push_str(v, " ");
        push_pad_end(v, &chars_of(text), w);
    }
    assert(final(v)@ =~= old(v)@ + column(show, text@, w as nat));
}

fn push_line_end(v: &mut Vec<char>, zero: bool)
    ensures
        final(v)@ == old(v)@ + line_end(zero),
{
    if zero {
        push_str(v, "\0");
    } else {
        push_str(v, "\n");
    }
}

fn push_size_column(v: &mut Vec<char>, f: &SizeField, p: &LsPadding)
    ensures
        final(v)@ == old(v)@ + size_column(*f, *p),
{
    match f {
        SizeField::Size(s) => {
            push_str(v, " ");
            push_pad_start(v, &chars_of(s.as_str()), p.size);
        },
        SizeField::Device(major, minor) => {
            let m2 = p.minor.saturating_add(2);
            let inner = p.size.saturating_sub(m2);
            let w = if p.major >= inner { p.major } else { inner };
            push_str(v, " ");
            push_pad_start(v, &chars_of(major.as_str()), w);
            push_str(v, ", ");
            push_pad_start(v, &chars_of(minor.as_str()), p.minor);
        },
    }
    assert(final(v)@ =~= old(v)@ + size_column(*f, *p));
}

fn push_head(v: &mut Vec<char>, dired: bool)
    ensures
        final(v)@ == old(v)@ + (if dired { "  "@ } else { Seq::empty() }),
{
    if dired {
        push_str(v, "  ");
    } else {
        assert(final(v)@ =~= old(v)@ + Seq::<char>::empty());
    }
}

/// The long line of an entry whose metadata could be read
/// (`long_known_text`).
#[verifier::rlimit(40)]
pub fn long_line_known(
    f: &LongFields,
    ctx: &str,
    name: &str,
    p: &LsPadding,
    long: LsLongFormat,
    is_context: bool,
    dired: bool,
    quoted: bool,
    zero: bool,
) -> (r: String)
    ensures
        r@ == long_known_text(*f, ctx@, name@, *p, long, is_context, dired, quoted, zero),
{
    let mut v: Vec<char> = Vec::new();
    push_head(&mut v, dired);
    push_str(&mut v, f.permissions.as_str());
    if f.acl {
        push_str(&mut v, "+");
    } else if str_byte_len(ctx) > 1 {
        push_str(&mut v, ".");
    }
    push_str(&mut v, " ");
    push_pad_start(&mut v, &chars_of(f.link_count.as_str()), p.link_count);
    let ghost a = v@;
    push_column(&mut v, long.is_owner, f.owner.as_str(), p.uname);
    push_column(&mut v, long.is_group, f.group.as_str(), p.group);
    push_column(&mut v, is_context, ctx, p.context);
    push_column(&mut v, long.is_author, f.owner.as_str(), p.uname);
    push_size_column(&mut v, &f.size, p);
    push_str(&mut v, " ");
    push_str(&mut v, f.date.as_str());
    push_str(&mut v, " ");
    let ghost b = v@;
    let ncs = chars_of(name);
    if quoted && !(ncs.len() > 0 && ncs[0] == '\'') {
        push_str(&mut v, " ");
    }
    push_chars(&mut v, &ncs);
    assert(v@ =~= b + shown_name(name@, quoted));
    push_line_end(&mut v, zero);
    assert(v@ =~= long_known_text(*f, ctx@, name@, *p, long, is_context, dired, quoted, zero));
    string_from_chars(&v)
}

fn push_unknown_lead(v: &mut Vec<char>, kind: Option<FileKind>, ctx: &str, p: &LsPadding, dired: bool)
    ensures
        final(v)@ == old(v)@ + unknown_lead(kind, ctx@, *p, dired),
{
    let mut w: Vec<char> = Vec::new();
    push_head(&mut w, dired);
    let letter = match kind {
        Some(FileKind::CharDevice) => 'c',
        Some(FileKind::BlockDevice) => 'b',
        Some(FileKind::Symlink) => 'l',
        Some(FileKind::Dir) => 'd',
        _ => '-',
    };
    w.push(letter);
    push_str(&mut w, "?????????");
    if str_byte_len(ctx) > 1 {
        push_str(&mut w, ".");
    }
    push_str(&mut w, " ");
    push_pad_start(&mut w, &chars_of("?"), p.link_count);
    assert(w@ =~= unknown_lead(kind, ctx@, *p, dired));
    push_chars(v, &w);
}

fn push_unknown_owners(v: &mut Vec<char>, ctx: &str, p: &LsPadding, long: LsLongFormat, is_context: bool)
    ensures
        final(v)@ == old(v)@ + unknown_owners(ctx@, *p, long, is_context),
{
    let mut w: Vec<char> = Vec::new();
    push_column(&mut w, long.is_owner, "?", p.uname);
    push_column(&mut w, long.is_group, "?", p.group);
    push_column(&mut w, is_context, ctx, p.context);
    push_column(&mut w, long.is_author, "?", p.uname);
    assert(w@ =~= unknown_owners(ctx@, *p, long, is_context));
    push_chars(v, &w);
}

fn push_unknown_tail(v: &mut Vec<char>, p: &LsPadding)
    ensures
        final(v)@ == old(v)@ + unknown_tail(*p),
{
    let mut w: Vec<char> = Vec::new();
    let q = chars_of("?");
    push_str(&mut w, " ");
    push_pad_start(&mut w, &q, p.size);
    push_str(&mut w, " ");
    push_pad_start(&mut w, &q, 12);
    push_str(&mut w, " ");
    assert(w@ =~= unknown_tail(*p));
    push_chars(v, &w);
}

fn push_unknown_columns(
    v: &mut Vec<char>,
    kind: Option<FileKind>,
    ctx: &str,
    p: &LsPadding,
    long: LsLongFormat,
    is_context: bool,
    dired: bool,
)
    ensures
        final(v)@ == old(v)@ + unknown_columns(kind, ctx@, *p, long, is_context, dired),
{
    push_unknown_lead(v, kind, ctx, p, dired);
    push_unknown_owners(v, ctx, p, long, is_context);
    push_unknown_tail(v, p);
    assert(final(v)@ =~= old(v)@ + unknown_columns(kind, ctx@, *p, long, is_context, dired));
}

/// The long line of an entry whose metadata could not be read
/// (`long_unknown_text`).
pub fn long_line_unknown(
    kind: Option<FileKind>,
    ctx: &str,
    name: &str,
    p: &LsPadding,
    long: LsLongFormat,
    is_context: bool,
    dired: bool,
    zero: bool,
) -> (r: String)
    ensures
        r@ == long_unknown_text(kind, ctx@, name@, *p, long, is_context, dired, zero),
{
    let mut v: Vec<char> = Vec::new();
    push_unknown_columns(&mut v, kind, ctx, p, long, is_context, dired);
    push_str(&mut v, name);
    push_line_end(&mut v, zero);
    assert(v@ =~= long_unknown_text(kind, ctx@, name@, *p, long, is_context, dired, zero));
    string_from_chars(&v)
}


// ---------------------------------------------------------------------------
// Column widths and leading information
// ---------------------------------------------------------------------------

/// The lengths (in bytes) of what an entry shows in each column, as far as
/// its metadata could be read.
#[derive(Clone, Copy, Debug)]
pub struct EntryLens {
    pub has_metadata: bool,
    pub inode: usize,
    pub block_size: usize,
    pub context: usize,
    pub link_count: usize,
    pub uname: usize,
    pub group: usize,
    pub size: usize,
    pub major: usize,
    pub minor: usize,
}

/// The largest value of `f` over the entries, and at least one.
pub open spec fn lens_max(items: Seq<EntryLens>, f: spec_fn(EntryLens) -> int) -> int
    decreases items.len(),
{
    if items.len() == 0 {
        1
    } else {
        let m = lens_max(items.drop_last(), f);
        let x = f(items.last());
        if x > m { x } else { m }
    }
}

/// Whether an entry counts for the widths: with `-i`, only one whose
/// metadata could be read.
pub open spec fn counted(e: EntryLens, is_inode: bool) -> bool {
    !(is_inode && !e.has_metadata)
}

/// How much an entry asks of a column: its length there when the column is
/// shown and the value is known, nothing otherwise.
pub open spec fn inode_need(is_inode: bool) -> spec_fn(EntryLens) -> int {
    |e: EntryLens| if is_inode && e.has_metadata { e.inode as int } else { 0 }
}

pub open spec fn block_need(is_alloc_size: bool) -> spec_fn(EntryLens) -> int {
    |e: EntryLens| if is_alloc_size && e.has_metadata { e.block_size as int } else { 0 }
}

pub open spec fn link_need(long: bool) -> spec_fn(EntryLens) -> int {
    |e: EntryLens| if long && e.has_metadata { e.link_count as int } else { 0 }
}

pub open spec fn uname_need(long: bool) -> spec_fn(EntryLens) -> int {
    |e: EntryLens| if long && e.has_metadata { e.uname as int } else { 0 }
}

pub open spec fn group_need(long: bool) -> spec_fn(EntryLens) -> int {
    |e: EntryLens| if long && e.has_metadata { e.group as int } else { 0 }
}

pub open spec fn context_need(long: bool, is_context: bool, is_inode: bool) -> spec_fn(EntryLens) -> int {
    |e: EntryLens| if long && is_context && counted(e, is_inode) { e.context as int } else { 0 }
}

pub open spec fn major_need(long: bool) -> spec_fn(EntryLens) -> int {
    |e: EntryLens| if long && e.has_metadata { e.major as int } else { 0 }
}

pub open spec fn minor_need(long: bool) -> spec_fn(EntryLens) -> int {
    |e: EntryLens| if long && e.has_metadata { e.minor as int } else { 0 }
}

pub open spec fn size_need(long: bool) -> spec_fn(EntryLens) -> int {
    |e: EntryLens| if long && e.has_metadata { e.size as int } else { 0 }
}

/// The widths of the columns of a listing: each the longest of its values
/// and at least one, over the entries that count (`counted`); the inode
/// and block columns only where asked; the long columns only in the long
/// format, from entries whose metadata could be read, the context column
/// only with `-Z`. The size column is at least as wide as the major
/// numbers; a listing of one entry in the long format pads neither sizes
/// nor device numbers.
pub open spec fn padding_spec(
    items: Seq<EntryLens>,
    is_inode: bool,
    is_alloc_size: bool,
    long: bool,
    is_context: bool,
) -> LsPadding {
    let single = items.len() == 1 && long && counted(items[0], is_inode);
    let major = lens_max(items, major_need(long));
    let minor = lens_max(items, minor_need(long));
    let size = lens_max(items, size_need(long));
    LsPadding {
        inode: lens_max(items, inode_need(is_inode)) as usize,
        block_size: lens_max(items, block_need(is_alloc_size)) as usize,
        link_count: lens_max(items, link_need(long)) as usize,
        uname: lens_max(items, uname_need(long)) as usize,
        group: lens_max(items, group_need(long)) as usize,
        context: lens_max(items, context_need(long, is_context, is_inode)) as usize,
        major: if single { 0 } else { major as usize },
        minor: if single { 0 } else { minor as usize },
        size: if single { 0 } else { (if size > major { size } else { major }) as usize },
    }
}

proof fn lemma_lens_max_step(items: Seq<EntryLens>, i: int, f: spec_fn(EntryLens) -> int)
    requires
        0 <= i < items.len(),
    ensures
        lens_max(items.take(i + 1), f) == (if f(items[i]) > lens_max(items.take(i), f) {
            f(items[i])
        } else {
            lens_max(items.take(i), f)
        }),
{
    assert(items.take(i + 1).drop_last() =~= items.take(i));
}

fn max_usize(a: usize, b: usize) -> (r: usize)
    ensures
        r == (if a > b { a } else { b }),
{
    if a > b { a } else { b }
}

/// The widths of the columns of a listing (`padding_spec`).
#[verifier::rlimit(60)]
pub fn calculate_padding_collection(
    items: &[EntryLens],
    is_inode: bool,
    is_alloc_size: bool,
    long: bool,
    is_context: bool,
) -> (r: LsPadding)
    ensures
        r == padding_spec(items@, is_inode, is_alloc_size, long, is_context),
{
    let ghost fi = inode_need(is_inode);
    let ghost fb = block_need(is_alloc_size);
    let ghost fl = link_need(long);
    let ghost fu = uname_need(long);
    let ghost fg = group_need(long);
    let ghost fc = context_need(long, is_context, is_inode);
    let ghost fmaj = major_need(long);
    let ghost fmin = minor_need(long);
    let ghost fs = size_need(long);
    let mut p = LsPadding {
        inode: 1,
        link_count: 1,
        uname: 1,
        group: 1,
        context: 1,
        size: 1,
        major: 1,
        minor: 1,
        block_size: 1,
    };
    let single = items.len() == 1;
    let mut i: usize = 0;
    while i < items.len()
        invariant
            i <= items@.len(),
            single == (items@.len() == 1),
            fi == inode_need(is_inode),
            fb == block_need(is_alloc_size),
            fl == link_need(long),
            fu == uname_need(long),
            fg == group_need(long),
            fc == context_need(long, is_context, is_inode),
            fmaj == major_need(long),
            fmin == minor_need(long),
            fs == size_need(long),
            p.inode as int == lens_max(items@.take(i as int), fi),
            p.block_size as int == lens_max(items@.take(i as int), fb),
            p.link_count as int == lens_max(items@.take(i as int), fl),
            p.uname as int == lens_max(items@.take(i as int), fu),
            p.group as int == lens_max(items@.take(i as int), fg),
            p.context as int == lens_max(items@.take(i as int), fc),
            !single ==> p.major as int == lens_max(items@.take(i as int), fmaj),
            !single ==> p.minor as int == lens_max(items@.take(i as int), fmin),
            !single ==> p.size as int == (if lens_max(items@.take(i as int), fs) > lens_max(items@.take(i as int), fmaj) {
                lens_max(items@.take(i as int), fs)
            } else {
                lens_max(items@.take(i as int), fmaj)
            }),
            single && i == 0 ==> p.major == 1 && p.minor == 1 && p.size == 1,
            single && i == 1 ==> (if long && counted(items@[0], is_inode) {
                p.major == 0 && p.minor == 0 && p.size == 0
            } else {
                p.major == 1 && p.minor == 1 && p.size == 1
            }),
        decreases items@.len() - i,
    {
        let e = items[i];
        proof {
            lemma_lens_max_step(items@, i as int, fi);
            lemma_lens_max_step(items@, i as int, fb);
            lemma_lens_max_step(items@, i as int, fl);
            lemma_lens_max_step(items@, i as int, fu);
            lemma_lens_max_step(items@, i as int, fg);
            lemma_lens_max_step(items@, i as int, fc);
            lemma_lens_max_step(items@, i as int, fmaj);
            lemma_lens_max_step(items@, i as int, fmin);
            lemma_lens_max_step(items@, i as int, fs);
        }
        if is_inode && !e.has_metadata {
            i = i + 1;
        } else {
            if is_inode {
                p.inode = max_usize(e.inode, p.inode);
            }
            if is_alloc_size && e.has_metadata {
                p.block_size = max_usize(e.block_size, p.block_size);
            }
            if long {
                let (l, u, g, sz, maj, min) = if e.has_metadata {
                    (e.link_count, e.uname, e.group, e.size, e.major, e.minor)
                } else {
                    (0, 0, 0, 0, 0, 0)
                };
                p.link_count = max_usize(l, p.link_count);
                p.uname = max_usize(u, p.uname);
                p.group = max_usize(g, p.group);
                if is_context {
                    p.context = max_usize(e.context, p.context);
                }
                if single {
                    p.size = 0;
                    p.major = 0;
                    p.minor = 0;
                } else {
                    p.major = max_usize(maj, p.major);
                    p.minor = max_usize(min, p.minor);
                    p.size = max_usize(max_usize(sz, p.size), p.major);
                }
            }
            i = i + 1;
        }
    }
    assert(items@.take(items@.len() as int) =~= items@);
    proof {
        if single {
            assert(items@.drop_last() =~= Seq::<EntryLens>::empty());
            assert(lens_max(Seq::<EntryLens>::empty(), fmaj) == 1);
            assert(lens_max(Seq::<EntryLens>::empty(), fmin) == 1);
            assert(lens_max(Seq::<EntryLens>::empty(), fs) == 1);
            assert(items@.last() == items@[0]);
            assert(lens_max(items@, fmaj) == (if fmaj(items@[0]) > 1 { fmaj(items@[0]) } else { 1 }));
            assert(lens_max(items@, fmin) == (if fmin(items@[0]) > 1 { fmin(items@[0]) } else { 1 }));
            assert(lens_max(items@, fs) == (if fs(items@[0]) > 1 { fs(items@[0]) } else { 1 }));
        }
    }
    p
}

/// What goes before a name with `-i` and `-s`: the inode number (`?` when
/// unknown) padded on the left, then the allocated size (`?` when unknown),
/// padded on the left except in the comma format; each followed by a
/// space.
pub open spec fn leading_text(
    inode: Option<u64>,
    block_text: Option<Seq<char>>,
    p: LsPadding,
    is_inode: bool,
    is_alloc_size: bool,
    format: LsFormat,
) -> Seq<char> {
    (if is_inode {
        pad_start(match inode { Some(n) => decimal(n as nat), None => "?"@ }, p.inode as nat) + " "@
    } else {
        Seq::empty()
    }) + (if is_alloc_size {
        let s = match block_text { Some(t) => t, None => "?"@ };
        if format == LsFormat::Commas { s + " "@ } else { pad_start(s, p.block_size as nat) + " "@ }
    } else {
        Seq::empty()
    })
}

/// The information put before a name (`leading_text`).
pub fn display_additional_leading_info(
    inode: Option<u64>,
    block_text: Option<&str>,
    p: &LsPadding,
    is_inode: bool,
    is_alloc_size: bool,
    format: LsFormat,
) -> (r: String)
    ensures
        r@ == leading_text(inode, match block_text { Some(t) => Some(t@), None => None }, *p, is_inode, is_alloc_size, format),
{
    let mut v: Vec<char> = Vec::new();
    if is_inode {
        let i = match inode {
            Some(n) => u64_decimal(n),
            None => chars_of("?"),
        };
        push_pad_start(&mut v, &i, p.inode);
        push_str(&mut v, " ");
    }
    let ghost a = v@;
    if is_alloc_size {
        let s = match block_text {
            Some(t) => chars_of(t),
            None => chars_of("?"),
        };
        if format == LsFormat::Commas {
            push_chars(&mut v, &s);
        } else {
            push_pad_start(&mut v, &s, p.block_size);
        }
        push_str(&mut v, " ");
    }
    let ghost bt = match block_text { Some(t) => Some(t@), None => None };
    assert(v@ =~= leading_text(inode, bt, *p, is_inode, is_alloc_size, format));
    string_from_chars(&v)
}

// ---------------------------------------------------------------------------
// The short formats
// ---------------------------------------------------------------------------

/// The contents of name cells.
pub open spec fn cell_texts(cells: Seq<NameCell>) -> Seq<Seq<char>> {
    cells.map_values(|c: NameCell| c.contents@)
}

/// The comma format after its first `n` names, with the column reached:
/// names joined by `, `, a new line begun (after `,`) before a name that
/// would pass the width, none when the width is zero.
pub open spec fn commas_upto(cells: Seq<NameCell>, width: u16, n: int) -> (Seq<char>, int)
    decreases n,
{
    if n <= 0 {
        (Seq::empty(), 0)
    } else if n == 1 {
        (cells[0].contents@, (cells[0].width as u16) + 2)
    } else {
        let (t, col) = commas_upto(cells, width, n - 1);
        let w = (cells[n - 1].width as u16) as int;
        if width != 0 && col + w + 1 > width {
            (t + ",\n"@ + cells[n - 1].contents@, w + 2)
        } else {
            (t + ", "@ + cells[n - 1].contents@, col + w + 2)
        }
    }
}

/// Whether the columns of the comma format stay within 16 bits.
pub open spec fn commas_fit(cells: Seq<NameCell>, width: u16, n: int) -> bool
    decreases n,
{
    if n <= 0 {
        true
    } else if n == 1 {
        (cells[0].width as u16) + 2 <= u16::MAX
    } else {
        let col = commas_upto(cells, width, n - 1).1;
        let w = (cells[n - 1].width as u16) as int;
        &&& commas_fit(cells, width, n - 1)
        &&& col + w + 1 <= u16::MAX
        &&& (if width != 0 && col + w + 1 > width { w + 2 <= u16::MAX } else { col + w + 2 <= u16::MAX })
    }
}

proof fn lemma_commas_fit_prefix(cells: Seq<NameCell>, width: u16, k: int, n: int)
    requires
        0 <= k <= n,
        commas_fit(cells, width, n),
    ensures
        commas_fit(cells, width, k),
    decreases n - k,
{
    if k < n {
        lemma_commas_fit_prefix(cells, width, k + 1, n);
    }
}

/// The names in the comma format (`commas_upto`), then the end of the line
/// when there was a name.
pub fn display_commas(cells: &Vec<NameCell>, width: u16, zero: bool) -> (r: String)
    requires
        commas_fit(cells@, width, cells@.len() as int),
    ensures
        r@ == commas_upto(cells@, width, cells@.len() as int).0 + (if cells@.len() > 0 {
            line_end(zero)
        } else {
            Seq::empty()
        }),
{
    let mut v: Vec<char> = Vec::new();
    if cells.len() == 0 {
        return string_from_chars(&v);
    }
    push_str(&mut v, cells[0].contents.as_str());
    let w0: u16 = #[verifier::truncate] (cells[0].width as u16);
    assert(w0 == cells@[0].width as u16);
    proof {
        lemma_commas_fit_prefix(cells@, width, 1, cells@.len() as int);
    }
    let mut col: u16 = w0 + 2;
    let mut i: usize = 1;
    while i < cells.len()
        invariant
            1 <= i <= cells@.len(),
            commas_fit(cells@, width, cells@.len() as int),
            (v@, col as int) == commas_upto(cells@, width, i as int),
        decreases cells@.len() - i,
    {
        proof {
            lemma_commas_fit_prefix(cells@, width, i + 1, cells@.len() as int);
        }
        let w: u16 = #[verifier::truncate] (cells[i].width as u16);
        if width != 0 && col + w + 1 > width {
            col = w + 2;
            push_str(&mut v, ",\n");
        } else {
            col = col + w + 2;
            push_str(&mut v, ", ");
        }
        push_str(&mut v, cells[i].contents.as_str());
        i = i + 1;
    }
    push_line_end(&mut v, zero);
    string_from_chars(&v)
}

/// Names joined by two spaces.
pub open spec fn joined_two(names: Seq<Seq<char>>) -> Seq<char>
    decreases names.len(),
{
    if names.len() == 0 {
        Seq::empty()
    } else if names.len() == 1 {
        names[0]
    } else {
        joined_two(names.drop_last()) + "  "@ + names.last()
    }
}

/// The names on one line, two spaces apart, then a newline when there was
/// one: the grid of a width of zero.
pub fn display_one_line_grid(cells: &Vec<NameCell>) -> (r: String)
    ensures
        r@ == joined_two(cell_texts(cells@)) + (if cells@.len() > 0 { "\n"@ } else { Seq::empty() }),
{
    let ghost names = cell_texts(cells@);
    let mut v: Vec<char> = Vec::new();
    let mut i: usize = 0;
    while i < cells.len()
        invariant
            i <= cells@.len(),
            names == cell_texts(cells@),
            v@ == joined_two(names.take(i as int)),
        decreases cells@.len() - i,
    {
        assert(names.take(i + 1).drop_last() =~= names.take(i as int));
        if i > 0 {
            push_str(&mut v, "  ");
        }
        push_str(&mut v, cells[i].contents.as_str());
        i = i + 1;
    }
    assert(names.take(cells@.len() as int) =~= names);
    if cells.len() > 0 {
        push_str(&mut v, "\n");
    } else {
        assert(v@ =~= v@ + Seq::<char>::empty());
    }
    string_from_chars(&v)
}

/// Each name on a line of its own.
pub open spec fn lines_of_names(names: Seq<Seq<char>>, zero: bool) -> Seq<char>
    decreases names.len(),
{
    if names.len() == 0 { Seq::empty() } else { lines_of_names(names.drop_last(), zero) + names.last() + line_end(zero) }
}

/// The names one per line (`-1`).
pub fn display_one_per_line(cells: &Vec<NameCell>, zero: bool) -> (r: String)
    ensures
        r@ == lines_of_names(cell_texts(cells@), zero),
{
    let ghost names = cell_texts(cells@);
    let mut v: Vec<char> = Vec::new();
    let mut i: usize = 0;
    while i < cells.len()
        invariant
            i <= cells@.len(),
            names == cell_texts(cells@),
            v@ == lines_of_names(names.take(i as int), zero),
        decreases cells@.len() - i,
    {
        assert(names.take(i + 1).drop_last() =~= names.take(i as int));
        push_str(&mut v, cells[i].contents.as_str());
        push_line_end(&mut v, zero);
        i = i + 1;
    }
    assert(names.take(cells@.len() as int) =~= names);
    string_from_chars(&v)
}

/// Whether some escaped name of a listing starts with a quote.
pub open spec fn any_quoted_spec(escaped: Seq<Seq<char>>) -> bool {
    exists|i: int| 0 <= i < escaped.len() && escaped[i].len() > 0 && #[trigger] escaped[i][0] == '\''
}

/// Whether some escaped name of a listing starts with a quote, in which
/// case the names that do not are shifted by a space to line up.
pub fn any_quoted(escaped: &Vec<String>) -> (r: bool)
    ensures
        r == any_quoted_spec(escaped@.map_values(|s: String| s@)),
{
    let ghost es = escaped@.map_values(|s: String| s@);
    let mut i: usize = 0;
    while i < escaped.len()
        invariant
            i <= escaped@.len(),
            es == escaped@.map_values(|s: String| s@),
            forall|j: int| 0 <= j < i ==> !(es[j].len() > 0 && #[trigger] es[j][0] == '\''),
        decreases escaped@.len() - i,
    {
        let cs = chars_of(escaped[i].as_str());
        if cs.len() > 0 && cs[0] == '\'' {
            assert(es[i as int].len() > 0 && es[i as int][0] == '\'');
            return true;
        }
        i = i + 1;
    }
    false
}

/// A name cell's text in a grid: after a space when some name is quoted
/// and this one is not.
pub fn grid_cell_text(contents: &str, quoted: bool) -> (r: String)
    ensures
        r@ == shown_name(contents@, quoted),
{
    let cs = chars_of(contents);
    let mut v: Vec<char> = Vec::new();
    if quoted && !(cs.len() > 0 && cs[0] == '\'') {
        push_str(&mut v, " ");
    }
    push_chars(&mut v, &cs);
    string_from_chars(&v)
}

/// The widths of the name cells, in order.
pub open spec fn cell_widths(cells: Seq<NameCell>) -> Seq<usize> {
    cells.map_values(|c: NameCell| c.width)
}

/// The texts of the name cells as a grid shows them (`shown_name`).
pub open spec fn shown_texts(cells: Seq<NameCell>, quoted: bool) -> Seq<Seq<char>> {
    cells.map_values(|c: NameCell| shown_name(c.contents@, quoted))
}

/// What term_grid makes of cells of the given texts and display widths, two
/// spaces between columns, filled across the rows (`across`) or down the
/// columns, in as few rows as fit within `max_width` columns: the grid's
/// text, or `None` when no layout fits.
pub uninterp spec fn term_grid_fit(texts: Seq<Seq<char>>, widths: Seq<usize>, across: bool, max_width: usize) -> Option<
    Seq<char>,
>;

/// The sum of the widths.
pub open spec fn total_width(widths: Seq<usize>) -> nat
    decreases widths.len(),
{
    if widths.len() == 0 {
        0
    } else {
        total_width(widths.drop_last()) + widths.last() as nat
    }
}

/// `Grid::fit_into_width` of term_grid on a grid of the given cells, two
/// spaces apart, formatted with `to_string`: claims that the result is the
/// grid's layout (`term_grid_fit`) of the cells' texts and widths. The
/// crate adds up column widths, so their total must fit in a `usize`.
#[verifier::external_body]
fn fit_grid(cells: &[NameCell], across: bool, max_width: usize) -> (r: Option<String>)
    requires
        total_width(cell_widths(cells@)) <= usize::MAX,
    ensures
        term_grid_fit(cell_texts(cells@), cell_widths(cells@), across, max_width) == match r {
            Some(t) => Some(t@),
            None => None,
        },
{
    let direction = if across { term_grid::Direction::LeftToRight } else { term_grid::Direction::TopToBottom };
    let mut grid = term_grid::Grid::new(term_grid::GridOptions { filling: term_grid::Filling::Spaces(2), direction });
    for c in cells {
        grid.add(term_grid::Cell { contents: c.contents.clone(), width: c.width });
    }
    grid.fit_into_width(max_width).map(|d| d.to_string())
}

/// `Grid::fit_into_columns(1)` of term_grid, formatted with `to_string`:
/// claims one line per cell, its text then a newline, as the crate writes
/// the last column without padding.
#[verifier::external_body]
fn single_column_grid(cells: &[NameCell]) -> (r: String)
    ensures
        r@ == lines_of_names(cell_texts(cells@), false),
{
    let options = term_grid::GridOptions { filling: term_grid::Filling::Spaces(2), direction: term_grid::Direction::TopToBottom };
    let mut grid = term_grid::Grid::new(options);
    for c in cells {
        grid.add(term_grid::Cell { contents: c.contents.clone(), width: c.width });
    }
    grid.fit_into_columns(1).to_string()
}

/// The columns and across formats: the names on one line when the width is
/// zero; otherwise term_grid's layout of the names (after a space when some
/// name is quoted and this one is not) within the width, or one name per
/// line when no layout fits.
pub open spec fn grid_spec(cells: Seq<NameCell>, width: u16, across: bool, quoted: bool) -> Seq<char> {
    if width == 0 {
        joined_two(cell_texts(cells)) + (if cells.len() > 0 { "\n"@ } else { Seq::empty() })
    } else {
        match term_grid_fit(shown_texts(cells, quoted), cell_widths(cells), across, width as usize) {
            Some(t) => t,
            None => lines_of_names(shown_texts(cells, quoted), false),
        }
    }
}

/// Lays the names out in a grid (`grid_spec`).
pub fn grid_text(cells: &Vec<NameCell>, width: u16, across: bool, quoted: bool) -> (r: String)
    requires
        total_width(cell_widths(cells@)) <= usize::MAX,
    ensures
        r@ == grid_spec(cells@, width, across, quoted),
{
    if width == 0 {
        return display_one_line_grid(cells);
    }
    let mut shown: Vec<NameCell> = Vec::new();
    let mut i: usize = 0;
    while i < cells.len()
        invariant
            i <= cells@.len(),
            shown@.len() == i,
            forall|j: int| 0 <= j < i ==> (#[trigger] shown@[j]).contents@ == shown_name(cells@[j].contents@, quoted)
                && shown@[j].width == cells@[j].width,
        decreases cells@.len() - i,
    {
        let text = grid_cell_text(cells[i].contents.as_str(), quoted);
        shown.push(NameCell { contents: text, width: cells[i].width });
        i = i + 1;
    }
    assert(cell_texts(shown@) =~= shown_texts(cells@, quoted));
    assert(cell_widths(shown@) =~= cell_widths(cells@));
    assert(cell_widths(shown@) == cell_widths(cells@));
    match fit_grid(&shown, across, width as usize) {
        Some(t) => t,
        None => single_column_grid(&shown),
    }
}


// ---------------------------------------------------------------------------
// The order of entries
// ---------------------------------------------------------------------------

/// Entry `a` comes before entry `b` when sorting by key, largest first
/// (newest, biggest), entries of equal keys keeping their order.
pub open spec fn key_before(keys: Seq<i128>, a: usize, b: usize) -> bool {
    keys[a as int] > keys[b as int] || (keys[a as int] == keys[b as int] && a < b)
}

/// An order of entries sorted by key, largest first, stable.
pub open spec fn sorted_by_key(keys: Seq<i128>, r: Seq<usize>) -> bool {
    forall|j: int, k: int| 0 <= j < k < r.len() ==> key_before(keys, #[trigger] r[j], #[trigger] r[k])
}

/// An order of the entries: each index below `n` once.
pub open spec fn is_order(r: Seq<usize>, n: nat) -> bool {
    &&& r.len() == n
    &&& forall|j: int| 0 <= j < r.len() ==> #[trigger] r[j] < n
    &&& forall|j: int, k: int| 0 <= j < k < r.len() ==> #[trigger] r[j] != #[trigger] r[k]
}

/// The entries' indices sorted by key, largest first; entries of equal
/// keys keep their order (the stable sort of `-t` and `-S`).
pub fn order_by_key_desc(keys: &[i128]) -> (r: Vec<usize>)
    ensures
        is_order(r@, keys@.len()),
        sorted_by_key(keys@, r@),
{
    let mut r: Vec<usize> = Vec::new();
    let mut i: usize = 0;
    while i < keys.len()
        invariant
            i <= keys@.len(),
            r@.len() == i,
            forall|j: int| 0 <= j < r@.len() ==> #[trigger] r@[j] < i,
            sorted_by_key(keys@, r@),
        decreases keys@.len() - i,
    {
        let ki = keys[i];
        let mut pos: usize = 0;
        while pos < r.len() && keys[r[pos]] >= ki
            invariant
                pos <= r@.len(),
                r@.len() == i,
                i < keys@.len(),
                ki == keys@[i as int],
                forall|j: int| 0 <= j < r@.len() ==> #[trigger] r@[j] < i,
                forall|j: int| 0 <= j < pos ==> keys@[#[trigger] r@[j] as int] >= ki,
            decreases r@.len() - pos,
        {
            pos = pos + 1;
        }
        let ghost old_r = r@;
        proof {
            assert forall|k: int| pos <= k < old_r.len() implies keys@[#[trigger] old_r[k] as int] < ki by {
                if k > pos {
                    assert(key_before(keys@, old_r[pos as int], old_r[k]));
                }
            }
        }
        r.insert(pos, i);
        proof {
            let nr = r@;
            assert(nr =~= old_r.insert(pos as int, i));
            assert forall|j: int, k: int| 0 <= j < k < nr.len() implies key_before(keys@, #[trigger] nr[j], #[trigger] nr[k]) by {
                if k < pos {
                    assert(nr[j] == old_r[j] && nr[k] == old_r[k]);
                } else if k == pos {
                    assert(nr[j] == old_r[j]);
                } else if j < pos {
                    assert(nr[j] == old_r[j] && nr[k] == old_r[k - 1]);
                    assert(key_before(keys@, old_r[j], old_r[k - 1]));
                } else if j == pos {
                    assert(nr[k] == old_r[k - 1]);
                } else {
                    assert(nr[j] == old_r[j - 1] && nr[k] == old_r[k - 1]);
                    assert(key_before(keys@, old_r[j - 1], old_r[k - 1]));
                }
            }
            assert forall|j: int| 0 <= j < nr.len() implies #[trigger] nr[j] < i + 1 by {
                if j < pos {
                    assert(nr[j] == old_r[j]);
                } else if j > pos {
                    assert(nr[j] == old_r[j - 1]);
                }
            }
        }
        i = i + 1;
    }
    proof {
        assert forall|j: int, k: int| 0 <= j < k < r@.len() implies #[trigger] r@[j] != #[trigger] r@[k] by {
            assert(key_before(keys@, r@[j], r@[k]));
        }
    }
    r
}

/// The indices of the entries in order.
pub fn identity_order(n: usize) -> (r: Vec<usize>)
    ensures
        r@.len() == n,
        forall|j: int| 0 <= j < n ==> #[trigger] r@[j] == j,
{
    let mut r: Vec<usize> = Vec::new();
    let mut i: usize = 0;
    while i < n
        invariant
            i <= n,
            r@.len() == i,
            forall|j: int| 0 <= j < i ==> #[trigger] r@[j] == j,
        decreases n - i,
    {
        r.push(i);
        i = i + 1;
    }
    r
}

/// An order reversed (`-r`).
pub fn reverse_order(v: &Vec<usize>) -> (r: Vec<usize>)
    ensures
        r@ == v@.reverse(),
{
    let mut r: Vec<usize> = Vec::new();
    let mut i: usize = v.len();
    while i > 0
        invariant
            i <= v@.len(),
            r@ == v@.subrange(i as int, v@.len() as int).reverse(),
        decreases i,
    {
        i = i - 1;
        r.push(v[i]);
        assert(r@ =~= v@.subrange(i as int, v@.len() as int).reverse());
    }
    assert(v@.subrange(0, v@.len() as int) =~= v@);
    r
}

/// The entries of an order that are directories (`want`) or not, in that
/// order.
pub open spec fn of_kind(order: Seq<usize>, is_dir: Seq<bool>, want: bool) -> Seq<usize>
    decreases order.len(),
{
    if order.len() == 0 {
        Seq::empty()
    } else {
        let rest = of_kind(order.drop_last(), is_dir, want);
        if is_dir[order.last() as int] == want { rest.push(order.last()) } else { rest }
    }
}

/// Grouping the directories first neither loses nor repeats an entry: the
/// result holds each entry as many times as the order it regroups.
pub proof fn law_directories_first_keeps_entries(order: Seq<usize>, is_dir: Seq<bool>)
    ensures
        (of_kind(order, is_dir, true) + of_kind(order, is_dir, false)).to_multiset() == order.to_multiset(),
    decreases order.len(),
{
    broadcast use vstd::seq_lib::to_multiset_build, vstd::seq_lib::lemma_multiset_commutative;
    broadcast use vstd::multiset::group_multiset_axioms;

    if order.len() == 0 {
        assert(of_kind(order, is_dir, true) + of_kind(order, is_dir, false) =~= Seq::<usize>::empty());
        assert(order =~= Seq::<usize>::empty());
    } else {
        let p = order.drop_last();
        let x = order.last();
        law_directories_first_keeps_entries(p, is_dir);
        assert(p.push(x) =~= order);
        let d = of_kind(p, is_dir, true);
        let f = of_kind(p, is_dir, false);
        assert((d + f).to_multiset() == d.to_multiset().add(f.to_multiset()));
        assert(order.to_multiset() =~= p.to_multiset().insert(x));
        if is_dir[x as int] {
            assert(of_kind(order, is_dir, true) == d.push(x));
            assert(of_kind(order, is_dir, false) == f);
            assert((d.push(x) + f).to_multiset() == d.push(x).to_multiset().add(f.to_multiset()));
            assert(d.push(x).to_multiset() == d.to_multiset().insert(x));
            assert(d.to_multiset().insert(x).add(f.to_multiset()) =~= d.to_multiset().add(f.to_multiset()).insert(x));
        } else {
            assert(of_kind(order, is_dir, true) == d);
            assert(of_kind(order, is_dir, false) == f.push(x));
            assert((d + f.push(x)).to_multiset() == d.to_multiset().add(f.push(x).to_multiset()));
            assert(f.push(x).to_multiset() == f.to_multiset().insert(x));
            assert(d.to_multiset().add(f.to_multiset().insert(x)) =~= d.to_multiset().add(f.to_multiset()).insert(x));
        }
        assert((of_kind(order, is_dir, true) + of_kind(order, is_dir, false)).to_multiset() == (d + f).to_multiset().insert(x));
    }
}

/// The directories first, each group in the order it had
/// (`--group-directories-first`).
pub fn directories_first(order: &Vec<usize>, is_dir: &[bool]) -> (r: Vec<usize>)
    requires
        forall|j: int| 0 <= j < order@.len() ==> #[trigger] order@[j] < is_dir@.len(),
    ensures
        r@ == of_kind(order@, is_dir@, true) + of_kind(order@, is_dir@, false),
{
    let mut dirs: Vec<usize> = Vec::new();
    let mut rest: Vec<usize> = Vec::new();
    let mut i: usize = 0;
    while i < order.len()
        invariant
            i <= order@.len(),
            forall|j: int| 0 <= j < order@.len() ==> #[trigger] order@[j] < is_dir@.len(),
            dirs@ == of_kind(order@.take(i as int), is_dir@, true),
            rest@ == of_kind(order@.take(i as int), is_dir@, false),
        decreases order@.len() - i,
    {
        assert(order@.take(i + 1).drop_last() =~= order@.take(i as int));
        let e = order[i];
        if is_dir[e] {
            dirs.push(e);
        } else {
            rest.push(e);
        }
        i = i + 1;
    }
    assert(order@.take(order@.len() as int) =~= order@);
    let mut k: usize = 0;
    let ghost d0 = dirs@;
    while k < rest.len()
        invariant
            k <= rest@.len(),
            dirs@ == d0 + rest@.take(k as int),
        decreases rest@.len() - k,
    {
        dirs.push(rest[k]);
        assert(rest@.take(k + 1) =~= rest@.take(k as int).push(rest@[k as int]));
        k = k + 1;
    }
    assert(rest@.take(rest@.len() as int) =~= rest@);
    dirs
}

/// The order before `-r` and `--group-directories-first`: by key for `-t`
/// and `-S`, as read for no sorting, and `given` for the orders of names,
/// versions, extensions and widths, which compare names as the locale and
/// the version rules do.
pub open spec fn base_order_ok(sort: LsSort, keys: Seq<i128>, given: Seq<usize>, base: Seq<usize>) -> bool {
    match sort {
        LsSort::Time | LsSort::Size => is_order(base, keys.len()) && sorted_by_key(keys, base),
        LsSort::Unsorted => base.len() == keys.len() && forall|j: int| 0 <= j < base.len() ==> #[trigger] base[j] == j,
        _ => base == given,
    }
}

/// What `-r` and `--group-directories-first` (not with `-U`) make of an
/// order.
pub open spec fn finished_order(base: Seq<usize>, sort: LsSort, reverse: bool, dirs_first: bool, is_dir: Seq<bool>) -> Seq<usize> {
    let o = if reverse { base.reverse() } else { base };
    if dirs_first && sort != LsSort::Unsorted { of_kind(o, is_dir, true) + of_kind(o, is_dir, false) } else { o }
}

/// Sorting a listing neither loses nor repeats an entry: the base order of
/// the sort (by key for `-t` and `-S`, as found for `-U`, or the order
/// given by name, version, extension or width) lists each of the entries
/// once, and reversing it (`-r`) and putting the directories first
/// (`--group-directories-first`) only rearrange it.
pub proof fn law_sorted_listing_keeps_entries(
    sort: LsSort,
    keys: Seq<i128>,
    given: Seq<usize>,
    reverse: bool,
    dirs_first: bool,
    is_dir: Seq<bool>,
    base: Seq<usize>,
)
    requires
        is_order(given, keys.len()),
        base_order_ok(sort, keys, given, base),
    ensures
        is_order(base, keys.len()),
        finished_order(base, sort, reverse, dirs_first, is_dir).to_multiset() == base.to_multiset(),
{
    let o = if reverse { base.reverse() } else { base };
    if reverse {
        base.lemma_reverse_to_multiset();
    }
    if dirs_first && sort != LsSort::Unsorted {
        law_directories_first_keeps_entries(o, is_dir);
    }
}

/// A strict total order of the entries of a listing, with a way to decide it.
pub trait EntryOrder {
    /// The number of entries.
    spec fn count(&self) -> nat;

    /// Entry `i` comes before entry `j`.
    spec fn before(&self, i: int, j: int) -> bool;

    /// `before` is a strict total order of the entries.
    proof fn lemma_strict_total(&self, i: int, j: int, k: int)
        requires
            0 <= i < self.count(),
            0 <= j < self.count(),
            0 <= k < self.count(),
        ensures
            !self.before(i, i),
            i != j ==> self.before(i, j) || self.before(j, i),
            self.before(i, j) && self.before(j, k) ==> self.before(i, k),
    ;

    /// The number of entries.
    fn len(&self) -> (r: usize)
        ensures
            r == self.count(),
    ;

    /// Whether entry `i` comes before entry `j`.
    fn comes_before(&self, i: usize, j: usize) -> (r: bool)
        requires
            i < self.count(),
            j < self.count(),
        ensures
            r == self.before(i as int, j as int),
    ;
}

/// The entries sorted by an order: each once, each before the next.
pub fn sort_by_order<O: EntryOrder>(o: &O) -> (r: Vec<usize>)
    ensures
        is_order(r@, o.count()),
        forall|j: int, k: int| 0 <= j < k < r@.len() ==> o.before(#[trigger] r@[j] as int, #[trigger] r@[k] as int),
{
    let n = o.len();
    let mut r: Vec<usize> = Vec::new();
    let mut i: usize = 0;
    while i < n
        invariant
            i <= n == o.count(),
            is_order(r@, i as nat),
            forall|j: int, k: int| 0 <= j < k < r@.len() ==> o.before(#[trigger] r@[j] as int, #[trigger] r@[k] as int),
        decreases n - i,
    {
        let mut lo: usize = 0;
        let mut hi: usize = r.len();
        while lo < hi
            invariant
                0 <= lo <= hi <= r@.len() == i < n == o.count(),
                is_order(r@, i as nat),
                forall|j: int, k: int|
                    0 <= j < k < r@.len() ==> o.before(#[trigger] r@[j] as int, #[trigger] r@[k] as int),
                forall|j: int| 0 <= j < lo ==> o.before(#[trigger] r@[j] as int, i as int),
                forall|j: int| hi <= j < r@.len() ==> o.before(i as int, #[trigger] r@[j] as int),
            decreases hi - lo,
        {
            let mid = lo + (hi - lo) / 2;
            let e = r[mid];
            proof {
                o.lemma_strict_total(e as int, i as int, i as int);
            }
            if o.comes_before(e, i) {
                assert forall|j: int| 0 <= j < mid + 1 implies o.before(#[trigger] r@[j] as int, i as int) by {
                    if j < mid {
                        o.lemma_strict_total(r@[j] as int, e as int, i as int);
                    }
                }
                lo = mid + 1;
            } else {
                assert(o.before(i as int, e as int));
                assert forall|j: int| mid <= j < r@.len() implies o.before(i as int, #[trigger] r@[j] as int) by {
                    if j > mid {
                        o.lemma_strict_total(i as int, e as int, r@[j] as int);
                    }
                }
                hi = mid;
            }
        }
        let ghost old_r = r@;
        r.insert(lo, i);
        proof {
            old_r.insert_ensures(lo as int, i);
            assert forall|j: int| 0 <= j < r@.len() implies #[trigger] r@[j] < i + 1 by {
                if j > lo {
                    assert(r@[j] == old_r[j - 1]);
                }
            }
            assert forall|j: int, k: int| 0 <= j < k < r@.len() implies #[trigger] r@[j] != #[trigger] r@[k] by {
                if j < lo && k > lo {
                    assert(r@[k] == old_r[k - 1]);
                } else if j > lo {
                    assert(r@[j] == old_r[j - 1] && r@[k] == old_r[k - 1]);
                } else if j == lo {
                    assert(r@[k] == old_r[k - 1]);
                }
            }
            assert forall|j: int, k: int|
                0 <= j < k < r@.len() implies o.before(#[trigger] r@[j] as int, #[trigger] r@[k] as int) by {
                if j < lo && k > lo {
                    assert(r@[k] == old_r[k - 1]);
                    o.lemma_strict_total(r@[j] as int, i as int, r@[k] as int);
                } else if j > lo {
                    assert(r@[j] == old_r[j - 1] && r@[k] == old_r[k - 1]);
                } else if j == lo {
                    assert(r@[k] == old_r[k - 1]);
                }
            }
        }
        i = i + 1;
    }
    r
}

/// The names of the entries, as characters, in the version order.
pub struct VersionNames {
    pub names: Vec<Vec<char>>,
}

impl EntryOrder for VersionNames {
    open spec fn count(&self) -> nat {
        self.names@.len()
    }

    open spec fn before(&self, i: int, j: int) -> bool {
        version_before(self.names@.map_values(|v: Vec<char>| v@), i, j)
    }

    proof fn lemma_strict_total(&self, i: int, j: int, k: int) {
        lemma_version_before(self.names@.map_values(|v: Vec<char>| v@), i, j, k);
    }

    fn len(&self) -> (r: usize) {
        self.names.len()
    }

    fn comes_before(&self, i: usize, j: usize) -> (r: bool) {
        let c = compare_version_chars(self.names[i].as_slice(), self.names[j].as_slice());
        c < 0 || (c == 0 && i < j)
    }
}

/// The entries in the version order of their names (`ls -v`): an order of
/// all of them in which each comes before the next by `version_before`
/// (entries of the same name keep the order in which they were read).
pub fn order_by_version(names: &[String]) -> (r: Vec<usize>)
    ensures
        is_order(r@, names@.len()),
        forall|j: int, k: int|
            0 <= j < k < r@.len() ==> version_before(
                names@.map_values(|s: String| s@),
                #[trigger] r@[j] as int,
                #[trigger] r@[k] as int,
            ),
{
    let mut chars: Vec<Vec<char>> = Vec::new();
    let mut m: usize = 0;
    while m < names.len()
        invariant
            m <= names@.len(),
            chars@.len() == m,
            forall|j: int| 0 <= j < m ==> (#[trigger] chars@[j])@ == names@[j]@,
        decreases names@.len() - m,
    {
        chars.push(chars_of(names[m].as_str()));
        m = m + 1;
    }
    let v = VersionNames { names: chars };
    assert(v.names@.map_values(|c: Vec<char>| c@) =~= names@.map_values(|s: String| s@));
    sort_by_order(&v)
}

/// The position of the last dot of `s` before position `k`, if any.
pub open spec fn last_dot_before(s: Seq<char>, k: int) -> Option<int>
    decreases k,
{
    if k <= 0 {
        None
    } else if s[k - 1] == '.' {
        Some(k - 1)
    } else {
        last_dot_before(s, k - 1)
    }
}

/// The stem and the extension that `Path::file_stem` and `Path::extension`
/// take from a file name: the name split at its last dot, unless there is
/// none, it begins the name, or the name is `..`, when the stem is the whole
/// name and there is no extension.
pub open spec fn stem_and_extension(name: Seq<char>) -> (Seq<char>, Option<Seq<char>>) {
    match last_dot_before(name, name.len() as int) {
        Some(p) => if p == 0 || name == seq!['.', '.'] {
            (name, None)
        } else {
            (name.take(p), Some(name.skip(p + 1)))
        },
        None => (name, None),
    }
}

/// Compares optional strings: none first, then character by character.
pub open spec fn optional_text_order(x: Option<Seq<char>>, y: Option<Seq<char>>) -> int {
    match (x, y) {
        (None, None) => 0,
        (None, Some(_)) => -1,
        (Some(_), None) => 1,
        (Some(a), Some(b)) => lex_order(a, b),
    }
}

/// The stem of an entry whose file name is `name` (none without a name).
pub open spec fn stem_of(name: Option<Seq<char>>) -> Option<Seq<char>> {
    match name {
        Some(n) => Some(stem_and_extension(n).0),
        None => None,
    }
}

/// The extension of an entry whose file name is `name`.
pub open spec fn extension_of(name: Option<Seq<char>>) -> Option<Seq<char>> {
    match name {
        Some(n) => stem_and_extension(n).1,
        None => None,
    }
}

/// Compares entries by extension (entries without one first), then by stem.
pub open spec fn keys_order(ea: Option<Seq<char>>, sa: Option<Seq<char>>, eb: Option<Seq<char>>, sb: Option<Seq<char>>) -> int {
    let c = optional_text_order(ea, eb);
    if c != 0 {
        c
    } else {
        optional_text_order(sa, sb)
    }
}

/// The order of `ls -X` of two entries with the file names `a` and `b`:
/// by extension (entries without one first), then by stem.
pub open spec fn extension_order(a: Option<Seq<char>>, b: Option<Seq<char>>) -> int {
    keys_order(extension_of(a), stem_of(a), extension_of(b), stem_of(b))
}

/// Entry `i` comes before entry `j` of the file names `names` in the order of
/// `ls -X`; entries that compare equal keep their order.
pub open spec fn extension_before(names: Seq<Option<Seq<char>>>, i: int, j: int) -> bool {
    extension_order(names[i], names[j]) < 0 || (extension_order(names[i], names[j]) == 0 && i < j)
}

proof fn lemma_optional_text_order(x: Option<Seq<char>>, y: Option<Seq<char>>, z: Option<Seq<char>>)
    ensures
        optional_text_order(x, y) == -optional_text_order(y, x),
        -1 <= optional_text_order(x, y) <= 1,
        optional_text_order(x, y) <= 0 && optional_text_order(y, z) <= 0 ==> optional_text_order(x, z) <= 0,
{
    if let (Some(a), Some(b)) = (x, y) {
        lemma_lex_order(a, b);
    }
    if let (Some(a), Some(b), Some(c)) = (x, y, z) {
        if lex_order(a, b) <= 0 && lex_order(b, c) <= 0 {
            lemma_lex_order_trans(a, b, c);
        }
    }
}

/// Comparing by extension, then stem, is antisymmetric and transitive.
proof fn lemma_keys_order(
    ea: Option<Seq<char>>,
    sa: Option<Seq<char>>,
    eb: Option<Seq<char>>,
    sb: Option<Seq<char>>,
    ec: Option<Seq<char>>,
    sc: Option<Seq<char>>,
)
    ensures
        keys_order(ea, sa, eb, sb) == -keys_order(eb, sb, ea, sa),
        -1 <= keys_order(ea, sa, eb, sb) <= 1,
        keys_order(ea, sa, eb, sb) <= 0 && keys_order(eb, sb, ec, sc) <= 0 ==> keys_order(ea, sa, ec, sc) <= 0,
{
    lemma_optional_text_order(ea, eb, ec);
    lemma_optional_text_order(eb, ec, ea);
    lemma_optional_text_order(ec, ea, eb);
    lemma_optional_text_order(ea, ec, eb);
    lemma_optional_text_order(ec, eb, ea);
    lemma_optional_text_order(eb, ea, ec);
    let (x, y, z) = (optional_text_order(ea, eb), optional_text_order(eb, ec), optional_text_order(ea, ec));
    lemma_strict_from_weak(x, -x, y, -y, z, -z);
    lemma_optional_text_order(sa, sb, sc);
    lemma_optional_text_order(sb, sc, sa);
    lemma_optional_text_order(sc, sa, sb);
    lemma_optional_text_order(sa, sc, sb);
    lemma_optional_text_order(sc, sb, sa);
    lemma_optional_text_order(sb, sa, sc);
}

/// The characters of an optional string.
pub open spec fn optional_view(x: Option<Vec<char>>) -> Option<Seq<char>> {
    match x {
        Some(v) => Some(v@),
        None => None,
    }
}

/// The stems and extensions of the entries of a listing, in the order of
/// `ls -X`.
pub struct ExtensionKeys {
    pub stems: Vec<Option<Vec<char>>>,
    pub extensions: Vec<Option<Vec<char>>>,
}

impl ExtensionKeys {
    /// Comparing entries `i` and `j` by their keys (`keys_order`).
    pub open spec fn order(&self, i: int, j: int) -> int {
        keys_order(
            optional_view(self.extensions@[i]),
            optional_view(self.stems@[i]),
            optional_view(self.extensions@[j]),
            optional_view(self.stems@[j]),
        )
    }
}

fn optional_text_order_exec(x: &Option<Vec<char>>, y: &Option<Vec<char>>) -> (r: i8)
    ensures
        r == optional_text_order(optional_view(*x), optional_view(*y)),
{
    match (x, y) {
        (None, None) => 0,
        (None, Some(_)) => -1,
        (Some(_), None) => 1,
        (Some(a), Some(b)) => lex_order_exec(a.as_slice(), b.as_slice()),
    }
}

impl EntryOrder for ExtensionKeys {
    open spec fn count(&self) -> nat {
        if self.stems@.len() <= self.extensions@.len() { self.stems@.len() } else { self.extensions@.len() }
    }

    open spec fn before(&self, i: int, j: int) -> bool {
        self.order(i, j) < 0 || (self.order(i, j) == 0 && i < j)
    }

    proof fn lemma_strict_total(&self, i: int, j: int, k: int) {
        let (ei, si) = (optional_view(self.extensions@[i]), optional_view(self.stems@[i]));
        let (ej, sj) = (optional_view(self.extensions@[j]), optional_view(self.stems@[j]));
        let (ek, sk) = (optional_view(self.extensions@[k]), optional_view(self.stems@[k]));
        lemma_keys_order(ei, si, ei, si, ei, si);
        lemma_keys_order(ei, si, ej, sj, ek, sk);
        lemma_keys_order(ej, sj, ek, sk, ei, si);
        lemma_keys_order(ek, sk, ei, si, ej, sj);
        lemma_keys_order(ei, si, ek, sk, ej, sj);
        lemma_keys_order(ek, sk, ej, sj, ei, si);
        lemma_keys_order(ej, sj, ei, si, ek, sk);
        let (x, y, z) = (self.order(i, j), self.order(j, k), self.order(i, k));
        lemma_strict_from_weak(x, -x, y, -y, z, -z);
    }

    fn len(&self) -> (r: usize) {
        if self.stems.len() <= self.extensions.len() {
            self.stems.len()
        } else {
            self.extensions.len()
        }
    }

    fn comes_before(&self, i: usize, j: usize) -> (r: bool) {
        let c = optional_text_order_exec(&self.extensions[i], &self.extensions[j]);
        let c = if c != 0 { c } else { optional_text_order_exec(&self.stems[i], &self.stems[j]) };
        c < 0 || (c == 0 && i < j)
    }
}

/// The characters of `s` from `from` to `to`.
fn chars_between(s: &[char], from: usize, to: usize) -> (r: Vec<char>)
    requires
        from <= to <= s@.len(),
    ensures
        r@ == s@.subrange(from as int, to as int),
{
    let mut r: Vec<char> = Vec::new();
    let mut k = from;
    while k < to
        invariant
            from <= k <= to <= s@.len(),
            r@ == s@.subrange(from as int, k as int),
        decreases to - k,
    {
        r.push(s[k]);
        assert(s@.subrange(from as int, k + 1) =~= s@.subrange(from as int, k as int).push(s@[k as int]));
        k = k + 1;
    }
    r
}

/// Splits a file name at its last dot (`stem_and_extension`).
fn split_stem(name: &[char]) -> (r: (Vec<char>, Option<Vec<char>>))
    ensures
        r.0@ == stem_and_extension(name@).0,
        optional_view(r.1) == stem_and_extension(name@).1,
{
    let mut k: usize = name.len();
    while k > 0 && name[k - 1] != '.'
        invariant
            k <= name@.len(),
            last_dot_before(name@, k as int) == last_dot_before(name@, name@.len() as int),
        decreases k,
    {
        k = k - 1;
    }
    let whole = chars_between(name, 0, name.len());
    assert(whole@ =~= name@);
    if k <= 1 {
        return (whole, None);
    }
    let p = k - 1;
    if name.len() == 2 && name[0] == '.' && name[1] == '.' {
        assert(name@ =~= seq!['.', '.']);
        return (whole, None);
    }
    assert(name@ != seq!['.', '.']);
    let stem = chars_between(name, 0, p);
    let ext = chars_between(name, p + 1, name.len());
    assert(stem@ =~= name@.take(p as int));
    assert(ext@ =~= name@.skip(p + 1));
    (stem, Some(ext))
}

/// The entries in the order of `ls -X`: by the extension of their file
/// names (`None` where a path has no file name), entries without one first,
/// then by stem; entries that compare equal keep their order.
pub fn order_by_extension(file_names: &[Option<String>]) -> (r: Vec<usize>)
    ensures
        is_order(r@, file_names@.len()),
        forall|j: int, k: int|
            0 <= j < k < r@.len() ==> extension_before(
                file_names@.map_values(|n: Option<String>| match n { Some(s) => Some(s@), None => None }),
                #[trigger] r@[j] as int,
                #[trigger] r@[k] as int,
            ),
{
    let ghost ns = file_names@.map_values(|n: Option<String>| match n { Some(s) => Some(s@), None => None });
    let mut stems: Vec<Option<Vec<char>>> = Vec::new();
    let mut extensions: Vec<Option<Vec<char>>> = Vec::new();
    let mut m: usize = 0;
    while m < file_names.len()
        invariant
            m <= file_names@.len(),
            ns == file_names@.map_values(|n: Option<String>| match n { Some(s) => Some(s@), None => None }),
            stems@.len() == m,
            extensions@.len() == m,
            forall|i: int| 0 <= i < m ==> optional_view(#[trigger] stems@[i]) == stem_of(ns[i]),
            forall|i: int| 0 <= i < m ==> optional_view(#[trigger] extensions@[i]) == extension_of(ns[i]),
        decreases file_names@.len() - m,
    {
        match &file_names[m] {
            Some(n) => {
                let cs = chars_of(n.as_str());
                let (stem, ext) = split_stem(cs.as_slice());
                stems.push(Some(stem));
                extensions.push(ext);
            },
            None => {
                stems.push(None);
                extensions.push(None);
            },
        }
        m = m + 1;
    }
    let keys = ExtensionKeys { stems, extensions };
    let r = sort_by_order(&keys);
    assert forall|j: int, k: int| 0 <= j < k < r@.len() implies extension_before(
        ns,
        #[trigger] r@[j] as int,
        #[trigger] r@[k] as int,
    ) by {
        assert(keys.before(r@[j] as int, r@[k] as int));
    }
    r
}

/// Entry `i` comes before entry `j` in the order of `ls --sort=width`: the
/// shorter name (in bytes) first, then the earlier in the order by name
/// (`name_rank`, the entry's place in it), then the earlier read.
pub open spec fn width_before(lens: Seq<usize>, name_rank: Seq<usize>, i: int, j: int) -> bool {
    lens[i] < lens[j] || (lens[i] == lens[j] && (name_rank[i] < name_rank[j] || (name_rank[i] == name_rank[j]
        && i < j)))
}

/// The name lengths and places in the order by name of the entries of a
/// listing, in the order of `ls --sort=width`.
pub struct WidthKeys {
    pub lens: Vec<usize>,
    pub name_rank: Vec<usize>,
}

impl EntryOrder for WidthKeys {
    open spec fn count(&self) -> nat {
        if self.lens@.len() <= self.name_rank@.len() { self.lens@.len() } else { self.name_rank@.len() }
    }

    open spec fn before(&self, i: int, j: int) -> bool {
        width_before(self.lens@, self.name_rank@, i, j)
    }

    proof fn lemma_strict_total(&self, i: int, j: int, k: int) {
    }

    fn len(&self) -> (r: usize) {
        if self.lens.len() <= self.name_rank.len() {
            self.lens.len()
        } else {
            self.name_rank.len()
        }
    }

    fn comes_before(&self, i: usize, j: usize) -> (r: bool) {
        self.lens[i] < self.lens[j] || (self.lens[i] == self.lens[j] && (self.name_rank[i] < self.name_rank[j] || (
        self.name_rank[i] == self.name_rank[j] && i < j)))
    }
}

/// The entries in the order of `ls --sort=width`: `lens` are the byte
/// lengths of their names, `name_rank` their places in the order by name.
pub fn order_by_width(lens: Vec<usize>, name_rank: Vec<usize>) -> (r: Vec<usize>)
    requires
        lens@.len() == name_rank@.len(),
    ensures
        is_order(r@, lens@.len()),
        forall|j: int, k: int|
            0 <= j < k < r@.len() ==> width_before(lens@, name_rank@, #[trigger] r@[j] as int, #[trigger] r@[k] as int),
{
    let keys = WidthKeys { lens, name_rank };
    sort_by_order(&keys)
}

/// The order in which the entries of a listing are shown: `keys` are the
/// times or sizes of `-t` and `-S`, `given` the order by name, version,
/// extension or width, `is_dir` says which entries are directories. The
/// sort by time or size is stable: entries of equal keys keep the order in
/// which they were read (before `-r` reverses the whole order).
pub fn sort_entries(
    sort: LsSort,
    keys: &[i128],
    given: &Vec<usize>,
    reverse: bool,
    dirs_first: bool,
    is_dir: &[bool],
) -> (r: Vec<usize>)
    requires
        is_dir@.len() == keys@.len(),
        is_order(given@, keys@.len()),
    ensures
        exists|base: Seq<usize>| base_order_ok(sort, keys@, given@, base)
            && r@ == finished_order(base, sort, reverse, dirs_first, is_dir@),
        (sort == LsSort::Time || sort == LsSort::Size) && !reverse && !dirs_first ==> {
            &&& is_order(r@, keys@.len())
            &&& forall|j: int, k: int|
                0 <= j < k < r@.len() ==> keys@[#[trigger] r@[j] as int] >= keys@[#[trigger] r@[k] as int]
            &&& forall|j: int, k: int|
                0 <= j < k < r@.len() && keys@[r@[j] as int] == keys@[r@[k] as int] ==> #[trigger] r@[j]
                    < #[trigger] r@[k]
        },
{
    let base = match sort {
        LsSort::Time | LsSort::Size => order_by_key_desc(keys),
        LsSort::Unsorted => identity_order(keys.len()),
        _ => {
            let mut g: Vec<usize> = Vec::new();
            let mut i: usize = 0;
            while i < given.len()
                invariant
                    i <= given@.len(),
                    g@ == given@.take(i as int),
                decreases given@.len() - i,
            {
                g.push(given[i]);
                assert(g@ =~= given@.take(i + 1));
                i = i + 1;
            }
            assert(given@.take(given@.len() as int) =~= given@);
            g
        },
    };
    assert(base_order_ok(sort, keys@, given@, base@));
    assert(forall|j: int| 0 <= j < base@.len() ==> #[trigger] base@[j] < keys@.len());
    let o = if reverse { reverse_order(&base) } else { base };
    let ghost ov = if reverse { base@.reverse() } else { base@ };
    assert(o@ == ov);
    assert(forall|j: int| 0 <= j < o@.len() ==> #[trigger] o@[j] < is_dir@.len()) by {
        assert forall|j: int| 0 <= j < o@.len() implies #[trigger] o@[j] < is_dir@.len() by {
            if reverse {
                assert(o@[j] == base@[base@.len() - 1 - j]);
            }
        }
    }
    if dirs_first && sort != LsSort::Unsorted {
        directories_first(&o, is_dir)
    } else {
        proof {
            if (sort == LsSort::Time || sort == LsSort::Size) && !reverse {
                assert(o@ == base@);
                assert(sorted_by_key(keys@, base@));
            }
        }
        o
    }
}

} // verus!
