//! `fold`: wrap each input line to fit a given width.
//!
//! Three counting modes are supported, as in GNU fold:
//! - columns (the default): display columns, with tab stops every 8 columns,
//!   backspace moving one column back, carriage return going back to column 0
//!   and newline ending the line;
//! - bytes (`-b`): the UTF-8 length of each character, newline included;
//! - characters (`-c`): one per character, newline included.
//!
//! With `-s` a line is broken after its last blank when the next character
//! would not fit; otherwise it is broken just before that character.

use vstd::prelude::*;
use vstd::utf8::*;
use crate::unicode::{char_columns, char_width, utf8_str};
use crate::text::{strs, is_digit, clone_strings};

verus! {

/// Width of a tab stop in columns mode.
pub const FOLD_TAB_WIDTH: usize = 8;

/// An old-style width option: `-` followed by a digit (such as `-20`).
pub open spec fn is_obsolete_width(s: Seq<char>) -> bool {
    s.len() >= 2 && s[0] == '-' && is_digit(s[1])
}

/// Takes the first old-style width option (such as `-20`) out of the
/// arguments: the remaining arguments and the width's text (`20`), or the
/// arguments unchanged and `None` when there is none.
pub fn handle_obsolete(args: &[String]) -> (r: (Vec<String>, Option<String>))
    ensures
        match r.1 {
            None => {
                &&& forall|i: int| 0 <= i < args@.len() ==> !is_obsolete_width(#[trigger] args@[i]@)
                &&& strs(r.0@) == strs(args@)
            },
            Some(w) => exists|i: int|
                {
                    &&& 0 <= i < args@.len()
                    &&& is_obsolete_width(#[trigger] args@[i]@)
                    &&& forall|j: int| 0 <= j < i ==> !is_obsolete_width(#[trigger] args@[j]@)
                    &&& w@ == args@[i]@.skip(1)
                    &&& strs(r.0@) == strs(args@).remove(i)
                },
        },
{
    let mut i: usize = 0;
    while i < args.len()
        invariant
            i <= args@.len(),
            forall|j: int| 0 <= j < i ==> !is_obsolete_width(#[trigger] args@[j]@),
        decreases args@.len() - i,
    {
        let a = args[i].as_str();
        let n = a.unicode_len();
        if n >= 2 && a.get_char(0) == '-' && '0' <= a.get_char(1) && a.get_char(1) <= '9' {
            let mut v = clone_strings(args);
            v.remove(i);
            let w = a.substring_char(1, n).to_owned();
            assert(strs(v@) =~= strs(args@).remove(i as int));
            assert(w@ =~= args@[i as int]@.skip(1));
            return (v, Some(w));
        }
        i = i + 1;
    }
    (clone_strings(args), None)
}

/// How the position on the current line is counted.
#[derive(Debug, Clone, Copy, PartialEq, Eq, Structural)]
pub enum CountMode {
    /// Display columns (the default).
    Columns,
    /// Bytes of UTF-8 (`-b`).
    Bytes,
    /// Characters (`-c`).
    Characters,
}

/// The `fold` tool.
pub struct Fold;

impl Fold {
    /// Name of the tool.
    pub fn name(&self) -> (r: &'static str)
        ensures
            r@ == "fold"@,
    {
        "fold"
    }
}

/// The state of the folding algorithm between two characters.
pub struct FoldState {
    /// Position on the current line, in the units of the counting mode.
    pub column: int,
    /// Bytes of the current line not written yet.
    pub line: Seq<u8>,
    /// Index in `line` of the last blank, when `-s` is in force.
    pub blank: Option<int>,
    /// Position right after that blank.
    pub blank_column: int,
    /// Everything written so far.
    pub out: Seq<u8>,
}

/// The state before the first character.
pub open spec fn fold_start() -> FoldState {
    FoldState { column: 0, line: Seq::empty(), blank: None, blank_column: 0, out: Seq::empty() }
}

/// The character read at byte `i` and its length in bytes: the character
/// whose well-formed UTF-8 encoding starts there, or, where none does, the
/// single byte taken as a Latin-1 character.
pub open spec fn decode_at(buf: Seq<u8>, i: int) -> (char, int) {
    let rest = buf.subrange(i, buf.len() as int);
    if valid_first_scalar(rest) {
        (decode_first_scalar(rest) as char, length_of_first_scalar(rest))
    } else {
        (buf[i] as char, 1)
    }
}

/// The length of the encoding that a leading byte announces (1 for a byte
/// that cannot lead one).
pub open spec fn announced_len(b: u8) -> int {
    if is_leading_byte_width_2(b) {
        2
    } else if is_leading_byte_width_3(b) {
        3
    } else if is_leading_byte_width_4(b) {
        4
    } else {
        1
    }
}

/// ASCII whitespace: space, tab, newline, form feed and carriage return.
pub open spec fn is_blank(c: char) -> bool {
    c == ' ' || c == '\t' || c == '\n' || c == '\x0C' || c == '\r'
}

/// How far a character advances the position.
pub open spec fn increment(mode: CountMode, c: char, len: int, column: int) -> int {
    match mode {
        CountMode::Bytes => len,
        CountMode::Characters => 1,
        CountMode::Columns => {
            if c == '\r' {
                column
            } else if c == '\t' {
                8 - column % 8
            } else if c == '\x08' {
                if column > 0 {
                    1
                } else {
                    0
                }
            } else {
                match char_columns(c) {
                    Some(w) => w as int,
                    None => 0,
                }
            }
        },
    }
}

/// The state after a line break: the pending line is written, then a newline.
pub open spec fn break_line(st: FoldState) -> FoldState {
    FoldState {
        column: 0,
        line: Seq::empty(),
        blank: None,
        blank_column: 0,
        out: st.out + st.line + seq![10u8],
    }
}

/// The state after the character `c` (encoded as `bytes`) is put on the line.
pub open spec fn put_char(st: FoldState, c: char, bytes: Seq<u8>, inc: int, spaces: bool) -> FoldState {
    let line = st.line + bytes;
    let column = st.column + inc;
    if spaces && is_blank(c) {
        FoldState { column, line, blank: Some(line.len() - 1), blank_column: column, out: st.out }
    } else {
        FoldState { column, line, blank: st.blank, blank_column: st.blank_column, out: st.out }
    }
}

/// Places one character (other than a newline in columns mode) on the line,
/// breaking the line first as often as needed. `None` when breaking at the
/// last blank would take the position below zero.
pub open spec fn place(
    st: FoldState,
    c: char,
    bytes: Seq<u8>,
    mode: CountMode,
    width: int,
    spaces: bool,
) -> Option<FoldState>
    decreases (if st.blank is Some { 2int } else { 0int }) + (if st.column != 0 { 1int } else { 0int }),
{
    let inc = increment(mode, c, bytes.len() as int, st.column);
    if mode == CountMode::Columns && c == '\r' {
        Some(FoldState { column: 0, line: st.line + bytes, ..st })
    } else if mode == CountMode::Columns && c == '\x08' {
        Some(
            FoldState {
                column: if st.column > 0 { st.column - 1 } else { st.column },
                line: st.line + bytes,
                ..st
            },
        )
    } else if st.column + inc > width && spaces && st.blank is Some {
        let p = st.blank->0;
        if st.column < st.blank_column {
            None
        } else {
            place(
                FoldState {
                    column: st.column - st.blank_column,
                    line: st.line.subrange(p + 1, st.line.len() as int),
                    blank: None,
                    blank_column: 0,
                    out: st.out + st.line.subrange(0, p + 1) + seq![10u8],
                },
                c,
                bytes,
                mode,
                width,
                spaces,
            )
        }
    } else if st.column + inc > width && st.column != 0 {
        place(break_line(st), c, bytes, mode, width, spaces)
    } else {
        Some(put_char(st, c, bytes, inc, spaces))
    }
}

/// The state after the character at byte `i`.
pub open spec fn step(buf: Seq<u8>, i: int, st: FoldState, mode: CountMode, width: int, spaces: bool) -> Option<FoldState> {
    let (c, len) = decode_at(buf, i);
    if mode == CountMode::Columns && c == '\n' {
        Some(break_line(st))
    } else {
        place(st, c, buf.subrange(i, i + len), mode, width, spaces)
    }
}

/// Output of folding `buf` from byte `i` on, in state `st`; `None` when the
/// position would go below zero on the way.
pub open spec fn fold_from(buf: Seq<u8>, i: int, st: FoldState, mode: CountMode, width: int, spaces: bool) -> Option<Seq<u8>>
    decreases buf.len() - i,
{
    if i < 0 || i >= buf.len() {
        Some(st.out + st.line)
    } else {
        let len = decode_at(buf, i).1;
        match step(buf, i, st, mode, width, spaces) {
            None => None,
            Some(next) => if len > 0 {
                fold_from(buf, i + len, next, mode, width, spaces)
            } else {
                None
            },
        }
    }
}

/// Output of folding `buf` to `width` in the given mode (`spaces` is `-s`).
pub open spec fn fold_spec(buf: Seq<u8>, mode: CountMode, width: int, spaces: bool) -> Option<Seq<u8>> {
    fold_from(buf, 0, fold_start(), mode, width, spaces)
}

/// The executable state of the algorithm.
struct LineState {
    column: usize,
    line: Vec<u8>,
    blank: Option<usize>,
    blank_column: usize,
    out: Vec<u8>,
}

impl LineState {
    spec fn view(&self) -> FoldState {
        FoldState {
            column: self.column as int,
            line: self.line@,
            blank: match self.blank {
                Some(p) => Some(p as int),
                None => None,
            },
            blank_column: self.blank_column as int,
            out: self.out@,
        }
    }

    spec fn wf(&self) -> bool {
        self.blank matches Some(p) ==> p < self.line@.len()
    }
}

/// The largest position the algorithm reaches: the width, or the widest a
/// character can be when it stands alone on a line.
pub open spec fn column_cap(width: usize) -> int {
    if width >= 255 {
        width as int
    } else {
        255
    }
}

/// Reads the character at byte `i` and its length, as `decode_at` says.
fn char_at(buffer: &[u8], i: usize) -> (r: (char, usize))
    requires
        i < buffer@.len(),
    ensures
        r.0 == decode_at(buffer@, i as int).0,
        r.1 as int == decode_at(buffer@, i as int).1,
        1 <= r.1 <= 4,
        i + r.1 <= buffer@.len(),
{
    let b0 = buffer[i];
    let n: usize = if 0xc0 <= b0 && b0 <= 0xdf {
        2
    } else if 0xe0 <= b0 && b0 <= 0xef {
        3
    } else if 0xf0 <= b0 && b0 <= 0xf7 {
        4
    } else {
        1
    };
    let end: usize = if buffer.len() - i < n {
        buffer.len()
    } else {
        i + n
    };
    let candidate = vstd::slice::slice_subrange(buffer, i, end);
    proof {
        lemma_first_scalar_prefix(buffer@.subrange(i as int, buffer@.len() as int), (end - i) as int);
        assert(candidate@ =~= buffer@.subrange(i as int, buffer@.len() as int).take((end - i) as int));
    }
    match utf8_str(candidate) {
        Some(s) => {
            proof {
                reveal_with_fuel(decode_utf8, 2);
            }
            let c = s.get_char(0);
            (c, end - i)
        },
        None => (b0 as char, 1),
    }
}

/// Whether the bytes that a leading byte announces (or all that are left,
/// where fewer are) are well-formed UTF-8 decides whether a character starts
/// there, and which.
proof fn lemma_first_scalar_prefix(rest: Seq<u8>, m: int)
    requires
        rest.len() > 0,
        m == if announced_len(rest[0]) <= rest.len() { announced_len(rest[0]) } else { rest.len() as int },
    ensures
        valid_utf8(rest.take(m)) <==> valid_first_scalar(rest),
        valid_first_scalar(rest) ==> {
            &&& length_of_first_scalar(rest) == m
            &&& valid_first_scalar(rest.take(m))
            &&& decode_first_scalar(rest.take(m)) == decode_first_scalar(rest)
            &&& length_of_first_scalar(rest.take(m)) == m
            &&& pop_first_scalar(rest.take(m)).len() == 0
        },
{
    let cand = rest.take(m);
    assert(forall|k: int| 0 <= k < m ==> cand[k] == rest[k]);
    reveal_with_fuel(valid_utf8, 2);
    if valid_first_scalar(rest) {
        assert(length_of_first_scalar(rest) == m);
        assert(valid_first_scalar(cand));
        assert(pop_first_scalar(cand) =~= Seq::<u8>::empty());
    }
    if valid_utf8(cand) {
        assert(valid_first_scalar(cand));
    }
}

/// Appends `src[from..to]` to `dst`.
fn extend_range(dst: &mut Vec<u8>, src: &[u8], from: usize, to: usize)
    requires
        from <= to <= src@.len(),
    ensures
        final(dst)@ == old(dst)@ + src@.subrange(from as int, to as int),
{
    let mut k = from;
    while k < to
        invariant
            from <= k <= to <= src@.len(),
            dst@ == old(dst)@ + src@.subrange(from as int, k as int),
        decreases to - k,
    {
        dst.push(src[k]);
        assert(src@.subrange(from as int, k + 1) =~= src@.subrange(from as int, k as int).push(
            src@[k as int],
        ));
        k = k + 1;
    }
}

/// Writes the pending line and a newline, and starts a new line.
fn emit_line(st: &mut LineState)
    ensures
        final(st)@ == break_line(old(st)@),
        final(st).wf(),
{
    let mut line = Vec::new();
    std::mem::swap(&mut line, &mut st.line);
    let n = line.len();
    extend_range(&mut st.out, &line, 0, n);
    assert(line@.subrange(0, n as int) =~= line@);
    let ghost before = st.out@;
    st.out.push(10u8);
    assert(st.out@ =~= old(st).out@ + old(st).line@ + seq![10u8]);
    st.column = 0;
    st.blank = None;
    st.blank_column = 0;
}

/// Executes `place`; false exactly when `place` gives `None`.
fn place_exec(
    st: &mut LineState,
    c: char,
    buffer: &[u8],
    start: usize,
    len: usize,
    mode: CountMode,
    width: usize,
    spaces: bool,
) -> (ok: bool)
    requires
        old(st).wf(),
        start + len <= buffer@.len() <= usize::MAX,
        1 <= len <= 4,
        old(st).column <= column_cap(width),
    ensures
        ok == place(old(st)@, c, buffer@.subrange(start as int, start + len), mode, width as int, spaces) is Some,
        ok ==> final(st)@ == place(old(st)@, c, buffer@.subrange(start as int, start + len), mode, width as int, spaces)->0,
        final(st).wf(),
        final(st).column <= column_cap(width),
    decreases (if old(st).blank is Some { 2int } else { 0int }) + (if old(st).column != 0 { 1int } else { 0int }),
{
    let ghost bytes = buffer@.subrange(start as int, start + len);
    let inc: usize = match mode {
        CountMode::Bytes => len,
        CountMode::Characters => 1,
        CountMode::Columns => {
            if c == '\r' {
                st.column
            } else if c == '\t' {
                FOLD_TAB_WIDTH - st.column % FOLD_TAB_WIDTH
            } else if c == '\x08' {
                if st.column > 0 {
                    1
                } else {
                    0
                }
            } else {
                match char_width(c) {
                    Some(w) => w,
                    None => 0,
                }
            }
        },
    };
    assert(inc as int == increment(mode, c, len as int, st.column as int));
    if mode == CountMode::Columns && c == '\r' {
        st.column = 0;
        extend_range(&mut st.line, buffer, start, start + len);
        return true;
    }
    if mode == CountMode::Columns && c == '\x08' {
        if st.column > 0 {
            st.column = st.column - 1;
        }
        extend_range(&mut st.line, buffer, start, start + len);
        return true;
    }
    assert(inc <= 255 * len);
    if (st.column as u128) + (inc as u128) > (width as u128) {
        if spaces && st.blank.is_some() {
            let p = match st.blank {
                Some(p) => p,
                None => 0,
            };
            if st.column < st.blank_column {
                return false;
            }
            let n = st.line.len();
            let ghost st0 = st@;
            extend_range(&mut st.out, &st.line, 0, p + 1);
            st.out.push(10u8);
            assert(st.out@ =~= st0.out + st0.line.subrange(0, p + 1) + seq![10u8]);
            let mut rest: Vec<u8> = Vec::new();
            extend_range(&mut rest, &st.line, p + 1, n);
            assert(rest@ =~= st.line@.subrange(p + 1, n as int));
            st.line = rest;
            st.column = st.column - st.blank_column;
            st.blank = None;
            st.blank_column = 0;
            assert(st@ == FoldState {
                column: st0.column - st0.blank_column,
                line: st0.line.subrange(p + 1, st0.line.len() as int),
                blank: None,
                blank_column: 0,
                out: st0.out + st0.line.subrange(0, p + 1) + seq![10u8],
            });
            return place_exec(st, c, buffer, start, len, mode, width, spaces);
        }
        if st.column != 0 {
            emit_line(st);
            return place_exec(st, c, buffer, start, len, mode, width, spaces);
        }
    }
    extend_range(&mut st.line, buffer, start, start + len);
    assert(inc <= 255);
    st.column = st.column + inc;
    if spaces && (c == ' ' || c == '\t' || c == '\n' || c == '\x0C' || c == '\r') {
        st.blank = Some(st.line.len() - 1);
        st.blank_column = st.column;
    }
    true
}

/// Folds `buffer` to `width` in the given mode (`spaces` is `-s`): the bytes
/// that `fold` writes for this input, or `None` on the inputs where breaking
/// at a blank would take the position below zero (the arithmetic of the
/// algorithm overflows there).
pub fn fold_buffer(buffer: &[u8], spaces: bool, width: usize, mode: CountMode) -> (r: Option<Vec<u8>>)
    ensures
        match fold_spec(buffer@, mode, width as int, spaces) {
            Some(o) => r matches Some(v) && v@ == o,
            None => r is None,
        },
{
    let mut st = LineState { column: 0, line: Vec::new(), blank: None, blank_column: 0, out: Vec::new() };
    let mut i: usize = 0;
    assert(st@ == fold_start());
    while i < buffer.len()
        invariant
            i <= buffer@.len(),
            st.wf(),
            st.column <= column_cap(width),
            fold_from(buffer@, i as int, st@, mode, width as int, spaces) == fold_spec(
                buffer@,
                mode,
                width as int,
                spaces,
            ),
        decreases buffer@.len() - i,
    {
        let (c, len) = char_at(buffer, i);
        if mode == CountMode::Columns && c == '\n' {
            emit_line(&mut st);
        } else {
            let ok = place_exec(&mut st, c, buffer, i, len, mode, width, spaces);
            if !ok {
                return None;
            }
        }
        i = i + len;
    }
    let mut out = Vec::new();
    std::mem::swap(&mut out, &mut st.out);
    let n = st.line.len();
    extend_range(&mut out, &st.line, 0, n);
    assert(st.line@.subrange(0, n as int) =~= st.line@);
    Some(out)
}


// ---------------------------------------------------------------------------
// What folding keeps
// ---------------------------------------------------------------------------

/// `b` is `a` with newline bytes put in at some places.
pub open spec fn newlines_inserted(a: Seq<u8>, b: Seq<u8>) -> bool
    decreases b.len(),
{
    if b.len() == 0 {
        a.len() == 0
    } else if a.len() > 0 && b.last() == a.last() && newlines_inserted(a.drop_last(), b.drop_last()) {
        true
    } else {
        b.last() == 10u8 && newlines_inserted(a, b.drop_last())
    }
}

proof fn lemma_inserted_append(a: Seq<u8>, b: Seq<u8>, c: Seq<u8>)
    requires
        newlines_inserted(a, b),
    ensures
        newlines_inserted(a + c, b + c),
    decreases c.len(),
{
    if c.len() == 0 {
        assert(a + c =~= a);
        assert(b + c =~= b);
    } else {
        lemma_inserted_append(a, b, c.drop_last());
        assert((a + c).drop_last() =~= a + c.drop_last());
        assert((b + c).drop_last() =~= b + c.drop_last());
    }
}

proof fn lemma_inserted_newline_at(a: Seq<u8>, b: Seq<u8>, k: int)
    requires
        newlines_inserted(a, b),
        0 <= k <= b.len(),
    ensures
        newlines_inserted(a, b.take(k) + seq![10u8] + b.skip(k)),
    decreases b.len(),
{
    let nb = b.take(k) + seq![10u8] + b.skip(k);
    if k == b.len() {
        assert(nb.drop_last() =~= b);
    } else {
        let b2 = b.drop_last();
        assert(nb.drop_last() =~= b2.take(k) + seq![10u8] + b2.skip(k));
        assert(nb.last() == b.last());
        if a.len() > 0 && b.last() == a.last() && newlines_inserted(a.drop_last(), b2) {
            lemma_inserted_newline_at(a.drop_last(), b2, k);
        } else {
            lemma_inserted_newline_at(a, b2, k);
        }
    }
}

/// The length and bytes of the character read at `i`.
proof fn lemma_decode_at_len(buf: Seq<u8>, i: int)
    requires
        0 <= i < buf.len(),
    ensures
        1 <= decode_at(buf, i).1 <= 4,
        i + decode_at(buf, i).1 <= buf.len(),
        decode_at(buf, i).0 == '\n' ==> buf.subrange(i, i + decode_at(buf, i).1) == seq![10u8],
{
    let rest = buf.subrange(i, buf.len() as int);
    if valid_first_scalar(rest) {
        if decode_at(buf, i).0 == '\n' {
            let b0 = rest[0];
            let cp = decode_first_scalar(rest);
            assert(rest[0] == buf[i]);
            if is_leading_byte_width_1(b0) {
                assert((b0 & 0x7f) == b0) by (bit_vector)
                    requires
                        b0 <= 0x7f,
                ;
                assert(cp == b0 as u32);
                assert(b0 == 10);
            } else if is_leading_byte_width_2(b0) {
                let b1 = rest[1];
                let x = (b0 & 0x1f) as u32;
                let y = (b1 & 0x3f) as u32;
                assert(x <= 0x1f && y <= 0x3f) by (bit_vector)
                    requires
                        x == (b0 & 0x1f) as u32,
                        y == (b1 & 0x3f) as u32,
                ;
                assert((x << 6) | y <= 0x7ff) by (bit_vector)
                    requires
                        x <= 0x1f,
                        y <= 0x3f,
                ;
                assert(0x80 <= cp <= 0x7ff);
            } else if is_leading_byte_width_3(b0) {
                let b1 = rest[1];
                let b2 = rest[2];
                let x = (b0 & 0x0f) as u32;
                let y = (b1 & 0x3f) as u32;
                let z = (b2 & 0x3f) as u32;
                assert(x <= 0x0f && y <= 0x3f && z <= 0x3f) by (bit_vector)
                    requires
                        x == (b0 & 0x0f) as u32,
                        y == (b1 & 0x3f) as u32,
                        z == (b2 & 0x3f) as u32,
                ;
                assert((x << 12) | (y << 6) | z <= 0xffff) by (bit_vector)
                    requires
                        x <= 0x0f,
                        y <= 0x3f,
                        z <= 0x3f,
                ;
                assert(0x800 <= cp <= 0xffff);
                assert(!(0xD800 <= cp <= 0xDFFF));
            } else {
                assert(0x10000 <= cp <= 0x10ffff);
            }
            assert(buf.subrange(i, i + 1) =~= seq![buf[i]]);
        }
    } else {
        assert(buf.subrange(i, i + 1) =~= seq![buf[i]]);
    }
}

/// A state whose blank, if any, lies on its pending line.
pub open spec fn state_wf(st: FoldState) -> bool {
    st.blank matches Some(p) ==> 0 <= p < st.line.len()
}

proof fn lemma_place_inserts(
    a: Seq<u8>,
    st: FoldState,
    c: char,
    bytes: Seq<u8>,
    mode: CountMode,
    width: int,
    spaces: bool,
)
    requires
        newlines_inserted(a, st.out + st.line),
        state_wf(st),
        bytes.len() > 0,
        place(st, c, bytes, mode, width, spaces) is Some,
    ensures
        newlines_inserted(a + bytes, place(st, c, bytes, mode, width, spaces)->0.out + place(
            st,
            c,
            bytes,
            mode,
            width,
            spaces,
        )->0.line),
        state_wf(place(st, c, bytes, mode, width, spaces)->0),
    decreases (if st.blank is Some { 2int } else { 0int }) + (if st.column != 0 { 1int } else { 0int }),
{
    let inc = increment(mode, c, bytes.len() as int, st.column);
    let b = st.out + st.line;
    if mode == CountMode::Columns && c == '\r' {
        lemma_inserted_append(a, b, bytes);
        assert(st.out + (st.line + bytes) =~= b + bytes);
    } else if mode == CountMode::Columns && c == '\x08' {
        lemma_inserted_append(a, b, bytes);
        assert(st.out + (st.line + bytes) =~= b + bytes);
    } else if st.column + inc > width && spaces && st.blank is Some {
        let p = st.blank->0;
        let k = st.out.len() + p + 1;
        lemma_inserted_newline_at(a, b, k);
        let next = FoldState {
            column: st.column - st.blank_column,
            line: st.line.subrange(p + 1, st.line.len() as int),
            blank: None,
            blank_column: 0,
            out: st.out + st.line.subrange(0, p + 1) + seq![10u8],
        };
        assert(next.out + next.line =~= b.take(k) + seq![10u8] + b.skip(k));
        lemma_place_inserts(a, next, c, bytes, mode, width, spaces);
    } else if st.column + inc > width && st.column != 0 {
        let next = break_line(st);
        assert(next.out + next.line =~= b.take(b.len() as int) + seq![10u8] + b.skip(b.len() as int));
        lemma_inserted_newline_at(a, b, b.len() as int);
        lemma_place_inserts(a, next, c, bytes, mode, width, spaces);
    } else {
        lemma_inserted_append(a, b, bytes);
        let next = put_char(st, c, bytes, inc, spaces);
        assert(next.out + next.line =~= b + bytes);
    }
}

proof fn lemma_fold_from_inserts(
    buf: Seq<u8>,
    i: int,
    st: FoldState,
    mode: CountMode,
    width: int,
    spaces: bool,
)
    requires
        0 <= i <= buf.len(),
        newlines_inserted(buf.take(i), st.out + st.line),
        state_wf(st),
        fold_from(buf, i, st, mode, width, spaces) is Some,
    ensures
        newlines_inserted(buf, fold_from(buf, i, st, mode, width, spaces)->0),
    decreases buf.len() - i,
{
    if i >= buf.len() {
        assert(buf.take(i) =~= buf);
    } else {
        lemma_decode_at_len(buf, i);
        let (c, len) = decode_at(buf, i);
        let bytes = buf.subrange(i, i + len);
        assert(buf.take(i + len) =~= buf.take(i) + bytes);
        if mode == CountMode::Columns && c == '\n' {
            let next = break_line(st);
            lemma_inserted_append(buf.take(i), st.out + st.line, bytes);
            assert(next.out + next.line =~= st.out + st.line + bytes);
            lemma_fold_from_inserts(buf, i + len, next, mode, width, spaces);
        } else {
            lemma_place_inserts(buf.take(i), st, c, bytes, mode, width, spaces);
            let next = place(st, c, bytes, mode, width, spaces)->0;
            lemma_fold_from_inserts(buf, i + len, next, mode, width, spaces);
        }
    }
}

/// Folding only inserts newlines: what `fold` writes is its input with
/// newline bytes put in at the places where lines are broken, every input
/// byte kept and in order.
pub proof fn law_fold_only_inserts_newlines(buf: Seq<u8>, mode: CountMode, width: int, spaces: bool)
    requires
        fold_spec(buf, mode, width, spaces) is Some,
    ensures
        newlines_inserted(buf, fold_spec(buf, mode, width, spaces)->0),
{
    assert(buf.take(0) =~= Seq::<u8>::empty());
    assert(fold_start().out + fold_start().line =~= Seq::<u8>::empty());
    lemma_fold_from_inserts(buf, 0, fold_start(), mode, width, spaces);
}

} // verus!

verus! {

/// The input from byte `i` on with a newline put before each character that
/// follows `width` characters on its line, `on_line` characters being on the
/// line already.
pub open spec fn break_every(buf: Seq<u8>, i: int, on_line: int, width: int) -> Seq<u8>
    decreases buf.len() - i,
{
    if i < 0 || i >= buf.len() {
        Seq::empty()
    } else {
        let len = decode_at(buf, i).1;
        if len <= 0 {
            Seq::empty()
        } else if on_line >= width {
            seq![10u8] + buf.subrange(i, i + len) + break_every(buf, i + len, 1, width)
        } else {
            buf.subrange(i, i + len) + break_every(buf, i + len, on_line + 1, width)
        }
    }
}

proof fn lemma_characters_fold_from(buf: Seq<u8>, i: int, st: FoldState, width: int)
    requires
        width >= 1,
        0 <= i <= buf.len(),
        st.blank is None,
        0 <= st.column <= width,
    ensures
        fold_from(buf, i, st, CountMode::Characters, width, false) == Some(
            st.out + st.line + break_every(buf, i, st.column, width),
        ),
    decreases buf.len() - i,
{
    if i < buf.len() {
        lemma_decode_at_len(buf, i);
        let (c, len) = decode_at(buf, i);
        let bytes = buf.subrange(i, i + len);
        reveal_with_fuel(place, 3);
        let next = step(buf, i, st, CountMode::Characters, width, false)->0;
        if st.column >= width {
            let b = break_line(st);
            assert(next == put_char(b, c, bytes, 1, false));
            lemma_characters_fold_from(buf, i + len, next, width);
            assert(next.out + next.line + break_every(buf, i + len, 1, width) =~= st.out + st.line + (seq![10u8]
                + bytes + break_every(buf, i + len, 1, width)));
        } else {
            assert(next == put_char(st, c, bytes, 1, false));
            lemma_characters_fold_from(buf, i + len, next, width);
            assert(next.out + next.line + break_every(buf, i + len, st.column + 1, width) =~= st.out + st.line + (
            bytes + break_every(buf, i + len, st.column + 1, width)));
        }
    } else {
        assert(st.out + st.line + Seq::<u8>::empty() =~= st.out + st.line);
    }
}

/// Without `-s`, `fold -c` puts a newline after every `width` characters
/// (the input's own newlines counting as characters), and nowhere else.
pub proof fn law_characters_mode_breaks_every_width(buf: Seq<u8>, width: int)
    requires
        width >= 1,
    ensures
        fold_spec(buf, CountMode::Characters, width, false) == Some(break_every(buf, 0, 0, width)),
{
    lemma_characters_fold_from(buf, 0, fold_start(), width);
    assert(Seq::<u8>::empty() + Seq::<u8>::empty() + break_every(buf, 0, 0, width) =~= break_every(buf, 0, 0, width));
}

} // verus!

verus! {

/// The number of bytes other than newlines just before position `j` of `s`:
/// how far the line that `j` is on has got.
pub open spec fn run_before(s: Seq<u8>, j: int) -> nat
    decreases j,
{
    if j <= 0 || j > s.len() || s[j - 1] == 10 {
        0
    } else {
        1 + run_before(s, j - 1)
    }
}

/// No line of `s` holds more than `width` bytes.
pub open spec fn lines_at_most(s: Seq<u8>, width: int) -> bool {
    forall|j: int| 0 <= j <= s.len() ==> #[trigger] run_before(s, j) <= width
}

/// Empty, or ending with a newline.
pub open spec fn ends_line(s: Seq<u8>) -> bool {
    s.len() == 0 || s.last() == 10
}

proof fn lemma_run_before_prefix(p: Seq<u8>, q: Seq<u8>, j: int)
    requires
        0 <= j <= p.len(),
    ensures
        run_before(p + q, j) == run_before(p, j),
    decreases j,
{
    if j > 0 {
        assert((p + q)[j - 1] == p[j - 1]);
        lemma_run_before_prefix(p, q, j - 1);
    }
}

proof fn lemma_run_before_after(p: Seq<u8>, q: Seq<u8>, j: int)
    requires
        ends_line(p),
        p.len() <= j <= p.len() + q.len(),
    ensures
        run_before(p + q, j) <= j - p.len(),
    decreases j,
{
    if j > p.len() {
        lemma_run_before_after(p, q, j - 1);
    } else if p.len() > 0 {
        assert((p + q)[j - 1] == p.last());
    }
}

proof fn lemma_lines_append(p: Seq<u8>, q: Seq<u8>, width: int)
    requires
        ends_line(p),
        lines_at_most(p, width),
        q.len() <= width,
    ensures
        lines_at_most(p + q, width),
{
    assert forall|j: int| 0 <= j <= (p + q).len() implies #[trigger] run_before(p + q, j) <= width by {
        if j <= p.len() {
            lemma_run_before_prefix(p, q, j);
        } else {
            lemma_run_before_after(p, q, j);
        }
    }
}

proof fn lemma_lines_end(s: Seq<u8>, width: int)
    requires
        lines_at_most(s, width),
        width >= 0,
    ensures
        lines_at_most(s + seq![10u8], width),
        ends_line(s + seq![10u8]),
{
    let t = s + seq![10u8];
    assert forall|j: int| 0 <= j <= t.len() implies #[trigger] run_before(t, j) <= width by {
        if j <= s.len() {
            lemma_run_before_prefix(s, seq![10u8], j);
        } else {
            assert(t[j - 1] == 10);
        }
    }
}

proof fn lemma_bytes_fold_from(buf: Seq<u8>, i: int, st: FoldState, width: int)
    requires
        width >= 4,
        0 <= i <= buf.len(),
        st.blank is None,
        st.column == st.line.len() <= width,
        ends_line(st.out),
        lines_at_most(st.out, width),
    ensures
        fold_from(buf, i, st, CountMode::Bytes, width, false) matches Some(o) && lines_at_most(o, width),
    decreases buf.len() - i,
{
    if i < buf.len() {
        lemma_decode_at_len(buf, i);
        let (c, len) = decode_at(buf, i);
        let bytes = buf.subrange(i, i + len);
        reveal_with_fuel(place, 3);
        let next = step(buf, i, st, CountMode::Bytes, width, false)->0;
        if st.column + len > width && st.column != 0 {
            let b = break_line(st);
            lemma_lines_append(st.out, st.line, width);
            lemma_lines_end(st.out + st.line, width);
            assert(b.out == st.out + st.line + seq![10u8]);
            assert(next == put_char(b, c, bytes, len, false));
            lemma_bytes_fold_from(buf, i + len, next, width);
        } else {
            assert(next == put_char(st, c, bytes, len, false));
            lemma_bytes_fold_from(buf, i + len, next, width);
        }
    } else {
        lemma_lines_append(st.out, st.line, width);
    }
}

/// Without `-s`, and with room for any character, no line that `fold -b`
/// writes holds more than `width` bytes.
pub proof fn law_bytes_mode_lines_fit(buf: Seq<u8>, width: int)
    requires
        width >= 4,
    ensures
        fold_spec(buf, CountMode::Bytes, width, false) matches Some(o) && lines_at_most(o, width),
{
    assert(lines_at_most(Seq::<u8>::empty(), width));
    lemma_bytes_fold_from(buf, 0, fold_start(), width);
}

} // verus!

verus! {

/// ASCII whitespace as `char::is_ascii_whitespace` documents it: space
/// (U+0020), tab (U+0009), line feed (U+000A), form feed (U+000C) and
/// carriage return (U+000D).
pub open spec fn ascii_whitespace(c: char) -> bool {
    let u = c as u32;
    u == 0x20 || u == 0x09 || u == 0x0A || u == 0x0C || u == 0x0D
}

/// With `-s`, placing a character that is ASCII whitespace makes it the last
/// blank of the line, at the position just after it; placing any other
/// character leaves the last blank where it was. Without `-s` no blank is
/// ever recorded.
pub proof fn law_spaces_record_ascii_whitespace(st: FoldState, c: char, bytes: Seq<u8>, inc: int)
    ensures
        ascii_whitespace(c) ==> put_char(st, c, bytes, inc, true).blank == Some(st.line.len() + bytes.len() - 1)
            && put_char(st, c, bytes, inc, true).blank_column == st.column + inc,
        !ascii_whitespace(c) ==> put_char(st, c, bytes, inc, true).blank == st.blank,
        put_char(st, c, bytes, inc, false).blank == st.blank,
{
    vstd::utf8::char_u32_cast(c, c as u32);
    vstd::utf8::char_u32_cast(' ', 0x20u32);
    vstd::utf8::char_u32_cast('\t', 0x09u32);
    vstd::utf8::char_u32_cast('\n', 0x0Au32);
    vstd::utf8::char_u32_cast('\x0C', 0x0Cu32);
    vstd::utf8::char_u32_cast('\r', 0x0Du32);
}

/// With `-s`, once an ASCII whitespace character is placed on a line (other
/// than a carriage return in columns mode, which only goes back to the
/// line's start), it is the line's last blank: the next break that needs
/// one comes right after it.
pub proof fn law_spaces_break_after_whitespace(
    st: FoldState,
    c: char,
    bytes: Seq<u8>,
    mode: CountMode,
    width: int,
)
    requires
        ascii_whitespace(c),
        !(mode == CountMode::Columns && c == '\r'),
    ensures
        place(st, c, bytes, mode, width, true) matches Some(s2) ==> s2.blank == Some(s2.line.len() - 1),
    decreases (if st.blank is Some { 2int } else { 0int }) + (if st.column != 0 { 1int } else { 0int }),
{
    let inc = increment(mode, c, bytes.len() as int, st.column);
    vstd::utf8::char_u32_cast(c, c as u32);
    vstd::utf8::char_u32_cast('\x08', 0x08u32);
    law_spaces_record_ascii_whitespace(st, c, bytes, inc);
    if st.column + inc > width && st.blank is Some {
        let p = st.blank->0;
        if st.column >= st.blank_column {
            law_spaces_break_after_whitespace(
                FoldState {
                    column: st.column - st.blank_column,
                    line: st.line.subrange(p + 1, st.line.len() as int),
                    blank: None,
                    blank_column: 0,
                    out: st.out + st.line.subrange(0, p + 1) + seq![10u8],
                },
                c,
                bytes,
                mode,
                width,
            );
        }
    } else if st.column + inc > width && st.column != 0 {
        law_spaces_break_after_whitespace(break_line(st), c, bytes, mode, width);
    }
}

} // verus!

verus! {

/// How far a character moves the position: in bytes mode by its length in
/// bytes, in characters mode by one, and in columns mode a tab moves it to
/// the next multiple of 8, one to 8 columns on.
pub proof fn law_position_advance(c: char, len: int, column: int)
    requires
        column >= 0,
    ensures
        increment(CountMode::Bytes, c, len, column) == len,
        increment(CountMode::Characters, c, len, column) == 1,
        c == '\t' ==> (column + increment(CountMode::Columns, c, len, column)) % 8 == 0
            && 1 <= increment(CountMode::Columns, c, len, column) <= 8,
{
}

/// In columns mode a carriage return takes the position back to the start
/// of the line and a backspace takes it back by one (not below the start);
/// either is kept on the line as it is and never breaks it.
pub proof fn law_columns_return_and_backspace(st: FoldState, bytes: Seq<u8>, width: int, spaces: bool)
    ensures
        place(st, '\r', bytes, CountMode::Columns, width, spaces) matches Some(s2) && s2.column == 0
            && s2.line == st.line + bytes && s2.out == st.out,
        place(st, '\x08', bytes, CountMode::Columns, width, spaces) matches Some(s2) && s2.column == (if st.column
            > 0 {
            st.column - 1
        } else {
            st.column
        }) && s2.line == st.line + bytes && s2.out == st.out,
{
    assert('\x08' != '\r');
}

} // verus!


verus! {

proof fn lemma_bytes_spaces_fold_from(buf: Seq<u8>, i: int, st: FoldState, width: int)
    requires
        width >= 4,
        0 <= i <= buf.len(),
        st.column == st.line.len() <= width,
        st.blank matches Some(p) ==> 0 <= p < st.line.len() && st.blank_column == p + 1,
        ends_line(st.out),
        lines_at_most(st.out, width),
    ensures
        fold_from(buf, i, st, CountMode::Bytes, width, true) matches Some(o) && lines_at_most(o, width),
    decreases buf.len() - i,
{
    if i < buf.len() {
        lemma_decode_at_len(buf, i);
        let (c, len) = decode_at(buf, i);
        let bytes = buf.subrange(i, i + len);
        reveal_with_fuel(place, 3);
        let next = step(buf, i, st, CountMode::Bytes, width, true)->0;
        if st.column + len > width && st.blank is Some {
            let p = st.blank->0;
            let head = st.line.subrange(0, p + 1);
            let s1 = FoldState {
                column: st.column - st.blank_column,
                line: st.line.subrange(p + 1, st.line.len() as int),
                blank: None,
                blank_column: 0,
                out: st.out + head + seq![10u8],
            };
            lemma_lines_append(st.out, head, width);
            lemma_lines_end(st.out + head, width);
            if s1.column + len > width && s1.column != 0 {
                let b = break_line(s1);
                lemma_lines_append(s1.out, s1.line, width);
                lemma_lines_end(s1.out + s1.line, width);
                assert(next == put_char(b, c, bytes, len, true));
                lemma_bytes_spaces_fold_from(buf, i + len, next, width);
            } else {
                assert(next == put_char(s1, c, bytes, len, true));
                lemma_bytes_spaces_fold_from(buf, i + len, next, width);
            }
        } else if st.column + len > width && st.column != 0 {
            let b = break_line(st);
            lemma_lines_append(st.out, st.line, width);
            lemma_lines_end(st.out + st.line, width);
            assert(next == put_char(b, c, bytes, len, true));
            lemma_bytes_spaces_fold_from(buf, i + len, next, width);
        } else {
            assert(next == put_char(st, c, bytes, len, true));
            lemma_bytes_spaces_fold_from(buf, i + len, next, width);
        }
    } else {
        lemma_lines_append(st.out, st.line, width);
    }
}

/// With `-s` too, and with room for any character, no line that `fold -b`
/// writes holds more than `width` bytes: breaking after the last blank only
/// ever makes a line shorter.
pub proof fn law_bytes_mode_lines_fit_with_spaces(buf: Seq<u8>, width: int)
    requires
        width >= 4,
    ensures
        fold_spec(buf, CountMode::Bytes, width, true) matches Some(o) && lines_at_most(o, width),
{
    assert(lines_at_most(Seq::<u8>::empty(), width));
    lemma_bytes_spaces_fold_from(buf, 0, fold_start(), width);
}

} // verus!
