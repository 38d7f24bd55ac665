use vstd::prelude::*;
use crate::chars::{str_chars, string_from_chars};

verus! {

/// Whether `c` has the Unicode property White_Space (what `char::is_whitespace`
/// tests, and what `str::trim` removes).
pub open spec fn is_ws(c: char) -> bool {
    let v = c as u32;
    (0x09 <= v <= 0x0d) || v == 0x20 || v == 0x85 || v == 0xa0 || v == 0x1680 || (0x2000 <= v <= 0x200a)
        || v == 0x2028 || v == 0x2029 || v == 0x202f || v == 0x205f || v == 0x3000
}

pub fn char_is_ws(c: char) -> (r: bool)
    ensures
        r == is_ws(c),
{
    let v = c as u32;
    (0x09 <= v && v <= 0x0d) || v == 0x20 || v == 0x85 || v == 0xa0 || v == 0x1680 || (0x2000 <= v && v <= 0x200a)
        || v == 0x2028 || v == 0x2029 || v == 0x202f || v == 0x205f || v == 0x3000
}

/// The number of white-space characters at the start of `s`.
pub open spec fn ws_prefix_len(s: Seq<char>) -> nat
    decreases s.len(),
{
    if s.len() > 0 && is_ws(s[0]) {
        1 + ws_prefix_len(s.drop_first())
    } else {
        0
    }
}

/// The number of white-space characters at the end of `s`.
pub open spec fn ws_suffix_len(s: Seq<char>) -> nat
    decreases s.len(),
{
    if s.len() > 0 && is_ws(s.last()) {
        1 + ws_suffix_len(s.drop_last())
    } else {
        0
    }
}

/// `s` without white space at either end.
pub open spec fn trim(s: Seq<char>) -> Seq<char> {
    let t = s.skip(ws_prefix_len(s) as int);
    t.take(t.len() - ws_suffix_len(t))
}

/// Whether `s` holds only white space.
pub open spec fn all_ws(s: Seq<char>) -> bool {
    forall|i: int| 0 <= i < s.len() ==> is_ws(#[trigger] s[i])
}

pub proof fn lemma_ws_prefix(s: Seq<char>)
    ensures
        ws_prefix_len(s) <= s.len(),
        forall|i: int| 0 <= i < ws_prefix_len(s) ==> is_ws(#[trigger] s[i]),
        ws_prefix_len(s) < s.len() ==> !is_ws(s[ws_prefix_len(s) as int]),
    decreases s.len(),
{
    if s.len() > 0 && is_ws(s[0]) {
        lemma_ws_prefix(s.drop_first());
        assert forall|i: int| 0 <= i < ws_prefix_len(s) implies is_ws(#[trigger] s[i]) by {
            if i > 0 {
                assert(s[i] == s.drop_first()[i - 1]);
            }
        }
    }
}

pub proof fn lemma_ws_suffix(s: Seq<char>)
    ensures
        ws_suffix_len(s) <= s.len(),
        forall|i: int| s.len() - ws_suffix_len(s) <= i < s.len() ==> is_ws(#[trigger] s[i]),
        ws_suffix_len(s) < s.len() ==> !is_ws(s[s.len() - ws_suffix_len(s) - 1]),
    decreases s.len(),
{
    if s.len() > 0 && is_ws(s.last()) {
        lemma_ws_suffix(s.drop_last());
        assert forall|i: int| s.len() - ws_suffix_len(s) <= i < s.len() implies is_ws(#[trigger] s[i]) by {
            if i < s.len() - 1 {
                assert(s[i] == s.drop_last()[i]);
            }
        }
    }
}

/// The number of white-space characters at the start of `s`.
fn ws_prefix_count(s: &Vec<char>) -> (n: usize)
    ensures
        n == ws_prefix_len(s@),
{
    proof {
        lemma_ws_prefix(s@);
    }
    let mut n: usize = 0;
    while n < s.len() && char_is_ws(s[n])
        invariant
            n <= s@.len(),
            n <= ws_prefix_len(s@),
            forall|i: int| 0 <= i < ws_prefix_len(s@) ==> is_ws(#[trigger] s@[i]),
            ws_prefix_len(s@) < s@.len() ==> !is_ws(s@[ws_prefix_len(s@) as int]),
            ws_prefix_len(s@) <= s@.len(),
        decreases s.len() - n,
    {
        n = n + 1;
    }
    n
}

/// The characters of `s` without white space at either end.
pub fn trim_chars(s: &Vec<char>) -> (r: Vec<char>)
    ensures
        r@ == trim(s@),
{
    let p = ws_prefix_count(s);
    let ghost t = s@.skip(p as int);
    proof {
        lemma_ws_prefix(s@);
        lemma_ws_suffix(t);
    }
    let mut end: usize = s.len();
    while end > p && char_is_ws(s[end - 1])
        invariant
            p <= end <= s@.len(),
            t == s@.skip(p as int),
            s@.len() - end <= ws_suffix_len(t),
            ws_suffix_len(t) <= t.len(),
            forall|i: int| t.len() - ws_suffix_len(t) <= i < t.len() ==> is_ws(#[trigger] t[i]),
            ws_suffix_len(t) < t.len() ==> !is_ws(t[t.len() - ws_suffix_len(t) - 1]),
        decreases end,
    {
        proof {
            assert(t[end - 1 - p] == s@[end - 1]);
        }
        end = end - 1;
    }
    proof {
        if end > p {
            assert(t[end - 1 - p] == s@[end - 1]);
        }
    }
    let mut r: Vec<char> = Vec::new();
    let mut i: usize = p;
    while i < end
        invariant
            p <= i <= end <= s@.len(),
            r@ == s@.subrange(p as int, i as int),
        decreases end - i,
    {
        r.push(s[i]);
        proof {
            assert(r@ =~= s@.subrange(p as int, i + 1));
        }
        i = i + 1;
    }
    proof {
        assert(r@ =~= t.take(t.len() - ws_suffix_len(t)));
    }
    r
}

/// Whether the characters of `s` are all white space.
pub fn is_blank(s: &Vec<char>) -> (r: bool)
    ensures
        r == all_ws(s@),
{
    let mut i: usize = 0;
    while i < s.len()
        invariant
            i <= s@.len(),
            forall|j: int| 0 <= j < i ==> is_ws(#[trigger] s@[j]),
        decreases s.len() - i,
    {
        if !char_is_ws(s[i]) {
            return false;
        }
        i = i + 1;
    }
    true
}

pub proof fn lemma_trim_empty(s: Seq<char>)
    ensures
        (trim(s).len() == 0) == all_ws(s),
{
    lemma_ws_prefix(s);
    let t = s.skip(ws_prefix_len(s) as int);
    lemma_ws_suffix(t);
    if trim(s).len() == 0 {
        assert forall|i: int| 0 <= i < s.len() implies is_ws(#[trigger] s[i]) by {
            if i >= ws_prefix_len(s) {
                assert(t[i - ws_prefix_len(s)] == s[i]);
            }
        }
    } else if all_ws(s) {
        if ws_prefix_len(s) < s.len() {
            assert(is_ws(s[ws_prefix_len(s) as int]));
        }
    }
}

/// The bracket and quote state of a REPL buffer read up to some point.
pub struct ScanState {
    pub paren: nat,
    pub bracket: nat,
    pub brace: nat,
    pub in_single: bool,
    pub in_double: bool,
}

/// The index just after the end of a comment that starts before `i`: past
/// the next newline, or the end of the text.
pub open spec fn comment_end(s: Seq<char>, i: int) -> int
    decreases s.len() - i,
{
    if i >= s.len() {
        s.len() as int
    } else if s[i] == '\n' {
        i + 1
    } else {
        comment_end(s, i + 1)
    }
}

/// The state after reading `s` from index `i` in state `st`: a backslash
/// inside quotes hides the next character, a quote toggles its kind of
/// quotes unless the other kind is open, `#` outside quotes starts a comment
/// that runs to the end of the line, and outside quotes each opening bracket
/// counts up and each closing bracket counts down (never below zero).
pub open spec fn scan(s: Seq<char>, i: int, st: ScanState) -> ScanState
    decreases s.len() - i,
{
    if i < 0 || i >= s.len() {
        st
    } else {
        let c = s[i];
        let quoted = st.in_single || st.in_double;
        if c == '\\' {
            scan(s, if quoted && i + 1 < s.len() { i + 2 } else { i + 1 }, st)
        } else if c == '\'' && !st.in_double {
            scan(s, i + 1, ScanState { in_single: !st.in_single, ..st })
        } else if c == '"' && !st.in_single {
            scan(s, i + 1, ScanState { in_double: !st.in_double, ..st })
        } else if quoted {
            scan(s, i + 1, st)
        } else if c == '#' {
            proof {
                lemma_comment_end(s, i + 1);
            }
            scan(s, comment_end(s, i + 1), st)
        } else if c == '(' {
            scan(s, i + 1, ScanState { paren: st.paren + 1, ..st })
        } else if c == ')' && st.paren > 0 {
            scan(s, i + 1, ScanState { paren: (st.paren - 1) as nat, ..st })
        } else if c == '[' {
            scan(s, i + 1, ScanState { bracket: st.bracket + 1, ..st })
        } else if c == ']' && st.bracket > 0 {
            scan(s, i + 1, ScanState { bracket: (st.bracket - 1) as nat, ..st })
        } else if c == '{' {
            scan(s, i + 1, ScanState { brace: st.brace + 1, ..st })
        } else if c == '}' && st.brace > 0 {
            scan(s, i + 1, ScanState { brace: (st.brace - 1) as nat, ..st })
        } else {
            scan(s, i + 1, st)
        }
    }
}

pub open spec fn initial_scan() -> ScanState {
    ScanState { paren: 0, bracket: 0, brace: 0, in_single: false, in_double: false }
}

pub proof fn lemma_comment_end(s: Seq<char>, i: int)
    requires
        0 <= i,
    ensures
        i <= comment_end(s, i) || i > s.len(),
        comment_end(s, i) <= s.len(),
    decreases s.len() - i,
{
    if i < s.len() && s[i] != '\n' {
        lemma_comment_end(s, i + 1);
    }
}

/// Whether the REPL should read another line before running the buffer: not
/// when a continuation ends with a blank line; yes when the line ends in a
/// colon or a backslash, when the buffer leaves a bracket or a quote open,
/// or when a continuation line is indented.
pub open spec fn needs_continuation(buffer: Seq<char>, line: Seq<char>, is_continuation: bool) -> bool {
    let t = trim(line);
    if is_continuation && t.len() == 0 {
        false
    } else if t.len() > 0 && (t.last() == ':' || t.last() == '\\') {
        true
    } else {
        let st = scan(buffer, 0, initial_scan());
        if st.paren > 0 || st.bracket > 0 || st.brace > 0 || st.in_single || st.in_double {
            true
        } else {
            is_continuation && line.len() > 0 && (line[0] == ' ' || line[0] == '\t')
        }
    }
}

/// Whether the REPL should read another line before running the buffer (see
/// `needs_continuation`).
pub fn check_multiline_continuation(buffer: &str, line: &str, is_continuation: bool) -> (r: bool)
    ensures
        r == needs_continuation(buffer@, line@, is_continuation),
{
    let lc = str_chars(line);
    let t = trim_chars(&lc);
    if is_continuation && t.len() == 0 {
        return false;
    }
    if t.len() > 0 && (t[t.len() - 1] == ':' || t[t.len() - 1] == '\\') {
        return true;
    }
    let b = str_chars(buffer);
    let mut paren: usize = 0;
    let mut bracket: usize = 0;
    let mut brace: usize = 0;
    let mut in_single = false;
    let mut in_double = false;
    let mut i: usize = 0;
    while i < b.len()
        invariant
            b@ == buffer@,
            i <= b@.len(),
            paren <= i,
            bracket <= i,
            brace <= i,
            scan(b@, i as int, ScanState { paren: paren as nat, bracket: bracket as nat, brace: brace as nat, in_single, in_double })
                == scan(b@, 0, initial_scan()),
        decreases b.len() - i,
    {
        let c = b[i];
        let quoted = in_single || in_double;
        if c == '\\' {
            if quoted && i + 1 < b.len() {
                i = i + 2;
            } else {
                i = i + 1;
            }
        } else if c == '\'' && !in_double {
            in_single = !in_single;
            i = i + 1;
        } else if c == '"' && !in_single {
            in_double = !in_double;
            i = i + 1;
        } else if quoted {
            i = i + 1;
        } else if c == '#' {
            let ghost start = i + 1;
            i = i + 1;
            while i < b.len() && b[i] != '\n'
                invariant
                    start <= i <= b@.len(),
                    comment_end(b@, i as int) == comment_end(b@, start),
                decreases b.len() - i,
            {
                i = i + 1;
            }
            if i < b.len() {
                i = i + 1;
            }
        } else if c == '(' {
            paren = paren + 1;
            i = i + 1;
        } else if c == ')' && paren > 0 {
            paren = paren - 1;
            i = i + 1;
        } else if c == '[' {
            bracket = bracket + 1;
            i = i + 1;
        } else if c == ']' && bracket > 0 {
            bracket = bracket - 1;
            i = i + 1;
        } else if c == '{' {
            brace = brace + 1;
            i = i + 1;
        } else if c == '}' && brace > 0 {
            brace = brace - 1;
            i = i + 1;
        } else {
            i = i + 1;
        }
    }
    if paren > 0 || bracket > 0 || brace > 0 || in_single || in_double {
        return true;
    }
    is_continuation && lc.len() > 0 && (lc[0] == ' ' || lc[0] == '\t')
}

/// The index of the first newline in `s` at or after `i`, or the length.
pub open spec fn line_end(s: Seq<char>, i: int) -> int
    decreases s.len() - i,
{
    if i >= s.len() {
        s.len() as int
    } else if s[i] == '\n' {
        i
    } else {
        line_end(s, i + 1)
    }
}

pub proof fn lemma_line_end(s: Seq<char>, i: int)
    requires
        0 <= i <= s.len(),
    ensures
        i <= line_end(s, i) <= s.len(),
        line_end(s, i) < s.len() ==> s[line_end(s, i)] == '\n',
        forall|j: int| i <= j < line_end(s, i) ==> #[trigger] s[j] != '\n',
    decreases s.len() - i,
{
    if i < s.len() && s[i] != '\n' {
        lemma_line_end(s, i + 1);
    }
}

/// A line that ended with a newline, without a carriage return before it.
pub open spec fn strip_cr(piece: Seq<char>) -> Seq<char> {
    if piece.len() > 0 && piece.last() == '\r' {
        piece.drop_last()
    } else {
        piece
    }
}

/// The lines of `s` from index `i`, as `str::lines` gives them: each line
/// ends before a newline (and before a carriage return just ahead of it); a
/// final newline does not start another line.
pub open spec fn lines_from(s: Seq<char>, i: int) -> Seq<Seq<char>>
    decreases s.len() - i,
{
    if i < 0 || i >= s.len() {
        Seq::empty()
    } else {
        let k = line_end(s, i);
        proof {
            lemma_line_end(s, i);
        }
        if k < s.len() {
            seq![strip_cr(s.subrange(i, k))] + lines_from(s, k + 1)
        } else {
            seq![s.subrange(i, k)]
        }
    }
}

pub open spec fn lines_of(s: Seq<char>) -> Seq<Seq<char>> {
    lines_from(s, 0)
}

/// Whether a trimmed line opens a code block: a `code-block` directive for
/// Python or Lucid, a bare `::`, or text ending in `::` that is not a
/// directive.
pub open spec fn is_marker(t: Seq<char>) -> bool {
    ||| ".. code-block:: python"@.is_prefix_of(t)
    ||| ".. code-block:: lucid"@.is_prefix_of(t)
    ||| t == "::"@
    ||| ("::"@.is_suffix_of(t) && !".. "@.is_prefix_of(t))
}

/// The first line at or after `i` that is not blank, or the number of lines.
pub open spec fn next_nonblank(lines: Seq<Seq<char>>, i: int) -> int
    decreases lines.len() - i,
{
    if i < 0 || i >= lines.len() {
        lines.len() as int
    } else if all_ws(lines[i]) {
        next_nonblank(lines, i + 1)
    } else {
        i
    }
}

/// The number of spaces at the start of `s`.
pub open spec fn leading_spaces(s: Seq<char>) -> nat
    decreases s.len(),
{
    if s.len() > 0 && s[0] == ' ' {
        1 + leading_spaces(s.drop_first())
    } else {
        0
    }
}

/// The first line at or after `i` that is not blank and is indented by
/// fewer than `base` spaces, or the number of lines.
pub open spec fn block_end(lines: Seq<Seq<char>>, i: int, base: nat) -> int
    decreases lines.len() - i,
{
    if i < 0 || i >= lines.len() {
        lines.len() as int
    } else if !all_ws(lines[i]) && leading_spaces(lines[i]) < base {
        i
    } else {
        block_end(lines, i + 1, base)
    }
}

/// The lines of a block: blank lines become empty, others lose `base`
/// leading characters.
pub open spec fn block_line(line: Seq<char>, base: nat) -> Seq<char> {
    if all_ws(line) {
        Seq::empty()
    } else {
        line.skip(base as int)
    }
}

/// The texts joined with a newline between each two.
pub open spec fn join_lines(ls: Seq<Seq<char>>) -> Seq<char>
    decreases ls.len(),
{
    if ls.len() == 0 {
        Seq::empty()
    } else if ls.len() == 1 {
        ls[0]
    } else {
        join_lines(ls.drop_last()) + seq!['\n'] + ls.last()
    }
}

pub proof fn lemma_next_nonblank(lines: Seq<Seq<char>>, i: int)
    requires
        0 <= i,
    ensures
        i <= next_nonblank(lines, i) || i > lines.len(),
        next_nonblank(lines, i) <= lines.len(),
        next_nonblank(lines, i) < lines.len() ==> !all_ws(lines[next_nonblank(lines, i)]),
        forall|j: int| i <= j < next_nonblank(lines, i) ==> all_ws(#[trigger] lines[j]),
    decreases lines.len() - i,
{
    if i < lines.len() && all_ws(lines[i]) {
        lemma_next_nonblank(lines, i + 1);
    }
}

pub proof fn lemma_block_end(lines: Seq<Seq<char>>, i: int, base: nat)
    requires
        0 <= i,
    ensures
        i <= block_end(lines, i, base) || i > lines.len(),
        block_end(lines, i, base) <= lines.len(),
    decreases lines.len() - i,
{
    if i < lines.len() && !(!all_ws(lines[i]) && leading_spaces(lines[i]) < base) {
        lemma_block_end(lines, i + 1, base);
    }
}

/// The code blocks of a reStructuredText document from line `i` on: after a
/// line that opens a block, blank lines are skipped; the block is the run of
/// lines indented at least as far as its first line (blank lines included),
/// with that indentation removed, and it counts when it is not blank. A
/// first line without indentation gives an empty block, and that line is
/// read again.
pub open spec fn blocks_from(lines: Seq<Seq<char>>, i: int) -> Seq<Seq<char>>
    decreases lines.len() - i,
{
    if i < 0 || i >= lines.len() {
        Seq::empty()
    } else if is_marker(trim(lines[i])) {
        let j = next_nonblank(lines, i + 1);
        proof {
            lemma_next_nonblank(lines, i + 1);
        }
        if j >= lines.len() {
            Seq::empty()
        } else {
            let base = leading_spaces(lines[j]);
            let k = if base > 0 {
                block_end(lines, j, base)
            } else {
                j
            };
            proof {
                lemma_block_end(lines, j, base);
            }
            let block = join_lines(Seq::new((k - j) as nat, |n: int| block_line(lines[j + n], base)));
            (if all_ws(block) {
                Seq::empty()
            } else {
                seq![block]
            }) + blocks_from(lines, k)
        }
    } else {
        blocks_from(lines, i + 1)
    }
}

proof fn lemma_join_first(ls: Seq<Seq<char>>)
    requires
        ls.len() >= 1,
    ensures
        join_lines(ls).len() >= ls[0].len(),
        forall|k: int| 0 <= k < ls[0].len() ==> #[trigger] join_lines(ls)[k] == ls[0][k],
    decreases ls.len(),
{
    if ls.len() > 1 {
        lemma_join_first(ls.drop_last());
        assert(ls.drop_last()[0] == ls[0]);
    }
}

/// No code block that `extract_rst_code_blocks` gives is empty or starts
/// with a space: each loses the indentation of its first line, which is not
/// blank.
pub proof fn law_blocks_start_unindented(lines: Seq<Seq<char>>, i: int)
    requires
        0 <= i,
    ensures
        forall|b: int|
            0 <= b < blocks_from(lines, i).len() ==> (#[trigger] blocks_from(lines, i)[b]).len() > 0 && blocks_from(
                lines,
                i,
            )[b][0] != ' ',
    decreases lines.len() - i,
{
    if i < lines.len() {
        if is_marker(trim(lines[i])) {
            let j = next_nonblank(lines, i + 1);
            lemma_next_nonblank(lines, i + 1);
            if j < lines.len() {
                let base = leading_spaces(lines[j]);
                let k = if base > 0 {
                    block_end(lines, j, base)
                } else {
                    j
                };
                lemma_block_end(lines, j, base);
                let parts = Seq::new((k - j) as nat, |n: int| block_line(lines[j + n], base));
                let block = join_lines(parts);
                law_blocks_start_unindented(lines, k);
                if !all_ws(block) {
                    lemma_leading_spaces(lines[j]);
                    if base == 0 {
                        assert(parts.len() == 0);
                        assert(block.len() == 0);
                    } else {
                        assert(k > j);
                        let line = lines[j];
                        if base >= line.len() {
                            assert(all_ws(line));
                        }
                        assert(parts[0] == line.skip(base as int));
                        lemma_join_first(parts);
                        assert(block[0] == line[base as int]);
                    }
                    let first = seq![block];
                    let rest = blocks_from(lines, k);
                    assert(blocks_from(lines, i) == first + rest);
                    assert forall|b: int| 0 <= b < blocks_from(lines, i).len() implies (#[trigger] blocks_from(
                        lines,
                        i,
                    )[b]).len() > 0 && blocks_from(lines, i)[b][0] != ' ' by {
                        if b > 0 {
                            assert(blocks_from(lines, i)[b] == rest[b - 1]);
                        }
                    }
                } else {
                    assert(blocks_from(lines, i) == Seq::<Seq<char>>::empty() + blocks_from(lines, k));
                    assert(Seq::<Seq<char>>::empty() + blocks_from(lines, k) =~= blocks_from(lines, k));
                }
            } else {
                assert(blocks_from(lines, i).len() == 0);
            }
        } else {
            law_blocks_start_unindented(lines, i + 1);
            assert(blocks_from(lines, i) == blocks_from(lines, i + 1));
        }
    }
}

pub open spec fn char_views(s: Seq<Vec<char>>) -> Seq<Seq<char>> {
    s.map_values(|v: Vec<char>| v@)
}

pub open spec fn string_views(s: Seq<String>) -> Seq<Seq<char>> {
    s.map_values(|v: String| v@)
}

/// The lines of the characters `cs` (see `lines_of`).
pub fn split_lines(cs: &Vec<char>) -> (r: Vec<Vec<char>>)
    ensures
        char_views(r@) == lines_of(cs@),
{
    let mut out: Vec<Vec<char>> = Vec::new();
    let mut i: usize = 0;
    proof {
        assert(char_views(out@) + lines_from(cs@, 0) =~= lines_from(cs@, 0));
    }
    while i < cs.len()
        invariant
            i <= cs@.len(),
            char_views(out@) + lines_from(cs@, i as int) == lines_from(cs@, 0),
        decreases cs.len() - i,
    {
        let mut k: usize = i;
        proof {
            lemma_line_end(cs@, i as int);
        }
        while k < cs.len() && cs[k] != '\n'
            invariant
                i <= k <= cs@.len(),
                line_end(cs@, k as int) == line_end(cs@, i as int),
            decreases cs.len() - k,
        {
            k = k + 1;
        }
        let mut piece: Vec<char> = Vec::new();
        let mut j: usize = i;
        while j < k
            invariant
                i <= j <= k <= cs@.len(),
                piece@ == cs@.subrange(i as int, j as int),
            decreases k - j,
        {
            piece.push(cs[j]);
            proof {
                assert(piece@ =~= cs@.subrange(i as int, j + 1));
            }
            j = j + 1;
        }
        let ghost before = out@;
        let ghost rest = lines_from(cs@, i as int);
        if k < cs.len() {
            if piece.len() > 0 && piece[piece.len() - 1] == '\r' {
                piece.pop();
            }
            proof {
                assert(piece@ == strip_cr(cs@.subrange(i as int, k as int)));
            }
            out.push(piece);
            proof {
                assert(rest == seq![strip_cr(cs@.subrange(i as int, k as int))] + lines_from(cs@, k + 1));
                assert(char_views(out@) =~= char_views(before).push(strip_cr(cs@.subrange(i as int, k as int))));
                assert(char_views(out@) + lines_from(cs@, k + 1) =~= char_views(before) + rest);
            }
            i = k + 1;
        } else {
            out.push(piece);
            proof {
                assert(rest == seq![cs@.subrange(i as int, k as int)]);
                assert(char_views(out@) =~= char_views(before).push(cs@.subrange(i as int, k as int)));
                assert(char_views(out@) + lines_from(cs@, k as int) =~= char_views(before) + rest);
            }
            i = k;
        }
    }
    proof {
        assert(char_views(out@) =~= char_views(out@) + lines_from(cs@, i as int));
    }
    out
}

/// Whether `p` is a prefix of `t`.
fn has_prefix(t: &Vec<char>, p: &str) -> (r: bool)
    ensures
        r == p@.is_prefix_of(t@),
{
    let pc = str_chars(p);
    if pc.len() > t.len() {
        return false;
    }
    let mut i: usize = 0;
    while i < pc.len()
        invariant
            pc@ == p@,
            pc@.len() <= t@.len(),
            i <= pc@.len(),
            forall|j: int| 0 <= j < i ==> pc@[j] == t@[j],
        decreases pc.len() - i,
    {
        if pc[i] != t[i] {
            proof {
                assert(t@.subrange(0, p@.len() as int)[i as int] != p@[i as int]);
            }
            return false;
        }
        i = i + 1;
    }
    proof {
        assert(p@ =~= t@.subrange(0, p@.len() as int));
    }
    true
}

/// Whether `p` is a suffix of `t`.
fn has_suffix(t: &Vec<char>, p: &str) -> (r: bool)
    ensures
        r == p@.is_suffix_of(t@),
{
    let pc = str_chars(p);
    if pc.len() > t.len() {
        return false;
    }
    let off = t.len() - pc.len();
    let mut i: usize = 0;
    while i < pc.len()
        invariant
            pc@ == p@,
            pc@.len() <= t@.len(),
            t@.len() == t.len(),
            off + pc@.len() == t@.len(),
            i <= pc@.len(),
            forall|j: int| 0 <= j < i ==> pc@[j] == t@[off + j],
        decreases pc.len() - i,
    {
        if pc[i] != t[off + i] {
            proof {
                assert(t@.subrange(off as int, t@.len() as int)[i as int] != p@[i as int]);
            }
            return false;
        }
        i = i + 1;
    }
    proof {
        assert(p@ =~= t@.subrange(off as int, t@.len() as int));
    }
    true
}

fn is_marker_line(t: &Vec<char>) -> (r: bool)
    ensures
        r == is_marker(t@),
{
    if has_prefix(t, ".. code-block:: python") || has_prefix(t, ".. code-block:: lucid") {
        return true;
    }
    let eq = has_prefix(t, "::") && has_suffix(t, "::") && t.len() == str_chars("::").len();
    if eq {
        proof {
            assert(t@ =~= "::"@);
        }
        return true;
    }
    proof {
        if t@ == "::"@ {
            assert("::"@.is_prefix_of(t@));
            assert("::"@.is_suffix_of(t@)) by {
                assert(t@.subrange(0, t@.len() as int) =~= t@);
            }
        }
    }
    has_suffix(t, "::") && !has_prefix(t, ".. ")
}

/// The number of spaces at the start of `v`.
fn leading_space_count(v: &Vec<char>) -> (n: usize)
    ensures
        n == leading_spaces(v@),
        n <= v@.len(),
        forall|i: int| 0 <= i < n ==> v@[i] == ' ',
{
    let mut n: usize = 0;
    proof {
        lemma_leading_spaces(v@);
    }
    while n < v.len() && v[n] == ' '
        invariant
            n <= v@.len(),
            n <= leading_spaces(v@),
            leading_spaces(v@) <= v@.len(),
            forall|i: int| 0 <= i < leading_spaces(v@) ==> #[trigger] v@[i] == ' ',
            leading_spaces(v@) < v@.len() ==> v@[leading_spaces(v@) as int] != ' ',
        decreases v.len() - n,
    {
        n = n + 1;
    }
    n
}

pub proof fn lemma_leading_spaces(s: Seq<char>)
    ensures
        leading_spaces(s) <= s.len(),
        forall|i: int| 0 <= i < leading_spaces(s) ==> #[trigger] s[i] == ' ',
        leading_spaces(s) < s.len() ==> s[leading_spaces(s) as int] != ' ',
    decreases s.len(),
{
    if s.len() > 0 && s[0] == ' ' {
        lemma_leading_spaces(s.drop_first());
        assert forall|i: int| 0 <= i < leading_spaces(s) implies #[trigger] s[i] == ' ' by {
            if i > 0 {
                assert(s[i] == s.drop_first()[i - 1]);
            }
        }
    }
}

/// The characters of `v` from index `from` on.
fn chars_from(v: &Vec<char>, from: usize) -> (r: Vec<char>)
    requires
        from <= v@.len(),
    ensures
        r@ == v@.skip(from as int),
{
    let mut r: Vec<char> = Vec::new();
    let mut i: usize = from;
    while i < v.len()
        invariant
            from <= i <= v@.len(),
            r@ == v@.subrange(from as int, i as int),
        decreases v.len() - i,
    {
        r.push(v[i]);
        proof {
            assert(r@ =~= v@.subrange(from as int, i + 1));
        }
        i = i + 1;
    }
    proof {
        assert(r@ =~= v@.skip(from as int));
    }
    r
}

/// The lines joined with a newline between each two.
fn join_char_lines(ls: &Vec<Vec<char>>) -> (r: Vec<char>)
    ensures
        r@ == join_lines(char_views(ls@)),
{
    let mut r: Vec<char> = Vec::new();
    let mut i: usize = 0;
    proof {
        assert(char_views(ls@).take(0) =~= Seq::<Seq<char>>::empty());
    }
    while i < ls.len()
        invariant
            i <= ls@.len(),
            r@ == join_lines(char_views(ls@).take(i as int)),
        decreases ls.len() - i,
    {
        let ghost before = r@;
        if i > 0 {
            r.push('\n');
        }
        let mut j: usize = 0;
        let ghost mid = r@;
        while j < ls[i].len()
            invariant
                i < ls@.len(),
                j <= ls@[i as int]@.len(),
                r@ == mid + ls@[i as int]@.take(j as int),
            decreases ls@[i as int]@.len() - j,
        {
            r.push(ls[i][j]);
            proof {
                assert(r@ =~= mid + ls@[i as int]@.take(j + 1));
            }
            j = j + 1;
        }
        proof {
            let vs = char_views(ls@);
            assert(vs.take(i + 1).drop_last() =~= vs.take(i as int));
            assert(vs.take(i + 1).last() == ls@[i as int]@);
            assert(ls@[i as int]@.take(j as int) =~= ls@[i as int]@);
            if i == 0 {
                assert(vs.take(1) =~= seq![ls@[0]@]);
                assert(r@ =~= ls@[0]@);
            } else {
                assert(r@ =~= before + seq!['\n'] + ls@[i as int]@);
            }
        }
        i = i + 1;
    }
    proof {
        assert(char_views(ls@).take(ls@.len() as int) =~= char_views(ls@));
    }
    r
}

/// Whether a line belongs to a block indented by `base` spaces.
fn continues_block(line: &Vec<char>, base: usize) -> (r: bool)
    ensures
        r == (all_ws(line@) || leading_spaces(line@) >= base),
{
    is_blank(line) || leading_space_count(line) >= base
}

/// The code blocks of a reStructuredText document (see `blocks_from`).
pub fn extract_rst_code_blocks(rst: &str) -> (r: Vec<String>)
    ensures
        string_views(r@) == blocks_from(lines_of(rst@), 0),
{
    let cs = str_chars(rst);
    let lines = split_lines(&cs);
    let ghost ls = char_views(lines@);
    let mut blocks: Vec<String> = Vec::new();
    let mut i: usize = 0;
    proof {
        assert(string_views(blocks@) + blocks_from(ls, 0) =~= blocks_from(ls, 0));
    }
    while i < lines.len()
        invariant
            ls == char_views(lines@),
            ls == lines_of(rst@),
            i <= lines@.len(),
            string_views(blocks@) + blocks_from(ls, i as int) == blocks_from(ls, 0),
        decreases lines.len() - i,
    {
        let t = trim_chars(&lines[i]);
        proof {
            assert(ls[i as int] == lines@[i as int]@);
        }
        if is_marker_line(&t) {
            let mut j: usize = i + 1;
            proof {
                lemma_next_nonblank(ls, i + 1);
            }
            while j < lines.len() && is_blank(&lines[j])
                invariant
                    ls == char_views(lines@),
                    i + 1 <= j <= lines@.len(),
                    next_nonblank(ls, j as int) == next_nonblank(ls, i + 1),
                decreases lines.len() - j,
            {
                proof {
                    assert(ls[j as int] == lines@[j as int]@);
                }
                j = j + 1;
            }
            proof {
                if j < lines.len() {
                    assert(ls[j as int] == lines@[j as int]@);
                }
            }
            if j >= lines.len() {
                proof {
                    assert(blocks_from(ls, i as int) =~= Seq::<Seq<char>>::empty());
                    assert(blocks_from(ls, lines@.len() as int) =~= Seq::<Seq<char>>::empty());
                    assert(string_views(blocks@) + blocks_from(ls, lines@.len() as int) =~= string_views(blocks@)
                        + blocks_from(ls, i as int));
                }
                i = lines.len();
            } else {
                let base = leading_space_count(&lines[j]);
                proof {
                    assert(ls[j as int] == lines@[j as int]@);
                }
                let mut k: usize = j;
                let mut block_lines: Vec<Vec<char>> = Vec::new();
                if base > 0 {
                    proof {
                        lemma_block_end(ls, j as int, base as nat);
                    }
                    while k < lines.len() && continues_block(&lines[k], base)
                        invariant
                            ls == char_views(lines@),
                            j <= k <= lines@.len(),
                            base > 0,
                            block_end(ls, k as int, base as nat) == block_end(ls, j as int, base as nat),
                            char_views(block_lines@) == Seq::new(
                                (k - j) as nat,
                                |n: int| block_line(ls[j + n], base as nat),
                            ),
                        decreases lines.len() - k,
                    {
                        proof {
                            assert(ls[k as int] == lines@[k as int]@);
                        }
                        let ghost before = block_lines@;
                        let piece = if is_blank(&lines[k]) {
                            Vec::new()
                        } else {
                            proof {
                                lemma_leading_spaces(ls[k as int]);
                            }
                            chars_from(&lines[k], base)
                        };
                        proof {
                            assert(piece@ == block_line(ls[k as int], base as nat));
                        }
                        block_lines.push(piece);
                        proof {
                            let target = Seq::new((k + 1 - j) as nat, |n: int| block_line(ls[j + n], base as nat));
                            assert(block_lines@.len() == before.len() + 1);
                            assert(char_views(before).len() == before.len());
                            assert(before.len() == k - j);
                            assert(char_views(block_lines@).len() == target.len());
                            assert forall|n: int| 0 <= n < target.len() implies char_views(block_lines@)[n] == target[n] by {
                                if n < k - j {
                                    assert(block_lines@[n] == before[n]);
                                    assert(char_views(before)[n] == block_line(ls[j + n], base as nat));
                                } else {
                                    assert(block_lines@[n] == piece);
                                }
                            }
                            assert(char_views(block_lines@) =~= target);
                        }
                        k = k + 1;
                    }
                    proof {
                        if k < lines.len() {
                            assert(ls[k as int] == lines@[k as int]@);
                        }
                    }
                } else {
                    proof {
                        assert(char_views(block_lines@) =~= Seq::new(
                            (k - j) as nat,
                            |n: int| block_line(ls[j + n], base as nat),
                        ));
                    }
                }
                let block = join_char_lines(&block_lines);
                let ghost before = string_views(blocks@);
                if !is_blank(&block) {
                    blocks.push(string_from_chars(&block));
                    proof {
                        assert(string_views(blocks@) =~= before.push(block@));
                    }
                }
                proof {
                    let expected = if all_ws(block@) {
                        Seq::<Seq<char>>::empty()
                    } else {
                        seq![block@]
                    };
                    assert(blocks_from(ls, i as int) == expected + blocks_from(ls, k as int));
                    assert(string_views(blocks@) =~= before + expected);
                    assert(string_views(blocks@) + blocks_from(ls, k as int) =~= before + blocks_from(ls, i as int));
                }
                i = k;
            }
        } else {
            proof {
                assert(blocks_from(ls, i as int) == blocks_from(ls, i + 1));
            }
            i = i + 1;
        }
    }
    proof {
        assert(string_views(blocks@) =~= string_views(blocks@) + blocks_from(ls, i as int));
    }
    blocks
}

/// A blank line ends a continuation: the buffer is run.
pub proof fn law_blank_line_ends_continuation(buffer: Seq<char>, line: Seq<char>)
    requires
        all_ws(line),
    ensures
        !needs_continuation(buffer, line, true),
{
    lemma_trim_empty(line);
}

/// A line that ends in a colon (before trailing white space) asks for more.
pub proof fn law_colon_asks_for_more(buffer: Seq<char>, line: Seq<char>, is_continuation: bool)
    requires
        trim(line).len() > 0,
        trim(line).last() == ':',
    ensures
        needs_continuation(buffer, line, is_continuation),
{
}

/// No code block is blank.
pub proof fn law_blocks_not_blank(lines: Seq<Seq<char>>, i: int)
    ensures
        forall|k: int| 0 <= k < blocks_from(lines, i).len() ==> !all_ws(#[trigger] blocks_from(lines, i)[k]),
    decreases lines.len() - i,
{
    if 0 <= i < lines.len() {
        if is_marker(trim(lines[i])) {
            let j = next_nonblank(lines, i + 1);
            lemma_next_nonblank(lines, i + 1);
            if j < lines.len() {
                let base = leading_spaces(lines[j]);
                let k = if base > 0 {
                    block_end(lines, j, base)
                } else {
                    j
                };
                lemma_block_end(lines, j, base);
                law_blocks_not_blank(lines, k);
                let block = join_lines(Seq::new((k - j) as nat, |n: int| block_line(lines[j + n], base)));
                let head = if all_ws(block) {
                    Seq::<Seq<char>>::empty()
                } else {
                    seq![block]
                };
                let rest = blocks_from(lines, k);
                assert(blocks_from(lines, i) == head + rest);
                assert forall|m: int| 0 <= m < (head + rest).len() implies !all_ws(#[trigger] (head + rest)[m]) by {
                    if m < head.len() {
                        assert((head + rest)[m] == block);
                    } else {
                        assert((head + rest)[m] == rest[m - head.len()]);
                    }
                }
            } else {
                assert(blocks_from(lines, i).len() == 0);
            }
        } else {
            law_blocks_not_blank(lines, i + 1);
            assert(blocks_from(lines, i) == blocks_from(lines, i + 1));
        }
    } else {
        assert(blocks_from(lines, i).len() == 0);
    }
}

/// `comment_end` stops just past the first newline at or after `i`.
proof fn lemma_comment_end_at(s: Seq<char>, i: int, k: int)
    requires
        0 <= i <= k < s.len(),
        s[k] == '\n',
        forall|j: int| i <= j < k ==> s[j] != '\n',
    ensures
        comment_end(s, i) == k + 1,
    decreases k - i,
{
    if i < k {
        lemma_comment_end_at(s, i + 1, k);
    }
}

/// A comment runs to the end of its line and no further: reading from `i`,
/// it ends just past the first newline, or at the end of the text when no
/// newline follows.
pub proof fn law_comment_ends_at_newline(s: Seq<char>, i: int)
    requires
        0 <= i <= s.len(),
    ensures
        i <= comment_end(s, i) <= s.len(),
        i < s.len() ==> comment_end(s, i) > i,
        forall|j: int| i <= j < comment_end(s, i) - 1 ==> s[j] != '\n',
        comment_end(s, i) > i ==> (s[comment_end(s, i) - 1] == '\n' || comment_end(s, i) == s.len()),
        comment_end(s, i) == s.len() && s.len() > i && s[s.len() - 1] != '\n' ==> forall|j: int|
            i <= j < s.len() ==> s[j] != '\n',
    decreases s.len() - i,
{
    if i < s.len() && s[i] != '\n' {
        law_comment_ends_at_newline(s, i + 1);
        assert(comment_end(s, i) == comment_end(s, i + 1));
    }
}

/// Outside quotes, a `#` comment hides only the rest of its line: reading
/// goes on after the next newline exactly as if the comment were not there,
/// so brackets on later lines still count.
pub proof fn law_comment_skips_to_next_line(s: Seq<char>, i: int, k: int, st: ScanState)
    requires
        0 <= i < k < s.len(),
        s[i] == '#',
        s[k] == '\n',
        forall|j: int| i < j < k ==> s[j] != '\n',
        !st.in_single,
        !st.in_double,
    ensures
        scan(s, i, st) == scan(s, k + 1, st),
{
    lemma_comment_end_at(s, i + 1, k);
}

/// A buffer that leaves a bracket, a parenthesis, a brace or a quote open
/// asks for another line, unless a continuation has just ended with a blank
/// line.
pub proof fn law_unclosed_buffer_asks_for_more(buffer: Seq<char>, line: Seq<char>, is_continuation: bool)
    requires
        ({
            let st = scan(buffer, 0, initial_scan());
            st.paren > 0 || st.bracket > 0 || st.brace > 0 || st.in_single || st.in_double
        }),
        !(is_continuation && trim(line).len() == 0),
    ensures
        needs_continuation(buffer, line, is_continuation),
{
}

/// Text without quotes, backslashes, comments or brackets changes nothing
/// that the continuation check counts.
pub proof fn law_plain_text_leaves_state(s: Seq<char>, i: int, st: ScanState)
    requires
        0 <= i,
        forall|j: int|
            i <= j < s.len() ==> {
                let c = #[trigger] s[j];
                c != '\\' && c != '\'' && c != '"' && c != '#' && c != '(' && c != ')' && c != '[' && c != ']' && c
                    != '{' && c != '}'
            },
    ensures
        scan(s, i, st) == st,
    decreases s.len() - i,
{
    if i < s.len() {
        law_plain_text_leaves_state(s, i + 1, st);
    }
}

} // verus!
