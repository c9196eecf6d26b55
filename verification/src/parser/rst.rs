//! reStructuredText parser.
//!
//! Line-based: a heading is a text line followed by an underline made of one
//! repeated punctuation character at least as long as the text; the first
//! underline character seen gives level 1, the second level 2, and so on.
//! `.. code-block::` / `.. code::` directives, and paragraphs ending in `::`,
//! open an indented code block; its lines lose the block's indentation and
//! keep what they are indented beyond it.
use vstd::prelude::*;

use crate::text::{
    chars_of, ends_with_lit, first_index, has_prefix, has_suffix, is_blank, lemma_first_index,
    lemma_lines_utf8_bounded, lemma_utf8_len_subrange, lines, push_all, split_lines,
    starts_with_lit, string_of, trim, trim_bounds, trim_chars, trim_start, utf8_len, utf8_len_of,
    byte_len,
};
use crate::text::copy_chars;
use super::{
    lines_view, opt_chars, opt_string, opt_view, tree_add_block, tree_finish, tree_open, tree_start, BlockV, ContentBlock, DocV,
    HeadingNode, HeadingV, ParsedDoc, TreeBuilder, TreeV,
};

verus! {

/// Parses reStructuredText files.
pub struct RstParser;

// ───────────────────────────── specification ─────────────────────────────

pub open spec fn underline_char(c: char) -> bool {
    c == '=' || c == '-' || c == '~' || c == '^' || c == '"' || c == '#' || c == '*' || c == '+'
}

/// `Some(c)` when `line` is a non-empty run of the underline character `c`
/// at least `min_len` long.  (All its characters are one ASCII character, so
/// its length in characters is also its length in bytes.)
pub open spec fn underline_of(line: Seq<char>, min_len: nat) -> Option<char> {
    if line.len() == 0 {
        None
    } else if !underline_char(line[0]) {
        None
    } else if (forall|j: int| 0 <= j < line.len() ==> #[trigger] line[j] == line[0]) && line.len() >= min_len {
        Some(line[0])
    } else {
        None
    }
}

/// Byte width of the leading whitespace of `l`.
pub open spec fn indent_of(l: Seq<char>) -> nat {
    utf8_len(l.take(l.len() - trim_start(l).len()))
}

/// Indent of the first non-blank line at or after `from`, else `default`.
pub open spec fn next_indent(ls: Seq<Seq<char>>, from: int, default: nat) -> nat
    decreases ls.len() - from,
{
    if from < 0 || from >= ls.len() {
        default
    } else if trim(ls[from]).len() > 0 {
        indent_of(ls[from])
    } else {
        next_indent(ls, from + 1, default)
    }
}

/// `Some(lang)` for a `.. code-block:: lang` or `.. code:: lang` line
/// (`lang` is `None` when empty), `None` for any other line.
pub open spec fn code_directive(t: Seq<char>) -> Option<Option<Seq<char>>> {
    if has_prefix(t, ".. code-block::"@) {
        let lang = trim(t.skip(".. code-block::"@.len() as int));
        Some(if lang.len() == 0 { None } else { Some(lang) })
    } else if has_prefix(t, ".. code::"@) {
        let lang = trim(t.skip(".. code::"@.len() as int));
        Some(if lang.len() == 0 { None } else { Some(lang) })
    } else {
        None
    }
}

/// `s` without its trailing `:` characters.
pub open spec fn trim_end_colons(s: Seq<char>) -> Seq<char>
    decreases s.len(),
{
    if s.len() > 0 && s.last() == ':' {
        trim_end_colons(s.drop_last())
    } else {
        s
    }
}

/// `s` without up to `n` leading spaces: a code line loses the block's
/// indentation and keeps what it is indented beyond it.
pub open spec fn drop_spaces(s: Seq<char>, n: nat) -> Seq<char>
    decreases s.len(),
{
    if n > 0 && s.len() > 0 && s[0] == ' ' {
        drop_spaces(s.drop_first(), (n - 1) as nat)
    } else {
        s
    }
}

/// The parser state between two lines.
pub struct RstV {
    pub tree: TreeV,
    pub levels: Seq<char>,
    pub para: Seq<char>,
    pub in_code: bool,
    pub lang: Option<Seq<char>>,
    pub indent: nat,
    pub code: Seq<char>,
    pub cand: Option<Seq<char>>,
}

pub open spec fn rst_start() -> RstV {
    RstV {
        tree: tree_start(),
        levels: seq![],
        para: seq![],
        in_code: false,
        lang: None,
        indent: 0,
        code: seq![],
        cand: None,
    }
}

/// Emits the buffered paragraph (trimmed, when not empty) and clears it.
pub open spec fn rst_flush(s: RstV) -> RstV {
    let t = trim(s.para);
    RstV {
        para: seq![],
        tree: if t.len() > 0 {
            tree_add_block(s.tree, BlockV::Paragraph(t))
        } else {
            s.tree
        },
        ..s
    }
}

/// Ends the code block: emits it when it is not blank.
pub open spec fn rst_end_code(s: RstV) -> RstV {
    if trim(s.code).len() > 0 {
        RstV {
            in_code: false,
            code: seq![],
            lang: None,
            tree: tree_add_block(s.tree, BlockV::Code(s.lang, s.code)),
            ..s
        }
    } else {
        RstV { in_code: false, code: seq![], ..s }
    }
}

/// Inside a code block: `(state, true)` when the line was consumed by it.
pub open spec fn rst_code_phase(ls: Seq<Seq<char>>, i: int, s: RstV) -> (RstV, bool) {
    let line = ls[i];
    if !s.in_code {
        (s, false)
    } else if trim(line).len() == 0 {
        if next_indent(ls, i + 1, 0) < s.indent {
            (rst_end_code(s), false)
        } else {
            (RstV { code: s.code.push('\n'), ..s }, true)
        }
    } else if indent_of(line) < s.indent {
        (rst_end_code(s), false)
    } else {
        (RstV { code: s.code + drop_spaces(line, s.indent) + seq!['\n'], ..s }, true)
    }
}

/// Level for underline character `c`, and the updated character table.
pub open spec fn level_for(levels: Seq<char>, c: char) -> (Seq<char>, nat) {
    let p = first_index(levels, c);
    if p < levels.len() {
        (levels, p + 1)
    } else {
        (levels.push(c), levels.len() + 1)
    }
}

/// Starts a code block whose body is indented like the next non-blank line.
pub open spec fn rst_begin_code(ls: Seq<Seq<char>>, i: int, s: RstV, lang: Option<Seq<char>>) -> RstV {
    RstV {
        in_code: true,
        lang: lang,
        code: seq![],
        indent: next_indent(ls, i + 1, 4),
        cand: None,
        ..s
    }
}

/// Everything but the code phase, for line `i`.
pub open spec fn rst_main(ls: Seq<Seq<char>>, i: int, s: RstV) -> RstV {
    let line = ls[i];
    let t = trim(line);
    let ul = match s.cand {
        Some(c) => underline_of(t, utf8_len(trim(c))),
        None => None,
    };
    if s.cand is Some && ul is Some {
        let f = rst_flush(s);
        let (levels, level) = level_for(s.levels, ul->0);
        RstV {
            levels: levels,
            tree: tree_open(f.tree, level as u8, trim(s.cand->0)),
            cand: None,
            ..f
        }
    } else if code_directive(t) is Some {
        rst_begin_code(ls, i, rst_flush(s), code_directive(t)->0)
    } else if has_suffix(t, "::"@) && !has_prefix(t, ".."@) {
        let pt = trim(trim_end_colons(t));
        let s1 = if pt.len() > 0 {
            RstV { para: s.para + pt + seq!['\n'], ..s }
        } else {
            s
        };
        rst_begin_code(ls, i, rst_flush(s1), None)
    } else if t.len() == 0 {
        RstV { cand: None, ..rst_flush(s) }
    } else {
        let next = if i + 1 < ls.len() {
            ls[i + 1]
        } else {
            seq![]
        };
        if underline_of(trim(next), utf8_len(t)) is Some {
            RstV { cand: Some(line), ..s }
        } else {
            RstV {
                cand: None,
                para: if s.para.len() > 0 {
                    s.para + seq!['\n'] + t
                } else {
                    t
                },
                ..s
            }
        }
    }
}

pub open spec fn rst_step(ls: Seq<Seq<char>>, i: int, s: RstV) -> RstV {
    let (s1, consumed) = rst_code_phase(ls, i, s);
    if consumed {
        s1
    } else {
        rst_main(ls, i, s1)
    }
}

/// The state after the first `k` lines.
pub open spec fn rst_state(ls: Seq<Seq<char>>, k: int) -> RstV
    decreases k,
{
    if k <= 0 {
        rst_start()
    } else {
        rst_step(ls, k - 1, rst_state(ls, k - 1))
    }
}

/// The tree once the trailing code block or paragraph has been emitted.
pub open spec fn rst_tree(s: RstV) -> HeadingV {
    if s.in_code {
        if trim(s.code).len() > 0 {
            tree_finish(tree_add_block(s.tree, BlockV::Code(s.lang, s.code)))
        } else {
            tree_finish(s.tree)
        }
    } else {
        tree_finish(rst_flush(s).tree)
    }
}

/// Index of the first level-1 heading among `cs`, or `cs.len()`.
pub open spec fn first_level1(cs: Seq<HeadingV>) -> nat
    decreases cs.len(),
{
    if cs.len() == 0 {
        0
    } else if cs[0].level == 1 {
        0
    } else {
        1 + first_level1(cs.drop_first())
    }
}

/// The document: its tree, titled by the first top-level level-1 heading.
pub open spec fn spec_parse_rst(content: Seq<char>) -> DocV {
    let ls = lines(content);
    let root = rst_tree(rst_state(ls, ls.len() as int));
    let k = first_level1(root.children);
    DocV { title: if k < root.children.len() { Some(root.children[k as int].title) } else { None }, root }
}

// ───────────────────────────── implementation ─────────────────────────────

struct RstState {
    tree: TreeBuilder,
    levels: Vec<char>,
    para: Vec<char>,
    in_code: bool,
    lang: Option<Vec<char>>,
    indent: usize,
    code: Vec<char>,
    cand: Option<Vec<char>>,
}

impl View for RstState {
    type V = RstV;

    closed spec fn view(&self) -> RstV {
        RstV {
            tree: self.tree@,
            levels: self.levels@,
            para: self.para@,
            in_code: self.in_code,
            lang: opt_chars(self.lang),
            indent: self.indent as nat,
            code: self.code@,
            cand: opt_chars(self.cand),
        }
    }
}

fn flush(s: &mut RstState)
    ensures
        final(s)@ == rst_flush(old(s)@),
{
    let t = trim_chars(&s.para);
    s.para = Vec::new();
    if t.len() > 0 {
        s.tree.add_block(ContentBlock::Paragraph(string_of(&t)));
    }
}

fn end_code(s: &mut RstState)
    ensures
        final(s)@ == rst_end_code(old(s)@),
{
    s.in_code = false;
    let mut code: Vec<char> = Vec::new();
    std::mem::swap(&mut code, &mut s.code);
    if !is_blank(&code) {
        let lang = s.lang.take();
        let block = ContentBlock::Code { lang: opt_string(lang), content: string_of(&code) };
        s.tree.add_block(block);
    }
}

/// Byte width of the leading whitespace of `l`.
fn indent_exec(l: &Vec<char>) -> (n: usize)
    requires
        utf8_len(l@) <= usize::MAX,
    ensures
        n == indent_of(l@),
{
    let (a, _b) = trim_bounds(l, 0, l.len());
    assert(l@.subrange(0, l.len() as int) =~= l@);
    let ws = crate::text::slice_chars(l, 0, a);
    proof {
        assert(ws@ =~= l@.take(l@.len() - trim_start(l@).len()));
        lemma_utf8_len_subrange(l@, 0, a as int);
    }
    utf8_len_of(&ws)
}

pub open spec fn lines_bounded(ls: Seq<Seq<char>>) -> bool {
    forall|j: int| 0 <= j < ls.len() ==> utf8_len(#[trigger] ls[j]) <= usize::MAX
}

fn next_indent_exec(ls: &Vec<Vec<char>>, from: usize, default: usize) -> (n: usize)
    requires
        from <= ls.len(),
        lines_bounded(lines_view(ls@)),
    ensures
        n == next_indent(lines_view(ls@), from as int, default as nat),
{
    let ghost lv = lines_view(ls@);
    let mut j = from;
    while j < ls.len()
        invariant
            from <= j <= ls.len(),
            lv == lines_view(ls@),
            lines_bounded(lv),
            next_indent(lv, j as int, default as nat) == next_indent(lv, from as int, default as nat),
        decreases ls.len() - j,
    {
        if !is_blank(&ls[j]) {
            assert(lv[j as int] == ls@[j as int]@);
            return indent_exec(&ls[j]);
        }
        j = j + 1;
    }
    default
}

fn underline_exec(line: &Vec<char>, min_len: usize) -> (r: Option<char>)
    ensures
        r == underline_of(line@, min_len as nat),
{
    if line.len() == 0 {
        return None;
    }
    let c = line[0];
    if !(c == '=' || c == '-' || c == '~' || c == '^' || c == '"' || c == '#' || c == '*' || c == '+') {
        return None;
    }
    let mut j: usize = 0;
    while j < line.len()
        invariant
            j <= line.len(),
            line.len() > 0,
            c == line@[0],
            forall|k: int| 0 <= k < j ==> line@[k] == c,
        decreases line.len() - j,
    {
        if line[j] != c {
            return None;
        }
        j = j + 1;
    }
    if line.len() >= min_len {
        Some(c)
    } else {
        None
    }
}

fn directive_exec(t: &Vec<char>) -> (r: Option<Option<Vec<char>>>)
    ensures
        match r {
            None => code_directive(t@) is None,
            Some(l) => code_directive(t@) == Some(opt_chars(l)),
        },
{
    let skip;
    if starts_with_lit(t, ".. code-block::") {
        skip = chars_of(".. code-block::").len();
    } else if starts_with_lit(t, ".. code::") {
        skip = chars_of(".. code::").len();
    } else {
        return None;
    }
    let rest = crate::text::slice_chars(t, skip, t.len());
    let lang = trim_chars(&rest);
    if lang.len() == 0 {
        Some(None)
    } else {
        Some(Some(lang))
    }
}

fn trim_end_colons_exec(s: &Vec<char>) -> (r: Vec<char>)
    ensures
        r@ == trim_end_colons(s@),
{
    let mut b = s.len();
    assert(s@.take(b as int) =~= s@);
    while b > 0 && s[b - 1] == ':'
        invariant
            b <= s.len(),
            trim_end_colons(s@.take(b as int)) == trim_end_colons(s@),
        decreases b,
    {
        assert(s@.take(b as int).drop_last() =~= s@.take(b - 1));
        b = b - 1;
    }
    assert(s@.take(b as int) =~= s@.subrange(0, b as int));
    crate::text::slice_chars(s, 0, b)
}

fn drop_spaces_exec(s: &Vec<char>, n: usize) -> (r: Vec<char>)
    ensures
        r@ == drop_spaces(s@, n as nat),
{
    let mut a: usize = 0;
    assert(s@.skip(0) =~= s@);
    while a < s.len() && a < n && s[a] == ' '
        invariant
            a <= s.len(),
            a <= n,
            drop_spaces(s@.skip(a as int), (n - a) as nat) == drop_spaces(s@, n as nat),
        decreases s.len() - a,
    {
        assert(s@.skip(a as int).drop_first() =~= s@.skip(a + 1));
        a = a + 1;
    }
    assert(s@.skip(a as int) =~= s@.subrange(a as int, s.len() as int));
    crate::text::slice_chars(s, a, s.len())
}

fn begin_code(
    ls: &Vec<Vec<char>>,
    i: usize,
    s: &mut RstState,
    lang: Option<Vec<char>>,
)
    requires
        i < ls.len(),
        lines_bounded(lines_view(ls@)),
    ensures
        final(s)@ == rst_begin_code(lines_view(ls@), i as int, old(s)@, opt_chars(lang)),
{
    s.in_code = true;
    s.lang = lang;
    s.code = Vec::new();
    s.indent = next_indent_exec(ls, i + 1, 4);
    s.cand = None;
}

/// Consumes line `i` inside a code block; returns whether it was consumed.
fn code_phase(ls: &Vec<Vec<char>>, i: usize, s: &mut RstState) -> (consumed: bool)
    requires
        i < ls.len(),
        lines_bounded(lines_view(ls@)),
    ensures
        (final(s)@, consumed) == rst_code_phase(lines_view(ls@), i as int, old(s)@),
{
    let ghost lv = lines_view(ls@);
    assert(lv[i as int] == ls@[i as int]@);
    if !s.in_code {
        return false;
    }
    let line = &ls[i];
    if is_blank(line) {
        let ni = next_indent_exec(ls, i + 1, 0);
        if ni < s.indent {
            end_code(s);
            false
        } else {
            s.code.push('\n');
            true
        }
    } else {
        let ind = indent_exec(line);
        if ind < s.indent {
            end_code(s);
            false
        } else {
            let t = drop_spaces_exec(line, s.indent);
            let ghost c0 = s.code@;
            push_all(&mut s.code, &t);
            s.code.push('\n');
            assert(s.code@ =~= c0 + drop_spaces(lv[i as int], old(s)@.indent) + seq!['\n']);
            true
        }
    }
}

proof fn lemma_first_index_found(s: Seq<char>, c: char)
    ensures
        first_index(s, c) <= s.len(),
        forall|j: int| 0 <= j < first_index(s, c) ==> s[j] != c,
        first_index(s, c) < s.len() ==> s[first_index(s, c) as int] == c,
        first_index(s, c) == s.len() ==> !s.contains(c),
    decreases s.len(),
{
    if s.len() > 0 && s[0] != c {
        let t = s.drop_first();
        lemma_first_index_found(t, c);
        assert forall|j: int| 0 <= j < first_index(s, c) implies s[j] != c by {
            if j > 0 {
                assert(s[j] == t[j - 1]);
            }
        }
        if first_index(s, c) == s.len() {
            assert forall|j: int| 0 <= j < s.len() implies s[j] != c by {
                if j > 0 {
                    assert(s[j] == t[j - 1]);
                }
            }
        }
    }
}

/// Underline characters get levels in order of first appearance: a
/// character already in the table keeps its place, a new one is appended,
/// and the level is one more than the character's (first) position in the
/// table.
pub proof fn law_rst_levels_by_first_appearance(levels: Seq<char>, c: char)
    ensures
        levels.contains(c) ==> level_for(levels, c).0 == levels,
        !levels.contains(c) ==> level_for(levels, c).0 == levels.push(c),
        1 <= level_for(levels, c).1 <= level_for(levels, c).0.len(),
        level_for(levels, c).0[level_for(levels, c).1 - 1] == c,
        forall|j: int| 0 <= j < level_for(levels, c).1 - 1 ==> level_for(levels, c).0[j] != c,
{
    lemma_first_index_found(levels, c);
    if levels.contains(c) {
        let j = choose|j: int| 0 <= j < levels.len() && levels[j] == c;
        assert(first_index(levels, c) < levels.len());
    }
}

fn level_for_exec(levels: &mut Vec<char>, c: char) -> (level: usize)
    requires
        old(levels).len() < usize::MAX,
    ensures
        (final(levels)@, level as nat) == level_for(old(levels)@, c),
{
    let mut p: usize = 0;
    while p < levels.len()
        invariant
            p <= levels.len(),
            forall|j: int| 0 <= j < p ==> levels@[j] != c,
        decreases levels.len() - p,
    {
        if levels[p] == c {
            proof {
                lemma_first_index(levels@, c, p as int);
            }
            return p + 1;
        }
        p = p + 1;
    }
    proof {
        lemma_first_index(levels@, c, p as int);
    }
    levels.push(c);
    levels.len()
}

pub open spec fn cand_bounded(s: RstV) -> bool {
    s.cand matches Some(c) ==> utf8_len(c) <= usize::MAX
}

fn trim_bounded(l: &Vec<char>) -> (t: Vec<char>)
    requires
        utf8_len(l@) <= usize::MAX,
    ensures
        t@ == trim(l@),
        utf8_len(t@) <= usize::MAX,
{
    let (a, b) = trim_bounds(l, 0, l.len());
    assert(l@.subrange(0, l.len() as int) =~= l@);
    proof {
        lemma_utf8_len_subrange(l@, a as int, b as int);
    }
    crate::text::slice_chars(l, a, b)
}

fn main_phase(ls: &Vec<Vec<char>>, i: usize, s: &mut RstState)
    requires
        i < ls.len(),
        lines_bounded(lines_view(ls@)),
        old(s).levels.len() < usize::MAX,
        cand_bounded(old(s)@),
    ensures
        final(s)@ == rst_main(lines_view(ls@), i as int, old(s)@),
        final(s).levels.len() <= old(s).levels.len() + 1,
        cand_bounded(final(s)@),
{
    let ghost lv = lines_view(ls@);
    let ghost s0 = s@;
    assert(lv[i as int] == ls@[i as int]@);
    let line = &ls[i];
    let t = trim_bounded(line);
    let mut hit: Option<(char, Vec<char>)> = None;
    match &s.cand {
        Some(c) => {
            let ct = trim_bounded(c);
            let m = utf8_len_of(&ct);
            match underline_exec(&t, m) {
                Some(u) => {
                    hit = Some((u, ct));
                },
                None => {},
            }
        },
        None => {},
    }
    match hit {
        Some((u, title)) => {
            s.cand = None;
            flush(s);
            let level = level_for_exec(&mut s.levels, u);
            s.tree.open(level as u8, string_of(&title));
            assert(s0.cand is Some);
            assert(s@ == rst_main(lv, i as int, s0));
            return;
        },
        None => {},
    }
    match directive_exec(&t) {
        Some(lang) => {
            flush(s);
            begin_code(ls, i, s, lang);
            return;
        },
        None => {},
    }
    if ends_with_lit(&t, "::") && !starts_with_lit(&t, "..") {
        let tc = trim_end_colons_exec(&t);
        let pt = trim_chars(&tc);
        if pt.len() > 0 {
            let ghost p0 = s.para@;
            push_all(&mut s.para, &pt);
            s.para.push('\n');
            assert(s.para@ =~= p0 + pt@ + seq!['\n']);
        }
        flush(s);
        begin_code(ls, i, s, None);
        return;
    }
    if t.len() == 0 {
        flush(s);
        s.cand = None;
        return;
    }
    let next: Vec<char> = if i + 1 < ls.len() {
        assert(lv[i + 1] == ls@[i + 1]@);
        copy_chars(&ls[i + 1])
    } else {
        Vec::new()
    };
    assert(utf8_len(next@) <= usize::MAX) by {
        if i + 1 < ls.len() {
            assert(lv[i + 1] == next@);
        } else {
            assert(next@ =~= seq![]);
        }
    }
    let nt = trim_bounded(&next);
    let tl = utf8_len_of(&t);
    if underline_exec(&nt, tl).is_some() {
        s.cand = Some(copy_chars(line));
    } else {
        s.cand = None;
        let ghost p0 = s.para@;
        if s.para.len() > 0 {
            s.para.push('\n');
        }
        push_all(&mut s.para, &t);
        assert(p0.len() > 0 ==> s.para@ =~= p0 + seq!['\n'] + t@);
        assert(p0.len() == 0 ==> s.para@ =~= t@);
    }
}

fn step(ls: &Vec<Vec<char>>, i: usize, s: &mut RstState)
    requires
        i < ls.len(),
        lines_bounded(lines_view(ls@)),
        old(s).levels.len() <= i,
        cand_bounded(old(s)@),
    ensures
        final(s)@ == rst_step(lines_view(ls@), i as int, old(s)@),
        final(s).levels.len() <= i + 1,
        cand_bounded(final(s)@),
{
    let consumed = code_phase(ls, i, s);
    if !consumed {
        main_phase(ls, i, s);
    }
}

/// Parses reStructuredText into a heading tree.
pub fn parse_rst(content: &str) -> (r: ParsedDoc)
    ensures
        r@ == spec_parse_rst(content@),
{
    let _n = byte_len(content);
    let cs = chars_of(content);
    let ls = split_lines(&cs);
    let ghost lv = lines_view(ls@);
    proof {
        lemma_lines_utf8_bounded(cs@);
        assert(lv =~= lines(cs@));
    }
    let mut s = RstState {
        tree: TreeBuilder::new(),
        levels: Vec::new(),
        para: Vec::new(),
        in_code: false,
        lang: None,
        indent: 0,
        code: Vec::new(),
        cand: None,
    };
    proof {
        assert(s@.levels =~= seq![]);
        assert(s@.para =~= seq![]);
        assert(s@.code =~= seq![]);
    }
    let mut i: usize = 0;
    while i < ls.len()
        invariant
            i <= ls.len(),
            lv == lines_view(ls@),
            lines_bounded(lv),
            s@ == rst_state(lv, i as int),
            s.levels.len() <= i,
            cand_bounded(s@),
        decreases ls.len() - i,
    {
        step(&ls, i, &mut s);
        i = i + 1;
    }
    let ghost fin = s@;
    let root = if s.in_code {
        if !is_blank(&s.code) {
            let block = ContentBlock::Code { lang: opt_string(s.lang), content: string_of(&s.code) };
            s.tree.add_block(block);
        }
        s.tree.finish()
    } else {
        flush(&mut s);
        s.tree.finish()
    };
    assert(root@ == rst_tree(fin));
    assert(fin == rst_state(lines(content@), lines(content@).len() as int));
    assert(root@ == spec_parse_rst(content@).root);
    let mut k: usize = 0;
    while k < root.children.len()
        invariant
            k <= root.children.len(),
            root@.children.len() == root.children.len(),
            root@ == spec_parse_rst(content@).root,
            forall|j: int| 0 <= j < k ==> root@.children[j].level != 1,
        decreases root.children.len() - k,
    {
        assert(root@.children[k as int] == root.children@[k as int]@);
        if root.children[k].level == 1 {
            let title = root.children[k].title.clone();
            proof {
                lemma_first_level1(root@.children, k as int);
                assert(title@ == root@.children[k as int].title);
                assert(first_level1(root@.children) == k);
            }
            return ParsedDoc { title: Some(title), root };
        }
        k = k + 1;
    }
    proof {
        lemma_first_level1(root@.children, k as int);
    }
    ParsedDoc { title: None, root }
}

proof fn lemma_first_level1(cs: Seq<HeadingV>, k: int)
    requires
        0 <= k <= cs.len(),
        forall|j: int| 0 <= j < k ==> cs[j].level != 1,
        k < cs.len() ==> cs[k].level == 1,
    ensures
        first_level1(cs) == k,
    decreases cs.len(),
{
    if cs.len() > 0 && cs[0].level != 1 {
        lemma_first_level1(cs.drop_first(), k - 1);
    }
}

} // verus!
