//! Rewriting of `[[WikiLink]]` syntax into CommonMark links.
//!
//! Supported forms:
//! - `[[Foo]]`           becomes `[Foo](path)`
//! - `[[Foo|Display]]`   becomes `[Display](path)`
//! - `[[Foo#section]]`   becomes `[Foo#section](path)` (anchor kept in the display text)
//! - `[[Foo.md]]`        becomes `[Foo](path)` (`.md` stripped from the display text)
//!
//! Targets are resolved through a [`TreeIndex`] (lower-cased file stem to
//! absolute path); without a match the target is `<base_dir>/<name>.md`.
//! Wiki-links inside fenced code blocks or inline code spans are left as
//! they are.
use vstd::prelude::*;
use crate::text::{
    lowercase, to_lowercase, chars_of, string_of, push_all, slice_vec, chars_eq, trim, trim_vec,
    trim_start, trim_start_vec, starts_with, has_prefix, find_char, find_char_from, index_of_char, index_of_char_from,
    contains_char, strip_suffix_all, strip_suffix_all_vec, is_ws,
};
use crate::path::{path_join, join_path};

verus! {

/// A map from lower-cased file stem to path. When a stem is inserted twice,
/// the first path is kept.
///
/// This stands in for a `HashMap<String, PathBuf>`: vstd specifies
/// `HashMap` only for keys it knows how to hash (integers and `bool`), not
/// for `String`, so the index is a vector of pairs with distinct stems.
pub struct TreeIndex {
    entries: Vec<(String, String)>,
}

/// The value stored for `key`: the first entry with that key.
pub open spec fn index_get(m: Seq<(Seq<char>, Seq<char>)>, key: Seq<char>) -> Option<Seq<char>>
    decreases m.len(),
{
    if m.len() == 0 {
        None
    } else if m[0].0 == key {
        Some(m[0].1)
    } else {
        index_get(m.drop_first(), key)
    }
}

impl View for TreeIndex {
    type V = Seq<(Seq<char>, Seq<char>)>;

    closed spec fn view(&self) -> Seq<(Seq<char>, Seq<char>)> {
        self.entries@.map_values(|e: (String, String)| (e.0@, e.1@))
    }
}

proof fn lemma_index_get_skip(m: Seq<(Seq<char>, Seq<char>)>, key: Seq<char>, i: int)
    requires
        0 <= i <= m.len(),
        forall|j: int| 0 <= j < i ==> (#[trigger] m[j]).0 != key,
    ensures
        index_get(m, key) == index_get(m.skip(i), key),
    decreases i,
{
    if i > 0 {
        assert(m.drop_first().skip(i - 1) =~= m.skip(i));
        assert forall|j: int| 0 <= j < i - 1 implies (#[trigger] m.drop_first()[j]).0 != key by {
            assert(m.drop_first()[j] == m[j + 1]);
        }
        lemma_index_get_skip(m.drop_first(), key, i - 1);
    } else {
        assert(m.skip(0) =~= m);
    }
}

proof fn lemma_index_get_push(m: Seq<(Seq<char>, Seq<char>)>, key: Seq<char>, e: (Seq<char>, Seq<char>))
    ensures
        index_get(m.push(e), key) == (match index_get(m, key) {
            Some(v) => Some(v),
            None => if e.0 == key { Some(e.1) } else { None },
        }),
    decreases m.len(),
{
    if m.len() > 0 {
        assert(m.push(e).drop_first() =~= m.drop_first().push(e));
        assert(m.push(e)[0] == m[0]);
        lemma_index_get_push(m.drop_first(), key, e);
    } else {
        assert(m.push(e).drop_first() =~= Seq::<(Seq<char>, Seq<char>)>::empty());
        assert(m.push(e)[0] == e);
        assert(index_get(m.push(e).drop_first(), key) is None);
    }
}

impl TreeIndex {
    /// An empty index.
    pub fn new() -> (r: TreeIndex)
        ensures
            r@ == Seq::<(Seq<char>, Seq<char>)>::empty(),
    {
        let r = TreeIndex { entries: Vec::new() };
        assert(r@ =~= Seq::<(Seq<char>, Seq<char>)>::empty());
        r
    }

    /// Number of distinct keys.
    pub fn len(&self) -> (n: usize)
        ensures
            n == self@.len(),
    {
        self.entries.len()
    }

    /// The path stored for `key`.
    pub fn get(&self, key: &[char]) -> (r: Option<String>)
        ensures
            match r {
                Some(v) => index_get(self@, key@) == Some(v@),
                None => index_get(self@, key@) is None,
            },
    {
        let mut i: usize = 0;
        while i < self.entries.len()
            invariant
                i <= self@.len(),
                self@.len() == self.entries@.len(),
                forall|j: int| 0 <= j < i ==> (#[trigger] self@[j]).0 != key@,
            decreases self@.len() - i,
        {
            let k = chars_of(self.entries[i].0.as_str());
            assert(self@[i as int] == (self.entries@[i as int].0@, self.entries@[i as int].1@));
            if chars_eq(&k, key) {
                proof {
                    lemma_index_get_skip(self@, key@, i as int);
                }
                return Some(self.entries[i].1.clone());
            }
            i += 1;
        }
        proof {
            lemma_index_get_skip(self@, key@, i as int);
        }
        None
    }

    /// Stores `value` under `key` unless `key` is already present.
    pub fn insert_if_absent(&mut self, key: String, value: String)
        ensures
            final(self)@ == (if index_get(old(self)@, key@) is Some {
                old(self)@
            } else {
                old(self)@.push((key@, value@))
            }),
    {
        let k = chars_of(key.as_str());
        let present = self.get(&k);
        if present.is_none() {
            let ghost before = self.entries@;
            self.entries.push((key, value));
            assert(self@ =~= old(self)@.push((key@, value@)));
        }
    }
}

/// Index of the first `]]` in `s` at or after `from`.
pub open spec fn find_close_from(s: Seq<char>, from: nat) -> Option<nat>
    decreases s.len() - from,
{
    if from + 1 >= s.len() {
        None
    } else if s[from as int] == ']' && s[from + 1int] == ']' {
        Some(from)
    } else {
        find_close_from(s, from + 1)
    }
}

pub proof fn lemma_find_close_range(s: Seq<char>, from: nat)
    ensures
        find_close_from(s, from) matches Some(i) ==> from <= i && i + 1 < s.len() && s[i as int]
            == ']' && s[i + 1int] == ']',
    decreases s.len() - from,
{
    if from + 1 < s.len() && !(s[from as int] == ']' && s[from + 1int] == ']') {
        lemma_find_close_range(s, from + 1);
    }
}

/// Per-character escape of link text.
pub open spec fn escape_char(c: char) -> Seq<char> {
    if c == '\\' {
        seq!['\\', '\\']
    } else if c == ']' {
        seq!['\\', ']']
    } else if c == '[' {
        seq!['\\', '[']
    } else {
        seq![c]
    }
}

/// Link text with `\`, `]` and `[` escaped by a backslash.
pub open spec fn escape_text(s: Seq<char>) -> Seq<char>
    decreases s.len(),
{
    if s.len() == 0 {
        seq![]
    } else {
        escape_text(s.drop_last()) + escape_char(s.last())
    }
}

/// `s` with every `>` written as `\>`.
pub open spec fn escape_gt(s: Seq<char>) -> Seq<char>
    decreases s.len(),
{
    if s.len() == 0 {
        seq![]
    } else {
        escape_gt(s.drop_last()) + (if s.last() == '>' { seq!['\\', '>'] } else { seq![s.last()] })
    }
}

/// A link destination, wrapped in `<...>` when it holds a space or a parenthesis.
pub open spec fn escape_target(s: Seq<char>) -> Seq<char> {
    if s.contains(' ') || s.contains('(') || s.contains(')') {
        seq!['<'] + escape_gt(s) + seq!['>']
    } else {
        s
    }
}

/// The path a wiki-link to `stem` resolves to.
pub open spec fn wiki_target(
    stem: Seq<char>,
    index: Option<Seq<(Seq<char>, Seq<char>)>>,
    base: Option<Seq<char>>,
) -> Seq<char> {
    let file = stem + seq!['.', 'm', 'd'];
    let found = match index {
        Some(m) => index_get(m, lowercase(stem)),
        None => None,
    };
    match found {
        Some(p) => p,
        None => match base {
            Some(d) => path_join(d, file),
            None => file,
        },
    }
}

/// Splits `s` at the first `sep`, trimming both halves.
pub open spec fn split_trim(s: Seq<char>, sep: char) -> (Seq<char>, Option<Seq<char>>) {
    match find_char(s, sep) {
        Some(p) => (trim(s.take(p)), Some(trim(s.skip(p + 1)))),
        None => (trim(s), None),
    }
}

#[verifier::opaque]
/// The body of a wiki-link that follows `[[`: the length of the inner text
/// before `]]` and the CommonMark link that replaces the whole wiki-link.
pub open spec fn parse_wikilink(
    after: Seq<char>,
    index: Option<Seq<(Seq<char>, Seq<char>)>>,
    base: Option<Seq<char>>,
) -> Option<(nat, Seq<char>)> {
    match find_close_from(after, 0) {
        None => None,
        Some(close) => {
            let inner = after.take(close as int);
            if inner.contains('\n') || inner.len() == 0 {
                None
            } else {
                let (target_part, alias) = split_trim(inner, '|');
                if target_part.len() == 0 {
                    None
                } else {
                    let (file_part, anchor) = match find_char(target_part, '#') {
                        Some(p) => (trim(target_part.take(p)), Some(trim(target_part.skip(p + 1)))),
                        None => (target_part, None),
                    };
                    let stem = strip_suffix_all(
                        strip_suffix_all(file_part, seq!['.', 'm', 'd']),
                        seq!['.', 'm', 'a', 'r', 'k', 'd', 'o', 'w', 'n'],
                    );
                    if stem.len() == 0 {
                        None
                    } else {
                        let display = match alias {
                            Some(a) if a.len() > 0 => a,
                            _ => match anchor {
                                Some(sec) if sec.len() > 0 => stem + seq!['#'] + sec,
                                _ => stem,
                            },
                        };
                        let target = wiki_target(stem, index, base);
                        Some(
                            (
                                close,
                                seq!['['] + escape_text(display) + seq![']', '('] + escape_target(
                                    target,
                                ) + seq![')'],
                            ),
                        )
                    }
                }
            }
        },
    }
}

pub proof fn lemma_parse_close(after: Seq<char>, idx: Option<Seq<(Seq<char>, Seq<char>)>>, b: Option<Seq<char>>)
    ensures
        parse_wikilink(after, idx, b) matches Some(p) ==> p.0 + 2 <= after.len(),
{
    reveal(parse_wikilink);
    lemma_find_close_range(after, 0);
}

/// The number of backticks in the run that starts at `k`.
pub open spec fn tick_run(line: Seq<char>, k: nat) -> nat
    decreases line.len() - k,
{
    if k < line.len() && line[k as int] == '`' {
        1 + tick_run(line, k + 1)
    } else {
        0
    }
}

pub proof fn lemma_tick_run(line: Seq<char>, k: nat)
    requires
        k <= line.len(),
    ensures
        k + tick_run(line, k) <= line.len(),
        k < line.len() && line[k as int] == '`' ==> tick_run(line, k) >= 1,
        forall|i: int| k <= i < k + tick_run(line, k) ==> line[i] == '`',
        k + tick_run(line, k) < line.len() ==> line[(k + tick_run(line, k)) as int] != '`',
    decreases line.len() - k,
{
    if k < line.len() && line[k as int] == '`' {
        lemma_tick_run(line, k + 1);
    }
}

/// Where a code span opened by a run of `n` backticks closes, looking from
/// `from`, which starts a run or is no backtick: the start of the first
/// later run of exactly `n` backticks, if there is one.
pub open spec fn closing_run(line: Seq<char>, from: nat, n: nat) -> Option<nat>
    decreases line.len() - from,
{
    if from >= line.len() {
        None
    } else if line[from as int] == '`' {
        let m = tick_run(line, from);
        proof {
            lemma_tick_run(line, from);
        }
        if m == n {
            Some(from)
        } else {
            closing_run(line, from + m, n)
        }
    } else {
        closing_run(line, from + 1, n)
    }
}

pub proof fn lemma_closing_run(line: Seq<char>, from: nat, n: nat)
    requires
        from <= line.len(),
    ensures
        closing_run(line, from, n) matches Some(j) ==> from <= j && j + n <= line.len() && tick_run(line, j)
            == n,
    decreases line.len() - from,
{
    if from < line.len() {
        lemma_tick_run(line, from);
        if line[from as int] == '`' {
            if tick_run(line, from) != n {
                lemma_closing_run(line, from + tick_run(line, from), n);
            }
        } else {
            lemma_closing_run(line, from + 1, n);
        }
    }
}

/// Where the text that starts with the backtick run at `k` ends: past the
/// code span's closing run when the run opens one, else past the run itself.
pub open spec fn code_span_end(line: Seq<char>, k: nat) -> nat {
    let n = tick_run(line, k);
    match closing_run(line, k + n, n) {
        Some(j) => j + n,
        None => k + n,
    }
}

pub proof fn lemma_code_span_end(line: Seq<char>, k: nat)
    requires
        k < line.len(),
        line[k as int] == '`',
    ensures
        k < code_span_end(line, k) <= line.len(),
{
    lemma_tick_run(line, k);
    lemma_closing_run(line, k + tick_run(line, k), tick_run(line, k));
}

/// The rewrite of `line[k..]`, where `k` is not inside an inline code span.
/// A run of backticks opens a code span when a later run of the same length
/// closes it; the span, both runs included, is copied as it is. A run that
/// closes nothing is copied as text.
pub open spec fn rewrite_line_from(
    line: Seq<char>,
    k: nat,
    index: Option<Seq<(Seq<char>, Seq<char>)>>,
    base: Option<Seq<char>>,
) -> Seq<char>
    decreases line.len() - k,
{
    if k >= line.len() {
        seq![]
    } else if line[k as int] == '`' {
        let e = code_span_end(line, k);
        proof {
            lemma_code_span_end(line, k);
        }
        line.subrange(k as int, e as int) + rewrite_line_from(line, e, index, base)
    } else if line[k as int] == '[' && k + 1 < line.len() && line[k + 1int] == '['
        && parse_wikilink(line.skip(k + 2int), index, base) is Some {
        let (close, rep) = parse_wikilink(line.skip(k + 2int), index, base).unwrap();
        proof {
            lemma_parse_close(line.skip(k + 2int), index, base);
        }
        rep + rewrite_line_from(line, k + 4 + close, index, base)
    } else {
        seq![line[k as int]] + rewrite_line_from(line, k + 1, index, base)
    }
}

/// The line holds a code fence: after leading whitespace it starts with
/// three backticks or three tildes.
pub open spec fn is_fence_line(line: Seq<char>) -> bool {
    starts_with(trim_start(line), seq!['`', '`', '`']) || starts_with(
        trim_start(line),
        seq!['~', '~', '~'],
    )
}

/// End (exclusive) of the line that starts at `start`: just past its `\n`,
/// or the end of `s`.
pub open spec fn line_end(s: Seq<char>, start: nat) -> nat {
    match find_char_from(s, '\n', start as int) {
        Some(i) => (i + 1) as nat,
        None => s.len(),
    }
}

pub proof fn lemma_find_char_from_range(s: Seq<char>, c: char, from: int)
    requires
        0 <= from,
    ensures
        find_char_from(s, c, from) matches Some(i) ==> from <= i < s.len() && s[i] == c,
        find_char_from(s, c, from) is None ==> forall|j: int|
            from <= j < s.len() ==> #[trigger] s[j] != c,
    decreases s.len() - from,
{
    if 0 <= from < s.len() && s[from] != c {
        lemma_find_char_from_range(s, c, from + 1);
    }
}

/// The rewrite of `s[start..]`, where `in_fence` tells whether `start` is
/// inside a fenced code block.
pub open spec fn rewrite_from(
    s: Seq<char>,
    start: nat,
    in_fence: bool,
    index: Option<Seq<(Seq<char>, Seq<char>)>>,
    base: Option<Seq<char>>,
) -> Seq<char>
    decreases s.len() - start,
{
    if start >= s.len() {
        seq![]
    } else {
        let end = line_end(s, start);
        proof {
            lemma_find_char_from_range(s, '\n', start as int);
        }
        let line = s.subrange(start as int, end as int);
        if is_fence_line(line) {
            line + rewrite_from(s, end, !in_fence, index, base)
        } else if in_fence {
            line + rewrite_from(s, end, in_fence, index, base)
        } else {
            rewrite_line_from(line, 0, index, base) + rewrite_from(s, end, in_fence, index, base)
        }
    }
}

/// The result of [`rewrite`].
pub open spec fn spec_rewrite(
    content: Seq<char>,
    index: Option<Seq<(Seq<char>, Seq<char>)>>,
    base: Option<Seq<char>>,
) -> Seq<char> {
    rewrite_from(content, 0, false, index, base)
}

/// The index as a spec value, when there is one.
pub open spec fn opt_index(index: Option<&TreeIndex>) -> Option<Seq<(Seq<char>, Seq<char>)>> {
    match index {
        Some(t) => Some(t@),
        None => None,
    }
}

/// The base directory as a spec value, when there is one.
pub open spec fn opt_chars(base: Option<&[char]>) -> Option<Seq<char>> {
    match base {
        Some(b) => Some(b@),
        None => None,
    }
}

fn find_close(s: &[char]) -> (r: Option<usize>)
    ensures
        match r {
            Some(i) => find_close_from(s@, 0) == Some(i as nat),
            None => find_close_from(s@, 0) is None,
        },
{
    let mut i: usize = 0;
    while i < s.len() && s.len() - i > 1
        invariant
            find_close_from(s@, 0) == find_close_from(s@, i as nat),
            i <= s@.len(),
        decreases s@.len() - i,
    {
        if s[i] == ']' && s[i + 1] == ']' {
            return Some(i);
        }
        i += 1;
    }
    None
}

fn escape_text_vec(s: &[char]) -> (r: Vec<char>)
    ensures
        r@ == escape_text(s@),
{
    let mut out: Vec<char> = Vec::new();
    let mut i: usize = 0;
    while i < s.len()
        invariant
            i <= s@.len(),
            out@ == escape_text(s@.take(i as int)),
        decreases s@.len() - i,
    {
        let c = s[i];
        if c == '\\' {
            out.push('\\');
            out.push('\\');
        } else if c == ']' {
            out.push('\\');
            out.push(']');
        } else if c == '[' {
            out.push('\\');
            out.push('[');
        } else {
            out.push(c);
        }
        assert(s@.take(i + 1).drop_last() =~= s@.take(i as int));
        assert(out@ =~= escape_text(s@.take(i as int)) + escape_char(c));
        i += 1;
    }
    assert(s@.take(s@.len() as int) =~= s@);
    out
}

fn escape_target_vec(s: &[char]) -> (r: Vec<char>)
    ensures
        r@ == escape_target(s@),
{
    if contains_char(s, ' ') || contains_char(s, '(') || contains_char(s, ')') {
        let mut out: Vec<char> = Vec::new();
        out.push('<');
        let mut i: usize = 0;
        while i < s.len()
            invariant
                i <= s@.len(),
                out@ == seq!['<'] + escape_gt(s@.take(i as int)),
            decreases s@.len() - i,
        {
            let c = s[i];
            if c == '>' {
                out.push('\\');
                out.push('>');
            } else {
                out.push(c);
            }
            assert(s@.take(i + 1).drop_last() =~= s@.take(i as int));
            assert(out@ =~= seq!['<'] + escape_gt(s@.take(i + 1)));
            i += 1;
        }
        out.push('>');
        assert(s@.take(s@.len() as int) =~= s@);
        out
    } else {
        slice_vec(s, 0, s.len())
    }
}

fn wiki_target_vec(stem: &[char], index: Option<&TreeIndex>, base: Option<&[char]>) -> (r: Vec<
    char,
>)
    ensures
        r@ == wiki_target(stem@, opt_index(index), opt_chars(base)),
{
    let mut file = slice_vec(stem, 0, stem.len());
    file.push('.');
    file.push('m');
    file.push('d');
    assert(file@ =~= stem@ + seq!['.', 'm', 'd']);
    let found = match index {
        Some(t) => {
            let lc = to_lowercase(stem);
            t.get(&lc)
        },
        None => None,
    };
    match found {
        Some(p) => chars_of(p.as_str()),
        None => match base {
            Some(d) => join_path(d, &file),
            None => file,
        },
    }
}

fn split_trim_vec(s: &[char], sep: char) -> (r: (Vec<char>, Option<Vec<char>>))
    ensures
        r.0@ == split_trim(s@, sep).0,
        match r.1 {
            Some(a) => split_trim(s@, sep).1 == Some(a@),
            None => split_trim(s@, sep).1 is None,
        },
{
    match index_of_char(s, sep) {
        Some(p) => {
            proof {
                lemma_find_char_from_range(s@, sep, 0);
            }
            let left = slice_vec(s, 0, p);
            let right = slice_vec(s, p + 1, s.len());
            assert(left@ =~= s@.take(p as int));
            assert(right@ =~= s@.skip(p + 1));
            (trim_vec(&left), Some(trim_vec(&right)))
        },
        None => (trim_vec(s), None),
    }
}

fn parse_wikilink_vec(after: &[char], index: Option<&TreeIndex>, base: Option<&[char]>) -> (r:
    Option<(usize, Vec<char>)>)
    ensures
        match r {
            Some(p) => parse_wikilink(after@, opt_index(index), opt_chars(base)) == Some(
                (p.0 as nat, p.1@),
            ),
            None => parse_wikilink(after@, opt_index(index), opt_chars(base)) is None,
        },
{
    reveal(parse_wikilink);
    let close = match find_close(after) {
        Some(c) => c,
        None => return None,
    };
    proof {
        lemma_find_close_range(after@, 0);
    }
    let inner = slice_vec(after, 0, close);
    assert(inner@ =~= after@.take(close as int));
    if contains_char(&inner, '\n') || inner.len() == 0 {
        return None;
    }
    let (target_part, alias) = split_trim_vec(&inner, '|');
    if target_part.len() == 0 {
        return None;
    }
    let (file_part, anchor) = match index_of_char(&target_part, '#') {
        Some(p) => {
            proof {
                lemma_find_char_from_range(target_part@, '#', 0);
            }
            let left = slice_vec(&target_part, 0, p);
            let right = slice_vec(&target_part, p + 1, target_part.len());
            assert(left@ =~= target_part@.take(p as int));
            assert(right@ =~= target_part@.skip(p + 1));
            (trim_vec(&left), Some(trim_vec(&right)))
        },
        None => (slice_vec(&target_part, 0, target_part.len()), None),
    };
    assert(target_part@.subrange(0, target_part@.len() as int) =~= target_part@);
    let md = vec!['.', 'm', 'd'];
    let markdown = vec!['.', 'm', 'a', 'r', 'k', 'd', 'o', 'w', 'n'];
    let s1 = strip_suffix_all_vec(&file_part, &md);
    let stem = strip_suffix_all_vec(&s1, &markdown);
    if stem.len() == 0 {
        return None;
    }
    let display: Vec<char> = match alias {
        Some(a) if a.len() > 0 => a,
        _ => match anchor {
            Some(sec) if sec.len() > 0 => {
                let mut d = slice_vec(&stem, 0, stem.len());
                d.push('#');
                push_all(&mut d, &sec);
                assert(d@ =~= stem@ + seq!['#'] + sec@);
                d
            },
            _ => slice_vec(&stem, 0, stem.len()),
        },
    };
    assert(stem@.subrange(0, stem@.len() as int) =~= stem@);
    let target = wiki_target_vec(&stem, index, base);
    let mut out: Vec<char> = Vec::new();
    out.push('[');
    push_all(&mut out, &escape_text_vec(&display));
    out.push(']');
    out.push('(');
    push_all(&mut out, &escape_target_vec(&target));
    out.push(')');
    assert(out@ =~= seq!['['] + escape_text(display@) + seq![']', '('] + escape_target(target@)
        + seq![')']);
    Some((close, out))
}

proof fn lemma_line_step(
    line: Seq<char>,
    k: nat,
    idx: Option<Seq<(Seq<char>, Seq<char>)>>,
    b: Option<Seq<char>>,
)
    requires
        k < line.len(),
    ensures
        line[k as int] == '`' ==> rewrite_line_from(line, k, idx, b) == line.subrange(
            k as int,
            code_span_end(line, k) as int,
        ) + rewrite_line_from(line, code_span_end(line, k), idx, b),
        line[k as int] != '`' && !(line[k as int] == '[' && k + 1 < line.len() && line[k + 1int] == '['
            && parse_wikilink(line.skip(k + 2int), idx, b) is Some) ==> rewrite_line_from(line, k, idx, b)
            == seq![line[k as int]] + rewrite_line_from(line, k + 1, idx, b),
        line[k as int] != '`' && line[k as int] == '[' && k + 1 < line.len() && line[k + 1int] == '['
            && parse_wikilink(line.skip(k + 2int), idx, b) is Some ==> ({
            let (close, rep) = parse_wikilink(line.skip(k + 2int), idx, b).unwrap();
            rewrite_line_from(line, k, idx, b) == rep + rewrite_line_from(line, k + 4 + close, idx, b)
        }),
{
}

/// The length of the backtick run of `line` at `k`.
fn tick_run_exec(line: &[char], k: usize) -> (r: usize)
    requires
        k <= line@.len(),
    ensures
        r == tick_run(line@, k as nat),
{
    let mut i = k;
    proof {
        lemma_tick_run(line@, k as nat);
    }
    while i < line.len() && line[i] == '`'
        invariant
            k <= i <= line@.len(),
            tick_run(line@, k as nat) == (i - k) + tick_run(line@, i as nat),
        decreases line@.len() - i,
    {
        i += 1;
    }
    i - k
}

/// Where the code span opened by a run of `n` backticks closes, looking
/// from `from`.
fn closing_run_exec(line: &[char], from: usize, n: usize) -> (r: Option<usize>)
    requires
        from <= line@.len(),
    ensures
        r == (match closing_run(line@, from as nat, n as nat) {
            Some(j) => Some(j as usize),
            None => None::<usize>,
        }),
        r matches Some(j) ==> j + n <= line@.len(),
{
    proof {
        lemma_closing_run(line@, from as nat, n as nat);
    }
    let mut i = from;
    while i < line.len()
        invariant
            from <= i <= line@.len(),
            closing_run(line@, from as nat, n as nat) == closing_run(line@, i as nat, n as nat),
        decreases line@.len() - i,
    {
        if line[i] == '`' {
            let m = tick_run_exec(line, i);
            proof {
                lemma_tick_run(line@, i as nat);
            }
            if m == n {
                return Some(i);
            }
            i = i + m;
        } else {
            i += 1;
        }
    }
    None
}

fn rewrite_line_vec(
    line: &[char],
    index: Option<&TreeIndex>,
    base: Option<&[char]>,
    out: &mut Vec<char>,
)
    ensures
        final(out)@ == old(out)@ + rewrite_line_from(line@, 0, opt_index(index), opt_chars(base)),
{
    let ghost idx = opt_index(index);
    let ghost b = opt_chars(base);
    let ghost start = out@;
    let mut k: usize = 0;
    let len = line.len();
    while k < len
        invariant
            len == line@.len(),
            k <= len,
            idx == opt_index(index),
            b == opt_chars(base),
            start + rewrite_line_from(line@, 0, idx, b) == out@ + rewrite_line_from(line@, k as nat, idx, b),
        decreases len - k,
    {
        let c = line[k];
        let ghost prev = out@;
        let ghost k0 = k as nat;
        proof {
            lemma_line_step(line@, k0, idx, b);
        }
        if c == '`' {
            let n = tick_run_exec(line, k);
            proof {
                lemma_tick_run(line@, k0);
                lemma_code_span_end(line@, k0);
            }
            let end = match closing_run_exec(line, k + n, n) {
                Some(j) => j + n,
                None => k + n,
            };
            assert(end == code_span_end(line@, k0));
            let span = slice_vec(line, k, end);
            push_all(out, &span);
            k = end;
            assert(out@ + rewrite_line_from(line@, k as nat, idx, b) =~= prev + (line@.subrange(
                k0 as int,
                k as int,
            ) + rewrite_line_from(line@, k as nat, idx, b)));
            continue;
        }
        if c == '[' && k + 1 < len && line[k + 1] == '[' {
            let rest = slice_vec(line, k + 2, len);
            assert(rest@ =~= line@.skip(k + 2int));
            let parsed = parse_wikilink_vec(rest.as_slice(), index, base);
            assert(parsed matches Some(p) ==> parse_wikilink(rest@, opt_index(index), opt_chars(base)) == Some((p.0 as nat, p.1@)));
            match parsed {
                Some(found) => {
                    let (close, rep) = found;
                    assert(parse_wikilink(rest@, opt_index(index), opt_chars(base)) == Some((close as nat, rep@)));
                    proof {
                        lemma_parse_close(rest@, idx, b);
                        assert(parse_wikilink(rest@, idx, b) == Some((close as nat, rep@)));
                        assert(close + 2 <= rest@.len());
                    }
                    push_all(out, &rep);
                    k = k + 4 + close;
                    assert(out@ + rewrite_line_from(line@, k as nat, idx, b) =~= prev + (rep@ + rewrite_line_from(line@, k as nat, idx, b)));
                    continue;
                },
                None => {},
            }
        }
        out.push(c);
        k += 1;
        assert(out@ + rewrite_line_from(line@, k as nat, idx, b) =~= prev + (seq![c] + rewrite_line_from(line@, k as nat, idx, b)));
    }
    assert(rewrite_line_from(line@, k as nat, idx, b) =~= Seq::<char>::empty());
}

proof fn lemma_rewrite_step(
    s: Seq<char>,
    start: nat,
    f: bool,
    idx: Option<Seq<(Seq<char>, Seq<char>)>>,
    b: Option<Seq<char>>,
)
    requires
        start < s.len(),
    ensures
        ({
            let end = line_end(s, start);
            let line = s.subrange(start as int, end as int);
            rewrite_from(s, start, f, idx, b) == if is_fence_line(line) {
                line + rewrite_from(s, end, !f, idx, b)
            } else if f {
                line + rewrite_from(s, end, f, idx, b)
            } else {
                rewrite_line_from(line, 0, idx, b) + rewrite_from(s, end, f, idx, b)
            }
        }),
{
}

/// The base directory as a spec value, when there is one.
pub open spec fn opt_str(base: Option<&str>) -> Option<Seq<char>> {
    match base {
        Some(b) => Some(b@),
        None => None,
    }
}

/// Rewrites every `[[WikiLink]]` of `content` outside code into a CommonMark
/// link; everything else is copied unchanged.
pub fn rewrite(content: &str, tree_index: Option<&TreeIndex>, base_dir: Option<&str>) -> (r: String)
    ensures
        r@ == spec_rewrite(content@, opt_index(tree_index), opt_str(base_dir)),
{
    let s = chars_of(content);
    let base: Option<Vec<char>> = match base_dir {
        Some(d) => Some(chars_of(d)),
        None => None,
    };
    let base_ref: Option<&[char]> = match &base {
        Some(d) => Some(d.as_slice()),
        None => None,
    };
    let ghost idx = opt_index(tree_index);
    let ghost b = opt_str(base_dir);
    assert(opt_chars(base_ref) == b);
    let mut out: Vec<char> = Vec::new();
    let mut in_fence = false;
    let mut start: usize = 0;
    let len = s.len();
    let fence_a = vec!['`', '`', '`'];
    let fence_b = vec!['~', '~', '~'];
    while start < len
        invariant
            len == s@.len(),
            start <= len,
            opt_chars(base_ref) == b,
            idx == opt_index(tree_index),
            b == opt_str(base_dir),
            fence_a@ == seq!['`', '`', '`'],
            fence_b@ == seq!['~', '~', '~'],
            rewrite_from(s@, 0, false, idx, b) == out@ + rewrite_from(s@, start as nat, in_fence, idx, b),
        decreases len - start,
    {
        let end = match index_of_char_from(&s, '\n', start) {
            Some(i) => i + 1,
            None => len,
        };
        proof {
            lemma_find_char_from_range(s@, '\n', start as int);
        }
        assert(end == line_end(s@, start as nat));
        let line = slice_vec(&s, start, end);
        let trimmed = trim_start_vec(&line);
        let ghost prev = out@;
        let ghost f0 = in_fence;
        proof {
            lemma_rewrite_step(s@, start as nat, f0, idx, b);
            assert(trimmed@ == trim_start(line@));
        }
        assert(line@ == s@.subrange(start as int, end as int));
        if has_prefix(&trimmed, &fence_a) || has_prefix(&trimmed, &fence_b) {
            assert(is_fence_line(line@));
            in_fence = !in_fence;
            push_all(&mut out, &line);
            assert(out@ + rewrite_from(s@, end as nat, in_fence, idx, b) =~= prev + (line@ + rewrite_from(s@, end as nat, in_fence, idx, b)));
        } else if in_fence {
            assert(!is_fence_line(line@));
            push_all(&mut out, &line);
            assert(out@ + rewrite_from(s@, end as nat, in_fence, idx, b) =~= prev + (line@ + rewrite_from(s@, end as nat, in_fence, idx, b)));
        } else {
            assert(!is_fence_line(line@));
            rewrite_line_vec(line.as_slice(), tree_index, base_ref, &mut out);
            assert(out@ == prev + rewrite_line_from(line@, 0, idx, b));
            assert(out@ + rewrite_from(s@, end as nat, in_fence, idx, b) =~= prev + (rewrite_line_from(line@, 0, idx, b) + rewrite_from(s@, end as nat, in_fence, idx, b)));
        }
        start = end;
    }
    string_of(&out)
}

/// Whether `s` holds no `[[`.
pub open spec fn no_wikilink_start(s: Seq<char>) -> bool {
    forall|i: int| 0 <= i && i + 1 < s.len() ==> !(#[trigger] s[i] == '[' && s[i + 1] == '[')
}

proof fn lemma_line_unchanged(
    line: Seq<char>,
    k: nat,
    index: Option<Seq<(Seq<char>, Seq<char>)>>,
    base: Option<Seq<char>>,
)
    requires
        no_wikilink_start(line),
        k <= line.len(),
    ensures
        rewrite_line_from(line, k, index, base) == line.skip(k as int),
    decreases line.len() - k,
{
    if k >= line.len() {
        assert(line.skip(k as int) =~= Seq::<char>::empty());
    } else {
        if line[k as int] == '`' {
            let e = code_span_end(line, k);
            lemma_code_span_end(line, k);
            lemma_line_unchanged(line, e, index, base);
            assert(line.skip(k as int) =~= line.subrange(k as int, e as int) + line.skip(e as int));
        } else {
            if k + 1 < line.len() {
                assert(!(line[k as int] == '[' && line[k + 1int] == '['));
            }
            lemma_line_unchanged(line, k + 1, index, base);
            assert(line.skip(k as int) =~= seq![line[k as int]] + line.skip(k + 1int));
        }
    }
}

proof fn lemma_rewrite_from_unchanged(
    s: Seq<char>,
    start: nat,
    in_fence: bool,
    index: Option<Seq<(Seq<char>, Seq<char>)>>,
    base: Option<Seq<char>>,
)
    requires
        no_wikilink_start(s),
        start <= s.len(),
    ensures
        rewrite_from(s, start, in_fence, index, base) == s.skip(start as int),
    decreases s.len() - start,
{
    if start >= s.len() {
        assert(s.skip(start as int) =~= Seq::<char>::empty());
    } else {
        let end = line_end(s, start);
        lemma_find_char_from_range(s, '\n', start as int);
        let line = s.subrange(start as int, end as int);
        assert forall|i: int| 0 <= i && i + 1 < line.len() implies !(#[trigger] line[i] == '[' && line[i + 1]
            == '[') by {
            assert(line[i] == s[start + i] && line[i + 1] == s[start + i + 1]);
        }
        lemma_line_unchanged(line, 0, index, base);
        assert(line.skip(0) =~= line);
        if is_fence_line(line) {
            lemma_rewrite_from_unchanged(s, end, !in_fence, index, base);
        } else {
            lemma_rewrite_from_unchanged(s, end, in_fence, index, base);
        }
        assert(s.skip(start as int) =~= line + s.skip(end as int));
    }
}

/// Text without any `[[` comes out of the rewrite unchanged, whatever the
/// index and base directory.
pub proof fn lemma_rewrite_without_wikilinks(
    content: Seq<char>,
    index: Option<Seq<(Seq<char>, Seq<char>)>>,
    base: Option<Seq<char>>,
)
    requires
        no_wikilink_start(content),
    ensures
        spec_rewrite(content, index, base) == content,
{
    lemma_rewrite_from_unchanged(content, 0, false, index, base);
    assert(content.skip(0) =~= content);
}

/// The first `c` at or after `from` is at `j` when none comes between.
proof fn lemma_find_char_first(s: Seq<char>, c: char, from: int, j: int)
    requires
        0 <= from <= j < s.len(),
        s[j] == c,
        forall|i: int| from <= i < j ==> s[i] != c,
    ensures
        find_char_from(s, c, from) == Some(j),
    decreases j - from,
{
    if from < j {
        lemma_find_char_first(s, c, from + 1, j);
    }
}

/// A line made of three fence characters and its line break.
pub open spec fn fence_of(fc: char) -> Seq<char> {
    seq![fc, fc, fc, '\n']
}

/// White space at the start of a line is dropped by `trim_start`.
proof fn lemma_trim_indent(ind: Seq<char>, rest: Seq<char>)
    requires
        forall|i: int| 0 <= i < ind.len() ==> is_ws(#[trigger] ind[i]),
        rest.len() > 0 ==> !is_ws(rest[0]),
    ensures
        trim_start(ind + rest) == rest,
    decreases ind.len(),
{
    if ind.len() > 0 {
        assert((ind + rest).skip(1) =~= ind.skip(1) + rest);
        lemma_trim_indent(ind.skip(1), rest);
    } else {
        assert(ind + rest =~= rest);
    }
}

/// A fenced code block, with backticks or with tildes and indented by any
/// white space, is copied as it is: for any line of code between an opening
/// and a closing fence, the rewrite of the block is the block itself,
/// whatever the index and base directory.
pub proof fn lemma_fenced_block_verbatim(
    fc: char,
    ind: Seq<char>,
    code: Seq<char>,
    index: Option<Seq<(Seq<char>, Seq<char>)>>,
    base: Option<Seq<char>>,
)
    requires
        fc == '`' || fc == '~',
        forall|i: int| 0 <= i < ind.len() ==> is_ws(#[trigger] ind[i]) && ind[i] != '\n',
        forall|i: int| 0 <= i < code.len() ==> code[i] != '\n',
    ensures
        ({
            let s = ind + fence_of(fc) + code + seq!['\n'] + ind + fence_of(fc);
            spec_rewrite(s, index, base) == s
        }),
{
    let f = ind + fence_of(fc);
    let s = f + code + seq!['\n'] + f;
    let m = ind.len() as int;
    let n = code.len() as int;
    let e1: int = m + 4;
    let e2: int = e1 + n + 1;
    let e3: int = s.len() as int;
    assert(s =~= ind + fence_of(fc) + code + seq!['\n'] + ind + fence_of(fc));
    assert(e3 == e2 + m + 4);
    assert(!is_ws(fc)) by {
        assert(fc as u32 == 0x60 || fc as u32 == 0x7e);
    }
    lemma_trim_indent(ind, fence_of(fc));
    assert(fence_of(fc).take(3) =~= seq![fc, fc, fc]);
    // The opening fence.
    assert forall|i: int| 0 <= i < e1 - 1 implies s[i] != '\n' by {
        if i < m {
            assert(s[i] == ind[i]);
        }
    }
    lemma_find_char_first(s, '\n', 0, e1 - 1);
    let l1 = s.subrange(0, e1);
    assert(l1 =~= f);
    assert(is_fence_line(l1));
    // The line of code.
    assert forall|i: int| e1 <= i < e2 - 1 implies s[i] != '\n' by {
        assert(s[i] == code[i - e1]);
    }
    lemma_find_char_first(s, '\n', e1, e2 - 1);
    let l2 = s.subrange(e1, e2);
    // The closing fence.
    assert forall|i: int| e2 <= i < e3 - 1 implies s[i] != '\n' by {
        if i < e2 + m {
            assert(s[i] == ind[i - e2]);
        }
    }
    lemma_find_char_first(s, '\n', e2, e3 - 1);
    let l3 = s.subrange(e2, e3);
    assert(l3 =~= f);
    assert(is_fence_line(l3));
    let f2 = !is_fence_line(l2);
    assert(rewrite_from(s, e3 as nat, !f2, index, base) == Seq::<char>::empty());
    assert(rewrite_from(s, e3 as nat, f2, index, base) == Seq::<char>::empty());
    assert(rewrite_from(s, e2 as nat, f2, index, base) == l3);
    assert(rewrite_from(s, e1 as nat, true, index, base) == l2 + l3);
    assert(rewrite_from(s, 0, false, index, base) == l1 + (l2 + l3));
    assert(l1 + (l2 + l3) =~= s);
}

} // verus!
