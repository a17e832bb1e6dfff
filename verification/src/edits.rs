//! The positional text-edit engine: line/character positions are resolved to
//! character offsets by walking lines, the edits of one file are sorted by
//! descending start offset, and the replacements are applied in that order
//! against an in-memory copy, so that lower offsets stay valid while later
//! ones are applied. A range violation aborts the whole batch before
//! anything is returned.

use vstd::prelude::*;

verus! {

use vstd::pervasive::unreached;
use crate::text::{chars_to_string, push_all, str_to_chars};

/// A line/character position inside a file; the character index counts
/// characters on the line, not bytes.
#[derive(Clone, Copy, Debug, PartialEq, Eq, Structural)]
pub struct Position {
    pub line: u32,
    pub character: u32,
}

/// A half-open span between two positions.
#[derive(Clone, Copy, Debug, PartialEq, Eq, Structural)]
pub struct Range {
    pub start: Position,
    pub end: Position,
}

/// One replacement: the text within `range` is replaced by `new_text`.
#[derive(Clone, Debug)]
pub struct TextEdit {
    pub range: Range,
    pub new_text: String,
}

/// A set of per-file replacements: each file name is paired with the edits
/// to apply to it, in no particular order.
#[derive(Clone, Debug)]
pub struct WorkspaceEdit {
    pub changes: Vec<(String, Vec<TextEdit>)>,
}

/// A named, optional transformation offered in response to a diagnostic or
/// a request: its title, its kind, and the workspace edit that realizes it.
#[derive(Clone, Debug)]
pub struct CodeFix {
    pub title: String,
    pub kind: Option<String>,
    pub edit: WorkspaceEdit,
}

/// Why an edit batch was rejected.
#[derive(Clone, Copy, Debug, PartialEq, Eq, Structural)]
pub enum EditError {
    InvalidEdit,
}

/// The first index at or after `i` holding `c`, or the length of `s` where
/// no such index exists.
pub open spec fn find_from(s: Seq<char>, c: char, i: int) -> int
    decreases s.len() - i,
{
    if i < 0 || i >= s.len() {
        s.len() as int
    } else if s[i] == c {
        i
    } else {
        find_from(s, c, i + 1)
    }
}

/// `find_from` names the first occurrence at or after `i`.
pub proof fn lemma_find_from(s: Seq<char>, c: char, i: int)
    requires
        0 <= i <= s.len(),
    ensures
        i <= find_from(s, c, i) <= s.len(),
        find_from(s, c, i) < s.len() ==> s[find_from(s, c, i)] == c,
        forall|j: int| i <= j < find_from(s, c, i) ==> s[j] != c,
    decreases s.len() - i,
{
    if i < s.len() && s[i] != c {
        lemma_find_from(s, c, i + 1);
    }
}

/// Searching from `pos` in `s` is searching from the start of the suffix at
/// `pos`, shifted back.
pub proof fn lemma_find_from_shift(s: Seq<char>, c: char, pos: int)
    requires
        0 <= pos <= s.len(),
    ensures
        find_from(s, c, pos) == pos + find_from(s.skip(pos), c, 0),
{
    let f1 = find_from(s, c, pos);
    let f2 = find_from(s.skip(pos), c, 0);
    lemma_find_from(s, c, pos);
    lemma_find_from(s.skip(pos), c, 0);
    if f1 < s.len() {
        assert(s.skip(pos)[f1 - pos] == s[f1]);
        if f2 < f1 - pos {
            assert(s[pos + f2] == s.skip(pos)[f2]);
        }
    } else {
        if f2 < s.len() - pos {
            assert(s[pos + f2] == s.skip(pos)[f2]);
        }
    }
}

/// The character offset where line `line` starts, or nothing where the text
/// has fewer lines. Lines are separated by `\n`, and a trailing separator
/// opens one more (empty) line.
pub open spec fn line_start(s: Seq<char>, line: int) -> Option<int>
    decreases line,
{
    if line < 0 {
        None
    } else if line == 0 {
        Some(0)
    } else {
        match line_start(s, line - 1) {
            None => None,
            Some(st) => {
                let nl = find_from(s, '\n', st);
                if nl == s.len() {
                    None
                } else {
                    Some(nl + 1)
                }
            },
        }
    }
}

/// Once a line is missing, all later lines are missing.
proof fn lemma_line_start_none(s: Seq<char>, m: int, line: int)
    requires
        line_start(s, m) is None,
        0 <= m <= line,
    ensures
        line_start(s, line) is None,
    decreases line - m,
{
    if line > m {
        lemma_line_start_none(s, m, line - 1);
    }
}

/// The character offset of a line/character position: the start of the line
/// plus the character index, defined only where the line exists and the
/// character index does not pass the end of the line.
pub open spec fn pos_to_off(s: Seq<char>, line: int, chr: int) -> Option<int> {
    match line_start(s, line) {
        None => None,
        Some(st) => {
            let end = find_from(s, '\n', st);
            if chr <= end - st {
                Some(st + chr)
            } else {
                None
            }
        },
    }
}

/// The first index at or after `from` holding `c`, or the length of `v`.
pub fn find_char_from(v: &Vec<char>, c: char, from: usize) -> (r: usize)
    requires
        from <= v@.len(),
    ensures
        r == find_from(v@, c, from as int),
{
    let n: usize = v.len();
    let mut i: usize = from;
    while i < n
        invariant
            from <= i <= n,
            n == v@.len(),
            find_from(v@, c, from as int) == find_from(v@, c, i as int),
        decreases n - i,
    {
        if v[i] == c {
            return i;
        }
        i = i + 1;
    }
    n
}

/// The character offset of `(line, character)` in `v`, if that position
/// exists.
pub fn pos_to_offset(v: &Vec<char>, line: u32, character: u32) -> (r: Option<usize>)
    ensures
        match r {
            Some(o) => pos_to_off(v@, line as int, character as int) == Some(o as int),
            None => pos_to_off(v@, line as int, character as int) is None,
        },
{
    let n: usize = v.len();
    let mut st: usize = 0;
    let mut l: u32 = 0;
    while l < line
        invariant
            l <= line,
            st <= n,
            n == v@.len(),
            line_start(v@, l as int) == Some(st as int),
        decreases line - l,
    {
        let nl = find_char_from(v, '\n', st);
        proof {
            lemma_find_from(v@, '\n', st as int);
        }
        if nl == n {
            proof {
                assert(line_start(v@, l + 1) is None);
                lemma_line_start_none(v@, l + 1, line as int);
            }
            return None;
        }
        st = nl + 1;
        l = l + 1;
    }
    let end = find_char_from(v, '\n', st);
    proof {
        lemma_find_from(v@, '\n', st as int);
    }
    if (character as usize) <= end - st {
        Some(st + character as usize)
    } else {
        None
    }
}

/// A replacement resolved to character offsets: the mathematical form the
/// sorting and application of edits is specified over.
pub struct OffEdit {
    pub start: int,
    pub end: int,
    pub text: Seq<char>,
}

/// One edit resolved against the content `s`: both of its positions as
/// offsets, with its replacement text.
pub open spec fn resolve_edit(s: Seq<char>, e: TextEdit) -> Option<OffEdit> {
    match pos_to_off(s, e.range.start.line as int, e.range.start.character as int) {
        None => None,
        Some(so) => match pos_to_off(s, e.range.end.line as int, e.range.end.character as int) {
            None => None,
            Some(eo) => Some(OffEdit { start: so, end: eo, text: e.new_text@ }),
        },
    }
}

/// All edits resolved against `s`, in their given order; nothing where any
/// single one fails to resolve.
pub open spec fn resolve_all(s: Seq<char>, edits: Seq<TextEdit>) -> Option<Seq<OffEdit>>
    decreases edits.len(),
{
    if edits.len() == 0 {
        Some(Seq::empty())
    } else {
        match resolve_edit(s, edits[0]) {
            None => None,
            Some(g) => match resolve_all(s, edits.skip(1)) {
                None => None,
                Some(rest) => Some(seq![g] + rest),
            },
        }
    }
}

proof fn lemma_resolve_all_snoc(s: Seq<char>, l: Seq<TextEdit>, e: TextEdit)
    ensures
        resolve_all(s, l.push(e)) == match resolve_all(s, l) {
            None => None::<Seq<OffEdit>>,
            Some(v) => match resolve_edit(s, e) {
                None => None::<Seq<OffEdit>>,
                Some(g) => Some(v.push(g)),
            },
        },
    decreases l.len(),
{
    let lp = l.push(e);
    if l.len() == 0 {
        assert(lp[0] == e);
        assert(lp.skip(1) =~= Seq::<TextEdit>::empty());
        assert(resolve_all(s, Seq::<TextEdit>::empty()) == Some(Seq::<OffEdit>::empty()));
        assert(l =~= Seq::<TextEdit>::empty());
        if resolve_edit(s, e) is Some {
            let g = resolve_edit(s, e)->Some_0;
            assert(resolve_all(s, lp) == Some(seq![g] + Seq::<OffEdit>::empty()));
            assert(seq![g] + Seq::<OffEdit>::empty() =~= Seq::<OffEdit>::empty().push(g));
        } else {
            assert(resolve_all(s, lp) is None);
        }
    } else {
        assert(lp[0] == l[0]);
        assert(lp.skip(1) =~= l.skip(1).push(e));
        lemma_resolve_all_snoc(s, l.skip(1), e);
        if resolve_edit(s, l[0]) is Some && resolve_all(s, l.skip(1)) is Some && resolve_edit(
            s,
            e,
        ) is Some {
            let g0 = resolve_edit(s, l[0])->Some_0;
            let rest = resolve_all(s, l.skip(1))->Some_0;
            let g = resolve_edit(s, e)->Some_0;
            assert(seq![g0] + rest.push(g) =~= (seq![g0] + rest).push(g));
        }
    }
}

proof fn lemma_resolve_all_fails(s: Seq<char>, l: Seq<TextEdit>, i: int)
    requires
        0 <= i < l.len(),
        resolve_edit(s, l[i]) is None,
    ensures
        resolve_all(s, l) is None,
    decreases i,
{
    if i > 0 {
        assert(l.skip(1)[i - 1] == l[i]);
        lemma_resolve_all_fails(s, l.skip(1), i - 1);
    }
}

/// `e` inserted into the descending-by-start list `l`, before any element
/// whose start is not larger: among equal starts the inserted edit comes
/// first, which keeps the later-supplied edit after the earlier one when the
/// whole list is built back to front.
pub open spec fn insert_desc(e: OffEdit, l: Seq<OffEdit>) -> Seq<OffEdit>
    decreases l.len(),
{
    if l.len() == 0 {
        seq![e]
    } else if e.start >= l[0].start {
        seq![e] + l
    } else {
        seq![l[0]] + insert_desc(e, l.skip(1))
    }
}

/// The edits sorted by descending start offset; the sort is stable.
pub open spec fn sort_desc(l: Seq<OffEdit>) -> Seq<OffEdit>
    decreases l.len(),
{
    if l.len() == 0 {
        Seq::empty()
    } else {
        insert_desc(l[0], sort_desc(l.skip(1)))
    }
}

/// `s.take(start)`, then the replacement text, then `s.skip(end)`: one
/// replacement applied at resolved offsets.
pub open spec fn apply_one(s: Seq<char>, start: int, end: int, t: Seq<char>) -> Seq<char> {
    s.take(start) + t + s.skip(end)
}

/// The edits applied first to last against the evolving content; nothing as
/// soon as an edit's range does not satisfy `start <= end <= len` against
/// the content it is applied to.
pub open spec fn apply_desc(s: Seq<char>, l: Seq<OffEdit>) -> Option<Seq<char>>
    decreases l.len(),
{
    if l.len() == 0 {
        Some(s)
    } else {
        let e = l[0];
        if 0 <= e.start <= e.end <= s.len() {
            apply_desc(apply_one(s, e.start, e.end, e.text), l.skip(1))
        } else {
            None
        }
    }
}

/// A resolved edit in executable form.
struct ResolvedEdit {
    start: usize,
    end: usize,
    text: Vec<char>,
}

/// The mathematical form of a resolved edit.
spec fn re_view(e: ResolvedEdit) -> OffEdit {
    OffEdit { start: e.start as int, end: e.end as int, text: e.text@ }
}

spec fn re_views(l: Seq<ResolvedEdit>) -> Seq<OffEdit> {
    l.map_values(|e: ResolvedEdit| re_view(e))
}

proof fn lemma_insert_desc_at(e: OffEdit, l: Seq<OffEdit>, p: int)
    requires
        0 <= p <= l.len(),
        forall|j: int| 0 <= j < p ==> l[j].start > e.start,
        p == l.len() || e.start >= l[p].start,
    ensures
        insert_desc(e, l) == l.take(p) + seq![e] + l.skip(p),
    decreases p,
{
    if p == 0 {
        if l.len() == 0 {
            assert(insert_desc(e, l) =~= l.take(0) + seq![e] + l.skip(0));
        } else {
            assert(insert_desc(e, l) == seq![e] + l);
            assert(seq![e] + l =~= l.take(0) + seq![e] + l.skip(0));
        }
    } else {
        assert(l[0].start > e.start);
        assert(forall|j: int| 0 <= j < p - 1 ==> l.skip(1)[j].start > e.start);
        lemma_insert_desc_at(e, l.skip(1), p - 1);
        assert(seq![l[0]] + (l.skip(1).take(p - 1) + seq![e] + l.skip(1).skip(p - 1)) =~= l.take(p)
            + seq![e] + l.skip(p));
    }
}

/// `e` placed into the descending-by-start vector `acc`, in executable
/// form.
fn insert_sorted(acc: Vec<ResolvedEdit>, e: ResolvedEdit) -> (r: Vec<ResolvedEdit>)
    ensures
        re_views(r@) == insert_desc(re_view(e), re_views(acc@)),
{
    let ghost ghost_acc = acc@;
    let mut out: Vec<ResolvedEdit> = acc;
    let n: usize = out.len();
    let mut p: usize = 0;
    while p < n
        invariant_except_break
            p <= n,
            n == out@.len(),
            out@ == ghost_acc,
            forall|j: int| 0 <= j < p ==> re_views(ghost_acc)[j].start > re_view(e).start,
        ensures
            p <= n,
            n == out@.len(),
            out@ == ghost_acc,
            forall|j: int| 0 <= j < p ==> re_views(ghost_acc)[j].start > re_view(e).start,
            p == n || re_view(e).start >= re_views(ghost_acc)[p as int].start,
        decreases n - p,
    {
        if e.start >= out[p].start {
            break ;
        }
        p = p + 1;
    }
    proof {
        lemma_insert_desc_at(re_view(e), re_views(ghost_acc), p as int);
    }
    out.insert(p, e);
    proof {
        assert(re_views(out@) =~= re_views(ghost_acc).take(p as int) + seq![re_view(e)] + re_views(
            ghost_acc,
        ).skip(p as int));
    }
    out
}

/// The edits sorted by descending start offset, stably.
fn sort_edits_desc(edits: Vec<ResolvedEdit>) -> (r: Vec<ResolvedEdit>)
    ensures
        re_views(r@) == sort_desc(re_views(edits@)),
{
    let ghost all = re_views(edits@);
    let mut acc: Vec<ResolvedEdit> = Vec::new();
    let mut src: Vec<ResolvedEdit> = edits;
    proof {
        assert(all.skip(all.len() as int) =~= Seq::<OffEdit>::empty());
        assert(re_views(acc@) =~= Seq::<OffEdit>::empty());
        assert(re_views(src@) =~= all.take(all.len() as int));
    }
    while src.len() > 0
        invariant
            src@.len() <= all.len(),
            re_views(src@) == all.take(src@.len() as int),
            re_views(acc@) == sort_desc(all.skip(src@.len() as int)),
        decreases src@.len(),
    {
        let ghost len = src@.len() as int;
        let ghost old_src = src@;
        let e = match src.pop() {
            Some(e) => e,
            None => unreached(),
        };
        proof {
            assert(re_view(e) == re_views(old_src)[len - 1]);
            assert(re_views(old_src)[len - 1] == all.take(len)[len - 1]);
            assert(re_view(e) == all[len - 1]);
            assert forall|j: int| 0 <= j < len - 1 implies #[trigger] re_views(src@)[j]
                == re_views(old_src)[j] by {
                assert(src@[j] == old_src[j]);
            }
            assert(re_views(src@) =~= all.take(len - 1));
            assert(all.skip(len - 1)[0] == all[len - 1]);
            assert(all.skip(len - 1).skip(1) =~= all.skip(len));
        }
        acc = insert_sorted(acc, e);
    }
    proof {
        assert(all.skip(0) =~= all);
    }
    acc
}

/// One replacement applied at resolved offsets, in executable form.
fn splice(s: &Vec<char>, start: usize, end: usize, t: &Vec<char>) -> (r: Vec<char>)
    requires
        start <= end <= s@.len(),
    ensures
        r@ == apply_one(s@, start as int, end as int, t@),
{
    let mut r: Vec<char> = Vec::new();
    let mut i: usize = 0;
    while i < start
        invariant
            i <= start <= end <= s@.len(),
            r@ == s@.subrange(0, i as int),
        decreases start - i,
    {
        r.push(s[i]);
        proof {
            assert(s@.subrange(0, i + 1) =~= s@.subrange(0, i as int).push(s@[i as int]));
        }
        i = i + 1;
    }
    push_all(&mut r, t);
    let n: usize = s.len();
    let mut j: usize = end;
    proof {
        assert(r@ =~= s@.subrange(0, start as int) + t@ + s@.subrange(end as int, end as int));
    }
    while j < n
        invariant
            end <= j <= n,
            n == s@.len(),
            start <= end <= n,
            r@ == s@.subrange(0, start as int) + t@ + s@.subrange(end as int, j as int),
        decreases n - j,
    {
        r.push(s[j]);
        proof {
            assert(s@.subrange(end as int, j + 1) =~= s@.subrange(end as int, j as int).push(
                s@[j as int],
            ));
            assert(s@.subrange(0, start as int) + t@ + s@.subrange(end as int, j as int).push(
                s@[j as int],
            ) =~= (s@.subrange(0, start as int) + t@ + s@.subrange(end as int, j as int)).push(
                s@[j as int],
            ));
        }
        j = j + 1;
    }
    proof {
        assert(r@ =~= apply_one(s@, start as int, end as int, t@));
    }
    r
}

/// Applies the edits of one file against its content: every position is
/// resolved to a character offset against the given content, the edits are
/// sorted by descending start offset and applied in that order, and any
/// unresolvable position or range violation rejects the whole batch before
/// anything is returned.
pub fn apply_edits_to_content(content: &str, edits: &Vec<TextEdit>) -> (r: Result<
    String,
    EditError,
>)
    ensures
        match r {
            Ok(out) => {
                &&& resolve_all(content@, edits@) is Some
                &&& apply_desc(content@, sort_desc(resolve_all(content@, edits@)->Some_0)) == Some(
                    out@,
                )
            },
            Err(e) => {
                &&& e is InvalidEdit
                &&& (resolve_all(content@, edits@) is None || apply_desc(
                    content@,
                    sort_desc(resolve_all(content@, edits@)->Some_0),
                ) is None)
            },
        },
{
    let s = str_to_chars(content);
    let n_edits: usize = edits.len();
    let mut resolved: Vec<ResolvedEdit> = Vec::new();
    let mut i: usize = 0;
    proof {
        assert(edits@.take(0) =~= Seq::<TextEdit>::empty());
        assert(re_views(resolved@) =~= Seq::<OffEdit>::empty());
    }
    while i < n_edits
        invariant
            i <= n_edits,
            n_edits == edits@.len(),
            s@ == content@,
            resolve_all(content@, edits@.take(i as int)) == Some(re_views(resolved@)),
        decreases n_edits - i,
    {
        let e: &TextEdit = &edits[i];
        let so = pos_to_offset(&s, e.range.start.line, e.range.start.character);
        let eo = pos_to_offset(&s, e.range.end.line, e.range.end.character);
        proof {
            lemma_resolve_all_snoc(content@, edits@.take(i as int), edits@[i as int]);
            assert(edits@.take(i + 1) =~= edits@.take(i as int).push(edits@[i as int]));
        }
        match (so, eo) {
            (Some(a), Some(b)) => {
                let text = str_to_chars(e.new_text.as_str());
                let ghost prev = re_views(resolved@);
                resolved.push(ResolvedEdit { start: a, end: b, text });
                proof {
                    assert(resolve_edit(content@, edits@[i as int]) == Some(
                        OffEdit { start: a as int, end: b as int, text: edits@[i as int].new_text@ },
                    ));
                    assert(re_views(resolved@) =~= prev.push(
                        OffEdit { start: a as int, end: b as int, text: edits@[i as int].new_text@ },
                    ));
                }
            },
            _ => {
                proof {
                    assert(resolve_edit(content@, edits@[i as int]) is None);
                    lemma_resolve_all_fails(content@, edits@, i as int);
                }
                return Err(EditError::InvalidEdit);
            },
        }
        i = i + 1;
    }
    proof {
        assert(edits@.take(n_edits as int) =~= edits@);
    }
    let ghost offs = re_views(resolved@);
    let sorted = sort_edits_desc(resolved);
    let ghost sorted_views = sort_desc(offs);
    let mut cur: Vec<char> = s;
    let m: usize = sorted.len();
    let mut k: usize = 0;
    proof {
        assert(sorted_views.skip(0) =~= sorted_views);
    }
    while k < m
        invariant
            k <= m,
            m == sorted@.len(),
            re_views(sorted@) == sorted_views,
            resolve_all(content@, edits@) == Some(offs),
            sorted_views == sort_desc(offs),
            apply_desc(content@, sorted_views) == apply_desc(cur@, sorted_views.skip(k as int)),
        decreases m - k,
    {
        proof {
            assert(sorted_views.skip(k as int)[0] == re_view(sorted@[k as int]));
            assert(sorted_views.skip(k as int).skip(1) =~= sorted_views.skip(k + 1));
        }
        let e: &ResolvedEdit = &sorted[k];
        if e.start <= e.end && e.end <= cur.len() {
            let next = splice(&cur, e.start, e.end, &e.text);
            cur = next;
        } else {
            proof {
                assert(apply_desc(cur@, sorted_views.skip(k as int)) is None);
            }
            return Err(EditError::InvalidEdit);
        }
        k = k + 1;
    }
    proof {
        assert(sorted_views.skip(m as int) =~= Seq::<OffEdit>::empty());
    }
    Ok(chars_to_string(&cur))
}

/// Two edits on disjoint regions of one file, supplied in either order, are
/// sorted furthest-first and give the same result as replacing the two
/// regions directly.
pub proof fn lemma_two_disjoint_edits(s: Seq<char>, e1: OffEdit, e2: OffEdit)
    requires
        0 <= e1.start <= e1.end <= e2.start <= e2.end <= s.len(),
        e1.start < e2.start,
    ensures
        sort_desc(seq![e1, e2]) == seq![e2, e1],
        sort_desc(seq![e2, e1]) == seq![e2, e1],
        apply_desc(s, seq![e2, e1]) == Some(
            s.subrange(0, e1.start) + e1.text + s.subrange(e1.end, e2.start) + e2.text + s.subrange(
                e2.end,
                s.len() as int,
            ),
        ),
{
    let both = seq![e2, e1];
    let empty = Seq::<OffEdit>::empty();
    assert(seq![e1, e2].skip(1) =~= seq![e2]);
    assert(seq![e2, e1].skip(1) =~= seq![e1]);
    assert(seq![e2].skip(1) =~= empty);
    assert(seq![e1].skip(1) =~= empty);
    assert(sort_desc(empty) == empty);
    assert(seq![e1, e2][0] == e1 && seq![e2, e1][0] == e2 && seq![e2][0] == e2 && seq![e1][0]
        == e1);
    assert(insert_desc(e2, empty) == seq![e2]);
    assert(insert_desc(e1, empty) == seq![e1]);
    assert(sort_desc(seq![e2]) == insert_desc(e2, sort_desc(seq![e2].skip(1))));
    assert(sort_desc(seq![e2]) == seq![e2]);
    assert(sort_desc(seq![e1]) == seq![e1]);
    assert(sort_desc(seq![e1, e2]) == insert_desc(e1, sort_desc(seq![e1, e2].skip(1))));
    assert(insert_desc(e1, seq![e2]) == seq![e2] + insert_desc(e1, seq![e2].skip(1)));
    assert(seq![e2] + insert_desc(e1, empty) =~= seq![e2, e1]);
    assert(sort_desc(seq![e1, e2]) == seq![e2, e1]);
    assert(sort_desc(seq![e2, e1]) == insert_desc(e2, sort_desc(seq![e2, e1].skip(1))));
    assert(insert_desc(e2, seq![e1]) == seq![e2] + seq![e1]);
    assert(seq![e2] + seq![e1] =~= seq![e2, e1]);
    assert(sort_desc(seq![e2, e1]) == seq![e2, e1]);
    let s1 = apply_one(s, e2.start, e2.end, e2.text);
    assert(s1.len() == e2.start + e2.text.len() + (s.len() - e2.end));
    assert(apply_desc(s, both) == apply_desc(s1, seq![e1]));
    assert(apply_desc(s1, seq![e1]) == apply_desc(
        apply_one(s1, e1.start, e1.end, e1.text),
        Seq::empty(),
    ));
    assert(apply_one(s1, e1.start, e1.end, e1.text) =~= s.subrange(0, e1.start) + e1.text
        + s.subrange(e1.end, e2.start) + e2.text + s.subrange(e2.end, s.len() as int));
}

} // verus!
