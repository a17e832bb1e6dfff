//! Symbol resolution and disambiguation: candidates found by a workspace
//! search are deduplicated by name and kind, the best definition of each
//! group is chosen by a location heuristic over its file path, and an
//! optional file hint narrows what is left. Anything still ambiguous is
//! handed back whole, never guessed among.

use vstd::prelude::*;

verus! {

use vstd::pervasive::VecAdditionalExecFns;
use crate::edits::Range;
use crate::text::{ascii_lower, contains_chars, contains_sub, count_char, ends_with,
    ends_with_chars, lower_chars, str_to_chars};

/// One symbol found by a workspace search: its name, its kind (the numeric
/// code of the protocol), where its definition sits, and the container it
/// is reported under.
#[derive(Clone, Debug)]
pub struct SymbolCandidate {
    pub name: String,
    pub kind: u32,
    pub path: String,
    pub range: Range,
    pub container_name: Option<String>,
}

/// Why a symbol query returned no single definition.
#[derive(Clone, Debug)]
pub enum ResolveError {
    NotFound,
    Ambiguous(Vec<SymbolCandidate>),
}

impl SymbolCandidate {
    /// A copy equal to this candidate.
    pub fn duplicate(&self) -> (r: SymbolCandidate)
        ensures
            r == *self,
    {
        SymbolCandidate {
            name: self.name.clone(),
            kind: self.kind,
            path: self.path.clone(),
            range: self.range,
            container_name: match &self.container_name {
                Some(s) => Some(s.clone()),
                None => None,
            },
        }
    }
}

/// Two candidates name the same thing: same name and same kind.
pub open spec fn same_key(a: SymbolCandidate, b: SymbolCandidate) -> bool {
    a.name@ == b.name@ && a.kind == b.kind
}

/// The location score of a definition path, computed on its folded form:
/// a primary source directory and a recognized source extension raise it, a
/// test, spec, generated or build location lowers it, every level of depth
/// costs a little, and a crate root or module file is preferred.
pub open spec fn spec_score(lp: Seq<char>) -> int {
    100 + (if contains_sub(lp, "/src/"@) || contains_sub(lp, "\\src\\"@) {
        50int
    } else {
        0int
    }) - (if contains_sub(lp, "test"@) || contains_sub(lp, "spec"@) {
        30int
    } else {
        0int
    }) - (if contains_sub(lp, "generated"@) || contains_sub(lp, "build"@) || contains_sub(
        lp,
        "target"@,
    ) {
        40int
    } else {
        0int
    }) + (if ends_with(lp, ".rs"@) || ends_with(lp, ".ts"@) || ends_with(lp, ".js"@) || ends_with(
        lp,
        ".py"@,
    ) || ends_with(lp, ".java"@) || ends_with(lp, ".cpp"@) || ends_with(lp, ".c"@) || ends_with(
        lp,
        ".h"@,
    ) {
        20int
    } else {
        0int
    }) - 2 * (count_char(lp, '/') + count_char(lp, '\\')) + (if ends_with(lp, "lib.rs"@)
        || ends_with(lp, "main.rs"@) {
        30int
    } else if ends_with(lp, "mod.rs"@) {
        10int
    } else {
        0int
    })
}

/// The score of a candidate, over the case-folded characters of its path.
pub open spec fn score_of(c: SymbolCandidate) -> int {
    spec_score(lower_chars(c.path@))
}

/// The location score of a candidate.
pub fn calculate_symbol_score(symbol: &SymbolCandidate) -> (r: i128)
    ensures
        r == score_of(*symbol),
{
    let chars = str_to_chars(symbol.path.as_str());
    let lp = ascii_lower(&chars);
    let mut score: i128 = 100;
    if contains_chars(&lp, &str_to_chars("/src/")) || contains_chars(&lp, &str_to_chars("\\src\\"))
    {
        score = score + 50;
    }
    if contains_chars(&lp, &str_to_chars("test")) || contains_chars(&lp, &str_to_chars("spec")) {
        score = score - 30;
    }
    if contains_chars(&lp, &str_to_chars("generated")) || contains_chars(
        &lp,
        &str_to_chars("build"),
    ) || contains_chars(&lp, &str_to_chars("target")) {
        score = score - 40;
    }
    if ends_with_chars(&lp, &str_to_chars(".rs")) || ends_with_chars(&lp, &str_to_chars(".ts"))
        || ends_with_chars(&lp, &str_to_chars(".js")) || ends_with_chars(
        &lp,
        &str_to_chars(".py"),
    ) || ends_with_chars(&lp, &str_to_chars(".java")) || ends_with_chars(
        &lp,
        &str_to_chars(".cpp"),
    ) || ends_with_chars(&lp, &str_to_chars(".c")) || ends_with_chars(&lp, &str_to_chars(".h")) {
        score = score + 20;
    }
    let slashes = count_char_i128(&lp, '/');
    let backslashes = count_char_i128(&lp, '\\');
    score = score - 2 * (slashes + backslashes);
    if ends_with_chars(&lp, &str_to_chars("lib.rs")) || ends_with_chars(
        &lp,
        &str_to_chars("main.rs"),
    ) {
        score = score + 30;
    } else if ends_with_chars(&lp, &str_to_chars("mod.rs")) {
        score = score + 10;
    }
    score
}

/// The number of occurrences of `c` in `v`, widened.
fn count_char_i128(v: &Vec<char>, c: char) -> (r: i128)
    ensures
        r == count_char(v@, c),
        0 <= r < 0x10000000000000000i128,
{
    proof {
        crate::text::lemma_count_char_bound(v@, c);
    }
    let n = crate::text::count_char_in(v, c);
    n as i128
}

/// One deduplication step: a candidate whose name and kind are already
/// represented replaces the representative only where it scores strictly
/// higher; a new name and kind opens a new group at the end.
pub open spec fn dedup_step(acc: Seq<SymbolCandidate>, c: SymbolCandidate) -> Seq<
    SymbolCandidate,
> {
    if exists|i: int| 0 <= i < acc.len() && same_key(acc[i], c) {
        let i = choose|i: int| 0 <= i < acc.len() && same_key(acc[i], c);
        if score_of(c) > score_of(acc[i]) {
            acc.update(i, c)
        } else {
            acc
        }
    } else {
        acc.push(c)
    }
}

/// The candidates deduplicated in order: one representative per name and
/// kind, the highest-scoring of its group, ties going to the earliest seen.
pub open spec fn dedup_rec(l: Seq<SymbolCandidate>) -> Seq<SymbolCandidate>
    decreases l.len(),
{
    if l.len() == 0 {
        Seq::empty()
    } else {
        dedup_step(dedup_rec(l.drop_last()), l.last())
    }
}

/// Deduplicated lists never hold two entries with one name and kind.
proof fn lemma_dedup_unique(l: Seq<SymbolCandidate>)
    ensures
        forall|i: int, j: int|
            #![trigger dedup_rec(l)[i], dedup_rec(l)[j]]
            0 <= i < dedup_rec(l).len() && 0 <= j < dedup_rec(l).len() && i != j ==> !same_key(
                dedup_rec(l)[i],
                dedup_rec(l)[j],
            ),
    decreases l.len(),
{
    if l.len() > 0 {
        lemma_dedup_unique(l.drop_last());
        let acc = dedup_rec(l.drop_last());
        let c = l.last();
        if exists|i: int| 0 <= i < acc.len() && same_key(acc[i], c) {
            let i0 = choose|i: int| 0 <= i < acc.len() && same_key(acc[i], c);
            if score_of(c) > score_of(acc[i0]) {
                assert forall|i: int, j: int|
                    #![trigger dedup_rec(l)[i], dedup_rec(l)[j]]
                    0 <= i < dedup_rec(l).len() && 0 <= j < dedup_rec(l).len() && i
                        != j implies !same_key(dedup_rec(l)[i], dedup_rec(l)[j]) by {
                    assert(dedup_rec(l) == acc.update(i0, c));
                    assert(same_key(acc[i0], c));
                    if i == i0 {
                        assert(dedup_rec(l)[j] == acc[j]);
                        if same_key(dedup_rec(l)[i], dedup_rec(l)[j]) {
                            assert(same_key(acc[i0], acc[j]));
                        }
                    } else if j == i0 {
                        assert(dedup_rec(l)[i] == acc[i]);
                        if same_key(dedup_rec(l)[i], dedup_rec(l)[j]) {
                            assert(same_key(acc[i], acc[i0]));
                        }
                    } else {
                        assert(dedup_rec(l)[i] == acc[i] && dedup_rec(l)[j] == acc[j]);
                    }
                }
            }
        }
    }
}

/// The candidates with one representative per name and kind: within a
/// group the highest-scoring location wins, ties going to the first seen,
/// and groups keep the order in which their first member appeared.
pub fn deduplicate_symbols(candidates: &Vec<SymbolCandidate>) -> (r: Vec<SymbolCandidate>)
    ensures
        r@ == dedup_rec(candidates@),
{
    let n: usize = candidates.len();
    let mut acc: Vec<SymbolCandidate> = Vec::new();
    let mut i: usize = 0;
    proof {
        assert(candidates@.take(0) =~= Seq::<SymbolCandidate>::empty());
    }
    while i < n
        invariant
            i <= n,
            n == candidates@.len(),
            acc@ == dedup_rec(candidates@.take(i as int)),
        decreases n - i,
    {
        proof {
            assert(candidates@.take(i + 1).drop_last() =~= candidates@.take(i as int));
            assert(candidates@.take(i + 1).last() == candidates@[i as int]);
            lemma_dedup_unique(candidates@.take(i as int));
        }
        let c: &SymbolCandidate = &candidates[i];
        let m: usize = acc.len();
        let mut j: usize = 0;
        let mut found: bool = false;
        while j < m
            invariant_except_break
                j <= m,
                m == acc@.len(),
                !found,
                0 <= i < candidates@.len(),
                *c == candidates@[i as int],
                forall|k: int| 0 <= k < j ==> !same_key(acc@[k], candidates@[i as int]),
            ensures
                m == acc@.len(),
                0 <= i < candidates@.len(),
                *c == candidates@[i as int],
                found ==> j < m && same_key(acc@[j as int], candidates@[i as int]),
                !found ==> forall|k: int|
                    0 <= k < m ==> !same_key(acc@[k], candidates@[i as int]),
            decreases m - j,
        {
            let names_equal: bool = acc[j].name == c.name;
            if names_equal && acc[j].kind == c.kind {
                found = true;
                break ;
            }
            j = j + 1;
        }
        if found {
            proof {
                let i0 = choose|k: int|
                    0 <= k < acc@.len() && same_key(acc@[k], candidates@[i as int]);
                if i0 != j {
                    assert(same_key(acc@[i0], acc@[j as int]));
                }
                assert(i0 == j);
            }
            let better: bool = {
                let sc = calculate_symbol_score(c);
                let old_sc = calculate_symbol_score(&acc[j]);
                sc > old_sc
            };
            if better {
                acc.set(j, c.duplicate());
            }
        } else {
            acc.push(c.duplicate());
        }
        i = i + 1;
    }
    proof {
        assert(candidates@.take(n as int) =~= candidates@);
    }
    acc
}

/// The candidates whose path holds the hint, in order.
pub open spec fn hint_filter(d: Seq<SymbolCandidate>, h: Seq<char>) -> Seq<SymbolCandidate>
    decreases d.len(),
{
    if d.len() == 0 {
        Seq::empty()
    } else {
        hint_filter(d.drop_last(), h) + (if contains_sub(d.last().path@, h) {
            seq![d.last()]
        } else {
            Seq::empty()
        })
    }
}

/// The candidates of `d` whose path holds `h`.
fn filter_by_hint(d: &Vec<SymbolCandidate>, h: &Vec<char>) -> (r: Vec<SymbolCandidate>)
    ensures
        r@ == hint_filter(d@, h@),
{
    let n: usize = d.len();
    let mut r: Vec<SymbolCandidate> = Vec::new();
    let mut i: usize = 0;
    proof {
        assert(d@.take(0) =~= Seq::<SymbolCandidate>::empty());
    }
    while i < n
        invariant
            i <= n,
            n == d@.len(),
            r@ == hint_filter(d@.take(i as int), h@),
        decreases n - i,
    {
        proof {
            assert(d@.take(i + 1).drop_last() =~= d@.take(i as int));
            assert(d@.take(i + 1).last() == d@[i as int]);
        }
        let path_chars = str_to_chars(d[i].path.as_str());
        let ghost before = r@;
        if contains_chars(&path_chars, h) {
            r.push(d[i].duplicate());
            proof {
                assert(r@ =~= before + seq![d@[i as int]]);
            }
        } else {
            proof {
                assert(r@ =~= before + Seq::<SymbolCandidate>::empty());
            }
        }
        i = i + 1;
    }
    proof {
        assert(d@.take(n as int) =~= d@);
    }
    r
}

/// Resolves a workspace-symbol query from its candidate list: no candidate
/// is a miss; a single candidate, before or after deduplication, is
/// returned directly; with several left, a file hint that narrows them to
/// exactly one resolves it; anything else is ambiguous and the whole
/// deduplicated list is handed back for the caller to disambiguate.
pub fn resolve_symbol_in_project(candidates: &Vec<SymbolCandidate>, file_hint: Option<&String>) -> (r: Result<
    SymbolCandidate,
    ResolveError,
>)
    ensures
        match r {
            Ok(c) => {
                ||| (candidates@.len() == 1 && c == candidates@[0])
                ||| (candidates@.len() > 1 && dedup_rec(candidates@).len() == 1 && c == dedup_rec(
                    candidates@,
                )[0])
                ||| (candidates@.len() > 1 && dedup_rec(candidates@).len() > 1 && (
                file_hint matches Some(h) && hint_filter(dedup_rec(candidates@), h@).len() == 1 && c
                    == hint_filter(dedup_rec(candidates@), h@)[0]))
            },
            Err(e) => match e {
                ResolveError::NotFound => candidates@.len() == 0,
                ResolveError::Ambiguous(list) => {
                    &&& candidates@.len() > 1
                    &&& dedup_rec(candidates@).len() > 1
                    &&& list@ == dedup_rec(candidates@)
                    &&& (file_hint matches Some(h) ==> hint_filter(dedup_rec(candidates@), h@).len()
                        != 1)
                },
            },
        },
{
    if candidates.len() == 0 {
        return Err(ResolveError::NotFound);
    }
    if candidates.len() == 1 {
        return Ok(candidates[0].duplicate());
    }
    let deduped = deduplicate_symbols(candidates);
    if deduped.len() == 1 {
        return Ok(deduped[0].duplicate());
    }
    match file_hint {
        Some(h) => {
            let h_chars = str_to_chars(h.as_str());
            let narrowed = filter_by_hint(&deduped, &h_chars);
            if narrowed.len() == 1 {
                return Ok(narrowed[0].duplicate());
            }
            Err(ResolveError::Ambiguous(deduped))
        },
        None => Err(ResolveError::Ambiguous(deduped)),
    }
}

} // verus!
