//! Pattern extraction from free-text progress messages: the crate or item
//! name that follows an indexing, building or loading keyword, and a
//! `current/total` count pair. Extraction failure leaves the fields empty
//! and is never an error. The patterns are stated as leftmost-match
//! definitions over character sequences and the scanners are proved against
//! them.

use vstd::prelude::*;

verus! {

use crate::text::{dec_value, is_digit, is_match_at, match_at, parse_u32, str_to_chars};

/// A whitespace character of the patterns: blank, tab, or a line break.
pub open spec fn is_space(c: char) -> bool {
    c == ' ' || c == '\t' || c == '\n' || c == '\r'
}

/// A word character of the patterns: a letter, a digit, an underscore or a
/// hyphen.
pub open spec fn is_word_char(c: char) -> bool {
    (97 <= c as int && c as int <= 122) || (65 <= c as int && c as int <= 90) || (48 <= c as int
        && c as int <= 57) || c == '_' || c == '-'
}

/// The executable test of `is_space`.
fn space_char(c: char) -> (r: bool)
    ensures
        r == is_space(c),
{
    c == ' ' || c == '\t' || c == '\n' || c == '\r'
}

/// The executable test of `is_word_char`.
fn word_char(c: char) -> (r: bool)
    ensures
        r == is_word_char(c),
{
    let x = c as u32;
    (97 <= x && x <= 122) || (65 <= x && x <= 90) || (48 <= x && x <= 57) || c == '_' || c == '-'
}

/// The end of the whitespace run starting at `i`.
pub open spec fn space_end(s: Seq<char>, i: int) -> int
    decreases s.len() - i,
{
    if i < 0 || i >= s.len() {
        s.len() as int
    } else if !is_space(s[i]) {
        i
    } else {
        space_end(s, i + 1)
    }
}

/// The end of the word-character run starting at `i`.
pub open spec fn word_end(s: Seq<char>, i: int) -> int
    decreases s.len() - i,
{
    if i < 0 || i >= s.len() {
        s.len() as int
    } else if !is_word_char(s[i]) {
        i
    } else {
        word_end(s, i + 1)
    }
}

proof fn lemma_space_end(s: Seq<char>, i: int)
    requires
        0 <= i <= s.len(),
    ensures
        i <= space_end(s, i) <= s.len(),
        forall|j: int| i <= j < space_end(s, i) ==> is_space(s[j]),
        space_end(s, i) < s.len() ==> !is_space(s[space_end(s, i)]),
    decreases s.len() - i,
{
    if i < s.len() && is_space(s[i]) {
        lemma_space_end(s, i + 1);
    }
}

proof fn lemma_word_end(s: Seq<char>, i: int)
    requires
        0 <= i <= s.len(),
    ensures
        i <= word_end(s, i) <= s.len(),
        forall|j: int| i <= j < word_end(s, i) ==> is_word_char(s[j]),
        word_end(s, i) < s.len() ==> !is_word_char(s[word_end(s, i)]),
    decreases s.len() - i,
{
    if i < s.len() && is_word_char(s[i]) {
        lemma_word_end(s, i + 1);
    }
}

/// The end of the whitespace run starting at `from`.
fn scan_space_end(v: &Vec<char>, from: usize) -> (r: usize)
    requires
        from <= v@.len(),
    ensures
        r == space_end(v@, from as int),
{
    let n: usize = v.len();
    let mut i: usize = from;
    while i < n
        invariant
            from <= i <= n,
            n == v@.len(),
            space_end(v@, from as int) == space_end(v@, i as int),
        decreases n - i,
    {
        if !space_char(v[i]) {
            return i;
        }
        i = i + 1;
    }
    n
}

/// The end of the word run starting at `from`.
fn scan_word_end(v: &Vec<char>, from: usize) -> (r: usize)
    requires
        from <= v@.len(),
    ensures
        r == word_end(v@, from as int),
{
    let n: usize = v.len();
    let mut i: usize = from;
    while i < n
        invariant
            from <= i <= n,
            n == v@.len(),
            word_end(v@, from as int) == word_end(v@, i as int),
        decreases n - i,
    {
        if !word_char(v[i]) {
            return i;
        }
        i = i + 1;
    }
    n
}

/// The length of the keyword standing at `i`, or zero: the patterns look
/// for `indexing`, `building` or `loading`.
pub open spec fn keyword_len_at(s: Seq<char>, i: int) -> int {
    if is_match_at(s, "indexing"@, i) {
        8
    } else if is_match_at(s, "building"@, i) {
        8
    } else if is_match_at(s, "loading"@, i) {
        7
    } else {
        0
    }
}

/// A crate-name pattern matches at `i`: a keyword, at least one whitespace
/// character, then at least one word character.
pub open spec fn crate_match_at(s: Seq<char>, i: int) -> bool {
    keyword_len_at(s, i) > 0 && {
        let after = i + keyword_len_at(s, i);
        let w = space_end(s, after);
        w > after && w < s.len() && is_word_char(s[w])
    }
}

/// The leftmost crate-name capture at or after `i`: the word run after the
/// first keyword-and-whitespace occurrence.
pub open spec fn crate_capture_from(s: Seq<char>, i: int) -> Option<Seq<char>>
    decreases s.len() - i,
{
    if i < 0 || i >= s.len() {
        None
    } else if crate_match_at(s, i) {
        let after = i + keyword_len_at(s, i);
        let w = space_end(s, after);
        Some(s.subrange(w, word_end(s, w)))
    } else {
        crate_capture_from(s, i + 1)
    }
}

/// The crate or item name embedded in a progress message, if any.
pub open spec fn crate_capture(s: Seq<char>) -> Option<Seq<char>> {
    crate_capture_from(s, 0)
}

/// The length of the keyword standing at `i` in `v`, or zero.
fn keyword_at(v: &Vec<char>, i: usize) -> (r: usize)
    requires
        i <= v@.len(),
    ensures
        r == keyword_len_at(v@, i as int),
{
    proof {
        reveal_strlit("indexing");
        reveal_strlit("building");
        reveal_strlit("loading");
    }
    let kw_indexing = str_to_chars("indexing");
    let kw_building = str_to_chars("building");
    let kw_loading = str_to_chars("loading");
    let n: usize = v.len();
    if n >= 8 && i <= n - 8 && match_at(v, &kw_indexing, i) {
        8
    } else if n >= 8 && i <= n - 8 && match_at(v, &kw_building, i) {
        8
    } else if n >= 7 && i <= n - 7 && match_at(v, &kw_loading, i) {
        7
    } else {
        proof {
            assert(!is_match_at(v@, "indexing"@, i as int));
            assert(!is_match_at(v@, "building"@, i as int));
            assert(!is_match_at(v@, "loading"@, i as int));
        }
        0
    }
}

/// The leftmost crate or item name embedded in the message, as the capture
/// definition gives it.
pub fn extract_crate_name(v: &Vec<char>) -> (r: Option<Vec<char>>)
    ensures
        match r {
            Some(c) => crate_capture(v@) == Some(c@),
            None => crate_capture(v@) is None,
        },
{
    let n: usize = v.len();
    let mut i: usize = 0;
    while i < n
        invariant
            i <= n,
            n == v@.len(),
            crate_capture(v@) == crate_capture_from(v@, i as int),
        decreases n - i,
    {
        let klen = keyword_at(v, i);
        if klen > 0 {
            proof {
                reveal_strlit("indexing");
                reveal_strlit("building");
                reveal_strlit("loading");
                assert(keyword_len_at(v@, i as int) > 0);
                assert(is_match_at(v@, "indexing"@, i as int) || is_match_at(
                    v@,
                    "building"@,
                    i as int,
                ) || is_match_at(v@, "loading"@, i as int));
                assert(i + klen <= n);
            }
            let after: usize = i + klen;
            proof {
                lemma_space_end(v@, after as int);
            }
            let w = scan_space_end(v, after);
            if w > after && w < n && word_char(v[w]) {
                proof {
                    assert(crate_match_at(v@, i as int));
                    lemma_word_end(v@, w as int);
                }
                let e = scan_word_end(v, w);
                let mut cap: Vec<char> = Vec::new();
                let mut k: usize = w;
                while k < e
                    invariant
                        w <= k <= e <= v@.len(),
                        cap@ == v@.subrange(w as int, k as int),
                    decreases e - k,
                {
                    cap.push(v[k]);
                    proof {
                        assert(v@.subrange(w as int, k + 1) =~= v@.subrange(w as int, k as int).push(
                            v@[k as int],
                        ));
                    }
                    k = k + 1;
                }
                return Some(cap);
            }
            proof {
                assert(!crate_match_at(v@, i as int));
            }
        } else {
            proof {
                assert(!crate_match_at(v@, i as int));
            }
        }
        i = i + 1;
    }
    None
}

/// A count pattern stands at `j`: a slash with a digit on each side.
pub open spec fn count_match_at(s: Seq<char>, j: int) -> bool {
    1 <= j && j + 1 < s.len() && s[j] == '/' && is_digit(s[j - 1]) && is_digit(s[j + 1])
}

/// The leftmost count pattern at or after `j`, or the length of `s`.
pub open spec fn slash_pos_from(s: Seq<char>, j: int) -> int
    decreases s.len() - j,
{
    if j < 0 || j >= s.len() {
        s.len() as int
    } else if count_match_at(s, j) {
        j
    } else {
        slash_pos_from(s, j + 1)
    }
}

/// The start of the maximal digit run that ends at `j` (exclusive).
pub open spec fn digit_start(s: Seq<char>, j: int) -> int
    decreases j,
{
    if j <= 0 {
        0
    } else if is_digit(s[j - 1]) {
        digit_start(s, j - 1)
    } else {
        j
    }
}

/// The end of the digit run starting at `i`.
pub open spec fn digit_end(s: Seq<char>, i: int) -> int
    decreases s.len() - i,
{
    if i < 0 || i >= s.len() {
        s.len() as int
    } else if !is_digit(s[i]) {
        i
    } else {
        digit_end(s, i + 1)
    }
}

proof fn lemma_digit_start(s: Seq<char>, j: int)
    requires
        0 <= j <= s.len(),
    ensures
        0 <= digit_start(s, j) <= j,
        forall|k: int| digit_start(s, j) <= k < j ==> is_digit(s[k]),
    decreases j,
{
    if j > 0 && is_digit(s[j - 1]) {
        lemma_digit_start(s, j - 1);
    }
}

proof fn lemma_digit_end(s: Seq<char>, i: int)
    requires
        0 <= i <= s.len(),
    ensures
        i <= digit_end(s, i) <= s.len(),
        forall|k: int| i <= k < digit_end(s, i) ==> is_digit(s[k]),
    decreases s.len() - i,
{
    if i < s.len() && is_digit(s[i]) {
        lemma_digit_end(s, i + 1);
    }
}

/// The two digit strings of the leftmost `current/total` pattern of the
/// message: the maximal digit run before the slash and the maximal digit
/// run after it.
pub open spec fn count_capture(s: Seq<char>) -> Option<(Seq<char>, Seq<char>)> {
    let j = slash_pos_from(s, 0);
    if j == s.len() {
        None
    } else {
        Some((s.subrange(digit_start(s, j), j), s.subrange(j + 1, digit_end(s, j + 1))))
    }
}

/// The executable test of `is_digit`.
fn digit_char_test(c: char) -> (r: bool)
    ensures
        r == is_digit(c),
{
    let x = c as u32;
    48 <= x && x <= 57
}

/// The `current` and `total` counts embedded in the message: the leftmost
/// digit-slash-digit pattern, both runs read as decimal numbers; nothing
/// where no pattern occurs or either number does not fit in 32 bits.
pub fn extract_counts(v: &Vec<char>) -> (r: (Option<u32>, Option<u32>))
    ensures
        match count_capture(v@) {
            Some(pair) => {
                if dec_value(pair.0) <= u32::MAX && dec_value(pair.1) <= u32::MAX {
                    r.0 == Some(dec_value(pair.0) as u32) && r.1 == Some(dec_value(pair.1) as u32)
                } else {
                    r.0 is None && r.1 is None
                }
            },
            None => r.0 is None && r.1 is None,
        },
{
    let n: usize = v.len();
    let mut j: usize = 0;
    while j < n
        invariant
            j <= n,
            n == v@.len(),
            slash_pos_from(v@, 0) == slash_pos_from(v@, j as int),
        decreases n - j,
    {
        let hit: bool = j >= 1 && j + 1 < n && v[j] == '/' && digit_char_test(v[j - 1])
            && digit_char_test(v[j + 1]);
        if hit {
            proof {
                assert(count_match_at(v@, j as int));
                assert(slash_pos_from(v@, j as int) == j);
                lemma_digit_start(v@, j as int);
                lemma_digit_end(v@, j + 1);
            }
            let mut b: usize = j;
            while b > 0
                invariant_except_break
                    b <= j,
                    j < n == v@.len(),
                    digit_start(v@, j as int) == digit_start(v@, b as int),
                ensures
                    b <= j,
                    digit_start(v@, j as int) == digit_start(v@, b as int),
                    b == 0 || !is_digit(v@[b - 1]),
                decreases b,
            {
                if !digit_char_test(v[b - 1]) {
                    break ;
                }
                b = b - 1;
            }
            proof {
                assert(digit_start(v@, b as int) == b);
            }
            let e = scan_digit_end(v, j + 1);
            proof {
                lemma_digit_start(v@, j as int);
                lemma_digit_end(v@, j + 1);
                assert(forall|k: int| b <= k < j ==> is_digit(v@[k]));
                assert(forall|k: int| j + 1 <= k < e ==> is_digit(v@[k]));
            }
            let first = parse_u32(v, b, j);
            let second = parse_u32(v, j + 1, e);
            match (first, second) {
                (Some(a), Some(t)) => {
                    return (Some(a), Some(t));
                },
                _ => {
                    return (None, None);
                },
            }
        }
        proof {
            assert(!count_match_at(v@, j as int));
        }
        j = j + 1;
    }
    proof {
        assert(slash_pos_from(v@, j as int) == v@.len());
    }
    (None, None)
}

/// The end of the digit run starting at `from`.
fn scan_digit_end(v: &Vec<char>, from: usize) -> (r: usize)
    requires
        from <= v@.len(),
    ensures
        r == digit_end(v@, from as int),
{
    let n: usize = v.len();
    let mut i: usize = from;
    while i < n
        invariant
            from <= i <= n,
            n == v@.len(),
            digit_end(v@, from as int) == digit_end(v@, i as int),
        decreases n - i,
    {
        if !digit_char_test(v[i]) {
            return i;
        }
        i = i + 1;
    }
    n
}

} // verus!
