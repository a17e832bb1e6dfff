//! Character-sequence utilities shared by the rest of the library: exact
//! conversions between `&str`/`String` and `Vec<char>`, substring search,
//! ASCII case folding, decimal formatting and parsing, and textual
//! replacement. Every executable function is specified against a spec-level
//! definition over `Seq<char>`.

use vstd::prelude::*;

verus! {

use vstd::string::StrSliceExecFns;
use vstd::string::StringExecFns;

/// The characters of `s`, in order, as a vector.
pub fn str_to_chars(s: &str) -> (v: Vec<char>)
    ensures
        v@ == s@,
{
    let n: usize = s.unicode_len();
    let mut v: Vec<char> = Vec::new();
    for i in 0..n
        invariant
            n == s@.len(),
            v@ == s@.take(i as int),
    {
        v.push(s.get_char(i));
        proof {
            assert(s@.take(i as int).push(s@[i as int]) =~= s@.take(i + 1));
        }
    }
    proof {
        assert(s@.take(n as int) =~= s@);
    }
    v
}

/// Relies on std's `String::push`: appends the given character to the end of
/// the string.
#[verifier::external_body]
fn push_char(s: &mut String, c: char)
    ensures
        final(s)@ == old(s)@.push(c),
{
    s.push(c);
}

/// A string holding exactly the characters of `v`, in order.
pub fn chars_to_string(v: &Vec<char>) -> (s: String)
    ensures
        s@ == v@,
{
    let mut s: String = String::new();
    let n: usize = v.len();
    for i in 0..n
        invariant
            n == v@.len(),
            s@ == v@.take(i as int),
    {
        push_char(&mut s, v[i]);
        proof {
            assert(v@.take(i as int).push(v@[i as int]) =~= v@.take(i + 1));
        }
    }
    proof {
        assert(v@.take(n as int) =~= v@);
    }
    s
}

/// A copy of a vector of strings, element for element equal to it.
pub fn clone_strings(v: &Vec<String>) -> (r: Vec<String>)
    ensures
        r@ == v@,
{
    let mut r: Vec<String> = Vec::new();
    let n: usize = v.len();
    for i in 0..n
        invariant
            n == v@.len(),
            r@ == v@.take(i as int),
    {
        r.push(v[i].clone());
        proof {
            assert(v@.take(i as int).push(v@[i as int]) =~= v@.take(i + 1));
        }
    }
    proof {
        assert(v@.take(n as int) =~= v@);
    }
    r
}

/// Whether two character vectors hold the same characters.
pub fn chars_equal(a: &Vec<char>, b: &Vec<char>) -> (r: bool)
    ensures
        r == (a@ == b@),
{
    if a.len() != b.len() {
        return false;
    }
    let n: usize = a.len();
    for i in 0..n
        invariant
            n == a@.len() == b@.len(),
            forall|j: int| 0 <= j < i ==> a@[j] == b@[j],
    {
        if a[i] != b[i] {
            return false;
        }
    }
    proof {
        assert(a@ =~= b@);
    }
    true
}

/// The views of a sequence of strings.
pub open spec fn str_views(l: Seq<String>) -> Seq<Seq<char>> {
    l.map_values(|s: String| s@)
}

/// The needle `n` occurs in `h` starting exactly at index `i`.
pub open spec fn is_match_at(h: Seq<char>, n: Seq<char>, i: int) -> bool {
    0 <= i && i + n.len() <= h.len() && h.subrange(i, i + n.len() as int) == n
}

/// The needle `n` occurs somewhere in `h`.
pub open spec fn contains_sub(h: Seq<char>, n: Seq<char>) -> bool {
    exists|i: int| is_match_at(h, n, i)
}

/// `h` ends with the suffix `n`.
pub open spec fn ends_with(h: Seq<char>, n: Seq<char>) -> bool {
    n.len() <= h.len() && h.subrange(h.len() - n.len(), h.len() as int) == n
}

/// Whether `n` occurs in `h` starting at index `i`.
pub fn match_at(h: &Vec<char>, n: &Vec<char>, i: usize) -> (r: bool)
    requires
        i + n@.len() <= h@.len(),
    ensures
        r == is_match_at(h@, n@, i as int),
{
    let nl: usize = n.len();
    let hl: usize = h.len();
    let mut k: usize = 0;
    while k < nl
        invariant
            nl == n@.len(),
            hl == h@.len(),
            i + nl <= hl,
            k <= nl,
            forall|j: int| 0 <= j < k ==> h@[i + j] == n@[j],
        decreases nl - k,
    {
        if h[i + k] != n[k] {
            proof {
                assert(h@.subrange(i as int, i + n@.len() as int)[k as int] == h@[i + k]);
            }
            return false;
        }
        k = k + 1;
    }
    proof {
        assert(h@.subrange(i as int, i + n@.len() as int) =~= n@);
    }
    true
}

/// The index of the first occurrence of `n` in `h`, if any.
pub fn find_sub(h: &Vec<char>, n: &Vec<char>) -> (r: Option<usize>)
    ensures
        match r {
            Some(i) => is_match_at(h@, n@, i as int) && forall|j: int|
                0 <= j < i ==> !is_match_at(h@, n@, j),
            None => !contains_sub(h@, n@),
        },
{
    if n.len() > h.len() {
        return None;
    }
    if n.len() == 0 {
        proof {
            assert(h@.subrange(0, 0) =~= n@);
        }
        return Some(0);
    }
    let last: usize = h.len() - n.len();
    let mut i: usize = 0;
    loop
        invariant
            n@.len() >= 1,
            n@.len() <= h@.len(),
            last == h@.len() - n@.len(),
            i <= last,
            forall|j: int| 0 <= j < i ==> !is_match_at(h@, n@, j),
        ensures
            forall|j: int| 0 <= j <= last ==> !is_match_at(h@, n@, j),
        decreases last - i,
    {
        if match_at(h, n, i) {
            return Some(i);
        }
        if i == last {
            break ;
        }
        i = i + 1;
    }
    proof {
        assert(forall|j: int| is_match_at(h@, n@, j) ==> 0 <= j <= last);
    }
    None
}

/// Whether `n` occurs anywhere in `h`.
pub fn contains_chars(h: &Vec<char>, n: &Vec<char>) -> (r: bool)
    ensures
        r == contains_sub(h@, n@),
{
    match find_sub(h, n) {
        Some(_) => true,
        None => false,
    }
}

/// Whether `h` ends with the suffix `n`.
pub fn ends_with_chars(h: &Vec<char>, n: &Vec<char>) -> (r: bool)
    ensures
        r == ends_with(h@, n@),
{
    if n.len() > h.len() {
        return false;
    }
    match_at(h, n, h.len() - n.len())
}

/// How many times the character `c` occurs in `s`.
pub open spec fn count_char(s: Seq<char>, c: char) -> nat
    decreases s.len(),
{
    if s.len() == 0 {
        0
    } else {
        count_char(s.drop_last(), c) + if s.last() == c {
            1nat
        } else {
            0nat
        }
    }
}

/// A character occurs at most once per position.
pub proof fn lemma_count_char_bound(s: Seq<char>, c: char)
    ensures
        count_char(s, c) <= s.len(),
    decreases s.len(),
{
    if s.len() > 0 {
        lemma_count_char_bound(s.drop_last(), c);
    }
}

/// The number of occurrences of `c` in `v`.
pub fn count_char_in(v: &Vec<char>, c: char) -> (r: usize)
    ensures
        r == count_char(v@, c),
{
    let mut cnt: usize = 0;
    let n: usize = v.len();
    for i in 0..n
        invariant
            n == v@.len(),
            cnt == count_char(v@.take(i as int), c),
            cnt <= i,
    {
        proof {
            assert(v@.take(i + 1).drop_last() =~= v@.take(i as int));
            assert(v@.take(i + 1).last() == v@[i as int]);
        }
        if v[i] == c {
            cnt = cnt + 1;
        }
    }
    proof {
        assert(v@.take(n as int) =~= v@);
    }
    cnt
}

/// `c` with an ASCII capital letter mapped to its small form; anything else
/// is left as it is.
pub open spec fn lower_char(c: char) -> char {
    match c {
        'A' => 'a',
        'B' => 'b',
        'C' => 'c',
        'D' => 'd',
        'E' => 'e',
        'F' => 'f',
        'G' => 'g',
        'H' => 'h',
        'I' => 'i',
        'J' => 'j',
        'K' => 'k',
        'L' => 'l',
        'M' => 'm',
        'N' => 'n',
        'O' => 'o',
        'P' => 'p',
        'Q' => 'q',
        'R' => 'r',
        'S' => 's',
        'T' => 't',
        'U' => 'u',
        'V' => 'v',
        'W' => 'w',
        'X' => 'x',
        'Y' => 'y',
        'Z' => 'z',
        _ => c,
    }
}

/// The executable step of `lower_char`.
pub fn lower_char_exec(c: char) -> (r: char)
    ensures
        r == lower_char(c),
{
    match c {
        'A' => 'a',
        'B' => 'b',
        'C' => 'c',
        'D' => 'd',
        'E' => 'e',
        'F' => 'f',
        'G' => 'g',
        'H' => 'h',
        'I' => 'i',
        'J' => 'j',
        'K' => 'k',
        'L' => 'l',
        'M' => 'm',
        'N' => 'n',
        'O' => 'o',
        'P' => 'p',
        'Q' => 'q',
        'R' => 'r',
        'S' => 's',
        'T' => 't',
        'U' => 'u',
        'V' => 'v',
        'W' => 'w',
        'X' => 'x',
        'Y' => 'y',
        'Z' => 'z',
        _ => c,
    }
}

/// `s` with every ASCII capital letter mapped to its small form.
pub open spec fn lower_chars(s: Seq<char>) -> Seq<char> {
    s.map_values(|c: char| lower_char(c))
}

/// `v` folded to ASCII small letters.
pub fn ascii_lower(v: &Vec<char>) -> (out: Vec<char>)
    ensures
        out@ == lower_chars(v@),
{
    let mut out: Vec<char> = Vec::new();
    let n: usize = v.len();
    for i in 0..n
        invariant
            n == v@.len(),
            out@ == lower_chars(v@.take(i as int)),
    {
        let lc: char = lower_char_exec(v[i]);
        out.push(lc);
        proof {
            assert(lc == lower_char(v@[i as int]));
            assert(lower_chars(v@.take(i + 1)) =~= lower_chars(v@.take(i as int)).push(
                lower_char(v@[i as int]),
            ));
        }
    }
    proof {
        assert(v@.take(n as int) =~= v@);
    }
    out
}

/// The digit character for a value below ten.
pub open spec fn digit_char(d: nat) -> char {
    if d == 0 {
        '0'
    } else if d == 1 {
        '1'
    } else if d == 2 {
        '2'
    } else if d == 3 {
        '3'
    } else if d == 4 {
        '4'
    } else if d == 5 {
        '5'
    } else if d == 6 {
        '6'
    } else if d == 7 {
        '7'
    } else if d == 8 {
        '8'
    } else {
        '9'
    }
}

/// The decimal digits of `n`, most significant first, with no leading zero
/// except for the value zero itself.
pub open spec fn dec_digits(n: nat) -> Seq<char>
    decreases n,
{
    if n < 10 {
        seq![digit_char(n)]
    } else {
        dec_digits(n / 10).push(digit_char(n % 10))
    }
}

/// The decimal rendering of `n`.
#[verifier::rlimit(40)]
pub fn u32_to_string(n: u32) -> (s: String)
    ensures
        s@ == dec_digits(n as nat),
{
    let mut digits: Vec<char> = Vec::new();
    let mut cur: u32 = n;
    loop
        invariant_except_break
            dec_digits(n as nat) == dec_digits(cur as nat) + digits@.reverse(),
        ensures
            dec_digits(n as nat) == digits@.reverse(),
        decreases cur,
    {
        let d: u32 = cur % 10;
        let dc: char = digit_of_u32(d);
        let ghost old_digits = digits@;
        digits.push(dc);
        proof {
            assert(digits@.reverse() =~= seq![dc] + old_digits.reverse());
        }
        let next: u32 = cur / 10;
        if next == 0 {
            proof {
                assert(cur < 10);
                assert(dec_digits(cur as nat) == seq![digit_char(cur as nat)]);
                assert(dec_digits(n as nat) =~= digits@.reverse());
            }
            break ;
        }
        proof {
            assert(cur >= 10);
            assert(dec_digits(cur as nat) == dec_digits((cur / 10) as nat).push(
                digit_char((cur % 10) as nat),
            ));
            assert(dec_digits((cur / 10) as nat).push(dc) + old_digits.reverse()
                =~= dec_digits((cur / 10) as nat) + digits@.reverse());
            assert(dec_digits(n as nat) == dec_digits(next as nat) + digits@.reverse());
        }
        cur = next;
    }
    let mut out: Vec<char> = Vec::new();
    let len: usize = digits.len();
    for i in 0..len
        invariant
            len == digits@.len(),
            out@.len() == i,
            forall|j: int| 0 <= j < i ==> out@[j] == digits@[len - 1 - j],
    {
        out.push(digits[len - 1 - i]);
    }
    proof {
        assert(out@ =~= digits@.reverse());
    }
    chars_to_string(&out)
}

/// The digit character of a value below ten, as an executable step.
fn digit_of_u32(d: u32) -> (c: char)
    requires
        d < 10,
    ensures
        c == digit_char(d as nat),
{
    if d == 0 {
        '0'
    } else if d == 1 {
        '1'
    } else if d == 2 {
        '2'
    } else if d == 3 {
        '3'
    } else if d == 4 {
        '4'
    } else if d == 5 {
        '5'
    } else if d == 6 {
        '6'
    } else if d == 7 {
        '7'
    } else if d == 8 {
        '8'
    } else {
        '9'
    }
}

/// The decimal rendering of a signed value: a minus sign where negative.
pub open spec fn dec_int(n: int) -> Seq<char> {
    if n < 0 {
        seq!['-'] + dec_digits((-n) as nat)
    } else {
        dec_digits(n as nat)
    }
}

/// The decimal rendering of a signed 32-bit value.
pub fn i32_to_string(n: i32) -> (s: String)
    ensures
        s@ == dec_int(n as int),
{
    if n < 0 {
        let wide: i64 = n as i64;
        let mag: u32 = (-wide) as u32;
        let digits = u32_to_string(mag);
        let mut out = String::new();
        push_char(&mut out, '-');
        out.append(digits.as_str());
        proof {
            assert(out@ =~= seq!['-'] + dec_digits((-(n as int)) as nat));
        }
        out
    } else {
        u32_to_string(n as u32)
    }
}

/// The digit character of a machine-word value below ten.
pub fn digit_of_usize(d: usize) -> (c: char)
    requires
        d < 10,
    ensures
        c == digit_char(d as nat),
{
    if d == 0 {
        '0'
    } else if d == 1 {
        '1'
    } else if d == 2 {
        '2'
    } else if d == 3 {
        '3'
    } else if d == 4 {
        '4'
    } else if d == 5 {
        '5'
    } else if d == 6 {
        '6'
    } else if d == 7 {
        '7'
    } else if d == 8 {
        '8'
    } else {
        '9'
    }
}

/// The decimal rendering of a machine-word count.
pub fn usize_to_string(n: usize) -> (s: String)
    ensures
        s@ == dec_digits(n as nat),
{
    let mut digits: Vec<char> = Vec::new();
    let mut cur: usize = n;
    loop
        invariant_except_break
            dec_digits(n as nat) == dec_digits(cur as nat) + digits@.reverse(),
        ensures
            dec_digits(n as nat) == digits@.reverse(),
        decreases cur,
    {
        let d: usize = cur % 10;
        let dc: char = digit_of_usize(d);
        let ghost old_digits = digits@;
        digits.push(dc);
        proof {
            assert(digits@.reverse() =~= seq![dc] + old_digits.reverse());
        }
        let next: usize = cur / 10;
        if next == 0 {
            proof {
                assert(cur < 10);
                assert(dec_digits(cur as nat) == seq![digit_char(cur as nat)]);
                assert(dec_digits(n as nat) =~= digits@.reverse());
            }
            break ;
        }
        proof {
            assert(cur >= 10);
            assert(dec_digits(cur as nat) == dec_digits((cur / 10) as nat).push(
                digit_char((cur % 10) as nat),
            ));
            assert(dec_digits((cur / 10) as nat).push(dc) + old_digits.reverse() =~= dec_digits(
                (cur / 10) as nat,
            ) + digits@.reverse());
            assert(dec_digits(n as nat) == dec_digits(next as nat) + digits@.reverse());
        }
        cur = next;
    }
    let mut out: Vec<char> = Vec::new();
    let len: usize = digits.len();
    let mut i: usize = 0;
    while i < len
        invariant
            i <= len,
            len == digits@.len(),
            out@.len() == i,
            forall|j: int| 0 <= j < i ==> out@[j] == digits@[len - 1 - j],
        decreases len - i,
    {
        out.push(digits[len - 1 - i]);
        i = i + 1;
    }
    proof {
        assert(out@ =~= digits@.reverse());
    }
    chars_to_string(&out)
}

/// A decimal digit character.
pub open spec fn is_digit(c: char) -> bool {
    48 <= c as int && c as int <= 57
}

/// The numeric value of a digit character.
pub open spec fn digit_val(c: char) -> nat {
    (c as int - 48) as nat
}

/// The value of a digit string, most significant digit first.
pub open spec fn dec_value(s: Seq<char>) -> nat
    decreases s.len(),
{
    if s.len() == 0 {
        0
    } else {
        dec_value(s.drop_last()) * 10 + digit_val(s.last())
    }
}

proof fn lemma_dec_value_extend(s: Seq<char>, t: Seq<char>)
    ensures
        dec_value(s + t) >= dec_value(s),
    decreases t.len(),
{
    if t.len() == 0 {
        assert(s + t =~= s);
    } else {
        lemma_dec_value_extend(s, t.drop_last());
        assert((s + t).drop_last() =~= s + t.drop_last());
        assert(dec_value(s + t) == dec_value(s + t.drop_last()) * 10 + digit_val((s + t).last()));
        assert(dec_value(s + t.drop_last()) * 10 >= dec_value(s + t.drop_last()));
    }
}

/// The value of the digit run `v[from..to]`, or `None` where that value does
/// not fit in 32 bits.
pub fn parse_u32(v: &Vec<char>, from: usize, to: usize) -> (r: Option<u32>)
    requires
        from <= to <= v@.len(),
        forall|j: int| from <= j < to ==> is_digit(v@[j]),
    ensures
        match r {
            Some(x) => x == dec_value(v@.subrange(from as int, to as int)),
            None => dec_value(v@.subrange(from as int, to as int)) > u32::MAX,
        },
{
    let mut acc: u32 = 0;
    let mut i: usize = from;
    while i < to
        invariant
            from <= i <= to <= v@.len(),
            forall|j: int| from <= j < to ==> is_digit(v@[j]),
            acc == dec_value(v@.subrange(from as int, i as int)),
        decreases to - i,
    {
        let c: char = v[i];
        let d: u32 = (c as u32) - 48;
        proof {
            assert(is_digit(v@[i as int]));
            assert(d == digit_val(v@[i as int]));
            assert(v@.subrange(from as int, i + 1).drop_last() =~= v@.subrange(
                from as int,
                i as int,
            ));
            assert(v@.subrange(from as int, i + 1).last() == v@[i as int]);
        }
        if acc > (u32::MAX - d) / 10 {
            proof {
                let q = ((u32::MAX - d) / 10) as int;
                assert(10 * q + ((u32::MAX - d) as int % 10) == u32::MAX - d);
                assert(acc >= q + 1);
                assert(10 * (acc as int) >= 10 * q + 10) by (nonlinear_arith)
                    requires
                        acc as int >= q + 1,
                ;
                assert(10 * (acc as int) + d > u32::MAX);
                assert(dec_value(v@.subrange(from as int, i + 1)) > u32::MAX);
                lemma_dec_value_extend(
                    v@.subrange(from as int, i + 1),
                    v@.subrange(i + 1, to as int),
                );
                assert(v@.subrange(from as int, i + 1) + v@.subrange(i + 1, to as int)
                    =~= v@.subrange(from as int, to as int));
            }
            return None;
        }
        proof {
            let q = ((u32::MAX - d) / 10) as int;
            assert(10 * q + ((u32::MAX - d) as int % 10) == u32::MAX - d);
            assert(acc <= q);
            assert(10 * (acc as int) <= 10 * q) by (nonlinear_arith)
                requires
                    acc as int <= q,
            ;
            assert(10 * (acc as int) + d <= u32::MAX);
        }
        acc = acc * 10 + d;
        i = i + 1;
    }
    Some(acc)
}

/// `h` with every occurrence of `pat` replaced by `rep`, scanning left to
/// right and never rescanning replaced text.
pub open spec fn spec_replace(h: Seq<char>, pat: Seq<char>, rep: Seq<char>) -> Seq<char>
    decreases h.len(),
{
    if pat.len() == 0 || h.len() < pat.len() {
        h
    } else if is_match_at(h, pat, 0) {
        rep + spec_replace(h.skip(pat.len() as int), pat, rep)
    } else {
        seq![h[0]] + spec_replace(h.skip(1), pat, rep)
    }
}

/// Appends all of `v` to `out`.
pub fn push_all(out: &mut Vec<char>, v: &Vec<char>)
    ensures
        final(out)@ == old(out)@ + v@,
{
    let n: usize = v.len();
    for i in 0..n
        invariant
            n == v@.len(),
            out@ == old(out)@ + v@.take(i as int),
    {
        out.push(v[i]);
        proof {
            assert(old(out)@ + v@.take(i as int).push(v@[i as int]) =~= old(out)@ + v@.take(i + 1));
        }
    }
    proof {
        assert(old(out)@ + v@.take(n as int) =~= old(out)@ + v@);
    }
}

/// `h` with every occurrence of `pat` replaced by `rep`.
pub fn replace_all(h: &Vec<char>, pat: &Vec<char>, rep: &Vec<char>) -> (out: Vec<char>)
    requires
        pat@.len() > 0,
    ensures
        out@ == spec_replace(h@, pat@, rep@),
{
    let mut out: Vec<char> = Vec::new();
    let mut i: usize = 0;
    proof {
        assert(h@.skip(0) =~= h@);
        assert(out@ + spec_replace(h@, pat@, rep@) =~= spec_replace(h@, pat@, rep@));
    }
    while i < h.len()
        invariant
            i <= h@.len(),
            pat@.len() > 0,
            spec_replace(h@, pat@, rep@) == out@ + spec_replace(h@.skip(i as int), pat@, rep@),
        decreases h@.len() - i,
    {
        let ghost suffix = h@.skip(i as int);
        if pat.len() <= h.len() - i && match_at(h, pat, i) {
            proof {
                assert(suffix.subrange(0, pat@.len() as int) =~= h@.subrange(
                    i as int,
                    i + pat@.len(),
                ));
                assert(is_match_at(suffix, pat@, 0));
                assert(suffix.skip(pat@.len() as int) =~= h@.skip(i + pat@.len()));
                assert(spec_replace(suffix, pat@, rep@) == rep@ + spec_replace(
                    h@.skip(i + pat@.len()),
                    pat@,
                    rep@,
                ));
            }
            let ghost old_out = out@;
            push_all(&mut out, rep);
            proof {
                assert(old_out + (rep@ + spec_replace(h@.skip(i + pat@.len()), pat@, rep@))
                    =~= out@ + spec_replace(h@.skip(i + pat@.len()), pat@, rep@));
            }
            i = i + pat.len();
        } else {
            proof {
                if i + pat@.len() <= h@.len() {
                    assert(!is_match_at(h@, pat@, i as int));
                    if is_match_at(suffix, pat@, 0) {
                        assert(suffix.subrange(0, pat@.len() as int) =~= h@.subrange(
                            i as int,
                            i + pat@.len(),
                        ));
                        assert(false);
                    }
                    assert(spec_replace(suffix, pat@, rep@) == seq![suffix[0]] + spec_replace(
                        suffix.skip(1),
                        pat@,
                        rep@,
                    ));
                } else {
                    assert(suffix.len() < pat@.len());
                    assert(spec_replace(suffix, pat@, rep@) == suffix);
                    if suffix.skip(1).len() < pat@.len() {
                        assert(spec_replace(suffix.skip(1), pat@, rep@) == suffix.skip(1));
                    }
                    assert(suffix =~= seq![suffix[0]] + suffix.skip(1));
                }
                assert(suffix[0] == h@[i as int]);
                assert(suffix.skip(1) =~= h@.skip(i + 1));
            }
            let ghost old_out = out@;
            out.push(h[i]);
            proof {
                assert(old_out + (seq![h@[i as int]] + spec_replace(h@.skip(i + 1), pat@, rep@))
                    =~= out@ + spec_replace(h@.skip(i + 1), pat@, rep@));
            }
            i = i + 1;
        }
    }
    proof {
        assert(h@.skip(h@.len() as int).len() == 0);
        assert(spec_replace(h@.skip(h@.len() as int), pat@, rep@) == h@.skip(h@.len() as int));
        assert(out@ + h@.skip(h@.len() as int) =~= out@);
    }
    out
}

} // verus!
