//! Path reasoning on plain character sequences: the last component of a
//! path, the parent of a path, and the chain of ancestors that the registry
//! walks when it resolves a file to its owning project.

use vstd::prelude::*;

verus! {

/// The index of the last occurrence of `c` in `s`, or -1 where it does not
/// occur.
pub open spec fn rfind_char(s: Seq<char>, c: char) -> int
    decreases s.len(),
{
    if s.len() == 0 {
        -1
    } else if s.last() == c {
        s.len() - 1
    } else {
        rfind_char(s.drop_last(), c)
    }
}

/// `rfind_char` names the last occurrence: it is in range, it holds `c`, and
/// nothing after it does.
pub proof fn lemma_rfind_char(s: Seq<char>, c: char)
    ensures
        -1 <= rfind_char(s, c) < s.len(),
        rfind_char(s, c) >= 0 ==> s[rfind_char(s, c)] == c,
        forall|j: int| rfind_char(s, c) < j < s.len() ==> s[j] != c,
    decreases s.len(),
{
    if s.len() > 0 && s.last() != c {
        lemma_rfind_char(s.drop_last(), c);
        assert(forall|j: int| 0 <= j < s.len() - 1 ==> s[j] == s.drop_last()[j]);
    }
}

/// The last occurrence of `c` in `v`, if any.
pub fn rfind_char_in(v: &Vec<char>, c: char) -> (r: Option<usize>)
    ensures
        match r {
            Some(i) => i == rfind_char(v@, c),
            None => rfind_char(v@, c) == -1,
        },
{
    proof {
        lemma_rfind_char(v@, c);
    }
    let mut i: usize = v.len();
    while i > 0
        invariant
            i <= v@.len(),
            forall|j: int| i <= j < v@.len() ==> v@[j] != c,
        decreases i,
    {
        i = i - 1;
        if v[i] == c {
            proof {
                lemma_rfind_char(v@, c);
                assert(rfind_char(v@, c) >= i);
                assert(rfind_char(v@, c) <= i);
            }
            return Some(i);
        }
    }
    proof {
        lemma_rfind_char(v@, c);
        if rfind_char(v@, c) >= 0 {
            assert(v@[rfind_char(v@, c)] == c);
            assert(false);
        }
    }
    None
}

/// The characters after the last `/` of `p`; the whole of `p` where it holds
/// no `/`.
pub open spec fn spec_file_name(p: Seq<char>) -> Seq<char> {
    p.skip(rfind_char(p, '/') + 1)
}

/// The last path component of `v`.
pub fn file_name_chars(v: &Vec<char>) -> (r: Vec<char>)
    ensures
        r@ == spec_file_name(v@),
{
    proof {
        lemma_rfind_char(v@, '/');
    }
    let n: usize = v.len();
    let start: usize = match rfind_char_in(v, '/') {
        Some(i) => i + 1,
        None => 0,
    };
    let mut r: Vec<char> = Vec::new();
    let mut i: usize = start;
    while i < n
        invariant
            start <= i <= n,
            n == v@.len(),
            r@ == v@.subrange(start as int, i as int),
        decreases n - i,
    {
        r.push(v[i]);
        proof {
            assert(v@.subrange(start as int, i + 1) =~= v@.subrange(start as int, i as int).push(
                v@[i as int],
            ));
        }
        i = i + 1;
    }
    proof {
        assert(v@.subrange(start as int, n as int) =~= v@.skip(start as int));
    }
    r
}

/// The parent of a path, in the manner of dropping the last component: a
/// lone `/` and the empty path have none; a relative single component has
/// the empty parent; a top-level absolute component has `/`.
pub open spec fn parent_of(p: Seq<char>) -> Option<Seq<char>> {
    let ls = rfind_char(p, '/');
    if p.len() == 0 || (p.len() == 1 && p[0] == '/') {
        None
    } else if ls == -1 {
        Some(Seq::empty())
    } else if ls == 0 {
        Some(seq!['/'])
    } else {
        Some(p.take(ls))
    }
}

/// A parent is strictly shorter than its path.
pub proof fn lemma_parent_shorter(p: Seq<char>)
    ensures
        parent_of(p) is Some ==> parent_of(p)->Some_0.len() < p.len(),
{
    lemma_rfind_char(p, '/');
    if parent_of(p) is Some {
        let ls = rfind_char(p, '/');
        if ls == 0 {
            assert(p[0] == '/');
            assert(p.len() != 1);
        }
    }
}

/// The parent of the path held in `v`, if it has one.
pub fn parent_chars(v: &Vec<char>) -> (r: Option<Vec<char>>)
    ensures
        match r {
            Some(q) => parent_of(v@) == Some(q@),
            None => parent_of(v@) is None,
        },
{
    proof {
        lemma_rfind_char(v@, '/');
    }
    if v.len() == 0 {
        return None;
    }
    match rfind_char_in(v, '/') {
        None => {
            let r: Vec<char> = Vec::new();
            proof {
                assert(r@ =~= Seq::<char>::empty());
            }
            Some(r)
        },
        Some(ls) => {
            if ls == 0 {
                if v.len() == 1 {
                    return None;
                }
                let mut r: Vec<char> = Vec::new();
                r.push('/');
                proof {
                    assert(r@ =~= seq!['/']);
                }
                Some(r)
            } else {
                let mut r: Vec<char> = Vec::new();
                let mut i: usize = 0;
                while i < ls
                    invariant
                        i <= ls < v@.len(),
                        r@ == v@.subrange(0, i as int),
                    decreases ls - i,
                {
                    r.push(v[i]);
                    proof {
                        assert(v@.subrange(0, i + 1) =~= v@.subrange(0, i as int).push(
                            v@[i as int],
                        ));
                    }
                    i = i + 1;
                }
                proof {
                    assert(v@.subrange(0, ls as int) =~= v@.take(ls as int));
                }
                Some(r)
            }
        },
    }
}

/// The path itself followed by each of its ancestors, nearest first.
pub open spec fn ancestor_chain(p: Seq<char>) -> Seq<Seq<char>>
    decreases p.len(),
    when true
    via ancestor_chain_decreases
{
    match parent_of(p) {
        None => seq![p],
        Some(q) => seq![p] + ancestor_chain(q),
    }
}

#[via_fn]
proof fn ancestor_chain_decreases(p: Seq<char>) {
    lemma_parent_shorter(p);
}

/// The chain starts with the path itself and is never empty.
pub proof fn lemma_chain_head(p: Seq<char>)
    ensures
        ancestor_chain(p).len() >= 1,
        ancestor_chain(p)[0] == p,
        parent_of(p) is None ==> ancestor_chain(p) == seq![p],
        parent_of(p) matches Some(q) ==> ancestor_chain(p) == seq![p] + ancestor_chain(q),
{
}

} // verus!
