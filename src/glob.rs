//! Wildcard patterns: `*` stands for any run of characters, `?` for one
//! character, and every other character for itself.
use vstd::prelude::*;

use crate::text::chars_of;

verus! {

/// Whether pattern `p` matches all of text `t`.
pub open spec fn glob_matches(p: Seq<char>, t: Seq<char>) -> bool
    decreases p.len() + t.len(),
{
    if p.len() == 0 {
        t.len() == 0
    } else if p[0] == '*' {
        glob_matches(p.skip(1), t) || (t.len() > 0 && glob_matches(p, t.skip(1)))
    } else if t.len() == 0 {
        false
    } else if p[0] == '?' || p[0] == t[0] {
        glob_matches(p.skip(1), t.skip(1))
    } else {
        false
    }
}

/// The pattern suffix from `i` against the text suffix from `j`.
pub open spec fn suffix_matches(p: Seq<char>, t: Seq<char>, i: int, j: int) -> bool {
    glob_matches(p.skip(i), t.skip(j))
}

proof fn lemma_unfold(p: Seq<char>, t: Seq<char>, i: int, j: int)
    requires
        0 <= i < p.len(),
        0 <= j <= t.len(),
    ensures
        suffix_matches(p, t, i, j) == if p[i] == '*' {
            suffix_matches(p, t, i + 1, j) || (j < t.len() && suffix_matches(p, t, i, j + 1))
        } else if j == t.len() {
            false
        } else if p[i] == '?' || p[i] == t[j] {
            suffix_matches(p, t, i + 1, j + 1)
        } else {
            false
        },
{
    assert(p.skip(i).skip(1) =~= p.skip(i + 1));
    if j < t.len() {
        assert(t.skip(j).skip(1) =~= t.skip(j + 1));
    }
    assert(p.skip(i)[0] == p[i]);
    assert(j < t.len() ==> t.skip(j)[0] == t[j]);
}

/// Matches by a table over suffixes of pattern and text, row by row from the
/// end of the pattern; linear space, and time in the product of the lengths.
fn glob_match_chars(p: &Vec<char>, t: &Vec<char>) -> (r: bool)
    ensures
        r == glob_matches(p@, t@),
{
    let tl = t.len();
    let mut next: Vec<bool> = Vec::new();
    let mut j: usize = 0;
    while j < tl
        invariant
            j <= tl,
            tl == t.len(),
            next.len() == j,
            forall|k: int| 0 <= k < j ==> !(#[trigger] next@[k]),
        decreases tl - j,
    {
        next.push(false);
        j = j + 1;
    }
    let mut next_end: bool = true;
    proof {
        assert forall|k: int| 0 <= k < tl implies next@[k] == suffix_matches(p@, t@, p.len() as int, k) by {
            assert(p@.skip(p.len() as int).len() == 0);
        }
        assert(p@.skip(p.len() as int).len() == 0);
        assert(t@.skip(tl as int).len() == 0);
    }
    let mut i: usize = p.len();
    while i > 0
        invariant
            i <= p.len(),
            tl == t.len(),
            next.len() == tl,
            forall|k: int| 0 <= k < tl ==> #[trigger] next@[k] == suffix_matches(p@, t@, i as int, k),
            next_end == suffix_matches(p@, t@, i as int, tl as int),
        decreases i,
    {
        i = i - 1;
        let pc = p[i];
        proof {
            lemma_unfold(p@, t@, i as int, tl as int);
        }
        let cur_end = if pc == '*' {
            next_end
        } else {
            false
        };
        let mut cur: Vec<bool> = Vec::new();
        let mut k: usize = 0;
        while k < tl
            invariant
                k <= tl,
                cur.len() == k,
            decreases tl - k,
        {
            cur.push(false);
            k = k + 1;
        }
        let mut j: usize = tl;
        while j > 0
            invariant
                i < p.len(),
                pc == p@[i as int],
                j <= tl,
                tl == t.len(),
                next.len() == tl,
                cur.len() == tl,
                forall|k: int| 0 <= k < tl ==> #[trigger] next@[k] == suffix_matches(p@, t@, i + 1, k),
                next_end == suffix_matches(p@, t@, i + 1, tl as int),
                cur_end == suffix_matches(p@, t@, i as int, tl as int),
                forall|k: int| j <= k < tl ==> #[trigger] cur@[k] == suffix_matches(p@, t@, i as int, k),
            decreases j,
        {
            j = j - 1;
            proof {
                lemma_unfold(p@, t@, i as int, j as int);
            }
            let v = if pc == '*' {
                next[j] || (if j + 1 < tl {
                    cur[j + 1]
                } else {
                    cur_end
                })
            } else if pc == '?' || pc == t[j] {
                if j + 1 < tl {
                    next[j + 1]
                } else {
                    next_end
                }
            } else {
                false
            };
            cur.set(j, v);
        }
        next = cur;
        next_end = cur_end;
    }
    assert(p@.skip(0) =~= p@);
    assert(t@.skip(0) =~= t@);
    if tl == 0 {
        next_end
    } else {
        next[0]
    }
}

/// Whether `pattern` matches all of `text`.
pub fn matches_glob(pattern: &str, text: &str) -> (r: bool)
    ensures
        r == glob_matches(pattern@, text@),
{
    let p = chars_of(pattern);
    let t = chars_of(text);
    glob_match_chars(&p, &t)
}

/// A lone `*` matches every text.
pub proof fn lemma_star_matches_all(t: Seq<char>)
    ensures
        glob_matches(seq!['*'], t),
    decreases t.len(),
{
    let p = seq!['*'];
    assert(p.skip(1) =~= Seq::<char>::empty());
    assert(p[0] == '*');
    if t.len() > 0 {
        lemma_star_matches_all(t.skip(1));
    } else {
        assert(glob_matches(p.skip(1), t));
    }
}

} // verus!
