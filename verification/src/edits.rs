//! Candidate generation: every word within one character edit of a query.

use vstd::prelude::*;
use vstd::string::*;
use vstd::pervasive::VecAdditionalExecFns;
use vstd::arithmetic::div_mod::lemma_fundamental_div_mod_converse;

verus! {

/// The lowercase alphabet, in order.
pub open spec fn alphabet() -> Seq<char> {
    "abcdefghijklmnopqrstuvwxyz"@
}

/// ASCII lowercasing of one character: 'A' through 'Z' map to 'a' through
/// 'z'; every other character is unchanged.
pub open spec fn lower_char(c: char) -> char {
    if 65 <= c as u32 && c as u32 <= 90 {
        ((c as u32 + 32) as char)
    } else {
        c
    }
}

/// ASCII lowercasing of a character sequence.
pub open spec fn lower(s: Seq<char>) -> Seq<char> {
    s.map_values(|c: char| lower_char(c))
}

/// The character sequences of a sequence of strings.
pub open spec fn views(s: Seq<String>) -> Seq<Seq<char>> {
    s.map_values(|x: String| x@)
}

pub broadcast proof fn lemma_views_push(s: Seq<String>, x: String)
    ensures
        #[trigger] views(s.push(x)) == views(s).push(x@),
{
    assert(views(s.push(x)) =~= views(s).push(x@));
}

pub broadcast proof fn lemma_views_add(s: Seq<String>, t: Seq<String>)
    ensures
        #[trigger] views(s + t) == views(s) + views(t),
{
    assert(views(s + t) =~= views(s) + views(t));
}

/// Candidates got by inserting one lowercase letter at each position of `w`,
/// position by position and letter by letter.
pub open spec fn insert_cands(w: Seq<char>) -> Seq<Seq<char>> {
    Seq::new(26 * (w.len() + 1), |k: int| w.insert(k / 26, alphabet()[k % 26]))
}

/// Candidates got by deleting one character of `w`; none for words of length
/// at most one.
pub open spec fn delete_cands(w: Seq<char>) -> Seq<Seq<char>> {
    if w.len() <= 1 {
        Seq::empty()
    } else {
        Seq::new(w.len(), |i: int| w.remove(i))
    }
}

/// Candidates got by swapping each pair of adjacent characters of `w`; none
/// for words of length at most one.
pub open spec fn transpose_cands(w: Seq<char>) -> Seq<Seq<char>> {
    if w.len() <= 1 {
        Seq::empty()
    } else {
        Seq::new((w.len() - 1) as nat, |i: int| w.update(i, w[i + 1]).update(i + 1, w[i]))
    }
}

/// Candidates got by replacing each character of `w` by each lowercase
/// letter (the letter itself included).
pub open spec fn subst_cands(w: Seq<char>) -> Seq<Seq<char>> {
    Seq::new(26 * w.len(), |k: int| w.update(k / 26, alphabet()[k % 26]))
}

/// Every candidate within one edit of the (already lowercased) word `w`:
/// insertions, then deletions, then transpositions, then substitutions, in
/// generation order, duplicates kept.
pub open spec fn edit1_cands(w: Seq<char>) -> Seq<Seq<char>> {
    insert_cands(w) + delete_cands(w) + transpose_cands(w) + subst_cands(w)
}

/// How many candidates each edit family yields: `26 * (len + 1)` insertions
/// and `26 * len` substitutions for every word, and `len` deletions and
/// `len - 1` transpositions only for words of at least two characters.
pub proof fn lemma_edit1_counts(w: Seq<char>)
    ensures
        insert_cands(w).len() == 26 * (w.len() + 1),
        subst_cands(w).len() == 26 * w.len(),
        delete_cands(w).len() == if w.len() <= 1 { 0int } else { w.len() as int },
        transpose_cands(w).len() == if w.len() <= 1 { 0int } else { w.len() - 1 },
        edit1_cands(w).len() == insert_cands(w).len() + delete_cands(w).len()
            + transpose_cands(w).len() + subst_cands(w).len(),
{
}

/// Relies on `String::push`: appends exactly the one character.
#[verifier::external_body]
pub(crate) fn push_char(s: &mut String, c: char)
    ensures
        final(s)@ == old(s)@.push(c),
{
    s.push(c);
}

/// The string holding exactly the characters of `v`.
fn chars_to_string(v: &Vec<char>) -> (s: String)
    ensures
        s@ == v@,
{
    let mut s = String::new();
    let mut i: usize = 0;
    while i < v.len()
        invariant
            i <= v@.len(),
            s@ == v@.take(i as int),
        decreases v@.len() - i,
    {
        push_char(&mut s, v[i]);
        proof {
            assert(v@.take(i + 1) =~= v@.take(i as int).push(v@[i as int]));
        }
        i += 1;
    }
    proof {
        assert(v@.take(v@.len() as int) =~= v@);
    }
    s
}

/// A copy of `v`.
fn copy_chars(v: &Vec<char>) -> (r: Vec<char>)
    ensures
        r@ == v@,
{
    let mut r: Vec<char> = Vec::new();
    let mut i: usize = 0;
    while i < v.len()
        invariant
            i <= v@.len(),
            r@ == v@.take(i as int),
        decreases v@.len() - i,
    {
        r.push(v[i]);
        proof {
            assert(v@.take(i + 1) =~= v@.take(i as int).push(v@[i as int]));
        }
        i += 1;
    }
    proof {
        assert(v@.take(v@.len() as int) =~= v@);
    }
    r
}

/// The lowercased characters of `s`.
pub fn to_lower_chars(s: &str) -> (v: Vec<char>)
    ensures
        v@ == lower(s@),
{
    let n = s.unicode_len();
    let mut v: Vec<char> = Vec::new();
    let mut i: usize = 0;
    while i < n
        invariant
            i <= n,
            n == s@.len(),
            v@ == lower(s@).take(i as int),
        decreases n - i,
    {
        let c = s.get_char(i);
        let lc = lower_char_exec(c);
        v.push(lc);
        proof {
            assert(lower(s@).take(i + 1) =~= lower(s@).take(i as int).push(lower(s@)[i as int]));
        }
        i += 1;
    }
    proof {
        assert(lower(s@).take(n as int) =~= lower(s@));
    }
    v
}

/// ASCII lowercasing of one character.
fn lower_char_exec(c: char) -> (r: char)
    ensures
        r == lower_char(c),
{
    let u = c as u32;
    if 65 <= u && u <= 90 {
        ((u + 32) as u8) as char
    } else {
        c
    }
}

/// The `j`-th lowercase letter.
fn letter(j: usize) -> (c: char)
    requires
        j < 26,
    ensures
        c == alphabet()[j as int],
{
    proof {
        reveal_strlit("abcdefghijklmnopqrstuvwxyz");
    }
    let s = "abcdefghijklmnopqrstuvwxyz";
    s.get_char(j)
}

/// Every word within one edit of `word`, lowercased first: all insertions,
/// then all deletions, then all transpositions, then all substitutions, in
/// generation order and without deduplication.
pub fn edit_distance1(word: &str) -> (r: Vec<String>)
    ensures
        views(r@) == edit1_cands(lower(word@)),
{
    broadcast use lemma_views_push;

    let lw = to_lower_chars(word);
    let n = lw.len();
    let ghost w = lower(word@);
    let mut r: Vec<String> = Vec::new();

    // Insertions: each lowercase letter at each position, the end included.
    let mut i: usize = 0;
    loop
        invariant_except_break
            views(r@) == insert_cands(w).take(26 * (i as int)),
        invariant
            i <= n,
            n == w.len(),
            lw@ == w,
        ensures
            views(r@) == insert_cands(w).take(26 * (n + 1)),
        decreases n - i,
    {
        let mut j: usize = 0;
        while j < 26
            invariant
                j <= 26,
                i <= n,
                n == w.len(),
                lw@ == w,
                views(r@) == insert_cands(w).take(26 * (i as int) + j as int),
            decreases 26 - j,
        {
            let mut nw = copy_chars(&lw);
            nw.insert(i, letter(j));
            r.push(chars_to_string(&nw));
            proof {
                let k = 26 * (i as int) + (j as int);
                lemma_fundamental_div_mod_converse(k, 26, i as int, j as int);
                assert(insert_cands(w)[k] == w.insert(i as int, alphabet()[j as int]));
                assert(insert_cands(w).take(k + 1)
                    =~= insert_cands(w).take(k).push(insert_cands(w)[k]));
            }
            j += 1;
        }
        if i == n {
            break;
        }
        i += 1;
    }
    proof {
        assert(insert_cands(w).take(26 * (n + 1)) =~= insert_cands(w));
    }

    // Deletions: each single character removed, for words of length two or more.
    let ghost pre1 = insert_cands(w);
    if n > 1 {
        let mut i: usize = 0;
        while i < n
            invariant
                i <= n,
                1 < n,
                n == w.len(),
                lw@ == w,
                views(r@) == pre1 + delete_cands(w).take(i as int),
            decreases n - i,
        {
            let mut nw = copy_chars(&lw);
            nw.remove(i);
            r.push(chars_to_string(&nw));
            proof {
                assert(delete_cands(w)[i as int] == w.remove(i as int));
                assert(pre1 + delete_cands(w).take(i + 1)
                    =~= (pre1 + delete_cands(w).take(i as int)).push(delete_cands(w)[i as int]));
            }
            i += 1;
        }
        proof {
            assert(delete_cands(w).take(w.len() as int) =~= delete_cands(w));
        }
    }
    proof {
        assert(pre1 + delete_cands(w) =~= views(r@));
    }

    // Transpositions: each adjacent pair swapped, for words of length two or more.
    let ghost pre2 = pre1 + delete_cands(w);
    if n > 1 {
        let mut i: usize = 0;
        while i < n - 1
            invariant
                i <= n - 1,
                1 < n,
                n == w.len(),
                lw@ == w,
                views(r@) == pre2 + transpose_cands(w).take(i as int),
            decreases n - 1 - i,
        {
            let a = lw[i];
            let b = lw[i + 1];
            let mut nw = copy_chars(&lw);
            nw.set(i, b);
            nw.set(i + 1, a);
            r.push(chars_to_string(&nw));
            proof {
                assert(transpose_cands(w)[i as int]
                    == w.update(i as int, w[i + 1]).update(i + 1, w[i as int]));
                assert(pre2 + transpose_cands(w).take(i + 1)
                    =~= (pre2 + transpose_cands(w).take(i as int)).push(
                        transpose_cands(w)[i as int],
                    ));
            }
            i += 1;
        }
        proof {
            assert(transpose_cands(w).take(w.len() - 1) =~= transpose_cands(w));
        }
    }
    proof {
        assert(pre2 + transpose_cands(w) =~= views(r@));
    }

    // Substitutions: each character replaced by each lowercase letter.
    let ghost pre3 = pre2 + transpose_cands(w);
    let mut i: usize = 0;
    while i < n
        invariant
            i <= n,
            n == w.len(),
            lw@ == w,
            views(r@) == pre3 + subst_cands(w).take(26 * (i as int)),
        decreases n - i,
    {
        let mut j: usize = 0;
        while j < 26
            invariant
                j <= 26,
                i < n,
                n == w.len(),
                lw@ == w,
                views(r@) == pre3 + subst_cands(w).take(26 * (i as int) + j as int),
            decreases 26 - j,
        {
            let mut nw = copy_chars(&lw);
            nw.set(i, letter(j));
            r.push(chars_to_string(&nw));
            proof {
                let k = 26 * (i as int) + (j as int);
                lemma_fundamental_div_mod_converse(k, 26, i as int, j as int);
                assert(subst_cands(w)[k] == w.update(i as int, alphabet()[j as int]));
                assert(pre3 + subst_cands(w).take(k + 1)
                    =~= (pre3 + subst_cands(w).take(k)).push(subst_cands(w)[k]));
            }
            j += 1;
        }
        i += 1;
    }
    proof {
        assert(pre3 + subst_cands(w).take(26 * (n as int)) =~= pre3 + subst_cands(w));
        assert(pre3 + subst_cands(w) =~= edit1_cands(w));
    }
    r
}

} // verus!
