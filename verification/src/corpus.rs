//! Corpus tokenization: maximal runs of ASCII letters, counted into a
//! frequency table.

use vstd::prelude::*;
use crate::edits::{lower, views, to_lower_chars};
use crate::table::FrequencyTable;

verus! {

/// Whether `c` is an ASCII letter.
pub open spec fn is_letter(c: char) -> bool {
    (97 <= c as u32 && c as u32 <= 122) || (65 <= c as u32 && c as u32 <= 90)
}

fn is_letter_exec(c: char) -> (r: bool)
    ensures
        r == is_letter(c),
{
    let u = c as u32;
    (97 <= u && u <= 122) || (65 <= u && u <= 90)
}

/// The length of the longest prefix of `s` made of letters.
pub open spec fn run_len(s: Seq<char>) -> int
    decreases s.len(),
{
    if s.len() == 0 || !is_letter(s[0]) {
        0
    } else {
        1 + run_len(s.drop_first())
    }
}

proof fn lemma_run_len_bounds(s: Seq<char>)
    ensures
        0 <= run_len(s) <= s.len(),
    decreases s.len(),
{
    if s.len() > 0 && is_letter(s[0]) {
        lemma_run_len_bounds(s.drop_first());
    }
}

/// If the characters of `t` before `n` are letters and `t` ends or has a
/// non-letter at `n`, the leading run is exactly `n` long.
proof fn lemma_run_len_exact(t: Seq<char>, n: int)
    requires
        0 <= n <= t.len(),
        forall|m: int| 0 <= m < n ==> is_letter(t[m]),
        n == t.len() || !is_letter(t[n]),
    ensures
        run_len(t) == n,
    decreases n,
{
    if n > 0 {
        assert(is_letter(t[0]));
        lemma_run_len_exact(t.drop_first(), n - 1);
    }
}

/// The tokens of `s`: its maximal runs of ASCII letters, in order.
pub open spec fn tokens(s: Seq<char>) -> Seq<Seq<char>>
    decreases s.len(),
    via tokens_decreases
{
    if s.len() == 0 {
        Seq::empty()
    } else if !is_letter(s[0]) {
        tokens(s.drop_first())
    } else {
        seq![s.take(run_len(s))] + tokens(s.skip(run_len(s)))
    }
}

#[via_fn]
proof fn tokens_decreases(s: Seq<char>) {
    if s.len() > 0 && is_letter(s[0]) {
        lemma_run_len_bounds(s);
        lemma_run_len_bounds(s.drop_first());
        assert(run_len(s) == 1 + run_len(s.drop_first()));
    }
}

/// A text has no more tokens than characters.
proof fn lemma_tokens_len(s: Seq<char>)
    ensures
        tokens(s).len() <= s.len(),
    decreases s.len(),
{
    if s.len() == 0 {
    } else if !is_letter(s[0]) {
        lemma_tokens_len(s.drop_first());
    } else {
        lemma_run_len_bounds(s);
        lemma_run_len_bounds(s.drop_first());
        assert(run_len(s) == 1 + run_len(s.drop_first()));
        lemma_tokens_len(s.skip(run_len(s)));
    }
}

/// The frequency table of a token sequence: each token at the number of
/// times it occurs.
pub open spec fn counts_of(ts: Seq<Seq<char>>) -> Map<Seq<char>, int>
    decreases ts.len(),
{
    if ts.len() == 0 {
        Map::empty()
    } else {
        let m = counts_of(ts.drop_last());
        let t = ts.last();
        m.insert(t, if m.contains_key(t) { m[t] + 1 } else { 1 })
    }
}

/// Every count is positive and at most the number of tokens.
proof fn lemma_counts_bound(ts: Seq<Seq<char>>)
    ensures
        forall|k: Seq<char>| #[trigger] counts_of(ts).contains_key(k)
            ==> 0 < counts_of(ts)[k] <= ts.len(),
    decreases ts.len(),
{
    if ts.len() > 0 {
        lemma_counts_bound(ts.drop_last());
        assert forall|k: Seq<char>| #[trigger] counts_of(ts).contains_key(k)
            implies 0 < counts_of(ts)[k] <= ts.len() by {
            let m = counts_of(ts.drop_last());
            if k != ts.last() {
                assert(m.contains_key(k));
            }
        }
    }
}

/// The counts are exactly the multiplicities of the token multiset.
proof fn lemma_counts_multiset(ts: Seq<Seq<char>>)
    ensures
        forall|k: Seq<char>|
            #[trigger] counts_of(ts).contains_key(k) <==> ts.to_multiset().count(k) > 0,
        forall|k: Seq<char>| #[trigger] counts_of(ts).contains_key(k)
            ==> counts_of(ts)[k] == ts.to_multiset().count(k),
    decreases ts.len(),
{
    broadcast use vstd::seq_lib::group_to_multiset_ensures;
    broadcast use vstd::multiset::group_multiset_axioms;

    if ts.len() > 0 {
        lemma_counts_multiset(ts.drop_last());
        assert(ts =~= ts.drop_last().push(ts.last()));
        assert(ts.to_multiset() =~= ts.drop_last().to_multiset().insert(ts.last()));
        let m = counts_of(ts.drop_last());
        let t = ts.last();
        assert forall|k: Seq<char>|
            #[trigger] counts_of(ts).contains_key(k) <==> ts.to_multiset().count(k) > 0 by {
            if k == t {
                assert(ts.to_multiset().count(k) == ts.drop_last().to_multiset().count(k) + 1);
            } else {
                assert(ts.to_multiset().count(k) == ts.drop_last().to_multiset().count(k));
            }
        }
        assert forall|k: Seq<char>| #[trigger] counts_of(ts).contains_key(k)
            implies counts_of(ts)[k] == ts.to_multiset().count(k) by {
            if k == t {
                if m.contains_key(t) {
                    assert(ts.drop_last().to_multiset().count(t) > 0);
                } else {
                    assert(!(ts.drop_last().to_multiset().count(t) > 0));
                }
                assert(ts.to_multiset().count(k) == ts.drop_last().to_multiset().count(k) + 1);
            } else {
                assert(m.contains_key(k));
                assert(ts.to_multiset().count(k) == ts.drop_last().to_multiset().count(k));
            }
        }
    }
}

/// Counting is order-independent: two token sequences holding the same words
/// the same number of times (the same multiset) yield identical frequency
/// tables.
pub proof fn lemma_counts_order_independent(a: Seq<Seq<char>>, b: Seq<Seq<char>>)
    requires
        a.to_multiset() == b.to_multiset(),
    ensures
        counts_of(a) == counts_of(b),
{
    lemma_counts_multiset(a);
    lemma_counts_multiset(b);
    assert(counts_of(a) =~= counts_of(b));
}

/// The tokens of `chars`, each as its own string, in order of appearance.
fn tokenize(chars: &Vec<char>) -> (r: Vec<String>)
    ensures
        views(r@) == tokens(chars@),
{
    broadcast use crate::edits::lemma_views_push;

    let n = chars.len();
    let mut r: Vec<String> = Vec::new();
    proof {
        assert(chars@.skip(0) =~= chars@);
        assert(views(r@) + tokens(chars@) =~= tokens(chars@));
    }
    let mut i: usize = 0;
    while i < n
        invariant
            i <= n,
            n == chars@.len(),
            views(r@) + tokens(chars@.skip(i as int)) == tokens(chars@),
        decreases n - i,
    {
        if !is_letter_exec(chars[i]) {
            proof {
                assert(chars@.skip(i as int).drop_first() =~= chars@.skip(i + 1));
            }
            i += 1;
        } else {
            let mut tok = String::new();
            let mut j: usize = i;
            while j < n && is_letter_exec(chars[j])
                invariant
                    i <= j <= n,
                    n == chars@.len(),
                    forall|m: int| i <= m < j ==> is_letter(chars@[m]),
                    tok@ == chars@.subrange(i as int, j as int),
                decreases n - j,
            {
                crate::edits::push_char(&mut tok, chars[j]);
                proof {
                    assert(chars@.subrange(i as int, j + 1)
                        =~= chars@.subrange(i as int, j as int).push(chars@[j as int]));
                }
                j += 1;
            }
            proof {
                let t0 = chars@.skip(i as int);
                lemma_run_len_exact(t0, j - i);
                assert(is_letter(t0[0]));
                assert(t0.take(j - i) =~= chars@.subrange(i as int, j as int));
                assert(t0.skip(j - i) =~= chars@.skip(j as int));
                assert((views(r@).push(tok@)) + tokens(chars@.skip(j as int))
                    =~= views(r@) + tokens(t0));
            }
            r.push(tok);
            i = j;
        }
    }
    proof {
        assert(chars@.skip(n as int) =~= Seq::<char>::empty());
        assert(views(r@) + tokens(chars@.skip(n as int)) =~= views(r@));
    }
    r
}

/// The frequency table of a corpus text: the text is lowercased, its maximal
/// runs of ASCII letters become tokens, and each token is counted.
pub fn from_corpus(text: &str) -> (t: FrequencyTable)
    requires
        text@.len() <= i32::MAX,
    ensures
        t.wf(),
        t@ == counts_of(tokens(lower(text@))),
{
    let chars = to_lower_chars(text);
    let toks = tokenize(&chars);
    let ghost ts = tokens(lower(text@));
    proof {
        lemma_tokens_len(lower(text@));
        assert(lower(text@).len() == text@.len());
    }
    let mut t = FrequencyTable::new();
    let mut k: usize = 0;
    while k < toks.len()
        invariant
            k <= toks@.len(),
            views(toks@) == ts,
            ts.len() <= i32::MAX,
            t.wf(),
            t@ == counts_of(ts.take(k as int)),
        decreases toks@.len() - k,
    {
        proof {
            lemma_counts_bound(ts.take(k as int));
            assert(ts.take(k + 1).drop_last() =~= ts.take(k as int));
            assert(ts.take(k + 1).last() == ts[k as int]);
            assert(toks@[k as int]@ == ts[k as int]);
        }
        t.increment(toks[k].as_str());
        k += 1;
    }
    proof {
        assert(ts.take(ts.len() as int) =~= ts);
    }
    t
}

} // verus!
