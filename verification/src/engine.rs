//! The correction engine: scoring candidates against the frequency table and
//! picking the best correction.

use vstd::prelude::*;
use vstd::string::*;
use crate::edits::{edit1_cands, edit_distance1, lower, views};
use crate::table::FrequencyTable;

verus! {

/// A left-to-right scan of `cands` for the entry with the strictly highest
/// count in `t`, starting from the word `w0` at count `c0`: a later candidate
/// replaces the best seen only by strictly exceeding its count, so on ties
/// the earlier one stays.
pub open spec fn best_scan(
    t: Map<Seq<char>, int>,
    cands: Seq<Seq<char>>,
    w0: Seq<char>,
    c0: int,
) -> (Seq<char>, int)
    decreases cands.len(),
{
    if cands.len() == 0 {
        (w0, c0)
    } else {
        let prev = best_scan(t, cands.drop_last(), w0, c0);
        let c = cands.last();
        if t.contains_key(c) && t[c] > prev.1 {
            (c, t[c])
        } else {
            prev
        }
    }
}

/// Every candidate within two edits: one `edit1` pass applied to each member
/// of `cands` in order, all results concatenated, duplicates kept.
pub open spec fn edit2_cands(cands: Seq<Seq<char>>) -> Seq<Seq<char>>
    decreases cands.len(),
{
    if cands.len() == 0 {
        Seq::empty()
    } else {
        edit2_cands(cands.drop_last()) + edit1_cands(lower(cands.last()))
    }
}

/// The corrected word for `w` under table `t`: `w` itself when it is a key
/// of `t`; otherwise the best-scoring candidate at edit distance one (seeded
/// with `w` at count zero), unless the best at edit distance two (seeded with
/// the distance-one winner) beats it by more than a factor of 100 for words
/// shorter than six characters, or 4 for longer words.
pub open spec fn correct_spec(t: Map<Seq<char>, int>, w: Seq<char>) -> Seq<char> {
    if t.contains_key(w) {
        w
    } else {
        let d1 = edit1_cands(lower(w));
        let d2 = edit2_cands(d1);
        let r1 = best_scan(t, d1, w, 0);
        let r2 = best_scan(t, d2, r1.0, r1.1);
        let factor: int = if w.len() < 6 { 100 } else { 4 };
        if r2.1 > factor * r1.1 {
            r2.0
        } else {
            r1.0
        }
    }
}

/// A word already present in the table is corrected to itself, unchanged.
pub proof fn lemma_correct_identity(t: Map<Seq<char>, int>, w: Seq<char>)
    requires
        t.contains_key(w),
    ensures
        correct_spec(t, w) == w,
{
}

/// The confidence threshold: for a word absent from the table, the
/// distance-two winner is chosen exactly when its count exceeds the
/// distance-one winner's count more than 100-fold for words shorter than six
/// characters, or more than 4-fold for longer words; at the boundary and
/// below, the distance-one winner stays.
pub proof fn lemma_threshold(t: Map<Seq<char>, int>, w: Seq<char>)
    requires
        !t.contains_key(w),
    ensures
        ({
            let d1 = edit1_cands(lower(w));
            let r1 = best_scan(t, d1, w, 0);
            let r2 = best_scan(t, edit2_cands(d1), r1.0, r1.1);
            let factor: int = if w.len() < 6 { 100 } else { 4 };
            correct_spec(t, w) == if r2.1 > factor * r1.1 { r2.0 } else { r1.0 }
        }),
{
}

/// One scoring pass over the candidates in `cands`, continuing from the best
/// word and count seen so far.
fn scan(table: &FrequencyTable, cands: &Vec<String>, best0: String, cnt0: i32) -> (r: (String, i32))
    requires
        table.wf(),
        cnt0 >= 0,
    ensures
        (r.0@, r.1 as int) == best_scan(table@, views(cands@), best0@, cnt0 as int),
        r.1 >= cnt0,
{
    let ghost cs = views(cands@);
    let mut best = best0;
    let mut cnt = cnt0;
    let mut i: usize = 0;
    while i < cands.len()
        invariant
            table.wf(),
            i <= cands@.len(),
            cs == views(cands@),
            (best@, cnt as int) == best_scan(table@, cs.take(i as int), best0@, cnt0 as int),
            cnt >= cnt0,
        decreases cands@.len() - i,
    {
        proof {
            assert(cs.take(i + 1).drop_last() =~= cs.take(i as int));
            assert(cs.take(i + 1).last() == cs[i as int]);
        }
        match table.get(cands[i].as_str()) {
            Some(c) => {
                if c > cnt {
                    cnt = c;
                    best = cands[i].clone();
                }
            },
            None => {},
        }
        i += 1;
    }
    proof {
        assert(cs.take(cs.len() as int) =~= cs);
    }
    (best, cnt)
}

/// The corrected word for `word`. A word already in the table is returned
/// unchanged; otherwise the candidates within one and two edits are scored
/// and the winner under the length-dependent threshold is returned.
pub fn correct(table: &FrequencyTable, word: &str) -> (r: String)
    requires
        table.wf(),
    ensures
        r@ == correct_spec(table@, word@),
{
    broadcast use crate::edits::lemma_views_add;

    if let Some(_) = table.get(word) {
        return String::from_str(word);
    }

    let d1 = edit_distance1(word);
    let ghost e1 = edit1_cands(lower(word@));

    // Every word within two edits: a second pass over each first-pass candidate.
    let mut d2: Vec<String> = Vec::new();
    let mut i: usize = 0;
    while i < d1.len()
        invariant
            i <= d1@.len(),
            views(d1@) == e1,
            views(d2@) == edit2_cands(e1.take(i as int)),
        decreases d1@.len() - i,
    {
        proof {
            assert(e1[i as int] == d1@[i as int]@);
        }
        let mut e = edit_distance1(d1[i].as_str());
        proof {
            assert(e1.take(i + 1).drop_last() =~= e1.take(i as int));
            assert(e1.take(i + 1).last() == e1[i as int]);
        }
        d2.append(&mut e);
        i += 1;
    }
    proof {
        assert(e1.take(e1.len() as int) =~= e1);
    }

    let r1 = scan(table, &d1, String::from_str(word), 0);
    let r2 = scan(table, &d2, r1.0.clone(), r1.1);

    let factor: i64 = if word.unicode_len() < 6 {
        100
    } else {
        4
    };
    if (r2.1 as i64) > factor * (r1.1 as i64) {
        r2.0
    } else {
        r1.0
    }
}

/// The corrected word for `word`, given the frequency table built or loaded
/// for the corpus.
pub fn suggest(table: &FrequencyTable, word: &str) -> (r: String)
    requires
        table.wf(),
    ensures
        r@ == correct_spec(table@, word@),
{
    correct(table, word)
}

} // verus!
