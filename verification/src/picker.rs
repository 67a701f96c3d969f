//! The encoding picker's search: which encodings a typed needle lists, and
//! in what order. Scoring an encoding's label against the needle is left
//! to the caller.
use vstd::prelude::*;

use crate::recent::{
    lemma_insert_sorted, lemma_with_time_add, sorted_desc, stable_sorted_desc, with_time,
};
use crate::text::chars_of;

verus! {

/// ASCII white space, as `u8::is_ascii_whitespace` has it.
pub open spec fn is_ascii_ws(c: char) -> bool {
    c == ' ' || c == '\t' || c == '\n' || c == '\x0C' || c == '\r'
}

/// A needle that trimming its ASCII white space leaves empty.
pub open spec fn blank(needle: Seq<char>) -> bool {
    forall|i: int| 0 <= i < needle.len() ==> is_ascii_ws(#[trigger] needle[i])
}

/// The entries among the first `n` with a positive score, each with its
/// score, in list order.
pub open spec fn positive_scores(scores: Seq<i32>, n: int) -> Seq<(usize, u64)>
    decreases n,
{
    if n <= 0 {
        Seq::empty()
    } else {
        positive_scores(scores, n - 1) + if scores[n - 1] > 0 {
            seq![((n - 1) as usize, scores[n - 1] as u64)]
        } else {
            Seq::empty()
        }
    }
}

/// `r` lists the entries with a positive score, best first, entries with
/// the same score in list order.
pub open spec fn ranked(r: Seq<usize>, scores: Seq<i32>) -> bool {
    exists|o: Seq<(usize, u64)>|
        stable_sorted_desc(o, positive_scores(scores, scores.len() as int)) && r == o.map_values(
            |e: (usize, u64)| e.0,
        )
}

/// The encodings to list for the typed `needle`: none chosen (`None`, the
/// full list is shown) when the needle is blank, else the indices of the
/// encodings whose label scored above zero (`scores`, one per encoding,
/// against the needle with its ASCII white space trimmed), best first.
pub fn encoding_picker_update_list(needle: &str, scores: &[i32]) -> (r: Option<Vec<usize>>)
    ensures
        r is None <==> blank(needle@),
        r matches Some(v) ==> ranked(v@, scores@),
{
    let v = chars_of(needle);
    let mut k: usize = 0;
    let mut all_blank = true;
    while k < v.len()
        invariant
            k <= v@.len(),
            v@ == needle@,
            all_blank == forall|i: int| 0 <= i < k ==> is_ascii_ws(#[trigger] needle@[i]),
        decreases v.len() - k,
    {
        let c = v[k];
        if !(c == ' ' || c == '\t' || c == '\n' || c == '\x0C' || c == '\r') {
            all_blank = false;
        }
        k = k + 1;
    }
    if all_blank {
        return None;
    }
    let ghost s = positive_scores(scores@, scores@.len() as int);
    let mut out: Vec<(usize, u64)> = Vec::new();
    let mut i: usize = 0;
    proof {
        assert forall|t: u64| #[trigger] with_time(out@, t) == with_time(
            positive_scores(scores@, 0),
            t,
        ) by {
            assert(out@ =~= positive_scores(scores@, 0));
        }
    }
    while i < scores.len()
        invariant
            i <= scores@.len(),
            sorted_desc(out@),
            forall|t: u64| #[trigger] with_time(out@, t) == with_time(
                positive_scores(scores@, i as int),
                t,
            ),
        decreases scores.len() - i,
    {
        let ghost before = positive_scores(scores@, i as int);
        if scores[i] > 0 {
            let x: (usize, u64) = (i, scores[i] as u64);
            let ghost o = out@;
            let mut p: usize = 0;
            while p < out.len() && out[p].1 >= x.1
                invariant
                    p <= out@.len(),
                    o == out@,
                    forall|j: int| 0 <= j < p ==> (#[trigger] o[j]).1 >= x.1,
                decreases out.len() - p,
            {
                p += 1;
            }
            proof {
                lemma_insert_sorted(o, x, p as int);
            }
            out.insert(p, x);
            proof {
                assert(positive_scores(scores@, i + 1) == before + seq![x]);
                assert forall|t: u64| #[trigger] with_time(out@, t) == with_time(
                    positive_scores(scores@, i + 1),
                    t,
                ) by {
                    lemma_with_time_add(before, seq![x], t);
                }
            }
        } else {
            proof {
                assert(positive_scores(scores@, i + 1) =~= before);
            }
        }
        i = i + 1;
    }
    let mut r: Vec<usize> = Vec::new();
    let mut j: usize = 0;
    while j < out.len()
        invariant
            j <= out@.len(),
            r@ == out@.take(j as int).map_values(|e: (usize, u64)| e.0),
        decreases out.len() - j,
    {
        r.push(out[j].0);
        j = j + 1;
        assert(r@ =~= out@.take(j as int).map_values(|e: (usize, u64)| e.0));
    }
    assert(out@.take(j as int) =~= out@);
    assert(stable_sorted_desc(out@, positive_scores(scores@, scores@.len() as int)));
    Some(r)
}

} // verus!
