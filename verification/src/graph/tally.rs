//! Counting by type: the tally that the engine's counts are made with.

use vstd::prelude::*;
use vstd::string::*;

use crate::graph::model::{bump, lemma_bump_skip, patterns_admit, string_texts};
use crate::text::{matches_pattern, str_eq, text};

verus! {

/// A tally as contracts see it.
pub open spec fn tally_model(v: Seq<(String, u128)>) -> Seq<(Seq<u8>, nat)> {
    v.map_values(|p: (String, u128)| (text(p.0@), p.1 as nat))
}

/// A count as it is handed out: the largest number that fits, where the
/// count does not.
pub open spec fn clip(c: nat) -> usize {
    if c <= usize::MAX {
        c as usize
    } else {
        usize::MAX
    }
}

/// The counts as they are handed out.
pub open spec fn clipped(tally: Seq<(Seq<u8>, nat)>) -> Seq<(Seq<u8>, usize)> {
    tally.map_values(|p: (Seq<u8>, nat)| (p.0, clip(p.1)))
}

/// Counts as contracts see them.
pub open spec fn counts_model(v: Seq<(String, usize)>) -> Seq<(Seq<u8>, usize)> {
    v.map_values(|p: (String, usize)| (text(p.0@), p.1))
}

/// The models of an optional list of patterns.
pub open spec fn opt_pattern_texts(patterns: Option<&[String]>) -> Option<Seq<Seq<u8>>> {
    match patterns {
        Some(ps) => Some(string_texts(ps@)),
        None => None,
    }
}

/// Whether the patterns admit a type.
pub fn patterns_ok(patterns: Option<&[String]>, t: &str) -> (r: bool)
    ensures
        r == patterns_admit(opt_pattern_texts(patterns), text(t@)),
{
    match patterns {
        None => true,
        Some(ps) => {
            let ghost pm = string_texts(ps@);
            let mut i: usize = 0;
            while i < ps.len()
                invariant
                    i <= ps@.len(),
                    patterns == Some(ps),
                    pm == string_texts(ps@),
                    forall|j: int|
                        0 <= j < i ==> !crate::text::pattern_matches(#[trigger] pm[j], text(t@)),
                decreases ps@.len() - i,
            {
                assert(pm[i as int] == text(ps@[i as int]@));
                if matches_pattern(ps[i].as_str(), t) {
                    assert(crate::text::pattern_matches(pm[i as int], text(t@)));
                    return true;
                }
                i += 1;
            }
            false
        },
    }
}

/// One more of type `t`.
pub fn bump_tally(tally: &mut Vec<(String, u128)>, t: &str)
    requires
        forall|k: int| 0 <= k < old(tally)@.len() ==> (#[trigger] old(tally)@[k]).1 < u128::MAX,
    ensures
        tally_model(final(tally)@) == bump(tally_model(old(tally)@), text(t@)),
{
    let ghost m = tally_model(tally@);
    let n: usize = tally.len();
    let mut i: usize = 0;
    while i < n
        invariant
            i <= n,
            n == tally@.len(),
            tally@ == old(tally)@,
            m == tally_model(tally@),
            forall|k: int| 0 <= k < tally@.len() ==> (#[trigger] tally@[k]).1 < u128::MAX,
            forall|j: int| 0 <= j < i ==> (#[trigger] m[j]).0 != text(t@),
        decreases n - i,
    {
        assert(m[i as int].0 == text(tally@[i as int].0@));
        if str_eq(tally[i].0.as_str(), t) {
            proof {
                lemma_bump_skip(m, text(t@), i as int);
            }
            let c: u128 = tally[i].1;
            tally[i].1 = c + 1;
            proof {
                let tail = m.subrange(i as int, m.len() as int);
                assert(tail[0] == m[i as int]);
                assert(tally_model(tally@) =~= m.subrange(0, i as int) + (seq![
                    (text(t@), m[i as int].1 + 1),
                ] + tail.drop_first()));
            }
            return ;
        }
        i += 1;
    }
    proof {
        lemma_bump_skip(m, text(t@), n as int);
        assert(m.subrange(n as int, m.len() as int) =~= Seq::<(Seq<u8>, nat)>::empty());
    }
    tally.push((t.to_owned(), 1u128));
    assert(tally_model(tally@) =~= m.subrange(0, n as int) + seq![(text(t@), 1nat)]);
}

/// The counts as they are handed out.
pub fn finish(tally: Vec<(String, u128)>) -> (r: Vec<(String, usize)>)
    ensures
        counts_model(r@) == clipped(tally_model(tally@)),
{
    let mut out: Vec<(String, usize)> = Vec::new();
    let mut i: usize = 0;
    while i < tally.len()
        invariant
            i <= tally@.len(),
            counts_model(out@) == clipped(tally_model(tally@)).subrange(0, i as int),
        decreases tally@.len() - i,
    {
        let c: u128 = tally[i].1;
        let clipped_count: usize = if c > usize::MAX as u128 {
            usize::MAX
        } else {
            c as usize
        };
        let ghost before = out@;
        out.push((tally[i].0.clone(), clipped_count));
        i += 1;
        proof {
            assert(counts_model(out@) =~= counts_model(before).push(
                (text(tally@[i - 1].0@), clipped_count),
            ));
            assert(counts_model(out@) =~= clipped(tally_model(tally@)).subrange(0, i as int));
        }
    }
    assert(clipped(tally_model(tally@)).subrange(0, tally@.len() as int) =~= clipped(
        tally_model(tally@),
    ));
    out
}

} // verus!
