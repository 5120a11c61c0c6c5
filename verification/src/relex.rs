//! Pure helpers of the relation-extraction pipeline: turning a matched
//! sentence into a surface pattern, and spelling a sentence out.

use crate::types::{Env, Pattern, WordNr, EMPTY_WORD};
use vstd::prelude::*;

verus! {

/// `i` is the last position of `w` in `s`.
pub open spec fn is_last_index(s: Seq<u32>, w: u32, i: int) -> bool {
    &&& 0 <= i < s.len()
    &&& s[i] == w
    &&& forall|j: int| i < j < s.len() ==> s[j] != w
}

pub open spec fn last_index(s: Seq<u32>, w: u32) -> int {
    choose|i: int| is_last_index(s, w, i)
}

/// The last position of a value is unique, so the `choose` above picks
/// it.
pub proof fn lemma_last_index_unique(s: Seq<u32>, w: u32, i: int)
    requires
        is_last_index(s, w, i),
    ensures
        last_index(s, w) == i,
{
    let j = last_index(s, w);
    assert(is_last_index(s, w, j));
    if i < j {
        assert(s[j] != w);
    }
    if j < i {
        assert(s[i] != w);
    }
}

/// Builds the pattern around the last occurrences of the pair's two
/// words in a sentence: the word before the earlier one, the words
/// between them, the word after the later one, and whether the pair
/// appeared in order.
pub fn extract_pattern(wpair: &crate::types::WPair, sent: &[WordNr]) -> (r: Pattern)
    requires
        wpair.w1 != wpair.w2,
        exists|i: int| 0 <= i < sent@.len() && sent@[i] == wpair.w1,
        exists|i: int| 0 <= i < sent@.len() && sent@[i] == wpair.w2,
    ensures
        ({
            let i1 = last_index(sent@, wpair.w1);
            let i2 = last_index(sent@, wpair.w2);
            let lo = if i1 < i2 {
                i1
            } else {
                i2
            };
            let hi = if i1 < i2 {
                i2
            } else {
                i1
            };
            &&& r.order == (i1 < i2)
            &&& r.prefix == (if lo == 0 {
                EMPTY_WORD
            } else {
                sent@[lo - 1]
            })
            &&& r.suffix == (if hi < sent@.len() - 1 {
                sent@[hi + 1]
            } else {
                EMPTY_WORD
            })
            &&& r.infix@ == sent@.subrange(lo + 1, hi)
            &&& r.fitness == 0
        }),
{
    let n = sent.len();
    let mut idx1: usize = 0;
    let mut idx2: usize = 0;
    let mut found1 = false;
    let mut found2 = false;
    let mut i: usize = 0;
    while i < n
        invariant
            wpair.w1 != wpair.w2,
            sent@.len() == n,
            0 <= i <= n,
            found1 ==> idx1 < i && sent@[idx1 as int] == wpair.w1 && (forall|j: int|
                idx1 < j < i ==> sent@[j] != wpair.w1),
            !found1 ==> forall|j: int| 0 <= j < i ==> sent@[j] != wpair.w1,
            found2 ==> idx2 < i && sent@[idx2 as int] == wpair.w2 && (forall|j: int|
                idx2 < j < i ==> sent@[j] != wpair.w2),
            !found2 ==> forall|j: int| 0 <= j < i ==> sent@[j] != wpair.w2,
        decreases n - i,
    {
        if sent[i] == wpair.w1 {
            idx1 = i;
            found1 = true;
        } else if sent[i] == wpair.w2 {
            idx2 = i;
            found2 = true;
        }
        i += 1;
    }
    proof {
        assert(found1 && found2);
        lemma_last_index_unique(sent@, wpair.w1, idx1 as int);
        lemma_last_index_unique(sent@, wpair.w2, idx2 as int);
    }
    let (lo, hi, order) = if idx1 < idx2 {
        (idx1, idx2, true)
    } else {
        (idx2, idx1, false)
    };
    let prefix = if lo == 0 {
        EMPTY_WORD
    } else {
        sent[lo - 1]
    };
    let suffix = if hi < n - 1 {
        sent[hi + 1]
    } else {
        EMPTY_WORD
    };
    let mut infix: Vec<WordNr> = Vec::new();
    let mut k: usize = lo + 1;
    while k < hi
        invariant
            sent@.len() == n,
            lo < hi < n,
            lo + 1 <= k <= hi,
            infix@ == sent@.subrange(lo + 1, k as int),
        decreases hi - k,
    {
        infix.push(sent[k]);
        proof {
            assert(infix@ =~= sent@.subrange(lo + 1, k + 1));
        }
        k += 1;
    }
    Pattern::new(prefix, infix, suffix, order)
}

/// Spells a sentence out as its words.
pub fn translate<'a>(sent: &[WordNr], env: &'a Env) -> (r: Vec<&'a str>)
    requires
        forall|i: int| 0 <= i < sent@.len() ==> (#[trigger] sent@[i] as int) < env.dict.words().len(),
    ensures
        r.len() == sent@.len(),
        forall|i: int| 0 <= i < r.len() ==> (#[trigger] r@[i])@ == env.dict.words()[sent@[i] as int],
{
    let mut out: Vec<&str> = Vec::new();
    let mut i: usize = 0;
    while i < sent.len()
        invariant
            forall|k: int|
                0 <= k < sent@.len() ==> (#[trigger] sent@[k] as int) < env.dict.words().len(),
            0 <= i <= sent@.len(),
            out.len() == i,
            forall|k: int|
                0 <= k < i ==> (#[trigger] out@[k])@ == env.dict.words()[sent@[k] as int],
        decreases sent.len() - i,
    {
        out.push(env.dict.get_word(&sent[i]));
        i += 1;
    }
    out
}

} // verus!
