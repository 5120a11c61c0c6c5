//! Supporting data types of the extraction pipeline: word pairs,
//! patterns, the dictionary, the inverted index, the sentence store,
//! and the retrieval quality measure.

use std::collections::HashMap;
use std::collections::HashSet;
use std::io::Write;
use vstd::prelude::*;

verus! {

broadcast use vstd::std_specs::hash::group_hash_axioms;

pub type SentenceId = u32;

pub type WordNr = u32;

/// Sentinel word number standing for "no word".
pub const EMPTY_WORD: u32 = 0xffff_ffff;

/// Relies on `String::push_str`: the string slice is appended to the
/// end of the string.
pub assume_specification[ String::push_str ](s: &mut String, other: &str)
    ensures
        final(s)@ == old(s)@ + other@,
;

/// Relies on `str::ends_with` with a `char` pattern: true exactly when
/// the last character is that character.
#[verifier::external_body]
fn ends_with_slash(s: &str) -> (r: bool)
    ensures
        r == (s@.len() > 0 && s@.last() == '/'),
{
    s.ends_with('/')
}

/// Relies on `std::io::Stdout`: writes one line to standard output.
#[verifier::external_body]
fn emit_line(s: &str) {
    let _ = writeln!(std::io::stdout(), "{}", s);
}

/// Appends the file name to the directory, inserting the separator
/// unless the directory already ends with one.
pub fn build_directory_string(dir: String, bin_file: &str) -> (r: String)
    requires
        dir@.len() > 0,
    ensures
        r@ == if dir@.last() == '/' {
            dir@ + bin_file@
        } else {
            dir@.push('/') + bin_file@
        },
{
    let mut dir = dir;
    let ghost pre = dir@;
    if !ends_with_slash(dir.as_str()) {
        dir.push_str("/");
        proof {
            reveal_strlit("/");
            assert("/"@ =~= seq!['/']);
            assert(dir@ =~= pre.push('/'));
        }
    }
    dir.push_str(bin_file);
    dir
}

/// A pair of words with the fitness of the relation between them.
pub struct WPair {
    pub w1: WordNr,
    pub w2: WordNr,
    pub fitness: i16,
}

impl Clone for WPair {
    fn clone(&self) -> (r: WPair)
        ensures
            r.w1 == self.w1,
            r.w2 == self.w2,
            r.fitness == self.fitness,
    {
        WPair { w1: self.w1, w2: self.w2, fitness: self.fitness }
    }
}

impl WPair {
    pub fn new(w1: WordNr, w2: WordNr) -> (r: WPair)
        ensures
            r.w1 == w1,
            r.w2 == w2,
            r.fitness == 0,
    {
        WPair { w1, w2, fitness: 0i16 }
    }

    /// Looks both words up in the dictionary; the caller must know
    /// they are present.
    pub fn new_str(w1: &str, w2: &str, env: &Env) -> (r: WPair)
        requires
            env.dict.wf(),
            env.dict.contains_word(w1@),
            env.dict.contains_word(w2@),
        ensures
            (r.w1 as int) < env.dict.words().len() && env.dict.words()[r.w1 as int] == w1@,
            (r.w2 as int) < env.dict.words().len() && env.dict.words()[r.w2 as int] == w2@,
            r.fitness == 0,
    {
        let w1 = env.dict.get_nr(w1);
        let w2 = env.dict.get_nr(w2);
        WPair::new(w1, w2)
    }

    /// Prints the pair with its words spelled out.
    pub fn println(&self, env: &Env)
        requires
            self.w1 == EMPTY_WORD || (self.w1 as int) < env.dict.words().len(),
            self.w2 == EMPTY_WORD || (self.w2 as int) < env.dict.words().len(),
    {
        let mut line = self.fitness.to_string();
        line.push_str(": ");
        if self.w1 == EMPTY_WORD {
            line.push_str("empty");
        } else {
            line.push_str(env.dict.get_word(&self.w1));
        }
        line.push_str(", ");
        if self.w2 == EMPTY_WORD {
            line.push_str("empty");
        } else {
            line.push_str(env.dict.get_word(&self.w2));
        }
        emit_line(line.as_str());
    }
}

/// A surface pattern: a prefix word, infix words, a suffix word, the
/// match order, and a fitness.
pub struct Pattern {
    pub prefix: WordNr,
    pub infix: Vec<WordNr>,
    pub suffix: WordNr,
    pub order: bool,
    pub fitness: i16,
}

impl Clone for Pattern {
    fn clone(&self) -> (r: Pattern)
        ensures
            r.prefix == self.prefix,
            r.infix@ == self.infix@,
            r.suffix == self.suffix,
            r.order == self.order,
            r.fitness == self.fitness,
    {
        Pattern {
            prefix: self.prefix,
            infix: crate::copy_u32_vec(&self.infix),
            suffix: self.suffix,
            order: self.order,
            fitness: self.fitness,
        }
    }
}

impl Pattern {
    pub fn new(prefix: WordNr, infix: Vec<WordNr>, suffix: WordNr, order: bool) -> (r: Pattern)
        ensures
            r.prefix == prefix,
            r.infix@ == infix@,
            r.suffix == suffix,
            r.order == order,
            r.fitness == 0,
    {
        Pattern { prefix, infix, suffix, order, fitness: 0i16 }
    }

    /// Prints the pattern with its words spelled out.
    pub fn println(&self, env: &Env)
        requires
            self.prefix == EMPTY_WORD || (self.prefix as int) < env.dict.words().len(),
            self.suffix == EMPTY_WORD || (self.suffix as int) < env.dict.words().len(),
            forall|i: int|
                0 <= i < self.infix.len() ==> (#[trigger] self.infix@[i] as int)
                    < env.dict.words().len(),
    {
        let mut line = self.fitness.to_string();
        line.push_str(": ");
        if self.prefix == EMPTY_WORD {
            line.push_str("empty");
        } else {
            line.push_str(env.dict.get_word(&self.prefix));
        }
        line.push_str(" [");
        let mut i: usize = 0;
        while i < self.infix.len()
            invariant
                forall|k: int|
                    0 <= k < self.infix.len() ==> (#[trigger] self.infix@[k] as int)
                        < env.dict.words().len(),
                0 <= i <= self.infix.len(),
            decreases self.infix.len() - i,
        {
            line.push_str(env.dict.get_word(&self.infix[i]));
            line.push_str(" ");
            i += 1;
        }
        line.push_str("] ");
        if self.suffix == EMPTY_WORD {
            line.push_str("empty");
        } else {
            line.push_str(env.dict.get_word(&self.suffix));
        }
        line.push_str(if self.order {
            " (ordered)"
        } else {
            " (reversed)"
        });
        emit_line(line.as_str());
    }
}

/// For each word number, the set of sentences it occurs in.
pub struct InvertedIndex {
    pub inverted_idx: HashMap<WordNr, HashSet<SentenceId>>,
}

impl InvertedIndex {
    pub fn new() -> (r: InvertedIndex)
        ensures
            r.inverted_idx@ == Map::<WordNr, HashSet<SentenceId>>::empty(),
    {
        InvertedIndex { inverted_idx: HashMap::new() }
    }
}

/// The corpus, one sentence as one list of word numbers.
pub struct Sentences {
    pub sentences: Vec<Vec<WordNr>>,
}

impl Sentences {
    pub fn new() -> (r: Sentences)
        ensures
            r.sentences@.len() == 0,
    {
        Sentences { sentences: Vec::new() }
    }
}

/// The dictionary: word number `i` is the `i`-th distinct word added.
pub struct Dict {
    pub dict_vec: Vec<String>,
}

impl Dict {
    /// The words, as character sequences, in insertion order.
    pub open spec fn words(&self) -> Seq<Seq<char>> {
        self.dict_vec@.map_values(|s: String| s@)
    }

    /// No word occurs twice, and every word number fits in 32 bits.
    pub open spec fn wf(&self) -> bool {
        &&& self.words().len() <= 0xffff_ffff
        &&& forall|i: int, j: int|
            #![trigger self.words()[i], self.words()[j]]
            0 <= i < j < self.words().len() ==> self.words()[i] != self.words()[j]
    }

    /// The dictionary knows the word `w`.
    pub open spec fn contains_word(&self, w: Seq<char>) -> bool {
        exists|i: int| 0 <= i < self.words().len() && self.words()[i] == w
    }

    pub fn new() -> (r: Dict)
        ensures
            r.words().len() == 0,
            r.wf(),
    {
        Dict { dict_vec: Vec::new() }
    }

    /// The word's number; the caller must know the word is present.
    pub fn get_nr(&self, w: &str) -> (r: WordNr)
        requires
            self.wf(),
            self.contains_word(w@),
        ensures
            (r as int) < self.words().len(),
            self.words()[r as int] == w@,
    {
        let found = self.get_opt_nr(w);
        found.unwrap()
    }

    /// The word's number, if the word is present.
    pub fn get_opt_nr(&self, w: &str) -> (r: Option<WordNr>)
        requires
            self.wf(),
        ensures
            match r {
                Some(nr) => (nr as int) < self.words().len() && self.words()[nr as int] == w@,
                None => !self.contains_word(w@),
            },
    {
        let n = self.dict_vec.len();
        let key = w.to_owned();
        let mut i: usize = 0;
        while i < n
            invariant
                self.wf(),
                self.dict_vec.len() == n,
                key@ == w@,
                0 <= i <= n,
                forall|k: int| 0 <= k < i ==> self.words()[k] != w@,
            decreases n - i,
        {
            proof {
                assert(self.words()[i as int] == self.dict_vec@[i as int]@);
            }
            if self.dict_vec[i] == key {
                return Some(i as u32);
            }
            i += 1;
        }
        None
    }

    /// The word behind a word number.
    pub fn get_word(&self, n: &WordNr) -> (r: &str)
        requires
            (*n as int) < self.words().len(),
        ensures
            r@ == self.words()[*n as int],
    {
        self.dict_vec[*n as usize].as_str()
    }
}

/// The whole processed corpus: sentences, inverted index, dictionary,
/// and bookkeeping for the bootstrap pairs.
pub struct Env {
    pub sentences: Sentences,
    pub inverted_idx: InvertedIndex,
    pub dict: Dict,
    pub pairs: Vec<WPair>,
    pub the: WordNr,
}

impl Env {
    pub fn new() -> (r: Env)
        ensures
            r.sentences.sentences@.len() == 0,
            r.inverted_idx.inverted_idx@ == Map::<WordNr, HashSet<SentenceId>>::empty(),
            r.dict.words().len() == 0,
            r.dict.wf(),
            r.pairs@.len() == 0,
            r.the == EMPTY_WORD,
    {
        Env {
            sentences: Sentences::new(),
            inverted_idx: InvertedIndex::new(),
            dict: Dict::new(),
            pairs: Vec::new(),
            the: EMPTY_WORD,
        }
    }

    /// The sentences a word occurs in; the caller must know the word
    /// is indexed.
    pub fn get_inverted_idx(&self, w: &WordNr) -> (r: &HashSet<SentenceId>)
        requires
            self.inverted_idx.inverted_idx@.contains_key(*w),
        ensures
            *r == self.inverted_idx.inverted_idx@[*w],
    {
        self.inverted_idx.inverted_idx.get(w).unwrap()
    }

    /// One sentence of the corpus.
    pub fn get_sentence(&self, s_id: &SentenceId) -> (r: &Vec<WordNr>)
        requires
            (*s_id as int) < self.sentences.sentences@.len(),
        ensures
            r@ == self.sentences.sentences@[*s_id as int]@,
    {
        &self.sentences.sentences[*s_id as usize]
    }

    /// Adds a word to the dictionary, if it is new, and returns its
    /// number.
    pub fn add_word(&mut self, w: &str) -> (r: WordNr)
        requires
            old(self).dict.wf(),
            old(self).dict.words().len() < 0xffff_ffff,
        ensures
            final(self).dict.wf(),
            final(self).sentences == old(self).sentences,
            final(self).inverted_idx == old(self).inverted_idx,
            final(self).pairs == old(self).pairs,
            final(self).the == old(self).the,
            (r as int) < final(self).dict.words().len(),
            final(self).dict.words()[r as int] == w@,
            old(self).dict.contains_word(w@) ==> final(self).dict.words() == old(
                self,
            ).dict.words(),
            !old(self).dict.contains_word(w@) ==> final(self).dict.words() == old(
                self,
            ).dict.words().push(w@),
    {
        let found = self.dict.get_opt_nr(w);
        match found {
            Some(nr) => nr,
            None => {
                let i = self.dict.dict_vec.len();
                self.dict.dict_vec.push(w.to_owned());
                proof {
                    assert(self.dict.words() =~= old(self).dict.words().push(w@));
                    assert forall|a: int, b: int|
                        #![trigger self.dict.words()[a], self.dict.words()[b]]
                        0 <= a < b < self.dict.words().len() implies self.dict.words()[a]
                        != self.dict.words()[b] by {
                        if b == self.dict.words().len() - 1 {
                            assert(!old(self).dict.contains_word(w@));
                            assert(self.dict.words()[a] == old(self).dict.words()[a]);
                        }
                    }
                }
                i as u32
            }
        }
    }

    /// Records that word `w` occurs in sentence `s_id`.
    pub fn add_inv_idx(&mut self, w: WordNr, s_id: SentenceId)
        ensures
            final(self).sentences == old(self).sentences,
            final(self).dict == old(self).dict,
            final(self).pairs == old(self).pairs,
            final(self).the == old(self).the,
            final(self).inverted_idx.inverted_idx@.dom() == old(
                self,
            ).inverted_idx.inverted_idx@.dom().insert(w),
            final(self).inverted_idx.inverted_idx@[w]@ == (if old(
                self,
            ).inverted_idx.inverted_idx@.contains_key(w) {
                old(self).inverted_idx.inverted_idx@[w]@
            } else {
                Set::<SentenceId>::empty()
            }).insert(s_id),
            forall|k: WordNr|
                old(self).inverted_idx.inverted_idx@.contains_key(k) && k != w ==> final(self).inverted_idx.inverted_idx@[k] == old(self).inverted_idx.inverted_idx@[k],
    {
        let existing = self.inverted_idx.inverted_idx.remove(&w);
        match existing {
            Some(set) => {
                let mut set = set;
                set.insert(s_id);
                self.inverted_idx.inverted_idx.insert(w, set);
            }
            None => {
                let mut set: HashSet<SentenceId> = HashSet::new();
                set.insert(s_id);
                self.inverted_idx.inverted_idx.insert(w, set);
            }
        }
        proof {
            assert(final(self).inverted_idx.inverted_idx@.dom() =~= old(
                self,
            ).inverted_idx.inverted_idx@.dom().insert(w));
        }
    }
}

/// Checks that every dictionary word has an inverted-index entry and
/// returns the word numbers of those that do not, in increasing
/// order; a sound environment yields the empty list.
pub fn soundness_test(env: &Env) -> (lost: Vec<WordNr>)
    requires
        env.dict.words().len() <= 0xffff_ffff,
    ensures
        forall|k: int|
            0 <= k < lost.len() ==> (#[trigger] lost@[k] as int) < env.dict.words().len()
                && !env.inverted_idx.inverted_idx@.contains_key(lost@[k]),
        forall|w: int|
            0 <= w < env.dict.words().len() && !(#[trigger] env.inverted_idx.inverted_idx@.contains_key(
                w as WordNr,
            )) ==> lost@.contains(w as WordNr),
        forall|k1: int, k2: int|
            #![trigger lost@[k1], lost@[k2]]
            0 <= k1 < k2 < lost.len() ==> lost@[k1] < lost@[k2],
{
    let n = env.dict.dict_vec.len();
    let mut lost_words: Vec<WordNr> = Vec::new();
    let mut w: usize = 0;
    while w < n
        invariant
            env.dict.words().len() == n,
            n <= 0xffff_ffff,
            0 <= w <= n,
            forall|k: int|
                0 <= k < lost_words.len() ==> (#[trigger] lost_words@[k] as int) < w
                    && !env.inverted_idx.inverted_idx@.contains_key(lost_words@[k]),
            forall|v: int|
                0 <= v < w && !(#[trigger] env.inverted_idx.inverted_idx@.contains_key(v as WordNr))
                    ==> lost_words@.contains(v as WordNr),
            forall|k1: int, k2: int|
                #![trigger lost_words@[k1], lost_words@[k2]]
                0 <= k1 < k2 < lost_words.len() ==> lost_words@[k1] < lost_words@[k2],
        decreases n - w,
    {
        if !env.inverted_idx.inverted_idx.contains_key(&(w as u32)) {
            let ghost prev = lost_words@;
            lost_words.push(w as u32);
            proof {
                assert forall|v: int|
                    #![trigger env.inverted_idx.inverted_idx@.contains_key(v as WordNr)]
                    0 <= v < w + 1 && !env.inverted_idx.inverted_idx@.contains_key(
                        v as WordNr,
                    ) implies lost_words@.contains(v as WordNr) by {
                    if v < w {
                        assert(prev.contains(v as WordNr));
                        let k = choose|k: int| 0 <= k < prev.len() && prev[k] == v as WordNr;
                        assert(lost_words@[k] == v as WordNr);
                    } else {
                        assert(lost_words@[lost_words@.len() - 1] == w as WordNr);
                    }
                }
            }
        }
        w += 1;
    }
    lost_words
}

/// The input of the pair-bootstrap run: seed word pairs.
pub struct DipreInput {
    pub pairs: Vec<(String, String)>,
}

impl DipreInput {
    pub fn new(pairs: Vec<(&str, &str)>) -> (r: DipreInput)
        ensures
            r.pairs@.len() == pairs@.len(),
            forall|i: int|
                0 <= i < pairs@.len() ==> (#[trigger] r.pairs@[i]).0@ == pairs@[i].0@
                    && r.pairs@[i].1@ == pairs@[i].1@,
    {
        let mut out: Vec<(String, String)> = Vec::new();
        let mut i: usize = 0;
        while i < pairs.len()
            invariant
                0 <= i <= pairs.len(),
                out.len() == i,
                forall|k: int|
                    0 <= k < i ==> (#[trigger] out@[k]).0@ == pairs@[k].0@ && out@[k].1@
                        == pairs@[k].1@,
            decreases pairs.len() - i,
        {
            out.push((pairs[i].0.to_owned(), pairs[i].1.to_owned()));
            i += 1;
        }
        DipreInput { pairs: out }
    }
}

/// The input of the concept-extraction run: a seed word set.
pub struct CoocInput {
    pub set: Vec<String>,
}

impl CoocInput {
    pub fn new(set: Vec<&str>) -> (r: CoocInput)
        ensures
            r.set@.len() == set@.len(),
            forall|i: int| 0 <= i < set@.len() ==> (#[trigger] r.set@[i])@ == set@[i]@,
    {
        let mut out: Vec<String> = Vec::new();
        let mut i: usize = 0;
        while i < set.len()
            invariant
                0 <= i <= set.len(),
                out.len() == i,
                forall|k: int| 0 <= k < i ==> (#[trigger] out@[k])@ == set@[k]@,
            decreases set.len() - i,
        {
            out.push(set[i].to_owned());
            i += 1;
        }
        CoocInput { set: out }
    }
}

/// A logger that prints to standard output.
pub struct DefaultLogger {}

impl DefaultLogger {
    pub fn new() -> (r: DefaultLogger) {
        DefaultLogger {  }
    }

    /// Prints one line.
    pub fn log(&self, s: &str) {
        emit_line(s);
    }
}

/// Position `i` holds the first occurrence of its value in `s`.
pub open spec fn first_occurrence(s: Seq<u32>, i: int) -> bool {
    forall|j: int| 0 <= j < i ==> s[j] != s[i]
}

/// How many distinct values the first `n` positions of `s` hold.
pub open spec fn distinct_below(s: Seq<u32>, n: int) -> int
    decreases n,
{
    if n <= 0 {
        0
    } else {
        distinct_below(s, n - 1) + (if first_occurrence(s, n - 1) {
            1int
        } else {
            0int
        })
    }
}

/// How many distinct values of the first `n` positions of `s` occur in
/// `r`.
pub open spec fn common_below(s: Seq<u32>, r: Seq<u32>, n: int) -> int
    decreases n,
{
    if n <= 0 {
        0
    } else {
        common_below(s, r, n - 1) + (if first_occurrence(s, n - 1) && r.contains(s[n - 1]) {
            1int
        } else {
            0int
        })
    }
}

/// Both counts grow by at most one per position.
pub proof fn lemma_counts_below(s: Seq<u32>, r: Seq<u32>, n: int)
    requires
        n >= 0,
    ensures
        0 <= distinct_below(s, n) <= n,
        0 <= common_below(s, r, n) <= distinct_below(s, n),
    decreases n,
{
    if n > 0 {
        lemma_counts_below(s, r, n - 1);
    }
}

/// Retrieval quality as exact ratios: precision is the share of the
/// distinct retrieved words that are relevant, recall the share of the
/// distinct reference words that were retrieved; each comes as a
/// numerator/denominator pair.
pub fn calc_precision_recall(retrieval_erg: &[WordNr], reference: &[WordNr]) -> (r: (
    (u64, u64),
    (u64, u64),
))
    ensures
        r.0.0 == common_below(retrieval_erg@, reference@, retrieval_erg@.len() as int),
        r.0.1 == distinct_below(retrieval_erg@, retrieval_erg@.len() as int),
        r.1.0 == r.0.0,
        r.1.1 == distinct_below(reference@, reference@.len() as int),
{
    let n = retrieval_erg.len();
    let m = reference.len();
    let mut tp: u64 = 0;
    let mut distinct_retrieved: u64 = 0;
    let mut i: usize = 0;
    while i < n
        invariant
            retrieval_erg@.len() == n,
            reference@.len() == m,
            0 <= i <= n,
            tp == common_below(retrieval_erg@, reference@, i as int),
            distinct_retrieved == distinct_below(retrieval_erg@, i as int),
        decreases n - i,
    {
        proof {
            lemma_counts_below(retrieval_erg@, reference@, i as int);
        }
        let mut first: bool = true;
        let mut j: usize = 0;
        while j < i
            invariant
                retrieval_erg@.len() == n,
                0 <= i < n,
                0 <= j <= i,
                first == forall|k: int| 0 <= k < j ==> retrieval_erg@[k] != retrieval_erg@[i as int],
            decreases i - j,
        {
            if retrieval_erg[j] == retrieval_erg[i] {
                first = false;
            }
            j += 1;
        }
        if first {
            distinct_retrieved += 1;
            let mut found: bool = false;
            let mut k: usize = 0;
            while k < m
                invariant
                    reference@.len() == m,
                    retrieval_erg@.len() == n,
                    0 <= i < n,
                    0 <= k <= m,
                    found == exists|t: int|
                        0 <= t < k && reference@[t] == retrieval_erg@[i as int],
                decreases m - k,
            {
                if reference[k] == retrieval_erg[i] {
                    found = true;
                }
                k += 1;
            }
            if found {
                proof {
                    assert(reference@.contains(retrieval_erg@[i as int]));
                }
                tp += 1;
            } else {
                proof {
                    assert(!reference@.contains(retrieval_erg@[i as int]));
                }
            }
        }
        i += 1;
    }
    let mut distinct_reference: u64 = 0;
    let mut i: usize = 0;
    while i < m
        invariant
            reference@.len() == m,
            0 <= i <= m,
            distinct_reference == distinct_below(reference@, i as int),
        decreases m - i,
    {
        proof {
            lemma_counts_below(reference@, reference@, i as int);
        }
        let mut first: bool = true;
        let mut j: usize = 0;
        while j < i
            invariant
                reference@.len() == m,
                0 <= i < m,
                0 <= j <= i,
                first == forall|k: int| 0 <= k < j ==> reference@[k] != reference@[i as int],
            decreases i - j,
        {
            if reference[j] == reference[i] {
                first = false;
            }
            j += 1;
        }
        if first {
            distinct_reference += 1;
        }
        i += 1;
    }
    ((tp, distinct_retrieved), (tp, distinct_reference))
}

} // verus!
