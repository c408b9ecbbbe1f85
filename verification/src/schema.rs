//! The lookup structure built from a raw dictionary: every spelling and every
//! proper prefix of a spelling becomes a key, classified as an exact spelling,
//! a unique abbreviating prefix, or an ambiguous shared prefix.

use vstd::prelude::*;

verus! {

/// Classification attached to a dictionary key (a spelling or one of its
/// proper prefixes).
pub enum Candidate {
    /// The key is itself a complete spelling. The first field is the glyph of
    /// the first entry with this spelling; the second holds glyphs of other
    /// entries that share or abbreviate to this key, in first-seen order.
    Exact(String, Vec<String>),
    /// The key is a proper prefix of exactly one spelling: abbreviating to it
    /// is unambiguous, and it resolves to that spelling's glyph.
    Unique(String),
    /// The key is a proper prefix shared by two or more spellings; it never
    /// resolves during plain segmentation.
    Duplicates(Vec<String>),
}

/// Mathematical shape of a `Candidate`: glyphs as character sequences.
pub ghost enum CandView {
    Exact(Seq<char>, Seq<Seq<char>>),
    Unique(Seq<char>),
    Duplicates(Seq<Seq<char>>),
}

impl View for Candidate {
    type V = CandView;

    open spec fn view(&self) -> CandView {
        match self {
            Candidate::Exact(word, alts) => CandView::Exact(word@, alts.deep_view()),
            Candidate::Unique(word) => CandView::Unique(word@),
            Candidate::Duplicates(words) => CandView::Duplicates(words.deep_view()),
        }
    }
}

/// Mathematical shape of a `Schema`: two finite maps.
pub ghost struct SchemaView {
    pub candis: Map<Seq<char>, CandView>,
    pub puncts: Map<char, char>,
}

/// The immutable lookup structure: dictionary keys with their classification,
/// and the punctuation remap table. Built once, read-only afterwards; both
/// tables are association vectors whose keys are pairwise distinct.
pub struct Schema {
    pub candis: Vec<(String, Candidate)>,
    pub puncts: Vec<(char, char)>,
}

/// The finite map an association vector stands for: a later pair with the
/// same key would win, but well-formed tables have distinct keys.
pub open spec fn candis_map(s: Seq<(String, Candidate)>) -> Map<Seq<char>, CandView>
    decreases s.len(),
{
    if s.len() == 0 {
        Map::empty()
    } else {
        candis_map(s.drop_last()).insert(s.last().0@, s.last().1@)
    }
}

pub open spec fn puncts_map(s: Seq<(char, char)>) -> Map<char, char>
    decreases s.len(),
{
    if s.len() == 0 {
        Map::empty()
    } else {
        puncts_map(s.drop_last()).insert(s.last().0, s.last().1)
    }
}

pub open spec fn candis_keys_distinct(s: Seq<(String, Candidate)>) -> bool {
    forall|i: int, j: int|
        0 <= i < j < s.len() ==> (#[trigger] s[i]).0@ != (#[trigger] s[j]).0@
}

pub open spec fn puncts_keys_distinct(s: Seq<(char, char)>) -> bool {
    forall|i: int, j: int| 0 <= i < j < s.len() ==> (#[trigger] s[i]).0 != (#[trigger] s[j]).0
}

impl View for Schema {
    type V = SchemaView;

    open spec fn view(&self) -> SchemaView {
        SchemaView { candis: candis_map(self.candis@), puncts: puncts_map(self.puncts@) }
    }
}

impl Schema {
    /// Well-formedness: both association vectors have pairwise distinct keys,
    /// so each one stands for exactly one finite map.
    pub open spec fn wf(&self) -> bool {
        candis_keys_distinct(self.candis@) && puncts_keys_distinct(self.puncts@)
    }
}

/// The dictionary entries as character sequences: (spelling, glyph) pairs.
pub open spec fn entry_views(d: Seq<(&str, &str)>) -> Seq<(Seq<char>, Seq<char>)> {
    d.map(|i: int, p: (&str, &str)| (p.0@, p.1@))
}

pub open spec fn opt_key(m: Map<Seq<char>, CandView>, k: Seq<char>) -> Option<CandView> {
    if m.contains_key(k) {
        Some(m[k])
    } else {
        None
    }
}

/// How one glyph `w` reclassifies the proper-prefix key it reaches: an absent
/// key becomes a unique abbreviation, a unique one becomes ambiguous, an
/// ambiguous one collects the glyph, and an exact key keeps its identity and
/// records the glyph as an alternate.
pub open spec fn classify_prefix(c: Option<CandView>, w: Seq<char>) -> CandView {
    match c {
        None => CandView::Unique(w),
        Some(CandView::Unique(u)) => CandView::Duplicates(seq![u, w]),
        Some(CandView::Duplicates(ws)) => CandView::Duplicates(ws.push(w)),
        Some(CandView::Exact(p, alts)) => CandView::Exact(p, alts.push(w)),
    }
}

/// The map after recording glyph `w` at every proper non-empty prefix of `s`
/// of length below `l`, shortest first.
pub open spec fn with_prefixes(
    m: Map<Seq<char>, CandView>,
    s: Seq<char>,
    w: Seq<char>,
    l: int,
) -> Map<Seq<char>, CandView>
    decreases l,
{
    if l <= 1 {
        m
    } else {
        let m1 = with_prefixes(m, s, w, l - 1);
        let p = s.subrange(0, l - 1);
        m1.insert(p, classify_prefix(opt_key(m1, p), w))
    }
}

/// The map after processing one dictionary entry: a repeated spelling only
/// adds its glyph to the alternates of the existing exact key; a new spelling
/// is installed as exact and then visits all its proper prefixes.
pub open spec fn with_entry(
    m: Map<Seq<char>, CandView>,
    s: Seq<char>,
    w: Seq<char>,
) -> Map<Seq<char>, CandView> {
    match opt_key(m, s) {
        Some(CandView::Exact(p, alts)) => m.insert(s, CandView::Exact(p, alts.push(w))),
        _ => with_prefixes(
            m.insert(s, CandView::Exact(w, Seq::empty())),
            s,
            w,
            s.len() as int,
        ),
    }
}

/// The candidate map after the first `n` dictionary entries, in input order.
pub open spec fn built_candis(es: Seq<(Seq<char>, Seq<char>)>, n: int) -> Map<Seq<char>, CandView>
    decreases n,
{
    if n <= 0 {
        Map::empty()
    } else {
        with_entry(built_candis(es, n - 1), es[n - 1].0, es[n - 1].1)
    }
}

/// The candidate map of a whole dictionary.
pub open spec fn schema_candis(es: Seq<(Seq<char>, Seq<char>)>) -> Map<Seq<char>, CandView> {
    built_candis(es, es.len() as int)
}

/// The punctuation table after the first `n` pairs; a later pair wins.
pub open spec fn built_puncts(ps: Seq<(char, char)>, n: int) -> Map<char, char>
    decreases n,
{
    if n <= 0 {
        Map::empty()
    } else {
        built_puncts(ps, n - 1).insert(ps[n - 1].0, ps[n - 1].1)
    }
}

pub open spec fn schema_puncts(ps: Seq<(char, char)>) -> Map<char, char> {
    built_puncts(ps, ps.len() as int)
}

/// Character-for-character equality of two string slices.
fn str_eq(a: &str, b: &str) -> (r: bool)
    ensures
        r == (a@ == b@),
{
    let n = a.unicode_len();
    if n != b.unicode_len() {
        return false;
    }
    let mut i: usize = 0;
    while i < n
        invariant
            i <= n,
            n == a@.len(),
            n == b@.len(),
            forall|k: int| 0 <= k < i ==> a@[k] == b@[k],
        decreases n - i,
    {
        if a.get_char(i) != b.get_char(i) {
            return false;
        }
        i += 1;
    }
    proof {
        assert(a@ =~= b@);
    }
    true
}

/// Clones a glyph list element by element.
fn clone_words(v: &Vec<String>) -> (r: Vec<String>)
    ensures
        r.deep_view() == v.deep_view(),
{
    let mut r: Vec<String> = Vec::new();
    let mut i: usize = 0;
    while i < v.len()
        invariant
            i <= v.len(),
            r@.len() == i,
            forall|k: int| 0 <= k < i ==> (#[trigger] r@[k])@ == v@[k]@,
        decreases v.len() - i,
    {
        r.push(v[i].clone());
        i += 1;
    }
    proof {
        assert(r.deep_view() =~= v.deep_view());
    }
    r
}

/// Clones a glyph list and appends one more glyph.
fn push_word(v: &Vec<String>, w: &str) -> (r: Vec<String>)
    ensures
        r.deep_view() == v.deep_view().push(w@),
{
    let mut r = clone_words(v);
    r.push(String::from_str(w));
    proof {
        assert(r.deep_view() =~= v.deep_view().push(w@));
    }
    r
}

/// A fresh exact candidate with no alternates yet.
fn exact_of(word: &str) -> (c: Candidate)
    ensures
        c@ == CandView::Exact(word@, Seq::<Seq<char>>::empty()),
{
    let w = String::from_str(word);
    let alts: Vec<String> = Vec::new();
    proof {
        assert(alts.deep_view() =~= Seq::<Seq<char>>::empty());
    }
    Candidate::Exact(w, alts)
}

/// Index of the pair holding `key`, if any.
fn find_candidate(candis: &Vec<(String, Candidate)>, key: &str) -> (r: Option<usize>)
    ensures
        match r {
            Some(i) => i < candis@.len() && candis@[i as int].0@ == key@,
            None => forall|i: int| 0 <= i < candis@.len() ==> (#[trigger] candis@[i]).0@ != key@,
        },
{
    let mut i: usize = 0;
    while i < candis.len()
        invariant
            i <= candis@.len(),
            forall|k: int| 0 <= k < i ==> (#[trigger] candis@[k]).0@ != key@,
        decreases candis@.len() - i,
    {
        if str_eq(candis[i].0.as_str(), key) {
            return Some(i);
        }
        i += 1;
    }
    None
}

fn find_punct(puncts: &Vec<(char, char)>, key: char) -> (r: Option<usize>)
    ensures
        match r {
            Some(i) => i < puncts@.len() && puncts@[i as int].0 == key,
            None => forall|i: int| 0 <= i < puncts@.len() ==> (#[trigger] puncts@[i]).0 != key,
        },
{
    let mut i: usize = 0;
    while i < puncts.len()
        invariant
            i <= puncts@.len(),
            forall|k: int| 0 <= k < i ==> (#[trigger] puncts@[k]).0 != key,
        decreases puncts@.len() - i,
    {
        if puncts[i].0 == key {
            return Some(i);
        }
        i += 1;
    }
    None
}

impl Schema {
    /// Compiles a raw dictionary and a punctuation table into the lookup
    /// structure, processing entries in input order: each new spelling is
    /// installed as an exact key and every proper non-empty prefix of it is
    /// classified; a repeated spelling only records its glyph as an
    /// alternate. A later punctuation pair for the same character wins.
    pub fn new(dict: Vec<(&str, &str)>, punctuators: Vec<(char, char)>) -> (r: Schema)
        ensures
            r.wf(),
            r@.candis == schema_candis(entry_views(dict@)),
            r@.puncts == schema_puncts(punctuators@),
    {
        let ghost ev = entry_views(dict@);
        let mut candis: Vec<(String, Candidate)> = Vec::new();
        let mut i: usize = 0;
        while i < dict.len()
            invariant
                i <= dict@.len(),
                ev == entry_views(dict@),
                candis_keys_distinct(candis@),
                candis_map(candis@) == built_candis(ev, i as int),
            decreases dict@.len() - i,
        {
            let spelling: &str = dict[i].0;
            let word: &str = dict[i].1;
            proof {
                assert(ev[i as int] == (spelling@, word@));
            }
            let ghost m = candis_map(candis@);
            let found = find_candidate(&candis, spelling);
            let mut homophone = false;
            if let Some(j) = found {
                proof {
                    lemma_candis_map_at(candis@, j as int);
                }
                let newc: Option<Candidate> = match &candis[j].1 {
                    Candidate::Exact(p, alts) => Some(
                        Candidate::Exact(p.clone(), push_word(alts, word)),
                    ),
                    _ => None,
                };
                if let Some(c) = newc {
                    let keyc = candis[j].0.clone();
                    let ghost c0 = candis@;
                    let pair = (keyc, c);
                    let ghost gp = pair;
                    candis[j] = pair;
                    proof {
                        lemma_candis_map_update(c0, j as int, gp);
                        assert(candis_map(candis@) == with_entry(m, spelling@, word@));
                    }
                    homophone = true;
                }
            }
            if !homophone {
                proof {
                    if found is None {
                        lemma_candis_map_domain(candis@);
                        assert(!m.contains_key(spelling@));
                    }
                    assert(!(opt_key(m, spelling@) matches Some(CandView::Exact(..))));
                }
                let exact = exact_of(word);
                match found {
                    Some(j) => {
                        let keyc = candis[j].0.clone();
                        let ghost c0 = candis@;
                        let pair = (keyc, exact);
                        let ghost gp = pair;
                        candis[j] = pair;
                        proof {
                            lemma_candis_map_update(c0, j as int, gp);
                        }
                    },
                    None => {
                        let pair = (String::from_str(spelling), exact);
                        let ghost gp = pair;
                        proof {
                            lemma_candis_map_domain(candis@);
                            lemma_candis_map_push(candis@, gp);
                        }
                        candis.push(pair);
                    },
                }
                let ghost m0 = candis_map(candis@);
                proof {
                    assert(m0 == m.insert(spelling@, CandView::Exact(word@, Seq::empty())));
                }
                let slen = spelling.unicode_len();
                let mut l: usize = 1;
                while l < slen
                    invariant
                        1 <= l,
                        l <= slen || l == 1,
                        slen == spelling@.len(),
                        candis_keys_distinct(candis@),
                        candis_map(candis@) == with_prefixes(m0, spelling@, word@, l as int),
                    decreases slen - l,
                {
                    let prefix: &str = spelling.substring_char(0, l);
                    let ghost pv = spelling@.subrange(0, l as int);
                    let ghost mcur = candis_map(candis@);
                    match find_candidate(&candis, prefix) {
                        None => {
                            let pair = (
                                String::from_str(prefix),
                                Candidate::Unique(String::from_str(word)),
                            );
                            let ghost gp = pair;
                            proof {
                                lemma_candis_map_domain(candis@);
                                assert(!mcur.contains_key(pv));
                                lemma_candis_map_push(candis@, gp);
                            }
                            candis.push(pair);
                        },
                        Some(j) => {
                            proof {
                                lemma_candis_map_at(candis@, j as int);
                            }
                            let keyc = candis[j].0.clone();
                            let newc = match &candis[j].1 {
                                Candidate::Unique(u) => {
                                    let mut ws: Vec<String> = Vec::new();
                                    ws.push(u.clone());
                                    ws.push(String::from_str(word));
                                    proof {
                                        assert(ws.deep_view() =~= seq![u@, word@]);
                                    }
                                    Candidate::Duplicates(ws)
                                },
                                Candidate::Duplicates(ds) => Candidate::Duplicates(
                                    push_word(ds, word),
                                ),
                                Candidate::Exact(p, alts) => Candidate::Exact(
                                    p.clone(),
                                    push_word(alts, word),
                                ),
                            };
                            let ghost c0 = candis@;
                            let pair = (keyc, newc);
                            let ghost gp = pair;
                            candis[j] = pair;
                            proof {
                                lemma_candis_map_update(c0, j as int, gp);
                            }
                        },
                    }
                    proof {
                        assert(candis_map(candis@) == with_prefixes(
                            m0,
                            spelling@,
                            word@,
                            l + 1 as int,
                        ));
                    }
                    l += 1;
                }
                proof {
                    if slen == 0 {
                        assert(candis_map(candis@) == with_prefixes(
                            m0,
                            spelling@,
                            word@,
                            spelling@.len() as int,
                        ));
                    } else {
                        assert(l == slen);
                    }
                    assert(candis_map(candis@) == with_entry(m, spelling@, word@));
                }
            }
            proof {
                assert(candis_map(candis@) == built_candis(ev, i + 1 as int));
            }
            i += 1;
        }
        let mut puncts: Vec<(char, char)> = Vec::new();
        let mut k: usize = 0;
        while k < punctuators.len()
            invariant
                k <= punctuators@.len(),
                puncts_keys_distinct(puncts@),
                puncts_map(puncts@) == built_puncts(punctuators@, k as int),
            decreases punctuators@.len() - k,
        {
            let pr = punctuators[k];
            match find_punct(&puncts, pr.0) {
                Some(j) => {
                    let ghost c0 = puncts@;
                    puncts[j] = pr;
                    proof {
                        lemma_puncts_map_update(c0, j as int, pr);
                    }
                },
                None => {
                    proof {
                        lemma_puncts_map_push(puncts@, pr);
                    }
                    puncts.push(pr);
                },
            }
            k += 1;
        }
        Schema { candis, puncts }
    }

    /// The candidate stored under `key`, if any.
    pub fn lookup_candidate(&self, key: &str) -> (r: Option<&Candidate>)
        requires
            self.wf(),
        ensures
            match r {
                Some(c) => self@.candis.contains_key(key@) && c@ == self@.candis[key@],
                None => !self@.candis.contains_key(key@),
            },
    {
        match find_candidate(&self.candis, key) {
            Some(i) => {
                proof {
                    lemma_candis_map_at(self.candis@, i as int);
                }
                Some(&self.candis[i].1)
            },
            None => {
                proof {
                    lemma_candis_map_domain(self.candis@);
                }
                None
            },
        }
    }

    /// The remapped output for `key` in the punctuation table, if any.
    pub fn lookup_punct(&self, key: char) -> (r: Option<char>)
        requires
            self.wf(),
        ensures
            match r {
                Some(c) => self@.puncts.contains_key(key) && c == self@.puncts[key],
                None => !self@.puncts.contains_key(key),
            },
    {
        match find_punct(&self.puncts, key) {
            Some(i) => {
                proof {
                    lemma_puncts_map_at(self.puncts@, i as int);
                }
                Some(self.puncts[i].1)
            },
            None => {
                proof {
                    lemma_puncts_map_domain(self.puncts@);
                }
                None
            },
        }
    }
}

proof fn lemma_candis_map_domain(s: Seq<(String, Candidate)>)
    ensures
        forall|k: Seq<char>|
            candis_map(s).contains_key(k) <==> exists|i: int|
                0 <= i < s.len() && (#[trigger] s[i]).0@ == k,
    decreases s.len(),
{
    if s.len() > 0 {
        lemma_candis_map_domain(s.drop_last());
        assert(candis_map(s) == candis_map(s.drop_last()).insert(s.last().0@, s.last().1@));
        assert forall|k: Seq<char>| candis_map(s).contains_key(k) implies exists|i: int|
            0 <= i < s.len() && (#[trigger] s[i]).0@ == k by {
            if k == s.last().0@ {
                assert(s[s.len() - 1].0@ == k);
            } else {
                assert(candis_map(s.drop_last()).contains_key(k));
                let i = choose|i: int|
                    0 <= i < s.drop_last().len() && (#[trigger] s.drop_last()[i]).0@ == k;
                assert(s.drop_last()[i] == s[i]);
                assert(s[i].0@ == k);
            }
        }
        assert forall|k: Seq<char>|
            exists|i: int| 0 <= i < s.len() && (#[trigger] s[i]).0@ == k implies candis_map(
            s,
        ).contains_key(k) by {
            let i = choose|i: int| 0 <= i < s.len() && (#[trigger] s[i]).0@ == k;
            if i < s.len() - 1 {
                assert(s.drop_last()[i].0@ == k);
            }
        }
    }
}

proof fn lemma_candis_map_at(s: Seq<(String, Candidate)>, i: int)
    requires
        candis_keys_distinct(s),
        0 <= i < s.len(),
    ensures
        candis_map(s).contains_key(s[i].0@),
        candis_map(s)[s[i].0@] == s[i].1@,
    decreases s.len(),
{
    if i < s.len() - 1 {
        lemma_candis_map_at(s.drop_last(), i);
        assert(s.drop_last()[i] == s[i]);
        assert(s[i].0@ != s.last().0@);
    }
}

proof fn lemma_candis_map_update(s: Seq<(String, Candidate)>, i: int, p: (String, Candidate))
    requires
        candis_keys_distinct(s),
        0 <= i < s.len(),
        p.0@ == s[i].0@,
    ensures
        candis_keys_distinct(s.update(i, p)),
        candis_map(s.update(i, p)) == candis_map(s).insert(p.0@, p.1@),
    decreases s.len(),
{
    let t = s.update(i, p);
    assert forall|x: int, y: int| 0 <= x < y < t.len() implies (#[trigger] t[x]).0@
        != (#[trigger] t[y]).0@ by {
        assert(s[x].0@ != s[y].0@);
    }
    if i == s.len() - 1 {
        assert(t.drop_last() =~= s.drop_last());
        assert(candis_map(t) =~= candis_map(s).insert(p.0@, p.1@));
    } else {
        lemma_candis_map_update(s.drop_last(), i, p);
        assert(t.drop_last() =~= s.drop_last().update(i, p));
        assert(t.last() == s.last());
        assert(s.last().0@ != p.0@);
        assert(candis_map(t) =~= candis_map(s).insert(p.0@, p.1@));
    }
}

proof fn lemma_candis_map_push(s: Seq<(String, Candidate)>, p: (String, Candidate))
    requires
        candis_keys_distinct(s),
        forall|i: int| 0 <= i < s.len() ==> (#[trigger] s[i]).0@ != p.0@,
    ensures
        candis_keys_distinct(s.push(p)),
        candis_map(s.push(p)) == candis_map(s).insert(p.0@, p.1@),
{
    assert(s.push(p).drop_last() =~= s);
    assert(s.push(p).last() == p);
    assert forall|x: int, y: int| 0 <= x < y < s.push(p).len() implies (#[trigger] s.push(p)[x]).0@
        != (#[trigger] s.push(p)[y]).0@ by {
        if y < s.len() {
            assert(s[x].0@ != s[y].0@);
        } else {
            assert(s.push(p)[x] == s[x]);
        }
    }
}

proof fn lemma_puncts_map_domain(s: Seq<(char, char)>)
    ensures
        forall|k: char|
            puncts_map(s).contains_key(k) <==> exists|i: int|
                0 <= i < s.len() && (#[trigger] s[i]).0 == k,
    decreases s.len(),
{
    if s.len() > 0 {
        lemma_puncts_map_domain(s.drop_last());
        assert(puncts_map(s) == puncts_map(s.drop_last()).insert(s.last().0, s.last().1));
        assert forall|k: char| puncts_map(s).contains_key(k) implies exists|i: int|
            0 <= i < s.len() && (#[trigger] s[i]).0 == k by {
            if k == s.last().0 {
                assert(s[s.len() - 1].0 == k);
            } else {
                assert(puncts_map(s.drop_last()).contains_key(k));
                let i = choose|i: int|
                    0 <= i < s.drop_last().len() && (#[trigger] s.drop_last()[i]).0 == k;
                assert(s.drop_last()[i] == s[i]);
                assert(s[i].0 == k);
            }
        }
        assert forall|k: char|
            exists|i: int| 0 <= i < s.len() && (#[trigger] s[i]).0 == k implies puncts_map(
            s,
        ).contains_key(k) by {
            let i = choose|i: int| 0 <= i < s.len() && (#[trigger] s[i]).0 == k;
            if i < s.len() - 1 {
                assert(s.drop_last()[i].0 == k);
            }
        }
    }
}

proof fn lemma_puncts_map_at(s: Seq<(char, char)>, i: int)
    requires
        puncts_keys_distinct(s),
        0 <= i < s.len(),
    ensures
        puncts_map(s).contains_key(s[i].0),
        puncts_map(s)[s[i].0] == s[i].1,
    decreases s.len(),
{
    if i < s.len() - 1 {
        lemma_puncts_map_at(s.drop_last(), i);
        assert(s.drop_last()[i] == s[i]);
        assert(s[i].0 != s.last().0);
    }
}

proof fn lemma_puncts_map_update(s: Seq<(char, char)>, i: int, p: (char, char))
    requires
        puncts_keys_distinct(s),
        0 <= i < s.len(),
        p.0 == s[i].0,
    ensures
        puncts_keys_distinct(s.update(i, p)),
        puncts_map(s.update(i, p)) == puncts_map(s).insert(p.0, p.1),
    decreases s.len(),
{
    let t = s.update(i, p);
    assert forall|x: int, y: int| 0 <= x < y < t.len() implies (#[trigger] t[x]).0
        != (#[trigger] t[y]).0 by {
        assert(s[x].0 != s[y].0);
    }
    if i == s.len() - 1 {
        assert(t.drop_last() =~= s.drop_last());
        assert(puncts_map(t) =~= puncts_map(s).insert(p.0, p.1));
    } else {
        lemma_puncts_map_update(s.drop_last(), i, p);
        assert(t.drop_last() =~= s.drop_last().update(i, p));
        assert(t.last() == s.last());
        assert(puncts_map(t) =~= puncts_map(s).insert(p.0, p.1));
    }
}

proof fn lemma_puncts_map_push(s: Seq<(char, char)>, p: (char, char))
    requires
        puncts_keys_distinct(s),
        forall|i: int| 0 <= i < s.len() ==> (#[trigger] s[i]).0 != p.0,
    ensures
        puncts_keys_distinct(s.push(p)),
        puncts_map(s.push(p)) == puncts_map(s).insert(p.0, p.1),
{
    assert(s.push(p).drop_last() =~= s);
    assert(s.push(p).last() == p);
    assert forall|x: int, y: int| 0 <= x < y < s.push(p).len() implies (#[trigger] s.push(p)[x]).0
        != (#[trigger] s.push(p)[y]).0 by {
        if y < s.len() {
            assert(s[x].0 != s[y].0);
        } else {
            assert(s.push(p)[x] == s[x]);
        }
    }
}


/// `k` is a proper non-empty prefix of `s`.
pub open spec fn proper_prefix(k: Seq<char>, s: Seq<char>) -> bool {
    0 < k.len() < s.len() && s.subrange(0, k.len() as int) == k
}

/// Some entry among the first `n` has spelling `k`.
pub open spec fn is_spelling(es: Seq<(Seq<char>, Seq<char>)>, n: int, k: Seq<char>) -> bool {
    exists|j: int| 0 <= j < n && (#[trigger] es[j]).0 == k
}

/// The glyph of the first entry among the first `n` whose spelling is `k`.
pub open spec fn first_glyph(es: Seq<(Seq<char>, Seq<char>)>, n: int, k: Seq<char>) -> Seq<char>
    decreases n,
{
    if n <= 0 {
        Seq::empty()
    } else if is_spelling(es, n - 1, k) {
        first_glyph(es, n - 1, k)
    } else if es[n - 1].0 == k {
        es[n - 1].1
    } else {
        Seq::empty()
    }
}

/// The primary glyph of an exact candidate.
pub open spec fn exact_primary(c: CandView) -> Seq<char> {
    match c {
        CandView::Exact(p, _) => p,
        _ => Seq::empty(),
    }
}

/// The prefix pass changes exactly the proper non-empty prefixes of `s`
/// shorter than `l`, each by one reclassification; every other key is left
/// alone.
proof fn lemma_with_prefixes_at(
    m: Map<Seq<char>, CandView>,
    s: Seq<char>,
    w: Seq<char>,
    l: int,
    k: Seq<char>,
)
    requires
        l <= s.len(),
    ensures
        (forall|l0: int| 1 <= l0 < l ==> k != s.subrange(0, l0)) ==> opt_key(
            with_prefixes(m, s, w, l),
            k,
        ) == opt_key(m, k),
        (exists|l0: int| 1 <= l0 < l && k == s.subrange(0, l0)) ==> opt_key(
            with_prefixes(m, s, w, l),
            k,
        ) == Some(classify_prefix(opt_key(m, k), w)),
    decreases l,
{
    if l > 1 {
        lemma_with_prefixes_at(m, s, w, l - 1, k);
        let m1 = with_prefixes(m, s, w, l - 1);
        let p = s.subrange(0, l - 1);
        assert(p.len() == l - 1);
        if k == p {
            assert forall|l0: int| 1 <= l0 < l - 1 implies k != s.subrange(0, l0) by {
                assert(s.subrange(0, l0).len() == l0);
            }
            assert(opt_key(m1, p) == opt_key(m, p));
            assert(opt_key(with_prefixes(m, s, w, l), k) == Some(
                classify_prefix(opt_key(m, k), w),
            ));
            assert(k == s.subrange(0, l - 1) && 1 <= l - 1 < l);
        } else {
            assert(opt_key(with_prefixes(m, s, w, l), k) == opt_key(m1, k));
            if exists|l0: int| 1 <= l0 < l && k == s.subrange(0, l0) {
                let l0 = choose|l0: int| 1 <= l0 < l && k == s.subrange(0, l0);
                assert(l0 < l - 1 || k == p);
                assert(1 <= l0 < l - 1 && k == s.subrange(0, l0));
            }
        }
    }
}

pub open spec fn is_exact_at(m: Map<Seq<char>, CandView>, k: Seq<char>) -> bool {
    m.contains_key(k) && m[k] is Exact
}

/// A key is exact in the built map exactly when it is a spelling of some
/// entry, and its primary glyph is the glyph of the first such entry: exact
/// always wins at its own key and is never overwritten.
pub proof fn lemma_built_exact(es: Seq<(Seq<char>, Seq<char>)>, n: int, k: Seq<char>)
    requires
        0 <= n <= es.len(),
    ensures
        is_exact_at(built_candis(es, n), k) <==> is_spelling(es, n, k),
        is_spelling(es, n, k) ==> exact_primary(built_candis(es, n)[k]) == first_glyph(es, n, k),
    decreases n,
{
    if n > 0 {
        lemma_built_exact(es, n - 1, k);
        let m = built_candis(es, n - 1);
        let s = es[n - 1].0;
        let w = es[n - 1].1;
        let m2 = built_candis(es, n);
        assert(m2 == with_entry(m, s, w));
        lemma_built_exact(es, n - 1, s);
        match opt_key(m, s) {
            Some(CandView::Exact(p, alts)) => {
                assert(m2 == m.insert(s, CandView::Exact(p, alts.push(w))));
                assert(is_spelling(es, n - 1, s));
                if k == s {
                    assert(is_spelling(es, n, k));
                    assert(first_glyph(es, n, k) == first_glyph(es, n - 1, k));
                    assert(exact_primary(m2[k]) == p);
                    assert(exact_primary(m[k]) == p);
                } else {
                    assert(opt_key(m2, k) == opt_key(m, k));
                    if is_spelling(es, n, k) {
                        let j = choose|j: int| 0 <= j < n && (#[trigger] es[j]).0 == k;
                        assert(j < n - 1);
                        assert(is_spelling(es, n - 1, k));
                    }
                }
            },
            _ => {
                assert(!is_exact_at(m, s));
                assert(!is_spelling(es, n - 1, s));
                let mb = m.insert(s, CandView::Exact(w, Seq::empty()));
                assert(m2 == with_prefixes(mb, s, w, s.len() as int));
                lemma_with_prefixes_at(mb, s, w, s.len() as int, k);
                if k == s {
                    assert forall|l0: int| 1 <= l0 < s.len() implies k != s.subrange(0, l0) by {
                        assert(s.subrange(0, l0).len() == l0);
                    }
                    assert(opt_key(m2, k) == opt_key(mb, k));
                    assert(opt_key(mb, k) == Some(CandView::Exact(w, Seq::empty())));
                    assert(es[n - 1].0 == k);
                    assert(is_spelling(es, n, k));
                    assert(first_glyph(es, n, k) == w);
                } else {
                    assert(opt_key(mb, k) == opt_key(m, k));
                    if exists|l0: int| 1 <= l0 < s.len() && k == s.subrange(0, l0) {
                        assert(opt_key(m2, k) == Some(classify_prefix(opt_key(m, k), w)));
                        match opt_key(m, k) {
                            Some(CandView::Exact(p, alts)) => {
                                assert(is_exact_at(m2, k) && exact_primary(m2[k]) == p);
                            },
                            Some(CandView::Unique(_)) => {
                                assert(!is_exact_at(m2, k));
                            },
                            Some(CandView::Duplicates(_)) => {
                                assert(!is_exact_at(m2, k));
                            },
                            None => {
                                assert(!is_exact_at(m2, k));
                            },
                        }
                    } else {
                        assert(opt_key(m2, k) == opt_key(m, k));
                    }
                    if is_spelling(es, n, k) {
                        let j = choose|j: int| 0 <= j < n && (#[trigger] es[j]).0 == k;
                        assert(j < n - 1);
                        assert(is_spelling(es, n - 1, k));
                    }
                }
            },
        }
    }
}

/// A key that is neither a spelling nor a proper prefix of any spelling
/// never enters the built map.
proof fn lemma_built_absent(es: Seq<(Seq<char>, Seq<char>)>, n: int, k: Seq<char>)
    requires
        0 <= n <= es.len(),
        forall|j: int|
            0 <= j < n ==> (#[trigger] es[j]).0 != k && !proper_prefix(k, es[j].0),
    ensures
        !built_candis(es, n).contains_key(k),
    decreases n,
{
    if n > 0 {
        lemma_built_absent(es, n - 1, k);
        let m = built_candis(es, n - 1);
        let s = es[n - 1].0;
        let w = es[n - 1].1;
        assert(es[n - 1].0 != k && !proper_prefix(k, s));
        match opt_key(m, s) {
            Some(CandView::Exact(p, alts)) => {
                assert(opt_key(built_candis(es, n), k) == opt_key(m, k));
            },
            _ => {
                let mb = m.insert(s, CandView::Exact(w, Seq::empty()));
                lemma_with_prefixes_at(mb, s, w, s.len() as int, k);
                assert forall|l0: int| 1 <= l0 < s.len() implies k != s.subrange(0, l0) by {
                    assert(s.subrange(0, l0).len() == l0);
                    if k == s.subrange(0, l0) {
                        assert(proper_prefix(k, s));
                    }
                }
                assert(opt_key(built_candis(es, n), k) == opt_key(mb, k));
            },
        }
    }
}

/// A proper prefix of exactly one spelling — one that is not itself a
/// spelling — is classified unique, and resolves to the glyph of the first
/// entry with that spelling.
pub proof fn lemma_built_unique(
    es: Seq<(Seq<char>, Seq<char>)>,
    n: int,
    k: Seq<char>,
    ss: Seq<char>,
)
    requires
        0 <= n <= es.len(),
        forall|j: int| 0 <= j < n ==> (#[trigger] es[j]).0 != k,
        forall|j: int|
            0 <= j < n && proper_prefix(k, (#[trigger] es[j]).0) ==> es[j].0 == ss,
        exists|j: int| 0 <= j < n && proper_prefix(k, (#[trigger] es[j]).0),
    ensures
        opt_key(built_candis(es, n), k) == Some(CandView::Unique(first_glyph(es, n, ss))),
    decreases n,
{
    let m = built_candis(es, n - 1);
    let s = es[n - 1].0;
    let w = es[n - 1].1;
    let m2 = built_candis(es, n);
    lemma_built_exact(es, n - 1, s);
    if exists|j: int| 0 <= j < n - 1 && proper_prefix(k, (#[trigger] es[j]).0) {
        // some earlier entry already classified `k`
        lemma_built_unique(es, n - 1, k, ss);
        let j0 = choose|j: int| 0 <= j < n - 1 && proper_prefix(k, (#[trigger] es[j]).0);
        assert(es[j0].0 == ss);
        assert(is_spelling(es, n - 1, ss));
        assert(first_glyph(es, n, ss) == first_glyph(es, n - 1, ss));
        if s == ss {
            // a later homophone of the spelling: it only adds an alternate
            // at the exact key `ss`, which differs from `k`
            assert(is_exact_at(m, s));
            assert(opt_key(m, s) matches Some(c) && c is Exact);
            assert(k != ss);
            assert(opt_key(m2, k) == opt_key(m, k));
        } else {
            assert(!proper_prefix(k, s));
            match opt_key(m, s) {
                Some(CandView::Exact(p, alts)) => {
                    assert(opt_key(m2, k) == opt_key(m, k));
                },
                _ => {
                    let mb = m.insert(s, CandView::Exact(w, Seq::empty()));
                    lemma_with_prefixes_at(mb, s, w, s.len() as int, k);
                    assert forall|l0: int| 1 <= l0 < s.len() implies k != s.subrange(0, l0) by {
                        assert(s.subrange(0, l0).len() == l0);
                        if k == s.subrange(0, l0) {
                            assert(proper_prefix(k, s));
                        }
                    }
                    assert(opt_key(m2, k) == opt_key(mb, k));
                    assert(opt_key(mb, k) == opt_key(m, k));
                },
            }
        }
    } else {
        // entry n-1 is the first whose spelling has `k` as a proper prefix
        assert(proper_prefix(k, s));
        assert(s == ss);
        assert(!is_spelling(es, n - 1, ss));
        assert(first_glyph(es, n, ss) == w);
        lemma_built_absent(es, n - 1, k);
        assert(!is_exact_at(m, s));
        assert(!(opt_key(m, s) matches Some(c) && c is Exact));
        let mb = m.insert(s, CandView::Exact(w, Seq::empty()));
        assert(m2 == with_prefixes(mb, s, w, s.len() as int));
        lemma_with_prefixes_at(mb, s, w, s.len() as int, k);
        assert(k == s.subrange(0, k.len() as int) && 1 <= k.len() < s.len());
        assert(opt_key(m2, k) == Some(classify_prefix(opt_key(mb, k), w)));
        assert(k != s);
        assert(opt_key(mb, k) == opt_key(m, k));
        assert(opt_key(m, k) is None);
        assert(classify_prefix(None, w) == CandView::Unique(w));
    }
}

/// The first entry with spelling `k` among the first `n` gives the first
/// glyph.
pub proof fn lemma_first_glyph(es: Seq<(Seq<char>, Seq<char>)>, n: int, i: int)
    requires
        0 <= i < n <= es.len(),
        forall|j: int| 0 <= j < i ==> (#[trigger] es[j]).0 != es[i].0,
    ensures
        first_glyph(es, n, es[i].0) == es[i].1,
    decreases n,
{
    let k = es[i].0;
    if i == n - 1 {
        assert(!is_spelling(es, n - 1, k));
    } else {
        lemma_first_glyph(es, n - 1, i);
        assert(is_spelling(es, n - 1, k));
    }
}

/// The sitelen pona schema: the standard dictionary of spellings mapped to
/// sitelen pona glyphs, and its punctuation remap table.
pub fn sitelen() -> (r: Schema)
    ensures
        r.wf(),
{
    let dict: Vec<(&str, &str)> = vec![
        ("a", "󱤀"),
        ("akesi", "󱤁"),
        ("ala", "󱤂"),
        ("alasa", "󱤃"),
        ("ale", "󱤄"),
        ("anpa", "󱤅"),
        ("ante", "󱤆"),
        ("anu", "󱤇"),
        ("awen", "󱤈"),
        ("e", "󱤉"),
        ("en", "󱤊"),
        ("esun", "󱤋"),
        ("ijo", "󱤌"),
        ("ike", "󱤍"),
        ("ilo", "󱤎"),
        ("insa", "󱤏"),
        ("jaki", "󱤐"),
        ("jan", "󱤑"),
        ("jelo", "󱤒"),
        ("jo", "󱤓"),
        ("kala", "󱤔"),
        ("kalama", "󱤕"),
        ("kama", "󱤖"),
        ("kasi", "󱤗"),
        ("ken", "󱤘"),
        ("kepeken", "󱤙"),
        ("kili", "󱤚"),
        ("kiwen", "󱤛"),
        ("ko", "󱤜"),
        ("kon", "󱤝"),
        ("kule", "󱤞"),
        ("kulupu", "󱤟"),
        ("kute", "󱤠"),
        ("la", "󱤡"),
        ("lape", "󱤢"),
        ("laso", "󱤣"),
        ("lawa", "󱤤"),
        ("len", "󱤥"),
        ("lete", "󱤦"),
        ("li", "󱤧"),
        ("lili", "󱤨"),
        ("linja", "󱤩"),
        ("lipu", "󱤪"),
        ("loje", "󱤫"),
        ("lon", "󱤬"),
        ("luka", "󱤭"),
        ("lukin", "󱤮"),
        ("lupa", "󱤯"),
        ("ma", "󱤰"),
        ("mama", "󱤱"),
        ("mani", "󱤲"),
        ("meli", "󱤳"),
        ("mi", "󱤴"),
        ("mije", "󱤵"),
        ("moku", "󱤶"),
        ("moli", "󱤷"),
        ("monsi", "󱤸"),
        ("mu", "󱤹"),
        ("mun", "󱤺"),
        ("musi", "󱤻"),
        ("mute", "󱤼"),
        ("nanpa", "󱤽"),
        ("nasa", "󱤾"),
        ("nasin", "󱤿"),
        ("nena", "󱥀"),
        ("ni", "󱥁"),
        ("nimi", "󱥂"),
        ("noka", "󱥃"),
        ("o", "󱥄"),
        ("olin", "󱥅"),
        ("ona", "󱥆"),
        ("open", "󱥇"),
        ("pakala", "󱥈"),
        ("pali", "󱥉"),
        ("palisa", "󱥊"),
        ("pan", "󱥋"),
        ("pana", "󱥌"),
        ("pi", "󱥍"),
        ("pilin", "󱥎"),
        ("pimeja", "󱥏"),
        ("pini", "󱥐"),
        ("pipi", "󱥑"),
        ("poka", "󱥒"),
        ("poki", "󱥓"),
        ("pona", "󱥔"),
        ("pu", "󱥕"),
        ("sama", "󱥖"),
        ("seli", "󱥗"),
        ("selo", "󱥘"),
        ("seme", "󱥙"),
        ("sewi", "󱥚"),
        ("sijelo", "󱥛"),
        ("sike", "󱥜"),
        ("sin", "󱥝"),
        ("sina", "󱥞"),
        ("sinpin", "󱥟"),
        ("sitelen", "󱥠"),
        ("sona", "󱥡"),
        ("soweli", "󱥢"),
        ("suli", "󱥣"),
        ("suno", "󱥤"),
        ("supa", "󱥥"),
        ("suwi", "󱥦"),
        ("tan", "󱥧"),
        ("taso", "󱥨"),
        ("tawa", "󱥩"),
        ("telo", "󱥪"),
        ("tenpo", "󱥫"),
        ("toki", "󱥬"),
        ("tomo", "󱥭"),
        ("tu", "󱥮"),
        ("unpa", "󱥯"),
        ("uta", "󱥰"),
        ("utala", "󱥱"),
        ("walo", "󱥲"),
        ("wan", "󱥳"),
        ("waso", "󱥴"),
        ("wawa", "󱥵"),
        ("weka", "󱥶"),
        ("wile", "󱥷"),
        ("namako", "󱥸"),
        ("kin", "󱥹"),
        ("oko", "󱥺"),
        ("kipisi", "󱥻"),
        ("leko", "󱥼"),
        ("monsuta", "󱥽"),
        ("tonsi", "󱥾"),
        ("jasima", "󱥿"),
        ("kijetesantakalu", "󱦀"),
        ("soko", "󱦁"),
        ("meso", "󱦂"),
        ("epiku", "󱦃"),
        ("kokosila", "󱦄"),
        ("lanpan", "󱦅"),
        ("n", "󱦆"),
        ("misikeke", "󱦇"),
        ("ku", "󱦈"),
        ("pake", "󱦠"),
        ("apeja", "󱦡"),
        ("majuna", "󱦢"),
        ("powe", "󱦣"),
    ];
    let puncts: Vec<(char, char)> = vec![
        ('[', '󱦐'),
        (']', '󱦑'),
        ('^', '󱦕'),
        ('*', '󱦖'),
        ('(', '󱦗'),
        (')', '󱦘'),
        ('{', '󱦚'),
        ('}', '󱦛'),
        ('.', '󱦜'),
        (':', '󱦝'),
        ('<', '「'),
        ('>', '」'),
        ('-', '\u{200D}'),
        (' ', '\u{3000}'),
    ];
    Schema::new(dict, puncts)
}

/// The emoji schema: the same spellings mapped to emoji, homophones
/// included, and its punctuation remap table.
pub fn emoji() -> (r: Schema)
    ensures
        r.wf(),
{
    let dict: Vec<(&str, &str)> = vec![
        ("a", "🅰️"),
        ("akesi", "🦎"),
        ("akesi", "🐸"),
        ("ala", "❌"),
        ("alasa", "🏹"),
        ("ale", "🌌"),
        ("anpa", "🧎"),
        ("anpa", "🙇"),
        ("ante", "🔀"),
        ("anu", "🤷"),
        ("awen", "⚓"),
        ("e", "⏩"),
        ("en", "🤝"),
        ("esun", "🛒"),
        ("ijo", "🐚"),
        ("ike", "😔"),
        ("ike", "👎"),
        ("ilo", "🔦"),
        ("insa", "🗳️"),
        ("jaki", "💩"),
        ("jan", "🧑"),
        ("jelo", "🍋"),
        ("jo", "👜"),
        ("kala", "🐟"),
        ("kala", "🐙"),
        ("kalama", "👏"),
        ("kama", "🛬"),
        ("kasi", "🌱"),
        ("ken", "💪"),
        ("kepeken", "✍️"),
        ("kili", "🍎"),
        ("kiwen", "💎"),
        ("ko", "🍦"),
        ("kon", "💨"),
        ("kule", "🌈"),
        ("kulupu", "👥"),
        ("kute", "👂"),
        ("la", "ℹ️"),
        ("la", "💁"),
        ("lape", "😴"),
        ("laso", "☘️"),
        ("lawa", "👑"),
        ("len", "🧣"),
        ("lete", "❄️"),
        ("li", "▶️"),
        ("lili", "🐁"),
        ("linja", "🧶"),
        ("lipu", "🍁"),
        ("loje", "👅"),
        ("lon", "⏺️"),
        ("lon", "✅"),
        ("lon", "🫴"),
        ("luka", "🖐️"),
        ("lukin", "👀"),
        ("lupa", "🚪"),
        ("ma", "🏝️"),
        ("mama", "🍼"),
        ("mani", "🐮"),
        ("meli", "👩"),
        ("meli", "🚺"),
        ("mi", "👇"),
        ("mi", "🅿️"),
        ("mije", "👨"),
        ("mije", "🚹"),
        ("moku", "🍜"),
        ("moli", "😵"),
        ("monsi", "🍑"),
        ("mu", "🐽"),
        ("mun", "🌙"),
        ("musi", "🎭"),
        ("mute", "👐"),
        ("nanpa", "#️⃣"),
        ("nasa", "🌀"),
        ("nasin", "🛤️"),
        ("nena", "🗻"),
        ("ni", "⬇️"),
        ("ni", "⬆️"),
        ("ni", "⬅️"),
        ("ni", "➡️"),
        ("nimi", "📛"),
        ("noka", "🦵"),
        ("o", "🅾️"),
        ("olin", "💕"),
        ("ona", "👈"),
        ("ona", "♋️"),
        ("open", "🎬"),
        ("pakala", "💥"),
        ("pali", "🏗️"),
        ("palisa", "📏"),
        ("pan", "🍞"),
        ("pana", "🙌"),
        ("pi", "📎"),
        ("pilin", "❤️"),
        ("pimeja", "🎱"),
        ("pini", "🏁"),
        ("pini", "🛑"),
        ("pipi", "🐛"),
        ("poka", "👯"),
        ("poki", "📦"),
        ("pona", "😌"),
        ("pona", "👍"),
        ("pu", "🧘"),
        ("sama", "⚖️"),
        ("seli", "🔥"),
        ("selo", "🍌"),
        ("seme", "❓"),
        ("sewi", "☁️"),
        ("sijelo", "🧍"),
        ("sike", "⭕"),
        ("sin", "✨"),
        ("sina", "👆"),
        ("sina", "6️⃣"),
        ("sinpin", "🗿"),
        ("sitelen", "🎨"),
        ("sitelen", "🖼️"),
        ("sona", "🧠"),
        ("soweli", "🦔"),
        ("suli", "🐘"),
        ("suno", "☀️"),
        ("supa", "🛏️"),
        ("suwi", "🍬"),
        ("tan", "↩️"),
        ("taso", "🚦"),
        ("taso", "🚥"),
        ("tawa", "🛫"),
        ("telo", "💧"),
        ("tenpo", "🕒"),
        ("toki", "💬"),
        ("tomo", "🏠"),
        ("tu", "⏸️"),
        ("unpa", "🍆"),
        ("uta", "👄"),
        ("utala", "⚔️"),
        ("utala", "🆚"),
        ("walo", "🐑"),
        ("wan", "1️⃣"),
        ("waso", "🐦"),
        ("wawa", "⚡"),
        ("weka", "🆑"),
        ("wile", "🙏"),
        ("wile", "🧲"),
        ("epiku", "😁"),
        ("jasima", "🪞"),
        ("jasima", "🪩"),
        ("kijetesantakalu", "🦡"),
        ("kijetesantakalu", "🦝"),
        ("kin", "*️⃣"),
        ("kipisi", "✂️"),
        ("kokosila", "🐊"),
        ("ku", "🔬"),
        ("lanpan", "🤳"),
        ("leko", "🧱"),
        ("meso", "😑"),
        ("misikeke", "💊"),
        ("monsuta", "👻"),
        ("n", "🆖"),
        ("namako", "🌶️"),
        ("oko", "👁️"),
        ("soko", "🍄"),
        ("tonsi", "⚧️"),
        ("majuna", "🪷"),
        ("majuna", "💾"),
        ("majuna", "🧓"),
        ("su", "🧙"),
        ("su", "🧵"),
    ];
    let puncts: Vec<(char, char)> = vec![
        ('[', '\u{1F58C}'),
        (']', '\u{1F58C}'),
    ];
    Schema::new(dict, puncts)
}

} // verus!
