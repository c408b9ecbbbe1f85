//! Greedy longest-match segmentation of a typed letter sequence against a
//! `Schema`, and the punctuation remap. A slice matches only when its key is
//! exact or a unique prefix; an ambiguous key never resolves. When no suffix
//! of the current slice matches, the unmatched character is dropped and
//! matching resumes after it.

use vstd::prelude::*;

use crate::schema::exact_primary;
use crate::schema::is_spelling;
use crate::schema::lemma_built_exact;
use crate::schema::lemma_built_unique;
use crate::schema::lemma_first_glyph;
use crate::schema::proper_prefix;
use crate::schema::schema_candis;
use crate::schema::CandView;
use crate::schema::Candidate;
use crate::schema::Schema;

verus! {

/// A key resolves during plain segmentation when it is present and not
/// ambiguous.
pub open spec fn matchable(m: Map<Seq<char>, CandView>, k: Seq<char>) -> bool {
    m.contains_key(k) && (m[k] is Exact || m[k] is Unique)
}

/// The glyph a matchable key resolves to: the primary glyph of an exact
/// spelling, or the unique abbreviation's glyph.
pub open spec fn glyph_of(m: Map<Seq<char>, CandView>, k: Seq<char>) -> Seq<char> {
    match m[k] {
        CandView::Exact(p, _) => p,
        CandView::Unique(g) => g,
        CandView::Duplicates(_) => Seq::empty(),
    }
}

/// The largest end position `e` with `from < e <= to` such that
/// `s[from..e]` is matchable, or `from` when no such end exists.
pub open spec fn match_end(m: Map<Seq<char>, CandView>, s: Seq<char>, from: int, to: int) -> int
    decreases to - from,
{
    if to <= from {
        from
    } else if matchable(m, s.subrange(from, to)) {
        to
    } else {
        match_end(m, s, from, to - 1)
    }
}

/// The segmentation from position `from`: a sequence of (end offset, glyph)
/// pairs. At each position the longest matchable slice is consumed; if none
/// exists the single character there is dropped without output.
pub open spec fn seg_bounds(m: Map<Seq<char>, CandView>, s: Seq<char>, from: int) -> Seq<
    (int, Seq<char>),
>
    decreases s.len() - from,
{
    if from < 0 || from >= s.len() {
        Seq::empty()
    } else {
        let e = match_end(m, s, from, s.len() as int);
        if from < e && e <= s.len() {
            seq![(e, glyph_of(m, s.subrange(from, e)))] + seg_bounds(m, s, e)
        } else {
            seg_bounds(m, s, from + 1)
        }
    }
}

/// The concatenated glyph output of the segmentation from position `from`.
pub open spec fn seg_output(m: Map<Seq<char>, CandView>, s: Seq<char>, from: int) -> Seq<char>
    decreases s.len() - from,
{
    if from < 0 || from >= s.len() {
        Seq::empty()
    } else {
        let e = match_end(m, s, from, s.len() as int);
        if from < e && e <= s.len() {
            glyph_of(m, s.subrange(from, e)) + seg_output(m, s, e)
        } else {
            seg_output(m, s, from + 1)
        }
    }
}

/// The boundary list as mathematical pairs.
pub open spec fn bounds_view(v: Seq<(usize, String)>) -> Seq<(int, Seq<char>)> {
    v.map(|i: int, p: (usize, String)| (p.0 as int, p.1@))
}

/// An unmatchable top region does not change the longest match.
proof fn lemma_match_end_skip(
    m: Map<Seq<char>, CandView>,
    s: Seq<char>,
    from: int,
    to: int,
    hi: int,
)
    requires
        from <= to <= hi,
        forall|t: int| to < t <= hi ==> !matchable(m, s.subrange(from, t)),
    ensures
        match_end(m, s, from, hi) == match_end(m, s, from, to),
    decreases hi - to,
{
    if hi > to {
        assert(!matchable(m, s.subrange(from, hi)));
        lemma_match_end_skip(m, s, from, to, hi - 1);
    }
}

impl Schema {
    /// Splits `letters` into glyph-producing spans by greedy longest match
    /// and returns the boundary list — each pair gives the end offset (in
    /// characters of `letters`) of a consumed span and the glyph it produced
    /// — together with the concatenated glyph output.
    pub fn segment(&self, letters: &str) -> (r: (Vec<(usize, String)>, String))
        requires
            self.wf(),
        ensures
            bounds_view(r.0@) == seg_bounds(self@.candis, letters@, 0),
            r.1@ == seg_output(self@.candis, letters@, 0),
    {
        let ghost m = self@.candis;
        let n = letters.unicode_len();
        let mut from: usize = 0;
        let mut to: usize = n;
        let mut pairs: Vec<(usize, String)> = Vec::new();
        let mut out = String::new();
        proof {
            assert(bounds_view(pairs@) =~= Seq::<(int, Seq<char>)>::empty());
        }
        while from < to
            invariant
                from <= to <= n,
                n == letters@.len(),
                self.wf(),
                m == self@.candis,
                from < to || to == n,
                forall|t: int|
                    to < t <= n ==> !matchable(m, letters@.subrange(from as int, t)),
                bounds_view(pairs@) + seg_bounds(m, letters@, from as int) == seg_bounds(
                    m,
                    letters@,
                    0,
                ),
                out@ + seg_output(m, letters@, from as int) == seg_output(m, letters@, 0),
            decreases n - from, to - from,
        {
            let slice = letters.substring_char(from, to);
            let ghost sv = letters@.subrange(from as int, to as int);
            let glyph: Option<&String> = match self.lookup_candidate(slice) {
                Some(Candidate::Exact(p, _)) => Some(p),
                Some(Candidate::Unique(g)) => Some(g),
                _ => None,
            };
            if let Some(g) = glyph {
                proof {
                    assert(matchable(m, sv));
                    lemma_match_end_skip(m, letters@, from as int, to as int, n as int);
                    assert(match_end(m, letters@, from as int, n as int) == to);
                    assert(glyph_of(m, sv) == g@);
                    assert(seg_bounds(m, letters@, from as int) == seq![
                        (to as int, g@),
                    ] + seg_bounds(m, letters@, to as int));
                    assert(seg_output(m, letters@, from as int) == g@ + seg_output(
                        m,
                        letters@,
                        to as int,
                    ));
                }
                let ghost pairs0 = pairs@;
                pairs.push((to, g.clone()));
                out.append(g.as_str());
                proof {
                    assert(bounds_view(pairs@) =~= bounds_view(pairs0) + seq![(to as int, g@)]);
                    assert(bounds_view(pairs@) + seg_bounds(m, letters@, to as int)
                        =~= bounds_view(pairs0) + seg_bounds(m, letters@, from as int));
                    assert(out@ + seg_output(m, letters@, to as int) =~= seg_output(
                        m,
                        letters@,
                        0,
                    ));
                }
                from = to;
                to = n;
            } else {
                proof {
                    assert(!matchable(m, sv));
                }
                if from + 1 < to {
                    to = to - 1;
                } else {
                    proof {
                        lemma_match_end_skip(m, letters@, from as int, to as int, n as int);
                        assert(to == from + 1);
                        assert(!matchable(m, letters@.subrange(from as int, from as int + 1)));
                        assert(match_end(m, letters@, from as int, from as int) == from);
                        assert(match_end(m, letters@, from as int, to as int) == from);
                        assert(seg_bounds(m, letters@, from as int) == seg_bounds(
                            m,
                            letters@,
                            from + 1 as int,
                        ));
                        assert(seg_output(m, letters@, from as int) == seg_output(
                            m,
                            letters@,
                            from + 1 as int,
                        ));
                    }
                    from = from + 1;
                    to = n;
                }
            }
        }
        proof {
            assert(from == n);
            assert(seg_bounds(m, letters@, n as int) =~= Seq::<(int, Seq<char>)>::empty());
            assert(bounds_view(pairs@) =~= seg_bounds(m, letters@, 0));
            assert(out@ =~= seg_output(m, letters@, 0));
        }
        (pairs, out)
    }
}

/// When the whole input is one matchable key, segmentation consumes it in a
/// single span ending at the input's length.
proof fn lemma_segment_whole(m: Map<Seq<char>, CandView>, s: Seq<char>)
    requires
        s.len() > 0,
        matchable(m, s),
    ensures
        seg_bounds(m, s, 0) == seq![(s.len() as int, glyph_of(m, s))],
        seg_output(m, s, 0) == glyph_of(m, s),
{
    assert(s.subrange(0, s.len() as int) =~= s);
    assert(match_end(m, s, 0, s.len() as int) == s.len());
    assert(seg_bounds(m, s, s.len() as int) =~= Seq::<(int, Seq<char>)>::empty());
    assert(seg_bounds(m, s, 0) =~= seq![(s.len() as int, glyph_of(m, s))]);
    assert(seg_output(m, s, s.len() as int) =~= Seq::<char>::empty());
    assert(seg_output(m, s, 0) =~= glyph_of(m, s));
}

/// Law: segmenting a dictionary spelling alone yields exactly its glyph,
/// with a single boundary at the spelling's length. The entry must be the
/// first with its spelling: a later homophone's glyph only becomes an
/// alternate, and segmenting resolves to the first glyph.
pub proof fn lemma_segment_spelling(es: Seq<(Seq<char>, Seq<char>)>, i: int)
    requires
        0 <= i < es.len(),
        es[i].0.len() > 0,
        forall|j: int| 0 <= j < i ==> (#[trigger] es[j]).0 != es[i].0,
    ensures
        seg_bounds(schema_candis(es), es[i].0, 0) == seq![
            (es[i].0.len() as int, es[i].1),
        ],
        seg_output(schema_candis(es), es[i].0, 0) == es[i].1,
{
    let m = schema_candis(es);
    let s = es[i].0;
    lemma_built_exact(es, es.len() as int, s);
    assert(is_spelling(es, es.len() as int, s));
    lemma_first_glyph(es, es.len() as int, i);
    assert(exact_primary(m[s]) == es[i].1);
    assert(matchable(m, s));
    assert(glyph_of(m, s) == es[i].1);
    lemma_segment_whole(m, s);
}

/// Law: a proper non-empty prefix of exactly one spelling — itself not a
/// spelling — segments alone to the glyph of that spelling's first entry,
/// with a single boundary at the prefix's length.
pub proof fn lemma_segment_unique_prefix(es: Seq<(Seq<char>, Seq<char>)>, p: Seq<char>, i: int)
    requires
        0 <= i < es.len(),
        proper_prefix(p, es[i].0),
        forall|j: int| 0 <= j < es.len() ==> (#[trigger] es[j]).0 != p,
        forall|j: int|
            0 <= j < es.len() && proper_prefix(p, (#[trigger] es[j]).0) ==> es[j].0
                == es[i].0,
        forall|j: int| 0 <= j < i ==> (#[trigger] es[j]).0 != es[i].0,
    ensures
        seg_bounds(schema_candis(es), p, 0) == seq![(p.len() as int, es[i].1)],
        seg_output(schema_candis(es), p, 0) == es[i].1,
{
    let m = schema_candis(es);
    lemma_built_unique(es, es.len() as int, p, es[i].0);
    lemma_first_glyph(es, es.len() as int, i);
    assert(m.contains_key(p) && m[p] == CandView::Unique(es[i].1));
    assert(matchable(m, p));
    assert(glyph_of(m, p) == es[i].1);
    lemma_segment_whole(m, p);
}

/// Law: when every non-empty slice of the input is ambiguous or absent in
/// the schema, segmentation drops every character and emits nothing.
pub proof fn lemma_segment_ambiguous(m: Map<Seq<char>, CandView>, s: Seq<char>)
    requires
        forall|i: int, j: int| 0 <= i < j <= s.len() ==> !matchable(m, #[trigger] s.subrange(i, j)),
    ensures
        seg_bounds(m, s, 0) == Seq::<(int, Seq<char>)>::empty(),
        seg_output(m, s, 0) == Seq::<char>::empty(),
{
    lemma_segment_drops_all(m, s, 0);
}

proof fn lemma_segment_drops_all(m: Map<Seq<char>, CandView>, s: Seq<char>, from: int)
    requires
        0 <= from,
        forall|i: int, j: int| 0 <= i < j <= s.len() ==> !matchable(m, #[trigger] s.subrange(i, j)),
    ensures
        seg_bounds(m, s, from) == Seq::<(int, Seq<char>)>::empty(),
        seg_output(m, s, from) == Seq::<char>::empty(),
    decreases s.len() - from,
{
    if from < s.len() {
        lemma_match_end_skip(m, s, from, from, s.len() as int);
        assert(match_end(m, s, from, s.len() as int) == from);
        lemma_segment_drops_all(m, s, from + 1);
    }
}

/// The concatenated glyph output for `letters`, as the composition window
/// shows it.
pub fn suggest(schema: &Schema, letters: &str) -> (r: String)
    requires
        schema.wf(),
    ensures
        r@ == seg_output(schema@.candis, letters@, 0),
{
    let (_, out) = schema.segment(letters);
    out
}

/// Remaps one punctuation character through the schema's table; a character
/// absent from the table passes through unchanged.
pub fn convert_punct(schema: &Schema, punct: char) -> (r: char)
    requires
        schema.wf(),
    ensures
        schema@.puncts.contains_key(punct) ==> r == schema@.puncts[punct],
        !schema@.puncts.contains_key(punct) ==> r == punct,
{
    match schema.lookup_punct(punct) {
        Some(c) => c,
        None => punct,
    }
}

} // verus!
