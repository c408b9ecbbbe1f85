//! The visual combination pass over a finished glyph sequence: a configured
//! set of container glyphs opens an implicit wrapping region that runs until
//! the next negation marker or container; a negation marker brackets the
//! glyph before it; and a glyph repeated right after a negation marker is
//! wrapped as reduplication shorthand.

use vstd::prelude::*;

verus! {

/// The negation marker glyph of the sitelen pona script.
pub const ALA: char = '󱤂';

// The six container glyphs of sitelen pona that open a wrapping region.
pub const AWEN: char = '󱤈';

pub const KEN: char = '󱤘';

pub const KEPEKEN: char = '󱤙';

pub const LON: char = '󱤬';

pub const PI: char = '󱥍';

pub const TAWA: char = '󱥩';

// The bracket pairs: the wrapping region's markers and the negation markers.
pub const START_OF_LONG_GLYPH: char = '󱦗';

pub const END_OF_LONG_GLYPH: char = '󱦘';

pub const START_OF_REVERSE_LONG_GLYPH: char = '󱦚';

pub const END_OF_REVERSE_LONG_GLYPH: char = '󱦛';

/// The configuration of the pass: which glyphs open a wrapping region, the
/// negation marker, and the four bracket glyphs. All of it is script
/// configuration, not a fixed constant of the algorithm.
pub struct LongGlyphRules {
    pub wrappable: Vec<char>,
    pub negator: char,
    pub wrap_start: char,
    pub wrap_end: char,
    pub neg_start: char,
    pub neg_end: char,
}

/// Mathematical shape of the configuration.
pub ghost struct LongGlyphRulesView {
    pub wrappable: Seq<char>,
    pub negator: char,
    pub wrap_start: char,
    pub wrap_end: char,
    pub neg_start: char,
    pub neg_end: char,
}

impl View for LongGlyphRules {
    type V = LongGlyphRulesView;

    open spec fn view(&self) -> LongGlyphRulesView {
        LongGlyphRulesView {
            wrappable: self.wrappable@,
            negator: self.negator,
            wrap_start: self.wrap_start,
            wrap_end: self.wrap_end,
            neg_start: self.neg_start,
            neg_end: self.neg_end,
        }
    }
}

/// The machine's state after some prefix of the input: what was emitted,
/// whether a wrapping region is open, and the glyph a repetition of which
/// would be reduplication shorthand.
pub ghost struct LgState {
    pub out: Seq<char>,
    pub open: bool,
    pub pending: Option<char>,
}

pub open spec fn lg_init() -> LgState {
    LgState { out: Seq::empty(), open: false, pending: None }
}

/// One transition of the pass.
///
/// A negation marker brackets the last emitted glyph between the dedicated
/// negation brackets and re-emits itself after them; a bare wrap-start
/// marker standing in the way is discarded first (the region it opened is
/// empty and premature), and an open region is closed first. With nothing
/// emitted yet the marker passes through unchanged.
///
/// Any other glyph right after a negation marker either repeats the negated
/// glyph — then it is emitted between the plain wrap markers — or clears the
/// repetition state and is processed normally: it is emitted, and if it is a
/// container glyph while no region is open, the wrap-start marker follows it
/// and a region opens.
pub open spec fn lg_step(st: LgState, c: char, r: LongGlyphRulesView) -> LgState {
    if c == r.negator {
        if st.out.len() == 0 {
            LgState { out: st.out.push(c), open: st.open, pending: st.pending }
        } else if st.out.last() == r.wrap_start {
            let out1 = st.out.drop_last();
            if out1.len() == 0 {
                LgState { out: out1.push(c), open: false, pending: st.pending }
            } else {
                let prev = out1.last();
                LgState {
                    out: out1.drop_last() + seq![r.neg_start, prev, r.neg_end, c],
                    open: false,
                    pending: Some(prev),
                }
            }
        } else {
            let prev = st.out.last();
            let out1 = st.out.drop_last();
            let out2 = if st.open {
                out1.push(r.wrap_end)
            } else {
                out1
            };
            LgState {
                out: out2 + seq![r.neg_start, prev, r.neg_end, c],
                open: false,
                pending: Some(prev),
            }
        }
    } else {
        match st.pending {
            Some(g) => {
                if c == g {
                    LgState {
                        out: st.out + seq![r.wrap_start, c, r.wrap_end],
                        open: st.open,
                        pending: None,
                    }
                } else if r.wrappable.contains(c) && !st.open {
                    LgState { out: st.out.push(c).push(r.wrap_start), open: true, pending: None }
                } else {
                    LgState { out: st.out.push(c), open: st.open, pending: None }
                }
            },
            None => {
                if r.wrappable.contains(c) && !st.open {
                    LgState { out: st.out.push(c).push(r.wrap_start), open: true, pending: None }
                } else {
                    LgState { out: st.out.push(c), open: st.open, pending: None }
                }
            },
        }
    }
}

/// The state after the first `i` input glyphs.
pub open spec fn lg_run(s: Seq<char>, i: int, r: LongGlyphRulesView) -> LgState
    decreases i,
{
    if i <= 0 {
        lg_init()
    } else {
        lg_step(lg_run(s, i - 1, r), s[i - 1], r)
    }
}

/// End of stream: a still-open region is closed with the wrap-end marker,
/// except that a bare trailing wrap-start marker is discarded instead.
pub open spec fn lg_fini(st: LgState, r: LongGlyphRulesView) -> Seq<char> {
    if !st.open {
        st.out
    } else if st.out.len() == 0 {
        st.out
    } else if st.out.last() == r.wrap_start {
        st.out.drop_last()
    } else {
        st.out.push(r.wrap_end)
    }
}

/// The whole pass as a function of the input glyph sequence.
pub open spec fn apply_long_glyph_spec(s: Seq<char>, r: LongGlyphRulesView) -> Seq<char> {
    lg_fini(lg_run(s, s.len() as int, r), r)
}

fn contains_char(v: &Vec<char>, c: char) -> (b: bool)
    ensures
        b == v@.contains(c),
{
    let mut i: usize = 0;
    while i < v.len()
        invariant
            i <= v@.len(),
            forall|k: int| 0 <= k < i ==> v@[k] != c,
        decreases v@.len() - i,
    {
        if v[i] == c {
            return true;
        }
        i += 1;
    }
    false
}

/// Runs the combination pass over a glyph sequence with the given
/// configuration.
pub fn apply_long_glyph(glyphs: &Vec<char>, rules: &LongGlyphRules) -> (r: Vec<char>)
    ensures
        r@ == apply_long_glyph_spec(glyphs@, rules@),
{
    let mut out: Vec<char> = Vec::new();
    let mut open = false;
    let mut pending: Option<char> = None;
    let mut i: usize = 0;
    while i < glyphs.len()
        invariant
            i <= glyphs@.len(),
            lg_run(glyphs@, i as int, rules@) == (LgState { out: out@, open, pending }),
        decreases glyphs@.len() - i,
    {
        let c = glyphs[i];
        let ghost st0 = LgState { out: out@, open, pending };
        let ghost st1 = lg_step(st0, c, rules@);
        if c == rules.negator {
            match out.pop() {
                None => {
                    out.push(c);
                },
                Some(prev) => {
                    if prev == rules.wrap_start {
                        open = false;
                        match out.pop() {
                            None => {
                                out.push(c);
                            },
                            Some(real_prev) => {
                                out.push(rules.neg_start);
                                out.push(real_prev);
                                out.push(rules.neg_end);
                                out.push(c);
                                pending = Some(real_prev);
                            },
                        }
                    } else {
                        if open {
                            out.push(rules.wrap_end);
                            open = false;
                        }
                        out.push(rules.neg_start);
                        out.push(prev);
                        out.push(rules.neg_end);
                        out.push(c);
                        pending = Some(prev);
                    }
                },
            }
        } else {
            let mut repeated = false;
            if let Some(g) = pending {
                if c == g {
                    out.push(rules.wrap_start);
                    out.push(c);
                    out.push(rules.wrap_end);
                    repeated = true;
                }
                pending = None;
            }
            if !repeated {
                out.push(c);
                if contains_char(&rules.wrappable, c) && !open {
                    out.push(rules.wrap_start);
                    open = true;
                }
            }
        }
        proof {
            assert(out@ =~= st1.out);
            assert(lg_run(glyphs@, i + 1 as int, rules@) == lg_step(st0, glyphs@[i as int], rules@));
        }
        i += 1;
    }
    if open {
        match out.pop() {
            None => {
            },
            Some(prev) => {
                if prev != rules.wrap_start {
                    out.push(prev);
                    out.push(rules.wrap_end);
                }
            },
        }
        proof {
            assert(out@ =~= lg_fini(lg_run(glyphs@, glyphs@.len() as int, rules@), rules@));
        }
    }
    out
}

/// The sitelen pona configuration: the six container glyphs, the negation
/// marker, and the long-glyph bracket pairs.
pub open spec fn sitelen_rules_view() -> LongGlyphRulesView {
    LongGlyphRulesView {
        wrappable: seq![AWEN, KEN, KEPEKEN, LON, PI, TAWA],
        negator: ALA,
        wrap_start: START_OF_LONG_GLYPH,
        wrap_end: END_OF_LONG_GLYPH,
        neg_start: START_OF_REVERSE_LONG_GLYPH,
        neg_end: END_OF_REVERSE_LONG_GLYPH,
    }
}

pub fn sitelen_rules() -> (r: LongGlyphRules)
    ensures
        r@ == sitelen_rules_view(),
{
    let mut wrappable: Vec<char> = Vec::new();
    wrappable.push(AWEN);
    wrappable.push(KEN);
    wrappable.push(KEPEKEN);
    wrappable.push(LON);
    wrappable.push(PI);
    wrappable.push(TAWA);
    proof {
        assert(wrappable@ =~= seq![AWEN, KEN, KEPEKEN, LON, PI, TAWA]);
    }
    LongGlyphRules {
        wrappable,
        negator: ALA,
        wrap_start: START_OF_LONG_GLYPH,
        wrap_end: END_OF_LONG_GLYPH,
        neg_start: START_OF_REVERSE_LONG_GLYPH,
        neg_end: END_OF_REVERSE_LONG_GLYPH,
    }
}

/// Copies a string slice's characters into an owned vector.
fn str_to_chars(s: &str) -> (r: Vec<char>)
    ensures
        r@ == s@,
{
    let n = s.unicode_len();
    let mut r: Vec<char> = Vec::new();
    let mut i: usize = 0;
    while i < n
        invariant
            i <= n,
            n == s@.len(),
            r@ == s@.subrange(0, i as int),
        decreases n - i,
    {
        r.push(s.get_char(i));
        proof {
            assert(r@ =~= s@.subrange(0, i + 1));
        }
        i += 1;
    }
    proof {
        assert(r@ =~= s@);
    }
    r
}

/// Relies on String::push: appends exactly the one character at the end.
#[verifier::external_body]
fn push_char(s: &mut String, c: char)
    ensures
        final(s)@ == old(s)@.push(c),
{
    s.push(c);
}

fn chars_to_string(v: &Vec<char>) -> (r: String)
    ensures
        r@ == v@,
{
    let mut r = String::new();
    let mut i: usize = 0;
    while i < v.len()
        invariant
            i <= v@.len(),
            r@ == v@.subrange(0, i as int),
        decreases v@.len() - i,
    {
        push_char(&mut r, v[i]);
        proof {
            assert(r@ =~= v@.subrange(0, i + 1));
        }
        i += 1;
    }
    proof {
        assert(r@ =~= v@);
    }
    r
}

/// Runs the combination pass in place over a string of glyphs, with the
/// sitelen pona configuration.
pub fn process_long_glyph(text: &mut String)
    ensures
        final(text)@ == apply_long_glyph_spec(old(text)@, sitelen_rules_view()),
{
    let chars = str_to_chars(text.as_str());
    let rules = sitelen_rules();
    let out = apply_long_glyph(&chars, &rules);
    *text = chars_to_string(&out);
}

/// Identity law: the pass leaves any glyph sequence unchanged that contains
/// no container glyph and no negation marker.
pub proof fn lemma_long_glyph_identity(s: Seq<char>, r: LongGlyphRulesView)
    requires
        forall|k: int| 0 <= k < s.len() ==> s[k] != r.negator && !r.wrappable.contains(#[trigger] s[k]),
    ensures
        apply_long_glyph_spec(s, r) == s,
{
    lemma_lg_run_plain(s, r, s.len() as int);
    assert(s.subrange(0, s.len() as int) =~= s);
}

/// While no container glyph and no negation marker has come in, the machine
/// only copies its input.
proof fn lemma_lg_run_plain(s: Seq<char>, r: LongGlyphRulesView, i: int)
    requires
        0 <= i <= s.len(),
        forall|k: int| 0 <= k < s.len() ==> s[k] != r.negator && !r.wrappable.contains(#[trigger] s[k]),
    ensures
        lg_run(s, i, r) == (LgState { out: s.subrange(0, i), open: false, pending: None }),
    decreases i,
{
    if i == 0 {
        assert(s.subrange(0, 0) =~= Seq::<char>::empty());
    } else {
        lemma_lg_run_plain(s, r, i - 1);
        assert(s.subrange(0, i - 1).push(s[i - 1]) =~= s.subrange(0, i));
    }
}

} // verus!
