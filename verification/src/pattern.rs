//! Compiled route patterns and their matching semantics.
//!
//! A pattern is a sequence of segments — literal text or a named parameter —
//! optionally closed by a named tail that captures the whole remainder of
//! the path. Literal segments match exactly; a parameter matches exactly one
//! non-empty segment and binds its text; the tail matches a remainder that
//! begins with a separator, the separator included.
//!
//! When several patterns match one path, the most specific wins: patterns
//! are compared by the kinds of their segments, position by position, a
//! literal before a parameter before a tail.

use crate::http::COLON;
use crate::http::SLASH;
use crate::http::STAR;
use vstd::prelude::*;

verus! {

/// One compiled path segment.
#[derive(Debug, Clone)]
pub enum SegPat {
    /// Matches exactly this text.
    Literal(Vec<u8>),
    /// Matches one non-empty segment and binds it under this name.
    Param(Vec<u8>),
}

/// The mathematical value of a [`SegPat`].
#[verifier::ext_equal]
pub enum SegPatView {
    Literal(Seq<u8>),
    Param(Seq<u8>),
}

impl View for SegPat {
    type V = SegPatView;

    open spec fn view(&self) -> SegPatView {
        match self {
            SegPat::Literal(t) => SegPatView::Literal(t@),
            SegPat::Param(n) => SegPatView::Param(n@),
        }
    }
}

impl DeepView for SegPat {
    type V = SegPatView;

    open spec fn deep_view(&self) -> SegPatView {
        self@
    }
}

/// A compiled route pattern.
#[derive(Debug, Clone)]
pub struct Pattern {
    pub segs: Vec<SegPat>,
    pub tail: Option<Vec<u8>>,
}

/// The mathematical value of a [`Pattern`].
#[verifier::ext_equal]
pub struct PatternView {
    pub segs: Seq<SegPatView>,
    pub tail: Option<Seq<u8>>,
}

impl View for Pattern {
    type V = PatternView;

    open spec fn view(&self) -> PatternView {
        PatternView { segs: self.segs.deep_view(), tail: self.tail.deep_view() }
    }
}

/// The reserved tail-capture parameter name, used for the remainder of a
/// nested mount's path. Patterns may not name their own parameters so.
pub open spec fn reserved_tail() -> Seq<u8> {
    seq![95u8, 105u8, 110u8, 110u8, 101u8, 114u8, 95u8, 116u8, 97u8, 105u8, 108u8]
}

/// The reserved tail-capture parameter name, as bytes.
pub fn reserved_tail_name() -> (r: Vec<u8>)
    ensures
        r@ == reserved_tail(),
{
    let mut r: Vec<u8> = Vec::new();
    r.push(95);
    r.push(105);
    r.push(110);
    r.push(110);
    r.push(101);
    r.push(114);
    r.push(95);
    r.push(116);
    r.push(97);
    r.push(105);
    r.push(108);
    proof {
        assert(r@ =~= reserved_tail());
    }
    r
}

/// The number of bytes before the first separator of `p` (all of `p` if it
/// has none).
pub open spec fn first_seg_len(p: Seq<u8>) -> int
    decreases p.len(),
{
    if p.len() == 0 || p[0] == SLASH {
        0
    } else {
        1 + first_seg_len(p.drop_first())
    }
}

/// `first_seg_len` is the position of the first separator.
pub proof fn lemma_first_seg_len(p: Seq<u8>)
    ensures
        0 <= first_seg_len(p) <= p.len(),
        forall|i: int| 0 <= i < first_seg_len(p) ==> p[i] != SLASH,
        first_seg_len(p) < p.len() ==> p[first_seg_len(p)] == SLASH,
    decreases p.len(),
{
    if p.len() > 0 && p[0] != SLASH {
        lemma_first_seg_len(p.drop_first());
        assert forall|i: int| 0 <= i < first_seg_len(p) implies p[i] != SLASH by {
            if i > 0 {
                assert(p.drop_first()[i - 1] != SLASH);
            }
        }
    }
}

/// The converse: a prefix free of separators, closed by a separator or the
/// end, pins `first_seg_len` down.
pub proof fn lemma_first_seg_len_is(p: Seq<u8>, n: int)
    requires
        0 <= n <= p.len(),
        forall|i: int| 0 <= i < n ==> p[i] != SLASH,
        n < p.len() ==> p[n] == SLASH,
    ensures
        first_seg_len(p) == n,
    decreases n,
{
    if n > 0 {
        assert(p[0] != SLASH);
        lemma_first_seg_len_is(p.drop_first(), n - 1);
    }
}

/// Whether one segment of path text satisfies one pattern segment.
pub open spec fn seg_matches(s: SegPatView, text: Seq<u8>) -> bool {
    match s {
        SegPatView::Literal(l) => text == l,
        SegPatView::Param(_) => text.len() > 0,
    }
}

/// Whether the remaining pattern matches the remaining path text `p`.
///
/// Each pending segment consumes a separator and the following run of
/// non-separator bytes; a pattern without a tail must then have consumed the
/// whole path, while a tail requires a non-empty remainder that begins with
/// a separator and captures it whole.
pub open spec fn segs_match(segs: Seq<SegPatView>, tail: Option<Seq<u8>>, p: Seq<u8>) -> bool
    decreases segs.len(),
{
    if segs.len() == 0 {
        match tail {
            Option::None => p.len() == 0,
            Option::Some(_) => p.len() >= 1 && p[0] == SLASH,
        }
    } else {
        p.len() >= 1 && p[0] == SLASH && {
            let rest = p.drop_first();
            let n = first_seg_len(rest);
            seg_matches(segs[0], rest.take(n)) && segs_match(
                segs.drop_first(),
                tail,
                rest.skip(n),
            )
        }
    }
}

/// Whether `pat` matches the path `p`.
pub open spec fn pat_matches(pat: PatternView, p: Seq<u8>) -> bool {
    segs_match(pat.segs, pat.tail, p)
}

/// The parameters the remaining pattern captures from the remaining path,
/// in segment order, the tail capture last. Meaningful when it matches.
pub open spec fn segs_captures(segs: Seq<SegPatView>, tail: Option<Seq<u8>>, p: Seq<u8>) -> Seq<
    (Seq<u8>, Seq<u8>),
>
    decreases segs.len(),
{
    if segs.len() == 0 {
        match tail {
            Option::None => Seq::empty(),
            Option::Some(name) => seq![(name, p)],
        }
    } else {
        let rest = p.drop_first();
        let n = first_seg_len(rest);
        let head: Seq<(Seq<u8>, Seq<u8>)> = match segs[0] {
            SegPatView::Literal(_) => Seq::empty(),
            SegPatView::Param(name) => seq![(name, rest.take(n))],
        };
        head + segs_captures(segs.drop_first(), tail, rest.skip(n))
    }
}

/// The parameters `pat` captures from the path `p`.
pub open spec fn pat_captures(pat: PatternView, p: Seq<u8>) -> Seq<(Seq<u8>, Seq<u8>)> {
    segs_captures(pat.segs, pat.tail, p)
}

/// Copies `v[start..end]` out.
pub fn sub_bytes(v: &Vec<u8>, start: usize, end: usize) -> (r: Vec<u8>)
    requires
        start <= end <= v@.len(),
    ensures
        r@ == v@.subrange(start as int, end as int),
{
    let mut r: Vec<u8> = Vec::new();
    let mut i: usize = start;
    while i < end
        invariant
            start <= i <= end <= v@.len(),
            r@ =~= v@.subrange(start as int, i as int),
        decreases end - i,
    {
        r.push(v[i]);
        i += 1;
    }
    proof {
        assert(r@ =~= v@.subrange(start as int, end as int));
    }
    r
}

impl Pattern {
    /// Matches this pattern against `path`: the captured parameters if it
    /// matches, nothing if it does not.
    #[verifier::loop_isolation(false)]
    #[verifier::rlimit(60)]
    pub fn match_path(&self, path: &Vec<u8>) -> (r: Option<Vec<(Vec<u8>, Vec<u8>)>>)
        ensures
            r is Some <==> pat_matches(self@, path@),
            r matches Some(c) ==> c.deep_view() == pat_captures(self@, path@),
    {
        let mut caps: Vec<(Vec<u8>, Vec<u8>)> = Vec::new();
        let mut pos: usize = 0;
        let mut k: usize = 0;
        proof {
            assert(path@.skip(0int) =~= path@);
            assert(self@.segs.skip(0int) =~= self@.segs);
            assert(caps.deep_view() =~~= Seq::<(Seq<u8>, Seq<u8>)>::empty());
        }
        while k < self.segs.len()
            invariant
                k <= self.segs.len(),
                pos <= path@.len(),
                pat_matches(self@, path@) == segs_match(
                    self@.segs.skip(k as int),
                    self@.tail,
                    path@.skip(pos as int),
                ),
                pat_matches(self@, path@) ==> pat_captures(self@, path@) == caps.deep_view()
                    + segs_captures(self@.segs.skip(k as int), self@.tail, path@.skip(pos as int)),
            decreases self.segs.len() - k,
        {
            let ghost rem = path@.skip(pos as int);
            if pos >= path.len() || path[pos] != SLASH {
                proof {
                    assert(!segs_match(self@.segs.skip(k as int), self@.tail, rem));
                }
                return None;
            }
            // Scan the run of non-separator bytes after the separator.
            let mut end: usize = pos + 1;
            while end < path.len() && path[end] != SLASH
                invariant
                    pos + 1 <= end <= path@.len(),
                    forall|i: int| pos + 1 <= i < end ==> path@[i] != SLASH,
                decreases path@.len() - end,
            {
                end += 1;
            }
            let ghost rest = rem.drop_first();
            proof {
                assert(rest =~= path@.skip(pos + 1));
                lemma_first_seg_len_is(rest, end - pos - 1);
            }
            let seg_ok: bool;
            match &self.segs[k] {
                SegPat::Literal(l) => {
                    let text = sub_bytes(path, pos + 1, end);
                    proof {
                        assert(text@ =~= rest.take(first_seg_len(rest)));
                    }
                    seg_ok = crate::http::bytes_eq(&text, l);
                    proof {
                        assert(self@.segs.skip(k as int)[0] == self@.segs[k as int]);
                        assert(self@.segs[k as int] matches SegPatView::Literal(lv) && lv == l@);
                    }
                },
                SegPat::Param(name) => {
                    seg_ok = end > pos + 1;
                    if seg_ok {
                        let text = sub_bytes(path, pos + 1, end);
                        proof {
                            assert(text@ =~= rest.take(first_seg_len(rest)));
                        }
                        let owned_name = name.clone();
                        proof {
                            assert(owned_name@ =~= name@);
                        }
                        caps.push((owned_name, text));
                    }
                    proof {
                        assert(self@.segs.skip(k as int)[0] == self@.segs[k as int]);
                        assert(self@.segs[k as int] matches SegPatView::Param(nv) && nv == name@);
                    }
                },
            }
            proof {
                assert(seg_ok == seg_matches(self@.segs[k as int], rest.take(first_seg_len(rest))));
            }
            if !seg_ok {
                proof {
                    assert(!segs_match(self@.segs.skip(k as int), self@.tail, rem));
                }
                return None;
            }
            proof {
                assert(self@.segs.skip(k as int).drop_first() =~= self@.segs.skip(k + 1));
                assert(rest.skip(first_seg_len(rest)) =~= path@.skip(end as int));
                assert(segs_match(self@.segs.skip(k as int), self@.tail, rem) == segs_match(
                    self@.segs.skip(k + 1),
                    self@.tail,
                    path@.skip(end as int),
                ));
                if pat_matches(self@, path@) {
                    assert(segs_captures(self@.segs.skip(k as int), self@.tail, rem)
                        == (match self@.segs[k as int] {
                        SegPatView::Literal(_) => Seq::<(Seq<u8>, Seq<u8>)>::empty(),
                        SegPatView::Param(name) => seq![(name, rest.take(first_seg_len(rest)))],
                    }) + segs_captures(self@.segs.skip(k + 1), self@.tail, path@.skip(end as int)));
                    assert(pat_captures(self@, path@) =~~= caps.deep_view() + segs_captures(
                        self@.segs.skip(k + 1),
                        self@.tail,
                        path@.skip(end as int),
                    ));
                }
            }
            pos = end;
            k += 1;
        }
        proof {
            assert(self@.segs.skip(k as int) =~= Seq::<SegPatView>::empty());
        }
        match &self.tail {
            None => {
                if pos == path.len() {
                    proof {
                        assert(path@.skip(pos as int) =~= Seq::<u8>::empty());
                        assert(pat_captures(self@, path@) =~~= caps.deep_view());
                    }
                    Some(caps)
                } else {
                    proof {
                        assert(path@.skip(pos as int).len() > 0);
                    }
                    None
                }
            },
            Some(name) => {
                if pos < path.len() && path[pos] == SLASH {
                    let text = sub_bytes(path, pos, path.len());
                    proof {
                        assert(text@ =~= path@.skip(pos as int));
                    }
                    let owned_name = name.clone();
                    proof {
                        assert(owned_name@ =~= name@);
                    }
                    caps.push((owned_name, text));
                    proof {
                        assert(pat_captures(self@, path@) =~~= caps.deep_view());
                    }
                    Some(caps)
                } else {
                    None
                }
            },
        }
    }
}

/// The specificity rank of one segment: literals are most specific.
pub open spec fn seg_rank(s: SegPatView) -> int {
    match s {
        SegPatView::Literal(_) => 0,
        SegPatView::Param(_) => 1,
    }
}

/// The rank word of a pattern: one rank per segment, a final 2 for a tail.
pub open spec fn ranks(pat: PatternView) -> Seq<int> {
    pat.segs.map_values(|s: SegPatView| seg_rank(s)) + (match pat.tail {
        Option::Some(_) => seq![2int],
        Option::None => Seq::<int>::empty(),
    })
}

/// Strict lexicographic order on rank words; a word is also below every
/// word it is a proper prefix of.
pub open spec fn rank_lt(a: Seq<int>, b: Seq<int>) -> bool
    decreases a.len(),
{
    b.len() > 0 && (a.len() == 0 || a[0] < b[0] || (a[0] == b[0] && rank_lt(
        a.drop_first(),
        b.drop_first(),
    )))
}

/// The order is strict: no two words are below each other.
pub proof fn lemma_rank_lt_asym(a: Seq<int>, b: Seq<int>)
    requires
        rank_lt(a, b),
    ensures
        !rank_lt(b, a),
    decreases a.len(),
{
    if a.len() > 0 && b.len() > 0 && a[0] == b[0] {
        lemma_rank_lt_asym(a.drop_first(), b.drop_first());
    }
}

/// The order is transitive.
pub proof fn lemma_rank_lt_trans(a: Seq<int>, b: Seq<int>, c: Seq<int>)
    requires
        rank_lt(a, b),
        rank_lt(b, c),
    ensures
        rank_lt(a, c),
    decreases a.len(),
{
    if a.len() > 0 && b.len() > 0 && c.len() > 0 && a[0] == b[0] && b[0] == c[0] {
        lemma_rank_lt_trans(a.drop_first(), b.drop_first(), c.drop_first());
    }
}

/// Two words with equal heads and equal remainders are equal.
proof fn lemma_cons_eq(a: Seq<int>, b: Seq<int>)
    requires
        a.len() > 0,
        b.len() > 0,
        a[0] == b[0],
        a.drop_first() == b.drop_first(),
    ensures
        a == b,
{
    assert(a.drop_first().len() == a.len() - 1);
    assert(b.drop_first().len() == b.len() - 1);
    assert(a.len() == b.len());
    assert forall|i: int| 0 <= i < a.len() implies a[i] == b[i] by {
        if i > 0 {
            assert(a.drop_first()[i - 1] == a[i]);
            assert(b.drop_first()[i - 1] == b[i]);
            assert(a.drop_first()[i - 1] == b.drop_first()[i - 1]);
        }
    }
    assert(a =~= b);
}

/// Prefixes lift over a shared head.
proof fn lemma_prefix_lift(a: Seq<int>, b: Seq<int>)
    requires
        a.len() > 0,
        b.len() > 0,
        a[0] == b[0],
        a.drop_first().is_prefix_of(b.drop_first()),
    ensures
        a.is_prefix_of(b),
{
    assert forall|i: int| 0 <= i < a.len() implies a[i] == b.take(a.len() as int)[i] by {
        if i > 0 {
            assert(a.drop_first()[i - 1] == b.drop_first().take(a.len() - 1)[i - 1]);
            assert(b.drop_first().take(a.len() - 1)[i - 1] == b.drop_first()[i - 1]);
        }
    }
    assert(a =~= b.take(a.len() as int));
}

/// Two distinct words are ordered, unless one is a prefix of the other.
pub proof fn lemma_rank_lt_connected(a: Seq<int>, b: Seq<int>)
    requires
        a != b,
    ensures
        rank_lt(a, b) || rank_lt(b, a) || a.is_prefix_of(b) || b.is_prefix_of(a),
    decreases a.len(),
{
    if a.len() == 0 {
        assert(a =~= b.take(0));
    } else if b.len() == 0 {
        assert(b =~= a.take(0));
    } else if a[0] == b[0] {
        if a.drop_first() == b.drop_first() {
            lemma_cons_eq(a, b);
        } else {
            lemma_rank_lt_connected(a.drop_first(), b.drop_first());
            if a.drop_first().is_prefix_of(b.drop_first()) {
                lemma_prefix_lift(a, b);
            } else if b.drop_first().is_prefix_of(a.drop_first()) {
                lemma_prefix_lift(b, a);
            }
        }
    }
}

/// Whether two pattern segments have the same shape: the same kind, and for
/// literals the same text.
pub open spec fn seg_shape_eq(a: SegPatView, b: SegPatView) -> bool {
    match (a, b) {
        (SegPatView::Literal(x), SegPatView::Literal(y)) => x == y,
        (SegPatView::Param(_), SegPatView::Param(_)) => true,
        _ => false,
    }
}

/// Whether two patterns accept exactly the same paths: equal up to the
/// names of their parameters and tails.
pub open spec fn same_shape(a: PatternView, b: PatternView) -> bool {
    &&& a.segs.len() == b.segs.len()
    &&& (a.tail is Some <==> b.tail is Some)
    &&& forall|i: int| 0 <= i < a.segs.len() ==> seg_shape_eq(#[trigger] a.segs[i], b.segs[i])
}

/// The pattern one segment shorter, same tail.
pub open spec fn pat_rest(a: PatternView) -> PatternView {
    PatternView { segs: a.segs.drop_first(), tail: a.tail }
}

/// Dropping the first segment drops the first rank.
pub proof fn lemma_ranks_rest(a: PatternView)
    requires
        a.segs.len() > 0,
    ensures
        ranks(a).len() > 0,
        ranks(a)[0] == seg_rank(a.segs[0]),
        ranks(pat_rest(a)) == ranks(a).drop_first(),
{
    assert(ranks(a)[0] == seg_rank(a.segs[0]));
    assert(ranks(pat_rest(a)) =~= ranks(a).drop_first());
}

/// Every rank that comes from a segment is 0 or 1.
pub proof fn lemma_ranks_entries(a: PatternView)
    ensures
        ranks(a).len() == a.segs.len() + (if a.tail is Some { 1int } else { 0 }),
        forall|i: int| 0 <= i < a.segs.len() ==> 0 <= #[trigger] ranks(a)[i] <= 1,
        a.tail is Some ==> ranks(a)[a.segs.len() as int] == 2,
{
    assert forall|i: int| 0 <= i < a.segs.len() implies 0 <= #[trigger] ranks(a)[i] <= 1 by {
        assert(ranks(a)[i] == seg_rank(a.segs[i]));
    }
}

/// Two patterns that match one path with the same rank word have the same
/// shape.
pub proof fn lemma_comatch_same_ranks(a: PatternView, b: PatternView, p: Seq<u8>)
    requires
        pat_matches(a, p),
        pat_matches(b, p),
        ranks(a) == ranks(b),
    ensures
        same_shape(a, b),
    decreases a.segs.len(),
{
    lemma_ranks_entries(a);
    lemma_ranks_entries(b);
    if a.segs.len() == 0 {
        if b.segs.len() > 0 {
            assert(0 <= ranks(b)[0] <= 1);
            if a.tail is Some {
                assert(ranks(a)[0] == 2);
            } else {
                assert(ranks(a).len() == 0);
            }
            assert(false);
        }
        assert(b.segs.len() == 0);
    } else {
        if b.segs.len() == 0 {
            assert(0 <= ranks(a)[0] <= 1);
            if b.tail is Some {
                assert(ranks(b)[0] == 2);
            } else {
                assert(ranks(b).len() == 0);
            }
            assert(false);
        }
        let rest = p.drop_first();
        let n = first_seg_len(rest);
        lemma_ranks_rest(a);
        lemma_ranks_rest(b);
        lemma_comatch_same_ranks(pat_rest(a), pat_rest(b), rest.skip(n));
        assert(seg_rank(a.segs[0]) == seg_rank(b.segs[0]));
        assert(seg_matches(a.segs[0], rest.take(n)));
        assert(seg_matches(b.segs[0], rest.take(n)));
        assert(seg_shape_eq(a.segs[0], b.segs[0]));
        assert forall|i: int| 0 <= i < a.segs.len() implies seg_shape_eq(
            #[trigger] a.segs[i],
            b.segs[i],
        ) by {
            if i > 0 {
                assert(seg_shape_eq(pat_rest(a).segs[i - 1], pat_rest(b).segs[i - 1]));
            }
        }
    }
}

/// If two patterns match one path and one rank word is a prefix of the
/// other, the words are equal.
pub proof fn lemma_comatch_prefix(a: PatternView, b: PatternView, p: Seq<u8>)
    requires
        pat_matches(a, p),
        pat_matches(b, p),
        ranks(a).is_prefix_of(ranks(b)),
    ensures
        ranks(a) == ranks(b),
    decreases a.segs.len(),
{
    lemma_ranks_entries(a);
    lemma_ranks_entries(b);
    if ranks(a).len() == ranks(b).len() {
        assert(ranks(a) =~= ranks(b));
    } else if a.segs.len() == 0 {
        if a.tail is None {
            // `a` matched the whole path, so nothing of `b` can consume more.
            assert(p.len() == 0);
            if b.segs.len() > 0 {
                assert(false);
            } else if b.tail is Some {
                assert(false);
            }
            assert(ranks(b).len() == 0);
            assert(ranks(a) =~= ranks(b));
        } else {
            // The tail rank 2 stands last, so nothing can follow it.
            assert(ranks(a)[0] == 2);
            assert(ranks(b)[0] == 2);
            if b.segs.len() > 0 {
                assert(0 <= ranks(b)[0] <= 1);
                assert(false);
            }
            assert(ranks(b).len() == 1);
            assert(ranks(a) =~= ranks(b));
        }
    } else {
        if b.segs.len() == 0 {
            assert(0 <= ranks(a)[0] <= 1);
            if b.tail is Some {
                assert(ranks(b)[0] == 2);
                assert(ranks(a)[0] == ranks(b)[0]);
            }
            assert(false);
        }
        let rest = p.drop_first();
        let n = first_seg_len(rest);
        lemma_ranks_rest(a);
        lemma_ranks_rest(b);
        assert(ranks(pat_rest(a)).is_prefix_of(ranks(pat_rest(b)))) by {
            assert(ranks(pat_rest(a)) =~= ranks(a).drop_first());
            assert(ranks(pat_rest(b)) =~= ranks(b).drop_first());
            assert(ranks(a) =~= ranks(b).take(ranks(a).len() as int));
            assert(ranks(a).drop_first() =~= ranks(b).drop_first().take(ranks(a).len() - 1));
        }
        lemma_comatch_prefix(pat_rest(a), pat_rest(b), rest.skip(n));
        assert(ranks(a) =~= ranks(b));
    }
}

/// Two patterns of different shapes that match one path are strictly
/// ordered by their rank words.
pub proof fn lemma_comatch_ordered(a: PatternView, b: PatternView, p: Seq<u8>)
    requires
        pat_matches(a, p),
        pat_matches(b, p),
        !same_shape(a, b),
    ensures
        rank_lt(ranks(a), ranks(b)) || rank_lt(ranks(b), ranks(a)),
        !(rank_lt(ranks(a), ranks(b)) && rank_lt(ranks(b), ranks(a))),
{
    if ranks(a) == ranks(b) {
        lemma_comatch_same_ranks(a, b, p);
        assert(false);
    }
    lemma_rank_lt_connected(ranks(a), ranks(b));
    if ranks(a).is_prefix_of(ranks(b)) {
        lemma_comatch_prefix(a, b, p);
        assert(false);
    }
    if ranks(b).is_prefix_of(ranks(a)) {
        lemma_comatch_prefix(b, a, p);
        assert(false);
    }
    if rank_lt(ranks(a), ranks(b)) {
        lemma_rank_lt_asym(ranks(a), ranks(b));
    }
}

/// A word that is smaller at the first differing position is below.
pub proof fn lemma_rank_lt_at(a: Seq<int>, b: Seq<int>, k: int)
    requires
        0 <= k < a.len(),
        k < b.len(),
        a.take(k) == b.take(k),
        a[k] < b[k],
    ensures
        rank_lt(a, b),
    decreases k,
{
    if k == 0 {
    } else {
        assert(a[0] == a.take(k)[0]);
        assert(b[0] == b.take(k)[0]);
        assert(a.drop_first().take(k - 1) =~= a.take(k).drop_first());
        assert(b.drop_first().take(k - 1) =~= b.take(k).drop_first());
        assert(a.drop_first()[k - 1] == a[k]);
        assert(b.drop_first()[k - 1] == b[k]);
        lemma_rank_lt_at(a.drop_first(), b.drop_first(), k - 1);
    }
}

/// A literal segment always wins over a parameter segment at the same
/// position: if two patterns carry the same kinds of segments before
/// position `k`, and there the first holds a literal where the second holds
/// a parameter, the first is the more specific.
pub proof fn lemma_literal_beats_param(a: PatternView, b: PatternView, k: int)
    requires
        0 <= k < a.segs.len(),
        k < b.segs.len(),
        ranks(a).take(k) == ranks(b).take(k),
        a.segs[k] is Literal,
        b.segs[k] is Param,
    ensures
        rank_lt(ranks(a), ranks(b)),
{
    lemma_ranks_entries(a);
    lemma_ranks_entries(b);
    assert(ranks(a)[k] == seg_rank(a.segs[k]));
    assert(ranks(b)[k] == seg_rank(b.segs[k]));
    lemma_rank_lt_at(ranks(a), ranks(b), k);
}

impl Pattern {
    /// The rank at position `i` of this pattern's rank word.
    fn rank_at(&self, i: usize) -> (r: u8)
        requires
            i < ranks(self@).len(),
        ensures
            r as int == ranks(self@)[i as int],
    {
        proof {
            lemma_ranks_entries(self@);
        }
        if i < self.segs.len() {
            match &self.segs[i] {
                SegPat::Literal(_) => 0,
                SegPat::Param(_) => 1,
            }
        } else {
            2
        }
    }

    /// The length of this pattern's rank word.
    fn rank_len(&self) -> (r: usize)
        requires
            self.segs@.len() + 1 <= usize::MAX,
        ensures
            r == ranks(self@).len(),
    {
        proof {
            lemma_ranks_entries(self@);
        }
        if self.tail.is_some() {
            self.segs.len() + 1
        } else {
            self.segs.len()
        }
    }

    /// Whether this pattern is more specific than `other`: its rank word
    /// is strictly below in the lexicographic order.
    #[verifier::loop_isolation(false)]
    pub fn more_specific(&self, other: &Pattern) -> (r: bool)
        requires
            self.segs@.len() + 1 <= usize::MAX,
            other.segs@.len() + 1 <= usize::MAX,
        ensures
            r == rank_lt(ranks(self@), ranks(other@)),
    {
        let la = self.rank_len();
        let lb = other.rank_len();
        let ghost ra = ranks(self@);
        let ghost rb = ranks(other@);
        let mut i: usize = 0;
        proof {
            assert(ra.skip(0int) =~= ra);
            assert(rb.skip(0int) =~= rb);
        }
        while i < la && i < lb
            invariant
                i <= la,
                i <= lb,
                rank_lt(ra, rb) == rank_lt(ra.skip(i as int), rb.skip(i as int)),
            decreases la - i,
        {
            let x = self.rank_at(i);
            let y = other.rank_at(i);
            proof {
                assert(ra.skip(i as int)[0] == ra[i as int]);
                assert(rb.skip(i as int)[0] == rb[i as int]);
            }
            if x < y {
                return true;
            }
            if x > y {
                proof {
                    assert(!rank_lt(ra.skip(i as int), rb.skip(i as int)));
                }
                return false;
            }
            proof {
                assert(ra.skip(i as int).drop_first() =~= ra.skip(i + 1));
                assert(rb.skip(i as int).drop_first() =~= rb.skip(i + 1));
            }
            i += 1;
        }
        proof {
            if i >= la {
                assert(ra.skip(i as int) =~= Seq::<int>::empty());
            }
            if i >= lb {
                assert(rb.skip(i as int).len() == 0);
            }
        }
        i >= la && i < lb
    }
}

/// The raw segment texts of `p` (path text without its leading separator):
/// the runs of non-separator bytes between the separators.
pub open spec fn spec_segments(p: Seq<u8>) -> Seq<Seq<u8>>
    decreases p.len(),
{
    let n = first_seg_len(p);
    if 0 <= n && n < p.len() {
        seq![p.take(n)] + spec_segments(p.skip(n + 1))
    } else {
        seq![p]
    }
}

/// The raw segment texts of a route path `s`, which begins with a
/// separator.
pub open spec fn raw_segments(s: Seq<u8>) -> Seq<Seq<u8>> {
    spec_segments(s.skip(1))
}

/// A path always has at least one raw segment.
pub proof fn lemma_spec_segments_nonempty(p: Seq<u8>)
    ensures
        spec_segments(p).len() >= 1,
{
    lemma_first_seg_len(p);
}

/// The compiled form of one raw segment: a leading `:` names a parameter,
/// anything else is literal text.
pub open spec fn seg_pat_of(t: Seq<u8>) -> SegPatView {
    if t.len() > 0 && t[0] == COLON {
        SegPatView::Param(t.skip(1))
    } else {
        SegPatView::Literal(t)
    }
}

/// The compiled forms of a sequence of raw segments.
pub open spec fn seg_pats_of(raw: Seq<Seq<u8>>) -> Seq<SegPatView> {
    raw.map_values(|t: Seq<u8>| seg_pat_of(t))
}

/// Whether one raw segment is admissible at its position: a `*` tail
/// segment only at the end, parameter names non-empty, and no name equal to
/// the reserved tail name.
pub open spec fn raw_seg_ok(t: Seq<u8>, is_last: bool) -> bool {
    if t.len() > 0 && t[0] == STAR {
        is_last && t.skip(1) != reserved_tail()
    } else if t.len() > 0 && t[0] == COLON {
        t.len() >= 2 && t.skip(1) != reserved_tail()
    } else {
        true
    }
}

/// Whether `s` is an admissible route path: it begins with a separator and
/// each of its raw segments is admissible.
pub open spec fn pattern_ok(s: Seq<u8>) -> bool {
    s.len() > 0 && s[0] == SLASH && {
        let raw = raw_segments(s);
        forall|i: int| 0 <= i < raw.len() ==> raw_seg_ok(#[trigger] raw[i], i == raw.len() - 1)
    }
}

/// The compiled pattern of an admissible route path: a final `*` segment
/// becomes the tail (an unnamed `*` receives the reserved tail name), every
/// other segment a literal or a parameter.
pub open spec fn pattern_of(s: Seq<u8>) -> PatternView {
    let raw = raw_segments(s);
    let last = raw.last();
    if last.len() > 0 && last[0] == STAR {
        PatternView {
            segs: seg_pats_of(raw.drop_last()),
            tail: Some(
                if last.len() == 1 {
                    reserved_tail()
                } else {
                    last.skip(1)
                },
            ),
        }
    } else {
        PatternView { segs: seg_pats_of(raw), tail: None }
    }
}

/// The compiled pattern of a nested mount at prefix `s`: the prefix's
/// segments (a trailing separator contributes nothing), closed by the
/// reserved tail that captures the unmatched remainder.
pub open spec fn nest_pattern_of(s: Seq<u8>) -> PatternView {
    let pv = pattern_of(s);
    let segs = if s.len() > 0 && s.last() == SLASH {
        pv.segs.drop_last()
    } else {
        pv.segs
    };
    PatternView { segs, tail: Some(reserved_tail()) }
}

/// Compiles an admissible route path.
#[verifier::loop_isolation(false)]
pub fn compile(path: &Vec<u8>) -> (r: Pattern)
    requires
        pattern_ok(path@),
    ensures
        r@ == pattern_of(path@),
{
    let ghost s = path@;
    let ghost raw = raw_segments(s);
    let plen = path.len();
    proof {
        assert(s.len() == plen);
    }
    let mut segs: Vec<SegPat> = Vec::new();
    let mut pos: usize = 0;
    let ghost mut cnt: int = 0;
    proof {
        assert(raw.skip(0int) =~~= raw);
        assert(segs.deep_view() =~~= seg_pats_of(raw.take(0int)));
        lemma_spec_segments_nonempty(s.skip(1));
    }
    loop
        invariant
            pos < s.len(),
            s[pos as int] == SLASH,
            0 <= cnt < raw.len(),
            spec_segments(s.skip(pos + 1)) == raw.skip(cnt),
            segs.deep_view() == seg_pats_of(raw.take(cnt)),
        decreases s.len() - pos,
    {
        let mut end: usize = pos + 1;
        while end < path.len() && path[end] != SLASH
            invariant
                pos + 1 <= end <= s.len(),
                forall|i: int| pos + 1 <= i < end ==> s[i] != SLASH,
            decreases s.len() - end,
        {
            end += 1;
        }
        let ghost q = s.skip(pos + 1);
        let ghost n = end - pos - 1;
        proof {
            assert(q.len() == s.len() - pos - 1);
            lemma_first_seg_len_is(q, n);
            lemma_spec_segments_nonempty(q);
            if n < q.len() {
                assert(raw.skip(cnt) == seq![q.take(n)] + spec_segments(q.skip(n + 1)));
                lemma_spec_segments_nonempty(q.skip(n + 1));
                assert(raw.skip(cnt).len() >= 2);
            } else {
                assert(raw.skip(cnt) == seq![q]);
            }
            assert(raw[cnt] == raw.skip(cnt)[0]);
            assert(raw[cnt] =~= s.subrange(pos + 1, end as int));
            assert((end == s.len()) == (cnt == raw.len() - 1));
        }
        let seg = sub_bytes(path, pos + 1, end);
        proof {
            assert(seg@ == raw[cnt]);
            assert(raw_seg_ok(raw[cnt], cnt == raw.len() - 1));
        }
        if seg.len() > 0 && seg[0] == STAR {
            // Admissibility puts a tail segment only at the end.
            proof {
                assert(cnt == raw.len() - 1);
                assert(end == s.len());
            }
            let name = if seg.len() == 1 {
                reserved_tail_name()
            } else {
                sub_bytes(&seg, 1, seg.len())
            };
            proof {
                assert(raw.last() == raw[cnt]);
                if seg@.len() > 1 {
                    assert(name@ =~= raw.last().skip(1));
                }
                assert(raw.take(cnt) =~~= raw.drop_last());
            }
            let r = Pattern { segs, tail: Some(name) };
            proof {
                assert(r@ =~~= pattern_of(s));
            }
            return r;
        }
        let ghost prior = segs.deep_view();
        let ghost newseg = seg_pat_of(raw[cnt]);
        if seg.len() > 0 && seg[0] == COLON {
            proof {
                assert(seg@.len() >= 2);
            }
            let name = sub_bytes(&seg, 1, seg.len());
            proof {
                assert(name@ =~= raw[cnt].skip(1));
                assert(newseg == SegPatView::Param(name@));
            }
            segs.push(SegPat::Param(name));
        } else {
            proof {
                assert(newseg == SegPatView::Literal(seg@));
            }
            segs.push(SegPat::Literal(seg));
        }
        proof {
            assert(segs.deep_view() =~~= prior.push(newseg));
            assert(raw.take(cnt + 1) =~~= raw.take(cnt).push(raw[cnt]));
            assert forall|i: int| 0 <= i < cnt + 1 implies #[trigger] seg_pats_of(
                raw.take(cnt + 1),
            )[i] == prior.push(newseg)[i] by {
                assert(seg_pats_of(raw.take(cnt + 1))[i] == seg_pat_of(raw.take(cnt + 1)[i]));
                if i < cnt {
                    assert(raw.take(cnt + 1)[i] == raw.take(cnt)[i]);
                    assert(prior[i] == seg_pats_of(raw.take(cnt))[i]);
                }
            }
            assert(segs.deep_view() =~~= seg_pats_of(raw.take(cnt + 1)));
        }
        if end == path.len() {
            proof {
                assert(cnt == raw.len() - 1);
                assert(raw.take(cnt + 1) =~~= raw);
                let last = raw.last();
                assert(!(last.len() > 0 && last[0] == STAR));
            }
            let r = Pattern { segs, tail: None };
            proof {
                assert(r@ =~~= pattern_of(s));
            }
            return r;
        }
        proof {
            assert(q.skip(n + 1) =~= s.skip(end + 1));
            assert(raw.skip(cnt + 1) =~~= raw.skip(cnt).drop_first());
            cnt = cnt + 1;
        }
        pos = end;
    }
}

/// A text of `n` bytes splits into at most `n + 1` raw segments.
pub proof fn lemma_spec_segments_len(p: Seq<u8>)
    ensures
        1 <= spec_segments(p).len() <= p.len() + 1,
    decreases p.len(),
{
    lemma_first_seg_len(p);
    let n = first_seg_len(p);
    if 0 <= n && n < p.len() {
        lemma_spec_segments_len(p.skip(n + 1));
    }
}

/// A compiled admissible pattern is well-formed: its parameters do not use
/// the reserved tail name, and its size is bounded by the path's.
pub proof fn lemma_pattern_of_wf(s: Seq<u8>)
    requires
        pattern_ok(s),
    ensures
        pattern_of(s).segs.len() <= s.len(),
        pattern_of(s).tail is Some ==> pattern_of(s).segs.len() < s.len(),
        forall|i: int|
            0 <= i < pattern_of(s).segs.len() ==> ((#[trigger] pattern_of(s).segs[i])
                matches SegPatView::Param(n) ==> n != reserved_tail()),
{
    let raw = raw_segments(s);
    lemma_spec_segments_len(s.skip(1));
    assert(raw.len() <= s.len());
    let pv = pattern_of(s);
    assert forall|i: int|
        0 <= i < pv.segs.len() implies ((#[trigger] pv.segs[i]) matches SegPatView::Param(n)
        ==> n != reserved_tail()) by {
        let last = raw.last();
        if last.len() > 0 && last[0] == STAR {
            assert(pv.segs[i] == seg_pat_of(raw.drop_last()[i]));
            assert(raw.drop_last()[i] == raw[i]);
        } else {
            assert(pv.segs[i] == seg_pat_of(raw[i]));
        }
        assert(raw_seg_ok(raw[i], i == raw.len() - 1));
        match seg_pat_of(raw[i]) {
            SegPatView::Param(nm) => {
                assert(raw[i].len() > 0 && raw[i][0] == COLON);
                assert(nm == raw[i].skip(1));
            },
            SegPatView::Literal(_) => {},
        }
    }
}

/// A compiled nested-mount pattern is well-formed in the same way, and its
/// tail carries the reserved name.
pub proof fn lemma_nest_pattern_of_wf(s: Seq<u8>)
    requires
        pattern_ok(s),
        pattern_of(s).tail is None,
    ensures
        nest_pattern_of(s).segs.len() < s.len() + 1,
        nest_pattern_of(s).tail == Some(reserved_tail()),
        forall|i: int|
            0 <= i < nest_pattern_of(s).segs.len() ==> ((#[trigger] nest_pattern_of(s).segs[i])
                matches SegPatView::Param(n) ==> n != reserved_tail()),
{
    lemma_pattern_of_wf(s);
    let pv = pattern_of(s);
    let nv = nest_pattern_of(s);
    assert forall|i: int|
        0 <= i < nv.segs.len() implies ((#[trigger] nv.segs[i]) matches SegPatView::Param(n)
        ==> n != reserved_tail()) by {
        if s.len() > 0 && s.last() == SLASH {
            assert(nv.segs[i] == pv.segs.drop_last()[i]);
            assert(pv.segs.drop_last()[i] == pv.segs[i]);
        } else {
            assert(nv.segs[i] == pv.segs[i]);
        }
    }
}

/// Below an all-zero word stand only its proper prefixes, which are
/// all-zero themselves.
proof fn lemma_rank_lt_all_zero(a: Seq<int>, b: Seq<int>)
    requires
        rank_lt(a, b),
        forall|k: int| 0 <= k < b.len() ==> #[trigger] b[k] == 0,
        forall|k: int| 0 <= k < a.len() ==> #[trigger] a[k] >= 0,
    ensures
        a.len() < b.len(),
        a == b.take(a.len() as int),
    decreases a.len(),
{
    if a.len() == 0 {
        assert(a =~= b.take(0int));
    } else {
        assert(a[0] >= 0 && b[0] == 0);
        assert(a[0] == 0);
        assert forall|k: int| 0 <= k < b.drop_first().len() implies #[trigger] b.drop_first()[k]
            == 0 by {
            assert(b.drop_first()[k] == b[k + 1]);
        }
        assert forall|k: int| 0 <= k < a.drop_first().len() implies #[trigger] a.drop_first()[k]
            >= 0 by {
            assert(a.drop_first()[k] == a[k + 1]);
        }
        lemma_rank_lt_all_zero(a.drop_first(), b.drop_first());
        assert forall|k: int| 0 <= k < a.len() implies a[k] == b.take(a.len() as int)[k] by {
            if k > 0 {
                assert(a.drop_first()[k - 1] == b.drop_first().take(a.len() - 1)[k - 1]);
                assert(b.drop_first().take(a.len() - 1)[k - 1] == b[k]);
            }
        }
        assert(a =~= b.take(a.len() as int));
    }
}

/// A pattern of literal segments alone is the most specific of all
/// patterns that match a path with it: no other matching pattern's rank
/// word stands below its all-zero word.
pub proof fn lemma_all_literal_most_specific(a: PatternView, b: PatternView, p: Seq<u8>)
    requires
        pat_matches(a, p),
        pat_matches(b, p),
        !same_shape(a, b),
        a.tail is None,
        forall|k: int| 0 <= k < a.segs.len() ==> (#[trigger] a.segs[k]) is Literal,
    ensures
        rank_lt(ranks(a), ranks(b)),
{
    lemma_ranks_entries(a);
    lemma_ranks_entries(b);
    lemma_comatch_ordered(a, b, p);
    if rank_lt(ranks(b), ranks(a)) {
        assert forall|k: int| 0 <= k < ranks(a).len() implies #[trigger] ranks(a)[k] == 0 by {
            assert(ranks(a)[k] == seg_rank(a.segs[k]));
        }
        assert forall|k: int| 0 <= k < ranks(b).len() implies #[trigger] ranks(b)[k] >= 0 by {
            if k < b.segs.len() {
                assert(ranks(b)[k] == seg_rank(b.segs[k]));
            }
        }
        lemma_rank_lt_all_zero(ranks(b), ranks(a));
        assert(ranks(b).is_prefix_of(ranks(a)));
        lemma_comatch_prefix(b, a, p);
        lemma_rank_lt_asym(ranks(b), ranks(a));
    }
}

/// Decides admissibility of a route path, so that an unverified caller can
/// test the condition the route builders demand and fail fast.
#[verifier::loop_isolation(false)]
pub fn is_pattern_ok(path: &Vec<u8>) -> (r: bool)
    ensures
        r == pattern_ok(path@),
{
    let ghost s = path@;
    let ghost raw = raw_segments(s);
    let plen = path.len();
    proof {
        assert(s.len() == plen);
    }
    if path.len() == 0 || path[0] != SLASH {
        return false;
    }
    let reserved = reserved_tail_name();
    let mut pos: usize = 0;
    let ghost mut cnt: int = 0;
    proof {
        assert(raw.skip(0int) =~~= raw);
        lemma_spec_segments_nonempty(s.skip(1));
    }
    loop
        invariant
            pos < s.len(),
            s[pos as int] == SLASH,
            0 <= cnt < raw.len(),
            spec_segments(s.skip(pos + 1)) == raw.skip(cnt),
            forall|j: int| 0 <= j < cnt ==> raw_seg_ok(#[trigger] raw[j], j == raw.len() - 1),
        decreases s.len() - pos,
    {
        let mut end: usize = pos + 1;
        while end < path.len() && path[end] != SLASH
            invariant
                pos + 1 <= end <= s.len(),
                forall|i: int| pos + 1 <= i < end ==> s[i] != SLASH,
            decreases s.len() - end,
        {
            end += 1;
        }
        let ghost q = s.skip(pos + 1);
        let ghost n = end - pos - 1;
        proof {
            assert(q.len() == s.len() - pos - 1);
            lemma_first_seg_len_is(q, n);
            lemma_spec_segments_nonempty(q);
            if n < q.len() {
                assert(raw.skip(cnt) == seq![q.take(n)] + spec_segments(q.skip(n + 1)));
                lemma_spec_segments_nonempty(q.skip(n + 1));
                assert(raw.skip(cnt).len() >= 2);
            } else {
                assert(raw.skip(cnt) == seq![q]);
            }
            assert(raw[cnt] == raw.skip(cnt)[0]);
            assert(raw[cnt] =~= s.subrange(pos + 1, end as int));
            assert((end == s.len()) == (cnt == raw.len() - 1));
        }
        let seg = sub_bytes(path, pos + 1, end);
        proof {
            assert(seg@ == raw[cnt]);
        }
        let is_last = end == path.len();
        if seg.len() > 0 && seg[0] == STAR {
            let name = sub_bytes(&seg, 1, seg.len());
            proof {
                assert(name@ =~= raw[cnt].skip(1));
            }
            if !is_last || crate::http::bytes_eq(&name, &reserved) {
                proof {
                    assert(!raw_seg_ok(raw[cnt], cnt == raw.len() - 1));
                }
                return false;
            }
        } else if seg.len() > 0 && seg[0] == COLON {
            if seg.len() < 2 {
                proof {
                    assert(!raw_seg_ok(raw[cnt], cnt == raw.len() - 1));
                }
                return false;
            }
            let name = sub_bytes(&seg, 1, seg.len());
            proof {
                assert(name@ =~= raw[cnt].skip(1));
            }
            if crate::http::bytes_eq(&name, &reserved) {
                proof {
                    assert(!raw_seg_ok(raw[cnt], cnt == raw.len() - 1));
                }
                return false;
            }
        }
        proof {
            assert(raw_seg_ok(raw[cnt], cnt == raw.len() - 1));
        }
        if is_last {
            proof {
                assert(cnt == raw.len() - 1);
            }
            return true;
        }
        proof {
            assert(q.skip(n + 1) =~= s.skip(end + 1));
            assert(raw.skip(cnt + 1) =~~= raw.skip(cnt).drop_first());
            cnt = cnt + 1;
        }
        pos = end;
    }
}

/// Compiles a nested mount's prefix: the prefix's segments (a trailing
/// separator contributes nothing), closed by the reserved tail.
#[verifier::loop_isolation(false)]
pub fn compile_nest(path: &Vec<u8>) -> (r: Pattern)
    requires
        pattern_ok(path@),
        pattern_of(path@).tail is None,
    ensures
        r@ == nest_pattern_of(path@),
{
    proof {
        lemma_pattern_of_wf(path@);
        lemma_nest_pattern_of_wf(path@);
    }
    let mut pattern = compile(path);
    // A prefix ending in a separator compiled to a final empty literal
    // segment; the reserved tail takes its place.
    if path.len() > 0 && path[path.len() - 1] == SLASH {
        proof {
            let raw = raw_segments(path@);
            lemma_spec_segments_nonempty(path@.skip(1));
            assert(pattern@.segs.len() > 0) by {
                let last = raw.last();
                assert(!(last.len() > 0 && last[0] == STAR)) by {
                    assert(pattern_of(path@).tail is None);
                }
                assert(pattern@.segs.len() == raw.len());
            }
        }
        pattern.segs.pop();
    }
    pattern.tail = Some(reserved_tail_name());
    proof {
        assert(pattern@.segs =~~= nest_pattern_of(path@).segs);
        assert(pattern@ =~~= nest_pattern_of(path@));
    }
    pattern
}

impl Pattern {
    /// Whether this pattern closes with a tail capture.
    pub fn has_tail(&self) -> (r: bool)
        ensures
            r == (self@.tail is Some),
    {
        self.tail.is_some()
    }

    /// Decides whether this pattern and `other` accept exactly the same
    /// paths — equal up to parameter and tail names — so that an
    /// unverified caller can test for route conflicts and fail fast.
    #[verifier::loop_isolation(false)]
    pub fn conflicts_with(&self, other: &Pattern) -> (r: bool)
        ensures
            r == same_shape(self@, other@),
    {
        if self.segs.len() != other.segs.len() {
            return false;
        }
        if self.tail.is_some() != other.tail.is_some() {
            return false;
        }
        let mut i: usize = 0;
        while i < self.segs.len()
            invariant
                i <= self.segs.len(),
                self@.segs.len() == other@.segs.len(),
                forall|k: int| 0 <= k < i ==> seg_shape_eq(#[trigger] self@.segs[k], other@.segs[k]),
            decreases self.segs.len() - i,
        {
            match (&self.segs[i], &other.segs[i]) {
                (SegPat::Literal(a), SegPat::Literal(b)) => {
                    if !crate::http::bytes_eq(a, b) {
                        proof {
                            assert(!seg_shape_eq(self@.segs[i as int], other@.segs[i as int]));
                        }
                        return false;
                    }
                },
                (SegPat::Param(_), SegPat::Param(_)) => {},
                _ => {
                    proof {
                        assert(!seg_shape_eq(self@.segs[i as int], other@.segs[i as int]));
                    }
                    return false;
                },
            }
            proof {
                assert(seg_shape_eq(self@.segs[i as int], other@.segs[i as int]));
            }
            i += 1;
        }
        true
    }
}

} // verus!
