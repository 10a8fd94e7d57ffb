//! The compiled router: a flat list of endpoints and the recognition
//! algorithm that maps a request path and method to exactly one of them.
//!
//! Recognition walks the segment tree that the templates span, one path
//! segment per level, without backtracking.  At every level a literal
//! child equal to the segment wins over the parameter children, and those
//! win over a wildcard.

pub mod route;

use vstd::prelude::*;

use crate::method::{Method, Methods};
use crate::scope::ScopeId;
use crate::uri::{param_seg, raw_segments, split_slash, wild_seg, Uri};

verus! {

/// One compiled segment of a route template.
#[derive(Debug, Clone)]
pub enum Segment {
    /// Matches exactly this text.
    Literal(String),
    /// Matches any single non-empty segment and records it.
    Param(String),
    /// Matches all remaining segments and records them as one string.
    Wildcard(String),
}

impl Segment {
    /// The text of the segment inside a template.
    pub open spec fn seg_view(&self) -> Seq<char> {
        match self {
            Segment::Literal(s) => s@,
            Segment::Param(n) => seq![':'] + n@,
            Segment::Wildcard(n) => seq!['*'] + n@,
        }
    }
}

/// The texts of a compiled template.
pub open spec fn seg_views(v: Seq<Segment>) -> Seq<Seq<char>> {
    Seq::new(v.len(), |i: int| v[i].seg_view())
}

/// An endpoint as the compiled router stores it: its template, both as
/// parsed URI and in compiled form, the methods it accepts, and the
/// handler and owning scope it was registered with.
#[derive(Debug)]
pub struct Endpoint<H> {
    pub uri: Uri,
    pub segments: Vec<Segment>,
    pub methods: Methods,
    pub scope: ScopeId,
    pub handler: H,
}

/// A compiled, immutable routing table.
#[derive(Debug)]
pub struct Router<H> {
    pub endpoints: Vec<Endpoint<H>>,
    pub fallback_head: bool,
    pub fallback_options: bool,
}

/// How a recognition attempt can fail.
#[derive(Debug, Clone, Copy, PartialEq, Eq, Structural)]
pub enum RecognizeError {
    /// No template matches the path.
    NotFound,
    /// A template matches the path, but under other methods.
    MethodNotAllowed,
}

/// A successful recognition: a concrete endpoint with the text each of
/// its captures matched, or the synthetic answer to an `OPTIONS` request
/// carrying the methods to list in `Allow`.
#[derive(Debug)]
pub enum Recognize {
    Matched(usize, Vec<String>),
    Options(Methods),
}

/// Candidate `i` carries at level `k` a literal equal to the path
/// segment `p`.
pub open spec fn lit_cand(tpls: Seq<Seq<Segment>>, p: Seq<char>, k: int, i: usize) -> bool {
    &&& (i as int) < tpls.len()
    &&& k < tpls[i as int].len()
    &&& tpls[i as int][k] matches Segment::Literal(l) && l@ == p
}

/// Candidate `i` carries at level `k` a parameter, and the path segment
/// is non-empty.
pub open spec fn param_cand(tpls: Seq<Seq<Segment>>, p: Seq<char>, k: int, i: usize) -> bool {
    &&& (i as int) < tpls.len()
    &&& k < tpls[i as int].len()
    &&& tpls[i as int][k] is Param
    &&& p.len() > 0
}

/// Candidate `i` carries at level `k` a wildcard.
pub open spec fn wild_cand(tpls: Seq<Seq<Segment>>, k: int, i: usize) -> bool {
    &&& (i as int) < tpls.len()
    &&& k < tpls[i as int].len()
    &&& tpls[i as int][k] is Wildcard
}

/// Candidate `i` accepts the path ending at level `k`: its template is
/// exhausted too, or continues with a wildcard, which may match nothing.
pub open spec fn ended_cand(tpls: Seq<Seq<Segment>>, k: int, i: usize) -> bool {
    &&& (i as int) < tpls.len()
    &&& (tpls[i as int].len() == k || (k < tpls[i as int].len() && tpls[i as int][k]
        is Wildcard))
}

/// The walk of the segment tree: starting from the candidate set at
/// level `k`, it descends one path segment per level, keeping at each
/// level the literal children when one matches, else the parameter
/// children, else handing the path tail to the wildcard children.
pub open spec fn walk(
    tpls: Seq<Seq<Segment>>,
    cands: Seq<usize>,
    path: Seq<Seq<char>>,
    k: int,
) -> Seq<usize>
    decreases path.len() - k,
{
    if k < 0 || k >= path.len() {
        cands.filter(|i: usize| ended_cand(tpls, k, i))
    } else {
        let lits = cands.filter(|i: usize| lit_cand(tpls, path[k], k, i));
        if lits.len() > 0 {
            walk(tpls, lits, path, k + 1)
        } else {
            let pars = cands.filter(|i: usize| param_cand(tpls, path[k], k, i));
            if pars.len() > 0 {
                walk(tpls, pars, path, k + 1)
            } else {
                cands.filter(|i: usize| wild_cand(tpls, k, i))
            }
        }
    }
}

/// Whether the methods of one endpoint admit a request method: an empty
/// list stands for every method.
pub open spec fn methods_allow(ms: Seq<Method>, m: Method) -> bool {
    ms.len() == 0 || ms.contains(m)
}

/// The first candidate, in registration order, whose method list admits
/// the request method.
pub open spec fn first_with_method(
    ms: Seq<Seq<Method>>,
    node: Seq<usize>,
    m: Method,
) -> Option<usize>
    decreases node.len(),
{
    if node.len() == 0 {
        None
    } else if (node[0] as int) < ms.len() && methods_allow(ms[node[0] as int], m) {
        Some(node[0])
    } else {
        first_with_method(ms, node.drop_first(), m)
    }
}

/// All the methods registered at the candidates, in registration order.
pub open spec fn concat_node_methods(ms: Seq<Seq<Method>>, node: Seq<usize>) -> Seq<Method>
    decreases node.len(),
{
    if node.len() == 0 {
        Seq::<Method>::empty()
    } else {
        concat_node_methods(ms, node.drop_last()) + (if (node.last() as int) < ms.len() {
            ms[node.last() as int]
        } else {
            Seq::<Method>::empty()
        })
    }
}

/// The `Allow` list of a node: its methods in registration order without
/// repetition, with `OPTIONS` appended when not registered itself.
pub open spec fn allow_of(ms: Seq<Seq<Method>>, node: Seq<usize>) -> Seq<Method> {
    crate::method::dedup_methods(concat_node_methods(ms, node).push(Method::Options))
}

/// The remaining path segments as one string, separated by slashes.
pub open spec fn join_segs(segs: Seq<Seq<char>>) -> Seq<char>
    decreases segs.len(),
{
    if segs.len() == 0 {
        Seq::<char>::empty()
    } else if segs.len() == 1 {
        segs[0]
    } else {
        segs[0] + seq!['/'] + join_segs(segs.drop_first())
    }
}

/// The text of each capture of a matching template, in position order: a
/// parameter records its segment, the wildcard records the whole
/// remaining path.
pub open spec fn spec_captures(tpl: Seq<Segment>, path: Seq<Seq<char>>, k: int) -> Seq<
    Seq<char>,
>
    decreases path.len() - k,
{
    if k < 0 || k >= path.len() {
        if 0 <= k < tpl.len() && tpl[k] is Wildcard {
            seq![Seq::<char>::empty()]
        } else {
            Seq::<Seq<char>>::empty()
        }
    } else if k >= tpl.len() {
        Seq::<Seq<char>>::empty()
    } else {
        match tpl[k] {
            Segment::Literal(_) => spec_captures(tpl, path, k + 1),
            Segment::Param(_) => seq![path[k]] + spec_captures(tpl, path, k + 1),
            Segment::Wildcard(_) => seq![join_segs(path.subrange(k, path.len() as int))],
        }
    }
}

/// A template matches a path from level `k` on: literals match their
/// segment exactly, a parameter any non-empty segment, a wildcard
/// everything that remains, and template and path run out together.
pub open spec fn tpl_matches(tpl: Seq<Segment>, path: Seq<Seq<char>>, k: int) -> bool
    decreases path.len() - k,
{
    if k < 0 || k >= path.len() {
        tpl.len() == k || (k < tpl.len() && tpl[k] is Wildcard)
    } else if k >= tpl.len() {
        false
    } else {
        match tpl[k] {
            Segment::Literal(l) => l@ == path[k] && tpl_matches(tpl, path, k + 1),
            Segment::Param(_) => path[k].len() > 0 && tpl_matches(tpl, path, k + 1),
            Segment::Wildcard(_) => true,
        }
    }
}

/// Law: the walk is sound.  Every endpoint it can still select from
/// level `k` was a candidate whose template matches the rest of the
/// path; in particular every endpoint the recognizer returns matches
/// the whole request path.
pub proof fn lemma_walk_sound(
    tpls: Seq<Seq<Segment>>,
    cands: Seq<usize>,
    path: Seq<Seq<char>>,
    k: int,
    x: usize,
)
    requires
        0 <= k,
        walk(tpls, cands, path, k).contains(x),
    ensures
        cands.contains(x),
        (x as int) < tpls.len(),
        tpl_matches(tpls[x as int], path, k),
    decreases path.len() - k,
{
    if k >= path.len() {
        lemma_filter_subset(cands, |i: usize| ended_cand(tpls, k, i), x);
    } else {
        let lits = cands.filter(|i: usize| lit_cand(tpls, path[k], k, i));
        if lits.len() > 0 {
            lemma_walk_sound(tpls, lits, path, k + 1, x);
            lemma_filter_subset(cands, |i: usize| lit_cand(tpls, path[k], k, i), x);
        } else {
            let pars = cands.filter(|i: usize| param_cand(tpls, path[k], k, i));
            if pars.len() > 0 {
                lemma_walk_sound(tpls, pars, path, k + 1, x);
                lemma_filter_subset(cands, |i: usize| param_cand(tpls, path[k], k, i), x);
            } else {
                lemma_filter_subset(cands, |i: usize| wild_cand(tpls, k, i), x);
            }
        }
    }
}

/// Members of a filtered sequence are members that satisfy the
/// predicate.
pub proof fn lemma_filter_subset<A>(s: Seq<A>, pred: spec_fn(A) -> bool, x: A)
    requires
        s.filter(pred).contains(x),
    ensures
        s.contains(x),
        pred(x),
    decreases s.len(),
{
    reveal(Seq::filter);
    if s.len() > 0 {
        if s.filter(pred).last() == x && pred(s.last()) && s.last() == x {
            assert(s.contains(x)) by {
                assert(s[s.len() - 1] == x);
            }
        } else {
            if s.drop_last().filter(pred).contains(x) {
                lemma_filter_subset(s.drop_last(), pred, x);
                let j = choose|j: int|
                    0 <= j < s.drop_last().len() && s.drop_last()[j] == x;
                assert(s[j] == x);
            } else {
                assert(pred(s.last()) && s.filter(pred) == s.drop_last().filter(pred).push(
                    s.last(),
                ) && s.filter(pred).last() == s.last() && s.last() == x) by {
                    if pred(s.last()) {
                        assert(s.filter(pred).last() == s.last());
                        if s.filter(pred).last() != x {
                            let j = choose|j: int|
                                0 <= j < s.filter(pred).len() && s.filter(pred)[j] == x;
                            assert(s.drop_last().filter(pred)[j] == x);
                        }
                    }
                }
                assert(s.contains(x)) by {
                    assert(s[s.len() - 1] == x);
                }
            }
        }
    }
}

/// Every endpoint that survives the walk was a candidate when the walk
/// began.
pub proof fn lemma_walk_subset(
    tpls: Seq<Seq<Segment>>,
    cands: Seq<usize>,
    path: Seq<Seq<char>>,
    k: int,
    x: usize,
)
    requires
        walk(tpls, cands, path, k).contains(x),
    ensures
        cands.contains(x),
    decreases path.len() - k,
{
    if k < 0 || k >= path.len() {
        lemma_filter_subset(cands, |i: usize| ended_cand(tpls, k, i), x);
    } else {
        let lits = cands.filter(|i: usize| lit_cand(tpls, path[k], k, i));
        if lits.len() > 0 {
            lemma_walk_subset(tpls, lits, path, k + 1, x);
            lemma_filter_subset(cands, |i: usize| lit_cand(tpls, path[k], k, i), x);
        } else {
            let pars = cands.filter(|i: usize| param_cand(tpls, path[k], k, i));
            if pars.len() > 0 {
                lemma_walk_subset(tpls, pars, path, k + 1, x);
                lemma_filter_subset(cands, |i: usize| param_cand(tpls, path[k], k, i), x);
            } else {
                lemma_filter_subset(cands, |i: usize| wild_cand(tpls, k, i), x);
            }
        }
    }
}

/// The first `n` endpoint indices in order.
pub open spec fn index_seq(n: nat) -> Seq<usize> {
    Seq::new(n, |i: int| i as usize)
}

/// The snapshot of the recognizer's decision, with ghost-level data.
pub enum SpecOutcome {
    Matched(usize, Seq<Seq<char>>),
    Options(Seq<Method>),
    MethodNotAllowed,
    NotFound,
}

/// The decision as the executable recognizer reports it.
pub open spec fn outcome_of(r: Result<Recognize, RecognizeError>) -> SpecOutcome {
    match r {
        Ok(Recognize::Matched(i, vals)) => SpecOutcome::Matched(i, vals.deep_view()),
        Ok(Recognize::Options(ms)) => SpecOutcome::Options(ms.0@),
        Err(RecognizeError::NotFound) => SpecOutcome::NotFound,
        Err(RecognizeError::MethodNotAllowed) => SpecOutcome::MethodNotAllowed,
    }
}

/// A compiled segment list agrees with the template text it was built
/// from, both in text and in the class of every segment.
pub open spec fn compiled_ok(segs: Seq<Segment>, u: Uri) -> bool {
    &&& seg_views(segs) == raw_segments(u.str_view())
    &&& forall|k: int|
        0 <= k < segs.len() ==> (((#[trigger] segs[k]) is Param <==> param_seg(
            raw_segments(u.str_view())[k],
        )) && (segs[k] is Wildcard <==> wild_seg(raw_segments(u.str_view())[k])))
}

impl<H> Router<H> {
    /// The compiled templates, one per endpoint.
    pub open spec fn tpls(&self) -> Seq<Seq<Segment>> {
        Seq::new(self.endpoints@.len(), |i: int| self.endpoints@[i].segments@)
    }

    /// The method lists, one per endpoint.
    pub open spec fn methods_view(&self) -> Seq<Seq<Method>> {
        Seq::new(self.endpoints@.len(), |i: int| self.endpoints@[i].methods.0@)
    }

    /// The endpoints that take part in the segment-tree walk.
    pub open spec fn tree_cands(&self) -> Seq<usize> {
        index_seq(self.endpoints@.len()).filter(
            |i: usize| !self.endpoints@[i as int].uri.spec_is_asterisk(),
        )
    }

    /// The endpoints registered under the asterisk template.
    pub open spec fn asterisk_cands(&self) -> Seq<usize> {
        index_seq(self.endpoints@.len()).filter(
            |i: usize| self.endpoints@[i as int].uri.spec_is_asterisk(),
        )
    }

    /// Every endpoint's compiled segments agree with its template, and
    /// every method list is duplicate-free.
    pub open spec fn wf(&self) -> bool {
        forall|i: int|
            0 <= i < self.endpoints@.len() ==> {
                &&& (#[trigger] self.endpoints@[i]).uri.wf()
                &&& (!self.endpoints@[i].uri.spec_is_asterisk() ==> compiled_ok(
                    self.endpoints@[i].segments@,
                    self.endpoints@[i].uri,
                ))
                &&& self.endpoints@[i].methods.wf()
            }
    }

    /// The decision the recognizer makes for a path and method.
    pub open spec fn spec_recognize(&self, path: Seq<char>, m: Method) -> SpecOutcome {
        if path == crate::uri::spec_asterisk_str() {
            let node = self.asterisk_cands();
            if node.len() > 0 {
                match first_with_method(self.methods_view(), node, m) {
                    Option::Some(i) => SpecOutcome::Matched(i, Seq::<Seq<char>>::empty()),
                    Option::None => SpecOutcome::MethodNotAllowed,
                }
            } else if self.fallback_options && m == Method::Options {
                SpecOutcome::Options(
                    allow_of(self.methods_view(), index_seq(self.endpoints@.len())),
                )
            } else {
                SpecOutcome::NotFound
            }
        } else if path.len() > 0 && path[0] == '/' {
            let segs = split_slash(path.drop_first());
            let node = walk(self.tpls(), self.tree_cands(), segs, 0);
            if node.len() == 0 {
                SpecOutcome::NotFound
            } else {
                match first_with_method(self.methods_view(), node, m) {
                    Option::Some(i) => SpecOutcome::Matched(
                        i,
                        spec_captures(self.tpls()[i as int], segs, 0),
                    ),
                    Option::None => {
                        if self.fallback_head && m == Method::Head && first_with_method(
                            self.methods_view(),
                            node,
                            Method::Get,
                        ) is Some {
                            let i = first_with_method(
                                self.methods_view(),
                                node,
                                Method::Get,
                            )->Some_0;
                            SpecOutcome::Matched(
                                i,
                                spec_captures(self.tpls()[i as int], segs, 0),
                            )
                        } else if self.fallback_options && m == Method::Options {
                            SpecOutcome::Options(allow_of(self.methods_view(), node))
                        } else {
                            SpecOutcome::MethodNotAllowed
                        }
                    },
                }
            }
        } else {
            SpecOutcome::NotFound
        }
    }
}

impl<H> Router<H> {
    fn filter_lits(&self, cands: &Vec<usize>, seg: &String, k: usize) -> (r: Vec<usize>)
        ensures
            r@ == cands@.filter(|i: usize| lit_cand(self.tpls(), seg@, k as int, i)),
    {
        let ghost pred = |i: usize| lit_cand(self.tpls(), seg@, k as int, i);
        let mut r: Vec<usize> = Vec::new();
        let mut j: usize = 0;
        proof {
            reveal(Seq::filter);
            assert(cands@.subrange(0, 0) =~= Seq::<usize>::empty());
        }
        while j < cands.len()
            invariant
                j <= cands@.len(),
                pred == (|i: usize| lit_cand(self.tpls(), seg@, k as int, i)),
                r@ == cands@.subrange(0, j as int).filter(pred),
            decreases cands@.len() - j,
        {
            let idx = cands[j];
            let keep: bool = if idx < self.endpoints.len() {
                let e = &self.endpoints[idx];
                if k < e.segments.len() {
                    match &e.segments[k] {
                        Segment::Literal(l) => crate::text::str_eq(
                            l.as_str(),
                            seg.as_str(),
                        ),
                        _ => false,
                    }
                } else {
                    false
                }
            } else {
                false
            };
            proof {
                reveal(Seq::filter);
                assert(keep == pred(idx));
                assert(cands@.subrange(0, j + 1int).drop_last() =~= cands@.subrange(
                    0,
                    j as int,
                ));
                assert(cands@.subrange(0, j + 1int).last() == idx);
            }
            if keep {
                r.push(idx);
            }
            j += 1;
        }
        proof {
            assert(cands@.subrange(0, cands@.len() as int) =~= cands@);
        }
        r
    }

    fn filter_params(&self, cands: &Vec<usize>, seg: &String, k: usize) -> (r: Vec<usize>)
        ensures
            r@ == cands@.filter(|i: usize| param_cand(self.tpls(), seg@, k as int, i)),
    {
        let ghost pred = |i: usize| param_cand(self.tpls(), seg@, k as int, i);
        let nonempty = seg.as_str().unicode_len() > 0;
        let mut r: Vec<usize> = Vec::new();
        let mut j: usize = 0;
        proof {
            reveal(Seq::filter);
            assert(cands@.subrange(0, 0) =~= Seq::<usize>::empty());
        }
        while j < cands.len()
            invariant
                j <= cands@.len(),
                pred == (|i: usize| param_cand(self.tpls(), seg@, k as int, i)),
                nonempty == (seg@.len() > 0),
                r@ == cands@.subrange(0, j as int).filter(pred),
            decreases cands@.len() - j,
        {
            let idx = cands[j];
            let keep: bool = nonempty && idx < self.endpoints.len() && k
                < self.endpoints[idx].segments.len() && (match &self.endpoints[
                idx
            ].segments[k] {
                Segment::Param(_) => true,
                _ => false,
            });
            proof {
                reveal(Seq::filter);
                assert(keep == pred(idx));
                assert(cands@.subrange(0, j + 1int).drop_last() =~= cands@.subrange(
                    0,
                    j as int,
                ));
                assert(cands@.subrange(0, j + 1int).last() == idx);
            }
            if keep {
                r.push(idx);
            }
            j += 1;
        }
        proof {
            assert(cands@.subrange(0, cands@.len() as int) =~= cands@);
        }
        r
    }

    fn filter_wilds(&self, cands: &Vec<usize>, k: usize) -> (r: Vec<usize>)
        ensures
            r@ == cands@.filter(|i: usize| wild_cand(self.tpls(), k as int, i)),
    {
        let ghost pred = |i: usize| wild_cand(self.tpls(), k as int, i);
        let mut r: Vec<usize> = Vec::new();
        let mut j: usize = 0;
        proof {
            reveal(Seq::filter);
            assert(cands@.subrange(0, 0) =~= Seq::<usize>::empty());
        }
        while j < cands.len()
            invariant
                j <= cands@.len(),
                pred == (|i: usize| wild_cand(self.tpls(), k as int, i)),
                r@ == cands@.subrange(0, j as int).filter(pred),
            decreases cands@.len() - j,
        {
            let idx = cands[j];
            let keep: bool = idx < self.endpoints.len() && k < self.endpoints[
                idx
            ].segments.len() && (match &self.endpoints[idx].segments[k] {
                Segment::Wildcard(_) => true,
                _ => false,
            });
            proof {
                reveal(Seq::filter);
                assert(keep == pred(idx));
                assert(cands@.subrange(0, j + 1int).drop_last() =~= cands@.subrange(
                    0,
                    j as int,
                ));
                assert(cands@.subrange(0, j + 1int).last() == idx);
            }
            if keep {
                r.push(idx);
            }
            j += 1;
        }
        proof {
            assert(cands@.subrange(0, cands@.len() as int) =~= cands@);
        }
        r
    }

    fn filter_ended(&self, cands: &Vec<usize>, k: usize) -> (r: Vec<usize>)
        ensures
            r@ == cands@.filter(|i: usize| ended_cand(self.tpls(), k as int, i)),
    {
        let ghost pred = |i: usize| ended_cand(self.tpls(), k as int, i);
        let mut r: Vec<usize> = Vec::new();
        let mut j: usize = 0;
        proof {
            reveal(Seq::filter);
            assert(cands@.subrange(0, 0) =~= Seq::<usize>::empty());
        }
        while j < cands.len()
            invariant
                j <= cands@.len(),
                pred == (|i: usize| ended_cand(self.tpls(), k as int, i)),
                r@ == cands@.subrange(0, j as int).filter(pred),
            decreases cands@.len() - j,
        {
            let idx = cands[j];
            let keep: bool = idx < self.endpoints.len() && (self.endpoints[
                idx
            ].segments.len() == k || (k < self.endpoints[idx].segments.len() && (
            match &self.endpoints[idx].segments[k] {
                Segment::Wildcard(_) => true,
                _ => false,
            })));
            proof {
                reveal(Seq::filter);
                assert(keep == pred(idx));
                assert(cands@.subrange(0, j + 1int).drop_last() =~= cands@.subrange(
                    0,
                    j as int,
                ));
                assert(cands@.subrange(0, j + 1int).last() == idx);
            }
            if keep {
                r.push(idx);
            }
            j += 1;
        }
        proof {
            assert(cands@.subrange(0, cands@.len() as int) =~= cands@);
        }
        r
    }

    fn walk_exec(&self, cands: Vec<usize>, path: &Vec<String>, k: usize) -> (r: Vec<
        usize,
    >)
        requires
            k <= path@.len(),
        ensures
            r@ == walk(self.tpls(), cands@, path.deep_view(), k as int),
        decreases path@.len() - k,
    {
        if k == path.len() {
            self.filter_ended(&cands, k)
        } else {
            proof {
                assert(path.deep_view()[k as int] == path@[k as int]@);
            }
            let lits = self.filter_lits(&cands, &path[k], k);
            if lits.len() > 0 {
                self.walk_exec(lits, path, k + 1)
            } else {
                let pars = self.filter_params(&cands, &path[k], k);
                if pars.len() > 0 {
                    self.walk_exec(pars, path, k + 1)
                } else {
                    self.filter_wilds(&cands, k)
                }
            }
        }
    }

    fn tree_cands_exec(&self) -> (r: Vec<usize>)
        ensures
            r@ == self.tree_cands(),
    {
        let ghost pred = |i: usize| !self.endpoints@[i as int].uri.spec_is_asterisk();
        let mut r: Vec<usize> = Vec::new();
        let mut i: usize = 0;
        proof {
            reveal(Seq::filter);
            assert(index_seq(0) =~= Seq::<usize>::empty());
        }
        while i < self.endpoints.len()
            invariant
                i <= self.endpoints@.len(),
                pred == (|i: usize| !self.endpoints@[i as int].uri.spec_is_asterisk()),
                r@ == index_seq(i as nat).filter(pred),
            decreases self.endpoints@.len() - i,
        {
            let keep = !self.endpoints[i].uri.is_asterisk();
            proof {
                reveal(Seq::filter);
                assert(index_seq((i + 1) as nat).drop_last() =~= index_seq(i as nat));
                assert(index_seq((i + 1) as nat).last() == i);
                assert(keep == pred(i));
            }
            if keep {
                r.push(i);
            }
            i += 1;
        }
        r
    }

    fn asterisk_cands_exec(&self) -> (r: Vec<usize>)
        ensures
            r@ == self.asterisk_cands(),
    {
        let ghost pred = |i: usize| self.endpoints@[i as int].uri.spec_is_asterisk();
        let mut r: Vec<usize> = Vec::new();
        let mut i: usize = 0;
        proof {
            reveal(Seq::filter);
            assert(index_seq(0) =~= Seq::<usize>::empty());
        }
        while i < self.endpoints.len()
            invariant
                i <= self.endpoints@.len(),
                pred == (|i: usize| self.endpoints@[i as int].uri.spec_is_asterisk()),
                r@ == index_seq(i as nat).filter(pred),
            decreases self.endpoints@.len() - i,
        {
            let keep = self.endpoints[i].uri.is_asterisk();
            proof {
                reveal(Seq::filter);
                assert(index_seq((i + 1) as nat).drop_last() =~= index_seq(i as nat));
                assert(index_seq((i + 1) as nat).last() == i);
                assert(keep == pred(i));
            }
            if keep {
                r.push(i);
            }
            i += 1;
        }
        r
    }

    fn all_cands_exec(&self) -> (r: Vec<usize>)
        ensures
            r@ == index_seq(self.endpoints@.len()),
    {
        let mut r: Vec<usize> = Vec::new();
        let mut i: usize = 0;
        while i < self.endpoints.len()
            invariant
                i <= self.endpoints@.len(),
                r@ == index_seq(i as nat),
            decreases self.endpoints@.len() - i,
        {
            r.push(i);
            proof {
                assert(r@ =~= index_seq((i + 1) as nat));
            }
            i += 1;
        }
        r
    }

    fn first_method_exec(&self, node: &Vec<usize>, m: &Method) -> (r: Option<usize>)
        ensures
            r == first_with_method(self.methods_view(), node@, *m),
    {
        let mut j: usize = 0;
        proof {
            assert(node@.subrange(0, node@.len() as int) =~= node@);
        }
        while j < node.len()
            invariant
                j <= node@.len(),
                first_with_method(self.methods_view(), node@, *m) == first_with_method(
                    self.methods_view(),
                    node@.subrange(j as int, node@.len() as int),
                    *m,
                ),
            decreases node@.len() - j,
        {
            let ghost tail = node@.subrange(j as int, node@.len() as int);
            proof {
                assert(tail[0] == node@[j as int]);
                assert(tail.drop_first() =~= node@.subrange(
                    j + 1int,
                    node@.len() as int,
                ));
            }
            let idx = node[j];
            if idx < self.endpoints.len() {
                let e = &self.endpoints[idx];
                if e.methods.0.len() == 0 || e.methods.contains(m) {
                    return Some(idx);
                }
            }
            j += 1;
        }
        proof {
            assert(node@.subrange(node@.len() as int, node@.len() as int)
                =~= Seq::<usize>::empty());
        }
        None
    }

    fn allow_exec(&self, node: &Vec<usize>) -> (r: Methods)
        ensures
            r.0@ == allow_of(self.methods_view(), node@),
            r.wf(),
    {
        let mut r = Methods::none();
        let mut j: usize = 0;
        proof {
            assert(node@.subrange(0, 0) =~= Seq::<usize>::empty());
        }
        while j < node.len()
            invariant
                j <= node@.len(),
                r.wf(),
                r.view_seq() == crate::method::dedup_methods(
                    concat_node_methods(self.methods_view(), node@.subrange(0, j as int)),
                ),
            decreases node@.len() - j,
        {
            let ghost pre_node = node@.subrange(0, j as int);
            proof {
                assert(node@.subrange(0, j + 1int).drop_last() =~= pre_node);
                assert(node@.subrange(0, j + 1int).last() == node@[j as int]);
            }
            let idx = node[j];
            if idx < self.endpoints.len() {
                let e = &self.endpoints[idx];
                let ghost mlist = self.methods_view()[idx as int];
                let mut q: usize = 0;
                proof {
                    assert(mlist.subrange(0, 0) =~= Seq::<Method>::empty());
                    assert(concat_node_methods(self.methods_view(), pre_node)
                        + mlist.subrange(0, 0) =~= concat_node_methods(
                        self.methods_view(),
                        pre_node,
                    ));
                }
                while q < e.methods.0.len()
                    invariant
                        q <= e.methods.0@.len(),
                        idx < self.endpoints@.len(),
                        e == &self.endpoints@[idx as int],
                        mlist == self.methods_view()[idx as int],
                        mlist == e.methods.0@,
                        r.wf(),
                        r.view_seq() == crate::method::dedup_methods(
                            concat_node_methods(
                                self.methods_view(),
                                node@.subrange(0, j as int),
                            ) + mlist.subrange(0, q as int),
                        ),
                    decreases e.methods.0@.len() - q,
                {
                    let ghost acc = concat_node_methods(
                        self.methods_view(),
                        node@.subrange(0, j as int),
                    ) + mlist.subrange(0, q as int);
                    proof {
                        let acc2 = concat_node_methods(
                            self.methods_view(),
                            node@.subrange(0, j as int),
                        ) + mlist.subrange(0, q + 1int);
                        assert(acc2.drop_last() =~= acc);
                        assert(acc2.last() == mlist[q as int]);
                    }
                    let m = e.methods.0[q];
                    r.insert(m);
                    q += 1;
                }
                proof {
                    assert(mlist.subrange(0, mlist.len() as int) =~= mlist);
                    assert(concat_node_methods(
                        self.methods_view(),
                        node@.subrange(0, j + 1int),
                    ) =~= concat_node_methods(self.methods_view(), pre_node) + mlist);
                }
            } else {
                proof {
                    assert(concat_node_methods(
                        self.methods_view(),
                        node@.subrange(0, j + 1int),
                    ) =~= concat_node_methods(self.methods_view(), pre_node));
                }
            }
            j += 1;
        }
        proof {
            assert(node@.subrange(0, node@.len() as int) =~= node@);
        }
        let ghost all = concat_node_methods(self.methods_view(), node@);
        proof {
            assert(all.push(Method::Options).drop_last() =~= all);
        }
        r.insert(Method::Options);
        r
    }
}

/// Appending one more segment extends the joined path by a slash and
/// the segment.
pub proof fn lemma_join_segs_snoc(segs: Seq<Seq<char>>, x: Seq<char>)
    ensures
        segs.len() == 0 ==> join_segs(segs.push(x)) == x,
        segs.len() > 0 ==> join_segs(segs.push(x)) == join_segs(segs) + seq!['/'] + x,
    decreases segs.len(),
{
    if segs.len() == 0 {
        assert(join_segs(segs.push(x)) == segs.push(x)[0]);
    } else if segs.len() == 1 {
        assert(segs.push(x).drop_first() =~~= seq![x]);
        assert(join_segs(seq![x]) == x);
    } else {
        lemma_join_segs_snoc(segs.drop_first(), x);
        assert(segs.push(x).drop_first() =~~= segs.drop_first().push(x));
        assert(join_segs(segs.push(x)) =~= segs[0] + seq!['/'] + (join_segs(
            segs.drop_first(),
        ) + seq!['/'] + x));
        assert(segs[0] + seq!['/'] + (join_segs(segs.drop_first()) + seq!['/'] + x)
            =~= (segs[0] + seq!['/'] + join_segs(segs.drop_first())) + seq!['/'] + x);
    }
}

impl<H> Router<H> {
    /// The text the wildcard of endpoint `i` captures: the path segments
    /// from `k` on, joined by slashes.
    fn capture_rest(&self, path: &Vec<String>, k: usize) -> (r: String)
        requires
            k < path@.len(),
        ensures
            r@ == join_segs(
                path.deep_view().subrange(k as int, path.deep_view().len() as int),
            ),
    {
        let dv = Ghost(path.deep_view());
        let plen = path.len();
        let mut r = path[k].clone();
        proof {
            assert(dv@.subrange(k as int, k + 1int) =~~= seq![dv@[k as int]]);
            assert(r@ == dv@[k as int]);
        }
        let mut j: usize = k + 1;
        while j < path.len()
            invariant
                k < j <= path@.len(),
                dv@ == path.deep_view(),
                r@ == join_segs(dv@.subrange(k as int, j as int)),
            decreases path@.len() - j,
        {
            proof {
                reveal_strlit("/");
                lemma_join_segs_snoc(dv@.subrange(k as int, j as int), dv@[j as int]);
                assert(dv@.subrange(k as int, j + 1int) =~~= dv@.subrange(
                    k as int,
                    j as int,
                ).push(dv@[j as int]));
            }
            r.append("/");
            r.append(path[j].as_str());
            j += 1;
        }
        proof {
            assert(dv@.subrange(k as int, dv@.len() as int) =~~= dv@.subrange(
                k as int,
                j as int,
            ));
        }
        r
    }

    /// The text of every capture of endpoint `i` on a path, in position
    /// order.
    fn captures_exec(&self, i: usize, path: &Vec<String>) -> (r: Vec<String>)
        requires
            i < self.endpoints@.len(),
        ensures
            r.deep_view() == spec_captures(self.tpls()[i as int], path.deep_view(), 0),
    {
        let tpl = &self.endpoints[i].segments;
        let ghost tv = self.tpls()[i as int];
        let ghost dv = path.deep_view();
        let mut r: Vec<String> = Vec::new();
        let mut k: usize = 0;
        proof {
            assert(tv == tpl@);
            assert(r.deep_view() + spec_captures(tv, dv, 0) =~~= spec_captures(
                tv,
                dv,
                0,
            ));
        }
        while k < tpl.len()
            invariant
                k <= tpl@.len(),
                tv == tpl@,
                dv == path.deep_view(),
                tpl == &self.endpoints@[i as int].segments,
                i < self.endpoints@.len(),
                spec_captures(tv, dv, 0) == r.deep_view() + spec_captures(
                    tv,
                    dv,
                    k as int,
                ),
            decreases tpl@.len() - k,
        {
            let ghost pre = r.deep_view();
            if k >= path.len() {
                match &tpl[k] {
                    Segment::Wildcard(_) => {
                        r.push(String::new());
                        proof {
                            assert(r.deep_view() =~~= pre.push(Seq::<char>::empty()));
                            assert(spec_captures(tv, dv, k as int) =~~= seq![
                                Seq::<char>::empty(),
                            ]);
                            assert(pre + spec_captures(tv, dv, k as int) =~~= r.deep_view());
                            assert(r.deep_view() + Seq::<Seq<char>>::empty() =~~= r
                                .deep_view());
                        }
                        return r;
                    },
                    _ => {
                        proof {
                            assert(spec_captures(tv, dv, k as int)
                                =~~= Seq::<Seq<char>>::empty());
                            assert(pre + spec_captures(tv, dv, k as int) =~~= r.deep_view());
                        }
                        return r;
                    },
                }
            }
            match &tpl[k] {
                Segment::Literal(_) => {},
                Segment::Param(_) => {
                    let v = path[k].clone();
                    proof {
                        assert(v@ == dv[k as int]);
                    }
                    r.push(v);
                    proof {
                        assert(r.deep_view() =~~= pre.push(dv[k as int]));
                        assert(pre + (seq![dv[k as int]] + spec_captures(tv, dv, k + 1int))
                            =~~= r.deep_view() + spec_captures(tv, dv, k + 1int));
                    }
                },
                Segment::Wildcard(_) => {
                    let rest = self.capture_rest(path, k);
                    r.push(rest);
                    proof {
                        assert(spec_captures(tv, dv, k as int) =~~= seq![
                            join_segs(dv.subrange(k as int, dv.len() as int)),
                        ]);
                        assert(pre + spec_captures(tv, dv, k as int) =~~= r.deep_view());
                        assert(r.deep_view() + Seq::<Seq<char>>::empty() =~~= r.deep_view());
                    }
                    return r;
                },
            }
            k += 1;
        }
        proof {
            assert(spec_captures(tv, dv, k as int) =~~= Seq::<Seq<char>>::empty());
            assert(r.deep_view() + Seq::<Seq<char>>::empty() =~~= r.deep_view());
        }
        r
    }

    /// Maps a request path and method to an endpoint.
    ///
    /// The path `*` is looked up among the asterisk endpoints only; every
    /// other recognizable path is absolute.  The walk of the segment tree
    /// selects the matched node, and the method picks the endpoint: an
    /// exact listing first, then a `GET` endpoint for a `HEAD` request
    /// when `fallback_head` is on, then the synthetic `OPTIONS` answer
    /// when `fallback_options` is on; otherwise the request fails with
    /// the method error when the node exists and with the path error when
    /// it does not.
    pub fn recognize(&self, path: &str, method: &Method) -> (r: Result<
        Recognize,
        RecognizeError,
    >)
        ensures
            outcome_of(r) == self.spec_recognize(path@, *method),
    {
        let n = path.unicode_len();
        if n == 1 && path.get_char(0) == '*' {
            proof {
                assert(path@ =~= crate::uri::spec_asterisk_str());
            }
            let node = self.asterisk_cands_exec();
            if node.len() > 0 {
                match self.first_method_exec(&node, method) {
                    Some(i) => {
                        let vals: Vec<String> = Vec::new();
                        proof {
                            assert(vals.deep_view() =~~= Seq::<Seq<char>>::empty());
                        }
                        return Ok(Recognize::Matched(i, vals));
                    },
                    None => {
                        return Err(RecognizeError::MethodNotAllowed);
                    },
                }
            }
            if self.fallback_options && *method == Method::Options {
                let all = self.all_cands_exec();
                let allow = self.allow_exec(&all);
                return Ok(Recognize::Options(allow));
            }
            return Err(RecognizeError::NotFound);
        }
        proof {
            if n != 1 {
                assert(path@ != crate::uri::spec_asterisk_str());
            } else if path@[0] != '*' {
                assert(path@ != crate::uri::spec_asterisk_str());
            }
        }
        if n == 0 || path.get_char(0) != '/' {
            return Err(RecognizeError::NotFound);
        }
        let segs = crate::text::split_range(path, 1, n, '/');
        proof {
            assert(path@.subrange(1, n as int) =~~= path@.drop_first());
        }
        let init = self.tree_cands_exec();
        let node = self.walk_exec(init, &segs, 0);
        if node.len() == 0 {
            return Err(RecognizeError::NotFound);
        }
        match self.first_method_exec(&node, method) {
            Some(i) => {
                proof {
                    first_with_method_in_range(self.methods_view(), node@, *method);
                }
                let caps = self.captures_exec(i, &segs);
                Ok(Recognize::Matched(i, caps))
            },
            None => {
                if self.fallback_head && *method == Method::Head {
                    match self.first_method_exec(&node, &Method::Get) {
                        Some(i) => {
                            proof {
                                first_with_method_in_range(
                                    self.methods_view(),
                                    node@,
                                    Method::Get,
                                );
                            }
                            let caps = self.captures_exec(i, &segs);
                            return Ok(Recognize::Matched(i, caps));
                        },
                        None => {},
                    }
                }
                if self.fallback_options && *method == Method::Options {
                    let allow = self.allow_exec(&node);
                    Ok(Recognize::Options(allow))
                } else {
                    Err(RecognizeError::MethodNotAllowed)
                }
            },
        }
    }
}

/// Compiles a parsed template into the segment list the walk consumes.
/// A trailing slash compiles to a final empty literal, which only the
/// same trailing slash on the request path can match.
pub(crate) fn compile_template(u: &Uri) -> (r: Vec<Segment>)
    requires
        u.wf(),
        !u.spec_is_asterisk(),
    ensures
        compiled_ok(r@, *u),
{
    match &u.kind {
        crate::uri::UriKind::Asterisk => {
            // Unreachable: the requires excludes the asterisk.
            proof {
                assert(false);
            }
            Vec::new()
        },
        crate::uri::UriKind::Root => {
            let mut r: Vec<Segment> = Vec::new();
            r.push(Segment::Literal(String::new()));
            proof {
                assert(crate::uri::spec_root_str().drop_first() =~= Seq::<char>::empty());
                assert(raw_segments(u.str_view()) =~~= seq![Seq::<char>::empty()]);
                assert(seg_views(r@) =~~= raw_segments(u.str_view()));
            }
            r
        },
        crate::uri::UriKind::Segments(s, _) => {
            let n = s.as_str().unicode_len();
            proof {
                assert(s@.subrange(1, n as int) =~~= s@.drop_first());
            }
            let pieces = crate::text::split_range(s.as_str(), 1, n, '/');
            let ghost raw = raw_segments(u.str_view());
            let ghost core = crate::uri::core_segments(s@);
            proof {
                assert(pieces.deep_view() == raw);
                crate::uri::lemma_split_slash_len(s@.drop_first());
            }
            let mut r: Vec<Segment> = Vec::new();
            let mut k: usize = 0;
            while k < pieces.len()
                invariant
                    k <= pieces@.len(),
                    pieces.deep_view() == raw,
                    raw == raw_segments(u.str_view()),
                    core == crate::uri::core_segments(u.str_view()),
                    u.wf(),
                    u.kind matches crate::uri::UriKind::Segments(s2, _) && s2@ == u
                        .str_view(),
                    r@.len() == k,
                    forall|t: int|
                        0 <= t < k ==> (#[trigger] r@[t]).seg_view() == raw[t] && (r@[t]
                            is Param <==> param_seg(raw[t])) && (r@[t] is Wildcard
                            <==> wild_seg(raw[t])),
                decreases pieces@.len() - k,
            {
                let piece = &pieces[k];
                let pn = piece.as_str().unicode_len();
                proof {
                    assert(piece@ == raw[k as int]);
                    // Each piece is either a meaningful segment or the
                    // final empty piece of a trailing slash.
                    if k < core.len() {
                        assert(crate::uri::valid_seg(core[k as int]));
                        assert(core[k as int] == raw[k as int]);
                    } else {
                        assert(raw.len() > 1 && raw.last().len() == 0 && k == raw.len()
                            - 1);
                    }
                }
                let seg = if pn == 0 {
                    proof {
                        assert(!param_seg(raw[k as int]) && !wild_seg(raw[k as int]));
                    }
                    Segment::Literal(String::new())
                } else {
                    let head = piece.as_str().get_char(0);
                    if head == ':' {
                        let name = piece.as_str().substring_char(1, pn).to_owned();
                        proof {
                            assert(seq![':'] + name@ =~= raw[k as int]);
                            assert(param_seg(raw[k as int]));
                        }
                        Segment::Param(name)
                    } else if head == '*' {
                        let name = piece.as_str().substring_char(1, pn).to_owned();
                        proof {
                            assert(seq!['*'] + name@ =~= raw[k as int]);
                            assert(wild_seg(raw[k as int]));
                        }
                        Segment::Wildcard(name)
                    } else {
                        proof {
                            assert(!param_seg(raw[k as int]) && !wild_seg(raw[k as int]));
                        }
                        Segment::Literal(piece.clone())
                    }
                };
                r.push(seg);
                k += 1;
            }
            proof {
                assert(seg_views(r@) =~~= raw_segments(u.str_view()));
            }
            r
        },
    }
}

/// Law: with `fallback_head` enabled, a node that lists no endpoint for
/// `HEAD` but one for `GET` answers a `HEAD` request with that endpoint
/// and no error; with it disabled, the same request reports the method
/// error (when the options fallback does not answer it first).
pub proof fn lemma_head_fallback<H>(r: Router<H>, path: Seq<char>, i: usize)
    requires
        path != crate::uri::spec_asterisk_str(),
        path.len() > 0 && path[0] == '/',
        walk(r.tpls(), r.tree_cands(), split_slash(path.drop_first()), 0).len() > 0,
        first_with_method(
            r.methods_view(),
            walk(r.tpls(), r.tree_cands(), split_slash(path.drop_first()), 0),
            Method::Head,
        ) is None,
        first_with_method(
            r.methods_view(),
            walk(r.tpls(), r.tree_cands(), split_slash(path.drop_first()), 0),
            Method::Get,
        ) == Some(i),
    ensures
        r.fallback_head ==> r.spec_recognize(path, Method::Head) == SpecOutcome::Matched(
            i,
            spec_captures(r.tpls()[i as int], split_slash(path.drop_first()), 0),
        ),
        !r.fallback_head ==> r.spec_recognize(path, Method::Head)
            == SpecOutcome::MethodNotAllowed,
{
}

/// Law: with `fallback_options` enabled, an `OPTIONS` request on a node
/// that does not list `OPTIONS` itself is answered synthetically with
/// the node's `Allow` list; with it disabled it reports the method
/// error.
pub proof fn lemma_options_fallback<H>(r: Router<H>, path: Seq<char>)
    requires
        path != crate::uri::spec_asterisk_str(),
        path.len() > 0 && path[0] == '/',
        walk(r.tpls(), r.tree_cands(), split_slash(path.drop_first()), 0).len() > 0,
        first_with_method(
            r.methods_view(),
            walk(r.tpls(), r.tree_cands(), split_slash(path.drop_first()), 0),
            Method::Options,
        ) is None,
    ensures
        r.fallback_options ==> r.spec_recognize(path, Method::Options)
            == SpecOutcome::Options(
            allow_of(
                r.methods_view(),
                walk(r.tpls(), r.tree_cands(), split_slash(path.drop_first()), 0),
            ),
        ),
        !r.fallback_options ==> r.spec_recognize(path, Method::Options)
            == SpecOutcome::MethodNotAllowed,
{
}

/// A selected endpoint index is always in range of the method table.
pub proof fn first_with_method_in_range(ms: Seq<Seq<Method>>, node: Seq<usize>, m: Method)
    ensures
        first_with_method(ms, node, m) matches Some(i) ==> (i as int) < ms.len(),
    decreases node.len(),
{
    if node.len() > 0 {
        first_with_method_in_range(ms, node.drop_first(), m);
    }
}

/// Law: the recognition tie-break.  If any candidate offers a literal
/// equal to the path segment at the level the walk has reached, then
/// every endpoint the walk can still select offers that same literal
/// there: a literal always wins over a parameter or wildcard at the same
/// position, whatever the registration order.
pub proof fn lemma_literal_wins(
    tpls: Seq<Seq<Segment>>,
    cands: Seq<usize>,
    path: Seq<Seq<char>>,
    k: int,
    w: usize,
)
    requires
        0 <= k < path.len(),
        cands.contains(w),
        lit_cand(tpls, path[k], k, w),
    ensures
        forall|j: usize|
            walk(tpls, cands, path, k).contains(j) ==> lit_cand(tpls, path[k], k, j),
{
    let lits = cands.filter(|i: usize| lit_cand(tpls, path[k], k, i));
    let wi = choose|wi: int| 0 <= wi < cands.len() && cands[wi] == w;
    cands.lemma_filter_contains(|i: usize| lit_cand(tpls, path[k], k, i), wi);
    assert(lits.len() > 0);
    assert forall|j: usize|
        walk(tpls, cands, path, k).contains(j) implies lit_cand(tpls, path[k], k, j) by {
        lemma_walk_subset(tpls, lits, path, k + 1, j);
        lemma_filter_subset(cands, |i: usize| lit_cand(tpls, path[k], k, i), j);
    }
}

} // verus!
