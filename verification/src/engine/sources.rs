//! Reevaluation sources: where a projection's current value comes from.
//!
//! The syntactic source answers the four syntactic projection kinds from a
//! parsed index and declines everything else (semantic kinds answer
//! nothing, never a synthesized set). Semantic sources compose a frozen
//! semantic graph with the syntactic index: the frozen source serves the
//! graph authoritatively; the overlay source serves the graph plus live
//! evidence over the current tree, provisionally.
use vstd::prelude::*;

use crate::engine::observe::{
    definition_value_spec, file_value_spec, imports_canonical, parsed_module_unit, signature_value_spec,
    syntactic_value_canonical,
};
use crate::engine::redgreen::{Evaluated, ReevaluationSource, TransitionError};
use crate::order::{canonical_set, canonical_set_of, views};
use crate::program::model::{join_strings_pub, join_with, slashes_to_dots};
use crate::program::python::{unit_imports, unit_index, PythonSyntaxIndex, UnitModel};
use crate::projection::{subject_text, Projection, ProjectionKind};
use crate::semantic::graph::{members_of, ScipGraph};
use crate::text::{chars_end_with, chars_of, contains_string, ends_with, string_of_chars};

verus! {

/// What the syntactic backend proves for a projection: the canonical value
/// of one of the four syntactic kinds, when proven.
pub open spec fn syntactic_answer(index: PythonSyntaxIndex, p: Projection, v: Option<Seq<char>>) -> bool {
    let us = index@;
    let subj = subject_text(p@.subject);
    match p@.kind {
        ProjectionKind::FileContent => v == match file_value_spec(index, subj) {
            Some(e) => Some(e.0),
            None => None,
        },
        ProjectionKind::Definition => v == match definition_value_spec(us, subj) {
            Some(e) => Some(e.0),
            None => None,
        },
        ProjectionKind::Signature => v == match signature_value_spec(us, subj) {
            Some(e) => Some(e.0),
            None => None,
        },
        ProjectionKind::Imports => match parsed_module_unit(us, subj) {
            None => v is None,
            Some(u) => v matches Some(x) && imports_canonical(unit_imports(u), x),
        },
        _ => v is None,
    }
}

/// The syntactic backend is deterministic: for projections with the same
/// view it admits at most one answer.
pub proof fn lemma_syntactic_answer_unique(
    index: PythonSyntaxIndex,
    p1: Projection,
    p2: Projection,
    v1: Option<Seq<char>>,
    v2: Option<Seq<char>>,
)
    requires
        p1@ == p2@,
        syntactic_answer(index, p1, v1),
        syntactic_answer(index, p2, v2),
    ensures
        v1 == v2,
{
    if p1@.kind == ProjectionKind::Imports {
        let subj = subject_text(p1@.subject);
        if let Some(u) = parsed_module_unit(index@, subj) {
            let ms = unit_imports(u).map_values(|i: crate::program::python::ImportModel| crate::engine::observe::import_model_text(i));
            let x1 = v1->0;
            let x2 = v2->0;
            let s1 = choose|set: Seq<Seq<char>>| canonical_set_of::<String>(set, ms) && x1 == join_with(set, "; "@);
            let s2 = choose|set: Seq<Seq<char>>| canonical_set_of::<String>(set, ms) && x2 == join_with(set, "; "@);
            crate::order::lemma_canonical_unique::<String>(s1, s2);
        }
    }
}

/// The value view of an optional evaluation.
pub open spec fn eval_value(e: Option<Evaluated>) -> Option<Seq<char>> {
    match e {
        Some(x) => Some(x@.0),
        None => None,
    }
}

/// The production syntactic backend over a parsed index.
pub struct SyntacticSource<'a> {
    index: &'a PythonSyntaxIndex,
}

impl<'a> SyntacticSource<'a> {
    /// Wrap an index built over the current source tree.
    pub fn new(index: &'a PythonSyntaxIndex) -> (r: Self)
        ensures
            r.index_view() == *index,
    {
        SyntacticSource { index }
    }

    /// The units of the wrapped index.
    pub closed spec fn index_view(&self) -> PythonSyntaxIndex {
        *self.index
    }

    /// The syntactic evaluation: authoritative evidence for the four
    /// syntactic kinds, nothing otherwise.
    fn eval(&self, projection: &Projection) -> (r: Option<Evaluated>)
        ensures
            syntactic_answer(self.index_view(), *projection, eval_value(r)),
            r matches Some(e) ==> e@.1,
    {
        match syntactic_value_canonical(self.index, projection) {
            Some(v) => Some(Evaluated::new(v.as_str(), true)),
            None => None,
        }
    }
}

impl<'a> ReevaluationSource for SyntacticSource<'a> {
    fn evaluate(&self, projection: &Projection) -> (r: Result<Option<Evaluated>, TransitionError>)
        ensures
            r matches Ok(e) && syntactic_answer(self.index_view(), *projection, eval_value(e)) && (e matches Some(x)
                ==> x@.1),
    {
        Ok(self.eval(projection))
    }
}

/// A semantic source backed by a frozen authoritative snapshot's graph:
/// callers and implementations come from the frozen graph; other kinds
/// delegate to the syntactic backend.
pub struct FrozenSemanticSource<'a> {
    syntactic: SyntacticSource<'a>,
    graph: &'a ScipGraph,
}

impl<'a> FrozenSemanticSource<'a> {
    /// Compose the frozen graph with the syntactic index.
    pub fn new(graph: &'a ScipGraph, index: &'a PythonSyntaxIndex) -> (r: Self)
        ensures
            r.index_view() == *index,
            r.graph_view() == *graph,
    {
        FrozenSemanticSource { syntactic: SyntacticSource::new(index), graph }
    }

    /// The units of the wrapped index.
    pub closed spec fn index_view(&self) -> PythonSyntaxIndex {
        self.syntactic.index_view()
    }

    /// The frozen graph.
    pub closed spec fn graph_view(&self) -> ScipGraph {
        *self.graph
    }
}

impl<'a> ReevaluationSource for FrozenSemanticSource<'a> {
    fn evaluate(&self, projection: &Projection) -> (r: Result<Option<Evaluated>, TransitionError>)
        ensures
            r matches Ok(e) && match projection@.kind {
                ProjectionKind::Callers => e matches Some(x) && x@.1 && x@.0 == join_with(
                    members_of(self.graph_view().callers@, subject_text(projection@.subject)),
                    "; "@,
                ),
                ProjectionKind::Implementations => e matches Some(x) && x@.1 && x@.0 == join_with(
                    members_of(self.graph_view().implementations@, subject_text(projection@.subject)),
                    "; "@,
                ),
                _ => syntactic_answer(self.index_view(), *projection, eval_value(e)) && (e matches Some(x) ==> x@.1),
            },
    {
        match projection.kind() {
            ProjectionKind::Callers => {
                let v = self.graph.callers_value(projection.subject().canonical());
                Ok(Some(Evaluated::new(v.as_str(), true)))
            },
            ProjectionKind::Implementations => {
                let v = self.graph.implementations_value(projection.subject().canonical());
                Ok(Some(Evaluated::new(v.as_str(), true)))
            },
            _ => Ok(self.syntactic.eval(projection)),
        }
    }
}

/// The module a changed path defines: `.py` stripped, separators made
/// dots, a trailing `.__init__` stripped (`auth/__init__.py` is module
/// `auth`); nothing for other paths.
pub open spec fn delta_module(p: Seq<char>) -> Option<Seq<char>> {
    if ends_with(p, ".py"@) {
        let d = slashes_to_dots(p.subrange(0, p.len() - 3));
        Some(
            if ends_with(d, ".__init__"@) {
                d.subrange(0, d.len() - 9)
            } else {
                d
            },
        )
    } else {
        None
    }
}

/// Some changed path defines the module.
pub open spec fn in_delta(delta: Seq<Seq<char>>, m: Seq<char>) -> bool {
    exists|i: int| 0 <= i < delta.len() && #[trigger] delta_module(delta[i]) == Some(m)
}

/// The position of the last `.`, or -1 when there is none.
pub open spec fn last_dot(m: Seq<char>) -> int
    decreases m.len(),
{
    if m.len() == 0 {
        -1
    } else if m.last() == '.' {
        m.len() - 1
    } else {
        last_dot(m.drop_last())
    }
}

/// The dotted prefix of `s` that ends at `p` names a module: the whole text
/// or a prefix ending before a `.`, that a changed path defines or an
/// indexed unit holds.
pub open spec fn names_module(us: Seq<UnitModel>, delta: Seq<Seq<char>>, s: Seq<char>, p: int) -> bool {
    &&& (p == s.len() || s[p] == '.')
    &&& (in_delta(delta, s.subrange(0, p)) || unit_index(us, s.subrange(0, p)) is Some)
}

/// The longest dotted prefix of `s`, ending at or before `p`, that names a
/// module.
pub open spec fn home_at(us: Seq<UnitModel>, delta: Seq<Seq<char>>, s: Seq<char>, p: int) -> Option<Seq<char>>
    decreases p,
{
    if p <= 0 || p > s.len() {
        None
    } else if names_module(us, delta, s, p) {
        Some(s.subrange(0, p))
    } else {
        home_at(us, delta, s, p - 1)
    }
}

/// The module a member is defined in, as far as the changed paths and the
/// indexed units tell: its longest dotted prefix (the member itself
/// included) that names a module.
pub open spec fn member_home(us: Seq<UnitModel>, delta: Seq<Seq<char>>, m: Seq<char>) -> Option<Seq<char>> {
    home_at(us, delta, m, m.len() as int)
}

/// A frozen member is superseded when the module that defines it is one a
/// changed path defines.
pub open spec fn superseded(us: Seq<UnitModel>, delta: Seq<Seq<char>>, m: Seq<char>) -> bool {
    member_home(us, delta, m) matches Some(h) && in_delta(delta, h)
}

/// The live members recorded for a subject: those of the first entry with
/// that key, or none.
pub open spec fn live_members(live: Seq<(Seq<char>, Seq<Seq<char>>)>, key: Seq<char>) -> Seq<Seq<char>>
    decreases live.len(),
{
    if live.len() == 0 {
        Seq::empty()
    } else if live[0].0 == key {
        live[0].1
    } else {
        live_members(live.drop_first(), key)
    }
}

/// The overlay's caller members: frozen members not defined in a module a
/// changed path defines, then the live members.
pub open spec fn overlay_members(
    us: Seq<UnitModel>,
    frozen: Seq<Seq<char>>,
    delta: Seq<Seq<char>>,
    live: Seq<Seq<char>>,
) -> Seq<Seq<char>> {
    frozen.filter(|m: Seq<char>| !superseded(us, delta, m)) + live
}

/// The live call entries as text.
pub open spec fn live_view(v: Seq<(String, Vec<String>)>) -> Seq<(Seq<char>, Seq<Seq<char>>)> {
    v.map_values(|e: (String, Vec<String>)| (e.0@, views(e.1@)))
}

/// A semantic source backed by the frozen graph plus live syntactic
/// evidence over the current tree: the provisional overlay for mid-task
/// navigation. Caller members defined in files the delta touched are
/// superseded by the live call graph (a member's defining module is its
/// longest dotted prefix that a changed path or an indexed unit names);
/// everything it serves is provisional.
pub struct OverlaySemanticSource<'a> {
    syntactic: SyntacticSource<'a>,
    graph: &'a ScipGraph,
    delta_paths: Vec<String>,
    live_calls: Vec<(String, Vec<String>)>,
}

impl<'a> OverlaySemanticSource<'a> {
    /// Compose the frozen graph with the live delta view: the paths the
    /// reconcile delta touched, and the live call graph (caller members by
    /// dotted callee).
    pub fn new(graph: &'a ScipGraph, index: &'a PythonSyntaxIndex, delta_paths: Vec<String>, live_calls: Vec<(String, Vec<String>)>) -> (r: Self)
        ensures
            r.index_view() == *index,
            r.graph_view() == *graph,
            r.delta_view() == views(delta_paths@),
            r.live_view() == live_view(live_calls@),
    {
        OverlaySemanticSource { syntactic: SyntacticSource::new(index), graph, delta_paths, live_calls }
    }

    /// The units of the wrapped index.
    pub closed spec fn index_view(&self) -> PythonSyntaxIndex {
        self.syntactic.index_view()
    }

    /// The frozen graph.
    pub closed spec fn graph_view(&self) -> ScipGraph {
        *self.graph
    }

    /// The changed paths.
    pub closed spec fn delta_view(&self) -> Seq<Seq<char>> {
        views(self.delta_paths@)
    }

    /// The live call graph.
    pub closed spec fn live_view(&self) -> Seq<(Seq<char>, Seq<Seq<char>>)> {
        live_view(self.live_calls@)
    }

    fn delta_modules(&self) -> (r: Vec<String>)
        ensures
            forall|m: Seq<char>| views(r@).contains(m) <==> in_delta(self.delta_view(), m),
    {
        let ghost dv = self.delta_view();
        let mut out: Vec<String> = Vec::new();
        let mut i: usize = 0;
        while i < self.delta_paths.len()
            invariant
                i <= self.delta_paths@.len(),
                dv == views(self.delta_paths@),
                forall|m: Seq<char>| views(out@).contains(m) <==> exists|k: int| 0 <= k < i && #[trigger] delta_module(dv[k]) == Some(m),
            decreases self.delta_paths.len() - i,
        {
            let ghost pre = out@;
            let cs = chars_of(self.delta_paths[i].as_str());
            let py: Vec<char> = vec!['.', 'p', 'y'];
            proof {
                reveal_strlit(".py");
                assert(py@ =~= ".py"@);
            }
            if chars_end_with(&cs, py.as_slice()) {
                let mut d: Vec<char> = Vec::new();
                let mut k: usize = 0;
                while k < cs.len() - 3
                    invariant
                        k <= cs@.len() - 3,
                        cs@.len() >= 3,
                        d@ == slashes_to_dots(cs@.subrange(0, k as int)),
                    decreases cs.len() - 3 - k,
                {
                    d.push(if cs[k] == '/' { '.' } else { cs[k] });
                    assert(slashes_to_dots(cs@.subrange(0, k + 1)) =~= slashes_to_dots(cs@.subrange(0, k as int)).push(
                        if cs@[k as int] == '/' { '.' } else { cs@[k as int] },
                    ));
                    k = k + 1;
                }
                let init: Vec<char> = vec!['.', '_', '_', 'i', 'n', 'i', 't', '_', '_'];
                proof {
                    reveal_strlit(".__init__");
                    assert(init@ =~= ".__init__"@);
                }
                let m = if chars_end_with(&d, init.as_slice()) {
                    string_of_chars(&d.as_slice()[0..d.len() - 9])
                } else {
                    string_of_chars(d.as_slice())
                };
                proof {
                    assert(delta_module(dv[i as int]) == Some(m@));
                }
                out.push(m);
                proof {
                    crate::order::lemma_views_push(pre, m);
                    assert forall|x: Seq<char>| views(out@).contains(x) <==> exists|k: int| 0 <= k < i + 1 && #[trigger] delta_module(dv[k]) == Some(x) by {
                        if x == m@ {
                            assert(views(out@)[views(out@).len() - 1] == x);
                        }
                        if views(pre).contains(x) {
                            let j = choose|j: int| 0 <= j < views(pre).len() && views(pre)[j] == x;
                            assert(views(out@)[j] == x);
                        }
                        if views(out@).contains(x) && x != m@ {
                            let j = choose|j: int| 0 <= j < views(out@).len() && views(out@)[j] == x;
                            assert(j < views(pre).len());
                            assert(views(pre)[j] == x);
                        }
                    }
                }
            } else {
                proof {
                    assert(delta_module(dv[i as int]) is None);
                    assert forall|x: Seq<char>| views(out@).contains(x) <==> exists|k: int| 0 <= k < i + 1 && #[trigger] delta_module(dv[k]) == Some(x) by {
                        if exists|k: int| 0 <= k < i + 1 && #[trigger] delta_module(dv[k]) == Some(x) {
                            let k = choose|k: int| 0 <= k < i + 1 && #[trigger] delta_module(dv[k]) == Some(x);
                            assert(k < i);
                        }
                    }
                }
            }
            i = i + 1;
        }
        out
    }

    /// Whether a frozen member is superseded, given the modules the changed
    /// paths define.
    fn member_superseded(&self, delta: &[String], m: &str) -> (r: bool)
        requires
            forall|x: Seq<char>| views(delta@).contains(x) <==> in_delta(self.delta_view(), x),
        ensures
            r == superseded(self.index_view()@, self.delta_view(), m@),
    {
        let ghost us = self.index_view()@;
        let ghost dv = self.delta_view();
        let cs = chars_of(m);
        let mut p: usize = cs.len();
        while p > 0
            invariant
                p <= cs@.len(),
                cs@ == m@,
                us == self.index_view()@,
                dv == self.delta_view(),
                forall|x: Seq<char>| views(delta@).contains(x) <==> in_delta(dv, x),
                member_home(us, dv, m@) == home_at(us, dv, m@, p as int),
            decreases p,
        {
            if p == cs.len() || cs[p] == '.' {
                let prefix = string_of_chars(&cs.as_slice()[0..p]);
                proof {
                    assert(cs@.subrange(0, p as int) == prefix@);
                }
                let changed = contains_string(delta, prefix.as_str());
                if changed || self.syntactic.index.indexes_module(prefix.as_str()) {
                    return changed;
                }
            }
            p = p - 1;
        }
        false
    }

    fn live_for(&self, key: &str) -> (r: Vec<String>)
        ensures
            views(r@) == live_members(self.live_view(), key@),
    {
        let ghost lv = self.live_view();
        let mut i: usize = 0;
        proof {
            assert(lv.subrange(0, lv.len() as int) =~= lv);
        }
        while i < self.live_calls.len()
            invariant
                i <= self.live_calls@.len(),
                lv == live_view(self.live_calls@),
                live_members(lv, key@) == live_members(lv.subrange(i as int, lv.len() as int), key@),
            decreases self.live_calls.len() - i,
        {
            let ghost rest = lv.subrange(i as int, lv.len() as int);
            proof {
                assert(rest.drop_first() =~= lv.subrange(i + 1, lv.len() as int));
                assert(rest[0] == (self.live_calls@[i as int].0@, views(self.live_calls@[i as int].1@)));
            }
            if crate::text::str_eq(self.live_calls[i].0.as_str(), key) {
                return crate::coverage::clone_strings(self.live_calls[i].1.as_slice());
            }
            i = i + 1;
        }
        proof {
            assert(lv.subrange(i as int, lv.len() as int) =~= Seq::<(Seq<char>, Seq<Seq<char>>)>::empty());
        }
        Vec::new()
    }

    fn overlay_callers(&self, subject: &str) -> (r: String)
        ensures
            exists|set: Seq<Seq<char>>|
                canonical_set_of::<String>(
                    set,
                    overlay_members(
                        self.index_view()@,
                        members_of(self.graph_view().callers@, subject@),
                        self.delta_view(),
                        live_members(self.live_view(), subject@),
                    ),
                ) && r@ == join_with(set, "; "@),
    {
        let delta = self.delta_modules();
        let frozen = self.graph.callers.members(subject);
        let ghost fv = views(frozen@);
        let ghost keep = |m: Seq<char>| !superseded(self.index_view()@, self.delta_view(), m);
        let mut members: Vec<String> = Vec::new();
        let mut i: usize = 0;
        while i < frozen.len()
            invariant
                i <= frozen@.len(),
                fv == views(frozen@),
                keep == (|m: Seq<char>| !superseded(self.index_view()@, self.delta_view(), m)),
                forall|m: Seq<char>| views(delta@).contains(m) <==> in_delta(self.delta_view(), m),
                views(members@) == fv.subrange(0, i as int).filter(keep),
            decreases frozen.len() - i,
        {
            let ghost pre = members@;
            proof {
                crate::order::lemma_filter_push(fv.subrange(0, i as int), keep, fv[i as int]);
                assert(fv.subrange(0, i as int).push(fv[i as int]) =~= fv.subrange(0, i + 1));
            }
            if !self.member_superseded(delta.as_slice(), frozen[i].as_str()) {
                let m = frozen[i].clone();
                members.push(m);
                proof {
                    crate::order::lemma_views_push(pre, m);
                }
            }
            i = i + 1;
        }
        assert(fv.subrange(0, fv.len() as int) =~= fv);
        let live = self.live_for(subject);
        let ghost before = views(members@);
        let mut live_mut = live;
        let ghost lv = views(live_mut@);
        members.append(&mut live_mut);
        assert(views(members@) =~= before + lv);
        let set = canonical_set(members);
        join_strings_pub(&set, "; ")
    }
}

/// The module a member is defined in.
/// The last dot of a text is the one before a dot-free tail.
pub proof fn lemma_last_dot(s: Seq<char>, i: int)
    requires
        0 <= i <= s.len(),
        forall|k: int| i <= k < s.len() ==> s[k] != '.',
        i > 0 ==> s[i - 1] == '.',
    ensures
        last_dot(s) == i - 1,
    decreases s.len(),
{
    if s.len() > 0 && s.last() != '.' {
        let d = s.drop_last();
        lemma_last_dot(d, if i == s.len() { 0 } else { i });
        if i == s.len() {
            assert(i == 0);
        }
    } else if s.len() > 0 {
        assert(i == s.len());
    }
}

impl<'a> ReevaluationSource for OverlaySemanticSource<'a> {
    fn evaluate(&self, projection: &Projection) -> (r: Result<Option<Evaluated>, TransitionError>)
        ensures
            r matches Ok(e) && match projection@.kind {
                ProjectionKind::Callers => e matches Some(x) && !x@.1 && exists|set: Seq<Seq<char>>|
                    canonical_set_of::<String>(
                        set,
                        overlay_members(
                            self.index_view()@,
                            members_of(self.graph_view().callers@, subject_text(projection@.subject)),
                            self.delta_view(),
                            live_members(self.live_view(), subject_text(projection@.subject)),
                        ),
                    ) && x@.0 == join_with(set, "; "@),
                ProjectionKind::Implementations => e matches Some(x) && !x@.1 && x@.0 == join_with(
                    members_of(self.graph_view().implementations@, subject_text(projection@.subject)),
                    "; "@,
                ),
                _ => syntactic_answer(self.index_view(), *projection, eval_value(e)) && (e matches Some(x) ==> x@.1),
            },
    {
        match projection.kind() {
            ProjectionKind::Callers => {
                let v = self.overlay_callers(projection.subject().canonical());
                Ok(Some(Evaluated::new(v.as_str(), false)))
            },
            ProjectionKind::Implementations => {
                let v = self.graph.implementations_value(projection.subject().canonical());
                Ok(Some(Evaluated::new(v.as_str(), false)))
            },
            _ => Ok(self.syntactic.eval(projection)),
        }
    }
}

} // verus!
