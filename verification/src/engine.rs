//! The recursive analysis engine.
//!
//! A request expands a seed term depth-first over a snapshot of fetched
//! pages: classify and decompose the page text, merge the two principle
//! lists, extract related concepts and recurse into those not already on the
//! current path. Whole subtrees are memoized in the cache under a key
//! derived from the request parameters.

use vstd::prelude::*;

verus! {

use vstd::string::StringExecFns;
use crate::analyzer::{EngineeringAnalyzer, AnalyzerV, analyze_page_spec, related_concepts_of};
use crate::semantic_analyzer::{SemanticAnalyzer, SemV, decompose_spec, decomp_principles_spec};
use crate::outside::lower_of;
use crate::types::{
    AnalysisNode,
    AnalysisResult,
    EngineeringPrinciple,
    NodeV,
    PageV,
    PrincipleV,
    SearchRequest,
    SearchSuggestion,
    WikiEngineError,
    WikipediaPage,
};
use crate::text::{token_sim_gt, count_in};

/// A snapshot of fetch results: for each term either a page or the record
/// that no page exists. The expansion consults only this snapshot; terms
/// absent from it count as missing content.
pub struct PageStore {
    entries: Vec<(String, Option<WikipediaPage>)>,
}

/// The image of one fetch result.
pub open spec fn opt_page_v(p: Option<WikipediaPage>) -> Option<PageV> {
    match p {
        Some(page) => Some(page@),
        None => None,
    }
}

/// The first snapshot entry for a term, if any.
pub open spec fn page_lookup(s: Seq<(Seq<char>, Option<PageV>)>, k: Seq<char>) -> Option<
    Option<PageV>,
>
    decreases s.len(),
{
    if s.len() == 0 {
        None
    } else if s[0].0 == k {
        Some(s[0].1)
    } else {
        page_lookup(s.drop_first(), k)
    }
}

impl PageStore {
    /// The snapshot's entries, in insertion order.
    pub closed spec fn entries_s(self) -> Seq<(Seq<char>, Option<PageV>)> {
        Seq::new(
            self.entries@.len(),
            |i: int| (self.entries@[i].0@, opt_page_v(self.entries@[i].1)),
        )
    }

    /// An empty snapshot.
    pub fn new() -> (r: Self)
        ensures
            r.entries_s().len() == 0,
    {
        let r = PageStore { entries: Vec::new() };
        proof {
            assert(r.entries_s() =~= Seq::<(Seq<char>, Option<PageV>)>::empty());
        }
        r
    }

    /// Records a fetch result; an earlier record for the same term is left
    /// in place and keeps priority.
    pub fn insert(&mut self, term: String, page: Option<WikipediaPage>)
        ensures
            final(self).entries_s() == old(self).entries_s().push((term@, opt_page_v(page))),
    {
        let ghost pre = self.entries_s();
        self.entries.push((term, page));
        proof {
            assert(self.entries_s() =~= pre.push(
                (self.entries@.last().0@, opt_page_v(self.entries@.last().1)),
            ));
        }
    }

    /// Finds the first record for a term.
    pub fn lookup(&self, term: &str) -> (r: Option<&Option<WikipediaPage>>)
        ensures
            match page_lookup(self.entries_s(), term@) {
                None => r is None,
                Some(pv) => r matches Some(p) && opt_page_v(*p) == pv,
            },
    {
        let ghost sv = self.entries_s();
        let mut i: usize = 0;
        proof {
            lemma_page_lookup(sv, term@);
        }
        while i < self.entries.len()
            invariant
                i <= sv.len(),
                sv == self.entries_s(),
                forall|k: int| 0 <= k < i ==> (#[trigger] sv[k]).0 != term@,
            decreases sv.len() - i,
        {
            let entry = &self.entries[i];
            proof {
                assert(sv[i as int].0 == entry.0@);
                assert(sv[i as int].1 == opt_page_v(entry.1));
            }
            if crate::text::str_eq(entry.0.as_str(), term) {
                proof {
                    lemma_page_lookup(sv, term@);
                }
                return Some(&entry.1);
            }
            i = i + 1;
        }
        proof {
            lemma_page_lookup(sv, term@);
        }
        None
    }

    /// How many fetch results the snapshot holds.
    pub fn len(&self) -> (r: usize)
        ensures
            r == self.entries_s().len(),
    {
        self.entries.len()
    }
}

/// What [`page_lookup`] returns: the first matching entry, or nothing when
/// no key matches.
pub proof fn lemma_page_lookup(s: Seq<(Seq<char>, Option<PageV>)>, k: Seq<char>)
    ensures
        page_lookup(s, k) is None ==> forall|i: int|
            0 <= i < s.len() ==> (#[trigger] s[i]).0 != k,
        page_lookup(s, k) matches Some(pv) ==> exists|i: int|
            0 <= i < s.len() && (#[trigger] s[i]).0 == k && s[i].1 == pv && forall|j: int|
                0 <= j < i ==> s[j].0 != k,
    decreases s.len(),
{
    if s.len() > 0 && s[0].0 != k {
        lemma_page_lookup(s.drop_first(), k);
        if page_lookup(s, k) is None {
            assert forall|i: int| 0 <= i < s.len() implies (#[trigger] s[i]).0 != k by {
                if i > 0 {
                    assert(s.drop_first()[i - 1].0 != k);
                }
            }
        }
        if page_lookup(s, k) is Some {
            let pv = page_lookup(s, k).unwrap();
            let i = choose|i: int|
                0 <= i < s.drop_first().len() && (#[trigger] s.drop_first()[i]).0 == k
                    && s.drop_first()[i].1 == pv && forall|j: int|
                    0 <= j < i ==> s.drop_first()[j].0 != k;
            assert(s[i + 1].0 == k && s[i + 1].1 == pv);
            assert forall|j: int| 0 <= j < i + 1 implies (#[trigger] s[j]).0 != k by {
                if j > 0 {
                    assert(s.drop_first()[j - 1].0 != k);
                }
            }
        }
    }
}

/// Whether the ratio of shared related terms strictly exceeds a half.
pub open spec fn rel_terms_share_gt(a: Seq<Seq<char>>, b: Seq<Seq<char>>) -> bool {
    a.len() + b.len() > 0 && 2 * count_in(a, b) > a.len() + b.len()
}

/// Whether two principles count as duplicates: title token similarity over
/// seven tenths, or description token similarity over three fifths, or a
/// shared-related-terms ratio over a half; text is compared lowercased.
pub open spec fn principles_similar_spec(a: PrincipleV, b: PrincipleV) -> bool {
    ||| token_sim_gt(lower_of(a.title), lower_of(b.title), 7, 10)
    ||| token_sim_gt(lower_of(a.description), lower_of(b.description), 3, 5)
    ||| rel_terms_share_gt(a.related_terms, b.related_terms)
}

/// Decides [`principles_similar_spec`].
pub fn principles_similar(p1: &EngineeringPrinciple, p2: &EngineeringPrinciple) -> (r: bool)
    ensures
        r == principles_similar_spec(p1@, p2@),
{
    let t1 = crate::outside::lowercase(p1.title.as_str());
    let t2 = crate::outside::lowercase(p2.title.as_str());
    if crate::text::sim_exceeds(t1.as_str(), t2.as_str(), 7, 10) {
        return true;
    }
    let d1 = crate::outside::lowercase(p1.description.as_str());
    let d2 = crate::outside::lowercase(p2.description.as_str());
    if crate::text::sim_exceeds(d1.as_str(), d2.as_str(), 3, 5) {
        return true;
    }
    let common = crate::text::count_contained(&p1.related_terms, &p2.related_terms);
    let total: u128 = p1.related_terms.len() as u128 + p2.related_terms.len() as u128;
    total > 0 && 2 * (common as u128) > total
}

/// The merge walk: classifier principles join the decomposer's list only
/// when similar to none already combined.
pub open spec fn merge_walk(s: Seq<PrincipleV>, acc: Seq<PrincipleV>) -> Seq<PrincipleV>
    decreases s.len(),
{
    if s.len() == 0 {
        acc
    } else if exists|k: int|
        0 <= k < acc.len() && principles_similar_spec(s[0], #[trigger] acc[k]) {
        merge_walk(s.drop_first(), acc)
    } else {
        merge_walk(s.drop_first(), acc.push(s[0]))
    }
}

/// The first `n` principles (all of them when fewer).
pub open spec fn take_principles(s: Seq<PrincipleV>, n: int) -> Seq<PrincipleV> {
    if s.len() <= n {
        s
    } else {
        s.take(n)
    }
}

/// The merged principle set of a page: decomposer output first, dissimilar
/// classifier output appended, ranked by confidence and capped at eight.
pub open spec fn merged_spec(sem: Seq<PrincipleV>, reg: Seq<PrincipleV>) -> Seq<PrincipleV> {
    take_principles(crate::types::sort_desc_p(merge_walk(reg, sem)), 8)
}

/// Merges the two principle lists of one page.
pub fn merge_principles(sem: Vec<EngineeringPrinciple>, reg: Vec<EngineeringPrinciple>) -> (r: Vec<
    EngineeringPrinciple,
>)
    ensures
        r.deep_view() == merged_spec(sem.deep_view(), reg.deep_view()),
{
    let ghost semv = sem.deep_view();
    let ghost regv = reg.deep_view();
    let mut combined = sem;
    let mut rest = reg;
    let ghost done: int = 0;
    proof {
        assert(rest.deep_view() =~= regv.skip(0));
        assert(merge_walk(regv, semv) == merge_walk(regv.skip(0), combined.deep_view()));
    }
    while rest.len() > 0
        invariant
            0 <= done <= regv.len(),
            rest.deep_view() =~= regv.skip(done),
            merge_walk(regv, semv) == merge_walk(regv.skip(done), combined.deep_view()),
        decreases rest@.len(),
    {
        let ghost pre_rest = rest.deep_view();
        let x = rest.remove(0);
        proof {
            assert(rest.deep_view() =~= pre_rest.drop_first());
            assert(rest.deep_view() =~= regv.skip(done + 1));
            assert(x.deep_view() == pre_rest[0]);
            assert(pre_rest[0] == regv.skip(done)[0]);
        }
        let mut dup = false;
        let mut m: usize = 0;
        while m < combined.len()
            invariant
                m <= combined@.len(),
                !dup ==> forall|k: int|
                    0 <= k < m ==> !principles_similar_spec(
                        x@,
                        #[trigger] combined.deep_view()[k],
                    ),
                dup ==> exists|k: int|
                    0 <= k < combined.deep_view().len() && principles_similar_spec(
                        x@,
                        #[trigger] combined.deep_view()[k],
                    ),
            decreases combined@.len() - m,
        {
            if principles_similar(&x, &combined[m]) {
                proof {
                    assert(combined.deep_view()[m as int] == combined@[m as int]@);
                }
                dup = true;
                m = combined.len();
            } else {
                m = m + 1;
            }
        }
        if !dup {
            let ghost pre = combined.deep_view();
            combined.push(x);
            proof {
                assert(combined.deep_view() =~= pre.push(pre_rest[0]));
            }
        }
        proof {
            done = done + 1;
        }
    }
    proof {
        assert(regv.skip(done) =~= Seq::<PrincipleV>::empty());
        assert(combined.deep_view() == merge_walk(regv, semv));
    }
    let ghost walked = combined.deep_view();
    let mut out = crate::types::sort_principles_desc(combined);
    let ghost sortedv = out.deep_view();
    if out.len() > 8 {
        out.truncate(8);
        proof {
            assert(out.deep_view() =~= sortedv.take(8));
        }
    }
    out
}

/// An empty leaf node: the recursion's base case and cycle guard.
pub open spec fn leaf_node(term: Seq<char>, depth: u8) -> NodeV {
    NodeV {
        term,
        principles: Seq::<PrincipleV>::empty(),
        children: Seq::<NodeV>::empty(),
        depth,
        processing_time_ms: 0,
    }
}

/// What the depth-first expansion yields at `(term, depth)`: an empty leaf
/// on a revisited term, at the depth bound or on missing content; otherwise
/// the page's merged principles and one subtree per eligible related
/// concept.
pub open spec fn analyze_node_spec(
    a: AnalyzerV,
    v: SemV,
    term: Seq<char>,
    depth: u8,
    max_depth: u8,
    max_results: u8,
    visited: Seq<Seq<char>>,
    pages: Seq<(Seq<char>, Option<PageV>)>,
) -> NodeV
    decreases max_depth - depth, 1int, 0int,
{
    if visited.contains(term) || depth >= max_depth {
        leaf_node(term, depth)
    } else {
        match page_lookup(pages, term) {
            Some(Some(page)) => {
                let principles = merged_spec(
                    decomp_principles_spec(decompose_spec(v, lower_of(page.title)), page.url),
                    analyze_page_spec(a, page),
                );
                let concepts = crate::analyzer::take_at_most(
                    related_concepts_of(a, page.extract),
                    max_results as int,
                );
                NodeV {
                    term,
                    principles,
                    children: children_spec(
                        a,
                        v,
                        concepts,
                        (depth + 1) as u8,
                        max_depth,
                        max_results,
                        visited.push(term),
                        pages,
                    ),
                    depth,
                    processing_time_ms: 0,
                }
            },
            _ => leaf_node(term, depth),
        }
    }
}

/// The subtrees of the eligible concepts, in extraction order; a concept
/// already on the path contributes nothing.
pub open spec fn children_spec(
    a: AnalyzerV,
    v: SemV,
    concepts: Seq<Seq<char>>,
    depth: u8,
    max_depth: u8,
    max_results: u8,
    visited: Seq<Seq<char>>,
    pages: Seq<(Seq<char>, Option<PageV>)>,
) -> Seq<NodeV>
    decreases max_depth - depth + 1, 0int, concepts.len(),
{
    if concepts.len() == 0 || depth > max_depth {
        Seq::<NodeV>::empty()
    } else {
        let rest = children_spec(
            a,
            v,
            concepts.drop_first(),
            depth,
            max_depth,
            max_results,
            visited,
            pages,
        );
        if visited.contains(concepts[0]) {
            rest
        } else {
            seq![
                analyze_node_spec(a, v, concepts[0], depth, max_depth, max_results, visited, pages),
            ] + rest
        }
    }
}

/// Structural guarantees of the expansion: the requested term and depth at
/// the root, depths counting the distance from the root, the overall depth
/// within the request bound, at most `max_results` children per node, and
/// cycle freedom along every path.
pub proof fn lemma_analyze_spec_props(
    a: AnalyzerV,
    v: SemV,
    term: Seq<char>,
    depth: u8,
    max_depth: u8,
    max_results: u8,
    visited: Seq<Seq<char>>,
    pages: Seq<(Seq<char>, Option<PageV>)>,
)
    requires
        depth <= max_depth,
    ensures
        ({
            let n = analyze_node_spec(a, v, term, depth, max_depth, max_results, visited, pages);
            &&& n.term == term
            &&& n.depth == depth
            &&& crate::types::depths_from(n, depth as int)
            &&& crate::types::max_depth_v(n) <= max_depth
            &&& n.children.len() <= max_results
            &&& (!visited.contains(term) ==> crate::types::paths_cycle_free(n, visited.to_set()))
        }),
    decreases max_depth - depth, 1int, 0int,
{
    broadcast use vstd::seq_lib::group_seq_properties;

    let n = analyze_node_spec(a, v, term, depth, max_depth, max_results, visited, pages);
    if visited.contains(term) || depth >= max_depth || !(page_lookup(pages, term) matches Some(
        Some(_),
    ))
    {
        assert(n == leaf_node(term, depth));
        assert(n.children =~= Seq::<NodeV>::empty());
        assert(crate::types::max_depth_seq(n.children) == 0);
        assert(crate::types::depths_from(n, depth as int));
        if !visited.contains(term) {
            assert(!visited.to_set().contains(term));
            assert(crate::types::paths_cycle_free(n, visited.to_set()));
        }
    } else {
        match page_lookup(pages, term) {
            Some(Some(page)) => {
                let concepts = crate::analyzer::take_at_most(
                    related_concepts_of(a, page.extract),
                    max_results as int,
                );
                lemma_children_props(
                    a,
                    v,
                    concepts,
                    (depth + 1) as u8,
                    max_depth,
                    max_results,
                    visited.push(term),
                    pages,
                );
                crate::types::lemma_max_depth_range(n.children);
                crate::types::lemma_forest_depths_from(n.children, depth + 1);
                assert(!visited.push(term).contains(term) || visited.push(term).contains(term));
                assert(n.children == children_spec(
                    a,
                    v,
                    concepts,
                    (depth + 1) as u8,
                    max_depth,
                    max_results,
                    visited.push(term),
                    pages,
                ));
                if !visited.contains(term) {
                    assert(!visited.to_set().contains(term));
                    assert(visited.push(term).to_set() =~= visited.to_set().insert(term)) by {
                        assert forall|x: Seq<char>|
                            visited.push(term).to_set().contains(x) == visited.to_set().insert(
                            term,
                        ).contains(x) by {
                            assert(visited.push(term).to_set().contains(x) == visited.push(
                                term,
                            ).contains(x));
                            assert(visited.to_set().contains(x) == visited.contains(x));
                        }
                    }
                    assert forall|i: int| 0 <= i < n.children.len() implies
                        #[trigger] crate::types::paths_cycle_free(
                        n.children[i],
                        visited.to_set().insert(n.term),
                    ) by {
                        assert(crate::types::paths_cycle_free(
                            n.children[i],
                            visited.push(term).to_set(),
                        ));
                    }
                    crate::types::lemma_cycle_free_intro(n, visited.to_set());
                }
            },
            _ => {
                assert(crate::types::max_depth_seq(n.children) == 0);
            },
        }
    }
}

/// Structural guarantees of a child forest: every subtree carries the
/// child depth, stays within the bound, and is cycle-free against the
/// extended path.
pub proof fn lemma_children_props(
    a: AnalyzerV,
    v: SemV,
    concepts: Seq<Seq<char>>,
    depth: u8,
    max_depth: u8,
    max_results: u8,
    visited: Seq<Seq<char>>,
    pages: Seq<(Seq<char>, Option<PageV>)>,
)
    requires
        depth <= max_depth,
    ensures
        ({
            let f = children_spec(a, v, concepts, depth, max_depth, max_results, visited, pages);
            &&& f.len() <= concepts.len()
            &&& crate::types::max_depth_seq(f) <= max_depth
            &&& forall|i: int|
                0 <= i < f.len() ==> #[trigger] crate::types::depths_from(f[i], depth as int)
            &&& forall|i: int|
                0 <= i < f.len() ==> #[trigger] crate::types::paths_cycle_free(
                    f[i],
                    visited.to_set(),
                )
        }),
    decreases max_depth - depth + 1, 0int, concepts.len(),
{
    let f = children_spec(a, v, concepts, depth, max_depth, max_results, visited, pages);
    if concepts.len() == 0 || depth > max_depth {
        assert(crate::types::max_depth_seq(f) == 0);
    } else {
        let rest = children_spec(
            a,
            v,
            concepts.drop_first(),
            depth,
            max_depth,
            max_results,
            visited,
            pages,
        );
        lemma_children_props(
            a,
            v,
            concepts.drop_first(),
            depth,
            max_depth,
            max_results,
            visited,
            pages,
        );
        if visited.contains(concepts[0]) {
        } else {
            lemma_analyze_spec_props(
                a,
                v,
                concepts[0],
                depth,
                max_depth,
                max_results,
                visited,
                pages,
            );
            let head = analyze_node_spec(
                a,
                v,
                concepts[0],
                depth,
                max_depth,
                max_results,
                visited,
                pages,
            );
            assert(f =~= seq![head] + rest);
            crate::types::lemma_max_depth_facts(seq![head], rest);
            assert(crate::types::max_depth_seq(seq![head]) == crate::types::max_depth_v(head))
                by {
                let one = seq![head];
                assert(one.len() == 1);
                assert(one[0] == head);
                assert(one.drop_first() =~= Seq::<NodeV>::empty());
                assert(crate::types::max_depth_seq(one.drop_first()) == 0);
                crate::types::lemma_max_depth_range(head.children);
                assert(crate::types::max_depth_seq(one) == vstd::math::max(
                    vstd::math::max(
                        one[0].depth as int,
                        crate::types::max_depth_seq(one[0].children),
                    ),
                    crate::types::max_depth_seq(one.drop_first()),
                ));
            }
            assert forall|i: int| 0 <= i < f.len() implies #[trigger] crate::types::depths_from(
                f[i],
                depth as int,
            ) by {
                if i == 0 {
                    assert(f[0] == head);
                } else {
                    assert(f[i] == rest[i - 1]);
                }
            }
            assert forall|i: int| 0 <= i < f.len() implies
                #[trigger] crate::types::paths_cycle_free(f[i], visited.to_set()) by {
                if i == 0 {
                    assert(f[0] == head);
                    assert(!visited.contains(concepts[0]));
                    assert(!visited.to_set().contains(concepts[0]));
                } else {
                    assert(f[i] == rest[i - 1]);
                }
            }
        }
    }
}

/// An empty leaf node for `(term, depth)`.
fn make_leaf(term: &str, depth: u8) -> (r: AnalysisNode)
    ensures
        r@ == leaf_node(term@, depth),
{
    let r = AnalysisNode {
        term: String::from_str(term),
        principles: Vec::new(),
        children: Vec::new(),
        depth,
        processing_time_ms: 0,
    };
    proof {
        assert(r.principles.deep_view() =~= Seq::<PrincipleV>::empty());
        assert(crate::types::forest_v(r.children@) =~= Seq::<NodeV>::empty());
    }
    r
}

/// The depth-first expansion of one term over the snapshot. The path-visited
/// list is extended for the children and restored before returning.
fn analyze_term_recursive(
    analyzer: &EngineeringAnalyzer,
    semantic: &SemanticAnalyzer,
    term: &str,
    current_depth: u8,
    max_depth: u8,
    max_results: u8,
    visited: &mut Vec<String>,
    pages: &PageStore,
) -> (r: AnalysisNode)
    requires
        analyzer.wf(),
        semantic.wf(),
        current_depth <= max_depth,
    ensures
        final(visited).deep_view() == old(visited).deep_view(),
        r@ == analyze_node_spec(
            analyzer@,
            semantic@,
            term@,
            current_depth,
            max_depth,
            max_results,
            old(visited).deep_view(),
            pages.entries_s(),
        ),
    decreases max_depth - current_depth,
{
    let ghost vis0 = visited.deep_view();
    if crate::text::vec_contains_str(visited, term) || current_depth >= max_depth {
        return make_leaf(term, current_depth);
    }
    let looked = pages.lookup(term);
    let page: &WikipediaPage = match looked {
        None => {
            return make_leaf(term, current_depth);
        },
        Some(opt) => match opt {
            None => {
                proof {
                    assert(page_lookup(pages.entries_s(), term@).unwrap() == opt_page_v(*opt));
                }
                return make_leaf(term, current_depth);
            },
            Some(p) => p,
        },
    };
    proof {
        assert(page_lookup(pages.entries_s(), term@) == Some(Some(page@)));
    }
    let sem_ps = match semantic.analyze_page_semantically(page) {
        Ok(v) => v,
        Err(_) => {
            proof {
                assert(false);
            }
            return make_leaf(term, current_depth);
        },
    };
    let reg_ps = match analyzer.analyze_page(page) {
        Ok(v) => v,
        Err(_) => {
            proof {
                assert(false);
            }
            return make_leaf(term, current_depth);
        },
    };
    let combined = merge_principles(sem_ps, reg_ps);
    let mut concepts = analyzer.extract_related_concepts(page);
    let ghost full_concepts = concepts.deep_view();
    if concepts.len() > max_results as usize {
        concepts.truncate(max_results as usize);
        proof {
            assert(concepts.deep_view() =~= full_concepts.take(max_results as int));
        }
    }
    let ghost conceptsv = crate::analyzer::take_at_most(
        related_concepts_of(analyzer@, page@.extract),
        max_results as int,
    );
    proof {
        assert(concepts.deep_view() =~= conceptsv);
    }
    visited.push(String::from_str(term));
    let ghost vis2 = vis0.push(term@);
    proof {
        assert(visited.deep_view() =~= vis2);
    }
    let ghost av = analyzer@;
    let ghost sv = semantic@;
    let ghost pv = pages.entries_s();
    let ghost child_depth: u8 = (current_depth + 1) as u8;
    let mut kids: Vec<AnalysisNode> = Vec::new();
    let mut i: usize = 0;
    proof {
        assert(crate::types::forest_v(kids@) =~= Seq::<NodeV>::empty());
        assert(conceptsv.skip(0) =~= conceptsv);
        assert(crate::types::forest_v(kids@) + children_spec(
            av,
            sv,
            conceptsv,
            child_depth,
            max_depth,
            max_results,
            vis2,
            pv,
        ) =~= children_spec(av, sv, conceptsv, child_depth, max_depth, max_results, vis2, pv));
    }
    while i < concepts.len()
        invariant
            i <= conceptsv.len(),
            conceptsv == concepts.deep_view(),
            analyzer.wf(),
            semantic.wf(),
            current_depth < max_depth,
            child_depth == current_depth + 1,
            av == analyzer@,
            sv == semantic@,
            pv == pages.entries_s(),
            visited.deep_view() == vis2,
            crate::types::forest_v(kids@) + children_spec(
                av,
                sv,
                conceptsv.skip(i as int),
                child_depth,
                max_depth,
                max_results,
                vis2,
                pv,
            ) == children_spec(
                av,
                sv,
                conceptsv,
                child_depth,
                max_depth,
                max_results,
                vis2,
                pv,
            ),
        decreases conceptsv.len() - i,
    {
        proof {
            assert(conceptsv.skip(i as int)[0] == conceptsv[i as int]);
            assert(conceptsv.skip(i as int).drop_first() =~= conceptsv.skip((i + 1) as int));
            assert(concepts.deep_view()[i as int] == concepts@[i as int]@);
        }
        let c = &concepts[i];
        if !crate::text::vec_contains_str(visited, c.as_str()) {
            let child = analyze_term_recursive(
                analyzer,
                semantic,
                c.as_str(),
                current_depth + 1,
                max_depth,
                max_results,
                visited,
                pages,
            );
            let ghost pre_forest = crate::types::forest_v(kids@);
            let ghost pre_kids = kids@;
            kids.push(child);
            proof {
                crate::types::lemma_forest_v(pre_kids);
                crate::types::lemma_forest_v(kids@);
                assert(crate::types::forest_v(kids@) =~= pre_forest.push(child@)) by {
                    assert forall|k: int|
                        0 <= k < kids@.len() implies crate::types::forest_v(kids@)[k]
                        == pre_forest.push(child@)[k] by {
                        assert(crate::types::forest_v(kids@)[k] == kids@[k]@);
                        if k < pre_kids.len() {
                            assert(kids@[k] == pre_kids[k]);
                            assert(crate::types::forest_v(pre_kids)[k] == pre_kids[k]@);
                        } else {
                            assert(kids@[k] == child);
                        }
                    }
                }
                assert(children_spec(
                    av,
                    sv,
                    conceptsv.skip(i as int),
                    child_depth,
                    max_depth,
                    max_results,
                    vis2,
                    pv,
                ) == seq![child@] + children_spec(
                    av,
                    sv,
                    conceptsv.skip((i + 1) as int),
                    child_depth,
                    max_depth,
                    max_results,
                    vis2,
                    pv,
                ));
                assert(pre_forest.push(child@) + children_spec(
                    av,
                    sv,
                    conceptsv.skip((i + 1) as int),
                    child_depth,
                    max_depth,
                    max_results,
                    vis2,
                    pv,
                ) =~= pre_forest + (seq![child@] + children_spec(
                    av,
                    sv,
                    conceptsv.skip((i + 1) as int),
                    child_depth,
                    max_depth,
                    max_results,
                    vis2,
                    pv,
                )));
            }
        } else {
            proof {
                assert(vis2.contains(conceptsv[i as int]));
            }
        }
        i = i + 1;
    }
    proof {
        assert(conceptsv.skip(conceptsv.len() as int) =~= Seq::<Seq<char>>::empty());
        assert(crate::types::forest_v(kids@) + children_spec(
            av,
            sv,
            conceptsv.skip(conceptsv.len() as int),
            child_depth,
            max_depth,
            max_results,
            vis2,
            pv,
        ) =~= crate::types::forest_v(kids@));
    }
    let ghost pre_pop = visited@;
    visited.pop();
    proof {
        assert(visited@ =~= pre_pop.drop_last());
        assert forall|k: int| 0 <= k < visited@.len() implies visited.deep_view()[k] == vis0[k]
            by {
            assert(visited@[k] == pre_pop[k]);
            assert(vis2[k] == vis0[k]);
        }
        assert(visited.deep_view() =~= vis0);
    }
    let node = AnalysisNode {
        term: String::from_str(term),
        principles: combined,
        children: kids,
        depth: current_depth,
        processing_time_ms: 0,
    };
    proof {
        assert(node@ == analyze_node_spec(
            av,
            sv,
            term@,
            current_depth,
            max_depth,
            max_results,
            vis0,
            pv,
        ));
    }
    node
}

/// The terms the expansion of `(term, depth)` would consult that the
/// snapshot has no record for, in visiting order, possibly with repeats
/// across disjoint branches.
pub open spec fn missing_terms_spec(
    a: AnalyzerV,
    term: Seq<char>,
    depth: u8,
    max_depth: u8,
    max_results: u8,
    visited: Seq<Seq<char>>,
    pages: Seq<(Seq<char>, Option<PageV>)>,
) -> Seq<Seq<char>>
    decreases max_depth - depth, 1int, 0int,
{
    if visited.contains(term) || depth >= max_depth {
        Seq::<Seq<char>>::empty()
    } else {
        match page_lookup(pages, term) {
            None => seq![term],
            Some(None) => Seq::<Seq<char>>::empty(),
            Some(Some(page)) => {
                let concepts = crate::analyzer::take_at_most(
                    related_concepts_of(a, page.extract),
                    max_results as int,
                );
                missing_children_spec(
                    a,
                    concepts,
                    (depth + 1) as u8,
                    max_depth,
                    max_results,
                    visited.push(term),
                    pages,
                )
            },
        }
    }
}

/// The missing terms of the eligible concepts' subtrees, in order.
pub open spec fn missing_children_spec(
    a: AnalyzerV,
    concepts: Seq<Seq<char>>,
    depth: u8,
    max_depth: u8,
    max_results: u8,
    visited: Seq<Seq<char>>,
    pages: Seq<(Seq<char>, Option<PageV>)>,
) -> Seq<Seq<char>>
    decreases max_depth - depth + 1, 0int, concepts.len(),
{
    if concepts.len() == 0 || depth > max_depth {
        Seq::<Seq<char>>::empty()
    } else {
        let rest = missing_children_spec(
            a,
            concepts.drop_first(),
            depth,
            max_depth,
            max_results,
            visited,
            pages,
        );
        if visited.contains(concepts[0]) {
            rest
        } else {
            missing_terms_spec(a, concepts[0], depth, max_depth, max_results, visited, pages)
                + rest
        }
    }
}

/// Collects the missing terms of one subtree.
fn missing_terms_rec(
    analyzer: &EngineeringAnalyzer,
    term: &str,
    current_depth: u8,
    max_depth: u8,
    max_results: u8,
    visited: &mut Vec<String>,
    pages: &PageStore,
    out: &mut Vec<String>,
)
    requires
        analyzer.wf(),
        current_depth <= max_depth,
    ensures
        final(visited).deep_view() == old(visited).deep_view(),
        final(out).deep_view() == old(out).deep_view() + missing_terms_spec(
            analyzer@,
            term@,
            current_depth,
            max_depth,
            max_results,
            old(visited).deep_view(),
            pages.entries_s(),
        ),
    decreases max_depth - current_depth,
{
    let ghost vis0 = visited.deep_view();
    let ghost out0 = out.deep_view();
    if crate::text::vec_contains_str(visited, term) || current_depth >= max_depth {
        proof {
            assert(out.deep_view() =~= out0 + Seq::<Seq<char>>::empty());
        }
        return ;
    }
    let looked = pages.lookup(term);
    let page: &WikipediaPage = match looked {
        None => {
            let ghost pre = out.deep_view();
            out.push(String::from_str(term));
            proof {
                assert(out.deep_view() =~= pre + seq![term@]);
            }
            return ;
        },
        Some(opt) => match opt {
            None => {
                proof {
                    assert(page_lookup(pages.entries_s(), term@).unwrap() == opt_page_v(*opt));
                    assert(out.deep_view() =~= out0 + Seq::<Seq<char>>::empty());
                }
                return ;
            },
            Some(p) => p,
        },
    };
    proof {
        assert(page_lookup(pages.entries_s(), term@) == Some(Some(page@)));
    }
    let mut concepts = analyzer.extract_related_concepts(page);
    let ghost full_concepts = concepts.deep_view();
    if concepts.len() > max_results as usize {
        concepts.truncate(max_results as usize);
        proof {
            assert(concepts.deep_view() =~= full_concepts.take(max_results as int));
        }
    }
    let ghost conceptsv = crate::analyzer::take_at_most(
        related_concepts_of(analyzer@, page@.extract),
        max_results as int,
    );
    proof {
        assert(concepts.deep_view() =~= conceptsv);
    }
    visited.push(String::from_str(term));
    let ghost vis2 = vis0.push(term@);
    proof {
        assert(visited.deep_view() =~= vis2);
    }
    let ghost av = analyzer@;
    let ghost pv = pages.entries_s();
    let ghost child_depth: u8 = (current_depth + 1) as u8;
    let mut i: usize = 0;
    proof {
        assert(conceptsv.skip(0) =~= conceptsv);
        assert(out.deep_view() + missing_children_spec(
            av,
            conceptsv,
            child_depth,
            max_depth,
            max_results,
            vis2,
            pv,
        ) =~= out0 + missing_children_spec(
            av,
            conceptsv,
            child_depth,
            max_depth,
            max_results,
            vis2,
            pv,
        ));
    }
    while i < concepts.len()
        invariant
            i <= conceptsv.len(),
            conceptsv == concepts.deep_view(),
            analyzer.wf(),
            current_depth < max_depth,
            child_depth == current_depth + 1,
            av == analyzer@,
            pv == pages.entries_s(),
            visited.deep_view() == vis2,
            out.deep_view() + missing_children_spec(
                av,
                conceptsv.skip(i as int),
                child_depth,
                max_depth,
                max_results,
                vis2,
                pv,
            ) == out0 + missing_children_spec(
                av,
                conceptsv,
                child_depth,
                max_depth,
                max_results,
                vis2,
                pv,
            ),
        decreases conceptsv.len() - i,
    {
        proof {
            assert(conceptsv.skip(i as int)[0] == conceptsv[i as int]);
            assert(conceptsv.skip(i as int).drop_first() =~= conceptsv.skip((i + 1) as int));
            assert(concepts.deep_view()[i as int] == concepts@[i as int]@);
        }
        let c = &concepts[i];
        if !crate::text::vec_contains_str(visited, c.as_str()) {
            let ghost pre_out = out.deep_view();
            missing_terms_rec(
                analyzer,
                c.as_str(),
                current_depth + 1,
                max_depth,
                max_results,
                visited,
                pages,
                out,
            );
            proof {
                let head = missing_terms_spec(
                    av,
                    conceptsv[i as int],
                    child_depth,
                    max_depth,
                    max_results,
                    vis2,
                    pv,
                );
                let rest = missing_children_spec(
                    av,
                    conceptsv.skip((i + 1) as int),
                    child_depth,
                    max_depth,
                    max_results,
                    vis2,
                    pv,
                );
                assert(missing_children_spec(
                    av,
                    conceptsv.skip(i as int),
                    child_depth,
                    max_depth,
                    max_results,
                    vis2,
                    pv,
                ) == head + rest);
                assert((pre_out + head) + rest =~= pre_out + (head + rest));
            }
        } else {
            proof {
                assert(vis2.contains(conceptsv[i as int]));
            }
        }
        i = i + 1;
    }
    proof {
        assert(conceptsv.skip(conceptsv.len() as int) =~= Seq::<Seq<char>>::empty());
        assert(out.deep_view() + Seq::<Seq<char>>::empty() =~= out.deep_view());
    }
    let ghost pre_pop = visited@;
    visited.pop();
    proof {
        assert(visited@ =~= pre_pop.drop_last());
        assert forall|k: int| 0 <= k < visited@.len() implies visited.deep_view()[k] == vis0[k]
            by {
            assert(visited@[k] == pre_pop[k]);
            assert(vis2[k] == vis0[k]);
        }
        assert(visited.deep_view() =~= vis0);
    }
}

/// A well-formed subtree cache entry: its key is a request key whose bound
/// the stored tree respects, and the tree is a sound expansion result.
pub open spec fn node_entry_ok(e: (String, crate::cache::CacheEntry<AnalysisNode>)) -> bool {
    exists|t: Seq<char>, d: u8, m: u8|
        {
            &&& e.0@ == #[trigger] crate::cache::analysis_key_of(t, d, m)
            &&& crate::types::depths_from(e.1.data@, 0)
            &&& crate::types::max_depth_v(e.1.data@) <= d
            &&& crate::types::paths_cycle_free(e.1.data@, Set::empty())
            &&& e.1.data@.term == t
        }
}

/// Every subtree cache entry is well-formed.
pub open spec fn node_cache_ok(s: Seq<(String, crate::cache::CacheEntry<AnalysisNode>)>) -> bool {
    forall|i: int| 0 <= i < s.len() ==> node_entry_ok(#[trigger] s[i])
}

/// The engine: the two analyzers and the cache.
pub struct WikiEngine {
    analyzer: EngineeringAnalyzer,
    semantic_analyzer: SemanticAnalyzer,
    cache: crate::cache::WikiEngineCache,
}

impl WikiEngine {
    /// The classifier the engine was built with.
    pub closed spec fn analyzer_ref(self) -> EngineeringAnalyzer {
        self.analyzer
    }

    /// The decomposer the engine was built with.
    pub closed spec fn semantic_ref(self) -> SemanticAnalyzer {
        self.semantic_analyzer
    }

    /// The cache the engine owns.
    pub closed spec fn cache_s(self) -> crate::cache::WikiEngineCache {
        self.cache
    }

    /// Well-formedness: both analyzers carry the fixed tables, the cache is
    /// well-formed and every memoized subtree is sound.
    pub open spec fn wf(self) -> bool {
        &&& self.analyzer_ref().wf()
        &&& self.semantic_ref().wf()
        &&& self.cache_s().wf()
        &&& node_cache_ok(self.cache_s().nodes_s())
    }

    /// Builds the engine around a cache. Succeeds exactly when both fixed
    /// pattern tables compile.
    pub fn new(cache: crate::cache::WikiEngineCache) -> (r: Result<Self, WikiEngineError>)
        requires
            cache.wf(),
            node_cache_ok(cache.nodes_s()),
        ensures
            (r matches Ok(_)) == (crate::analyzer::analyzer_tables_compile()
                && crate::semantic_analyzer::semantic_tables_compile()),
            r matches Ok(e) ==> e.wf() && e.cache_s() == cache,
    {
        let analyzer = match EngineeringAnalyzer::new() {
            Ok(a) => a,
            Err(e) => {
                return Err(e);
            },
        };
        let semantic_analyzer = match SemanticAnalyzer::new() {
            Ok(a) => a,
            Err(e) => {
                return Err(e);
            },
        };
        Ok(WikiEngine { analyzer, semantic_analyzer, cache })
    }

    /// Runs one analysis request: on a fresh cached subtree for the same
    /// `(term, max_depth, max_results)` key that tree is returned, otherwise
    /// the expansion runs over the snapshot and its root is memoized. The
    /// aggregates are recomputed from the returned tree either way, the
    /// depth bound and per-path cycle freedom hold either way, and elapsed
    /// time is the caller's concern.
    pub fn analyze_recursive(
        &mut self,
        request: &SearchRequest,
        pages: &PageStore,
        now_ms: u64,
    ) -> (r: AnalysisResult)
        requires
            old(self).wf(),
        ensures
            final(self).wf(),
            final(self).analyzer_ref() == old(self).analyzer_ref(),
            final(self).semantic_ref() == old(self).semantic_ref(),
            final(self).cache_s().pages_s() == old(self).cache_s().pages_s(),
            final(self).cache_s().princ_s() == old(self).cache_s().princ_s(),
            r.root_term@ == request.term@,
            r.total_processing_time_ms == 0,
            r.tree@.term == request.term@,
            r.total_principles == crate::types::sat_u32(
                crate::types::count_principles_v(r.tree@),
            ),
            r.max_depth_reached == crate::types::max_depth_v(r.tree@),
            r.max_depth_reached <= (match request.max_depth {
                Some(d) => d,
                None => 3u8,
            }),
            crate::types::depths_from(r.tree@, 0),
            crate::types::paths_cycle_free(r.tree@, Set::empty()),
            ({
                let maxd = match request.max_depth {
                    Some(d) => d,
                    None => 3u8,
                };
                let maxr = match request.max_results {
                    Some(m) => m,
                    None => 10u8,
                };
                let key = crate::cache::analysis_key_of(request.term@, maxd, maxr);
                let j = crate::cache::find_key(old(self).cache_s().nodes_s(), key);
                (j == -1 || old(self).cache_s().nodes_s()[j].1.expired_at(
                    now_ms,
                    old(self).cache_s().principle_ttl(),
                )) ==> r.tree@ == analyze_node_spec(
                    old(self).analyzer_ref()@,
                    old(self).semantic_ref()@,
                    request.term@,
                    0,
                    maxd,
                    maxr,
                    Seq::<Seq<char>>::empty(),
                    pages.entries_s(),
                )
            }),
            ({
                let maxd = match request.max_depth {
                    Some(d) => d,
                    None => 3u8,
                };
                let maxr = match request.max_results {
                    Some(m) => m,
                    None => 10u8,
                };
                let key = crate::cache::analysis_key_of(request.term@, maxd, maxr);
                let j = crate::cache::find_key(old(self).cache_s().nodes_s(), key);
                (j >= 0 && !old(self).cache_s().nodes_s()[j].1.expired_at(
                    now_ms,
                    old(self).cache_s().principle_ttl(),
                )) ==> r.tree@ == old(self).cache_s().nodes_s()[j].1.data@
            }),
    {
        let maxd: u8 = match request.max_depth {
            Some(d) => d,
            None => 3,
        };
        let maxr: u8 = match request.max_results {
            Some(m) => m,
            None => 10,
        };
        let key = self.cache.generate_analysis_cache_key(request.term.as_str(), maxd, maxr);
        let ghost pre_nodes = self.cache.nodes_s();
        let cached = self.cache.get_analysis_node(key.as_str(), now_ms);
        proof {
            crate::cache::lemma_find_key(pre_nodes, key@);
            let j = crate::cache::find_key(pre_nodes, key@);
            assert(node_cache_ok(self.cache.nodes_s())) by {
                assert forall|i: int| 0 <= i < self.cache.nodes_s().len() implies node_entry_ok(
                    #[trigger] self.cache.nodes_s()[i],
                ) by {
                    if j >= 0 && pre_nodes[j].1.expired_at(now_ms, old(self).cache_s().principle_ttl()) {
                        if i < j {
                            assert(self.cache.nodes_s()[i] == pre_nodes[i]);
                        } else {
                            assert(self.cache.nodes_s()[i] == pre_nodes[i + 1]);
                        }
                    } else if j >= 0 {
                        if i == j {
                            let e = pre_nodes[j];
                            assert(node_entry_ok(e));
                            let (t, d, m) = choose|t: Seq<char>, d: u8, m: u8|
                                {
                                    &&& e.0@ == #[trigger] crate::cache::analysis_key_of(t, d, m)
                                    &&& crate::types::depths_from(e.1.data@, 0)
                                    &&& crate::types::max_depth_v(e.1.data@) <= d
                                    &&& crate::types::paths_cycle_free(e.1.data@, Set::empty())
                                    &&& e.1.data@.term == t
                                };
                            assert(self.cache.nodes_s()[i].0 == e.0);
                            assert(self.cache.nodes_s()[i].1.data == e.1.data);
                            assert(self.cache.nodes_s()[i].0@ == crate::cache::analysis_key_of(
                                t,
                                d,
                                m,
                            ));
                        } else {
                            assert(self.cache.nodes_s()[i] == pre_nodes[i]);
                        }
                    } else {
                        assert(self.cache.nodes_s()[i] == pre_nodes[i]);
                    }
                }
            }
        }
        match cached {
            Some(tree) => {
                proof {
                    let j = crate::cache::find_key(pre_nodes, key@);
                    let e = pre_nodes[j];
                    assert(node_entry_ok(e));
                    let (t, d, m) = choose|t: Seq<char>, d: u8, m: u8|
                        {
                            &&& e.0@ == #[trigger] crate::cache::analysis_key_of(t, d, m)
                            &&& crate::types::depths_from(e.1.data@, 0)
                            &&& crate::types::max_depth_v(e.1.data@) <= d
                            &&& crate::types::paths_cycle_free(e.1.data@, Set::empty())
                            &&& e.1.data@.term == t
                        };
                    crate::cache::lemma_analysis_key_injective(
                        request.term@,
                        maxd,
                        maxr,
                        t,
                        d,
                        m,
                    );
                }
                let total = crate::types::count_principles(&tree);
                let mdr = crate::types::calculate_max_depth(&tree);
                AnalysisResult {
                    root_term: request.term.clone(),
                    tree,
                    total_processing_time_ms: 0,
                    total_principles: total,
                    max_depth_reached: mdr,
                }
            },
            None => {
                let mut visited: Vec<String> = Vec::new();
                proof {
                    assert(visited.deep_view() =~= Seq::<Seq<char>>::empty());
                }
                let root = analyze_term_recursive(
                    &self.analyzer,
                    &self.semantic_analyzer,
                    request.term.as_str(),
                    0,
                    maxd,
                    maxr,
                    &mut visited,
                    pages,
                );
                proof {
                    lemma_analyze_spec_props(
                        old(self).analyzer_ref()@,
                        old(self).semantic_ref()@,
                        request.term@,
                        0,
                        maxd,
                        maxr,
                        Seq::<Seq<char>>::empty(),
                        pages.entries_s(),
                    );
                    assert(Seq::<Seq<char>>::empty().to_set() =~= Set::<Seq<char>>::empty());
                    assert(!Seq::<Seq<char>>::empty().contains(request.term@));
                }
                let copy = root.duplicate();
                let ghost mid_nodes = self.cache.nodes_s();
                self.cache.cache_analysis_node(key, copy, now_ms);
                proof {
                    let inserted = crate::cache::CacheEntry {
                        data: copy,
                        timestamp_ms: now_ms,
                        access_count: 1u64,
                    };
                    let s1 = if mid_nodes.len() >= old(self).cache_s().capacity()
                        && mid_nodes.len() > 0 {
                        mid_nodes.remove(crate::cache::oldest_idx(mid_nodes))
                    } else {
                        mid_nodes
                    };
                    if mid_nodes.len() >= old(self).cache_s().capacity() && mid_nodes.len() > 0 {
                        crate::cache::lemma_oldest_idx(mid_nodes);
                    }
                    assert(node_cache_ok(s1)) by {
                        assert forall|i: int| 0 <= i < s1.len() implies node_entry_ok(
                            #[trigger] s1[i],
                        ) by {
                            if mid_nodes.len() >= old(self).cache_s().capacity()
                                && mid_nodes.len() > 0 {
                                let o = crate::cache::oldest_idx(mid_nodes);
                                if i < o {
                                    assert(s1[i] == mid_nodes[i]);
                                } else {
                                    assert(s1[i] == mid_nodes[i + 1]);
                                }
                            } else {
                                assert(s1[i] == mid_nodes[i]);
                            }
                        }
                    }
                    crate::cache::lemma_find_key(s1, key@);
                    assert(node_entry_ok((key, inserted))) by {
                        assert(key@ == crate::cache::analysis_key_of(request.term@, maxd, maxr));
                        assert(inserted.data@ == root@);
                    }
                    assert(node_cache_ok(self.cache.nodes_s())) by {
                        let j2 = crate::cache::find_key(s1, key@);
                        assert forall|i: int| 0 <= i < self.cache.nodes_s().len() implies
                            node_entry_ok(#[trigger] self.cache.nodes_s()[i]) by {
                            if j2 >= 0 {
                                if i == j2 {
                                    assert(self.cache.nodes_s()[i] == (key, inserted));
                                } else {
                                    assert(self.cache.nodes_s()[i] == s1[i]);
                                }
                            } else {
                                if i < s1.len() {
                                    assert(self.cache.nodes_s()[i] == s1[i]);
                                } else {
                                    assert(self.cache.nodes_s()[i] == (key, inserted));
                                }
                            }
                        }
                    }
                }
                let total = crate::types::count_principles(&root);
                let mdr = crate::types::calculate_max_depth(&root);
                AnalysisResult {
                    root_term: request.term.clone(),
                    tree: root,
                    total_processing_time_ms: 0,
                    total_principles: total,
                    max_depth_reached: mdr,
                }
            },
        }
    }
}

/// Spec-level image of a suggestion.
pub ghost struct SuggestionV {
    pub term: Seq<char>,
    pub confidence_milli: u32,
    pub category: Seq<char>,
}

impl View for SearchSuggestion {
    type V = SuggestionV;

    open spec fn view(&self) -> SuggestionV {
        SuggestionV {
            term: self.term@,
            confidence_milli: self.confidence_milli,
            category: self.category@,
        }
    }
}

impl DeepView for SearchSuggestion {
    type V = SuggestionV;

    open spec fn deep_view(&self) -> SuggestionV {
        self.view()
    }
}

/// The fixed engineering keyword list scored against titles.
pub open spec fn suggestion_keywords() -> Seq<Seq<char>> {
    seq![
        "engine"@,
        "motor"@,
        "system"@,
        "design"@,
        "structure"@,
        "material"@,
        "process"@,
        "machine"@,
        "device"@,
        "technology"@,
        "mechanism"@,
        "circuit"@,
        "bridge"@,
        "building"@,
        "manufacturing"@,
        "engineering"@,
        "mechanical"@,
        "electrical"@,
        "chemical"@,
        "civil"@,
    ]
}

/// A fifth of a point per keyword contained in the lowercased title.
pub open spec fn kw_score(kws: Seq<Seq<char>>, lower: Seq<char>) -> int
    decreases kws.len(),
{
    if kws.len() == 0 {
        0
    } else {
        kw_score(kws.drop_last(), lower) + if crate::text::has_sub(lower, kws.last()) {
            200int
        } else {
            0int
        }
    }
}

/// A title's engineering relevance in thousandths: keyword hits plus a tenth
/// for a title over ten characters, clamped to one.
pub open spec fn relevance_of(title: Seq<char>) -> int {
    let base = kw_score(suggestion_keywords(), lower_of(title)) + if title.len() > 10 {
        100int
    } else {
        0int
    };
    if base > 1000 {
        1000
    } else {
        base
    }
}

/// The category label read off a title by substring hints.
pub open spec fn inferred_category_of(lower: Seq<char>) -> Seq<char> {
    if crate::text::has_sub(lower, "bridge"@) || crate::text::has_sub(lower, "building"@)
        || crate::text::has_sub(lower, "structure"@) {
        "Structural"@
    } else if crate::text::has_sub(lower, "engine"@) || crate::text::has_sub(lower, "motor"@)
        || crate::text::has_sub(lower, "gear"@) {
        "Mechanical"@
    } else if crate::text::has_sub(lower, "circuit"@) || crate::text::has_sub(
        lower,
        "electronic"@,
    ) || crate::text::has_sub(lower, "electrical"@) {
        "Electrical"@
    } else if crate::text::has_sub(lower, "material"@) || crate::text::has_sub(lower, "steel"@)
        || crate::text::has_sub(lower, "composite"@) {
        "Material"@
    } else if crate::text::has_sub(lower, "process"@) || crate::text::has_sub(
        lower,
        "manufacturing"@,
    ) {
        "Process"@
    } else {
        "General"@
    }
}

/// The suggestion built for one title.
pub open spec fn suggestion_of(title: Seq<char>) -> SuggestionV {
    SuggestionV {
        term: title,
        confidence_milli: relevance_of(title) as u32,
        category: inferred_category_of(lower_of(title)),
    }
}

/// The suggestions of all titles, in order.
pub open spec fn suggestions_of(titles: Seq<Seq<char>>) -> Seq<SuggestionV>
    decreases titles.len(),
{
    if titles.len() == 0 {
        Seq::<SuggestionV>::empty()
    } else {
        suggestions_of(titles.drop_last()).push(suggestion_of(titles.last()))
    }
}

/// Insertion of a suggestion into a confidence-descending list, after any
/// entries of equal confidence.
pub open spec fn insert_desc_s(x: SuggestionV, s: Seq<SuggestionV>) -> Seq<SuggestionV>
    decreases s.len(),
{
    if s.len() == 0 {
        seq![x]
    } else if x.confidence_milli > s[0].confidence_milli {
        seq![x] + s
    } else {
        seq![s[0]] + insert_desc_s(x, s.drop_first())
    }
}

/// Stable sort of suggestions by confidence, highest first.
pub open spec fn sort_desc_s(s: Seq<SuggestionV>) -> Seq<SuggestionV>
    decreases s.len(),
{
    if s.len() == 0 {
        s
    } else {
        insert_desc_s(s.last(), sort_desc_s(s.drop_last()))
    }
}

/// Inserting at the first position of strictly smaller confidence is what
/// [`insert_desc_s`] does.
pub proof fn lemma_insert_desc_s_at(x: SuggestionV, s: Seq<SuggestionV>, p: int)
    requires
        0 <= p <= s.len(),
        forall|k: int|
            0 <= k < p ==> !(x.confidence_milli > (#[trigger] s[k]).confidence_milli),
        p < s.len() ==> x.confidence_milli > s[p].confidence_milli,
    ensures
        insert_desc_s(x, s) == s.insert(p, x),
    decreases s.len(),
{
    if s.len() == 0 {
        assert(insert_desc_s(x, s) =~= s.insert(0, x));
    } else if p == 0 {
        assert(insert_desc_s(x, s) =~= s.insert(0, x));
    } else {
        let rest = s.drop_first();
        assert(forall|k: int|
            0 <= k < p - 1 ==> !(x.confidence_milli > (#[trigger] rest[k]).confidence_milli)) by {
            assert(forall|k: int| 0 <= k < rest.len() ==> (#[trigger] rest[k]) == s[k + 1]);
        }
        assert(p - 1 < rest.len() ==> x.confidence_milli > rest[p - 1].confidence_milli) by {
            if p - 1 < rest.len() {
                assert(rest[p - 1] == s[p]);
            }
        }
        lemma_insert_desc_s_at(x, rest, p - 1);
        assert(insert_desc_s(x, s) == seq![s[0]] + rest.insert(p - 1, x));
        assert(seq![s[0]] + rest.insert(p - 1, x) =~= s.insert(p, x));
    }
}

/// The ranked, capped suggestion list for a batch of titles.
pub open spec fn suggest_spec(titles: Seq<Seq<char>>, limit: int) -> Seq<SuggestionV> {
    let sorted = sort_desc_s(suggestions_of(titles));
    if sorted.len() <= limit {
        sorted
    } else {
        sorted.take(limit)
    }
}

impl WikiEngine {
    /// A title's engineering relevance in thousandths.
    pub fn calculate_engineering_relevance(&self, title: &str) -> (r: u32)
        ensures
            r == relevance_of(title@),
            r <= 1000,
    {
        let lower = crate::outside::lowercase(title);
        let kws: Vec<&str> = vec![
            "engine",
            "motor",
            "system",
            "design",
            "structure",
            "material",
            "process",
            "machine",
            "device",
            "technology",
            "mechanism",
            "circuit",
            "bridge",
            "building",
            "manufacturing",
            "engineering",
            "mechanical",
            "electrical",
            "chemical",
            "civil",
        ];
        proof {
            assert(kws.deep_view() =~= suggestion_keywords());
        }
        let mut score: u32 = 0;
        let mut i: usize = 0;
        proof {
            assert(suggestion_keywords().take(0) =~= Seq::<Seq<char>>::empty());
        }
        while i < kws.len()
            invariant
                i <= kws@.len(),
                kws.deep_view() == suggestion_keywords(),
                lower@ == lower_of(title@),
                score == kw_score(suggestion_keywords().take(i as int), lower_of(title@)),
                score <= i * 200,
            decreases kws@.len() - i,
        {
            proof {
                assert(suggestion_keywords().take((i + 1) as int).drop_last()
                    =~= suggestion_keywords().take(i as int));
                assert(suggestion_keywords().take((i + 1) as int).last()
                    == suggestion_keywords()[i as int]);
                assert(kws.deep_view()[i as int] == kws@[i as int]@);
                assert((i + 1) * 200 == i * 200 + 200) by (nonlinear_arith);
            }
            if crate::text::contains_sub(lower.as_str(), kws[i]) {
                proof {
                    assert(suggestion_keywords().len() == 20);
                    assert(i < 20);
                    assert(i * 200 <= 19 * 200) by (nonlinear_arith)
                        requires
                            i <= 19,
                    ;
                }
                score = score + 200;
            }
            i = i + 1;
        }
        proof {
            assert(suggestion_keywords().take(kws@.len() as int) =~= suggestion_keywords());
        }
        let tlen = vstd::string::StrSliceExecFns::unicode_len(title);
        if tlen > 10 {
            score = score + 100;
        }
        if score > 1000 {
            1000
        } else {
            score
        }
    }

    /// The category label read off a title.
    pub fn infer_category_from_title(&self, title: &str) -> (r: String)
        ensures
            r@ == inferred_category_of(lower_of(title@)),
    {
        let lower = crate::outside::lowercase(title);
        let l = lower.as_str();
        if crate::text::contains_sub(l, "bridge") || crate::text::contains_sub(l, "building")
            || crate::text::contains_sub(l, "structure") {
            String::from_str("Structural")
        } else if crate::text::contains_sub(l, "engine") || crate::text::contains_sub(l, "motor")
            || crate::text::contains_sub(l, "gear") {
            String::from_str("Mechanical")
        } else if crate::text::contains_sub(l, "circuit") || crate::text::contains_sub(
            l,
            "electronic",
        ) || crate::text::contains_sub(l, "electrical") {
            String::from_str("Electrical")
        } else if crate::text::contains_sub(l, "material") || crate::text::contains_sub(l, "steel")
            || crate::text::contains_sub(l, "composite") {
            String::from_str("Material")
        } else if crate::text::contains_sub(l, "process") || crate::text::contains_sub(
            l,
            "manufacturing",
        ) {
            String::from_str("Process")
        } else {
            String::from_str("General")
        }
    }

    /// Scores, ranks and caps search suggestions for a batch of candidate
    /// titles the caller obtained.
    pub fn suggest_terms(&self, titles: Vec<String>, limit: u8) -> (r: Vec<SearchSuggestion>)
        ensures
            r.deep_view() == suggest_spec(titles.deep_view(), limit as int),
    {
        let ghost tv = titles.deep_view();
        let mut suggestions: Vec<SearchSuggestion> = Vec::new();
        let mut i: usize = 0;
        proof {
            assert(tv.take(0) =~= Seq::<Seq<char>>::empty());
            assert(suggestions.deep_view() =~= suggestions_of(tv.take(0)));
        }
        while i < titles.len()
            invariant
                i <= tv.len(),
                tv == titles.deep_view(),
                suggestions.deep_view() == suggestions_of(tv.take(i as int)),
            decreases tv.len() - i,
        {
            proof {
                assert(tv.take((i + 1) as int).drop_last() =~= tv.take(i as int));
                assert(tv.take((i + 1) as int).last() == tv[i as int]);
            }
            let title = &titles[i];
            let confidence_milli = self.calculate_engineering_relevance(title.as_str());
            let category = self.infer_category_from_title(title.as_str());
            let s = SearchSuggestion { term: title.clone(), confidence_milli, category };
            proof {
                assert(s@ == suggestion_of(tv[i as int]));
            }
            let ghost pre = suggestions.deep_view();
            suggestions.push(s);
            proof {
                assert(suggestions.deep_view() =~= pre.push(suggestion_of(tv[i as int])));
            }
            i = i + 1;
        }
        proof {
            assert(tv.take(tv.len() as int) =~= tv);
        }
        // Stable insertion sort by confidence, highest first.
        let ghost full = suggestions.deep_view();
        let mut rest = suggestions;
        let mut out: Vec<SearchSuggestion> = Vec::new();
        let ghost done: int = 0;
        proof {
            assert(full.take(0) =~= Seq::<SuggestionV>::empty());
            assert(out.deep_view() =~= sort_desc_s(full.take(0)));
        }
        while rest.len() > 0
            invariant
                0 <= done <= full.len(),
                rest.deep_view() =~= full.skip(done),
                out.deep_view() == sort_desc_s(full.take(done)),
            decreases rest@.len(),
        {
            let ghost pre_rest = rest.deep_view();
            let x = rest.remove(0);
            proof {
                assert(rest.deep_view() =~= pre_rest.drop_first());
                assert(rest.deep_view() =~= full.skip(done + 1));
                assert(x.deep_view() == pre_rest[0]);
                assert(pre_rest[0] == full.skip(done)[0]);
                assert(x@ == full[done]);
            }
            let mut p: usize = 0;
            while p < out.len() && !(x.confidence_milli > out[p].confidence_milli)
                invariant
                    p <= out@.len(),
                    forall|k: int|
                        0 <= k < p ==> !(x@.confidence_milli > (
                        #[trigger] out.deep_view()[k]).confidence_milli),
                decreases out@.len() - p,
            {
                p = p + 1;
            }
            let ghost pre_out = out.deep_view();
            out.insert(p, x);
            proof {
                assert(out.deep_view() =~= pre_out.insert(p as int, x@));
                lemma_insert_desc_s_at(x@, pre_out, p as int);
                assert(full.take(done + 1).drop_last() =~= full.take(done));
                assert(full.take(done + 1).last() == full[done]);
                assert(out.deep_view() == sort_desc_s(full.take(done + 1)));
            }
            proof {
                done = done + 1;
            }
        }
        proof {
            assert(full.take(done) =~= full);
        }
        let ghost sortedv = out.deep_view();
        if out.len() > limit as usize {
            out.truncate(limit as usize);
            proof {
                assert(out.deep_view() =~= sortedv.take(limit as int));
            }
        }
        out
    }

    /// Resolves a page cache-first: a live cached page wins, else the
    /// snapshot's record is cached and returned; an unfetched or missing
    /// page yields nothing.
    pub fn get_or_fetch_page(&mut self, term: &str, pages: &PageStore, now_ms: u64) -> (r: Option<
        WikipediaPage,
    >)
        requires
            old(self).wf(),
        ensures
            final(self).wf(),
            final(self).analyzer_ref() == old(self).analyzer_ref(),
            final(self).semantic_ref() == old(self).semantic_ref(),
            final(self).cache_s().princ_s() == old(self).cache_s().princ_s(),
            final(self).cache_s().nodes_s() == old(self).cache_s().nodes_s(),
            ({
                let j = crate::cache::find_key(old(self).cache_s().pages_s(), term@);
                j >= 0 && !old(self).cache_s().pages_s()[j].1.expired_at(
                    now_ms,
                    old(self).cache_s().page_ttl(),
                ) ==> (r matches Some(p) && p@ == old(self).cache_s().pages_s()[j].1.data@)
            }),
            ({
                let j = crate::cache::find_key(old(self).cache_s().pages_s(), term@);
                (j == -1 || old(self).cache_s().pages_s()[j].1.expired_at(
                    now_ms,
                    old(self).cache_s().page_ttl(),
                )) ==> match page_lookup(pages.entries_s(), term@) {
                    Some(Some(pv)) => r matches Some(p) && p@ == pv,
                    _ => r is None,
                }
            }),
    {
        let cached = self.cache.get_wikipedia_page(term, now_ms);
        match cached {
            Some(page) => Some(page),
            None => {
                match pages.lookup(term) {
                    Some(opt) => match opt {
                        Some(p) => {
                            let copy = p.duplicate();
                            self.cache.cache_wikipedia_page(
                                String::from_str(term),
                                p.duplicate(),
                                now_ms,
                            );
                            Some(copy)
                        },
                        None => None,
                    },
                    None => None,
                }
            },
        }
    }

    /// Resolves a page's merged principle set cache-first: a live cached set
    /// wins; otherwise the page is classified and decomposed, the merge is
    /// memoized under the page title and returned.
    pub fn get_or_analyze_principles(&mut self, page: &WikipediaPage, now_ms: u64) -> (r: Result<
        Vec<EngineeringPrinciple>,
        WikiEngineError,
    >)
        requires
            old(self).wf(),
        ensures
            final(self).wf(),
            final(self).analyzer_ref() == old(self).analyzer_ref(),
            final(self).semantic_ref() == old(self).semantic_ref(),
            final(self).cache_s().pages_s() == old(self).cache_s().pages_s(),
            final(self).cache_s().nodes_s() == old(self).cache_s().nodes_s(),
            ({
                let j = crate::cache::find_key(old(self).cache_s().princ_s(), page.title@);
                j >= 0 && !old(self).cache_s().princ_s()[j].1.expired_at(
                    now_ms,
                    old(self).cache_s().principle_ttl(),
                ) ==> (r matches Ok(v) && v.deep_view() == old(
                    self,
                ).cache_s().princ_s()[j].1.data.deep_view())
            }),
            ({
                let j = crate::cache::find_key(old(self).cache_s().princ_s(), page.title@);
                (j == -1 || old(self).cache_s().princ_s()[j].1.expired_at(
                    now_ms,
                    old(self).cache_s().principle_ttl(),
                )) ==> (r matches Ok(v) && v.deep_view() == merged_spec(
                    decomp_principles_spec(
                        decompose_spec(old(self).semantic_ref()@, lower_of(page.title@)),
                        page@.url,
                    ),
                    analyze_page_spec(old(self).analyzer_ref()@, page@),
                ))
            }),
    {
        let cached = self.cache.get_principles(page.title.as_str(), now_ms);
        match cached {
            Some(v) => Ok(v),
            None => {
                let sem_ps = match self.semantic_analyzer.analyze_page_semantically(page) {
                    Ok(v) => v,
                    Err(e) => {
                        proof {
                            assert(false);
                        }
                        return Err(e);
                    },
                };
                let reg_ps = match self.analyzer.analyze_page(page) {
                    Ok(v) => v,
                    Err(e) => {
                        proof {
                            assert(false);
                        }
                        return Err(e);
                    },
                };
                let combined = merge_principles(sem_ps, reg_ps);
                self.cache.cache_principles(
                    page.title.clone(),
                    crate::types::clone_principles(&combined),
                    now_ms,
                );
                Ok(combined)
            },
        }
    }

    /// Analyzes a batch of terms with the batch-sized result cap, each over
    /// the same snapshot.
    pub fn batch_analyze(
        &mut self,
        terms: &Vec<String>,
        max_depth: u8,
        pages: &PageStore,
        now_ms: u64,
    ) -> (r: Vec<AnalysisResult>)
        requires
            old(self).wf(),
        ensures
            final(self).wf(),
            final(self).analyzer_ref() == old(self).analyzer_ref(),
            final(self).semantic_ref() == old(self).semantic_ref(),
            r@.len() == terms@.len(),
            forall|i: int|
                0 <= i < r@.len() ==> {
                    &&& (#[trigger] r@[i]).root_term@ == terms@[i]@
                    &&& r@[i].max_depth_reached <= max_depth
                    &&& r@[i].total_principles == crate::types::sat_u32(
                        crate::types::count_principles_v(r@[i].tree@),
                    )
                    &&& crate::types::depths_from(r@[i].tree@, 0)
                    &&& crate::types::paths_cycle_free(r@[i].tree@, Set::empty())
                },
    {
        let mut r: Vec<AnalysisResult> = Vec::new();
        let mut i: usize = 0;
        while i < terms.len()
            invariant
                i <= terms@.len(),
                self.wf(),
                self.analyzer_ref() == old(self).analyzer_ref(),
                self.semantic_ref() == old(self).semantic_ref(),
                r@.len() == i,
                forall|k: int|
                    0 <= k < i ==> {
                        &&& (#[trigger] r@[k]).root_term@ == terms@[k]@
                        &&& r@[k].max_depth_reached <= max_depth
                        &&& r@[k].total_principles == crate::types::sat_u32(
                            crate::types::count_principles_v(r@[k].tree@),
                        )
                        &&& crate::types::depths_from(r@[k].tree@, 0)
                        &&& crate::types::paths_cycle_free(r@[k].tree@, Set::empty())
                    },
            decreases terms@.len() - i,
        {
            let request = SearchRequest {
                term: terms[i].clone(),
                max_depth: Some(max_depth),
                max_results: Some(5),
            };
            let result = self.analyze_recursive(&request, pages, now_ms);
            r.push(result);
            i = i + 1;
        }
        r
    }

    /// Decomposes a concept directly through the semantic analyzer.
    pub fn analyze_engineering_concept(&self, concept: &str, max_depth: u8) -> (r: Result<
        Vec<EngineeringPrinciple>,
        WikiEngineError,
    >)
        requires
            self.wf(),
        ensures
            r matches Ok(v) && v.deep_view() == decomp_principles_spec(
                decompose_spec(self.semantic_ref()@, concept@),
                "https://en.wikipedia.org/wiki/"@ + concept@,
            ),
    {
        self.semantic_analyzer.analyze_engineering_concept(concept, max_depth, None)
    }

    /// The hierarchical breakdown of a concept.
    pub fn get_engineering_concept_hierarchy(&self, concept: &str, max_depth: u8) -> (r: Result<
        crate::semantic_analyzer::ConceptDecomposition,
        WikiEngineError,
    >)
        requires
            self.wf(),
        ensures
            r matches Ok(d) && d@ == decompose_spec(self.semantic_ref()@, concept@),
    {
        self.semantic_analyzer.get_concept_hierarchy(concept, max_depth)
    }

    /// The terms a request's expansion would consult that the snapshot has
    /// no record for yet, without repeats: the caller's fetch plan. The
    /// caller fetches these, records the results in the snapshot, and asks
    /// again until nothing is missing.
    pub fn plan_missing_terms(
        &self,
        term: &str,
        max_depth: u8,
        max_results: u8,
        pages: &PageStore,
    ) -> (r: Vec<String>)
        requires
            self.wf(),
        ensures
            r.deep_view() == crate::text::dedup_seq(
                missing_terms_spec(
                    self.analyzer_ref()@,
                    term@,
                    0,
                    max_depth,
                    max_results,
                    Seq::<Seq<char>>::empty(),
                    pages.entries_s(),
                ),
            ),
    {
        let mut visited: Vec<String> = Vec::new();
        let mut out: Vec<String> = Vec::new();
        proof {
            assert(visited.deep_view() =~= Seq::<Seq<char>>::empty());
            assert(out.deep_view() =~= Seq::<Seq<char>>::empty());
        }
        missing_terms_rec(&self.analyzer, term, 0, max_depth, max_results, &mut visited, pages, &mut out);
        proof {
            assert(out.deep_view() =~= missing_terms_spec(
                self.analyzer_ref()@,
                term@,
                0,
                max_depth,
                max_results,
                Seq::<Seq<char>>::empty(),
                pages.entries_s(),
            ));
        }
        crate::text::dedup_strings(&out)
    }

    /// A read-only view of the engine's cache.
    pub fn get_cache_reference(&self) -> (r: &crate::cache::WikiEngineCache)
        ensures
            *r == self.cache_s(),
    {
        &self.cache
    }

    /// Store sizes and the fixed-weight memory estimate.
    pub fn get_cache_stats(&self) -> (r: crate::cache::CacheStats)
        requires
            self.wf(),
        ensures
            r.wikipedia_pages_count == self.cache_s().pages_s().len(),
            r.principles_count == self.cache_s().princ_s().len(),
            r.analysis_nodes_count == self.cache_s().nodes_s().len(),
    {
        self.cache.get_cache_stats()
    }

    /// Empties all three cache stores.
    pub fn clear_cache(&mut self)
        requires
            old(self).wf(),
        ensures
            final(self).wf(),
            final(self).analyzer_ref() == old(self).analyzer_ref(),
            final(self).semantic_ref() == old(self).semantic_ref(),
            final(self).cache_s().pages_s().len() == 0,
            final(self).cache_s().princ_s().len() == 0,
            final(self).cache_s().nodes_s().len() == 0,
    {
        self.cache.clear_all();
    }

    /// Deletes every expired cache entry.
    pub fn cleanup_cache(&mut self, now_ms: u64)
        requires
            old(self).wf(),
        ensures
            final(self).wf(),
            final(self).analyzer_ref() == old(self).analyzer_ref(),
            final(self).semantic_ref() == old(self).semantic_ref(),
            final(self).cache_s().pages_s() == crate::cache::live_entries(
                old(self).cache_s().pages_s(),
                now_ms,
                old(self).cache_s().page_ttl(),
            ),
            final(self).cache_s().princ_s() == crate::cache::live_entries(
                old(self).cache_s().princ_s(),
                now_ms,
                old(self).cache_s().principle_ttl(),
            ),
            final(self).cache_s().nodes_s() == crate::cache::live_entries(
                old(self).cache_s().nodes_s(),
                now_ms,
                old(self).cache_s().principle_ttl(),
            ),
    {
        let ghost pre_nodes = self.cache.nodes_s();
        self.cache.cleanup_expired(now_ms);
        proof {
            crate::cache::lemma_live_entries_unique(
                pre_nodes,
                now_ms,
                old(self).cache_s().principle_ttl(),
            );
            assert(node_cache_ok(self.cache.nodes_s())) by {
                assert forall|i: int| 0 <= i < self.cache.nodes_s().len() implies node_entry_ok(
                    #[trigger] self.cache.nodes_s()[i],
                ) by {
                    assert(pre_nodes.contains(self.cache.nodes_s()[i]));
                    let w = choose|w: int|
                        0 <= w < pre_nodes.len() && pre_nodes[w] == self.cache.nodes_s()[i];
                    assert(node_entry_ok(pre_nodes[w]));
                }
            }
        }
    }
}

} // verus!
