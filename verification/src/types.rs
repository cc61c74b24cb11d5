//! Core data model: categories, principles, analysis trees and errors.
//!
//! Confidence and importance scores are carried as integer thousandths
//! (`0..=1000` standing for `0.0..=1.0`), so that every comparison and
//! formula in the crate is exact.

use vstd::prelude::*;

verus! {

use vstd::multiset::Multiset;

/// A copy of a vector of strings, character-identical entry by entry.
pub fn clone_string_vec(v: &Vec<String>) -> (r: Vec<String>)
    ensures
        r.deep_view() == v.deep_view(),
{
    let mut r: Vec<String> = Vec::new();
    let mut i: usize = 0;
    while i < v.len()
        invariant
            i <= v@.len(),
            r@.len() == i,
            forall|k: int| 0 <= k < i ==> r@[k]@ == v@[k]@,
        decreases v@.len() - i,
    {
        r.push(v[i].clone());
        i = i + 1;
    }
    assert(r.deep_view() =~= v.deep_view());
    r
}

/// The closed set of engineering categories, plus one open variant carrying a
/// free-form label for unclassified text.
pub enum PrincipleCategory {
    Structure,
    Mechanical,
    Electrical,
    Thermal,
    Chemical,
    Material,
    System,
    Process,
    Design,
    Other(String),
}

/// Spec-level image of a category: the open variant's label is compared as a
/// character sequence.
pub ghost enum CategoryV {
    Structure,
    Mechanical,
    Electrical,
    Thermal,
    Chemical,
    Material,
    System,
    Process,
    Design,
    Other(Seq<char>),
}

impl View for PrincipleCategory {
    type V = CategoryV;

    open spec fn view(&self) -> CategoryV {
        match self {
            PrincipleCategory::Structure => CategoryV::Structure,
            PrincipleCategory::Mechanical => CategoryV::Mechanical,
            PrincipleCategory::Electrical => CategoryV::Electrical,
            PrincipleCategory::Thermal => CategoryV::Thermal,
            PrincipleCategory::Chemical => CategoryV::Chemical,
            PrincipleCategory::Material => CategoryV::Material,
            PrincipleCategory::System => CategoryV::System,
            PrincipleCategory::Process => CategoryV::Process,
            PrincipleCategory::Design => CategoryV::Design,
            PrincipleCategory::Other(label) => CategoryV::Other(label@),
        }
    }
}

impl PrincipleCategory {
    /// A structural copy; label strings keep their characters.
    pub fn duplicate(&self) -> (r: Self)
        ensures
            r@ == self@,
    {
        match self {
            PrincipleCategory::Structure => PrincipleCategory::Structure,
            PrincipleCategory::Mechanical => PrincipleCategory::Mechanical,
            PrincipleCategory::Electrical => PrincipleCategory::Electrical,
            PrincipleCategory::Thermal => PrincipleCategory::Thermal,
            PrincipleCategory::Chemical => PrincipleCategory::Chemical,
            PrincipleCategory::Material => PrincipleCategory::Material,
            PrincipleCategory::System => PrincipleCategory::System,
            PrincipleCategory::Process => PrincipleCategory::Process,
            PrincipleCategory::Design => PrincipleCategory::Design,
            PrincipleCategory::Other(label) => PrincipleCategory::Other(label.clone()),
        }
    }

    /// Category equality at the level of the spec image.
    pub fn same_as(&self, other: &Self) -> (r: bool)
        ensures
            r == (self@ == other@),
    {
        match (self, other) {
            (PrincipleCategory::Structure, PrincipleCategory::Structure) => true,
            (PrincipleCategory::Mechanical, PrincipleCategory::Mechanical) => true,
            (PrincipleCategory::Electrical, PrincipleCategory::Electrical) => true,
            (PrincipleCategory::Thermal, PrincipleCategory::Thermal) => true,
            (PrincipleCategory::Chemical, PrincipleCategory::Chemical) => true,
            (PrincipleCategory::Material, PrincipleCategory::Material) => true,
            (PrincipleCategory::System, PrincipleCategory::System) => true,
            (PrincipleCategory::Process, PrincipleCategory::Process) => true,
            (PrincipleCategory::Design, PrincipleCategory::Design) => true,
            (PrincipleCategory::Other(a), PrincipleCategory::Other(b)) => a.eq(b),
            _ => false,
        }
    }
}

/// A scored, categorized textual claim extracted from or derived about a
/// concept. `confidence_milli` is the confidence in thousandths, always in
/// `0..=1000`.
pub struct EngineeringPrinciple {
    pub id: String,
    pub title: String,
    pub description: String,
    pub category: PrincipleCategory,
    pub confidence_milli: u32,
    pub source_url: String,
    pub related_terms: Vec<String>,
}

/// Spec-level image of a principle. The `id` is deliberately absent: it is an
/// opaque process-unique token and no contract constrains it.
pub ghost struct PrincipleV {
    pub title: Seq<char>,
    pub description: Seq<char>,
    pub category: CategoryV,
    pub confidence_milli: u32,
    pub source_url: Seq<char>,
    pub related_terms: Seq<Seq<char>>,
}

impl View for EngineeringPrinciple {
    type V = PrincipleV;

    open spec fn view(&self) -> PrincipleV {
        PrincipleV {
            title: self.title@,
            description: self.description@,
            category: self.category@,
            confidence_milli: self.confidence_milli,
            source_url: self.source_url@,
            related_terms: self.related_terms.deep_view(),
        }
    }
}

impl DeepView for EngineeringPrinciple {
    type V = PrincipleV;

    open spec fn deep_view(&self) -> PrincipleV {
        self.view()
    }
}

impl EngineeringPrinciple {
    /// A structural copy, equal at the level of the spec image (the copy keeps
    /// the same `id` characters too, though no contract depends on them).
    pub fn duplicate(&self) -> (r: Self)
        ensures
            r@ == self@,
    {
        let terms: Vec<String> = clone_string_vec(&self.related_terms);
        EngineeringPrinciple {
            id: self.id.clone(),
            title: self.title.clone(),
            description: self.description.clone(),
            category: self.category.duplicate(),
            confidence_milli: self.confidence_milli,
            source_url: self.source_url.clone(),
            related_terms: terms,
        }
    }
}

/// A copy of a vector of principles, equal at the level of spec images.
pub fn clone_principles(v: &Vec<EngineeringPrinciple>) -> (r: Vec<EngineeringPrinciple>)
    ensures
        r.deep_view() == v.deep_view(),
{
    let mut r: Vec<EngineeringPrinciple> = Vec::new();
    let mut i: usize = 0;
    while i < v.len()
        invariant
            i <= v@.len(),
            r@.len() == i,
            forall|k: int| 0 <= k < i ==> r@[k]@ == v@[k]@,
        decreases v@.len() - i,
    {
        r.push(v[i].duplicate());
        i = i + 1;
    }
    assert(r.deep_view() =~= v.deep_view());
    r
}

/// Insertion of `x` into a confidence-descending list, after any entries of
/// equal confidence.
pub open spec fn insert_desc_p(x: PrincipleV, s: Seq<PrincipleV>) -> Seq<PrincipleV>
    decreases s.len(),
{
    if s.len() == 0 {
        seq![x]
    } else if x.confidence_milli > s[0].confidence_milli {
        seq![x] + s
    } else {
        seq![s[0]] + insert_desc_p(x, s.drop_first())
    }
}

/// Stable sort by confidence, highest first: each element in turn is
/// inserted after its equals.
pub open spec fn sort_desc_p(s: Seq<PrincipleV>) -> Seq<PrincipleV>
    decreases s.len(),
{
    if s.len() == 0 {
        s
    } else {
        insert_desc_p(s.last(), sort_desc_p(s.drop_last()))
    }
}

/// Non-increasing confidence.
pub open spec fn sorted_desc_p(s: Seq<PrincipleV>) -> bool {
    forall|i: int, j: int|
        0 <= i <= j < s.len() ==> (#[trigger] s[i]).confidence_milli >= (
        #[trigger] s[j]).confidence_milli
}

/// Inserting keeps sortedness and adds exactly the new element.
pub proof fn lemma_insert_desc_p(x: PrincipleV, s: Seq<PrincipleV>)
    requires
        sorted_desc_p(s),
    ensures
        sorted_desc_p(insert_desc_p(x, s)),
        insert_desc_p(x, s).to_multiset() == s.to_multiset().insert(x),
        insert_desc_p(x, s).len() == s.len() + 1,
    decreases s.len(),
{
    s.to_multiset_ensures();
    insert_desc_p(x, s).to_multiset_ensures();
    if s.len() == 0 {
        assert(insert_desc_p(x, s) =~= seq![x]);
        assert(seq![x].to_multiset() =~= s.to_multiset().insert(x)) by {
            seq![x].to_multiset_ensures();
            assert(seq![x] =~= Seq::<PrincipleV>::empty().push(x));
            Seq::<PrincipleV>::empty().to_multiset_ensures();
            assert(Seq::<PrincipleV>::empty().to_multiset() =~= s.to_multiset());
        }
    } else if x.confidence_milli > s[0].confidence_milli {
        let r = seq![x] + s;
        assert(sorted_desc_p(r)) by {
            assert forall|i: int, j: int| 0 <= i <= j < r.len() implies (
            #[trigger] r[i]).confidence_milli >= (#[trigger] r[j]).confidence_milli by {
                if i == 0 && j > 0 {
                    assert(r[j] == s[j - 1]);
                    assert(s[0].confidence_milli >= s[j - 1].confidence_milli);
                }
            }
        }
        assert(r.to_multiset() =~= s.to_multiset().insert(x)) by {
            assert(r =~= s.insert(0, x));
            vstd::seq_lib::to_multiset_insert(s, 0, x);
        }
    } else {
        let rest = s.drop_first();
        assert(sorted_desc_p(rest)) by {
            assert forall|i: int, j: int| 0 <= i <= j < rest.len() implies (
            #[trigger] rest[i]).confidence_milli >= (#[trigger] rest[j]).confidence_milli by {
                assert(rest[i] == s[i + 1]);
                assert(rest[j] == s[j + 1]);
            }
        }
        lemma_insert_desc_p(x, rest);
        let r = seq![s[0]] + insert_desc_p(x, rest);
        assert(sorted_desc_p(r)) by {
            assert forall|i: int, j: int| 0 <= i <= j < r.len() implies (
            #[trigger] r[i]).confidence_milli >= (#[trigger] r[j]).confidence_milli by {
                if i == 0 && j > 0 {
                    let y = insert_desc_p(x, rest)[j - 1];
                    assert(insert_desc_p(x, rest).to_multiset().contains(y)) by {
                        insert_desc_p(x, rest).to_multiset_ensures();
                    }
                    assert(rest.to_multiset().insert(x).contains(y));
                    if y == x {
                        assert(s[0].confidence_milli >= y.confidence_milli);
                    } else {
                        assert(rest.to_multiset().contains(y));
                        rest.to_multiset_ensures();
                        assert(rest.contains(y));
                        let w = choose|w: int| 0 <= w < rest.len() && rest[w] == y;
                        assert(s[w + 1] == y);
                    }
                }
            }
        }
        assert(r.to_multiset() =~= s.to_multiset().insert(x)) by {
            assert(r =~= insert_desc_p(x, rest).insert(0, s[0]));
            vstd::seq_lib::to_multiset_insert(insert_desc_p(x, rest), 0, s[0]);
            assert(s =~= rest.insert(0, s[0]));
            vstd::seq_lib::to_multiset_insert(rest, 0, s[0]);
            assert(s.to_multiset() == rest.to_multiset().insert(s[0]));
            assert(r.to_multiset() == rest.to_multiset().insert(x).insert(s[0]));
            assert(rest.to_multiset().insert(x).insert(s[0]) =~= rest.to_multiset().insert(
                s[0],
            ).insert(x));
        }
    }
}

/// The sort is a sorted permutation of its input.
pub proof fn lemma_sort_desc_p(s: Seq<PrincipleV>)
    ensures
        sorted_desc_p(sort_desc_p(s)),
        sort_desc_p(s).to_multiset() == s.to_multiset(),
        sort_desc_p(s).len() == s.len(),
    decreases s.len(),
{
    s.to_multiset_ensures();
    if s.len() > 0 {
        lemma_sort_desc_p(s.drop_last());
        lemma_insert_desc_p(s.last(), sort_desc_p(s.drop_last()));
        s.drop_last().to_multiset_ensures();
        assert(s =~= s.drop_last().push(s.last()));
        assert(s.to_multiset() == s.drop_last().to_multiset().insert(s.last()));
    }
}

/// Sorts principles by confidence, highest first, by stable insertion.
pub fn sort_principles_desc(v: Vec<EngineeringPrinciple>) -> (r: Vec<EngineeringPrinciple>)
    ensures
        r.deep_view() == sort_desc_p(v.deep_view()),
{
    let mut rest = v;
    let mut out: Vec<EngineeringPrinciple> = Vec::new();
    let ghost full = rest.deep_view();
    let ghost done: int = 0;
    proof {
        assert(full.take(0) =~= Seq::<PrincipleV>::empty());
        assert(out.deep_view() =~= sort_desc_p(full.take(0)));
    }
    while rest.len() > 0
        invariant
            0 <= done <= full.len(),
            rest.deep_view() =~= full.skip(done),
            out.deep_view() == sort_desc_p(full.take(done)),
        decreases rest@.len(),
    {
        let ghost pre_rest = rest.deep_view();
        let x = rest.remove(0);
        proof {
            assert(rest.deep_view() =~= pre_rest.drop_first());
            assert(rest.deep_view() =~= full.skip(done + 1));
            assert(x.deep_view() == pre_rest[0]);
            assert(pre_rest[0] == full.skip(done)[0]);
            assert(x@ == full[done]);
        }
        let mut p: usize = 0;
        while p < out.len() && !(x.confidence_milli > out[p].confidence_milli)
            invariant
                p <= out@.len(),
                forall|k: int|
                    0 <= k < p ==> !(x@.confidence_milli > (
                    #[trigger] out.deep_view()[k]).confidence_milli),
            decreases out@.len() - p,
        {
            p = p + 1;
        }
        let ghost pre_out = out.deep_view();
        out.insert(p, x);
        proof {
            assert(out.deep_view() =~= pre_out.insert(p as int, x@));
            lemma_insert_desc_at(x@, pre_out, p as int);
            assert(full.take(done + 1).drop_last() =~= full.take(done));
            assert(full.take(done + 1).last() == full[done]);
            assert(out.deep_view() == sort_desc_p(full.take(done + 1)));
        }
        proof {
            done = done + 1;
        }
    }
    proof {
        assert(full.take(done) =~= full);
    }
    out
}

/// Inserting at the first position of strictly smaller confidence is what
/// [`insert_desc_p`] does.
pub proof fn lemma_insert_desc_at(x: PrincipleV, s: Seq<PrincipleV>, p: int)
    requires
        0 <= p <= s.len(),
        forall|k: int|
            0 <= k < p ==> !(x.confidence_milli > (#[trigger] s[k]).confidence_milli),
        p < s.len() ==> x.confidence_milli > s[p].confidence_milli,
    ensures
        insert_desc_p(x, s) == s.insert(p, x),
    decreases s.len(),
{
    if s.len() == 0 {
        assert(insert_desc_p(x, s) =~= s.insert(0, x));
    } else if p == 0 {
        assert(insert_desc_p(x, s) =~= s.insert(0, x));
    } else {
        let rest = s.drop_first();
        assert(forall|k: int|
            0 <= k < p - 1 ==> !(x.confidence_milli > (#[trigger] rest[k]).confidence_milli))
            by {
            assert(forall|k: int| 0 <= k < rest.len() ==> (#[trigger] rest[k]) == s[k + 1]);
        }
        assert(p - 1 < rest.len() ==> x.confidence_milli > rest[p - 1].confidence_milli) by {
            if p - 1 < rest.len() {
                assert(rest[p - 1] == s[p]);
            }
        }
        lemma_insert_desc_at(x, rest, p - 1);
        assert(insert_desc_p(x, s) == seq![s[0]] + rest.insert(p - 1, x));
        assert(seq![s[0]] + rest.insert(p - 1, x) =~= s.insert(p, x));
    }
}

/// A page of encyclopedic source text, as handed in by the caller.
pub struct WikipediaPage {
    pub title: String,
    pub extract: String,
    pub url: String,
    pub page_id: u64,
}

/// Spec-level image of a page.
pub ghost struct PageV {
    pub title: Seq<char>,
    pub extract: Seq<char>,
    pub url: Seq<char>,
    pub page_id: u64,
}

impl View for WikipediaPage {
    type V = PageV;

    open spec fn view(&self) -> PageV {
        PageV { title: self.title@, extract: self.extract@, url: self.url@, page_id: self.page_id }
    }
}

impl WikipediaPage {
    /// A structural copy.
    pub fn duplicate(&self) -> (r: Self)
        ensures
            r@ == self@,
    {
        WikipediaPage {
            title: self.title.clone(),
            extract: self.extract.clone(),
            url: self.url.clone(),
            page_id: self.page_id,
        }
    }
}

/// An inbound analysis request.
pub struct SearchRequest {
    pub term: String,
    pub max_depth: Option<u8>,
    pub max_results: Option<u8>,
}

/// One node of the analysis tree: the term that was expanded, the principles
/// found for it, and one owned subtree per expanded related concept, in the
/// order the concepts were extracted.
pub struct AnalysisNode {
    pub term: String,
    pub principles: Vec<EngineeringPrinciple>,
    pub children: Vec<AnalysisNode>,
    pub depth: u8,
    pub processing_time_ms: u64,
}

/// Spec-level image of an analysis tree node.
pub ghost struct NodeV {
    pub term: Seq<char>,
    pub principles: Seq<PrincipleV>,
    pub children: Seq<NodeV>,
    pub depth: u8,
    pub processing_time_ms: u64,
}

/// Spec-level image of a forest of exec nodes, in order.
pub open spec fn forest_v(s: Seq<AnalysisNode>) -> Seq<NodeV>
    decreases s,
{
    if s.len() == 0 {
        Seq::empty()
    } else {
        Seq::empty().push(
            NodeV {
                term: s[0].term@,
                principles: s[0].principles.deep_view(),
                children: forest_v(s[0].children@),
                depth: s[0].depth,
                processing_time_ms: s[0].processing_time_ms,
            },
        ) + forest_v(s.drop_first())
    }
}

impl View for AnalysisNode {
    type V = NodeV;

    open spec fn view(&self) -> NodeV {
        NodeV {
            term: self.term@,
            principles: self.principles.deep_view(),
            children: forest_v(self.children@),
            depth: self.depth,
            processing_time_ms: self.processing_time_ms,
        }
    }
}

impl DeepView for AnalysisNode {
    type V = NodeV;

    open spec fn deep_view(&self) -> NodeV {
        self.view()
    }
}

impl AnalysisNode {
    /// A structural copy of the whole tree, equal at the level of spec
    /// images.
    pub fn duplicate(&self) -> (r: Self)
        ensures
            r@ == self@,
        decreases *self,
    {
        let mut kids: Vec<AnalysisNode> = Vec::new();
        let mut i: usize = 0;
        while i < self.children.len()
            invariant
                i <= self.children@.len(),
                kids@.len() == i,
                forall|k: int| 0 <= k < i ==> (#[trigger] kids@[k])@ == self.children@[k]@,
            decreases self.children@.len() - i,
        {
            let child = &self.children[i];
            kids.push(child.duplicate());
            i = i + 1;
        }
        proof {
            lemma_forest_v(kids@);
            lemma_forest_v(self.children@);
            assert forall|k: int| 0 <= k < kids@.len() implies forest_v(kids@)[k] == forest_v(
                self.children@,
            )[k] by {
                assert(kids@[k]@ == self.children@[k]@);
            }
            assert(forest_v(kids@) =~= forest_v(self.children@));
        }
        AnalysisNode {
            term: self.term.clone(),
            principles: clone_principles(&self.principles),
            children: kids,
            depth: self.depth,
            processing_time_ms: self.processing_time_ms,
        }
    }
}

/// The image of a forest is the image of each tree, in order.
pub proof fn lemma_forest_v(s: Seq<AnalysisNode>)
    ensures
        forest_v(s).len() == s.len(),
        forall|i: int| 0 <= i < s.len() ==> forest_v(s)[i] == #[trigger] s[i]@,
    decreases s,
{
    if s.len() > 0 {
        lemma_forest_v(s.drop_first());
        assert forall|i: int| 0 <= i < s.len() implies forest_v(s)[i] == #[trigger] s[i]@ by {
            if i > 0 {
                assert(forest_v(s)[i] == forest_v(s.drop_first())[i - 1]);
                assert(s.drop_first()[i - 1] == s[i]);
            }
        }
    }
}

/// Sum of `principles.len()` over every node of each tree in the forest.
pub open spec fn sum_principles_seq(s: Seq<NodeV>) -> int
    decreases s,
{
    if s.len() == 0 {
        0
    } else {
        s[0].principles.len() + sum_principles_seq(s[0].children) + sum_principles_seq(
            s.drop_first(),
        )
    }
}

/// Sum of `principles.len()` over every node of the tree.
pub open spec fn count_principles_v(n: NodeV) -> int {
    n.principles.len() + sum_principles_seq(n.children)
}

/// Greatest `depth` field anywhere in the forest (`0` for an empty forest).
pub open spec fn max_depth_seq(s: Seq<NodeV>) -> int
    decreases s,
{
    if s.len() == 0 {
        0
    } else {
        vstd::math::max(
            vstd::math::max(s[0].depth as int, max_depth_seq(s[0].children)),
            max_depth_seq(s.drop_first()),
        )
    }
}

/// Greatest `depth` field anywhere in the tree.
pub open spec fn max_depth_v(n: NodeV) -> int {
    vstd::math::max(n.depth as int, max_depth_seq(n.children))
}

/// Every node of every tree in the forest carries `d`, and children one
/// more, all the way down.
pub open spec fn forest_depths_from(s: Seq<NodeV>, d: int) -> bool
    decreases s,
{
    if s.len() == 0 {
        true
    } else {
        &&& s[0].depth == d
        &&& forest_depths_from(s[0].children, d + 1)
        &&& forest_depths_from(s.drop_first(), d)
    }
}

/// Every node's `depth` equals its distance from the root (the root carrying
/// `d`).
pub open spec fn depths_from(n: NodeV, d: int) -> bool {
    &&& n.depth == d
    &&& forest_depths_from(n.children, d + 1)
}

/// A forest carries depth `d` exactly when each of its trees does.
pub proof fn lemma_forest_depths_from(s: Seq<NodeV>, d: int)
    ensures
        forest_depths_from(s, d) == (forall|i: int|
            0 <= i < s.len() ==> #[trigger] depths_from(s[i], d)),
    decreases s,
{
    if s.len() > 0 {
        lemma_forest_depths_from(s.drop_first(), d);
        if forest_depths_from(s, d) {
            assert forall|i: int| 0 <= i < s.len() implies #[trigger] depths_from(s[i], d) by {
                if i > 0 {
                    assert(s.drop_first()[i - 1] == s[i]);
                }
            }
        }
        if forall|i: int| 0 <= i < s.len() ==> #[trigger] depths_from(s[i], d) {
            assert(depths_from(s[0], d));
            assert forall|i: int| 0 <= i < s.drop_first().len() implies #[trigger] depths_from(
                s.drop_first()[i],
                d,
            ) by {
                assert(s.drop_first()[i] == s[i + 1]);
            }
        }
    }
}

/// Every tree of the forest is cycle-free against `banned`: no banned term
/// occurs, and no term repeats along any single root-to-leaf path.
pub open spec fn forest_cycle_free(s: Seq<NodeV>, banned: Set<Seq<char>>) -> bool
    decreases s,
{
    if s.len() == 0 {
        true
    } else {
        &&& !banned.contains(s[0].term)
        &&& forest_cycle_free(s[0].children, banned.insert(s[0].term))
        &&& forest_cycle_free(s.drop_first(), banned)
    }
}

/// No term in `banned` occurs anywhere in the tree, and no term repeats along
/// any single root-to-leaf path. The same term may still occur in two sibling
/// subtrees.
pub open spec fn paths_cycle_free(n: NodeV, banned: Set<Seq<char>>) -> bool {
    &&& !banned.contains(n.term)
    &&& forest_cycle_free(n.children, banned.insert(n.term))
}

/// A forest is cycle-free exactly when each of its trees is.
pub proof fn lemma_forest_cycle_free(s: Seq<NodeV>, banned: Set<Seq<char>>)
    ensures
        forest_cycle_free(s, banned) == (forall|i: int|
            0 <= i < s.len() ==> #[trigger] paths_cycle_free(s[i], banned)),
    decreases s,
{
    if s.len() > 0 {
        lemma_forest_cycle_free(s.drop_first(), banned);
        if forest_cycle_free(s, banned) {
            assert forall|i: int| 0 <= i < s.len() implies #[trigger] paths_cycle_free(
                s[i],
                banned,
            ) by {
                if i > 0 {
                    assert(s.drop_first()[i - 1] == s[i]);
                }
            }
        }
        if forall|i: int| 0 <= i < s.len() ==> #[trigger] paths_cycle_free(s[i], banned) {
            assert(paths_cycle_free(s[0], banned));
            assert forall|i: int| 0 <= i < s.drop_first().len() implies
                #[trigger] paths_cycle_free(s.drop_first()[i], banned) by {
                assert(s.drop_first()[i] == s[i + 1]);
            }
        }
    }
}

/// Principle counts are non-negative.
pub proof fn lemma_sum_principles_nonneg(s: Seq<NodeV>)
    ensures
        sum_principles_seq(s) >= 0,
    decreases s,
{
    if s.len() > 0 {
        lemma_sum_principles_nonneg(s[0].children);
        lemma_sum_principles_nonneg(s.drop_first());
    }
}

/// Principle sums split over concatenation.
pub proof fn lemma_sum_principles_concat(s1: Seq<NodeV>, s2: Seq<NodeV>)
    ensures
        sum_principles_seq(s1 + s2) == sum_principles_seq(s1) + sum_principles_seq(s2),
    decreases s1,
{
    if s1.len() == 0 {
        assert(s1 + s2 =~= s2);
    } else {
        assert((s1 + s2).drop_first() =~= s1.drop_first() + s2);
        assert((s1 + s2)[0] == s1[0]);
        lemma_sum_principles_concat(s1.drop_first(), s2);
    }
}

/// Forest depth maxima split over concatenation and are in the byte range.
pub proof fn lemma_max_depth_facts(s1: Seq<NodeV>, s2: Seq<NodeV>)
    ensures
        max_depth_seq(s1 + s2) == vstd::math::max(max_depth_seq(s1), max_depth_seq(s2)),
        0 <= max_depth_seq(s1) <= 255,
    decreases s1,
{
    if s1.len() == 0 {
        assert(s1 + s2 =~= s2);
        lemma_max_depth_range(s2);
    } else {
        assert((s1 + s2).drop_first() =~= s1.drop_first() + s2);
        assert((s1 + s2)[0] == s1[0]);
        lemma_max_depth_facts(s1.drop_first(), s2);
        lemma_max_depth_range(s1);
    }
}

/// Depth maxima lie in the byte range.
pub proof fn lemma_max_depth_range(s: Seq<NodeV>)
    ensures
        0 <= max_depth_seq(s) <= 255,
    decreases s,
{
    if s.len() > 0 {
        lemma_max_depth_range(s[0].children);
        lemma_max_depth_range(s.drop_first());
    }
}

/// `x` clamped into the unsigned 32-bit range.
pub open spec fn sat_u32(x: int) -> int {
    if x > 0xffff_ffff {
        0xffff_ffff
    } else {
        x
    }
}

/// Sum of `principles.len()` over the whole tree, saturating at the 32-bit
/// bound.
pub fn count_principles(node: &AnalysisNode) -> (r: u32)
    ensures
        r == sat_u32(count_principles_v(node@)),
    decreases *node,
{
    let plen: usize = node.principles.len();
    let mut total: u32 = if plen >= 0xffff_ffffusize {
        0xffff_ffffu32
    } else {
        plen as u32
    };
    let ghost kids = forest_v(node.children@);
    proof {
        lemma_forest_v(node.children@);
        assert(kids.take(0) =~= Seq::<NodeV>::empty());
        lemma_sum_principles_nonneg(kids);
    }
    let mut i: usize = 0;
    while i < node.children.len()
        invariant
            i <= node.children@.len(),
            kids == forest_v(node.children@),
            kids.len() == node.children@.len(),
            forall|k: int| 0 <= k < kids.len() ==> kids[k] == #[trigger] node.children@[k]@,
            total == sat_u32(
                node.principles.deep_view().len() + sum_principles_seq(kids.take(i as int)),
            ),
        decreases node.children@.len() - i,
    {
        let child = &node.children[i];
        let c = count_principles(child);
        proof {
            assert(kids.take((i + 1) as int) =~= kids.take(i as int) + seq![kids[i as int]]);
            lemma_sum_principles_concat(kids.take(i as int), seq![kids[i as int]]);
            assert(sum_principles_seq(seq![kids[i as int]]) == count_principles_v(kids[i as int]))
                by {
                let one = seq![kids[i as int]];
                assert(one.len() == 1);
                assert(one[0] == kids[i as int]);
                assert(one.drop_first() =~= Seq::<NodeV>::empty());
                assert(sum_principles_seq(one.drop_first()) == 0);
                assert(sum_principles_seq(one) == one[0].principles.len() + sum_principles_seq(
                    one[0].children,
                ) + sum_principles_seq(one.drop_first()));
            }
            lemma_sum_principles_nonneg(kids.take(i as int));
            lemma_sum_principles_nonneg(seq![kids[i as int]]);
            lemma_sum_principles_nonneg(kids[i as int].children);
        }
        if total > 0xffff_ffffu32 - c {
            total = 0xffff_ffffu32;
        } else {
            total = total + c;
        }
        i = i + 1;
    }
    proof {
        assert(kids.take(kids.len() as int) =~= kids);
    }
    total
}

/// The greatest node depth in the tree.
pub fn calculate_max_depth(node: &AnalysisNode) -> (r: u8)
    ensures
        r == max_depth_v(node@),
    decreases *node,
{
    let mut best: u8 = node.depth;
    let ghost kids = forest_v(node.children@);
    proof {
        lemma_forest_v(node.children@);
        assert(kids.take(0) =~= Seq::<NodeV>::empty());
        lemma_max_depth_range(kids);
    }
    let mut i: usize = 0;
    while i < node.children.len()
        invariant
            i <= node.children@.len(),
            kids == forest_v(node.children@),
            kids.len() == node.children@.len(),
            forall|k: int| 0 <= k < kids.len() ==> kids[k] == #[trigger] node.children@[k]@,
            best == vstd::math::max(node.depth as int, max_depth_seq(kids.take(i as int))),
        decreases node.children@.len() - i,
    {
        let child = &node.children[i];
        let c = calculate_max_depth(child);
        proof {
            assert(kids.take((i + 1) as int) =~= kids.take(i as int) + seq![kids[i as int]]);
            lemma_max_depth_facts(kids.take(i as int), seq![kids[i as int]]);
            assert(max_depth_seq(seq![kids[i as int]]) == max_depth_v(kids[i as int])) by {
                let one = seq![kids[i as int]];
                assert(one.len() == 1);
                assert(one[0] == kids[i as int]);
                assert(one.drop_first() =~= Seq::<NodeV>::empty());
                assert(max_depth_seq(one.drop_first()) == 0);
                lemma_max_depth_range(kids[i as int].children);
                assert(max_depth_seq(one) == vstd::math::max(
                    vstd::math::max(one[0].depth as int, max_depth_seq(one[0].children)),
                    max_depth_seq(one.drop_first()),
                ));
            }
        }
        if c > best {
            best = c;
        }
        i = i + 1;
    }
    proof {
        assert(kids.take(kids.len() as int) =~= kids);
    }
    best
}

/// Introduction form of [`paths_cycle_free`].
pub proof fn lemma_cycle_free_intro(n: NodeV, banned: Set<Seq<char>>)
    requires
        !banned.contains(n.term),
        forall|i: int|
            0 <= i < n.children.len() ==> #[trigger] paths_cycle_free(
                n.children[i],
                banned.insert(n.term),
            ),
    ensures
        paths_cycle_free(n, banned),
{
    lemma_forest_cycle_free(n.children, banned.insert(n.term));
}

/// The result of one analysis request. Both aggregates are derived from the
/// tree and recomputed the same way whether the tree came from cache or was
/// freshly built.
pub struct AnalysisResult {
    pub root_term: String,
    pub tree: AnalysisNode,
    pub total_processing_time_ms: u64,
    pub total_principles: u32,
    pub max_depth_reached: u8,
}

/// One suggested search term with a relevance score in thousandths.
pub struct SearchSuggestion {
    pub term: String,
    pub confidence_milli: u32,
    pub category: String,
}

/// The error taxonomy. Transport errors arise only at the caller's fetch
/// boundary and are carried here as plain messages.
#[derive(Debug)]
pub enum WikiEngineError {
    WikipediaApi(String),
    Analysis(String),
    Network(String),
    Serialization(String),
}

impl WikiEngineError {
    /// A human-readable rendering of the error.
    pub fn message(&self) -> (r: String)
        ensures
            match self {
                WikiEngineError::WikipediaApi(m) => r@ == "Wikipedia API error: "@ + m@,
                WikiEngineError::Analysis(m) => r@ == "Analysis error: "@ + m@,
                WikiEngineError::Network(m) => r@ == "Network error: "@ + m@,
                WikiEngineError::Serialization(m) => r@ == "Serialization error: "@ + m@,
            },
    {
        match self {
            WikiEngineError::WikipediaApi(m) => {
                String::from_str("Wikipedia API error: ").concat(m.as_str())
            },
            WikiEngineError::Analysis(m) => {
                String::from_str("Analysis error: ").concat(m.as_str())
            },
            WikiEngineError::Network(m) => {
                String::from_str("Network error: ").concat(m.as_str())
            },
            WikiEngineError::Serialization(m) => {
                String::from_str("Serialization error: ").concat(m.as_str())
            },
        }
    }
}

} // verus!
