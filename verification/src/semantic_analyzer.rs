//! Knowledge-base-driven hierarchical decomposition of engineering concepts,
//! with a text-pattern extraction fallback.
//!
//! A concept is normalized through a synonym table, decomposed into scored
//! foundational components by a static concept graph, or — for unknown
//! concepts — by category-tagged component patterns over source text.
//! Importance and confidence scores are integer thousandths.

use vstd::prelude::*;

verus! {

use vstd::string::StringExecFns;
use vstd::string::StrSliceExecFns;
use crate::outside::{Pattern, compile_pattern, pattern_compiles, captured_strings, lower_of};
use crate::types::{
    EngineeringPrinciple,
    PrincipleCategory,
    CategoryV,
    PrincipleV,
    WikiEngineError,
    WikipediaPage,
};

/// How one component relates to the concept it was registered under.
#[derive(PartialEq, Eq, Structural, Clone, Copy, Debug)]
pub enum RelationType {
    PartOf,
    Requires,
    Controls,
    Connects,
    Supports,
    Converts,
}

/// A typed, scored relationship between a component and a concept.
pub struct ComponentRelation {
    pub component: String,
    pub relation_type: RelationType,
    pub confidence_milli: u32,
}

/// Spec-level image of a relationship.
pub ghost struct RelV {
    pub component: Seq<char>,
    pub relation_type: RelationType,
    pub confidence_milli: u32,
}

impl View for ComponentRelation {
    type V = RelV;

    open spec fn view(&self) -> RelV {
        RelV {
            component: self.component@,
            relation_type: self.relation_type,
            confidence_milli: self.confidence_milli,
        }
    }
}

impl DeepView for ComponentRelation {
    type V = RelV;

    open spec fn deep_view(&self) -> RelV {
        self.view()
    }
}

impl ComponentRelation {
    /// A structural copy.
    pub fn duplicate(&self) -> (r: Self)
        ensures
            r@ == self@,
    {
        ComponentRelation {
            component: self.component.clone(),
            relation_type: self.relation_type,
            confidence_milli: self.confidence_milli,
        }
    }
}

/// A copy of a vector of relationships, equal at the level of spec images.
pub fn clone_relations(v: &Vec<ComponentRelation>) -> (r: Vec<ComponentRelation>)
    ensures
        r.deep_view() == v.deep_view(),
{
    let mut r: Vec<ComponentRelation> = Vec::new();
    let mut i: usize = 0;
    while i < v.len()
        invariant
            i <= v@.len(),
            r@.len() == i,
            forall|k: int| 0 <= k < i ==> r@[k]@ == v@[k]@,
        decreases v@.len() - i,
    {
        r.push(v[i].duplicate());
        i = i + 1;
    }
    assert(r.deep_view() =~= v.deep_view());
    r
}

/// One foundational component of a decomposed concept.
pub struct FoundationalComponent {
    pub name: String,
    pub category: PrincipleCategory,
    pub description: String,
    pub importance_milli: u32,
    pub sub_components: Vec<String>,
}

/// Spec-level image of a component.
pub ghost struct CompV {
    pub name: Seq<char>,
    pub category: CategoryV,
    pub description: Seq<char>,
    pub importance_milli: u32,
    pub sub_components: Seq<Seq<char>>,
}

impl View for FoundationalComponent {
    type V = CompV;

    open spec fn view(&self) -> CompV {
        CompV {
            name: self.name@,
            category: self.category@,
            description: self.description@,
            importance_milli: self.importance_milli,
            sub_components: self.sub_components.deep_view(),
        }
    }
}

impl DeepView for FoundationalComponent {
    type V = CompV;

    open spec fn deep_view(&self) -> CompV {
        self.view()
    }
}

/// The result of decomposing one concept.
pub struct ConceptDecomposition {
    pub concept: String,
    pub components: Vec<FoundationalComponent>,
    pub relationships: Vec<ComponentRelation>,
    pub confidence_milli: u32,
}

/// Spec-level image of a decomposition.
pub ghost struct DecompV {
    pub concept: Seq<char>,
    pub components: Seq<CompV>,
    pub relationships: Seq<RelV>,
    pub confidence_milli: u32,
}

impl View for ConceptDecomposition {
    type V = DecompV;

    open spec fn view(&self) -> DecompV {
        DecompV {
            concept: self.concept@,
            components: self.components.deep_view(),
            relationships: self.relationships.deep_view(),
            confidence_milli: self.confidence_milli,
        }
    }
}

/// A category-tagged battery of component-name patterns.
pub struct ComponentExtractor {
    pub name: String,
    pub patterns: Vec<Pattern>,
    pub category: PrincipleCategory,
    pub weight_milli: u32,
}

/// Spec-level image of an extractor.
pub ghost struct ExtractorV {
    pub name: Seq<char>,
    pub patterns: Seq<Seq<char>>,
    pub category: CategoryV,
    pub weight_milli: u32,
}

impl View for ComponentExtractor {
    type V = ExtractorV;

    open spec fn view(&self) -> ExtractorV {
        ExtractorV {
            name: self.name@,
            patterns: crate::analyzer::srcs_of(self.patterns@),
            category: self.category@,
            weight_milli: self.weight_milli,
        }
    }
}

impl DeepView for ComponentExtractor {
    type V = ExtractorV;

    open spec fn deep_view(&self) -> ExtractorV {
        self.view()
    }
}

/// A pattern that reads one typed relationship out of text.
pub struct RelationshipPattern {
    pub pattern: Pattern,
    pub relation_type: RelationType,
    pub confidence_milli: u32,
}

/// Spec-level image of a relationship pattern.
pub ghost struct RelPatV {
    pub src: Seq<char>,
    pub relation_type: RelationType,
    pub confidence_milli: u32,
}

impl View for RelationshipPattern {
    type V = RelPatV;

    open spec fn view(&self) -> RelPatV {
        RelPatV {
            src: self.pattern.src@,
            relation_type: self.relation_type,
            confidence_milli: self.confidence_milli,
        }
    }
}

impl DeepView for RelationshipPattern {
    type V = RelPatV;

    open spec fn deep_view(&self) -> RelPatV {
        self.view()
    }
}

/// The static graph of concepts: sub-concept lists, typed relationships,
/// category hints and synonyms, each an association list with string keys.
pub struct ConceptKnowledgeBase {
    pub concept_hierarchies: Vec<(String, Vec<String>)>,
    pub component_relationships: Vec<(String, Vec<ComponentRelation>)>,
    pub category_mappings: Vec<(String, PrincipleCategory)>,
    pub synonyms: Vec<(String, Vec<String>)>,
}

/// Spec-level image of the knowledge base.
pub ghost struct KbV {
    pub hierarchies: Seq<(Seq<char>, Seq<Seq<char>>)>,
    pub relationships: Seq<(Seq<char>, Seq<RelV>)>,
    pub categories: Seq<(Seq<char>, CategoryV)>,
    pub synonyms: Seq<(Seq<char>, Seq<Seq<char>>)>,
}

impl View for ConceptKnowledgeBase {
    type V = KbV;

    open spec fn view(&self) -> KbV {
        KbV {
            hierarchies: Seq::new(
                self.concept_hierarchies@.len(),
                |i: int|
                    (
                        self.concept_hierarchies@[i].0@,
                        self.concept_hierarchies@[i].1.deep_view(),
                    ),
            ),
            relationships: Seq::new(
                self.component_relationships@.len(),
                |i: int|
                    (
                        self.component_relationships@[i].0@,
                        self.component_relationships@[i].1.deep_view(),
                    ),
            ),
            categories: Seq::new(
                self.category_mappings@.len(),
                |i: int| (self.category_mappings@[i].0@, self.category_mappings@[i].1@),
            ),
            synonyms: Seq::new(
                self.synonyms@.len(),
                |i: int| (self.synonyms@[i].0@, self.synonyms@[i].1.deep_view()),
            ),
        }
    }
}

/// The first index of an association list holding key `k`, or `-1`.
pub open spec fn assoc_idx<V>(s: Seq<(Seq<char>, V)>, k: Seq<char>) -> int
    decreases s.len(),
{
    if s.len() == 0 {
        -1
    } else if s[0].0 == k {
        0
    } else {
        let r = assoc_idx(s.drop_first(), k);
        if r < 0 {
            -1
        } else {
            r + 1
        }
    }
}

/// What [`assoc_idx`] returns.
pub proof fn lemma_assoc_idx<V>(s: Seq<(Seq<char>, V)>, k: Seq<char>)
    ensures
        assoc_idx(s, k) == -1 ==> forall|i: int| 0 <= i < s.len() ==> (#[trigger] s[i]).0 != k,
        assoc_idx(s, k) >= 0 ==> 0 <= assoc_idx(s, k) < s.len() && s[assoc_idx(s, k)].0 == k
            && forall|i: int| 0 <= i < assoc_idx(s, k) ==> (#[trigger] s[i]).0 != k,
    decreases s.len(),
{
    if s.len() > 0 && s[0].0 != k {
        lemma_assoc_idx(s.drop_first(), k);
        assert forall|i: int| 1 <= i < s.len() implies (#[trigger] s[i]).0 == s.drop_first()[i
            - 1].0 by {}
    }
}

/// Insertion of a component into an importance-descending list, after any
/// entries of equal importance.
pub open spec fn insert_desc_c(x: CompV, s: Seq<CompV>) -> Seq<CompV>
    decreases s.len(),
{
    if s.len() == 0 {
        seq![x]
    } else if x.importance_milli > s[0].importance_milli {
        seq![x] + s
    } else {
        seq![s[0]] + insert_desc_c(x, s.drop_first())
    }
}

/// Stable sort of components by importance, highest first.
pub open spec fn sort_desc_c(s: Seq<CompV>) -> Seq<CompV>
    decreases s.len(),
{
    if s.len() == 0 {
        s
    } else {
        insert_desc_c(s.last(), sort_desc_c(s.drop_last()))
    }
}

/// Inserting at the first position of strictly smaller importance is what
/// [`insert_desc_c`] does.
pub proof fn lemma_insert_desc_c_at(x: CompV, s: Seq<CompV>, p: int)
    requires
        0 <= p <= s.len(),
        forall|k: int|
            0 <= k < p ==> !(x.importance_milli > (#[trigger] s[k]).importance_milli),
        p < s.len() ==> x.importance_milli > s[p].importance_milli,
    ensures
        insert_desc_c(x, s) == s.insert(p, x),
    decreases s.len(),
{
    if s.len() == 0 {
        assert(insert_desc_c(x, s) =~= s.insert(0, x));
    } else if p == 0 {
        assert(insert_desc_c(x, s) =~= s.insert(0, x));
    } else {
        let rest = s.drop_first();
        assert(forall|k: int|
            0 <= k < p - 1 ==> !(x.importance_milli > (#[trigger] rest[k]).importance_milli)) by {
            assert(forall|k: int| 0 <= k < rest.len() ==> (#[trigger] rest[k]) == s[k + 1]);
        }
        assert(p - 1 < rest.len() ==> x.importance_milli > rest[p - 1].importance_milli) by {
            if p - 1 < rest.len() {
                assert(rest[p - 1] == s[p]);
            }
        }
        lemma_insert_desc_c_at(x, rest, p - 1);
        assert(insert_desc_c(x, s) == seq![s[0]] + rest.insert(p - 1, x));
        assert(seq![s[0]] + rest.insert(p - 1, x) =~= s.insert(p, x));
    }
}

/// Sorts components by importance, highest first, by stable insertion.
pub fn sort_components_desc(v: Vec<FoundationalComponent>) -> (r: Vec<FoundationalComponent>)
    ensures
        r.deep_view() == sort_desc_c(v.deep_view()),
{
    let mut rest = v;
    let mut out: Vec<FoundationalComponent> = Vec::new();
    let ghost full = rest.deep_view();
    let ghost done: int = 0;
    proof {
        assert(full.take(0) =~= Seq::<CompV>::empty());
        assert(out.deep_view() =~= sort_desc_c(full.take(0)));
    }
    while rest.len() > 0
        invariant
            0 <= done <= full.len(),
            rest.deep_view() =~= full.skip(done),
            out.deep_view() == sort_desc_c(full.take(done)),
        decreases rest@.len(),
    {
        let ghost pre_rest = rest.deep_view();
        let x = rest.remove(0);
        proof {
            assert(rest.deep_view() =~= pre_rest.drop_first());
            assert(rest.deep_view() =~= full.skip(done + 1));
            assert(x.deep_view() == pre_rest[0]);
            assert(pre_rest[0] == full.skip(done)[0]);
            assert(x@ == full[done]);
        }
        let mut p: usize = 0;
        while p < out.len() && !(x.importance_milli > out[p].importance_milli)
            invariant
                p <= out@.len(),
                forall|k: int|
                    0 <= k < p ==> !(x@.importance_milli > (
                    #[trigger] out.deep_view()[k]).importance_milli),
            decreases out@.len() - p,
        {
            p = p + 1;
        }
        let ghost pre_out = out.deep_view();
        out.insert(p, x);
        proof {
            assert(out.deep_view() =~= pre_out.insert(p as int, x@));
            lemma_insert_desc_c_at(x@, pre_out, p as int);
            assert(full.take(done + 1).drop_last() =~= full.take(done));
            assert(full.take(done + 1).last() == full[done]);
            assert(out.deep_view() == sort_desc_c(full.take(done + 1)));
        }
        proof {
            done = done + 1;
        }
    }
    proof {
        assert(full.take(done) =~= full);
    }
    out
}

/// Spec-level image of the semantic analyzer.
pub ghost struct SemV {
    pub kb: KbV,
    pub extractors: Seq<ExtractorV>,
    pub rel_pats: Seq<RelPatV>,
    pub similarity_threshold_milli: u32,
    pub confidence_threshold_milli: u32,
}

/// The fixed component extractor battery: category-tagged word lists with
/// extractor weights in thousandths.
pub open spec fn fixed_extractors() -> Seq<ExtractorV> {
    seq![
        ExtractorV {
            name: "mechanical_components"@,
            patterns: seq![
                "\\b(motor|engine|gear|bearing|shaft|piston|turbine|pump|compressor|fan|propeller)\\b"@,
                "\\b(actuator|servo|stepper|valve|clutch|brake|transmission|coupling)\\b"@,
            ],
            category: CategoryV::Mechanical,
            weight_milli: 800,
        },
        ExtractorV {
            name: "electrical_components"@,
            patterns: seq![
                "\\b(battery|capacitor|resistor|transistor|diode|circuit|sensor|microcontroller)\\b"@,
                "\\b(power supply|transformer|inverter|converter|relay|switch|connector)\\b"@,
            ],
            category: CategoryV::Electrical,
            weight_milli: 850,
        },
        ExtractorV {
            name: "structural_components"@,
            patterns: seq![
                "\\b(frame|chassis|beam|column|foundation|support|bracket|mount|housing)\\b"@,
                "\\b(panel|plate|shell|casing|structure|framework|skeleton)\\b"@,
            ],
            category: CategoryV::Structure,
            weight_milli: 750,
        },
        ExtractorV {
            name: "control_components"@,
            patterns: seq![
                "\\b(controller|processor|computer|ECU|flight controller|autopilot)\\b"@,
                "\\b(sensor|gyroscope|accelerometer|GPS|IMU|barometer|compass)\\b"@,
            ],
            category: CategoryV::System,
            weight_milli: 900,
        },
        ExtractorV {
            name: "thermal_components"@,
            patterns: seq![
                "\\b(radiator|heat sink|cooling fan|thermal pad|heat exchanger)\\b"@,
                "\\b(insulation|thermal barrier|coolant|refrigeration)\\b"@,
            ],
            category: CategoryV::Thermal,
            weight_milli: 700,
        },
    ]
}

/// The fixed relationship pattern battery, in scan order.
pub open spec fn fixed_rel_pats() -> Seq<RelPatV> {
    seq![
        RelPatV {
            src: "(\\w+)\\s+(?:is|are)\\s+(?:part of|component of|element of)\\s+(\\w+)"@,
            relation_type: RelationType::PartOf,
            confidence_milli: 900,
        },
        RelPatV {
            src: "(\\w+)\\s+(?:requires|needs|depends on)\\s+(\\w+)"@,
            relation_type: RelationType::Requires,
            confidence_milli: 850,
        },
        RelPatV {
            src: "(\\w+)\\s+(?:controls|manages|regulates)\\s+(\\w+)"@,
            relation_type: RelationType::Controls,
            confidence_milli: 800,
        },
        RelPatV {
            src: "(\\w+)\\s+(?:connects to|links to|attached to)\\s+(\\w+)"@,
            relation_type: RelationType::Connects,
            confidence_milli: 750,
        },
        RelPatV {
            src: "(\\w+)\\s+(?:supports|holds|carries)\\s+(\\w+)"@,
            relation_type: RelationType::Supports,
            confidence_milli: 800,
        },
        RelPatV {
            src: "(\\w+)\\s+(?:converts|transforms|changes)\\s+.*(?:into|to)\\s+(\\w+)"@,
            relation_type: RelationType::Converts,
            confidence_milli: 700,
        },
    ]
}

/// Whether the whole fixed semantic table compiles.
pub open spec fn semantic_tables_compile() -> bool {
    &&& forall|e: int, p: int|
        0 <= e < fixed_extractors().len() && 0 <= p < fixed_extractors()[e].patterns.len()
            ==> pattern_compiles(#[trigger] fixed_extractors()[e].patterns[p])
    &&& forall|i: int|
        0 <= i < fixed_rel_pats().len() ==> pattern_compiles(#[trigger] fixed_rel_pats()[i].src)
}

/// Every relationship confidence registered in the knowledge base is a valid
/// thousandths score.
pub open spec fn kb_wf(kb: KbV) -> bool {
    forall|i: int, j: int|
        0 <= i < kb.relationships.len() && 0 <= j < (#[trigger] kb.relationships[i]).1.len()
            ==> (#[trigger] kb.relationships[i].1[j]).confidence_milli <= 1000
}

/// The semantic analyzer: the knowledge base, the extractor battery, the
/// relationship patterns, and the two fixed thresholds.
pub struct SemanticAnalyzer {
    concept_knowledge: ConceptKnowledgeBase,
    component_extractors: Vec<ComponentExtractor>,
    relationship_patterns: Vec<RelationshipPattern>,
    similarity_threshold_milli: u32,
    confidence_threshold_milli: u32,
}

impl View for SemanticAnalyzer {
    type V = SemV;

    closed spec fn view(&self) -> SemV {
        SemV {
            kb: self.concept_knowledge@,
            extractors: self.component_extractors.deep_view(),
            rel_pats: self.relationship_patterns.deep_view(),
            similarity_threshold_milli: self.similarity_threshold_milli,
            confidence_threshold_milli: self.confidence_threshold_milli,
        }
    }
}

/// A fresh relationship record with a valid score.
fn rel(component: &str, relation_type: RelationType, confidence_milli: u32) -> (r:
    ComponentRelation)
    requires
        confidence_milli <= 1000,
    ensures
        r@ == (RelV { component: component@, relation_type, confidence_milli }),
{
    ComponentRelation {
        component: String::from_str(component),
        relation_type,
        confidence_milli,
    }
}

impl SemanticAnalyzer {
    /// The analyzer as [`Self::new`] builds it: the fixed extractor and
    /// relationship tables, and a knowledge base with valid scores.
    pub open spec fn wf(self) -> bool {
        &&& kb_wf(self@.kb)
        &&& self@.extractors =~~= fixed_extractors()
        &&& self@.rel_pats =~~= fixed_rel_pats()
    }

    /// Builds the static knowledge base, compiles the extractor and
    /// relationship tables. Succeeds exactly when every pattern compiles.
    pub fn new() -> (r: Result<Self, WikiEngineError>)
        ensures
            (r matches Ok(_)) == semantic_tables_compile(),
            r matches Ok(a) ==> a.wf(),
    {
        let e0 = compile_pattern(
            "\\b(motor|engine|gear|bearing|shaft|piston|turbine|pump|compressor|fan|propeller)\\b",
        );
        let e1 = compile_pattern(
            "\\b(actuator|servo|stepper|valve|clutch|brake|transmission|coupling)\\b",
        );
        let e2 = compile_pattern(
            "\\b(battery|capacitor|resistor|transistor|diode|circuit|sensor|microcontroller)\\b",
        );
        let e3 = compile_pattern(
            "\\b(power supply|transformer|inverter|converter|relay|switch|connector)\\b",
        );
        let e4 = compile_pattern(
            "\\b(frame|chassis|beam|column|foundation|support|bracket|mount|housing)\\b",
        );
        let e5 = compile_pattern("\\b(panel|plate|shell|casing|structure|framework|skeleton)\\b");
        let e6 = compile_pattern("\\b(controller|processor|computer|ECU|flight controller|autopilot)\\b");
        let e7 = compile_pattern(
            "\\b(sensor|gyroscope|accelerometer|GPS|IMU|barometer|compass)\\b",
        );
        let e8 = compile_pattern("\\b(radiator|heat sink|cooling fan|thermal pad|heat exchanger)\\b");
        let e9 = compile_pattern("\\b(insulation|thermal barrier|coolant|refrigeration)\\b");
        let r0 = compile_pattern("(\\w+)\\s+(?:is|are)\\s+(?:part of|component of|element of)\\s+(\\w+)");
        let r1 = compile_pattern("(\\w+)\\s+(?:requires|needs|depends on)\\s+(\\w+)");
        let r2 = compile_pattern("(\\w+)\\s+(?:controls|manages|regulates)\\s+(\\w+)");
        let r3 = compile_pattern("(\\w+)\\s+(?:connects to|links to|attached to)\\s+(\\w+)");
        let r4 = compile_pattern("(\\w+)\\s+(?:supports|holds|carries)\\s+(\\w+)");
        let r5 = compile_pattern("(\\w+)\\s+(?:converts|transforms|changes)\\s+.*(?:into|to)\\s+(\\w+)");
        match (e0, e1, e2, e3, e4, e5, e6, e7, e8, e9, r0, r1, r2, r3, r4, r5) {
            (
                Some(e0),
                Some(e1),
                Some(e2),
                Some(e3),
                Some(e4),
                Some(e5),
                Some(e6),
                Some(e7),
                Some(e8),
                Some(e9),
                Some(r0),
                Some(r1),
                Some(r2),
                Some(r3),
                Some(r4),
                Some(r5),
            ) => {
                let mut extractors: Vec<ComponentExtractor> = Vec::new();
                extractors.push(mk_extractor("mechanical_components", e0, e1, PrincipleCategory::Mechanical, 800));
                extractors.push(mk_extractor("electrical_components", e2, e3, PrincipleCategory::Electrical, 850));
                extractors.push(mk_extractor("structural_components", e4, e5, PrincipleCategory::Structure, 750));
                extractors.push(mk_extractor("control_components", e6, e7, PrincipleCategory::System, 900));
                extractors.push(mk_extractor("thermal_components", e8, e9, PrincipleCategory::Thermal, 700));
                let mut rel_pats: Vec<RelationshipPattern> = Vec::new();
                rel_pats.push(RelationshipPattern { pattern: r0, relation_type: RelationType::PartOf, confidence_milli: 900 });
                rel_pats.push(RelationshipPattern { pattern: r1, relation_type: RelationType::Requires, confidence_milli: 850 });
                rel_pats.push(RelationshipPattern { pattern: r2, relation_type: RelationType::Controls, confidence_milli: 800 });
                rel_pats.push(RelationshipPattern { pattern: r3, relation_type: RelationType::Connects, confidence_milli: 750 });
                rel_pats.push(RelationshipPattern { pattern: r4, relation_type: RelationType::Supports, confidence_milli: 800 });
                rel_pats.push(RelationshipPattern { pattern: r5, relation_type: RelationType::Converts, confidence_milli: 700 });
                let a = SemanticAnalyzer {
                    concept_knowledge: build_knowledge_base(),
                    component_extractors: extractors,
                    relationship_patterns: rel_pats,
                    similarity_threshold_milli: 600,
                    confidence_threshold_milli: 400,
                };
                proof {
                    assert(a@.extractors =~~= fixed_extractors());
                    assert(a@.rel_pats =~~= fixed_rel_pats());
                    assert(semantic_tables_compile()) by {
                        assert forall|e: int, p: int|
                            0 <= e < fixed_extractors().len() && 0 <= p < fixed_extractors()[e].patterns.len()
                                implies pattern_compiles(
                            #[trigger] fixed_extractors()[e].patterns[p]) by {
                            assert(fixed_extractors()[e].patterns[p] == a@.extractors[e].patterns[p]);
                        }
                        assert forall|i: int| 0 <= i < fixed_rel_pats().len() implies pattern_compiles(
                            #[trigger] fixed_rel_pats()[i].src,
                        ) by {
                            assert(fixed_rel_pats()[i].src == a@.rel_pats[i].src);
                        }
                    }
                }
                Ok(a)
            },
            _ => {
                proof {
                    if semantic_tables_compile() {
                        assert(pattern_compiles(fixed_extractors()[0].patterns[0]));
                        assert(pattern_compiles(fixed_extractors()[0].patterns[1]));
                        assert(pattern_compiles(fixed_extractors()[1].patterns[0]));
                        assert(pattern_compiles(fixed_extractors()[1].patterns[1]));
                        assert(pattern_compiles(fixed_extractors()[2].patterns[0]));
                        assert(pattern_compiles(fixed_extractors()[2].patterns[1]));
                        assert(pattern_compiles(fixed_extractors()[3].patterns[0]));
                        assert(pattern_compiles(fixed_extractors()[3].patterns[1]));
                        assert(pattern_compiles(fixed_extractors()[4].patterns[0]));
                        assert(pattern_compiles(fixed_extractors()[4].patterns[1]));
                        assert(pattern_compiles(fixed_rel_pats()[0].src));
                        assert(pattern_compiles(fixed_rel_pats()[1].src));
                        assert(pattern_compiles(fixed_rel_pats()[2].src));
                        assert(pattern_compiles(fixed_rel_pats()[3].src));
                        assert(pattern_compiles(fixed_rel_pats()[4].src));
                        assert(pattern_compiles(fixed_rel_pats()[5].src));
                        assert(false);
                    }
                }
                Err(WikiEngineError::Analysis(String::from_str("pattern compilation failed")))
            },
        }
    }
}

/// An extractor from two compiled patterns.
fn mk_extractor(
    name: &str,
    p0: Pattern,
    p1: Pattern,
    category: PrincipleCategory,
    weight_milli: u32,
) -> (r: ComponentExtractor)
    ensures
        r@ == (ExtractorV {
            name: name@,
            patterns: seq![p0.src@, p1.src@],
            category: category@,
            weight_milli,
        }),
{
    let mut patterns: Vec<Pattern> = Vec::new();
    patterns.push(p0);
    patterns.push(p1);
    let r = ComponentExtractor {
        name: String::from_str(name),
        patterns,
        category,
        weight_milli,
    };
    proof {
        assert(r@.patterns =~= seq![r.patterns@[0].src@, r.patterns@[1].src@]);
    }
    r
}

/// A list of fresh strings.
fn push_str(v: &mut Vec<String>, x: &str)
    ensures
        final(v).deep_view() == old(v).deep_view().push(x@),
{
    let ghost pre = v.deep_view();
    v.push(String::from_str(x));
    proof {
        assert(v.deep_view() =~= pre.push(x@));
    }
}

/// The static concept graph: hierarchies, typed relationships, category
/// hints and synonyms.
fn build_knowledge_base() -> (r: ConceptKnowledgeBase)
    ensures
        kb_wf(r@),
{
    let mut hier: Vec<(String, Vec<String>)> = Vec::new();
    let mut subs: Vec<String> = Vec::new();
    push_str(&mut subs, "propulsion system");
    push_str(&mut subs, "flight controller");
    push_str(&mut subs, "power system");
    push_str(&mut subs, "communication system");
    push_str(&mut subs, "navigation system");
    push_str(&mut subs, "structural frame");
    push_str(&mut subs, "payload system");
    push_str(&mut subs, "motor");
    push_str(&mut subs, "battery");
    hier.push((String::from_str("uav"), subs));
    let mut subs: Vec<String> = Vec::new();
    push_str(&mut subs, "motor");
    push_str(&mut subs, "propeller");
    push_str(&mut subs, "electronic speed controller");
    push_str(&mut subs, "motor mount");
    hier.push((String::from_str("propulsion system"), subs));
    let mut subs: Vec<String> = Vec::new();
    push_str(&mut subs, "battery");
    push_str(&mut subs, "power distribution board");
    push_str(&mut subs, "voltage regulator");
    push_str(&mut subs, "charging system");
    hier.push((String::from_str("power system"), subs));
    let mut subs: Vec<String> = Vec::new();
    push_str(&mut subs, "microprocessor");
    push_str(&mut subs, "inertial measurement unit");
    push_str(&mut subs, "gyroscope");
    push_str(&mut subs, "accelerometer");
    push_str(&mut subs, "barometer");
    hier.push((String::from_str("flight controller"), subs));
    let mut subs: Vec<String> = Vec::new();
    push_str(&mut subs, "combustion chamber");
    push_str(&mut subs, "piston");
    push_str(&mut subs, "crankshaft");
    push_str(&mut subs, "valve system");
    push_str(&mut subs, "fuel injection system");
    push_str(&mut subs, "cooling system");
    push_str(&mut subs, "ignition system");
    hier.push((String::from_str("engine"), subs));
    let mut subs: Vec<String> = Vec::new();
    push_str(&mut subs, "foundation");
    push_str(&mut subs, "deck");
    push_str(&mut subs, "superstructure");
    push_str(&mut subs, "support cables");
    push_str(&mut subs, "anchoring system");
    hier.push((String::from_str("bridge"), subs));

    let mut rels: Vec<(String, Vec<ComponentRelation>)> = Vec::new();
    let mut uav_rels: Vec<ComponentRelation> = Vec::new();
    uav_rels.push(rel("motor", RelationType::PartOf, 950));
    uav_rels.push(rel("battery", RelationType::Requires, 980));
    uav_rels.push(rel("propeller", RelationType::PartOf, 900));
    uav_rels.push(rel("flight controller", RelationType::Controls, 920));
    rels.push((String::from_str("uav"), uav_rels));

    let mut cats: Vec<(String, PrincipleCategory)> = Vec::new();
    cats.push((String::from_str("motor"), PrincipleCategory::Mechanical));
    cats.push((String::from_str("battery"), PrincipleCategory::Electrical));
    cats.push((String::from_str("propeller"), PrincipleCategory::Mechanical));
    cats.push((String::from_str("flight controller"), PrincipleCategory::System));
    cats.push((String::from_str("frame"), PrincipleCategory::Structure));

    let mut syns: Vec<(String, Vec<String>)> = Vec::new();
    let mut alts: Vec<String> = Vec::new();
    push_str(&mut alts, "drone");
    push_str(&mut alts, "unmanned aerial vehicle");
    push_str(&mut alts, "quadcopter");
    syns.push((String::from_str("uav"), alts));
    let mut alts: Vec<String> = Vec::new();
    push_str(&mut alts, "engine");
    push_str(&mut alts, "actuator");
    syns.push((String::from_str("motor"), alts));
    let mut alts: Vec<String> = Vec::new();
    push_str(&mut alts, "power source");
    push_str(&mut alts, "energy storage");
    syns.push((String::from_str("battery"), alts));

    let r = ConceptKnowledgeBase {
        concept_hierarchies: hier,
        component_relationships: rels,
        category_mappings: cats,
        synonyms: syns,
    };
    proof {
        assert forall|i: int, j: int|
            0 <= i < r@.relationships.len() && 0 <= j < (#[trigger] r@.relationships[i]).1.len()
                implies (#[trigger] r@.relationships[i].1[j]).confidence_milli <= 1000 by {
            assert(i == 0);
            assert(r@.relationships[0].1 =~= r.component_relationships@[0].1.deep_view());
        }
    }
    r
}

/// Whether a synonym entry matches the lowercased concept.
pub open spec fn norm_match(e: (Seq<char>, Seq<Seq<char>>), l: Seq<char>) -> bool {
    e.0 == l || e.1.contains(l)
}

/// The first synonym entry matching `l`, or `-1`.
pub open spec fn norm_idx(syns: Seq<(Seq<char>, Seq<Seq<char>>)>, l: Seq<char>) -> int
    decreases syns.len(),
{
    if syns.len() == 0 {
        -1
    } else if norm_match(syns[0], l) {
        0
    } else {
        let r = norm_idx(syns.drop_first(), l);
        if r < 0 {
            -1
        } else {
            r + 1
        }
    }
}

/// What [`norm_idx`] returns.
pub proof fn lemma_norm_idx(syns: Seq<(Seq<char>, Seq<Seq<char>>)>, l: Seq<char>)
    ensures
        norm_idx(syns, l) == -1 ==> forall|i: int|
            0 <= i < syns.len() ==> !norm_match(#[trigger] syns[i], l),
        norm_idx(syns, l) >= 0 ==> 0 <= norm_idx(syns, l) < syns.len() && norm_match(
            syns[norm_idx(syns, l)],
            l,
        ) && forall|i: int| 0 <= i < norm_idx(syns, l) ==> !norm_match(#[trigger] syns[i], l),
    decreases syns.len(),
{
    if syns.len() > 0 && !norm_match(syns[0], l) {
        lemma_norm_idx(syns.drop_first(), l);
        assert forall|i: int| 1 <= i < syns.len() implies #[trigger] syns[i] == syns.drop_first()[i
            - 1] by {}
    }
}

/// The canonical key for a lowercased concept: the first synonym entry it
/// matches, or the concept itself.
pub open spec fn normalize_of(kb: KbV, l: Seq<char>) -> Seq<char> {
    let i = norm_idx(kb.synonyms, l);
    if i >= 0 {
        kb.synonyms[i].0
    } else {
        l
    }
}

/// The registered category of a component, `System` when none is.
pub open spec fn category_for(kb: KbV, name: Seq<char>) -> CategoryV {
    let i = assoc_idx(kb.categories, name);
    if i >= 0 {
        kb.categories[i].1
    } else {
        CategoryV::System
    }
}

/// The category-templated description of a component.
pub open spec fn description_of(name: Seq<char>, cat: CategoryV) -> Seq<char> {
    name + (match cat {
        CategoryV::Mechanical => " is a mechanical component that provides movement, force transmission, or mechanical advantage"@,
        CategoryV::Electrical => " is an electrical component that manages power, control signals, or energy conversion"@,
        CategoryV::Structure => " is a structural component that provides support, stability, or load distribution"@,
        CategoryV::System => " is a system component that provides control, coordination, or integration functionality"@,
        CategoryV::Thermal => " is a thermal component that manages heat transfer, temperature control, or thermal regulation"@,
        CategoryV::Material => " is a material component that provides specific material properties or characteristics"@,
        _ => " is an engineering component with specialized functionality"@,
    })
}

/// The importance bonus a relationship kind carries, in thousandths.
pub open spec fn kind_bonus(t: RelationType) -> int {
    match t {
        RelationType::Requires => 300,
        RelationType::Controls => 250,
        RelationType::PartOf => 200,
        _ => 100,
    }
}

/// The summed relationship bonuses of `name` over a relationship list: kind
/// bonus plus a fifth of the relationship's confidence, per matching entry.
pub open spec fn rel_sum(rels: Seq<RelV>, name: Seq<char>) -> int
    decreases rels.len(),
{
    if rels.len() == 0 {
        0
    } else {
        rel_sum(rels.drop_last(), name) + if rels.last().component == name {
            kind_bonus(rels.last().relation_type) + rels.last().confidence_milli as int / 5
        } else {
            0
        }
    }
}

/// Relationship bonuses are non-negative and bounded by the list length.
pub proof fn lemma_rel_sum_bounds(rels: Seq<RelV>, name: Seq<char>)
    requires
        forall|j: int| 0 <= j < rels.len() ==> (#[trigger] rels[j]).confidence_milli <= 1000,
    ensures
        0 <= rel_sum(rels, name) <= rels.len() * 500,
    decreases rels.len(),
{
    if rels.len() > 0 {
        assert(forall|j: int|
            0 <= j < rels.drop_last().len() ==> (#[trigger] rels.drop_last()[j]).confidence_milli
                <= 1000) by {
            assert(forall|j: int|
                0 <= j < rels.drop_last().len() ==> rels.drop_last()[j] == #[trigger] rels[j]);
        }
        lemma_rel_sum_bounds(rels.drop_last(), name);
        assert((rels.len() - 1) * 500 + 500 == rels.len() * 500) by (nonlinear_arith);
    }
}

/// The fixed list of components always counted as critical.
pub open spec fn is_critical(name: Seq<char>) -> bool {
    ||| name == "motor"@
    ||| name == "battery"@
    ||| name == "controller"@
    ||| name == "processor"@
    ||| name == "engine"@
    ||| name == "frame"@
}

/// A component's importance under a parent concept, in thousandths: a half
/// as base, relationship bonuses, a fifth for critical components, clamped
/// to one.
pub open spec fn importance_of(kb: KbV, name: Seq<char>, parent: Seq<char>) -> int {
    let ri = assoc_idx(kb.relationships, parent);
    let base = 500 + (if ri >= 0 {
        rel_sum(kb.relationships[ri].1, name)
    } else {
        0int
    }) + (if is_critical(name) {
        200int
    } else {
        0int
    });
    if base > 1000 {
        1000
    } else {
        base
    }
}

/// The registered sub-component names of a concept, none when unregistered.
pub open spec fn sub_components_for(kb: KbV, name: Seq<char>) -> Seq<Seq<char>> {
    let i = assoc_idx(kb.hierarchies, name);
    if i >= 0 {
        kb.hierarchies[i].1
    } else {
        Seq::<Seq<char>>::empty()
    }
}

/// The knowledge-base component built for a sub-concept of `parent`.
pub open spec fn comp_from_kb(kb: KbV, name: Seq<char>, parent: Seq<char>) -> CompV {
    let cat = category_for(kb, name);
    CompV {
        name,
        category: cat,
        description: description_of(name, cat),
        importance_milli: importance_of(kb, name, parent) as u32,
        sub_components: sub_components_for(kb, name),
    }
}

/// The knowledge-base components of all sub-concepts, in registration order.
pub open spec fn comps_from_kb(kb: KbV, subs: Seq<Seq<char>>, parent: Seq<char>) -> Seq<CompV>
    decreases subs.len(),
{
    if subs.len() == 0 {
        Seq::<CompV>::empty()
    } else {
        comps_from_kb(kb, subs.drop_last(), parent) + seq![
            comp_from_kb(kb, subs.last(), parent),
        ]
    }
}

/// The relationships registered for a concept, none when unregistered.
pub open spec fn relationships_for(kb: KbV, name: Seq<char>) -> Seq<RelV> {
    let i = assoc_idx(kb.relationships, name);
    if i >= 0 {
        kb.relationships[i].1
    } else {
        Seq::<RelV>::empty()
    }
}

impl SemanticAnalyzer {
    /// Normalizes a concept: lowercase, then the canonical synonym key.
    pub fn normalize_concept(&self, concept: &str) -> (r: String)
        ensures
            r@ == normalize_of(self@.kb, lower_of(concept@)),
    {
        let l = crate::outside::lowercase(concept);
        let ghost syns = self@.kb.synonyms;
        let mut i: usize = 0;
        proof {
            lemma_norm_idx(syns, l@);
        }
        while i < self.concept_knowledge.synonyms.len()
            invariant
                i <= syns.len(),
                syns == self@.kb.synonyms,
                l@ == lower_of(concept@),
                forall|k: int| 0 <= k < i ==> !norm_match(#[trigger] syns[k], l@),
            decreases syns.len() - i,
        {
            let entry = &self.concept_knowledge.synonyms[i];
            proof {
                assert(syns[i as int].0 == entry.0@);
                assert(syns[i as int].1 == entry.1.deep_view());
            }
            if crate::text::str_eq(entry.0.as_str(), l.as_str()) || crate::text::vec_contains_str(
                &entry.1,
                l.as_str(),
            ) {
                proof {
                    lemma_norm_idx(syns, l@);
                    assert(norm_match(syns[i as int], l@));
                }
                return entry.0.clone();
            }
            i = i + 1;
        }
        proof {
            lemma_norm_idx(syns, l@);
            if norm_idx(syns, l@) >= 0 {
                assert(norm_match(syns[norm_idx(syns, l@)], l@));
                assert(false);
            }
        }
        l
    }

    /// The registered category of a component, `System` when none is.
    pub fn lookup_category(&self, name: &str) -> (r: PrincipleCategory)
        ensures
            r@ == category_for(self@.kb, name@),
    {
        let ghost cats = self@.kb.categories;
        let mut i: usize = 0;
        proof {
            lemma_assoc_idx(cats, name@);
        }
        while i < self.concept_knowledge.category_mappings.len()
            invariant
                i <= cats.len(),
                cats == self@.kb.categories,
                forall|k: int| 0 <= k < i ==> (#[trigger] cats[k]).0 != name@,
            decreases cats.len() - i,
        {
            let entry = &self.concept_knowledge.category_mappings[i];
            proof {
                assert(cats[i as int].0 == entry.0@);
                assert(cats[i as int].1 == entry.1@);
            }
            if crate::text::str_eq(entry.0.as_str(), name) {
                proof {
                    lemma_assoc_idx(cats, name@);
                }
                return entry.1.duplicate();
            }
            i = i + 1;
        }
        proof {
            lemma_assoc_idx(cats, name@);
            if assoc_idx(cats, name@) >= 0 {
                assert(false);
            }
        }
        PrincipleCategory::System
    }

    /// The category-templated description of a component.
    pub fn generate_component_description(&self, component: &str, category: &PrincipleCategory)
        -> (r: String)
        ensures
            r@ == description_of(component@, category@),
    {
        let base = String::from_str(component);
        match category {
            PrincipleCategory::Mechanical => base.concat(
                " is a mechanical component that provides movement, force transmission, or mechanical advantage",
            ),
            PrincipleCategory::Electrical => base.concat(
                " is an electrical component that manages power, control signals, or energy conversion",
            ),
            PrincipleCategory::Structure => base.concat(
                " is a structural component that provides support, stability, or load distribution",
            ),
            PrincipleCategory::System => base.concat(
                " is a system component that provides control, coordination, or integration functionality",
            ),
            PrincipleCategory::Thermal => base.concat(
                " is a thermal component that manages heat transfer, temperature control, or thermal regulation",
            ),
            PrincipleCategory::Material => base.concat(
                " is a material component that provides specific material properties or characteristics",
            ),
            _ => base.concat(" is an engineering component with specialized functionality"),
        }
    }

    /// Whether `name` is on the fixed critical-component list.
    fn critical(name: &str) -> (r: bool)
        ensures
            r == is_critical(name@),
    {
        crate::text::str_eq(name, "motor") || crate::text::str_eq(name, "battery")
            || crate::text::str_eq(name, "controller") || crate::text::str_eq(name, "processor")
            || crate::text::str_eq(name, "engine") || crate::text::str_eq(name, "frame")
    }

    /// The index of a concept's relationship entry, if one is registered.
    fn find_rels_index(&self, parent_concept: &str) -> (r: Option<usize>)
        ensures
            r matches Some(i) ==> 0 <= i < self@.kb.relationships.len() && i == assoc_idx(
                self@.kb.relationships,
                parent_concept@,
            ),
            r is None ==> assoc_idx(self@.kb.relationships, parent_concept@) == -1,
    {
        let ghost relsv = self@.kb.relationships;
        let mut i: usize = 0;
        while i < self.concept_knowledge.component_relationships.len()
            invariant
                i <= relsv.len(),
                relsv == self@.kb.relationships,
                forall|k: int| 0 <= k < i ==> (#[trigger] relsv[k]).0 != parent_concept@,
            decreases relsv.len() - i,
        {
            let entry = &self.concept_knowledge.component_relationships[i];
            proof {
                assert(relsv[i as int].0 == entry.0@);
            }
            if crate::text::str_eq(entry.0.as_str(), parent_concept) {
                proof {
                    lemma_assoc_idx(relsv, parent_concept@);
                }
                return Some(i);
            }
            i = i + 1;
        }
        proof {
            lemma_assoc_idx(relsv, parent_concept@);
            if assoc_idx(relsv, parent_concept@) >= 0 {
                assert(false);
            }
        }
        None
    }

    /// A component's importance under a parent concept, in thousandths.
    pub fn calculate_component_importance(&self, component: &str, parent_concept: &str) -> (r: u32)
        requires
            kb_wf(self@.kb),
        ensures
            r == importance_of(self@.kb, component@, parent_concept@),
            r <= 1000,
    {
        let ghost relsv = self@.kb.relationships;
        let found = self.find_rels_index(parent_concept);
        let mut sum: u128 = 0;
        let ghost ridx = assoc_idx(relsv, parent_concept@);
        match found {
            None => {
            },
            Some(fi) => {
                proof {
                    lemma_assoc_idx(relsv, parent_concept@);
                    assert(ridx == fi);
                }
                let rels = &self.concept_knowledge.component_relationships[fi].1;
                let ghost rv = relsv[fi as int].1;
                proof {
                    assert(rv == rels.deep_view());
                    assert forall|j: int| 0 <= j < rv.len() implies (
                    #[trigger] rv[j]).confidence_milli <= 1000 by {
                        assert(relsv[fi as int].1[j].confidence_milli <= 1000);
                    }
                }
                let mut j: usize = 0;
                proof {
                    assert(rv.take(0) =~= Seq::<RelV>::empty());
                    lemma_rel_sum_bounds(rv.take(0), component@);
                }
                while j < rels.len()
                    invariant
                        j <= rv.len(),
                        rv == rels.deep_view(),
                        forall|k: int| 0 <= k < rv.len() ==> (#[trigger] rv[k]).confidence_milli
                            <= 1000,
                        sum == rel_sum(rv.take(j as int), component@),
                        sum <= j * 500,
                    decreases rv.len() - j,
                {
                    proof {
                        assert(rv.take((j + 1) as int).drop_last() =~= rv.take(j as int));
                        assert(rv.take((j + 1) as int).last() == rv[j as int]);
                        assert((j + 1) * 500 == j * 500 + 500) by (nonlinear_arith);
                    }
                    let re = &rels[j];
                    proof {
                        assert(re@ == rv[j as int]);
                    }
                    if crate::text::str_eq(re.component.as_str(), component) {
                        let kb: u32 = match re.relation_type {
                            RelationType::Requires => 300,
                            RelationType::Controls => 250,
                            RelationType::PartOf => 200,
                            _ => 100,
                        };
                        sum = sum + kb as u128 + (re.confidence_milli / 5) as u128;
                    }
                    j = j + 1;
                }
                proof {
                    assert(rv.take(rv.len() as int) =~= rv);
                }
            },
        }
        let crit: u128 = if Self::critical(component) {
            200
        } else {
            0
        };
        let base: u128 = 500 + sum + crit;
        if base > 1000 {
            1000
        } else {
            base as u32
        }
    }

    /// The relationships registered for a concept; none when unregistered.
    pub fn extract_relationships(&self, concept: &str) -> (r: Vec<ComponentRelation>)
        ensures
            r.deep_view() == relationships_for(self@.kb, concept@),
    {
        let ghost relsv = self@.kb.relationships;
        let mut i: usize = 0;
        proof {
            lemma_assoc_idx(relsv, concept@);
        }
        while i < self.concept_knowledge.component_relationships.len()
            invariant
                i <= relsv.len(),
                relsv == self@.kb.relationships,
                forall|k: int| 0 <= k < i ==> (#[trigger] relsv[k]).0 != concept@,
            decreases relsv.len() - i,
        {
            let entry = &self.concept_knowledge.component_relationships[i];
            proof {
                assert(relsv[i as int].0 == entry.0@);
                assert(relsv[i as int].1 == entry.1.deep_view());
            }
            if crate::text::str_eq(entry.0.as_str(), concept) {
                proof {
                    lemma_assoc_idx(relsv, concept@);
                }
                return clone_relations(&entry.1);
            }
            i = i + 1;
        }
        proof {
            lemma_assoc_idx(relsv, concept@);
            if assoc_idx(relsv, concept@) >= 0 {
                assert(false);
            }
        }
        let empty: Vec<ComponentRelation> = Vec::new();
        proof {
            assert(empty.deep_view() =~= Seq::<RelV>::empty());
        }
        empty
    }

    /// The registered sub-component names of a concept; none when
    /// unregistered.
    pub fn lookup_sub_components(&self, name: &str) -> (r: Vec<String>)
        ensures
            r.deep_view() == sub_components_for(self@.kb, name@),
    {
        let ghost hv = self@.kb.hierarchies;
        let mut i: usize = 0;
        proof {
            lemma_assoc_idx(hv, name@);
        }
        while i < self.concept_knowledge.concept_hierarchies.len()
            invariant
                i <= hv.len(),
                hv == self@.kb.hierarchies,
                forall|k: int| 0 <= k < i ==> (#[trigger] hv[k]).0 != name@,
            decreases hv.len() - i,
        {
            let entry = &self.concept_knowledge.concept_hierarchies[i];
            proof {
                assert(hv[i as int].0 == entry.0@);
                assert(hv[i as int].1 == entry.1.deep_view());
            }
            if crate::text::str_eq(entry.0.as_str(), name) {
                proof {
                    lemma_assoc_idx(hv, name@);
                }
                return crate::types::clone_string_vec(&entry.1);
            }
            i = i + 1;
        }
        proof {
            lemma_assoc_idx(hv, name@);
            if assoc_idx(hv, name@) >= 0 {
                assert(false);
            }
        }
        let empty: Vec<String> = Vec::new();
        proof {
            assert(empty.deep_view() =~= Seq::<Seq<char>>::empty());
        }
        empty
    }
}

/// The uppercase form of an ASCII lowercase letter; other characters stand.
pub open spec fn upper_char_spec(c: char) -> char {
    if c == 'a' {
        'A'
    } else if c == 'b' {
        'B'
    } else if c == 'c' {
        'C'
    } else if c == 'd' {
        'D'
    } else if c == 'e' {
        'E'
    } else if c == 'f' {
        'F'
    } else if c == 'g' {
        'G'
    } else if c == 'h' {
        'H'
    } else if c == 'i' {
        'I'
    } else if c == 'j' {
        'J'
    } else if c == 'k' {
        'K'
    } else if c == 'l' {
        'L'
    } else if c == 'm' {
        'M'
    } else if c == 'n' {
        'N'
    } else if c == 'o' {
        'O'
    } else if c == 'p' {
        'P'
    } else if c == 'q' {
        'Q'
    } else if c == 'r' {
        'R'
    } else if c == 's' {
        'S'
    } else if c == 't' {
        'T'
    } else if c == 'u' {
        'U'
    } else if c == 'v' {
        'V'
    } else if c == 'w' {
        'W'
    } else if c == 'x' {
        'X'
    } else if c == 'y' {
        'Y'
    } else if c == 'z' {
        'Z'
    } else {
        c
    }
}

/// A token with its first character uppercased.
pub open spec fn cap_token(t: Seq<char>) -> Seq<char> {
    if t.len() == 0 {
        t
    } else {
        seq![upper_char_spec(t[0])] + t.drop_first()
    }
}

/// Every token capitalized, in order.
pub open spec fn cap_tokens(ts: Seq<Seq<char>>) -> Seq<Seq<char>>
    decreases ts.len(),
{
    if ts.len() == 0 {
        ts
    } else {
        cap_tokens(ts.drop_last()).push(cap_token(ts.last()))
    }
}

/// Words capitalized and joined with single spaces.
pub open spec fn cap_words_of(s: Seq<char>) -> Seq<char> {
    crate::text::join_spaces(cap_tokens(crate::text::tokens_of(s)))
}

/// A word with its first ASCII letter uppercased.
fn upper_first(w: &str) -> (r: String)
    ensures
        r@ == cap_token(w@),
{
    let len: usize = w.unicode_len();
    if len == 0 {
        let r = String::new();
        proof {
            assert(r@ =~= cap_token(w@));
        }
        return r;
    }
    let c = w.get_char(0);
    let rest = w.substring_char(1, len);
    proof {
        reveal_strlit("A");
        reveal_strlit("B");
        reveal_strlit("C");
        reveal_strlit("D");
        reveal_strlit("E");
        reveal_strlit("F");
        reveal_strlit("G");
        reveal_strlit("H");
        reveal_strlit("I");
        reveal_strlit("J");
        reveal_strlit("K");
        reveal_strlit("L");
        reveal_strlit("M");
        reveal_strlit("N");
        reveal_strlit("O");
        reveal_strlit("P");
        reveal_strlit("Q");
        reveal_strlit("R");
        reveal_strlit("S");
        reveal_strlit("T");
        reveal_strlit("U");
        reveal_strlit("V");
        reveal_strlit("W");
        reveal_strlit("X");
        reveal_strlit("Y");
        reveal_strlit("Z");
    }
    let head: &str = if c == 'a' {
        "A"
    } else if c == 'b' {
        "B"
    } else if c == 'c' {
        "C"
    } else if c == 'd' {
        "D"
    } else if c == 'e' {
        "E"
    } else if c == 'f' {
        "F"
    } else if c == 'g' {
        "G"
    } else if c == 'h' {
        "H"
    } else if c == 'i' {
        "I"
    } else if c == 'j' {
        "J"
    } else if c == 'k' {
        "K"
    } else if c == 'l' {
        "L"
    } else if c == 'm' {
        "M"
    } else if c == 'n' {
        "N"
    } else if c == 'o' {
        "O"
    } else if c == 'p' {
        "P"
    } else if c == 'q' {
        "Q"
    } else if c == 'r' {
        "R"
    } else if c == 's' {
        "S"
    } else if c == 't' {
        "T"
    } else if c == 'u' {
        "U"
    } else if c == 'v' {
        "V"
    } else if c == 'w' {
        "W"
    } else if c == 'x' {
        "X"
    } else if c == 'y' {
        "Y"
    } else if c == 'z' {
        "Z"
    } else {
        let whole = w.substring_char(0, len);
        proof {
            assert(whole@ =~= w@);
            assert(cap_token(w@) =~= w@) by {
                assert(seq![upper_char_spec(w@[0])] + w@.drop_first() =~= w@);
            }
        }
        return String::from_str(whole);
    };
    let r = String::from_str(head).concat(rest);
    proof {
        assert(r@ =~= seq![upper_char_spec(w@[0])] + w@.drop_first());
    }
    r
}

/// Capitalizes each whitespace word and joins them with single spaces.
pub fn capitalize_words(text: &str) -> (r: String)
    ensures
        r@ == cap_words_of(text@),
{
    let toks = crate::text::tokenize(text);
    let ghost tv = toks.deep_view();
    let mut capped: Vec<String> = Vec::new();
    let mut i: usize = 0;
    proof {
        assert(tv.take(0) =~= Seq::<Seq<char>>::empty());
        assert(capped.deep_view() =~= cap_tokens(tv.take(0)));
    }
    while i < toks.len()
        invariant
            i <= tv.len(),
            tv == toks.deep_view(),
            tv == crate::text::tokens_of(text@),
            capped.deep_view() == cap_tokens(tv.take(i as int)),
        decreases tv.len() - i,
    {
        proof {
            assert(tv.take((i + 1) as int).drop_last() =~= tv.take(i as int));
            assert(tv.take((i + 1) as int).last() == tv[i as int]);
        }
        let ghost pre = capped.deep_view();
        capped.push(upper_first(toks[i].as_str()));
        proof {
            assert(capped.deep_view() =~= pre.push(cap_token(tv[i as int])));
        }
        i = i + 1;
    }
    proof {
        assert(tv.take(tv.len() as int) =~= tv);
    }
    crate::text::join_with_spaces(&capped)
}

/// The category-templated principle title for a component.
pub open spec fn title_for(name: Seq<char>, cat: CategoryV) -> Seq<char> {
    cap_words_of(name) + (match cat {
        CategoryV::Mechanical => " Mechanism"@,
        CategoryV::Electrical => " Circuit Principle"@,
        CategoryV::Structure => " Structural Design"@,
        CategoryV::System => " System Integration"@,
        CategoryV::Thermal => " Thermal Management"@,
        _ => " Engineering Principle"@,
    })
}

/// A component candidate read out of text by an extractor.
pub open spec fn comp_of_extract(name: Seq<char>, cat: CategoryV, w: int) -> CompV {
    CompV {
        name,
        category: cat,
        description: description_of(name, cat),
        importance_milli: (w * 8 / 10) as u32,
        sub_components: Seq::<Seq<char>>::empty(),
    }
}

/// The candidates one pattern contributes, in match order.
pub open spec fn pat_comp_cands(names: Seq<Seq<char>>, cat: CategoryV, w: int) -> Seq<CompV> {
    Seq::new(names.len(), |i: int| comp_of_extract(names[i], cat, w))
}

/// The candidates a pattern list contributes, in pattern order.
pub open spec fn pats_cands(pats: Seq<Seq<char>>, cat: CategoryV, w: int, lower: Seq<char>) -> Seq<
    CompV,
>
    decreases pats.len(),
{
    if pats.len() == 0 {
        Seq::<CompV>::empty()
    } else {
        pats_cands(pats.drop_last(), cat, w, lower) + pat_comp_cands(
            captured_strings(pats.last(), lower, 1),
            cat,
            w,
        )
    }
}

/// The candidates the whole extractor battery contributes, in battery order.
pub open spec fn extractor_cands(es: Seq<ExtractorV>, lower: Seq<char>) -> Seq<CompV>
    decreases es.len(),
{
    if es.len() == 0 {
        Seq::<CompV>::empty()
    } else {
        extractor_cands(es.drop_last(), lower) + pats_cands(
            es.last().patterns,
            es.last().category,
            es.last().weight_milli as int,
            lower,
        )
    }
}

/// The first-occurrence-by-name walk over the candidates.
pub open spec fn comp_dedup(s: Seq<CompV>, acc: Seq<CompV>) -> Seq<CompV>
    decreases s.len(),
{
    if s.len() == 0 {
        acc
    } else if exists|k: int| 0 <= k < acc.len() && (#[trigger] acc[k]).name == s[0].name {
        comp_dedup(s.drop_first(), acc)
    } else {
        comp_dedup(s.drop_first(), acc.push(s[0]))
    }
}

/// The typed relationships one relationship pattern reads out of text.
pub open spec fn rels_of_pat(rp: RelPatV, lower: Seq<char>) -> Seq<RelV> {
    Seq::new(
        captured_strings(rp.src, lower, 2).len(),
        |i: int|
            RelV {
                component: captured_strings(rp.src, lower, 2)[i],
                relation_type: rp.relation_type,
                confidence_milli: rp.confidence_milli,
            },
    )
}

/// The relationships the whole pattern battery reads, in battery order.
pub open spec fn rel_cands(rps: Seq<RelPatV>, lower: Seq<char>) -> Seq<RelV>
    decreases rps.len(),
{
    if rps.len() == 0 {
        Seq::<RelV>::empty()
    } else {
        rel_cands(rps.drop_last(), lower) + rels_of_pat(rps.last(), lower)
    }
}

/// Importance summed over components.
pub open spec fn sum_imp(s: Seq<CompV>) -> int
    decreases s.len(),
{
    if s.len() == 0 {
        0
    } else {
        sum_imp(s.drop_last()) + s.last().importance_milli
    }
}

/// The mean component importance, clamped to one; zero for no components.
pub open spec fn mean_imp(s: Seq<CompV>) -> int {
    if s.len() == 0 {
        0
    } else {
        let m = sum_imp(s) / s.len() as int;
        if m > 1000 {
            1000
        } else {
            m
        }
    }
}

/// The decomposition read out of source text by the extractor battery:
/// first-occurrence component candidates ranked by importance and capped at
/// ten, pattern-read relationships, and the mean importance as confidence.
pub open spec fn extract_spec(v: SemV, text: Seq<char>) -> DecompV {
    let lower = lower_of(text);
    let sorted = sort_desc_c(comp_dedup(extractor_cands(v.extractors, lower), Seq::empty()));
    let comps = if sorted.len() <= 10 {
        sorted
    } else {
        sorted.take(10)
    };
    DecompV {
        concept: "extracted_concept"@,
        components: comps,
        relationships: rel_cands(v.rel_pats, lower),
        confidence_milli: mean_imp(comps) as u32,
    }
}

/// The placeholder source text used when no page content is at hand.
pub open spec fn placeholder_text() -> Seq<char> {
    "Placeholder content for concept analysis"@
}

/// What decomposing a concept yields: the knowledge-base path for known
/// concepts at confidence `950`, else text extraction over the placeholder
/// content.
pub open spec fn decompose_spec(v: SemV, concept: Seq<char>) -> DecompV {
    let norm = normalize_of(v.kb, lower_of(concept));
    let hi = assoc_idx(v.kb.hierarchies, norm);
    if hi >= 0 {
        DecompV {
            concept,
            components: sort_desc_c(comps_from_kb(v.kb, v.kb.hierarchies[hi].1, norm)),
            relationships: relationships_for(v.kb, norm),
            confidence_milli: 950,
        }
    } else {
        extract_spec(v, placeholder_text())
    }
}

/// The principle a component maps to.
pub open spec fn principle_of_comp(c: CompV, url: Seq<char>) -> PrincipleV {
    PrincipleV {
        title: title_for(c.name, c.category),
        description: c.description,
        category: c.category,
        confidence_milli: c.importance_milli,
        source_url: url,
        related_terms: c.sub_components,
    }
}

/// The principles of all components, in component order.
pub open spec fn princs_of_comps(cs: Seq<CompV>, url: Seq<char>) -> Seq<PrincipleV>
    decreases cs.len(),
{
    if cs.len() == 0 {
        Seq::<PrincipleV>::empty()
    } else {
        princs_of_comps(cs.drop_last(), url).push(principle_of_comp(cs.last(), url))
    }
}

/// A decomposition rendered as confidence-ranked principles.
pub open spec fn decomp_principles_spec(d: DecompV, url: Seq<char>) -> Seq<PrincipleV> {
    crate::types::sort_desc_p(princs_of_comps(d.components, url))
}

impl SemanticAnalyzer {
    /// The index of a concept's hierarchy entry, if one is registered.
    fn find_hier_index(&self, concept: &str) -> (r: Option<usize>)
        ensures
            r matches Some(i) ==> 0 <= i < self@.kb.hierarchies.len() && i == assoc_idx(
                self@.kb.hierarchies,
                concept@,
            ),
            r is None ==> assoc_idx(self@.kb.hierarchies, concept@) == -1,
    {
        let ghost hv = self@.kb.hierarchies;
        let mut i: usize = 0;
        while i < self.concept_knowledge.concept_hierarchies.len()
            invariant
                i <= hv.len(),
                hv == self@.kb.hierarchies,
                forall|k: int| 0 <= k < i ==> (#[trigger] hv[k]).0 != concept@,
            decreases hv.len() - i,
        {
            let entry = &self.concept_knowledge.concept_hierarchies[i];
            proof {
                assert(hv[i as int].0 == entry.0@);
            }
            if crate::text::str_eq(entry.0.as_str(), concept) {
                proof {
                    lemma_assoc_idx(hv, concept@);
                }
                return Some(i);
            }
            i = i + 1;
        }
        proof {
            lemma_assoc_idx(hv, concept@);
            if assoc_idx(hv, concept@) >= 0 {
                assert(false);
            }
        }
        None
    }

    /// Builds the knowledge-base components for the registered sub-concepts
    /// of `parent`, in registration order.
    fn kb_components(&self, subs: &Vec<String>, parent: &str) -> (r: Vec<FoundationalComponent>)
        requires
            kb_wf(self@.kb),
        ensures
            r.deep_view() == comps_from_kb(self@.kb, subs.deep_view(), parent@),
    {
        let ghost sv = subs.deep_view();
        let mut r: Vec<FoundationalComponent> = Vec::new();
        let mut i: usize = 0;
        proof {
            assert(sv.take(0) =~= Seq::<Seq<char>>::empty());
            assert(r.deep_view() =~= comps_from_kb(self@.kb, sv.take(0), parent@));
        }
        while i < subs.len()
            invariant
                i <= sv.len(),
                sv == subs.deep_view(),
                kb_wf(self@.kb),
                r.deep_view() == comps_from_kb(self@.kb, sv.take(i as int), parent@),
            decreases sv.len() - i,
        {
            proof {
                assert(sv.take((i + 1) as int).drop_last() =~= sv.take(i as int));
                assert(sv.take((i + 1) as int).last() == sv[i as int]);
            }
            let name = &subs[i];
            let cat = self.lookup_category(name.as_str());
            let desc = self.generate_component_description(name.as_str(), &cat);
            let imp = self.calculate_component_importance(name.as_str(), parent);
            let subsubs = self.lookup_sub_components(name.as_str());
            let comp = FoundationalComponent {
                name: name.clone(),
                category: cat,
                description: desc,
                importance_milli: imp,
                sub_components: subsubs,
            };
            proof {
                assert(comp@ == comp_from_kb(self@.kb, sv[i as int], parent@));
            }
            let ghost pre = r.deep_view();
            r.push(comp);
            proof {
                assert(r.deep_view() =~= pre.push(comp_from_kb(self@.kb, sv[i as int], parent@)));
            }
            i = i + 1;
        }
        proof {
            assert(sv.take(sv.len() as int) =~= sv);
        }
        r
    }

    /// The source text used for fallback extraction; no page fetching
    /// happens here, so a fixed placeholder stands in.
    fn fetch_concept_content(&self, _concept: &str) -> (r: Result<String, WikiEngineError>)
        ensures
            r matches Ok(s) && s@ == placeholder_text(),
    {
        Ok(String::from_str("Placeholder content for concept analysis"))
    }

    /// Decomposes a concept into scored foundational components: the
    /// knowledge-base path at confidence `950` for registered concepts, the
    /// text-extraction fallback otherwise.
    pub fn decompose_concept(&self, concept: &str, max_depth: u8) -> (r: Result<
        ConceptDecomposition,
        WikiEngineError,
    >)
        requires
            self.wf(),
        ensures
            r matches Ok(d) && d@ == decompose_spec(self@, concept@),
    {
        let norm = self.normalize_concept(concept);
        match self.find_hier_index(norm.as_str()) {
            Some(hi) => {
                let subs = &self.concept_knowledge.concept_hierarchies[hi].1;
                proof {
                    assert(subs.deep_view() == self@.kb.hierarchies[hi as int].1);
                }
                let comps = self.kb_components(subs, norm.as_str());
                let sorted = sort_components_desc(comps);
                let rels = self.extract_relationships(norm.as_str());
                Ok(
                    ConceptDecomposition {
                        concept: String::from_str(concept),
                        components: sorted,
                        relationships: rels,
                        confidence_milli: 950,
                    },
                )
            },
            None => {
                let content = match self.fetch_concept_content(concept) {
                    Ok(c) => c,
                    Err(e) => {
                        proof {
                            assert(false);
                        }
                        return Err(e);
                    },
                };
                self.extract_components_from_text(content.as_str(), max_depth)
            },
        }
    }

    /// The category-templated principle title for a component.
    pub fn generate_principle_title(&self, component: &str, category: &PrincipleCategory) -> (r:
        String)
        ensures
            r@ == title_for(component@, category@),
    {
        let base = capitalize_words(component);
        match category {
            PrincipleCategory::Mechanical => base.concat(" Mechanism"),
            PrincipleCategory::Electrical => base.concat(" Circuit Principle"),
            PrincipleCategory::Structure => base.concat(" Structural Design"),
            PrincipleCategory::System => base.concat(" System Integration"),
            PrincipleCategory::Thermal => base.concat(" Thermal Management"),
            _ => base.concat(" Engineering Principle"),
        }
    }

    /// Renders a decomposition as confidence-ranked principles sourced from
    /// `page`.
    pub fn decomposition_to_principles(
        &self,
        decomposition: &ConceptDecomposition,
        page: &WikipediaPage,
    ) -> (r: Vec<EngineeringPrinciple>)
        ensures
            r.deep_view() == decomp_principles_spec(decomposition@, page@.url),
    {
        let ghost cv = decomposition.components.deep_view();
        let mut principles: Vec<EngineeringPrinciple> = Vec::new();
        let mut i: usize = 0;
        proof {
            assert(cv.take(0) =~= Seq::<CompV>::empty());
            assert(principles.deep_view() =~= princs_of_comps(cv.take(0), page@.url));
        }
        while i < decomposition.components.len()
            invariant
                i <= cv.len(),
                cv == decomposition.components.deep_view(),
                principles.deep_view() == princs_of_comps(cv.take(i as int), page@.url),
            decreases cv.len() - i,
        {
            proof {
                assert(cv.take((i + 1) as int).drop_last() =~= cv.take(i as int));
                assert(cv.take((i + 1) as int).last() == cv[i as int]);
            }
            let comp = &decomposition.components[i];
            let p = EngineeringPrinciple {
                id: crate::outside::fresh_id(),
                title: self.generate_principle_title(comp.name.as_str(), &comp.category),
                description: comp.description.clone(),
                category: comp.category.duplicate(),
                confidence_milli: comp.importance_milli,
                source_url: page.url.clone(),
                related_terms: crate::types::clone_string_vec(&comp.sub_components),
            };
            proof {
                assert(p@ == principle_of_comp(cv[i as int], page@.url));
            }
            let ghost pre = principles.deep_view();
            principles.push(p);
            proof {
                assert(principles.deep_view() =~= pre.push(
                    principle_of_comp(cv[i as int], page@.url),
                ));
            }
            i = i + 1;
        }
        proof {
            assert(cv.take(cv.len() as int) =~= cv);
        }
        crate::types::sort_principles_desc(principles)
    }
}

impl SemanticAnalyzer {
    /// Reads component candidates and typed relationships out of lowercased
    /// source text with the fixed extractor battery.
    pub fn extract_components_from_text(&self, text: &str, _max_depth: u8) -> (r: Result<
        ConceptDecomposition,
        WikiEngineError,
    >)
        requires
            self.wf(),
        ensures
            r matches Ok(d) && d@ == extract_spec(self@, text@),
    {
        let lower = crate::outside::lowercase(text);
        let ghost lv = lower_of(text@);
        let ghost esv = self@.extractors;
        let mut cands: Vec<FoundationalComponent> = Vec::new();
        let mut e: usize = 0;
        proof {
            assert(esv.take(0) =~= Seq::<ExtractorV>::empty());
            assert(cands.deep_view() =~= extractor_cands(esv.take(0), lv));
        }
        while e < self.component_extractors.len()
            invariant
                e <= esv.len(),
                lower@ == lv,
                esv == self@.extractors,
                esv == self.component_extractors.deep_view(),
                cands.deep_view() == extractor_cands(esv.take(e as int), lv),
            decreases esv.len() - e,
        {
            let ex = &self.component_extractors[e];
            proof {
                assert(ex.deep_view() == esv[e as int]);
                assert(esv.take((e + 1) as int).drop_last() =~= esv.take(e as int));
                assert(esv.take((e + 1) as int).last() == esv[e as int]);
            }
            let ghost pv = esv[e as int].patterns;
            let ghost base = cands.deep_view();
            let mut p: usize = 0;
            proof {
                assert(pv.take(0) =~= Seq::<Seq<char>>::empty());
                assert(base + pats_cands(
                    pv.take(0),
                    esv[e as int].category,
                    esv[e as int].weight_milli as int,
                    lv,
                ) =~= base);
            }
            while p < ex.patterns.len()
                invariant
                    p <= pv.len(),
                    lower@ == lv,
                    esv == self@.extractors,
                    e < esv.len(),
                    ex.deep_view() == esv[e as int],
                    pv == esv[e as int].patterns,
                    pv == crate::analyzer::srcs_of(ex.patterns@),
                    cands.deep_view() == base + pats_cands(
                        pv.take(p as int),
                        esv[e as int].category,
                        esv[e as int].weight_milli as int,
                        lv,
                    ),
                decreases pv.len() - p,
            {
                proof {
                    assert(pv.take((p + 1) as int).drop_last() =~= pv.take(p as int));
                    assert(pv.take((p + 1) as int).last() == pv[p as int]);
                    assert(ex.patterns@[p as int].src@ == pv[p as int]);
                }
                let caps = ex.patterns[p].find_capture_strings(lower.as_str(), 1);
                let ghost capv = caps.deep_view();
                let ghost inner_base = cands.deep_view();
                let ghost wm: int = esv[e as int].weight_milli as int;
                let ghost cat = esv[e as int].category;
                let mut n: usize = 0;
                proof {
                    assert(pat_comp_cands(capv, cat, wm).take(0) =~= Seq::<CompV>::empty());
                    assert(inner_base + pat_comp_cands(capv, cat, wm).take(0) =~= inner_base);
                }
                while n < caps.len()
                    invariant
                        n <= capv.len(),
                        lower@ == lv,
                        capv == caps.deep_view(),
                        ex.deep_view() == esv[e as int],
                        wm == esv[e as int].weight_milli as int,
                        cat == esv[e as int].category,
                        cands.deep_view() == inner_base + pat_comp_cands(capv, cat, wm).take(
                            n as int,
                        ),
                    decreases capv.len() - n,
                {
                    let name = &caps[n];
                    let desc = self.generate_component_description(name.as_str(), &ex.category);
                    let w8: u64 = ex.weight_milli as u64 * 8;
                    let imp64: u64 = w8 / 10;
                    proof {
                        assert(imp64 <= w8);
                    }
                    let comp = FoundationalComponent {
                        name: name.clone(),
                        category: ex.category.duplicate(),
                        description: desc,
                        importance_milli: imp64 as u32,
                        sub_components: Vec::new(),
                    };
                    proof {
                        assert(comp.sub_components.deep_view() =~= Seq::<Seq<char>>::empty());
                        assert(comp@ == comp_of_extract(capv[n as int], cat, wm));
                        assert(pat_comp_cands(capv, cat, wm).take((n + 1) as int) =~= pat_comp_cands(
                            capv,
                            cat,
                            wm,
                        ).take(n as int).push(comp_of_extract(capv[n as int], cat, wm)));
                    }
                    let ghost pre = cands.deep_view();
                    cands.push(comp);
                    proof {
                        assert(cands.deep_view() =~= pre.push(
                            comp_of_extract(capv[n as int], cat, wm),
                        ));
                    }
                    n = n + 1;
                }
                proof {
                    assert(pat_comp_cands(capv, cat, wm).take(capv.len() as int) =~= pat_comp_cands(
                        capv,
                        cat,
                        wm,
                    ));
                }
                p = p + 1;
            }
            proof {
                assert(pv.take(pv.len() as int) =~= pv);
            }
            e = e + 1;
        }
        proof {
            assert(esv.take(esv.len() as int) =~= esv);
        }
        // First-occurrence-by-name walk.
        let ghost candv = cands.deep_view();
        let mut comps: Vec<FoundationalComponent> = Vec::new();
        let mut rest = cands;
        let ghost done: int = 0;
        proof {
            assert(rest.deep_view() =~= candv.skip(0));
            assert(comps.deep_view() =~= Seq::<CompV>::empty());
            assert(comp_dedup(candv, Seq::<CompV>::empty()) == comp_dedup(
                candv.skip(0),
                comps.deep_view(),
            ));
        }
        while rest.len() > 0
            invariant
                0 <= done <= candv.len(),
                rest.deep_view() =~= candv.skip(done),
                comp_dedup(candv, Seq::<CompV>::empty()) == comp_dedup(
                    candv.skip(done),
                    comps.deep_view(),
                ),
            decreases rest@.len(),
        {
            let ghost pre_rest = rest.deep_view();
            let x = rest.remove(0);
            proof {
                assert(rest.deep_view() =~= pre_rest.drop_first());
                assert(rest.deep_view() =~= candv.skip(done + 1));
                assert(x.deep_view() == pre_rest[0]);
                assert(pre_rest[0] == candv.skip(done)[0]);
            }
            let mut dup = false;
            let mut m: usize = 0;
            while m < comps.len()
                invariant
                    m <= comps@.len(),
                    !dup ==> forall|k: int|
                        0 <= k < m ==> (#[trigger] comps.deep_view()[k]).name != x@.name,
                    dup ==> exists|k: int|
                        0 <= k < comps.deep_view().len() && (#[trigger] comps.deep_view()[k]).name
                            == x@.name,
                decreases comps@.len() - m,
            {
                if crate::text::str_eq(comps[m].name.as_str(), x.name.as_str()) {
                    proof {
                        assert(comps.deep_view()[m as int].name == comps@[m as int]@.name);
                    }
                    dup = true;
                    m = comps.len();
                } else {
                    m = m + 1;
                }
            }
            if !dup {
                let ghost pre = comps.deep_view();
                comps.push(x);
                proof {
                    assert(comps.deep_view() =~= pre.push(pre_rest[0]));
                }
            }
            proof {
                done = done + 1;
            }
        }
        proof {
            assert(candv.skip(done) =~= Seq::<CompV>::empty());
            assert(comps.deep_view() == comp_dedup(candv, Seq::<CompV>::empty()));
        }
        let mut sorted = sort_components_desc(comps);
        let ghost sortedv = sorted.deep_view();
        if sorted.len() > 10 {
            sorted.truncate(10);
            proof {
                assert(sorted.deep_view() =~= sortedv.take(10));
            }
        }
        // Relationships.
        let ghost rpv = self@.rel_pats;
        let mut rels: Vec<ComponentRelation> = Vec::new();
        let mut q: usize = 0;
        proof {
            assert(rpv.take(0) =~= Seq::<RelPatV>::empty());
            assert(rels.deep_view() =~= rel_cands(rpv.take(0), lv));
        }
        while q < self.relationship_patterns.len()
            invariant
                q <= rpv.len(),
                lower@ == lv,
                rpv == self@.rel_pats,
                rpv == self.relationship_patterns.deep_view(),
                rels.deep_view() == rel_cands(rpv.take(q as int), lv),
            decreases rpv.len() - q,
        {
            let rp = &self.relationship_patterns[q];
            proof {
                assert(rp.deep_view() == rpv[q as int]);
                assert(rpv.take((q + 1) as int).drop_last() =~= rpv.take(q as int));
                assert(rpv.take((q + 1) as int).last() == rpv[q as int]);
            }
            let caps = rp.pattern.find_capture_strings(lower.as_str(), 2);
            let ghost capv = caps.deep_view();
            let ghost base = rels.deep_view();
            let mut n: usize = 0;
            proof {
                assert(rels_of_pat(rpv[q as int], lv).take(0) =~= Seq::<RelV>::empty());
                assert(base + rels_of_pat(rpv[q as int], lv).take(0) =~= base);
            }
            while n < caps.len()
                invariant
                    n <= capv.len(),
                    lower@ == lv,
                    capv == caps.deep_view(),
                    rp.deep_view() == rpv[q as int],
                    capv == captured_strings(rpv[q as int].src, lv, 2),
                    rels.deep_view() == base + rels_of_pat(rpv[q as int], lv).take(n as int),
                decreases capv.len() - n,
            {
                let cr = ComponentRelation {
                    component: caps[n].clone(),
                    relation_type: rp.relation_type,
                    confidence_milli: rp.confidence_milli,
                };
                proof {
                    assert(cr@ == rels_of_pat(rpv[q as int], lv)[n as int]);
                    assert(rels_of_pat(rpv[q as int], lv).take((n + 1) as int) =~= rels_of_pat(
                        rpv[q as int],
                        lv,
                    ).take(n as int).push(rels_of_pat(rpv[q as int], lv)[n as int]));
                }
                let ghost pre = rels.deep_view();
                rels.push(cr);
                proof {
                    assert(rels.deep_view() =~= pre.push(rels_of_pat(rpv[q as int], lv)[n as int]));
                }
                n = n + 1;
            }
            proof {
                assert(rels_of_pat(rpv[q as int], lv).take(capv.len() as int) =~= rels_of_pat(
                    rpv[q as int],
                    lv,
                ));
            }
            q = q + 1;
        }
        proof {
            assert(rpv.take(rpv.len() as int) =~= rpv);
        }
        // Mean importance as confidence, clamped to one.
        let ghost finalv = sorted.deep_view();
        let mut sum: u128 = 0;
        let mut i: usize = 0;
        proof {
            assert(finalv.take(0) =~= Seq::<CompV>::empty());
        }
        while i < sorted.len()
            invariant
                i <= finalv.len(),
                finalv == sorted.deep_view(),
                sum == sum_imp(finalv.take(i as int)),
                sum <= i * 0xffff_ffffu128,
            decreases finalv.len() - i,
        {
            proof {
                assert(finalv.take((i + 1) as int).drop_last() =~= finalv.take(i as int));
                assert(finalv.take((i + 1) as int).last() == finalv[i as int]);
                assert((i + 1) * 0xffff_ffffu128 == i * 0xffff_ffffu128 + 0xffff_ffffu128)
                    by (nonlinear_arith);
            }
            sum = sum + sorted[i].importance_milli as u128;
            i = i + 1;
        }
        proof {
            assert(finalv.take(finalv.len() as int) =~= finalv);
        }
        let confidence: u32 = if sorted.len() == 0 {
            0
        } else {
            let m: u128 = sum / sorted.len() as u128;
            proof {
                assert(m as int == sum_imp(finalv) / finalv.len() as int);
            }
            if m > 1000 {
                1000
            } else {
                m as u32
            }
        };
        Ok(
            ConceptDecomposition {
                concept: String::from_str("extracted_concept"),
                components: sorted,
                relationships: rels,
                confidence_milli: confidence,
            },
        )
    }

    /// Classifies a page by decomposing its lowercased title.
    pub fn analyze_page_semantically(&self, page: &WikipediaPage) -> (r: Result<
        Vec<EngineeringPrinciple>,
        WikiEngineError,
    >)
        requires
            self.wf(),
        ensures
            r matches Ok(v) && v.deep_view() == decomp_principles_spec(
                decompose_spec(self@, lower_of(page.title@)),
                page@.url,
            ),
    {
        let concept = crate::outside::lowercase(page.title.as_str());
        let d = match self.decompose_concept(concept.as_str(), 2) {
            Ok(d) => d,
            Err(e) => {
                proof {
                    assert(false);
                }
                return Err(e);
            },
        };
        Ok(self.decomposition_to_principles(&d, page))
    }

    /// Decomposes a concept and renders the components as principles, with
    /// the given or a derived source reference.
    pub fn analyze_engineering_concept(
        &self,
        concept: &str,
        max_depth: u8,
        source_url: Option<String>,
    ) -> (r: Result<Vec<EngineeringPrinciple>, WikiEngineError>)
        requires
            self.wf(),
        ensures
            r matches Ok(v) && v.deep_view() == decomp_principles_spec(
                decompose_spec(self@, concept@),
                match source_url {
                    Some(u) => u@,
                    None => "https://en.wikipedia.org/wiki/"@ + concept@,
                },
            ),
    {
        let d = match self.decompose_concept(concept, max_depth) {
            Ok(d) => d,
            Err(e) => {
                proof {
                    assert(false);
                }
                return Err(e);
            },
        };
        let url = match source_url {
            Some(u) => u,
            None => String::from_str("https://en.wikipedia.org/wiki/").concat(concept),
        };
        let page = WikipediaPage {
            title: String::from_str(concept),
            extract: String::from_str("Analysis of ").concat(concept).concat(
                " and its foundational engineering components",
            ),
            url,
            page_id: 0,
        };
        Ok(self.decomposition_to_principles(&d, &page))
    }

    /// The hierarchical breakdown of a concept.
    pub fn get_concept_hierarchy(&self, concept: &str, max_depth: u8) -> (r: Result<
        ConceptDecomposition,
        WikiEngineError,
    >)
        requires
            self.wf(),
        ensures
            r matches Ok(d) && d@ == decompose_spec(self@, concept@),
    {
        self.decompose_concept(concept, max_depth)
    }

    /// Registers or replaces a concept's sub-component list and
    /// relationships.
    pub fn add_concept_knowledge(
        &mut self,
        concept: &str,
        components: Vec<String>,
        relationships: Vec<ComponentRelation>,
    )
        requires
            old(self).wf(),
            forall|j: int|
                0 <= j < relationships@.len() ==> (
                #[trigger] relationships@[j]).confidence_milli <= 1000,
        ensures
            final(self).wf(),
            final(self)@.extractors == old(self)@.extractors,
            final(self)@.rel_pats == old(self)@.rel_pats,
            final(self)@.kb.categories == old(self)@.kb.categories,
            final(self)@.kb.synonyms == old(self)@.kb.synonyms,
            ({
                let i = assoc_idx(old(self)@.kb.hierarchies, concept@);
                if i >= 0 {
                    final(self)@.kb.hierarchies == old(self)@.kb.hierarchies.update(
                        i,
                        (concept@, components.deep_view()),
                    )
                } else {
                    final(self)@.kb.hierarchies == old(self)@.kb.hierarchies.push(
                        (concept@, components.deep_view()),
                    )
                }
            }),
            ({
                let i = assoc_idx(old(self)@.kb.relationships, concept@);
                if i >= 0 {
                    final(self)@.kb.relationships == old(self)@.kb.relationships.update(
                        i,
                        (concept@, relationships.deep_view()),
                    )
                } else {
                    final(self)@.kb.relationships == old(self)@.kb.relationships.push(
                        (concept@, relationships.deep_view()),
                    )
                }
            }),
    {
        let ghost old_rels = self@.kb.relationships;
        let ghost rdv = relationships.deep_view();
        match self.find_hier_index(concept) {
            Some(i) => {
                self.concept_knowledge.concept_hierarchies.remove(i);
                self.concept_knowledge.concept_hierarchies.insert(
                    i,
                    (String::from_str(concept), components),
                );
                proof {
                    assert(self@.kb.hierarchies =~= old(self)@.kb.hierarchies.update(
                        i as int,
                        (concept@, components.deep_view()),
                    ));
                }
            },
            None => {
                self.concept_knowledge.concept_hierarchies.push(
                    (String::from_str(concept), components),
                );
                proof {
                    assert(self@.kb.hierarchies =~= old(self)@.kb.hierarchies.push(
                        (concept@, components.deep_view()),
                    ));
                }
            },
        }
        match self.find_rels_index(concept) {
            Some(i) => {
                self.concept_knowledge.component_relationships.remove(i);
                self.concept_knowledge.component_relationships.insert(
                    i,
                    (String::from_str(concept), relationships),
                );
                proof {
                    assert(self@.kb.relationships =~= old_rels.update(i as int, (concept@, rdv)));
                }
            },
            None => {
                self.concept_knowledge.component_relationships.push(
                    (String::from_str(concept), relationships),
                );
                proof {
                    assert(self@.kb.relationships =~= old_rels.push((concept@, rdv)));
                }
            },
        }
        proof {
            assert(kb_wf(self@.kb)) by {
                assert forall|i: int, j: int|
                    0 <= i < self@.kb.relationships.len() && 0 <= j < (
                    #[trigger] self@.kb.relationships[i]).1.len() implies (
                #[trigger] self@.kb.relationships[i].1[j]).confidence_milli <= 1000 by {
                    let ri = assoc_idx(old_rels, concept@);
                    if ri >= 0 {
                        if i == ri {
                            assert(self@.kb.relationships[i].1 == rdv);
                        } else {
                            assert(self@.kb.relationships[i] == old_rels[i]);
                        }
                    } else {
                        if i < old_rels.len() {
                            assert(self@.kb.relationships[i] == old_rels[i]);
                        } else {
                            assert(self@.kb.relationships[i].1 == rdv);
                        }
                    }
                }
            }
        }
    }
}

} // verus!
