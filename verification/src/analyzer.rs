//! Pattern-based classification of free text into engineering principles.
//!
//! Text is split into sentence-like units; units showing a principle
//! indicator are scored against nine fixed category pattern groups, given a
//! confidence in thousandths, deduplicated by token overlap and ranked.

use vstd::prelude::*;

verus! {

use crate::outside::{Pattern, compile_pattern, found_strings, pattern_compiles, lower_of};
use vstd::string::StringExecFns;
use crate::types::{EngineeringPrinciple, PrincipleCategory, CategoryV, PrincipleV, WikiEngineError};

/// The pattern sources of a compiled pattern list, in order.
pub open spec fn srcs_of(ps: Seq<Pattern>) -> Seq<Seq<char>> {
    Seq::new(ps.len(), |i: int| ps[i].src@)
}

/// Spec-level image of the analyzer: the pattern sources it was built from.
pub ghost struct AnalyzerV {
    /// Nine category groups, in the fixed category order.
    pub cats: Seq<Seq<Seq<char>>>,
    /// Principle indicator patterns.
    pub indicators: Seq<Seq<char>>,
    /// Relation-indicator patterns seeding related-term windows.
    pub relation_extractors: Seq<Seq<char>>,
    /// Capitalized-phrase and hyphenated-token pattern.
    pub technical: Seq<char>,
    /// Mathematical-notation pattern.
    pub math: Seq<char>,
    /// Capitalized-phrase pattern for related concepts.
    pub concept: Seq<char>,
    /// Parenthesized-content pattern for related concepts.
    pub paren: Seq<char>,
}

/// The engineering category standing at `i` in the fixed scan order.
pub open spec fn category_of_index(i: int) -> CategoryV {
    if i == 0 {
        CategoryV::Structure
    } else if i == 1 {
        CategoryV::Mechanical
    } else if i == 2 {
        CategoryV::Electrical
    } else if i == 3 {
        CategoryV::Thermal
    } else if i == 4 {
        CategoryV::Chemical
    } else if i == 5 {
        CategoryV::Material
    } else if i == 6 {
        CategoryV::System
    } else if i == 7 {
        CategoryV::Process
    } else {
        CategoryV::Design
    }
}

/// The exec category for a scan index.
fn category_for_index(i: usize) -> (r: PrincipleCategory)
    requires
        i < 9,
    ensures
        r@ == category_of_index(i as int),
{
    if i == 0 {
        PrincipleCategory::Structure
    } else if i == 1 {
        PrincipleCategory::Mechanical
    } else if i == 2 {
        PrincipleCategory::Electrical
    } else if i == 3 {
        PrincipleCategory::Thermal
    } else if i == 4 {
        PrincipleCategory::Chemical
    } else if i == 5 {
        PrincipleCategory::Material
    } else if i == 6 {
        PrincipleCategory::System
    } else if i == 7 {
        PrincipleCategory::Process
    } else {
        PrincipleCategory::Design
    }
}

/// Total matches of a pattern group in `text`.
pub open spec fn group_score(srcs: Seq<Seq<char>>, text: Seq<char>) -> int
    decreases srcs.len(),
{
    if srcs.len() == 0 {
        0
    } else {
        found_strings(srcs[0], text).len() + group_score(srcs.drop_first(), text)
    }
}

/// A group's score is never negative.
pub proof fn lemma_group_score_nonneg(srcs: Seq<Seq<char>>, text: Seq<char>)
    ensures
        group_score(srcs, text) >= 0,
    decreases srcs.len(),
{
    if srcs.len() > 0 {
        lemma_group_score_nonneg(srcs.drop_first(), text);
    }
}

/// The left-to-right scan for the best-scoring group: a strictly greater
/// score takes over, so the first of tied groups wins and an all-zero scan
/// yields `-1`.
pub open spec fn argmax_acc(s: Seq<int>, i: int, best: int, best_score: int) -> int
    decreases s.len() - i,
{
    if i < 0 || i >= s.len() {
        best
    } else if s[i] > best_score {
        argmax_acc(s, i + 1, i, s[i])
    } else {
        argmax_acc(s, i + 1, best, best_score)
    }
}

/// The scores of all groups against `text`.
pub open spec fn scores_of(cats: Seq<Seq<Seq<char>>>, text: Seq<char>) -> Seq<int> {
    Seq::new(cats.len(), |i: int| group_score(cats[i], text))
}

/// The index of the winning category group, or `-1` when no group matches.
pub open spec fn best_category_idx(cats: Seq<Seq<Seq<char>>>, text: Seq<char>) -> int {
    argmax_acc(scores_of(cats, text), 0, -1, 0)
}

/// Counts the matches of every pattern of a group.
fn count_group(patterns: &Vec<Pattern>, text: &str) -> (r: u128)
    ensures
        r == group_score(srcs_of(patterns@), text@),
        r <= patterns@.len() * 0xffff_ffff_ffff_ffffu128,
{
    let mut r: u128 = 0;
    let mut i: usize = 0;
    proof {
        assert(srcs_of(patterns@).skip(0) =~= srcs_of(patterns@));
    }
    while i < patterns.len()
        invariant
            i <= patterns@.len(),
            r <= i * 0xffff_ffff_ffff_ffffu128,
            group_score(srcs_of(patterns@), text@) == r + group_score(
                srcs_of(patterns@).skip(i as int),
                text@,
            ),
        decreases patterns@.len() - i,
    {
        let c = patterns[i].count_matches(text);
        proof {
            assert(srcs_of(patterns@).skip(i as int)[0] == patterns@[i as int].src@);
            assert(srcs_of(patterns@).skip(i as int).drop_first() =~= srcs_of(patterns@).skip(
                (i + 1) as int,
            ));
            assert((i + 1) * 0xffff_ffff_ffff_ffffu128 == i * 0xffff_ffff_ffff_ffffu128
                + 0xffff_ffff_ffff_ffffu128) by (nonlinear_arith);
        }
        r = r + c as u128;
        i = i + 1;
    }
    proof {
        assert(srcs_of(patterns@).skip(patterns@.len() as int) =~= Seq::<Seq<char>>::empty());
    }
    r
}

/// The structural pattern group's sources.
pub open spec fn structure_srcs() -> Seq<Seq<char>> {
    seq![
        "(?i)(load|stress|strain|tension|compression|shear|moment|deflection)"@,
        "(?i)(beam|column|truss|frame|foundation|support)"@,
        "(?i)(buckling|fatigue|failure|strength|stiffness)"@,
        "(?i)(structural\\s+integrity|bearing\\s+capacity|factor\\s+of\\s+safety)"@,
    ]
}

/// The mechanical pattern group's sources.
pub open spec fn mechanical_srcs() -> Seq<Seq<char>> {
    seq![
        "(?i)(force|torque|power|energy|motion|velocity|acceleration)"@,
        "(?i)(gear|lever|pulley|spring|damper|actuator)"@,
        "(?i)(friction|lubrication|wear|vibration|resonance)"@,
        "(?i)(mechanical\\s+advantage|efficiency|work|momentum)"@,
    ]
}

/// The electrical pattern group's sources.
pub open spec fn electrical_srcs() -> Seq<Seq<char>> {
    seq![
        "(?i)(voltage|current|resistance|capacitance|inductance)"@,
        "(?i)(circuit|conductor|insulator|semiconductor|transistor)"@,
        "(?i)(electric\\s+field|magnetic\\s+field|electromagnetic)"@,
        "(?i)(ohm's\\s+law|kirchhoff|maxwell|faraday)"@,
    ]
}

/// The thermal pattern group's sources.
pub open spec fn thermal_srcs() -> Seq<Seq<char>> {
    seq![
        "(?i)(heat|temperature|thermal|conduction|convection|radiation)"@,
        "(?i)(thermodynamic|entropy|enthalpy|specific\\s+heat)"@,
        "(?i)(heat\\s+transfer|thermal\\s+expansion|insulation)"@,
        "(?i)(carnot|stefan.boltzmann|fourier)"@,
    ]
}

/// The chemical pattern group's sources.
pub open spec fn chemical_srcs() -> Seq<Seq<char>> {
    seq![
        "(?i)(reaction|catalyst|equilibrium|kinetics|stoichiometry)"@,
        "(?i)(acid|base|oxidation|reduction|pH|molarity)"@,
        "(?i)(chemical\\s+bond|molecular|atomic|ionic)"@,
        "(?i)(mass\\s+transfer|diffusion|absorption|distillation)"@,
    ]
}

/// The material pattern group's sources.
pub open spec fn material_srcs() -> Seq<Seq<char>> {
    seq![
        "(?i)(crystal|grain|microstructure|phase|alloy|steel|concrete|aluminum)"@,
        "(?i)(elastic\\s+modulus|yield\\s+strength|hardness|toughness|strength|stiffness)"@,
        "(?i)(composite|polymer|ceramic|metal|semiconductor|tension|compression)"@,
        "(?i)(corrosion|oxidation|creep|fracture|fatigue)"@,
    ]
}

/// The system pattern group's sources.
pub open spec fn system_srcs() -> Seq<Seq<char>> {
    seq![
        "(?i)(feedback|control|regulation|stability|response)"@,
        "(?i)(input|output|transfer\\s+function|block\\s+diagram)"@,
        "(?i)(system\\s+dynamics|optimization|performance|reliability)"@,
        "(?i)(redundancy|fault\\s+tolerance|safety\\s+factor)"@,
    ]
}

/// The process pattern group's sources.
pub open spec fn process_srcs() -> Seq<Seq<char>> {
    seq![
        "(?i)(manufacturing|production|assembly|quality\\s+control)"@,
        "(?i)(workflow|procedure|protocol|standard|specification)"@,
        "(?i)(efficiency|throughput|yield|waste|optimization)"@,
        "(?i)(automation|robotics|lean|six\\s+sigma)"@,
    ]
}

/// The design pattern group's sources.
pub open spec fn design_srcs() -> Seq<Seq<char>> {
    seq![
        "(?i)(requirement|specification|constraint|objective)"@,
        "(?i)(iteration|prototype|validation|verification)"@,
        "(?i)(trade.off|optimization|design\\s+space|parameter)"@,
        "(?i)(modularity|scalability|maintainability|sustainability)"@,
    ]
}

/// The principle indicator sources: laws, causal language, mechanisms.
pub open spec fn indicator_srcs() -> Seq<Seq<char>> {
    seq![
        "(?i)(principle|law|theorem|rule|equation|formula)"@,
        "(?i)(based\\s+on|according\\s+to|governed\\s+by|follows)"@,
        "(?i)(fundamental|basic|key|essential|critical|important)"@,
        "(?i)(mechanism|process|phenomenon|effect|relationship|provide|enable|cause|resist)"@,
    ]
}

/// The relation-indicator sources seeding related-term windows.
pub open spec fn relation_srcs() -> Seq<Seq<char>> {
    seq![
        "(?i)(related\\s+to|associated\\s+with|connected\\s+to|linked\\s+to)"@,
        "(?i)(component|part|element|subsystem|module)"@,
        "(?i)(application|use|implementation|example)"@,
        "(?i)(see\\s+also|similar|comparable|analogous)"@,
    ]
}

/// The capitalized-phrase / hyphenated-token source.
pub open spec fn technical_src() -> Seq<char> {
    "\\b[A-Z][a-z]+(?:\\s+[A-Z][a-z]+)*\\b|[a-z]+-[a-z]+"@
}

/// The mathematical-notation source.
pub open spec fn math_src() -> Seq<char> {
    "[=<>^]|\\\\[a-zA-Z]+"@
}

/// The capitalized-phrase source for related concepts.
pub open spec fn concept_src() -> Seq<char> {
    "\\b[A-Z][a-z]+(?:\\s+[A-Z][a-z]+)*\\b"@
}

/// The parenthesized-content source.
pub open spec fn paren_src() -> Seq<char> {
    "\\(([^)]+)\\)"@
}

/// The full fixed table, in category scan order.
pub open spec fn fixed_cats() -> Seq<Seq<Seq<char>>> {
    seq![
        structure_srcs(),
        mechanical_srcs(),
        electrical_srcs(),
        thermal_srcs(),
        chemical_srcs(),
        material_srcs(),
        system_srcs(),
        process_srcs(),
        design_srcs(),
    ]
}

/// Whether the regex compiler accepts every pattern of a group.
pub open spec fn group_compiles(srcs: Seq<Seq<char>>) -> bool {
    forall|i: int| 0 <= i < srcs.len() ==> pattern_compiles(#[trigger] srcs[i])
}

/// Whether the whole fixed table compiles.
pub open spec fn analyzer_tables_compile() -> bool {
    &&& forall|g: int| 0 <= g < 9 ==> group_compiles(#[trigger] fixed_cats()[g])
    &&& group_compiles(indicator_srcs())
    &&& group_compiles(relation_srcs())
    &&& pattern_compiles(technical_src())
    &&& pattern_compiles(math_src())
    &&& pattern_compiles(concept_src())
    &&& pattern_compiles(paren_src())
}

/// The classifier: nine category pattern groups, principle and relation
/// indicators, and the term-extraction patterns, all compiled once.
pub struct EngineeringAnalyzer {
    structure_patterns: Vec<Pattern>,
    mechanical_patterns: Vec<Pattern>,
    electrical_patterns: Vec<Pattern>,
    thermal_patterns: Vec<Pattern>,
    chemical_patterns: Vec<Pattern>,
    material_patterns: Vec<Pattern>,
    system_patterns: Vec<Pattern>,
    process_patterns: Vec<Pattern>,
    design_patterns: Vec<Pattern>,
    principle_extractors: Vec<Pattern>,
    related_term_extractors: Vec<Pattern>,
    technical_pattern: Pattern,
    math_pattern: Pattern,
    concept_pattern: Pattern,
    paren_pattern: Pattern,
}

impl View for EngineeringAnalyzer {
    type V = AnalyzerV;

    closed spec fn view(&self) -> AnalyzerV {
        AnalyzerV {
            cats: seq![
                srcs_of(self.structure_patterns@),
                srcs_of(self.mechanical_patterns@),
                srcs_of(self.electrical_patterns@),
                srcs_of(self.thermal_patterns@),
                srcs_of(self.chemical_patterns@),
                srcs_of(self.material_patterns@),
                srcs_of(self.system_patterns@),
                srcs_of(self.process_patterns@),
                srcs_of(self.design_patterns@),
            ],
            indicators: srcs_of(self.principle_extractors@),
            relation_extractors: srcs_of(self.related_term_extractors@),
            technical: self.technical_pattern.src@,
            math: self.math_pattern.src@,
            concept: self.concept_pattern.src@,
            paren: self.paren_pattern.src@,
        }
    }
}

/// Compiles one group of four sources.
fn compile4(s0: &str, s1: &str, s2: &str, s3: &str) -> (r: Option<Vec<Pattern>>)
    ensures
        r matches Some(v) ==> srcs_of(v@) =~= seq![s0@, s1@, s2@, s3@],
        (r matches Some(_)) == (pattern_compiles(s0@) && pattern_compiles(s1@)
            && pattern_compiles(s2@) && pattern_compiles(s3@)),
{
    let p0 = compile_pattern(s0);
    let p1 = compile_pattern(s1);
    let p2 = compile_pattern(s2);
    let p3 = compile_pattern(s3);
    match (p0, p1, p2, p3) {
        (Some(a), Some(b), Some(c), Some(d)) => {
            let mut v: Vec<Pattern> = Vec::new();
            v.push(a);
            v.push(b);
            v.push(c);
            v.push(d);
            Some(v)
        },
        _ => None,
    }
}

impl EngineeringAnalyzer {
    /// Compiles the fixed pattern table. Succeeds exactly when every pattern
    /// of the table is accepted by the regex compiler, and then the
    /// analyzer's image is the fixed table.
    pub fn new() -> (r: Result<Self, WikiEngineError>)
        ensures
            (r matches Ok(_)) == analyzer_tables_compile(),
            r matches Ok(a) ==> a@.cats =~= fixed_cats() && a@.indicators =~= indicator_srcs()
                && a@.relation_extractors =~= relation_srcs() && a@.technical == technical_src()
                && a@.math == math_src() && a@.concept == concept_src() && a@.paren == paren_src(),
    {
        let st = compile4(
            "(?i)(load|stress|strain|tension|compression|shear|moment|deflection)",
            "(?i)(beam|column|truss|frame|foundation|support)",
            "(?i)(buckling|fatigue|failure|strength|stiffness)",
            "(?i)(structural\\s+integrity|bearing\\s+capacity|factor\\s+of\\s+safety)",
        );
        let me = compile4(
            "(?i)(force|torque|power|energy|motion|velocity|acceleration)",
            "(?i)(gear|lever|pulley|spring|damper|actuator)",
            "(?i)(friction|lubrication|wear|vibration|resonance)",
            "(?i)(mechanical\\s+advantage|efficiency|work|momentum)",
        );
        let el = compile4(
            "(?i)(voltage|current|resistance|capacitance|inductance)",
            "(?i)(circuit|conductor|insulator|semiconductor|transistor)",
            "(?i)(electric\\s+field|magnetic\\s+field|electromagnetic)",
            "(?i)(ohm's\\s+law|kirchhoff|maxwell|faraday)",
        );
        let th = compile4(
            "(?i)(heat|temperature|thermal|conduction|convection|radiation)",
            "(?i)(thermodynamic|entropy|enthalpy|specific\\s+heat)",
            "(?i)(heat\\s+transfer|thermal\\s+expansion|insulation)",
            "(?i)(carnot|stefan.boltzmann|fourier)",
        );
        let ch = compile4(
            "(?i)(reaction|catalyst|equilibrium|kinetics|stoichiometry)",
            "(?i)(acid|base|oxidation|reduction|pH|molarity)",
            "(?i)(chemical\\s+bond|molecular|atomic|ionic)",
            "(?i)(mass\\s+transfer|diffusion|absorption|distillation)",
        );
        let ma = compile4(
            "(?i)(crystal|grain|microstructure|phase|alloy|steel|concrete|aluminum)",
            "(?i)(elastic\\s+modulus|yield\\s+strength|hardness|toughness|strength|stiffness)",
            "(?i)(composite|polymer|ceramic|metal|semiconductor|tension|compression)",
            "(?i)(corrosion|oxidation|creep|fracture|fatigue)",
        );
        let sy = compile4(
            "(?i)(feedback|control|regulation|stability|response)",
            "(?i)(input|output|transfer\\s+function|block\\s+diagram)",
            "(?i)(system\\s+dynamics|optimization|performance|reliability)",
            "(?i)(redundancy|fault\\s+tolerance|safety\\s+factor)",
        );
        let pr = compile4(
            "(?i)(manufacturing|production|assembly|quality\\s+control)",
            "(?i)(workflow|procedure|protocol|standard|specification)",
            "(?i)(efficiency|throughput|yield|waste|optimization)",
            "(?i)(automation|robotics|lean|six\\s+sigma)",
        );
        let de = compile4(
            "(?i)(requirement|specification|constraint|objective)",
            "(?i)(iteration|prototype|validation|verification)",
            "(?i)(trade.off|optimization|design\\s+space|parameter)",
            "(?i)(modularity|scalability|maintainability|sustainability)",
        );
        let ind = compile4(
            "(?i)(principle|law|theorem|rule|equation|formula)",
            "(?i)(based\\s+on|according\\s+to|governed\\s+by|follows)",
            "(?i)(fundamental|basic|key|essential|critical|important)",
            "(?i)(mechanism|process|phenomenon|effect|relationship|provide|enable|cause|resist)",
        );
        let rel = compile4(
            "(?i)(related\\s+to|associated\\s+with|connected\\s+to|linked\\s+to)",
            "(?i)(component|part|element|subsystem|module)",
            "(?i)(application|use|implementation|example)",
            "(?i)(see\\s+also|similar|comparable|analogous)",
        );
        let te = compile_pattern("\\b[A-Z][a-z]+(?:\\s+[A-Z][a-z]+)*\\b|[a-z]+-[a-z]+");
        let mth = compile_pattern("[=<>^]|\\\\[a-zA-Z]+");
        let co = compile_pattern("\\b[A-Z][a-z]+(?:\\s+[A-Z][a-z]+)*\\b");
        let pa = compile_pattern("\\(([^)]+)\\)");
        match (st, me, el, th, ch, ma, sy, pr, de, ind, rel, te, mth, co, pa) {
            (
                Some(st),
                Some(me),
                Some(el),
                Some(th),
                Some(ch),
                Some(ma),
                Some(sy),
                Some(pr),
                Some(de),
                Some(ind),
                Some(rel),
                Some(te),
                Some(mth),
                Some(co),
                Some(pa),
            ) => {
                let a = EngineeringAnalyzer {
                    structure_patterns: st,
                    mechanical_patterns: me,
                    electrical_patterns: el,
                    thermal_patterns: th,
                    chemical_patterns: ch,
                    material_patterns: ma,
                    system_patterns: sy,
                    process_patterns: pr,
                    design_patterns: de,
                    principle_extractors: ind,
                    related_term_extractors: rel,
                    technical_pattern: te,
                    math_pattern: mth,
                    concept_pattern: co,
                    paren_pattern: pa,
                };
                proof {
                    assert(a@.cats =~= fixed_cats()) by {
                        assert(a@.cats[0] =~= structure_srcs());
                        assert(a@.cats[1] =~= mechanical_srcs());
                        assert(a@.cats[2] =~= electrical_srcs());
                        assert(a@.cats[3] =~= thermal_srcs());
                        assert(a@.cats[4] =~= chemical_srcs());
                        assert(a@.cats[5] =~= material_srcs());
                        assert(a@.cats[6] =~= system_srcs());
                        assert(a@.cats[7] =~= process_srcs());
                        assert(a@.cats[8] =~= design_srcs());
                    }
                    assert(analyzer_tables_compile()) by {
                        assert forall|g: int| 0 <= g < 9 implies group_compiles(
                            #[trigger] fixed_cats()[g],
                        ) by {
                            assert(group_compiles(fixed_cats()[0]));
                            assert(group_compiles(fixed_cats()[1]));
                            assert(group_compiles(fixed_cats()[2]));
                            assert(group_compiles(fixed_cats()[3]));
                            assert(group_compiles(fixed_cats()[4]));
                            assert(group_compiles(fixed_cats()[5]));
                            assert(group_compiles(fixed_cats()[6]));
                            assert(group_compiles(fixed_cats()[7]));
                            assert(group_compiles(fixed_cats()[8]));
                        }
                    }
                }
                Ok(a)
            },
            _ => {
                proof {
                    if analyzer_tables_compile() {
                        assert(group_compiles(fixed_cats()[0]));
                        assert(group_compiles(fixed_cats()[1]));
                        assert(group_compiles(fixed_cats()[2]));
                        assert(group_compiles(fixed_cats()[3]));
                        assert(group_compiles(fixed_cats()[4]));
                        assert(group_compiles(fixed_cats()[5]));
                        assert(group_compiles(fixed_cats()[6]));
                        assert(group_compiles(fixed_cats()[7]));
                        assert(group_compiles(fixed_cats()[8]));
                        assert(false);
                    }
                }
                Err(
                    WikiEngineError::Analysis(
                        String::from_str("pattern compilation failed"),
                    ),
                )
            },
        }
    }
}

/// Stop-words never taken as related terms.
pub open spec fn is_common_spec(w: Seq<char>) -> bool {
    ||| w == "the"@
    ||| w == "and"@
    ||| w == "that"@
    ||| w == "with"@
    ||| w == "for"@
    ||| w == "are"@
    ||| w == "can"@
    ||| w == "this"@
    ||| w == "will"@
    ||| w == "such"@
    ||| w == "may"@
    ||| w == "also"@
    ||| w == "been"@
    ||| w == "have"@
    ||| w == "has"@
    ||| w == "was"@
    ||| w == "were"@
    ||| w == "from"@
    ||| w == "they"@
    ||| w == "these"@
    ||| w == "more"@
    ||| w == "some"@
    ||| w == "other"@
    ||| w == "than"@
    ||| w == "only"@
    ||| w == "very"@
    ||| w == "when"@
    ||| w == "where"@
    ||| w == "what"@
}

/// Whether the lowercase form of `w` is a stop-word.
pub fn is_common_word(w: &str) -> (r: bool)
    ensures
        r == is_common_spec(lower_of(w@)),
{
    let l = crate::outside::lowercase(w);
    let s = l.as_str();
    crate::text::str_eq(s, "the") || crate::text::str_eq(s, "and") || crate::text::str_eq(
        s,
        "that",
    ) || crate::text::str_eq(s, "with") || crate::text::str_eq(s, "for") || crate::text::str_eq(
        s,
        "are",
    ) || crate::text::str_eq(s, "can") || crate::text::str_eq(s, "this") || crate::text::str_eq(
        s,
        "will",
    ) || crate::text::str_eq(s, "such") || crate::text::str_eq(s, "may") || crate::text::str_eq(
        s,
        "also",
    ) || crate::text::str_eq(s, "been") || crate::text::str_eq(s, "have") || crate::text::str_eq(
        s,
        "has",
    ) || crate::text::str_eq(s, "was") || crate::text::str_eq(s, "were") || crate::text::str_eq(
        s,
        "from",
    ) || crate::text::str_eq(s, "they") || crate::text::str_eq(s, "these") || crate::text::str_eq(
        s,
        "more",
    ) || crate::text::str_eq(s, "some") || crate::text::str_eq(s, "other") || crate::text::str_eq(
        s,
        "than",
    ) || crate::text::str_eq(s, "only") || crate::text::str_eq(s, "very") || crate::text::str_eq(
        s,
        "when",
    ) || crate::text::str_eq(s, "where") || crate::text::str_eq(s, "what")
}

impl EngineeringAnalyzer {
    /// The analyzer as [`Self::new`] builds it: the fixed table.
    pub open spec fn wf(self) -> bool {
        &&& self@.cats =~= fixed_cats()
        &&& self@.indicators =~= indicator_srcs()
        &&& self@.relation_extractors =~= relation_srcs()
        &&& self@.technical == technical_src()
        &&& self@.math == math_src()
        &&& self@.concept == concept_src()
        &&& self@.paren == paren_src()
    }

    /// The pattern group standing at scan index `i`.
    fn group_at(&self, i: usize) -> (r: &Vec<Pattern>)
        requires
            i < 9,
        ensures
            srcs_of(r@) == self@.cats[i as int],
    {
        if i == 0 {
            &self.structure_patterns
        } else if i == 1 {
            &self.mechanical_patterns
        } else if i == 2 {
            &self.electrical_patterns
        } else if i == 3 {
            &self.thermal_patterns
        } else if i == 4 {
            &self.chemical_patterns
        } else if i == 5 {
            &self.material_patterns
        } else if i == 6 {
            &self.system_patterns
        } else if i == 7 {
            &self.process_patterns
        } else {
            &self.design_patterns
        }
    }

    /// The winning category group's index, if any group matched.
    fn best_cat(&self, text: &str) -> (r: Option<usize>)
        ensures
            r matches Some(i) ==> i < 9 && i == best_category_idx(self@.cats, text@),
            r is None ==> best_category_idx(self@.cats, text@) == -1,
    {
        let ghost scores = scores_of(self@.cats, text@);
        let mut best: usize = 9;
        let mut best_score: u128 = 0;
        let mut i: usize = 0;
        proof {
            assert(self@.cats.len() == 9);
        }
        while i < 9
            invariant
                i <= 9,
                best <= 9,
                scores == scores_of(self@.cats, text@),
                self@.cats.len() == 9,
                best == 9 ==> argmax_acc(scores, 0, -1, 0) == argmax_acc(
                    scores,
                    i as int,
                    -1,
                    best_score as int,
                ),
                best < 9 ==> argmax_acc(scores, 0, -1, 0) == argmax_acc(
                    scores,
                    i as int,
                    best as int,
                    best_score as int,
                ),
                best == 9 ==> best_score == 0,
            decreases 9 - i,
        {
            let sc = count_group(self.group_at(i), text);
            proof {
                assert(scores[i as int] == group_score(self@.cats[i as int], text@));
                assert(scores.len() == 9);
            }
            let ghost old_best = best;
            let ghost old_bs = best_score;
            if sc > best_score {
                best = i;
                best_score = sc;
            }
            i = i + 1;
            proof {
                let iprev: int = i - 1;
                let b: int = if old_best == 9 {
                    -1int
                } else {
                    old_best as int
                };
                if sc as int > old_bs as int {
                    assert(argmax_acc(scores, iprev, b, old_bs as int) == argmax_acc(
                        scores,
                        iprev + 1,
                        iprev,
                        scores[iprev],
                    ));
                } else {
                    assert(argmax_acc(scores, iprev, b, old_bs as int) == argmax_acc(
                        scores,
                        iprev + 1,
                        b,
                        old_bs as int,
                    ));
                }
            }
        }
        if best == 9 {
            None
        } else {
            Some(best)
        }
    }

    /// The chosen category for a unit of text: the first best-scoring group,
    /// or the open `General` label when nothing matches.
    pub fn categorize_text(&self, text: &str) -> (r: PrincipleCategory)
        ensures
            r@ == chosen_category(self@.cats, text@),
    {
        match self.best_cat(text) {
            Some(i) => category_for_index(i),
            None => PrincipleCategory::Other(String::from_str("General")),
        }
    }

    /// The classification confidence of a unit of text, in thousandths.
    pub fn calculate_confidence(&self, text: &str) -> (r: u32)
        requires
            self.wf(),
        ensures
            r == confidence_of(self@, text@),
            300 <= confidence_of(self@, text@) ==> 300 <= r <= 1000,
    {
        let ci = match self.best_cat(text) {
            None => {
                return 300;
            },
            Some(i) => i,
        };
        let ind = count_group(&self.principle_extractors, text);
        let cs = count_group(self.group_at(ci), text);
        proof {
            assert(self@.indicators.len() == 4);
            assert(self@.cats[ci as int].len() == 4);
            lemma_group_score_nonneg(self@.indicators, text@);
            lemma_group_score_nonneg(self@.cats[ci as int], text@);
        }
        let mut base: u128 = 200 * ind + 150 * cs;
        let len: usize = vstd::string::StrSliceExecFns::unicode_len(text);
        if 50 < len && len < 300 {
            base = base + 100;
        }
        if self.math_pattern.count_matches(text) > 0 {
            base = base + 200;
        }
        if base > 1000 {
            1000
        } else {
            base as u32
        }
    }
}

/// The chosen category for a unit of text.
pub open spec fn chosen_category(cats: Seq<Seq<Seq<char>>>, text: Seq<char>) -> CategoryV {
    let i = best_category_idx(cats, text);
    if i == -1 {
        CategoryV::Other("General"@)
    } else {
        category_of_index(i)
    }
}

/// The classification confidence of a unit of text, in thousandths: a fifth
/// per indicator match, three twentieths per winning-group match, a tenth for
/// a mid-sized unit, a fifth for mathematical notation, clamped to one; an
/// uncategorized unit scores exactly three tenths.
pub open spec fn confidence_of(a: AnalyzerV, text: Seq<char>) -> int {
    let ci = best_category_idx(a.cats, text);
    if ci == -1 {
        300
    } else {
        let base = 200 * group_score(a.indicators, text) + 150 * group_score(a.cats[ci], text) + (
        if 50 < text.len() < 300 {
            100int
        } else {
            0int
        }) + (if found_strings(a.math, text).len() > 0 {
            200int
        } else {
            0int
        });
        if base > 1000 {
            1000
        } else {
            base
        }
    }
}

/// Whether a technical term is taken: longer than three characters and not a
/// stop-word.
pub open spec fn keep_term(t: Seq<char>) -> bool {
    t.len() > 3 && !is_common_spec(lower_of(t))
}

/// The technical-term matches that are taken, in order.
pub open spec fn filter_tech(ts: Seq<Seq<char>>) -> Seq<Seq<char>>
    decreases ts.len(),
{
    if ts.len() == 0 {
        ts
    } else {
        filter_tech(ts.drop_last()) + if keep_term(ts.last()) {
            seq![ts.last()]
        } else {
            Seq::<Seq<char>>::empty()
        }
    }
}

/// The up-to-three-word window following character offset `e`.
pub open spec fn window_of(text: Seq<char>, e: int) -> Seq<char> {
    crate::text::join_spaces(crate::text::first_tokens(text.skip(e), 3))
}

/// The windows following each match of a relation-indicator pattern.
pub open spec fn windows_for(pat: Seq<char>, text: Seq<char>) -> Seq<Seq<char>> {
    Seq::new(
        crate::outside::match_char_spans(pat, text).len(),
        |i: int| window_of(text, crate::outside::match_char_spans(pat, text)[i].1 as int),
    )
}

/// Whether a window is taken: non-empty and not a stop-word.
pub open spec fn keep_window(w: Seq<char>) -> bool {
    w.len() > 0 && !is_common_spec(lower_of(w))
}

/// The windows that are taken, in order.
pub open spec fn filter_windows(ws: Seq<Seq<char>>) -> Seq<Seq<char>>
    decreases ws.len(),
{
    if ws.len() == 0 {
        ws
    } else {
        filter_windows(ws.drop_last()) + if keep_window(ws.last()) {
            seq![ws.last()]
        } else {
            Seq::<Seq<char>>::empty()
        }
    }
}

/// All taken windows of all relation-indicator patterns, in pattern order.
pub open spec fn window_candidates(pats: Seq<Seq<char>>, text: Seq<char>) -> Seq<Seq<char>>
    decreases pats.len(),
{
    if pats.len() == 0 {
        Seq::<Seq<char>>::empty()
    } else {
        window_candidates(pats.drop_last(), text) + filter_windows(
            windows_for(pats.last(), text),
        )
    }
}

/// The first `n` entries (all of them when fewer).
pub open spec fn take_at_most(s: Seq<Seq<char>>, n: int) -> Seq<Seq<char>> {
    if s.len() <= n {
        s
    } else {
        s.take(n)
    }
}

/// The related terms of a unit of text: taken technical terms, then taken
/// relation windows, first occurrences only, capped at five.
pub open spec fn related_terms_of(a: AnalyzerV, text: Seq<char>) -> Seq<Seq<char>> {
    take_at_most(
        crate::text::dedup_seq(
            filter_tech(found_strings(a.technical, text)) + window_candidates(
                a.relation_extractors,
                text,
            ),
        ),
        5,
    )
}

/// Whether a parenthesized fragment is taken as a concept.
pub open spec fn keep_paren(t: Seq<char>) -> bool {
    3 < t.len() < 50
}

/// The parenthesized fragments that are taken, in order.
pub open spec fn filter_paren(ts: Seq<Seq<char>>) -> Seq<Seq<char>>
    decreases ts.len(),
{
    if ts.len() == 0 {
        ts
    } else {
        filter_paren(ts.drop_last()) + if keep_paren(ts.last()) {
            seq![ts.last()]
        } else {
            Seq::<Seq<char>>::empty()
        }
    }
}

/// The related concepts of a page's text: taken capitalized phrases, then
/// taken parenthesized fragments, first occurrences only, capped at fifteen.
pub open spec fn related_concepts_of(a: AnalyzerV, text: Seq<char>) -> Seq<Seq<char>> {
    take_at_most(
        crate::text::dedup_seq(
            filter_tech(found_strings(a.concept, text)) + filter_paren(
                crate::outside::captured_strings(a.paren, text, 1),
            ),
        ),
        15,
    )
}

impl EngineeringAnalyzer {
    /// Extracts up to five related terms from a unit of text.
    pub fn extract_related_terms(&self, text: &str) -> (r: Vec<String>)
        ensures
            r.deep_view() == related_terms_of(self@, text@),
    {
        let mut cands: Vec<String> = Vec::new();
        let tech = self.technical_pattern.find_match_strings(text);
        let ghost techs = tech.deep_view();
        let mut i: usize = 0;
        proof {
            assert(techs.take(0) =~= Seq::<Seq<char>>::empty());
            assert(cands.deep_view() =~= filter_tech(techs.take(0)));
        }
        while i < tech.len()
            invariant
                i <= techs.len(),
                techs == tech.deep_view(),
                techs == found_strings(self@.technical, text@),
                cands.deep_view() == filter_tech(techs.take(i as int)),
            decreases techs.len() - i,
        {
            proof {
                assert(techs.take((i + 1) as int).drop_last() =~= techs.take(i as int));
                assert(techs.take((i + 1) as int).last() == techs[i as int]);
            }
            let t = &tech[i];
            if vstd::string::StrSliceExecFns::unicode_len(t.as_str()) > 3 && !is_common_word(
                t.as_str(),
            ) {
                let ghost pre = cands.deep_view();
                cands.push(t.clone());
                proof {
                    assert(cands.deep_view() =~= pre + seq![techs[i as int]]);
                }
            } else {
                proof {
                    assert(cands.deep_view() =~= cands.deep_view() + Seq::<Seq<char>>::empty());
                }
            }
            i = i + 1;
        }
        proof {
            assert(techs.take(techs.len() as int) =~= techs);
        }
        let tlen: usize = vstd::string::StrSliceExecFns::unicode_len(text);
        let ghost rsrcs = self@.relation_extractors;
        let mut k: usize = 0;
        proof {
            assert(rsrcs.take(0) =~= Seq::<Seq<char>>::empty());
            assert(cands.deep_view() =~= filter_tech(techs) + window_candidates(
                rsrcs.take(0),
                text@,
            ));
        }
        while k < self.related_term_extractors.len()
            invariant
                k <= rsrcs.len(),
                tlen == text@.len(),
                rsrcs == self@.relation_extractors,
                rsrcs == srcs_of(self.related_term_extractors@),
                techs == found_strings(self@.technical, text@),
                cands.deep_view() == filter_tech(techs) + window_candidates(
                    rsrcs.take(k as int),
                    text@,
                ),
            decreases rsrcs.len() - k,
        {
            let pat = &self.related_term_extractors[k];
            proof {
                assert(pat.src@ == rsrcs[k as int]);
                assert(rsrcs.take((k + 1) as int).drop_last() =~= rsrcs.take(k as int));
                assert(rsrcs.take((k + 1) as int).last() == rsrcs[k as int]);
            }
            let spans = pat.find_char_spans(text);
            let ghost ws = windows_for(rsrcs[k as int], text@);
            let ghost base = cands.deep_view();
            let mut j: usize = 0;
            proof {
                assert(ws.take(0) =~= Seq::<Seq<char>>::empty());
                assert(base + filter_windows(ws.take(0)) =~= base);
            }
            while j < spans.len()
                invariant
                    j <= spans@.len(),
                    tlen == text@.len(),
                    spans@ == crate::outside::match_char_spans(rsrcs[k as int], text@),
                    forall|m: int|
                        0 <= m < spans@.len() ==> (#[trigger] spans@[m]).0 <= spans@[m].1
                            <= text@.len(),
                    ws == windows_for(rsrcs[k as int], text@),
                    cands.deep_view() == base + filter_windows(ws.take(j as int)),
                decreases spans@.len() - j,
            {
                proof {
                    assert(ws.take((j + 1) as int).drop_last() =~= ws.take(j as int));
                    assert(ws.take((j + 1) as int).last() == ws[j as int]);
                    assert(ws[j as int] == window_of(text@, spans@[j as int].1 as int));
                }
                let e = spans[j].1;
                let sub = vstd::string::StrSliceExecFns::substring_char(text, e, tlen);
                proof {
                    assert(sub@ =~= text@.skip(e as int));
                }
                let w = crate::text::join_first_tokens(sub, 3);
                if vstd::string::StrSliceExecFns::unicode_len(w.as_str()) > 0 && !is_common_word(
                    w.as_str(),
                ) {
                    let ghost pre = cands.deep_view();
                    cands.push(w);
                    proof {
                        assert(cands.deep_view() =~= pre + seq![ws[j as int]]);
                    }
                } else {
                    proof {
                        assert(cands.deep_view() =~= cands.deep_view()
                            + Seq::<Seq<char>>::empty());
                    }
                }
                j = j + 1;
            }
            proof {
                assert(ws.take(ws.len() as int) =~= ws);
                assert(cands.deep_view() =~= filter_tech(techs) + (window_candidates(
                    rsrcs.take(k as int),
                    text@,
                ) + filter_windows(ws)));
            }
            k = k + 1;
        }
        proof {
            assert(rsrcs.take(rsrcs.len() as int) =~= rsrcs);
        }
        let mut out = crate::text::dedup_strings(&cands);
        let ghost full = out.deep_view();
        if out.len() > 5 {
            out.truncate(5);
            proof {
                assert(out.deep_view() =~= full.take(5));
            }
        }
        proof {
            assert(out.deep_view() =~= related_terms_of(self@, text@));
        }
        out
    }

    /// Extracts up to fifteen related concept names from a page's text.
    pub fn extract_related_concepts(&self, page: &crate::types::WikipediaPage) -> (r: Vec<String>)
        ensures
            r.deep_view() == related_concepts_of(self@, page.extract@),
    {
        let text = page.extract.as_str();
        let mut cands: Vec<String> = Vec::new();
        let caps = self.concept_pattern.find_match_strings(text);
        let ghost capv = caps.deep_view();
        let mut i: usize = 0;
        proof {
            assert(capv.take(0) =~= Seq::<Seq<char>>::empty());
            assert(cands.deep_view() =~= filter_tech(capv.take(0)));
        }
        while i < caps.len()
            invariant
                i <= capv.len(),
                capv == caps.deep_view(),
                capv == found_strings(self@.concept, page.extract@),
                cands.deep_view() == filter_tech(capv.take(i as int)),
            decreases capv.len() - i,
        {
            proof {
                assert(capv.take((i + 1) as int).drop_last() =~= capv.take(i as int));
                assert(capv.take((i + 1) as int).last() == capv[i as int]);
            }
            let t = &caps[i];
            if vstd::string::StrSliceExecFns::unicode_len(t.as_str()) > 3 && !is_common_word(
                t.as_str(),
            ) {
                let ghost pre = cands.deep_view();
                cands.push(t.clone());
                proof {
                    assert(cands.deep_view() =~= pre + seq![capv[i as int]]);
                }
            } else {
                proof {
                    assert(cands.deep_view() =~= cands.deep_view() + Seq::<Seq<char>>::empty());
                }
            }
            i = i + 1;
        }
        proof {
            assert(capv.take(capv.len() as int) =~= capv);
        }
        let parens = self.paren_pattern.find_capture_strings(text, 1);
        let ghost parv = parens.deep_view();
        let ghost base = cands.deep_view();
        let mut j: usize = 0;
        proof {
            assert(parv.take(0) =~= Seq::<Seq<char>>::empty());
            assert(base + filter_paren(parv.take(0)) =~= base);
        }
        while j < parens.len()
            invariant
                j <= parv.len(),
                parv == parens.deep_view(),
                parv == crate::outside::captured_strings(self@.paren, page.extract@, 1),
                capv == found_strings(self@.concept, page.extract@),
                cands.deep_view() == base + filter_paren(parv.take(j as int)),
                base == filter_tech(capv),
            decreases parv.len() - j,
        {
            proof {
                assert(parv.take((j + 1) as int).drop_last() =~= parv.take(j as int));
                assert(parv.take((j + 1) as int).last() == parv[j as int]);
            }
            let t = &parens[j];
            let tl = vstd::string::StrSliceExecFns::unicode_len(t.as_str());
            if 3 < tl && tl < 50 {
                let ghost pre = cands.deep_view();
                cands.push(t.clone());
                proof {
                    assert(cands.deep_view() =~= pre + seq![parv[j as int]]);
                }
            } else {
                proof {
                    assert(cands.deep_view() =~= cands.deep_view() + Seq::<Seq<char>>::empty());
                }
            }
            j = j + 1;
        }
        proof {
            assert(parv.take(parv.len() as int) =~= parv);
        }
        let mut out = crate::text::dedup_strings(&cands);
        let ghost full = out.deep_view();
        if out.len() > 15 {
            out.truncate(15);
            proof {
                assert(out.deep_view() =~= full.take(15));
            }
        }
        proof {
            assert(out.deep_view() =~= related_concepts_of(self@, page.extract@));
        }
        out
    }
}

/// Whether a sentence-like unit yields a principle: it shows a principle
/// indicator and clears the three-tenths confidence threshold.
pub open spec fn principle_keeps(a: AnalyzerV, sent: Seq<char>) -> bool {
    group_score(a.indicators, sent) > 0 && confidence_of(a, sent) >= 300
}

/// The principle a kept unit yields.
pub open spec fn principle_of(a: AnalyzerV, sent: Seq<char>, url: Seq<char>) -> PrincipleV {
    PrincipleV {
        title: crate::text::title_of(sent),
        description: crate::text::trim_of(sent),
        category: chosen_category(a.cats, sent),
        confidence_milli: confidence_of(a, sent) as u32,
        source_url: url,
        related_terms: related_terms_of(a, sent),
    }
}

/// The candidate principles of a unit sequence, in unit order.
pub open spec fn candidates_of(a: AnalyzerV, sents: Seq<Seq<char>>, url: Seq<char>) -> Seq<
    PrincipleV,
>
    decreases sents.len(),
{
    if sents.len() == 0 {
        Seq::<PrincipleV>::empty()
    } else {
        candidates_of(a, sents.drop_last(), url) + if principle_keeps(a, sents.last()) {
            seq![principle_of(a, sents.last(), url)]
        } else {
            Seq::<PrincipleV>::empty()
        }
    }
}

/// Confidence always lands in `0..=1000`.
pub proof fn lemma_confidence_range(a: AnalyzerV, text: Seq<char>)
    ensures
        0 <= confidence_of(a, text) <= 1000,
{
    let ci = best_category_idx(a.cats, text);
    if ci != -1 {
        lemma_group_score_nonneg(a.indicators, text);
        lemma_group_score_nonneg(a.cats[ci], text);
    }
}

/// Every candidate's confidence is in `300..=1000`.
pub proof fn lemma_candidates_range(a: AnalyzerV, sents: Seq<Seq<char>>, url: Seq<char>)
    ensures
        forall|i: int|
            0 <= i < candidates_of(a, sents, url).len() ==> 300 <= (#[trigger] candidates_of(
                a,
                sents,
                url,
            )[i]).confidence_milli <= 1000,
    decreases sents.len(),
{
    if sents.len() > 0 {
        lemma_candidates_range(a, sents.drop_last(), url);
        lemma_confidence_range(a, sents.last());
    }
}

/// No later entry's description is more than four-fifths token-similar to an
/// earlier entry's.
pub open spec fn pairwise_distinct(s: Seq<PrincipleV>) -> bool {
    forall|i: int, j: int|
        0 <= i < j < s.len() ==> !crate::text::token_sim_gt(
            (#[trigger] s[j]).description,
            (#[trigger] s[i]).description,
            4,
            5,
        )
}

/// No two principles of a pairwise-distinct list — such as any
/// classification output — have descriptions whose token similarity strictly
/// exceeds four fifths, in either orientation: token similarity is
/// symmetric, so deduplication leaves no such pair alive.
pub proof fn lemma_no_similar_pair_survives(s: Seq<PrincipleV>)
    requires
        pairwise_distinct(s),
    ensures
        forall|i: int, j: int|
            0 <= i < s.len() && 0 <= j < s.len() && i != j ==> !crate::text::token_sim_gt(
                (#[trigger] s[i]).description,
                (#[trigger] s[j]).description,
                4,
                5,
            ),
{
    assert forall|i: int, j: int|
        0 <= i < s.len() && 0 <= j < s.len() && i != j implies !crate::text::token_sim_gt(
        (#[trigger] s[i]).description,
        (#[trigger] s[j]).description,
        4,
        5,
    ) by {
        crate::text::lemma_token_sim_symmetric(s[i].description, s[j].description, 4, 5);
        if i < j {
            assert(!crate::text::token_sim_gt(s[j].description, s[i].description, 4, 5));
        } else {
            assert(!crate::text::token_sim_gt(s[i].description, s[j].description, 4, 5));
        }
    }
}

/// The deduplication walk over a confidence-ranked candidate list: a
/// candidate joins `kept` only if its description stays at or below the
/// four-fifths similarity bound against every kept description.
pub open spec fn dedup_walk(s: Seq<PrincipleV>, kept: Seq<PrincipleV>) -> Seq<PrincipleV>
    decreases s.len(),
{
    if s.len() == 0 {
        kept
    } else if exists|k: int|
        0 <= k < kept.len() && crate::text::token_sim_gt(
            s[0].description,
            (#[trigger] kept[k]).description,
            4,
            5,
        ) {
        dedup_walk(s.drop_first(), kept)
    } else {
        dedup_walk(s.drop_first(), kept.push(s[0]))
    }
}

/// The walk keeps pairwise distinctness, membership and sortedness.
pub proof fn lemma_dedup_walk(s: Seq<PrincipleV>, kept: Seq<PrincipleV>)
    requires
        pairwise_distinct(kept),
        crate::types::sorted_desc_p(kept + s),
    ensures
        pairwise_distinct(dedup_walk(s, kept)),
        crate::types::sorted_desc_p(dedup_walk(s, kept)),
        forall|e: PrincipleV|
            dedup_walk(s, kept).contains(e) ==> kept.contains(e) || s.contains(e),
    decreases s.len(),
{
    if s.len() == 0 {
        assert(kept + s =~= kept);
    } else {
        let x = s[0];
        let rest = s.drop_first();
        if exists|k: int|
            0 <= k < kept.len() && crate::text::token_sim_gt(
                x.description,
                (#[trigger] kept[k]).description,
                4,
                5,
            ) {
            assert(crate::types::sorted_desc_p(kept + rest)) by {
                assert forall|i: int, j: int| 0 <= i <= j < (kept + rest).len() implies (
                #[trigger] (kept + rest)[i]).confidence_milli >= (#[trigger] (kept
                    + rest)[j]).confidence_milli by {
                    let full = kept + s;
                    let ii: int = if i < kept.len() {
                        i
                    } else {
                        i + 1
                    };
                    let jj: int = if j < kept.len() {
                        j
                    } else {
                        j + 1
                    };
                    assert((kept + rest)[i] == full[ii]);
                    assert((kept + rest)[j] == full[jj]);
                    assert(full[ii].confidence_milli >= full[jj].confidence_milli);
                }
            }
            lemma_dedup_walk(rest, kept);
            assert forall|e: PrincipleV| dedup_walk(s, kept).contains(e) implies kept.contains(e)
                || s.contains(e) by {
                if rest.contains(e) {
                    let w = choose|w: int| 0 <= w < rest.len() && rest[w] == e;
                    assert(s[w + 1] == e);
                }
            }
        } else {
            let kept2 = kept.push(x);
            assert(pairwise_distinct(kept2)) by {
                assert forall|i: int, j: int| 0 <= i < j < kept2.len() implies !crate::text::token_sim_gt(
                    (#[trigger] kept2[j]).description,
                    (#[trigger] kept2[i]).description,
                    4,
                    5,
                ) by {
                    if j < kept.len() {
                        assert(kept2[i] == kept[i]);
                        assert(kept2[j] == kept[j]);
                    } else {
                        assert(kept2[j] == x);
                        assert(kept2[i] == kept[i]);
                    }
                }
            }
            assert(kept2 + rest =~= kept + s);
            lemma_dedup_walk(rest, kept2);
            assert forall|e: PrincipleV| dedup_walk(s, kept).contains(e) implies kept.contains(e)
                || s.contains(e) by {
                if kept2.contains(e) {
                    let w = choose|w: int| 0 <= w < kept2.len() && kept2[w] == e;
                    if w < kept.len() {
                        assert(kept[w] == e);
                    } else {
                        assert(s[0] == e);
                    }
                } else if rest.contains(e) {
                    let w = choose|w: int| 0 <= w < rest.len() && rest[w] == e;
                    assert(s[w + 1] == e);
                }
            }
        }
    }
}

/// The ranked, deduplicated, capped classification of a page's text.
pub open spec fn analyze_page_spec(a: AnalyzerV, page: crate::types::PageV) -> Seq<PrincipleV> {
    let c = candidates_of(a, crate::text::sentences_of(page.extract), page.url);
    let d = dedup_walk(crate::types::sort_desc_p(c), Seq::<PrincipleV>::empty());
    if d.len() <= 10 {
        d
    } else {
        d.take(10)
    }
}

impl EngineeringAnalyzer {
    /// Classifies a page's text into at most ten ranked principles.
    ///
    /// The result is exactly the specification pipeline: sentence units,
    /// indicator and confidence gating, scoring, stable ranking, similarity
    /// deduplication and the cap — with every confidence in `300..=1000`
    /// and no two surviving descriptions more than four-fifths token-similar.
    pub fn analyze_page(&self, page: &crate::types::WikipediaPage) -> (r: Result<
        Vec<EngineeringPrinciple>,
        WikiEngineError,
    >)
        requires
            self.wf(),
        ensures
            r matches Ok(v) && v.deep_view() == analyze_page_spec(self@, page@),
            r matches Ok(v) && v@.len() <= 10,
            r matches Ok(v) && crate::types::sorted_desc_p(v.deep_view()),
            r matches Ok(v) && pairwise_distinct(v.deep_view()),
            r matches Ok(v) && forall|i: int|
                0 <= i < v.deep_view().len() ==> 300 <= (
                #[trigger] v.deep_view()[i]).confidence_milli <= 1000,
    {
        let sents = crate::text::split_sentences(page.extract.as_str());
        let ghost sentsv = sents.deep_view();
        let ghost url = page.url@;
        let mut cands: Vec<EngineeringPrinciple> = Vec::new();
        let mut i: usize = 0;
        proof {
            assert(sentsv.take(0) =~= Seq::<Seq<char>>::empty());
            assert(cands.deep_view() =~= candidates_of(self@, sentsv.take(0), url));
        }
        while i < sents.len()
            invariant
                i <= sentsv.len(),
                self.wf(),
                sentsv == sents.deep_view(),
                sentsv == crate::text::sentences_of(page.extract@),
                url == page.url@,
                cands.deep_view() == candidates_of(self@, sentsv.take(i as int), url),
            decreases sentsv.len() - i,
        {
            proof {
                assert(sentsv.take((i + 1) as int).drop_last() =~= sentsv.take(i as int));
                assert(sentsv.take((i + 1) as int).last() == sentsv[i as int]);
            }
            let sent = &sents[i];
            let ind = count_group(&self.principle_extractors, sent.as_str());
            let mut kept_one = false;
            if ind > 0 {
                let conf = self.calculate_confidence(sent.as_str());
                if conf >= 300 {
                    let cat = self.categorize_text(sent.as_str());
                    let terms = self.extract_related_terms(sent.as_str());
                    let p = EngineeringPrinciple {
                        id: crate::outside::fresh_id(),
                        title: crate::text::title_from_text(sent.as_str()),
                        description: crate::text::trim_str(sent.as_str()),
                        category: cat,
                        confidence_milli: conf,
                        source_url: page.url.clone(),
                        related_terms: terms,
                    };
                    proof {
                        assert(p@ == principle_of(self@, sentsv[i as int], url));
                    }
                    let ghost pre = cands.deep_view();
                    cands.push(p);
                    kept_one = true;
                    proof {
                        assert(cands.deep_view() =~= pre + seq![
                            principle_of(self@, sentsv[i as int], url),
                        ]);
                    }
                }
            }
            if !kept_one {
                proof {
                    assert(cands.deep_view() =~= cands.deep_view() + Seq::<PrincipleV>::empty());
                }
            }
            i = i + 1;
        }
        proof {
            assert(sentsv.take(sentsv.len() as int) =~= sentsv);
            lemma_candidates_range(self@, sentsv, url);
        }
        let ghost candv = cands.deep_view();
        let sorted = crate::types::sort_principles_desc(cands);
        proof {
            crate::types::lemma_sort_desc_p(candv);
            candv.to_multiset_ensures();
            crate::types::sort_desc_p(candv).to_multiset_ensures();
        }
        let ghost sortedv = sorted.deep_view();
        let mut kept: Vec<EngineeringPrinciple> = Vec::new();
        let mut rest = sorted;
        let ghost done: int = 0;
        proof {
            assert(rest.deep_view() =~= sortedv.skip(0));
            assert(kept.deep_view() =~= Seq::<PrincipleV>::empty());
            assert(dedup_walk(sortedv, Seq::<PrincipleV>::empty()) == dedup_walk(
                sortedv.skip(0),
                kept.deep_view(),
            ));
        }
        while rest.len() > 0
            invariant
                0 <= done <= sortedv.len(),
                rest.deep_view() =~= sortedv.skip(done),
                dedup_walk(sortedv, Seq::<PrincipleV>::empty()) == dedup_walk(
                    sortedv.skip(done),
                    kept.deep_view(),
                ),
            decreases rest@.len(),
        {
            let ghost pre_rest = rest.deep_view();
            let x = rest.remove(0);
            proof {
                assert(rest.deep_view() =~= pre_rest.drop_first());
                assert(rest.deep_view() =~= sortedv.skip(done + 1));
                assert(x.deep_view() == pre_rest[0]);
            }
            let mut dup = false;
            let mut m: usize = 0;
            while m < kept.len()
                invariant
                    m <= kept@.len(),
                    !dup ==> forall|k: int|
                        0 <= k < m ==> !crate::text::token_sim_gt(
                            x@.description,
                            (#[trigger] kept.deep_view()[k]).description,
                            4,
                            5,
                        ),
                    dup ==> exists|k: int|
                        0 <= k < kept.deep_view().len() && crate::text::token_sim_gt(
                            x@.description,
                            (#[trigger] kept.deep_view()[k]).description,
                            4,
                            5,
                        ),
                decreases kept@.len() - m,
            {
                if crate::text::sim_exceeds(
                    x.description.as_str(),
                    kept[m].description.as_str(),
                    4,
                    5,
                ) {
                    proof {
                        assert(kept.deep_view()[m as int].description == kept@[m as int]@.description);
                    }
                    dup = true;
                    m = kept.len();
                } else {
                    m = m + 1;
                }
            }
            if !dup {
                let ghost pre_kept = kept.deep_view();
                kept.push(x);
                proof {
                    assert(kept.deep_view() =~= pre_kept.push(pre_rest[0]));
                    assert(pre_rest[0] == sortedv.skip(done)[0]);
                }
            } else {
                proof {
                    assert(pre_rest[0] == sortedv.skip(done)[0]);
                }
            }
            proof {
                done = done + 1;
            }
        }
        proof {
            assert(sortedv.skip(done) =~= Seq::<PrincipleV>::empty());
            assert(kept.deep_view() == dedup_walk(sortedv, Seq::<PrincipleV>::empty()));
            assert(Seq::<PrincipleV>::empty() + sortedv =~= sortedv);
            lemma_dedup_walk(sortedv, Seq::<PrincipleV>::empty());
        }
        let ghost dedupv = kept.deep_view();
        let mut out = kept;
        if out.len() > 10 {
            out.truncate(10);
            proof {
                assert(out.deep_view() =~= dedupv.take(10));
            }
        }
        proof {
            assert(out.deep_view() == analyze_page_spec(self@, page@));
            let ov = out.deep_view();
            assert forall|i2: int, j2: int| 0 <= i2 < j2 < ov.len() implies !crate::text::token_sim_gt(
                (#[trigger] ov[j2]).description,
                (#[trigger] ov[i2]).description,
                4,
                5,
            ) by {
                assert(ov[i2] == dedupv[i2]);
                assert(ov[j2] == dedupv[j2]);
            }
            assert(crate::types::sorted_desc_p(ov)) by {
                assert forall|i2: int, j2: int| 0 <= i2 <= j2 < ov.len() implies (
                #[trigger] ov[i2]).confidence_milli >= (#[trigger] ov[j2]).confidence_milli by {
                    assert(ov[i2] == dedupv[i2]);
                    assert(ov[j2] == dedupv[j2]);
                }
            }
            assert forall|i2: int| 0 <= i2 < ov.len() implies 300 <= (
            #[trigger] ov[i2]).confidence_milli <= 1000 by {
                assert(dedupv.contains(ov[i2])) by {
                    assert(dedupv[i2] == ov[i2]);
                }
                assert(sortedv.contains(ov[i2]));
                let w = choose|w: int| 0 <= w < sortedv.len() && sortedv[w] == ov[i2];
                assert(sortedv.to_multiset().contains(ov[i2]));
                assert(candv.to_multiset().contains(ov[i2]));
                assert(candv.contains(ov[i2]));
                let w2 = choose|w2: int| 0 <= w2 < candv.len() && candv[w2] == ov[i2];
                assert(300 <= candv[w2].confidence_milli <= 1000);
            }
        }
        Ok(out)
    }
}

} // verus!
