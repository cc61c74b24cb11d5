use wiki_engine::semantic_analyzer::{RelationType, SemanticAnalyzer};
use wiki_engine::types::PrincipleCategory;

#[test]
fn uav_decomposes_into_motor_and_battery_components() {
    let sa = SemanticAnalyzer::new().unwrap();
    let d = sa.decompose_concept("uav", 2).unwrap();
    assert_eq!(d.confidence_milli, 950);
    let motor = d
        .components
        .iter()
        .find(|c| c.name.as_str() == "motor")
        .expect("motor component");
    assert!(matches!(motor.category, PrincipleCategory::Mechanical));
    assert!(motor.importance_milli > 500);
    let battery = d
        .components
        .iter()
        .find(|c| c.name.as_str() == "battery")
        .expect("battery component");
    assert!(matches!(battery.category, PrincipleCategory::Electrical));
    assert!(battery.importance_milli > 500);
    assert!(d
        .relationships
        .iter()
        .any(|r| r.component.as_str() == "battery"
            && matches!(r.relation_type, RelationType::Requires)));
}

#[test]
fn synonyms_normalize_to_the_canonical_concept() {
    let sa = SemanticAnalyzer::new().unwrap();
    let d = sa.decompose_concept("DRONE", 2).unwrap();
    assert_eq!(d.confidence_milli, 950);
    assert!(d.components.iter().any(|c| c.name.as_str() == "motor"));
    assert_eq!(d.concept, "DRONE");
}

#[test]
fn components_are_sorted_by_importance() {
    let sa = SemanticAnalyzer::new().unwrap();
    let d = sa.decompose_concept("uav", 2).unwrap();
    for w in d.components.windows(2) {
        assert!(w[0].importance_milli >= w[1].importance_milli);
    }
}

#[test]
fn unknown_concept_falls_back_to_empty_text_extraction() {
    let sa = SemanticAnalyzer::new().unwrap();
    let d = sa.decompose_concept("xyzzy", 1).unwrap();
    assert_eq!(d.concept, "extracted_concept");
    assert!(d.components.is_empty());
    assert_eq!(d.confidence_milli, 0);
}

#[test]
fn text_extraction_finds_components_and_relationships() {
    let sa = SemanticAnalyzer::new().unwrap();
    let d = sa
        .extract_components_from_text("The motor is part of drone. Battery requires charging.", 1)
        .unwrap();
    let names: Vec<&str> = d.components.iter().map(|c| c.name.as_str()).collect();
    assert!(names.contains(&"motor"));
    assert!(names.contains(&"battery"));
    let battery = d.components.iter().find(|c| c.name.as_str() == "battery").unwrap();
    assert_eq!(battery.importance_milli, 680);
    let motor = d.components.iter().find(|c| c.name.as_str() == "motor").unwrap();
    assert_eq!(motor.importance_milli, 640);
    assert_eq!(d.confidence_milli, 660);
    assert!(d
        .relationships
        .iter()
        .any(|r| r.component.as_str() == "drone" && matches!(r.relation_type, RelationType::PartOf)));
    assert!(d
        .relationships
        .iter()
        .any(|r| r.component.as_str() == "charging"
            && matches!(r.relation_type, RelationType::Requires)));
}

#[test]
fn decomposition_renders_as_titled_principles() {
    let sa = SemanticAnalyzer::new().unwrap();
    let principles = sa.analyze_engineering_concept("uav", 2, None).unwrap();
    assert!(!principles.is_empty());
    for w in principles.windows(2) {
        assert!(w[0].confidence_milli >= w[1].confidence_milli);
    }
    let motor = principles.iter().find(|p| p.title.as_str() == "Motor Mechanism").unwrap();
    assert!(matches!(motor.category, PrincipleCategory::Mechanical));
    assert_eq!(motor.source_url, "https://en.wikipedia.org/wiki/uav");
    assert!(principles.iter().any(|p| p.title.as_str() == "Battery Circuit Principle"));
}

#[test]
fn added_knowledge_is_used_by_later_decompositions() {
    let mut sa = SemanticAnalyzer::new().unwrap();
    let components = vec![String::from("rotor"), String::from("mast")];
    sa.add_concept_knowledge("windmill", components, Vec::new());
    let d = sa.decompose_concept("windmill", 1).unwrap();
    assert_eq!(d.confidence_milli, 950);
    assert!(d.components.iter().any(|c| c.name.as_str() == "rotor"));
    assert!(d.components.iter().any(|c| c.name.as_str() == "mast"));
}
