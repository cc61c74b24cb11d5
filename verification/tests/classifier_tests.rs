use wiki_engine::analyzer::EngineeringAnalyzer;
use wiki_engine::types::{PrincipleCategory, WikipediaPage};

fn page_with(extract: &str) -> WikipediaPage {
    WikipediaPage {
        title: String::from("Test"),
        extract: String::from(extract),
        url: String::from("https://example.org/test"),
        page_id: 1,
    }
}

#[test]
fn steel_sentence_yields_material_or_mechanical_principle() {
    let analyzer = EngineeringAnalyzer::new().unwrap();
    let page = page_with("Steel provides strength to resist tension and compression forces.");
    let principles = analyzer.analyze_page(&page).unwrap();
    assert_eq!(principles.len(), 1);
    let p = &principles[0];
    assert!(
        matches!(p.category, PrincipleCategory::Material)
            || matches!(p.category, PrincipleCategory::Mechanical)
    );
    assert!(p.confidence_milli >= 300);
    assert!(p.confidence_milli <= 1000);
}

#[test]
fn steel_sentence_title_is_first_eight_words_unpunctuated() {
    let analyzer = EngineeringAnalyzer::new().unwrap();
    let page = page_with("Steel provides strength to resist tension and compression forces.");
    let principles = analyzer.analyze_page(&page).unwrap();
    assert_eq!(
        principles[0].title,
        "Steel provides strength to resist tension and compression"
    );
    assert_eq!(
        principles[0].description,
        "Steel provides strength to resist tension and compression forces."
    );
    assert_eq!(principles[0].source_url, "https://example.org/test");
}

#[test]
fn uncategorized_indicator_sentence_scores_exactly_three_tenths() {
    let analyzer = EngineeringAnalyzer::new().unwrap();
    let page = page_with("The law of gravity.");
    let principles = analyzer.analyze_page(&page).unwrap();
    assert_eq!(principles.len(), 1);
    assert_eq!(principles[0].confidence_milli, 300);
    match &principles[0].category {
        PrincipleCategory::Other(label) => assert_eq!(label, "General"),
        _ => panic!("expected the open category"),
    }
}

#[test]
fn sentence_without_indicators_is_discarded() {
    let analyzer = EngineeringAnalyzer::new().unwrap();
    let page = page_with("A quiet afternoon in the garden.");
    let principles = analyzer.analyze_page(&page).unwrap();
    assert!(principles.is_empty());
}

#[test]
fn identical_sentences_are_deduplicated() {
    let analyzer = EngineeringAnalyzer::new().unwrap();
    let page = page_with("Key law of force. Key law of force. Key law of force");
    let principles = analyzer.analyze_page(&page).unwrap();
    assert_eq!(principles.len(), 1);
}

#[test]
fn output_is_capped_and_sorted_by_confidence() {
    let analyzer = EngineeringAnalyzer::new().unwrap();
    let mut text = String::new();
    for i in 0..15 {
        text.push_str(&format!("Principle number {} of stress and load in beams applies. ", i));
    }
    let page = page_with(&text);
    let principles = analyzer.analyze_page(&page).unwrap();
    assert!(principles.len() <= 10);
    for w in principles.windows(2) {
        assert!(w[0].confidence_milli >= w[1].confidence_milli);
    }
    for p in &principles {
        assert!(p.confidence_milli >= 300 && p.confidence_milli <= 1000);
    }
}

#[test]
fn related_terms_include_relation_windows() {
    let analyzer = EngineeringAnalyzer::new().unwrap();
    let terms =
        analyzer.extract_related_terms("Energy related to Heat Transfer systems in engines");
    assert!(terms.iter().any(|t| t.as_str() == "Heat Transfer systems"));
    assert!(terms.iter().any(|t| t.as_str() == "Energy"));
    assert!(terms.len() <= 5);
}

#[test]
fn related_concepts_come_from_capitals_and_parentheses() {
    let analyzer = EngineeringAnalyzer::new().unwrap();
    let page = page_with("Golden Gate (a suspension span) crosses the strait near Fort Point.");
    let concepts = analyzer.extract_related_concepts(&page);
    assert!(concepts.iter().any(|c| c.as_str() == "Golden Gate"));
    assert!(concepts.iter().any(|c| c.as_str() == "Fort Point"));
    assert!(concepts.iter().any(|c| c.as_str() == "a suspension span"));
    assert!(concepts.len() <= 15);
}
