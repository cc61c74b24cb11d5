use wiki_engine::cache::WikiEngineCache;
use wiki_engine::engine::{PageStore, WikiEngine};
use wiki_engine::types::{AnalysisNode, SearchRequest, WikipediaPage};

fn page(title: &str, extract: &str) -> WikipediaPage {
    WikipediaPage {
        title: String::from(title),
        extract: String::from(extract),
        url: format!("https://example.org/{}", title),
        page_id: 7,
    }
}

fn new_engine() -> WikiEngine {
    WikiEngine::new(WikiEngineCache::new()).unwrap()
}

fn request(term: &str, max_depth: u8, max_results: u8) -> SearchRequest {
    SearchRequest {
        term: String::from(term),
        max_depth: Some(max_depth),
        max_results: Some(max_results),
    }
}

fn sum_principles(node: &AnalysisNode) -> u32 {
    let mut total = node.principles.len() as u32;
    for child in &node.children {
        total += sum_principles(child);
    }
    total
}

fn check_depths(node: &AnalysisNode, expected: u8) {
    assert_eq!(node.depth, expected);
    for child in &node.children {
        check_depths(child, expected + 1);
    }
}

fn check_no_repeat_on_path(node: &AnalysisNode, path: &mut Vec<String>) {
    assert!(!path.iter().any(|t| t == &node.term));
    path.push(node.term.clone());
    for child in &node.children {
        check_no_repeat_on_path(child, path);
    }
    path.pop();
}

#[test]
fn zero_depth_request_yields_a_single_leaf() {
    let mut engine = new_engine();
    let pages = PageStore::new();
    let result = engine.analyze_recursive(&request("bridge", 0, 5), &pages, 0);
    assert_eq!(result.root_term, "bridge");
    assert_eq!(result.tree.depth, 0);
    assert!(result.tree.children.is_empty());
    assert_eq!(result.max_depth_reached, 0);
    assert_eq!(result.total_principles, 0);
}

#[test]
fn expansion_respects_depth_distance_and_cycle_freedom() {
    let mut engine = new_engine();
    let mut pages = PageStore::new();
    pages.insert(
        String::from("bridge"),
        Some(page(
            "bridge",
            "Bridge design principle follows load and stress rules. Related to Steel Trusses and Concrete Anchors.",
        )),
    );
    let result = engine.analyze_recursive(&request("bridge", 2, 5), &pages, 0);
    assert_eq!(result.root_term, "bridge");
    assert!(result.max_depth_reached <= 2);
    check_depths(&result.tree, 0);
    let mut path = Vec::new();
    check_no_repeat_on_path(&result.tree, &mut path);
    assert_eq!(result.total_principles, sum_principles(&result.tree));
    assert!(!result.tree.principles.is_empty());
}

#[test]
fn aggregates_recompute_identically_from_the_cached_tree() {
    let mut engine = new_engine();
    let mut pages = PageStore::new();
    pages.insert(
        String::from("bridge"),
        Some(page(
            "bridge",
            "Bridge design principle follows load and stress rules. Related to Steel Trusses.",
        )),
    );
    let req = request("bridge", 1, 5);
    let fresh = engine.analyze_recursive(&req, &pages, 0);
    let cached = engine.analyze_recursive(&req, &pages, 10);
    assert_eq!(fresh.total_principles, cached.total_principles);
    assert_eq!(fresh.max_depth_reached, cached.max_depth_reached);
    assert_eq!(fresh.tree.term, cached.tree.term);
    assert_eq!(fresh.tree.children.len(), cached.tree.children.len());
}

#[test]
fn missing_content_gives_an_empty_leaf_not_an_error() {
    let mut engine = new_engine();
    let mut pages = PageStore::new();
    pages.insert(String::from("ghost"), None);
    let result = engine.analyze_recursive(&request("ghost", 3, 5), &pages, 0);
    assert!(result.tree.principles.is_empty());
    assert!(result.tree.children.is_empty());
    assert_eq!(result.max_depth_reached, 0);
}

#[test]
fn plan_names_exactly_the_unfetched_terms() {
    let engine = new_engine();
    let pages = PageStore::new();
    let plan = engine.plan_missing_terms("bridge", 2, 5, &pages);
    assert_eq!(plan.len(), 1);
    assert_eq!(plan[0], "bridge");
    let mut pages = PageStore::new();
    pages.insert(
        String::from("bridge"),
        Some(page("bridge", "Principle of load. Related to Steel Trusses.")),
    );
    let plan = engine.plan_missing_terms("bridge", 2, 5, &pages);
    assert!(!plan.iter().any(|t| t == "bridge"));
    assert!(plan.iter().any(|t| t.as_str() == "Steel Trusses"));
    pages.insert(String::from("Steel Trusses"), None);
    let mut complete = true;
    for t in engine.plan_missing_terms("bridge", 2, 5, &pages) {
        if t.as_str() == "Steel Trusses" {
            complete = false;
        }
    }
    assert!(complete);
}

fn count_term(node: &AnalysisNode, term: &str) -> usize {
    let mut n = if node.term == term { 1 } else { 0 };
    for child in &node.children {
        n += count_term(child, term);
    }
    n
}

#[test]
fn the_same_concept_may_appear_in_two_sibling_subtrees() {
    let mut engine = new_engine();
    let mut pages = PageStore::new();
    pages.insert(
        String::from("bridge"),
        Some(page("bridge", "Principle of load. Related to Alpha Beam. Related to Gamma Beam.")),
    );
    pages.insert(
        String::from("Alpha Beam"),
        Some(page("Alpha Beam", "Principle of stress. Related to Delta Truss.")),
    );
    pages.insert(
        String::from("Gamma Beam"),
        Some(page("Gamma Beam", "Principle of strain. Related to Delta Truss.")),
    );
    let result = engine.analyze_recursive(&request("bridge", 2, 5), &pages, 0);
    assert_eq!(count_term(&result.tree, "Delta Truss"), 2);
    let mut path = Vec::new();
    check_no_repeat_on_path(&result.tree, &mut path);
}

#[test]
fn mutual_references_do_not_recurse_forever() {
    let mut engine = new_engine();
    let mut pages = PageStore::new();
    pages.insert(
        String::from("Alpha"),
        Some(page("Alpha", "Principle of feedback. Related to Beta Loop.")),
    );
    pages.insert(
        String::from("Beta Loop"),
        Some(page("Beta Loop", "Principle of control. Related to Alpha.")),
    );
    let result = engine.analyze_recursive(&request("Alpha", 5, 5), &pages, 0);
    // The path guard stops the cycle: Alpha appears once on any path.
    let mut path = Vec::new();
    check_no_repeat_on_path(&result.tree, &mut path);
    assert_eq!(count_term(&result.tree, "Alpha"), 1);
    assert!(result.max_depth_reached <= 5);
}

#[test]
fn suggestions_are_scored_ranked_and_capped() {
    let engine = new_engine();
    let titles = vec![String::from("Poetry"), String::from("Bridge engineering")];
    let suggestions = engine.suggest_terms(titles, 10);
    assert_eq!(suggestions.len(), 2);
    assert_eq!(suggestions[0].term, "Bridge engineering");
    assert_eq!(suggestions[0].confidence_milli, 700);
    assert_eq!(suggestions[0].category, "Structural");
    assert_eq!(suggestions[1].term, "Poetry");
    assert_eq!(suggestions[1].confidence_milli, 0);
    assert_eq!(suggestions[1].category, "General");
    let capped = engine.suggest_terms(
        vec![String::from("a"), String::from("b"), String::from("c")],
        2,
    );
    assert_eq!(capped.len(), 2);
}

#[test]
fn batch_analysis_returns_one_result_per_term() {
    let mut engine = new_engine();
    let pages = PageStore::new();
    let terms = vec![String::from("alpha"), String::from("beta")];
    let results = engine.batch_analyze(&terms, 1, &pages, 0);
    assert_eq!(results.len(), 2);
    assert_eq!(results[0].root_term, "alpha");
    assert_eq!(results[1].root_term, "beta");
}

#[test]
fn page_resolution_is_cache_first() {
    let mut engine = new_engine();
    let mut pages = PageStore::new();
    pages.insert(String::from("bridge"), Some(page("bridge", "First extract.")));
    let first = engine.get_or_fetch_page("bridge", &pages, 0).unwrap();
    assert_eq!(first.extract, "First extract.");
    // A different snapshot does not override the live cached page.
    let mut other = PageStore::new();
    other.insert(String::from("bridge"), Some(page("bridge", "Second extract.")));
    let second = engine.get_or_fetch_page("bridge", &other, 10).unwrap();
    assert_eq!(second.extract, "First extract.");
}

#[test]
fn merged_principles_prefer_the_decomposer_and_are_memoized() {
    let mut engine = new_engine();
    let p = page(
        "uav",
        "Principle of lift follows thrust and force rules governed by motors.",
    );
    let first = engine.get_or_analyze_principles(&p, 0).unwrap();
    assert!(!first.is_empty());
    assert!(first.len() <= 8);
    for w in first.windows(2) {
        assert!(w[0].confidence_milli >= w[1].confidence_milli);
    }
    let again = engine.get_or_analyze_principles(&p, 10).unwrap();
    assert_eq!(first.len(), again.len());
    for (a, b) in first.iter().zip(again.iter()) {
        assert_eq!(a.title, b.title);
        assert_eq!(a.confidence_milli, b.confidence_milli);
    }
}
