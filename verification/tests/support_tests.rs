use wiki_engine::api::ApiResponse;
use wiki_engine::monitor::PerformanceMonitor;
use wiki_engine::types::WikiEngineError;

#[test]
fn uptime_counts_from_the_start_reading() {
    let monitor = PerformanceMonitor::new(100);
    assert_eq!(monitor.uptime(250), 150);
    assert_eq!(monitor.uptime(100), 0);
    assert_eq!(monitor.uptime(50), 0);
}

#[test]
fn success_envelope_carries_the_payload() {
    let r = ApiResponse::success(41u32, String::from("2024-01-01T00:00:00Z"));
    assert!(r.success);
    assert_eq!(r.data, Some(41));
    assert!(r.error.is_none());
    assert_eq!(r.timestamp, "2024-01-01T00:00:00Z");
}

#[test]
fn error_envelope_carries_the_message() {
    let r: ApiResponse<u32> = ApiResponse::error(String::from("boom"), String::from("t"));
    assert!(!r.success);
    assert!(r.data.is_none());
    assert_eq!(r.error.as_deref(), Some("boom"));
}

#[test]
fn error_messages_name_their_kind() {
    assert_eq!(
        WikiEngineError::WikipediaApi(String::from("x")).message(),
        "Wikipedia API error: x"
    );
    assert_eq!(
        WikiEngineError::Analysis(String::from("y")).message(),
        "Analysis error: y"
    );
    assert_eq!(
        WikiEngineError::Network(String::from("z")).message(),
        "Network error: z"
    );
    assert_eq!(
        WikiEngineError::Serialization(String::from("w")).message(),
        "Serialization error: w"
    );
}
