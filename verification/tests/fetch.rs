use web2llm::fetch::{first_fetch_step, is_spa, upgrade_to_dynamic, FetchMode, FetchStep};

#[test]
fn spa_markers_are_detected() {
    assert!(is_spa("<html><body><div id=\"root\"></div></body></html>"));
    assert!(is_spa("<HTML><NOSCRIPT>Please enable JavaScript</NOSCRIPT></HTML>"));
    assert!(is_spa("<app-root ng-version=\"17.0.0\"></app-root>"));
    assert!(is_spa("<script>window.__INITIAL_STATE__ = {}</script>"));
    assert!(is_spa("<script src=\"/static/js/main.chunk.js\"></script>"));
}

#[test]
fn ordinary_pages_are_not_spas() {
    assert!(!is_spa("<html><body><article>Plain article text.</article></body></html>"));
    assert!(!is_spa(""));
}

#[test]
fn size_thresholds_apply() {
    let padding = "x".repeat(11000);
    let big_root = format!("<div id=\"app\"></div>{}", padding);
    assert!(!is_spa(&big_root));
    let big_bundle = format!("<script src=\"bundle.js\"></script>{}", padding);
    assert!(is_spa(&big_bundle));
    let huge_bundle = format!("<script src=\"bundle.js\"></script>{}{}", padding, padding);
    assert!(!is_spa(&huge_bundle));
}

#[test]
fn fetch_steps_follow_the_mode() {
    assert_eq!(first_fetch_step(FetchMode::Static), FetchStep::Static);
    assert_eq!(first_fetch_step(FetchMode::Auto), FetchStep::Static);
    assert_eq!(first_fetch_step(FetchMode::Dynamic), FetchStep::Dynamic);
    let shell = "<div id=\"root\"></div>";
    assert!(upgrade_to_dynamic(FetchMode::Auto, shell));
    assert!(!upgrade_to_dynamic(FetchMode::Static, shell));
    assert!(!upgrade_to_dynamic(FetchMode::Auto, "<p>plain</p>"));
    assert_eq!(FetchMode::default(), FetchMode::Static);
}
