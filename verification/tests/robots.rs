use web2llm::error::Web2llmError;
use web2llm::preflight::validate;
use web2llm::robots::{check_single, robots_host_key, robots_txt_url, BatchPlan, RobotsRules};

const RULES: &str = "User-agent: *\nDisallow: /private\n";

#[test]
fn robots_addresses() {
    let u = validate("https://example.com:8080/a/b?c", true).unwrap();
    assert_eq!(robots_txt_url(&u), "https://example.com:8080/robots.txt");
    let u = validate("http://example.com/a", true).unwrap();
    assert_eq!(robots_txt_url(&u), "http://example.com/robots.txt");
    assert_eq!(robots_host_key(&u), "http://example.com");
    let u = validate("https://example.com:443/", true).unwrap();
    assert_eq!(robots_txt_url(&u), "https://example.com/robots.txt");
}

#[test]
fn single_checks_follow_the_rules() {
    let blocked = validate("https://example.com/private/page", true).unwrap();
    let open = validate("https://example.com/public", true).unwrap();
    assert!(matches!(check_single(&blocked, "web2llm/0.4.0", RULES), Err(Web2llmError::Disallowed)));
    assert!(check_single(&open, "web2llm/0.4.0", RULES).is_ok());
    assert!(check_single(&blocked, "web2llm/0.4.0", "").is_ok());
}

#[test]
fn parsed_rules_answer_per_url() {
    let rules = RobotsRules::parse("web2llm", RULES).ok().unwrap();
    assert!(!rules.allows("https://example.com/private"));
    assert!(rules.allows("https://example.com/"));
}

#[test]
fn batch_plan_checks_valid_urls_per_site() {
    let urls: Vec<String> = [
        "https://a.example/private",
        "not-a-url",
        "https://a.example/ok",
        "https://b.example/x",
        "https://a.example/private/again",
    ]
    .iter()
    .map(|s| s.to_string())
    .collect();
    let plan = BatchPlan::new(&urls, true, true);
    assert_eq!(
        plan.robots_urls(),
        vec!["https://a.example/robots.txt".to_string(), "https://b.example/robots.txt".to_string()]
    );
    let texts = vec![RULES.to_string(), String::new()];
    let out = plan.finish(&texts, "web2llm/0.4.0");
    assert_eq!(out.len(), 5);
    assert_eq!(out[0].0, "https://a.example/private");
    assert!(matches!(out[0].1, Err(Web2llmError::Disallowed)));
    assert_eq!(out[1].0, "not-a-url");
    assert!(matches!(&out[1].1, Err(Web2llmError::InvalidUrl(m)) if m == "not-a-url"));
    assert_eq!(out[2].0, "https://a.example/ok");
    assert_eq!(out[2].1.as_ref().ok().unwrap().href, "https://a.example/ok");
    assert_eq!(out[3].0, "https://b.example/x");
    assert!(out[3].1.is_ok());
    assert!(matches!(out[4].1, Err(Web2llmError::Disallowed)));
}

#[test]
fn batch_plan_without_robots_keeps_input_order() {
    let urls: Vec<String> = ["https://a.example/private", "ftp://x.example", "http://127.0.0.1/"]
        .iter()
        .map(|s| s.to_string())
        .collect();
    let plan = BatchPlan::new(&urls, true, false);
    assert!(plan.robots_urls().is_empty());
    let out = plan.finish(&vec![], "agent");
    assert_eq!(out.len(), 3);
    assert_eq!(out[0].0, "https://a.example/private");
    assert!(out[0].1.is_ok());
    assert_eq!(out[1].0, "ftp://x.example");
    assert!(matches!(&out[1].1, Err(Web2llmError::InvalidUrl(m)) if m == "scheme 'ftp' is not allowed"));
    assert_eq!(out[2].0, "http://127.0.0.1/");
    assert!(out[2].1.is_err());
}

#[test]
fn an_empty_batch_fetches_no_robots_file() {
    let plan = BatchPlan::new(&vec![], true, true);
    assert!(plan.robots_urls().is_empty());
    assert!(plan.finish(&vec![], "agent").is_empty());
}
