use web2llm::cli::CliError;
use web2llm::error::Web2llmError;

#[test]
fn library_error_messages() {
    assert_eq!(Web2llmError::Http("timeout".to_string()).message(), "HTTP error: timeout");
    assert_eq!(Web2llmError::Markdown("bad".to_string()).message(), "Markdown error: bad");
    assert_eq!(Web2llmError::Io("denied".to_string()).message(), "IO error: denied");
    assert_eq!(Web2llmError::EmptyContent.message(), "No content found");
    assert_eq!(Web2llmError::InvalidUrl("x".to_string()).message(), "Invalid URL: x");
    assert_eq!(Web2llmError::Disallowed.message(), "Disallowed by robots.txt");
    assert_eq!(Web2llmError::Config("c".to_string()).message(), "Configuration error: c");
}

#[test]
fn command_error_messages() {
    assert_eq!(CliError::PartialFailure(3).message(), "3 URLs failed during execution");
    assert_eq!(CliError::PartialFailure(120).message(), "120 URLs failed during execution");
    assert_eq!(CliError::PartialFailure(0).message(), "0 URLs failed during execution");
    assert_eq!(CliError::Config("x".to_string()).message(), "Configuration error: x");
    assert_eq!(CliError::Io("e".to_string()).message(), "I/O error: e");
    assert_eq!(CliError::Toml("t".to_string()).message(), "TOML config error: t");
    assert_eq!(CliError::Json("j".to_string()).message(), "JSON error: j");
    assert_eq!(CliError::Web2llm(Web2llmError::EmptyContent).message(), "No content found");
}
