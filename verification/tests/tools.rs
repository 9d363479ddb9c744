use moviola::env::{optional_path, required_path, required_string};
use moviola::tools::Tool;
use moviola::Error;

#[test]
fn known_tool_names() {
    assert_eq!(Tool::from_name("trim-silence"), Ok(Tool::TrimSilence));
    for name in Tool::available_tools() {
        assert!(Tool::from_name(name).is_ok());
    }
    assert_eq!(Tool::available_tools(), &["trim-silence"]);
}

#[test]
fn unknown_tool_names() {
    let error = Tool::from_name("Trim-Silence").unwrap_err();
    assert_eq!(error, Error::UnknownTool { name: "Trim-Silence".to_string() });
    assert_eq!(error.message(), "Unknown tool 'Trim-Silence'. Available tools: trim-silence");
}

#[test]
fn tool_from_the_environment() {
    assert_eq!(Tool::ENV_KEY, "MOVIOLA_TOOL");
    assert_eq!(Tool::from_env(Some("trim-silence".to_string())), Ok(Tool::TrimSilence));
    let missing = Tool::from_env(None).unwrap_err();
    assert_eq!(missing, Error::MissingVariable { name: "MOVIOLA_TOOL".to_string() });
    assert_eq!(missing.message(), "Missing required environment variable MOVIOLA_TOOL");
    let empty = Tool::from_env(Some(" \t".to_string())).unwrap_err();
    assert_eq!(empty.message(), "MOVIOLA_TOOL cannot be empty");
    assert_eq!(
        Tool::from_env(Some(" trim-silence".to_string())).unwrap_err(),
        Error::UnknownTool { name: " trim-silence".to_string() }
    );
}

#[test]
fn required_values() {
    assert_eq!(required_string("INPUT", Some(" a ".to_string())), Ok(" a ".to_string()));
    assert_eq!(required_string("INPUT", Some("\u{3000}\n".to_string())), Err(Error::EmptyVariable { name: "INPUT".to_string() }));
    assert_eq!(required_string("INPUT", Some(String::new())), Err(Error::EmptyVariable { name: "INPUT".to_string() }));
    assert_eq!(required_path("INPUT", None), Err(Error::MissingVariable { name: "INPUT".to_string() }));
    assert_eq!(required_path("INPUT", Some("/v/a.mp4".to_string())), Ok("/v/a.mp4".to_string()));
}

#[test]
fn optional_values() {
    assert_eq!(optional_path(None), None);
    assert_eq!(optional_path(Some("  ".to_string())), None);
    assert_eq!(optional_path(Some("/o.mp4".to_string())), Some("/o.mp4".to_string()));
}
