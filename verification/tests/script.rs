use reburn::cli::Cli;
use reburn::shebang::{get_reburn_name, interpreter_of_lines, shebang_of, ShebangLine};

#[test]
fn test_shebang_of() {
    assert_eq!(shebang_of("nothing", "reburn"), ShebangLine::NoShebang);
    assert_eq!(shebang_of("#!reburn", "reburn"), ShebangLine::ReburnShebang);
    assert_eq!(shebang_of("#!  reburn arg", "reburn"), ShebangLine::ReburnShebang);
    assert_eq!(
        shebang_of("#!smt", "reburn"),
        ShebangLine::Shebang("smt".to_string(), None)
    );
    assert_eq!(
        shebang_of("#!smt else", "reburn"),
        ShebangLine::Shebang("smt".to_string(), Some("else".to_string()))
    );
    assert_eq!(
        shebang_of("#!  smt  else  ", "reburn"),
        ShebangLine::Shebang("smt".to_string(), Some("else".to_string()))
    );
}

#[test]
fn reburn_name_is_fixed() {
    assert_eq!(get_reburn_name(), "reburn".to_string());
}

#[test]
fn interpreter_skips_own_shebang() {
    let lines = vec!["#!reburn".to_string(), "#!python arg".to_string()];
    assert_eq!(
        interpreter_of_lines(&lines, "reburn"),
        Ok(vec!["python".to_string(), "arg".to_string()])
    );
    let lines = vec!["#!sh".to_string()];
    assert_eq!(interpreter_of_lines(&lines, "reburn"), Ok(vec!["sh".to_string()]));
    let lines = vec!["plain text".to_string()];
    assert_eq!(interpreter_of_lines(&lines, "reburn"), Err("No shebang found"));
    let lines: Vec<String> = Vec::new();
    assert_eq!(interpreter_of_lines(&lines, "reburn"), Err("No shebang found"));
    let lines = vec!["#!reburn".to_string()];
    assert_eq!(interpreter_of_lines(&lines, "reburn"), Err("No shebang found"));
}

#[test]
fn command_picks_source() {
    let explicit = Cli::new(
        "*.rs".to_string(),
        None,
        Some(vec!["echo".to_string(), "hi".to_string()]),
    );
    assert_eq!(
        explicit.command(Err("unused".to_string())),
        Ok(vec!["echo".to_string(), "hi".to_string()])
    );

    let scripted = Cli::new("*.rs".to_string(), Some("build.sh".to_string()), None);
    assert_eq!(
        scripted.command(Ok(vec!["sh".to_string()])),
        Ok(vec!["sh".to_string(), "build.sh".to_string()])
    );
    assert_eq!(
        scripted.command(Err("No shebang found".to_string())),
        Err("No shebang found".to_string())
    );

    let both = Cli::new(
        "*.rs".to_string(),
        Some("build.sh".to_string()),
        Some(vec!["echo".to_string()]),
    );
    assert_eq!(
        both.command(Ok(vec!["sh".to_string()])),
        Err("Expected either a script or a command".to_string())
    );

    let neither = Cli::new("*.rs".to_string(), None, None);
    assert_eq!(
        neither.command(Ok(vec!["sh".to_string()])),
        Err("Expected either a script or a command".to_string())
    );
}
