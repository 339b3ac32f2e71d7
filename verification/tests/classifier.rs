use envscan::lines::{parse_env_lines, EnvLine};

fn rebuilt(lines: &[EnvLine]) -> String {
    let mut parts: Vec<String> = Vec::new();
    for l in lines {
        match l {
            EnvLine::Blank => parts.push(String::new()),
            EnvLine::Comment { raw } => parts.push(raw.clone()),
            EnvLine::Kv { raw, .. } => parts.push(raw.clone().unwrap()),
            EnvLine::Unknown { raw } => parts.push(raw.clone()),
        }
    }
    parts.join("\n")
}

#[test]
fn classifies_mixed_document() {
    let input = "# header\n\nAPI_KEY=abc123\nexport DEBUG=true\ngarbage line\n";
    let lines = parse_env_lines(input);
    assert_eq!(lines.len(), 6);
    assert!(matches!(&lines[0], EnvLine::Comment { raw } if raw == "# header"));
    assert!(matches!(&lines[1], EnvLine::Blank));
    match &lines[2] {
        EnvLine::Kv { key, value, has_export, raw } => {
            assert_eq!(key, "API_KEY");
            assert_eq!(value, "abc123");
            assert!(!has_export);
            assert_eq!(raw.as_deref(), Some("API_KEY=abc123"));
        }
        _ => panic!("expected a key-value line"),
    }
    match &lines[3] {
        EnvLine::Kv { key, value, has_export, .. } => {
            assert_eq!(key, "DEBUG");
            assert_eq!(value, "true");
            assert!(*has_export);
        }
        _ => panic!("expected an export key-value line"),
    }
    assert!(matches!(&lines[4], EnvLine::Unknown { raw } if raw == "garbage line"));
    assert!(matches!(&lines[5], EnvLine::Blank));
}

#[test]
fn semicolon_comment_and_spacing_kept() {
    let lines = parse_env_lines("  ; note  \n\tKEY = spaced value ");
    assert!(matches!(&lines[0], EnvLine::Comment { raw } if raw == "  ; note  "));
    match &lines[1] {
        EnvLine::Kv { key, value, has_export, raw } => {
            assert_eq!(key, "KEY");
            assert_eq!(value, "spaced value ");
            assert!(!has_export);
            assert_eq!(raw.as_deref(), Some("\tKEY = spaced value "));
        }
        _ => panic!("expected a key-value line"),
    }
}

#[test]
fn export_without_key_falls_back_to_export_as_key() {
    let lines = parse_env_lines("export = 5");
    match &lines[0] {
        EnvLine::Kv { key, value, has_export, .. } => {
            assert_eq!(key, "export");
            assert_eq!(value, "5");
            assert!(!has_export);
        }
        _ => panic!("expected a key-value line"),
    }
}

#[test]
fn crlf_lines_lose_their_carriage_return() {
    let lines = parse_env_lines("A=1\r\nB=2");
    match &lines[0] {
        EnvLine::Kv { key, value, raw, .. } => {
            assert_eq!(key, "A");
            assert_eq!(value, "1");
            assert_eq!(raw.as_deref(), Some("A=1"));
        }
        _ => panic!("expected a key-value line"),
    }
    assert!(matches!(&lines[1], EnvLine::Kv { key, .. } if key == "B"));
}

#[test]
fn pathological_lines_become_unknown_never_error() {
    let lines = parse_env_lines("=nokey\n1BAD=x\nA B=1\nno equals sign");
    for l in &lines {
        assert!(matches!(l, EnvLine::Unknown { .. }));
    }
}

#[test]
fn empty_value_and_underscore_keys() {
    let lines = parse_env_lines("_A=\nexport _B9=ok");
    assert!(matches!(&lines[0], EnvLine::Kv { key, value, .. } if key == "_A" && value.is_empty()));
    assert!(
        matches!(&lines[1], EnvLine::Kv { key, has_export, .. } if key == "_B9" && *has_export)
    );
}

#[test]
fn empty_text_is_one_blank_line() {
    let lines = parse_env_lines("");
    assert_eq!(lines.len(), 1);
    assert!(matches!(&lines[0], EnvLine::Blank));
}

#[test]
fn whitespace_only_line_is_blank_and_loses_its_spaces() {
    let lines = parse_env_lines("   ");
    assert_eq!(lines.len(), 1);
    assert!(matches!(&lines[0], EnvLine::Blank));
    assert_eq!(rebuilt(&lines), "");
}

#[test]
fn round_trip_reproduces_input_exactly() {
    let input = "# top\n\nexport A=1\nB = two \n; end\nodd ]line[\nC=\"quoted\"";
    let lines = parse_env_lines(input);
    assert_eq!(rebuilt(&lines), input);
}

#[test]
fn round_trip_with_trailing_newline() {
    let input = "A=1\n";
    let lines = parse_env_lines(input);
    assert_eq!(rebuilt(&lines), input);
}
