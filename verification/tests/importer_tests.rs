use shellsense::importer::Importer;

#[test]
fn test_parse_extended_line() {
    let line = ": 1609459200:0;git status";
    let result = Importer::parse_extended_line(line);
    assert!(result.is_some());
    let (ts, cmd) = result.unwrap();
    assert_eq!(ts, 1609459200);
    assert_eq!(cmd, "git status");
}

#[test]
fn test_parse_extended_with_duration() {
    let line = ": 1609459200:5;make build";
    let result = Importer::parse_extended_line(line);
    assert!(result.is_some());
    let (ts, cmd) = result.unwrap();
    assert_eq!(ts, 1609459200);
    assert_eq!(cmd, "make build");
}

#[test]
fn test_parse_command_with_semicolons() {
    let line = ": 1609459200:0;echo 'hello'; echo 'world'";
    let result = Importer::parse_extended_line(line);
    assert!(result.is_some());
    let (ts, cmd) = result.unwrap();
    assert_eq!(ts, 1609459200);
    assert_eq!(cmd, "echo 'hello'; echo 'world'");
}

#[test]
fn test_parse_invalid_line() {
    assert!(Importer::parse_extended_line("not a valid line").is_none());
    assert!(Importer::parse_extended_line(": invalid:0;cmd").is_none());
}

#[test]
fn test_parse_history_mixed_format() {
    let history = "\
: 1609459200:0;git status
: 1609459201:0;git add .
ls -la
pwd";
    let commands = Importer::parse_history(history);
    assert_eq!(commands.len(), 4);
    assert_eq!(commands[0].0, "git status");
    assert_eq!(commands[0].1, 1609459200);
    assert_eq!(commands[1].0, "git add .");
    assert_eq!(commands[2].0, "ls -la");
    assert_eq!(commands[3].0, "pwd");
}

#[test]
fn test_parse_multiline_command() {
    let history = "\
: 1609459200:0;echo hello \\
world";
    let commands = Importer::parse_history(history);
    assert_eq!(commands.len(), 1);
    assert!(commands[0].0.contains("hello"));
    assert!(commands[0].0.contains("world"));
}

#[test]
fn test_parse_history_empty() {
    let commands = Importer::parse_history("");
    assert!(commands.is_empty());
}

#[test]
fn test_parse_history_whitespace_only() {
    let commands = Importer::parse_history("   \n  \n\n");
    assert!(commands.is_empty(), "whitespace-only history lines should be ignored");
}

#[test]
fn test_parse_history_single_command() {
    let commands = Importer::parse_history("ls");
    assert_eq!(commands.len(), 1);
    assert_eq!(commands[0].0, "ls");
}

#[test]
fn test_parse_history_unterminated_multiline() {
    let history = ": 1609459200:0;echo hello \\";
    let commands = Importer::parse_history(history);
    assert_eq!(commands.len(), 1, "unterminated multiline should flush as-is");
    assert!(commands[0].0.contains("hello"));
}

#[test]
fn parse_extended_line_signs_and_limits() {
    assert_eq!(Importer::parse_extended_line(": -5:0;ls"), Some((-5, "ls".to_string())));
    assert_eq!(Importer::parse_extended_line(": +7:0;ls"), Some((7, "ls".to_string())));
    assert_eq!(
        Importer::parse_extended_line(": -9223372036854775808:0;x"),
        Some((i64::MIN, "x".to_string()))
    );
    assert_eq!(Importer::parse_extended_line(": 9223372036854775808:0;x"), None);
    assert_eq!(Importer::parse_extended_line(": -:0;x"), None);
    assert_eq!(Importer::parse_extended_line(": :0;x"), None);
    assert_eq!(Importer::parse_extended_line(": 12:0 no semicolon"), None);
    assert_eq!(Importer::parse_extended_line(": 12"), None);
    assert_eq!(Importer::parse_extended_line(": 12:0;"), Some((12, String::new())));
}

#[test]
fn extended_line_reads_back_what_was_written() {
    for ts in [0i64, 42, -17, i64::MAX, i64::MIN] {
        let line = format!(": {}:3;echo a;b", ts);
        assert_eq!(
            Importer::parse_extended_line(&line),
            Some((ts, "echo a;b".to_string()))
        );
    }
}

#[test]
fn history_at_stamps_simple_lines_with_now() {
    let history = "ls\n: 5:0;pwd\r\n  \ncd /tmp \\\n  sub\\\\\nend\n";
    let commands = Importer::parse_history_at(history, 1000);
    assert_eq!(
        commands,
        vec![
            ("ls".to_string(), 1000),
            ("pwd".to_string(), 5),
            ("cd /tmp \n  sub\nend".to_string(), 1000),
        ]
    );
}

#[test]
fn history_skips_empty_extended_commands() {
    let commands = Importer::parse_history_at(": 5:0;\n: 6:0;x\n", 1);
    assert_eq!(commands, vec![("x".to_string(), 6)]);
}

#[test]
fn blank_history_records_nothing() {
    let commands = Importer::parse_history_at("\t\n \r\n\u{3000}\n", 9);
    assert!(commands.is_empty());
}

#[test]
fn zsh_lines_keep_carriage_returns() {
    let lines = vec!["ls\r".to_string(), "".to_string(), ": 3:0;pwd".to_string()];
    let commands = Importer::parse_zsh_lines(&lines, 100);
    assert_eq!(
        commands,
        vec![("ls\r".to_string(), 100), ("pwd".to_string(), 3)]
    );
}

#[test]
fn fish_history_entries() {
    let content = "- cmd: git status\n  when: 1700000000\n  paths:\n    - foo\n- cmd:    \n  when: 5\n- cmd: ls -la\n- cmd: echo hi\n  when:  42 \n";
    let commands = Importer::parse_fish_history(content, 7);
    assert_eq!(
        commands,
        vec![
            ("git status".to_string(), 1700000000),
            ("ls -la".to_string(), 7),
            ("echo hi".to_string(), 42),
        ]
    );
}

#[test]
fn fish_history_bad_when_keeps_default() {
    let commands = Importer::parse_fish_history("- cmd: ls\n  when: soon\n", 11);
    assert_eq!(commands, vec![("ls".to_string(), 11)]);
}

#[test]
fn bash_history_entries_are_spaced_one_second() {
    let lines = vec![
        "ls".to_string(),
        "#1700000000".to_string(),
        "   ".to_string(),
        "pwd".to_string(),
        "cd /tmp".to_string(),
    ];
    let commands = Importer::bash_history_entries(&lines, 1000);
    assert_eq!(
        commands,
        vec![
            ("ls".to_string(), 997),
            ("pwd".to_string(), 998),
            ("cd /tmp".to_string(), 999),
        ]
    );
}

#[test]
fn extended_only_history_keeps_its_own_timestamps() {
    let commands = Importer::parse_history(": 100:0;ls\n: 200:0;cd /tmp");
    assert_eq!(commands, vec![("ls".to_string(), 100), ("cd /tmp".to_string(), 200)]);
}
