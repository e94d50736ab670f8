use shellsense::base_command;
use shellsense::shell::remove_init_loader_lines;
use shellsense::SuggestionSource;

#[test]
fn test_base_command() {
    assert_eq!(base_command("git commit -m 'test'"), "git");
    assert_eq!(base_command("ls"), "ls");
    assert_eq!(base_command(""), "");
}

#[test]
fn base_command_skips_unicode_whitespace() {
    assert_eq!(base_command("  \u{3000}docker\u{a0}run"), "docker");
    assert_eq!(base_command(" \t "), " \t ");
    assert_eq!(base_command("\ngit\tpush"), "git");
}

#[test]
fn base_command_is_idempotent() {
    for cmd in ["git commit -m x", "  ls -la", "   ", "", "göster log"] {
        let b = base_command(cmd);
        assert_eq!(base_command(b), b);
    }
}

#[test]
fn removes_exact_loader_lines_only() {
    let original = "\
eval \"$(shellsense init zsh)\"
# ShellSense note
echo shellsense init zsh
shellsense init fish | source
";
    let filtered = remove_init_loader_lines(original);

    assert!(!filtered.contains("eval \"$(shellsense init zsh)\""));
    assert!(!filtered.contains("shellsense init fish | source"));
    assert!(filtered.contains("# ShellSense note"));
    assert!(filtered.contains("echo shellsense init zsh"));
}

#[test]
fn loader_lines_are_matched_after_trimming() {
    let original = "  eval \"$(shellsense init bash)\"  \r\nalias ll='ls -l'\r\nlast";
    assert_eq!(remove_init_loader_lines(original), "alias ll='ls -l'\nlast\n");
}

#[test]
fn removing_loader_lines_twice_changes_nothing_more() {
    let original = "a\neval \"$(shellsense init zsh)\"\n\nb\r\nshellsense init fish | source";
    let once = remove_init_loader_lines(original);
    assert_eq!(once, "a\n\nb\n");
    assert_eq!(remove_init_loader_lines(&once), once);
}

#[test]
fn suggestion_source_labels() {
    assert_eq!(SuggestionSource::Sequence.label(), "Sequence");
    assert_eq!(SuggestionSource::Prefix.label(), "Prefix");
    assert_eq!(SuggestionSource::Frequency.label(), "Frequency");
    assert_eq!(SuggestionSource::Directory.label(), "Directory");
    assert_eq!(SuggestionSource::Correction.label(), "Correction");
}
