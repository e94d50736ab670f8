use shellsense::fuzzy::{check_transposition, corrected_command, qwerty_position};

fn known() -> Vec<String> {
    vec![
        "git".to_string(),
        "git status".to_string(),
        "git commit".to_string(),
        "docker".to_string(),
        "docker-compose".to_string(),
        "npm".to_string(),
        "npm install".to_string(),
        "cargo".to_string(),
        "cargo build".to_string(),
        "kubectl".to_string(),
        "ls".to_string(),
        "cd".to_string(),
        "cat".to_string(),
    ]
}

#[test]
fn test_transposition_gti() {
    let result = check_transposition("gti", &known());
    assert!(result.is_some());
    assert_eq!(result.unwrap(), "git");
}

#[test]
fn test_transposition_with_args() {
    let result = check_transposition("gti status", &known());
    assert!(result.is_some());
    assert_eq!(result.unwrap(), "git status");
}

#[test]
fn test_npm_typo() {
    let result = check_transposition("nmp install", &known());
    assert!(result.is_some());
    let c = result.unwrap();
    assert!(c.starts_with("npm"));
}

#[test]
fn transposition_needs_a_known_swap() {
    assert_eq!(check_transposition("dokcer", &known()), Some("docker".to_string()));
    assert_eq!(check_transposition("xyzabc", &known()), None);
    assert_eq!(check_transposition("g", &known()), None);
    assert_eq!(check_transposition("", &known()), None);
    assert_eq!(check_transposition("gti", &[]), None);
    assert_eq!(check_transposition("dc", &known()), Some("cd".to_string()));
    assert_eq!(check_transposition("tac file", &known()), None);
    assert_eq!(check_transposition("sl -la", &known()), Some("ls -la".to_string()));
}

#[test]
fn transposition_result_begins_with_a_known_swap() {
    let known = known();
    for input in ["gti", "gti push", "sl -la", "ogit"] {
        if let Some(c) = check_transposition(input, &known) {
            let base = c.split_whitespace().next().unwrap();
            assert!(known.iter().any(|k| k.split_whitespace().next().unwrap() == base));
        }
    }
}

#[test]
fn corrected_command_keeps_arguments() {
    assert_eq!(corrected_command("dokcer", "docker"), "docker");
    assert_eq!(corrected_command("dokcer ps -a", "docker"), "docker ps -a");
    assert_eq!(corrected_command("dokcer ps", "docker run"), "docker run");
    assert_eq!(corrected_command("dokcer", "docker run"), "docker");
    assert_eq!(corrected_command("goster log", "göster log"), "göster log");
}

#[test]
fn qwerty_positions() {
    assert_eq!(qwerty_position('q'), Some((0, 0)));
    assert_eq!(qwerty_position('p'), Some((0, 9)));
    assert_eq!(qwerty_position('l'), Some((1, 8)));
    assert_eq!(qwerty_position('m'), Some((2, 6)));
    assert_eq!(qwerty_position('Q'), None);
    assert_eq!(qwerty_position('1'), None);
}
