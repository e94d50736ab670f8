use shellsense::config::PrivacyConfig;
use shellsense::ranker::{
    correction_slot, env_boosts, is_fuzzy_candidate, keep_candidate, path_to_check,
    qwerty_adjacent, CorrectionSlot, EnvBoost,
};

#[test]
fn test_qwerty_adjacent_true() {
    assert!(qwerty_adjacent('q', 'w'));
    assert!(qwerty_adjacent('s', 'd'));
    assert!(qwerty_adjacent('f', 'g'));
}

#[test]
fn test_qwerty_adjacent_false() {
    assert!(!qwerty_adjacent('q', 'p'));
    assert!(!qwerty_adjacent('a', 'l'));
    assert!(!qwerty_adjacent('z', 'm'));
}

#[test]
fn test_qwerty_adjacent_case_insensitive() {
    assert!(qwerty_adjacent('Q', 'w'));
    assert!(qwerty_adjacent('s', 'D'));
}

#[test]
fn qwerty_adjacency_is_symmetric_and_irreflexive() {
    let keys = "qwertyuiopasdfghjklzxcvbnmQWERTYUIOPASDFGHJKLZXCVBNM1 ";
    for a in keys.chars() {
        assert!(!qwerty_adjacent(a, a));
        for b in keys.chars() {
            assert_eq!(qwerty_adjacent(a, b), qwerty_adjacent(b, a));
        }
    }
}

#[test]
fn env_boosts_follow_environments() {
    let venv = vec!["VIRTUAL_ENV".to_string()];
    assert_eq!(env_boosts("python -m pytest", &venv), vec![EnvBoost::Major]);
    assert_eq!(env_boosts("git status", &venv), vec![]);
    let kube = vec!["KUBECONFIG".to_string()];
    assert_eq!(env_boosts("kubectl get pods", &kube), vec![EnvBoost::Major]);
    let aws = vec!["AWS_PROFILE".to_string()];
    assert_eq!(env_boosts("aws s3 ls", &aws), vec![EnvBoost::Minor]);
    assert_eq!(env_boosts("ls -la", &aws), vec![]);
    assert_eq!(env_boosts("python test.py", &[]), vec![]);
    let both = vec![
        "AWS_PROFILE".to_string(),
        "VIRTUAL_ENV".to_string(),
        "VIRTUAL_ENV".to_string(),
    ];
    assert_eq!(env_boosts("pip install x", &both), vec![EnvBoost::Major, EnvBoost::Major]);
}

#[test]
fn path_targets() {
    assert_eq!(path_to_check("ls", None), None);
    assert_eq!(path_to_check("ls -la", None), None);
    assert_eq!(path_to_check("ls *.rs", None), None);
    assert_eq!(path_to_check("cat $HOME/x", None), None);
    assert_eq!(path_to_check("git status x", None), None);
    assert_eq!(
        path_to_check("cd /definitely/does/not/exist/xyz123", None),
        Some("/definitely/does/not/exist/xyz123".to_string())
    );
    assert_eq!(path_to_check("vim  a  notes.txt ", None), Some("notes.txt".to_string()));
    assert_eq!(
        path_to_check("cd ~/src", Some("/home/u")),
        Some("/home/u/src".to_string())
    );
    assert_eq!(path_to_check("cd ~/src", None), Some("~/src".to_string()));
    assert_eq!(path_to_check("cd ~src", Some("/home/u")), Some("~src".to_string()));
}

#[test]
fn fuzzy_candidates() {
    assert!(is_fuzzy_candidate("gti", "git"));
    assert!(is_fuzzy_candidate("fit", "git"));
    assert!(is_fuzzy_candidate("igt", "git"));
    assert!(!is_fuzzy_candidate("pit", "git"));
    assert!(is_fuzzy_candidate("", "git"));
    assert!(is_fuzzy_candidate("x", ""));
}

fn privacy(patterns: &[&str]) -> PrivacyConfig {
    PrivacyConfig { exclude_patterns: patterns.iter().map(|p| p.to_string()).collect() }
}

#[test]
fn keep_candidate_checks_prefix_and_privacy() {
    let none = privacy(&[]);
    assert!(keep_candidate("git status", None, &none));
    assert!(keep_candidate("git status", Some(""), &none));
    assert!(keep_candidate("git status", Some("git"), &none));
    assert!(!keep_candidate("git status", Some("cargo"), &none));
    assert!(!keep_candidate("gi", Some("git"), &none));
    let secret = privacy(&["*PASSWORD*"]);
    assert!(!keep_candidate("export password=1", Some("export"), &secret));
    assert!(keep_candidate("export PATH=/bin", Some("export"), &secret));
}

#[test]
fn correction_slot_appends_when_room() {
    let results = vec!["git status".to_string()];
    assert_eq!(correction_slot(&results, 5, "git", &privacy(&[])), CorrectionSlot::Append);
}

#[test]
fn correction_slot_replaces_last_when_full() {
    let results = vec!["ls".to_string(), "cd".to_string()];
    assert_eq!(correction_slot(&results, 2, "git", &privacy(&[])), CorrectionSlot::ReplaceLast);
}

#[test]
fn correction_slot_skips_duplicates_and_excluded() {
    let results = vec!["git".to_string()];
    assert_eq!(correction_slot(&results, 5, "git", &privacy(&[])), CorrectionSlot::Skip);
    assert_eq!(correction_slot(&[], 5, "git push", &privacy(&["push"])), CorrectionSlot::Skip);
}
