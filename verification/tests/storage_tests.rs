use shellsense::storage::{
    add_command_updates, bulk_add_updates, escape_like, like_prefix_pattern, prune_cutoff,
    recency_sql, TableUpdate, SCHEMA_VERSION,
};

#[test]
fn escape_like_escapes_wildcards() {
    assert_eq!(escape_like("test_"), "test\\_");
    assert_eq!(escape_like("50%\\"), "50\\%\\\\");
    assert_eq!(escape_like("plain"), "plain");
    assert_eq!(like_prefix_pattern("a_b"), "a\\_b%");
    assert_eq!(like_prefix_pattern(""), "%");
}

#[test]
fn escape_like_reads_back() {
    for s in ["a\\_%b", "", "%%", "\\\\"] {
        let e = escape_like(s);
        let mut out = String::new();
        let mut it = e.chars();
        while let Some(c) = it.next() {
            if c == '\\' {
                if let Some(n) = it.next() {
                    out.push(n);
                    continue;
                }
            }
            out.push(c);
        }
        assert_eq!(out, s);
    }
}

#[test]
fn recency_sql_has_numbered_placeholders() {
    assert_eq!(
        recency_sql(3),
        "SELECT command, last_used FROM command_freq WHERE command IN (?1,?2,?3)"
    );
    assert!(recency_sql(999).ends_with(",?998,?999)"));
    assert_eq!(SCHEMA_VERSION, 2);
}

#[test]
fn record_updates_follow_context() {
    let ups = add_command_updates("git add .", Some("/p"), 10, Some("git status"), Some("ls"));
    assert_eq!(ups.len(), 6);
    match &ups[4] {
        TableUpdate::BaseBigram { prev_base, next } => {
            assert_eq!(prev_base, "git");
            assert_eq!(next, "git add .");
        }
        other => panic!("unexpected {:?}", other),
    }
    let ups = add_command_updates("ls", None, 10, None, Some("pwd"));
    assert_eq!(ups.len(), 2);
}

#[test]
fn bulk_import_counts_bigrams() {
    let commands = vec![
        ("ls".to_string(), 900),
        ("cd /tmp".to_string(), 910),
        ("ls -la".to_string(), 920),
    ];
    let (ups, bigrams) = bulk_add_updates(&commands);
    assert_eq!(bigrams, 2);
    let counted = ups
        .iter()
        .filter(|u| matches!(u, TableUpdate::Bigram { .. }))
        .count();
    assert_eq!(counted, 2);
    assert_eq!(ups.iter().filter(|u| matches!(u, TableUpdate::Trigram { .. })).count(), 1);
    let (ups, bigrams) = bulk_add_updates(&Vec::new());
    assert!(ups.is_empty());
    assert_eq!(bigrams, 0);
}

#[test]
fn prune_cutoff_subtracts_days() {
    assert_eq!(prune_cutoff(1_000_000, 1), 1_000_000 - 86_400);
    assert_eq!(prune_cutoff(0, 180), -15_552_000);
}
