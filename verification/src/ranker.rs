use vstd::prelude::*;

use crate::base_command;
use crate::config::{excluded_by, PrivacyConfig};
use crate::text::{
    append_range, ascii_lower, chars_of, eq_lit, first_token, has_prefix, range_eq, split_tokens, starts_with,
    string_from, string_views, tokens, views,
};

verus! {

/// `char::to_ascii_lowercase`.
pub fn to_ascii_lower(c: char) -> (r: char)
    ensures
        r == ascii_lower(c),
{
    if 'A' <= c && c <= 'Z' {
        let u = (c as u32 - 'A' as u32) as u8 + 97u8;
        u as char
    } else {
        c
    }
}

/// The keys next to a small letter on a QWERTY keyboard.
pub open spec fn adjacent_keys(a: char, b: char) -> bool {
    match a {
        'q' => b == 'w' || b == 'a',
        'w' => b == 'q' || b == 'e' || b == 'a' || b == 's',
        'e' => b == 'w' || b == 'r' || b == 's' || b == 'd',
        'r' => b == 'e' || b == 't' || b == 'd' || b == 'f',
        't' => b == 'r' || b == 'y' || b == 'f' || b == 'g',
        'y' => b == 't' || b == 'u' || b == 'g' || b == 'h',
        'u' => b == 'y' || b == 'i' || b == 'h' || b == 'j',
        'i' => b == 'u' || b == 'o' || b == 'j' || b == 'k',
        'o' => b == 'i' || b == 'p' || b == 'k' || b == 'l',
        'p' => b == 'o' || b == 'l',
        'a' => b == 'q' || b == 'w' || b == 's' || b == 'z',
        's' => b == 'w' || b == 'e' || b == 'a' || b == 'd' || b == 'z' || b == 'x',
        'd' => b == 'e' || b == 'r' || b == 's' || b == 'f' || b == 'x' || b == 'c',
        'f' => b == 'r' || b == 't' || b == 'd' || b == 'g' || b == 'c' || b == 'v',
        'g' => b == 't' || b == 'y' || b == 'f' || b == 'h' || b == 'v' || b == 'b',
        'h' => b == 'y' || b == 'u' || b == 'g' || b == 'j' || b == 'b' || b == 'n',
        'j' => b == 'u' || b == 'i' || b == 'h' || b == 'k' || b == 'n' || b == 'm',
        'k' => b == 'i' || b == 'o' || b == 'j' || b == 'l' || b == 'm',
        'l' => b == 'o' || b == 'p' || b == 'k',
        'z' => b == 'a' || b == 's' || b == 'x',
        'x' => b == 's' || b == 'd' || b == 'z' || b == 'c',
        'c' => b == 'd' || b == 'f' || b == 'x' || b == 'v',
        'v' => b == 'f' || b == 'g' || b == 'c' || b == 'b',
        'b' => b == 'g' || b == 'h' || b == 'v' || b == 'n',
        'n' => b == 'h' || b == 'j' || b == 'b' || b == 'm',
        'm' => b == 'j' || b == 'k' || b == 'n',
        _ => false,
    }
}

/// Whether two characters sit on adjacent QWERTY keys, ignoring ASCII case.
pub open spec fn qwerty_adj(a: char, b: char) -> bool {
    adjacent_keys(ascii_lower(a), ascii_lower(b))
}

/// Check if two chars are adjacent on a QWERTY keyboard (case-insensitive).
pub fn qwerty_adjacent(a: char, b: char) -> (r: bool)
    ensures
        r == qwerty_adj(a, b),
{
    let a = to_ascii_lower(a);
    let b = to_ascii_lower(b);
    match a {
        'q' => b == 'w' || b == 'a',
        'w' => b == 'q' || b == 'e' || b == 'a' || b == 's',
        'e' => b == 'w' || b == 'r' || b == 's' || b == 'd',
        'r' => b == 'e' || b == 't' || b == 'd' || b == 'f',
        't' => b == 'r' || b == 'y' || b == 'f' || b == 'g',
        'y' => b == 't' || b == 'u' || b == 'g' || b == 'h',
        'u' => b == 'y' || b == 'i' || b == 'h' || b == 'j',
        'i' => b == 'u' || b == 'o' || b == 'j' || b == 'k',
        'o' => b == 'i' || b == 'p' || b == 'k' || b == 'l',
        'p' => b == 'o' || b == 'l',
        'a' => b == 'q' || b == 'w' || b == 's' || b == 'z',
        's' => b == 'w' || b == 'e' || b == 'a' || b == 'd' || b == 'z' || b == 'x',
        'd' => b == 'e' || b == 'r' || b == 's' || b == 'f' || b == 'x' || b == 'c',
        'f' => b == 'r' || b == 't' || b == 'd' || b == 'g' || b == 'c' || b == 'v',
        'g' => b == 't' || b == 'y' || b == 'f' || b == 'h' || b == 'v' || b == 'b',
        'h' => b == 'y' || b == 'u' || b == 'g' || b == 'j' || b == 'b' || b == 'n',
        'j' => b == 'u' || b == 'i' || b == 'h' || b == 'k' || b == 'n' || b == 'm',
        'k' => b == 'i' || b == 'o' || b == 'j' || b == 'l' || b == 'm',
        'l' => b == 'o' || b == 'p' || b == 'k',
        'z' => b == 'a' || b == 's' || b == 'x',
        'x' => b == 's' || b == 'd' || b == 'z' || b == 'c',
        'c' => b == 'd' || b == 'f' || b == 'x' || b == 'v',
        'v' => b == 'f' || b == 'g' || b == 'c' || b == 'b',
        'b' => b == 'g' || b == 'h' || b == 'v' || b == 'n',
        'n' => b == 'h' || b == 'j' || b == 'b' || b == 'm',
        'm' => b == 'j' || b == 'k' || b == 'n',
        _ => false,
    }
}

/// QWERTY adjacency is symmetric and irreflexive, and ignores ASCII case.
pub proof fn lemma_qwerty_adjacency_symmetric(a: char, b: char)
    ensures
        qwerty_adj(a, b) == qwerty_adj(b, a),
        !qwerty_adj(a, a),
        qwerty_adj(a, b) == qwerty_adj(ascii_lower(a), ascii_lower(b)),
{
}


/// How much an active environment raises a command's score.
#[derive(Debug, Clone, Copy, PartialEq, Eq, Structural)]
pub enum EnvBoost {
    /// A tool of the active environment (Python with `VIRTUAL_ENV`,
    /// Kubernetes with `KUBECONFIG`): the score is multiplied by 1.5.
    Major,
    /// AWS with `AWS_PROFILE`: the score is multiplied by 1.3.
    Minor,
}

/// The boost that the active environment variable `env` gives a command
/// whose base is `base`.
pub open spec fn env_boost(env: Seq<char>, base: Seq<char>) -> Option<EnvBoost> {
    let python = env == "VIRTUAL_ENV"@ && (base == "python"@ || base == "pip"@ || base
        == "pytest"@ || base == "flask"@ || base == "django-admin"@);
    let k8s = env == "KUBECONFIG"@ && (base == "kubectl"@ || base == "helm"@ || base == "k9s"@);
    if python || k8s {
        Some(EnvBoost::Major)
    } else if env == "AWS_PROFILE"@ && base == "aws"@ {
        Some(EnvBoost::Minor)
    } else {
        None
    }
}

/// The boosts that the environments `envs` give, in their order.
pub open spec fn env_boosts_of(envs: Seq<Seq<char>>, base: Seq<char>) -> Seq<EnvBoost>
    decreases envs.len(),
{
    if envs.len() == 0 {
        Seq::empty()
    } else {
        let rest = env_boosts_of(envs.drop_last(), base);
        match env_boost(envs.last(), base) {
            Some(k) => rest.push(k),
            None => rest,
        }
    }
}

fn env_boost_exec(env: &Vec<char>, base: &Vec<char>) -> (r: Option<EnvBoost>)
    ensures
        r == env_boost(env@, base@),
{
    let python = eq_lit(env, "VIRTUAL_ENV") && (eq_lit(base, "python") || eq_lit(base, "pip")
        || eq_lit(base, "pytest") || eq_lit(base, "flask") || eq_lit(base, "django-admin"));
    let k8s = eq_lit(env, "KUBECONFIG") && (eq_lit(base, "kubectl") || eq_lit(base, "helm")
        || eq_lit(base, "k9s"));
    if python || k8s {
        Some(EnvBoost::Major)
    } else if eq_lit(env, "AWS_PROFILE") && eq_lit(base, "aws") {
        Some(EnvBoost::Minor)
    } else {
        None
    }
}

/// The boosts that the active environments `envs` give `cmd`, in the order
/// of `envs`; the score is multiplied by each of them in turn.
pub fn env_boosts(cmd: &str, envs: &[String]) -> (r: Vec<EnvBoost>)
    ensures
        r@ == env_boosts_of(string_views(envs@), first_token(cmd@)),
{
    let base = chars_of(base_command(cmd));
    let ghost es = string_views(envs@);
    let mut out: Vec<EnvBoost> = Vec::new();
    let mut i: usize = 0;
    while i < envs.len()
        invariant
            i <= envs.len(),
            es == string_views(envs@),
            base@ == first_token(cmd@),
            out@ == env_boosts_of(es.take(i as int), base@),
        decreases envs.len() - i,
    {
        let e = chars_of(envs[i].as_str());
        assert(es.take(i + 1).drop_last() =~= es.take(i as int));
        assert(es.take(i + 1).last() == e@);
        match env_boost_exec(&e, &base) {
            Some(k) => out.push(k),
            None => {},
        }
        i += 1;
    }
    assert(es.take(envs.len() as int) =~= es);
    out
}

/// Commands whose last argument usually names a local path.
pub open spec fn is_path_command(base: Seq<char>) -> bool {
    base == "cd"@ || base == "cat"@ || base == "vim"@ || base == "nano"@ || base == "tail"@ || base
        == "less"@ || base == "code"@ || base == "rm"@ || base == "ls"@
}

/// The local path that `cmd` refers to, when it should be checked for
/// existence: a path command with at least one argument, whose last
/// argument is no flag, variable or glob; a leading `~/` is expanded with
/// `home` where it is known.
pub open spec fn path_target(cmd: Seq<char>, home: Option<Seq<char>>) -> Option<Seq<char>> {
    let ts = tokens(cmd);
    if ts.len() < 2 {
        None
    } else {
        let target = ts.last();
        if !is_path_command(ts[0]) {
            None
        } else if (target.len() > 0 && target[0] == '-') || target.contains('$') || target.contains(
            '*',
        ) {
            None
        } else if target.len() >= 2 && target[0] == '~' && target[1] == '/' && home is Some {
            Some(home->0 + seq!['/'] + target.skip(2))
        } else {
            Some(target)
        }
    }
}

fn has_char(v: &Vec<char>, c: char) -> (b: bool)
    ensures
        b == v@.contains(c),
{
    let mut i: usize = 0;
    while i < v.len()
        invariant
            i <= v.len(),
            forall|j: int| 0 <= j < i ==> v@[j] != c,
        decreases v.len() - i,
    {
        if v[i] == c {
            return true;
        }
        i += 1;
    }
    false
}

/// The characters of an optional home directory.
pub open spec fn home_view(home: Option<&str>) -> Option<Seq<char>> {
    match home {
        Some(h) => Some(h@),
        None => None,
    }
}

/// The path that `cmd` refers to and that should exist for the command to
/// make sense in its directory, or `None` where there is nothing to check.
pub fn path_to_check(cmd: &str, home: Option<&str>) -> (r: Option<String>)
    ensures
        match r {
            None => path_target(cmd@, home_view(home)) is None,
            Some(p) => path_target(cmd@, home_view(home)) == Some(p@),
        },
{
    let v = chars_of(cmd);
    let ts = split_tokens(&v);
    if ts.len() < 2 {
        return None;
    }
    let base = &ts[0];
    let target = &ts[ts.len() - 1];
    assert(views(ts@).last() == target@);
    let is_path = eq_lit(base, "cd") || eq_lit(base, "cat") || eq_lit(base, "vim") || eq_lit(
        base,
        "nano",
    ) || eq_lit(base, "tail") || eq_lit(base, "less") || eq_lit(base, "code") || eq_lit(base, "rm")
        || eq_lit(base, "ls");
    if !is_path {
        return None;
    }
    if (target.len() > 0 && target[0] == '-') || has_char(target, '$') || has_char(target, '*') {
        return None;
    }
    if target.len() >= 2 && target[0] == '~' && target[1] == '/' {
        match home {
            Some(h) => {
                let mut out = chars_of(h);
                out.push('/');
                append_range(&mut out, target, 2, target.len());
                assert(out@ =~= h@ + seq!['/'] + target@.skip(2));
                return Some(string_from(&out));
            },
            None => {},
        }
    }
    Some(string_from(target))
}

/// Whether a known command stays a candidate for typo correction of
/// `prefix`: its first character equals the prefix's first, sits next to
/// it on the keyboard, or equals the prefix's second (a transposition);
/// when either is empty it stays.
pub open spec fn fuzzy_candidate(prefix: Seq<char>, known: Seq<char>) -> bool {
    if prefix.len() > 0 && known.len() > 0 {
        prefix[0] == known[0] || qwerty_adj(prefix[0], known[0]) || (prefix.len() > 1 && prefix[1]
            == known[0])
    } else {
        true
    }
}

/// Whether `known` is kept as a candidate for correcting `prefix`.
pub fn is_fuzzy_candidate(prefix: &str, known: &str) -> (b: bool)
    ensures
        b == fuzzy_candidate(prefix@, known@),
{
    let p = chars_of(prefix);
    let k = chars_of(known);
    if p.len() > 0 && k.len() > 0 {
        p[0] == k[0] || qwerty_adjacent(p[0], k[0]) || (p.len() > 1 && p[1] == k[0])
    } else {
        true
    }
}


/// Whether a scored command passes the ranking's final filter, its score
/// aside: a non-empty prefix must begin it, and the privacy settings must
/// not exclude it.
pub open spec fn keeps_candidate(
    cmd: Seq<char>,
    prefix: Option<Seq<char>>,
    patterns: Seq<Seq<char>>,
) -> bool {
    &&& match prefix {
        None => true,
        Some(p) => p.len() == 0 || starts_with(cmd, p),
    }
    &&& !excluded_by(patterns, cmd)
}

/// The prefix of a request, by its view.
pub open spec fn prefix_view(prefix: Option<&str>) -> Option<Seq<char>> {
    match prefix {
        None => None,
        Some(p) => Some(p@),
    }
}

/// Whether `cmd` is kept among the ranked suggestions (its score aside).
pub fn keep_candidate(cmd: &str, prefix: Option<&str>, privacy: &PrivacyConfig) -> (b: bool)
    ensures
        b == keeps_candidate(cmd@, prefix_view(prefix), string_views(privacy.exclude_patterns@)),
{
    let prefix_ok = match prefix {
        None => true,
        Some(p) => {
            let pc = chars_of(p);
            let cc = chars_of(cmd);
            pc.len() == 0 || has_prefix(&cc, &pc)
        },
    };
    prefix_ok && !privacy.should_exclude(cmd)
}

/// Where a typo correction goes among the ranked suggestions.
#[derive(Debug, Clone, Copy, PartialEq, Eq, Structural)]
pub enum CorrectionSlot {
    /// It is left out: excluded, or already suggested.
    Skip,
    /// It is added at the end.
    Append,
    /// The list is full: its last (weakest) entry is dropped, then the
    /// correction is added at the end.
    ReplaceLast,
}

/// Where `corrected` goes among the suggestions `results`, of which at most
/// `limit` are shown.
pub open spec fn correction_slot_of(
    results: Seq<Seq<char>>,
    limit: nat,
    corrected: Seq<char>,
    patterns: Seq<Seq<char>>,
) -> CorrectionSlot {
    if excluded_by(patterns, corrected) || results.contains(corrected) {
        CorrectionSlot::Skip
    } else if results.len() >= limit {
        CorrectionSlot::ReplaceLast
    } else {
        CorrectionSlot::Append
    }
}

/// Whether `s` equals `t`, character by character.
fn same_chars(s: &str, t: &Vec<char>) -> (b: bool)
    ensures
        b == (s@ == t@),
{
    let sc = chars_of(s);
    assert(sc@.subrange(0, sc@.len() as int) =~= sc@);
    range_eq(&sc, 0, sc.len(), t)
}

/// Decides where a typo correction goes among the ranked suggestions.
pub fn correction_slot(
    results: &[String],
    limit: usize,
    corrected: &str,
    privacy: &PrivacyConfig,
) -> (r: CorrectionSlot)
    ensures
        r == correction_slot_of(
            string_views(results@),
            limit as nat,
            corrected@,
            string_views(privacy.exclude_patterns@),
        ),
{
    if privacy.should_exclude(corrected) {
        return CorrectionSlot::Skip;
    }
    let target = chars_of(corrected);
    let ghost rs = string_views(results@);
    let mut i: usize = 0;
    while i < results.len()
        invariant
            i <= results.len(),
            rs == string_views(results@),
            target@ == corrected@,
            forall|j: int| 0 <= j < i ==> rs[j] != corrected@,
        decreases results.len() - i,
    {
        if same_chars(results[i].as_str(), &target) {
            assert(rs[i as int] == corrected@);
            return CorrectionSlot::Skip;
        }
        i += 1;
    }
    assert(!rs.contains(corrected@));
    if results.len() >= limit {
        CorrectionSlot::ReplaceLast
    } else {
        CorrectionSlot::Append
    }
}

} // verus!
