use vstd::prelude::*;

use crate::text::{
    all_ascii, ascii_lower, ascii_lower_seq, chars_of, contains_chars, contains_seq, leading_end,
    lowercase, string_of, string_views, strip_leading, strip_trailing, to_lowercase,
    trailing_start,
};

verus! {

/// How many suggestions to return when the configuration does not say.
pub fn default_max_suggestions() -> (r: usize)
    ensures
        r == 5,
{
    5
}

/// Privacy settings: commands matching these patterns are not recorded
/// nor suggested.
#[derive(Debug, Clone)]
pub struct PrivacyConfig {
    pub exclude_patterns: Vec<String>,
}

impl Default for PrivacyConfig {
    fn default() -> (r: Self)
        ensures
            r.exclude_patterns@.len() == 0,
    {
        PrivacyConfig { exclude_patterns: Vec::new() }
    }
}

/// A pattern with the `*` at both of its ends stripped (`trim_matches('*')`).
pub open spec fn strip_stars(p: Seq<char>) -> Seq<char> {
    strip_trailing(strip_leading(p, '*'), '*')
}

/// Whether a pattern excludes a command, given the lowercased command: the
/// pattern, stripped of its edge `*` and lowercased, is a non-empty
/// substring of it.
pub open spec fn pattern_excludes(pattern: Seq<char>, cmd_lower: Seq<char>) -> bool {
    strip_stars(pattern).len() > 0 && contains_seq(cmd_lower, lowercase(strip_stars(pattern)))
}

/// Whether some pattern of `patterns` excludes a command whose lowercase
/// form is `cmd_lower`.
pub open spec fn excluded_by_lowered(patterns: Seq<Seq<char>>, cmd_lower: Seq<char>) -> bool {
    exists|i: int| 0 <= i < patterns.len() && pattern_excludes(#[trigger] patterns[i], cmd_lower)
}

/// Whether some pattern of `patterns` excludes `command`.
pub open spec fn excluded_by(patterns: Seq<Seq<char>>, command: Seq<char>) -> bool {
    excluded_by_lowered(patterns, lowercase(command))
}

/// Whether a lowercased pattern, its edge `*` stripped, matches a
/// lowercased command: it is non-empty and occurs in it.
pub fn pattern_matches_lowered(cmd_lower: &str, pattern_lower: &str) -> (b: bool)
    ensures
        b == (pattern_lower@.len() > 0 && contains_seq(cmd_lower@, pattern_lower@)),
{
    let c = chars_of(cmd_lower);
    let p = chars_of(pattern_lower);
    p.len() > 0 && contains_chars(&c, &p)
}

impl PrivacyConfig {
    /// Check if a command should be excluded: patterns are substring
    /// matches, case-insensitive, with the `*` at their edges stripped; a
    /// pattern that is empty once stripped matches nothing. For an ASCII
    /// command the answer depends only on its ASCII-lowercased form.
    pub fn should_exclude(&self, command: &str) -> (b: bool)
        ensures
            b == excluded_by(string_views(self.exclude_patterns@), command@),
            all_ascii(command@) ==> b == excluded_by_lowered(
                string_views(self.exclude_patterns@),
                ascii_lower_seq(command@),
            ),
    {
        let cmd_lower = to_lowercase(command);
        let ghost ps = string_views(self.exclude_patterns@);
        let mut i: usize = 0;
        while i < self.exclude_patterns.len()
            invariant
                i <= self.exclude_patterns.len(),
                ps == string_views(self.exclude_patterns@),
                cmd_lower@ == lowercase(command@),
                all_ascii(command@) ==> cmd_lower@ == ascii_lower_seq(command@),
                forall|j: int| 0 <= j < i ==> !pattern_excludes(#[trigger] ps[j], lowercase(command@)),
            decreases self.exclude_patterns.len() - i,
        {
            let p = chars_of(self.exclude_patterns[i].as_str());
            assert(p@ == ps[i as int]);
            let a = leading_end(&p, 0, p.len(), '*');
            let b = trailing_start(&p, a, p.len(), '*');
            assert(p@.subrange(0, p@.len() as int) =~= p@);
            let stripped = string_of(&p, a, b);
            assert(stripped@ == strip_stars(ps[i as int]));
            let pat = to_lowercase(stripped.as_str());
            if pattern_matches_lowered(cmd_lower.as_str(), pat.as_str()) {
                return true;
            }
            i += 1;
        }
        false
    }
}

/// A pattern made of `*` alone (or empty) excludes no command.
pub proof fn lemma_star_patterns_exclude_nothing(patterns: Seq<Seq<char>>, command: Seq<char>)
    requires
        forall|i: int, k: int|
            0 <= i < patterns.len() && 0 <= k < patterns[i].len() ==> #[trigger] patterns[i][k]
                == '*',
    ensures
        !excluded_by(patterns, command),
{
    assert forall|i: int| 0 <= i < patterns.len() implies !pattern_excludes(
        #[trigger] patterns[i],
        lowercase(command),
    ) by {
        lemma_strip_leading_stars(patterns[i]);
    }
}

proof fn lemma_strip_leading_stars(p: Seq<char>)
    requires
        forall|k: int| 0 <= k < p.len() ==> #[trigger] p[k] == '*',
    ensures
        strip_leading(p, '*').len() == 0,
        strip_stars(p).len() == 0,
    decreases p.len(),
{
    if p.len() > 0 {
        assert forall|k: int| 0 <= k < p.drop_first().len() implies #[trigger] p.drop_first()[k]
            == '*' by {
            assert(p.drop_first()[k] == p[k + 1]);
        }
        lemma_strip_leading_stars(p.drop_first());
    }
}

/// Whether two characters are the same letter up to ASCII case, or equal.
pub open spec fn case_variant(a: char, b: char) -> bool {
    ||| a == b
    ||| 'a' <= a <= 'z' && (b as u32) + 32 == (a as u32)
    ||| 'a' <= b <= 'z' && (a as u32) + 32 == (b as u32)
}

/// Whether two commands differ at most in the case of ASCII letters.
pub open spec fn differ_only_in_case(c1: Seq<char>, c2: Seq<char>) -> bool {
    &&& c1.len() == c2.len()
    &&& forall|i: int| 0 <= i < c1.len() ==> case_variant(#[trigger] c1[i], c2[i])
}

/// Exclusion ignores ASCII case: two commands that differ only in the case
/// of their letters have the same ASCII-lowercased form, so the privacy
/// filter (which, for ASCII commands, answers by that form) excludes both
/// or neither.
pub proof fn lemma_exclusion_ignores_case(patterns: Seq<Seq<char>>, c1: Seq<char>, c2: Seq<char>)
    requires
        differ_only_in_case(c1, c2),
    ensures
        ascii_lower_seq(c1) == ascii_lower_seq(c2),
        excluded_by_lowered(patterns, ascii_lower_seq(c1)) == excluded_by_lowered(
            patterns,
            ascii_lower_seq(c2),
        ),
{
    assert forall|i: int| 0 <= i < c1.len() implies ascii_lower(#[trigger] c1[i]) == ascii_lower(
        c2[i],
    ) by {
        assert(case_variant(c1[i], c2[i]));
    }
    assert(ascii_lower_seq(c1) =~= ascii_lower_seq(c2));
}

} // verus!
