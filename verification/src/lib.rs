use vstd::prelude::*;
use vstd::string::StrSliceExecFns;

pub mod text;
pub mod num;
pub mod shell;
pub mod importer;
pub mod config;
pub mod ranker;
pub mod fuzzy;
pub mod storage;
pub mod daemon;
pub mod tui;

use crate::text::{
    chars_of, first_token, first_token_bounds, is_ws, lemma_skip_non_ws, lemma_skip_ws, skip_non_ws,
    skip_ws,
};

verus! {

/// Context about when and where a command was executed.
#[derive(Debug, Clone)]
pub struct CommandContext {
    pub directory: Option<String>,
    pub git_branch: Option<String>,
    pub exit_code: Option<i32>,
    pub session_id: Option<String>,
    pub timestamp: i64,
    pub hour: u32,
}

/// Where a suggestion originated from.
#[derive(Debug, Clone, PartialEq, Eq, Structural)]
pub enum SuggestionSource {
    Sequence,
    Prefix,
    Frequency,
    Directory,
    Correction,
}

/// The name under which a suggestion source is shown.
pub open spec fn source_label(s: SuggestionSource) -> Seq<char> {
    match s {
        SuggestionSource::Sequence => "Sequence"@,
        SuggestionSource::Prefix => "Prefix"@,
        SuggestionSource::Frequency => "Frequency"@,
        SuggestionSource::Directory => "Directory"@,
        SuggestionSource::Correction => "Correction"@,
    }
}

impl SuggestionSource {
    /// The text that displaying this source shows.
    pub fn label(&self) -> (r: String)
        ensures
            r@ == source_label(*self),
    {
        match self {
            SuggestionSource::Sequence => String::from_str("Sequence"),
            SuggestionSource::Prefix => String::from_str("Prefix"),
            SuggestionSource::Frequency => String::from_str("Frequency"),
            SuggestionSource::Directory => String::from_str("Directory"),
            SuggestionSource::Correction => String::from_str("Correction"),
        }
    }
}

/// Normalize a command to its base form: its first whitespace-delimited
/// token, or the command itself where it holds no token.
pub fn base_command(cmd: &str) -> (r: &str)
    ensures
        r@ == first_token(cmd@),
{
    let v = chars_of(cmd);
    match first_token_bounds(&v) {
        None => cmd,
        Some((a, b)) => cmd.substring_char(a, b),
    }
}


/// The base of a base command is itself.
pub proof fn lemma_base_command_idempotent(s: Seq<char>)
    ensures
        first_token(first_token(s)) == first_token(s),
{
    let a = skip_ws(s, 0);
    lemma_skip_ws(s, 0);
    if a < s.len() {
        let b = skip_non_ws(s, a);
        lemma_skip_non_ws(s, a);
        let t = s.subrange(a, b);
        assert(t.len() > 0 && !is_ws(t[0]));
        assert(skip_ws(t, 0) == 0);
        lemma_skip_non_ws(t, 0);
        assert forall|j: int| 0 <= j < t.len() implies !is_ws(#[trigger] t[j]) by {
            assert(t[j] == s[a + j]);
        }
        assert(skip_non_ws(t, 0) == t.len());
        assert(t.subrange(0, t.len() as int) =~= t);
    }
}

} // verus!
