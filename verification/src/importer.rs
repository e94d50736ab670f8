use vstd::prelude::*;

use crate::num::{lemma_parse_render_i64, parse_i64, parse_i64_range, render_int};
use crate::text::{
    append_range, chars_of, ends_with_char, find_char, find_from, has_prefix, lemma_find_from,
    lines, split_lines, starts_with, string_from, string_of, strip_trailing, trailing_start,
    trim, trim_bounds, views, char_lines, string_views, lemma_find_from_at,
};

verus! {

/// Imports existing shell history.
pub struct Importer;

/// `chrono::Utc::now().timestamp()`: the current time, in seconds since the
/// Unix epoch. `Utc::now` takes the system time since the epoch (and
/// panics when the clock is set before it), so the value is not negative;
/// chrono's dates end at the year 262142 (`NaiveDate::MAX`), so it stays
/// below 10^13. Which time it is, is not claimed.
#[verifier::external_body]
pub(crate) fn utc_now_timestamp() -> (t: i64)
    ensures
        0 <= t <= 10_000_000_000_000,
{
    chrono::Utc::now().timestamp()
}

/// The extended zsh history line `": <timestamp>:<duration>;<command>"`:
/// the timestamp runs up to the first `':'` after `": "`, and the command
/// is everything after the first `';'` that follows it (so it may itself
/// hold semicolons).
pub open spec fn parse_extended(line: Seq<char>) -> Option<(i64, Seq<char>)> {
    if !(line.len() >= 2 && line[0] == ':' && line[1] == ' ') {
        None
    } else {
        let c = find_from(line, ':', 2);
        if c >= line.len() {
            None
        } else {
            match parse_i64(line.subrange(2, c)) {
                None => None,
                Some(ts) => {
                    let sc = find_from(line, ';', c + 1);
                    if sc >= line.len() {
                        None
                    } else {
                        Some((ts, line.skip(sc + 1)))
                    }
                },
            }
        }
    }
}

/// An extended line written from a timestamp, a duration field without
/// `;` and any command reads back as that timestamp and that command.
pub proof fn lemma_extended_line_roundtrip(ts: i64, duration: Seq<char>, command: Seq<char>)
    requires
        !duration.contains(';'),
    ensures
        parse_extended(
            seq![':', ' '] + render_int(ts as int) + seq![':'] + duration + seq![';'] + command,
        ) == Some((ts, command)),
{
    let r = render_int(ts as int);
    lemma_parse_render_i64(ts);
    let line = seq![':', ' '] + r + seq![':'] + duration + seq![';'] + command;
    let c: int = 2 + r.len() as int;
    let sc: int = c + 1 + duration.len();
    assert(line[c] == ':');
    assert forall|j: int| 2 <= j < c implies #[trigger] line[j] != ':' by {
        assert(line[j] == r[j - 2]);
    }
    lemma_find_from_at(line, ':', 2, c);
    assert(line.subrange(2, c) =~= r);
    assert(line[sc] == ';');
    assert forall|j: int| c + 1 <= j < sc implies #[trigger] line[j] != ';' by {
        assert(line[j] == duration[j - c - 1]);
    }
    lemma_find_from_at(line, ';', c + 1, sc);
    assert(line.skip(sc + 1) =~= command);
}

/// The timestamp and the index where the command starts, of an extended line.
fn extended_parts(v: &Vec<char>) -> (r: Option<(i64, usize)>)
    ensures
        match r {
            None => parse_extended(v@) is None,
            Some((ts, k)) => k <= v.len() && parse_extended(v@) == Some((ts, v@.skip(k as int))),
        },
{
    if !(v.len() >= 2 && v[0] == ':' && v[1] == ' ') {
        return None;
    }
    let c = find_char(v, ':', 2);
    if c >= v.len() {
        return None;
    }
    match parse_i64_range(v, 2, c) {
        None => None,
        Some(ts) => {
            let sc = find_char(v, ';', c + 1);
            if sc >= v.len() {
                None
            } else {
                Some((ts, sc + 1))
            }
        },
    }
}

/// The characters that a list of history entries holds.
pub open spec fn entries_view(s: Seq<(String, i64)>) -> Seq<(Seq<char>, i64)> {
    s.map_values(|e: (String, i64)| (e.0@, e.1))
}

/// One line of zsh history read in state `(entries, pending, pending_ts)`,
/// where `pending` is a multiline command still open; `now` stamps lines
/// in the simple format.
pub open spec fn history_step(
    st: (Seq<(Seq<char>, i64)>, Seq<char>, i64),
    line: Seq<char>,
    now: i64,
) -> (Seq<(Seq<char>, i64)>, Seq<char>, i64) {
    let out = st.0;
    let buf = st.1;
    let ts = st.2;
    if buf.len() > 0 {
        let b = buf.push('\n');
        if ends_with_char(line, '\\') {
            (out, b + strip_trailing(line, '\\'), ts)
        } else {
            (out.push((b + line, ts)), Seq::empty(), ts)
        }
    } else if line.len() >= 2 && line[0] == ':' && line[1] == ' ' {
        match parse_extended(line) {
            Some((t, cmd)) => if ends_with_char(cmd, '\\') {
                (out, strip_trailing(cmd, '\\'), t)
            } else if cmd.len() > 0 {
                (out.push((cmd, t)), buf, ts)
            } else {
                st
            },
            None => st,
        }
    } else if trim(line).len() > 0 {
        if ends_with_char(line, '\\') {
            (out, strip_trailing(line, '\\'), now)
        } else {
            (out.push((line, now)), buf, ts)
        }
    } else {
        st
    }
}

/// The state after reading the lines `ls` in order.
pub open spec fn history_fold(ls: Seq<Seq<char>>, now: i64) -> (
    Seq<(Seq<char>, i64)>,
    Seq<char>,
    i64,
)
    decreases ls.len(),
{
    if ls.len() == 0 {
        (Seq::empty(), Seq::empty(), 0)
    } else {
        history_step(history_fold(ls.drop_last(), now), ls.last(), now)
    }
}

/// The `(command, timestamp)` pairs of zsh history lines `ls`; a multiline
/// command still open at the end is kept as it is.
pub open spec fn history_entries(ls: Seq<Seq<char>>, now: i64) -> Seq<(Seq<char>, i64)> {
    let st = history_fold(ls, now);
    if st.1.len() > 0 {
        st.0.push((st.1, st.2))
    } else {
        st.0
    }
}

/// The state after reading the lines `ls` in order, line `k` being stamped
/// `nows[k]` if it is in the simple format.
pub open spec fn history_fold_at(ls: Seq<Seq<char>>, nows: Seq<i64>) -> (
    Seq<(Seq<char>, i64)>,
    Seq<char>,
    i64,
)
    decreases ls.len(),
{
    if ls.len() == 0 {
        (Seq::empty(), Seq::empty(), 0)
    } else {
        history_step(history_fold_at(ls.drop_last(), nows), ls.last(), nows[ls.len() - 1])
    }
}

/// `history_entries`, line `k` being stamped `nows[k]` if it is in the
/// simple format.
pub open spec fn history_entries_at(ls: Seq<Seq<char>>, nows: Seq<i64>) -> Seq<(Seq<char>, i64)> {
    let st = history_fold_at(ls, nows);
    if st.1.len() > 0 {
        st.0.push((st.1, st.2))
    } else {
        st.0
    }
}

/// The fold reads only the stamps of the lines it has read.
proof fn lemma_fold_at_agree(ls: Seq<Seq<char>>, a: Seq<i64>, b: Seq<i64>)
    requires
        forall|k: int| 0 <= k < ls.len() ==> a[k] == b[k],
    ensures
        history_fold_at(ls, a) == history_fold_at(ls, b),
    decreases ls.len(),
{
    if ls.len() > 0 {
        lemma_fold_at_agree(ls.drop_last(), a, b);
    }
}

/// With every line stamped `now`, the fold is the one at time `now`.
proof fn lemma_fold_at_constant(ls: Seq<Seq<char>>, nows: Seq<i64>, now: i64)
    requires
        forall|k: int| 0 <= k < ls.len() ==> nows[k] == now,
    ensures
        history_fold_at(ls, nows) == history_fold(ls, now),
    decreases ls.len(),
{
    if ls.len() > 0 {
        lemma_fold_at_constant(ls.drop_last(), nows, now);
    }
}

/// A fish history line `"- cmd: <command>"` opens an entry, stamped `now`
/// until a line `"  when: <timestamp>"` gives its time; other lines are
/// ignored. State: `(entries, open command, its timestamp)`.
pub open spec fn fish_step(
    st: (Seq<(Seq<char>, i64)>, Option<Seq<char>>, i64),
    line: Seq<char>,
    now: i64,
) -> (Seq<(Seq<char>, i64)>, Option<Seq<char>>, i64) {
    if starts_with(line, "- cmd: "@) {
        let out = match st.1 {
            Some(p) => if trim(p).len() > 0 {
                st.0.push((p, st.2))
            } else {
                st.0
            },
            None => st.0,
        };
        (out, Some(line.skip("- cmd: "@.len() as int)), now)
    } else if starts_with(line, "  when: "@) {
        match parse_i64(trim(line.skip("  when: "@.len() as int))) {
            Some(t) => (st.0, st.1, t),
            None => st,
        }
    } else {
        st
    }
}

pub open spec fn fish_fold(ls: Seq<Seq<char>>, now: i64) -> (
    Seq<(Seq<char>, i64)>,
    Option<Seq<char>>,
    i64,
)
    decreases ls.len(),
{
    if ls.len() == 0 {
        (Seq::empty(), None, 0)
    } else {
        fish_step(fish_fold(ls.drop_last(), now), ls.last(), now)
    }
}

/// The `(command, timestamp)` pairs of fish history lines `ls`.
pub open spec fn fish_entries(ls: Seq<Seq<char>>, now: i64) -> Seq<(Seq<char>, i64)> {
    let st = fish_fold(ls, now);
    match st.1 {
        Some(p) => if trim(p).len() > 0 {
            st.0.push((p, st.2))
        } else {
            st.0
        },
        None => st.0,
    }
}

/// A bash history line that is recorded: not blank, not a `#` comment.
pub open spec fn is_bash_command(line: Seq<char>) -> bool {
    trim(line).len() > 0 && !(line.len() > 0 && line[0] == '#')
}

/// The recorded bash history lines, in order.
pub open spec fn bash_commands(ls: Seq<Seq<char>>) -> Seq<Seq<char>>
    decreases ls.len(),
{
    if ls.len() == 0 {
        Seq::empty()
    } else if is_bash_command(ls.last()) {
        bash_commands(ls.drop_last()).push(ls.last())
    } else {
        bash_commands(ls.drop_last())
    }
}

/// The `(command, timestamp)` pairs of bash history lines: the `k`-th of
/// `n` recorded lines is stamped `now - (n - k)`, one second apart, the
/// last one second before `now`.
pub open spec fn bash_entries(ls: Seq<Seq<char>>, now: i64) -> Seq<(Seq<char>, i64)> {
    let cmds = bash_commands(ls);
    Seq::new(cmds.len(), |k: int| (cmds[k], (now - (cmds.len() - k)) as i64))
}

pub proof fn lemma_bash_commands_len(ls: Seq<Seq<char>>)
    ensures
        bash_commands(ls).len() <= ls.len(),
    decreases ls.len(),
{
    if ls.len() > 0 {
        lemma_bash_commands_len(ls.drop_last());
    }
}

/// Every entry in the state has a non-empty command.
pub open spec fn all_nonempty(out: Seq<(Seq<char>, i64)>) -> bool {
    forall|k: int| 0 <= k < out.len() ==> (#[trigger] out[k]).0.len() > 0
}

proof fn lemma_trim_nonempty(s: Seq<char>)
    ensures
        trim(s).len() > 0 ==> s.len() > 0,
{
}

proof fn lemma_history_fold_nonempty(ls: Seq<Seq<char>>, now: i64)
    ensures
        all_nonempty(history_fold(ls, now).0),
    decreases ls.len(),
{
    if ls.len() > 0 {
        lemma_history_fold_nonempty(ls.drop_last(), now);
        lemma_trim_nonempty(ls.last());
        let st = history_fold(ls.drop_last(), now);
        let line = ls.last();
        if st.1.len() > 0 {
            let b = st.1.push('\n');
            assert((b + line).len() > 0);
        }
    }
}

/// No empty command is ever recorded from zsh history.
pub proof fn lemma_history_entries_nonempty(ls: Seq<Seq<char>>, now: i64)
    ensures
        all_nonempty(history_entries(ls, now)),
{
    lemma_history_fold_nonempty(ls, now);
}

/// History made of blank lines records nothing.
pub proof fn lemma_blank_history_is_empty(ls: Seq<Seq<char>>, now: i64)
    requires
        forall|k: int| 0 <= k < ls.len() ==> trim(#[trigger] ls[k]).len() == 0,
    ensures
        history_entries(ls, now).len() == 0,
        history_fold(ls, now) == (Seq::<(Seq<char>, i64)>::empty(), Seq::<char>::empty(), 0i64),
    decreases ls.len(),
{
    if ls.len() > 0 {
        assert forall|k: int| 0 <= k < ls.drop_last().len() implies trim(
            #[trigger] ls.drop_last()[k],
        ).len() == 0 by {
            assert(ls.drop_last()[k] == ls[k]);
        }
        lemma_blank_history_is_empty(ls.drop_last(), now);
        let line = ls.last();
        assert(trim(line).len() == 0);
        if line.len() >= 2 && line[0] == ':' {
            crate::text::lemma_skip_ws(line, 0);
            assert(!crate::text::is_ws(line[0]));
            assert(crate::text::skip_ws(line, 0) == 0);
            crate::text::lemma_rskip_ws(line, line.len() as int);
            assert(crate::text::rskip_ws(line, line.len() as int) > 0);
            assert(trim(line).len() > 0);
        }
        let st = history_fold(ls.drop_last(), now);
        assert(st.1.len() == 0);
        assert(history_fold(ls, now) == history_step(st, line, now));
        assert(history_step(st, line, now) == st);
    }
}

/// Appends an entry holding the characters of `buf`.
fn push_entry(out: &mut Vec<(String, i64)>, buf: &Vec<char>, ts: i64)
    ensures
        entries_view(final(out)@) == entries_view(old(out)@).push((buf@, ts)),
{
    let s = string_from(buf);
    out.push((s, ts));
    assert(entries_view(out@) =~= entries_view(old(out)@).push((buf@, ts)));
}

/// Whether `v` holds a non-whitespace character.
fn has_non_whitespace(v: &Vec<char>) -> (b: bool)
    ensures
        b == (trim(v@).len() > 0),
{
    let (a, b) = trim_bounds(v);
    a < b
}

impl Importer {
    /// Parse an extended zsh history line `": timestamp:duration;command"`.
    /// The command itself may contain semicolons: only the first semicolon
    /// after the duration field splits.
    pub fn parse_extended_line(line: &str) -> (r: Option<(i64, String)>)
        ensures
            match r {
                None => parse_extended(line@) is None,
                Some((ts, cmd)) => parse_extended(line@) == Some((ts, cmd@)),
            },
    {
        let v = chars_of(line);
        match extended_parts(&v) {
            None => None,
            Some((ts, k)) => {
                let cmd = string_of(&v, k, v.len());
                Some((ts, cmd))
            },
        }
    }

    /// The `(command, timestamp)` pairs of zsh history lines. A line in
    /// the simple format is stamped `fixed` when it is given; otherwise the
    /// clock is read for it, and only for such a line. The ghost result
    /// holds the stamp of each line.
    fn parse_lines_stamped(ls: &Vec<Vec<char>>, fixed: Option<i64>) -> (r: (
        Vec<(String, i64)>,
        Ghost<Seq<i64>>,
    ))
        ensures
            r.1@.len() == ls@.len(),
            forall|k: int|
                0 <= k < ls@.len() ==> match fixed {
                    Some(t) => r.1@[k] == t,
                    None => 0 <= #[trigger] r.1@[k] <= 10_000_000_000_000,
                },
            entries_view(r.0@) == history_entries_at(views(ls@), r.1@),
    {
        let ghost mut nows: Seq<i64> = Seq::empty();
        let mut out: Vec<(String, i64)> = Vec::new();
        let mut buf: Vec<char> = Vec::new();
        let mut ts: i64 = 0;
        let mut i: usize = 0;
        while i < ls.len()
            invariant
                i <= ls.len(),
                nows.len() == i,
                forall|k: int|
                    0 <= k < i ==> match fixed {
                        Some(t) => nows[k] == t,
                        None => 0 <= #[trigger] nows[k] <= 10_000_000_000_000,
                    },
                (entries_view(out@), buf@, ts) == history_fold_at(views(ls@).take(i as int), nows),
            decreases ls.len() - i,
        {
            let line = &ls[i];
            assert(views(ls@).take(i + 1).drop_last() =~= views(ls@).take(i as int));
            assert(views(ls@).take(i + 1).last() == line@);
            let n = line.len();
            let ghost prev = nows;
            let ghost mut stamp: i64 = match fixed {
                Some(t) => t,
                None => 0,
            };
            if buf.len() > 0 {
                buf.push('\n');
                if n > 0 && line[n - 1] == '\\' {
                    let e = trailing_start(line, 0, n, '\\');
                    assert(line@.subrange(0, n as int) =~= line@);
                    append_range(&mut buf, line, 0, e);
                } else {
                    append_range(&mut buf, line, 0, n);
                    assert(line@.subrange(0, n as int) =~= line@);
                    push_entry(&mut out, &buf, ts);
                    buf = Vec::new();
                }
            } else if n >= 2 && line[0] == ':' && line[1] == ' ' {
                match extended_parts(line) {
                    Some((t, k)) => {
                        if k < n && line[n - 1] == '\\' {
                            let e = trailing_start(line, k, n, '\\');
                            assert(line@.subrange(k as int, n as int) =~= line@.skip(k as int));
                            let mut nb: Vec<char> = Vec::new();
                            append_range(&mut nb, line, k, e);
                            assert(nb@ =~= line@.subrange(k as int, e as int));
                            buf = nb;
                            ts = t;
                        } else if k < n {
                            let mut nb: Vec<char> = Vec::new();
                            append_range(&mut nb, line, k, n);
                            assert(nb@ =~= line@.skip(k as int));
                            push_entry(&mut out, &nb, t);
                        }
                    },
                    None => {},
                }
            } else if has_non_whitespace(line) {
                let now = match fixed {
                    Some(t) => t,
                    None => utc_now_timestamp(),
                };
                proof {
                    stamp = now;
                }
                if n > 0 && line[n - 1] == '\\' {
                    let e = trailing_start(line, 0, n, '\\');
                    assert(line@.subrange(0, n as int) =~= line@);
                    let mut nb: Vec<char> = Vec::new();
                    append_range(&mut nb, line, 0, e);
                    assert(nb@ =~= line@.subrange(0, e as int));
                    buf = nb;
                    ts = now;
                } else {
                    push_entry(&mut out, line, now);
                }
            }
            proof {
                nows = prev.push(stamp);
                lemma_fold_at_agree(views(ls@).take(i as int), prev, nows);
            }
            i += 1;
        }
        assert(views(ls@).take(ls.len() as int) =~= views(ls@));
        if buf.len() > 0 {
            push_entry(&mut out, &buf, ts);
        }
        (out, Ghost(nows))
    }

    /// The `(command, timestamp)` pairs of zsh history lines, lines in the
    /// simple format being stamped `now`.
    pub fn parse_history_lines(ls: &Vec<Vec<char>>, now: i64) -> (r: Vec<(String, i64)>)
        ensures
            entries_view(r@) == history_entries(views(ls@), now),
    {
        let (out, Ghost(nows)) = Self::parse_lines_stamped(ls, Some(now));
        proof {
            lemma_fold_at_constant(views(ls@), nows, now);
        }
        out
    }

    /// Parse zsh history text into `(command, timestamp)` pairs. Lines in
    /// the extended format carry their own timestamp; each line in the simple
    /// format is stamped with the current time, the clock being read for that
    /// line (and for no other); a line ending in `\` is continued on the next
    /// line; blank lines are ignored.
    pub fn parse_history(text: &str) -> (r: Vec<(String, i64)>)
        ensures
            exists|nows: Seq<i64>|
                {
                    &&& nows.len() == lines(text@).len()
                    &&& forall|k: int|
                        0 <= k < nows.len() ==> 0 <= #[trigger] nows[k] <= 10_000_000_000_000
                    &&& entries_view(r@) == history_entries_at(lines(text@), nows)
                },
    {
        let v = chars_of(text);
        let ls = split_lines(&v);
        let (out, Ghost(nows)) = Self::parse_lines_stamped(&ls, None);
        out
    }

    /// `parse_history`, with `now` as the current time.
    pub fn parse_history_at(text: &str, now: i64) -> (r: Vec<(String, i64)>)
        ensures
            entries_view(r@) == history_entries(lines(text@), now),
    {
        let v = chars_of(text);
        let ls = split_lines(&v);
        Self::parse_history_lines(&ls, now)
    }

    /// `parse_history` on lines already split, with `now` as the current time.
    pub fn parse_zsh_lines(lines: &Vec<String>, now: i64) -> (r: Vec<(String, i64)>)
        ensures
            entries_view(r@) == history_entries(string_views(lines@), now),
    {
        let ls = char_lines(lines);
        Self::parse_history_lines(&ls, now)
    }

    /// The `(command, timestamp)` pairs of a fish history file, commands
    /// without a `when:` line being stamped `now`.
    pub fn parse_fish_history(content: &str, now: i64) -> (r: Vec<(String, i64)>)
        ensures
            entries_view(r@) == fish_entries(lines(content@), now),
    {
        let cmd_p = chars_of("- cmd: ");
        let when_p = chars_of("  when: ");
        let v = chars_of(content);
        let ls = split_lines(&v);
        let mut out: Vec<(String, i64)> = Vec::new();
        let mut cur: Option<Vec<char>> = None;
        let mut ts: i64 = 0;
        let mut i: usize = 0;
        while i < ls.len()
            invariant
                i <= ls.len(),
                cmd_p@ == "- cmd: "@,
                when_p@ == "  when: "@,
                (entries_view(out@), match cur {
                    Some(c) => Some(c@),
                    None => None::<Seq<char>>,
                }, ts) == fish_fold(views(ls@).take(i as int), now),
            decreases ls.len() - i,
        {
            let line = &ls[i];
            assert(views(ls@).take(i + 1).drop_last() =~= views(ls@).take(i as int));
            assert(views(ls@).take(i + 1).last() == line@);
            if has_prefix(line, &cmd_p) {
                match &cur {
                    Some(p) => {
                        if has_non_whitespace(p) {
                            push_entry(&mut out, p, ts);
                        }
                    },
                    None => {},
                }
                let mut nc: Vec<char> = Vec::new();
                append_range(&mut nc, line, cmd_p.len(), line.len());
                assert(nc@ =~= line@.skip(cmd_p@.len() as int));
                cur = Some(nc);
                ts = now;
            } else if has_prefix(line, &when_p) {
                let k = when_p.len();
                let mut rest: Vec<char> = Vec::new();
                append_range(&mut rest, line, k, line.len());
                assert(rest@ =~= line@.skip(k as int));
                let (a, b) = trim_bounds(&rest);
                match parse_i64_range(&rest, a, b) {
                    Some(t) => {
                        ts = t;
                    },
                    None => {},
                }
            }
            i += 1;
        }
        assert(views(ls@).take(ls.len() as int) =~= views(ls@));
        match &cur {
            Some(p) => {
                if has_non_whitespace(p) {
                    push_entry(&mut out, p, ts);
                }
            },
            None => {},
        }
        out
    }

    /// The `(command, timestamp)` pairs of bash history lines: blank lines
    /// and `#` lines are skipped, and the recorded lines are stamped one
    /// second apart, the last one second before `now`.
    pub fn bash_history_entries(lines: &Vec<String>, now: i64) -> (r: Vec<(String, i64)>)
        requires
            lines.len() <= i64::MAX,
            i64::MIN + lines.len() <= now,
        ensures
            entries_view(r@) == bash_entries(string_views(lines@), now),
    {
        let ls = char_lines(lines);
        let ghost sl = views(ls@);
        let mut count: usize = 0;
        let mut i: usize = 0;
        while i < ls.len()
            invariant
                i <= ls.len(),
                sl == views(ls@),
                count == bash_commands(sl.take(i as int)).len(),
            decreases ls.len() - i,
        {
            assert(sl.take(i + 1).drop_last() =~= sl.take(i as int));
            proof {
                lemma_bash_commands_len(sl.take(i as int));
            }
            let line = &ls[i];
            if has_non_whitespace(line) && !(line.len() > 0 && line[0] == '#') {
                count += 1;
            }
            i += 1;
        }
        assert(sl.take(ls.len() as int) =~= sl);
        proof {
            lemma_bash_commands_len(sl);
        }
        let mut out: Vec<(String, i64)> = Vec::new();
        let mut parsed: usize = 0;
        i = 0;
        while i < ls.len()
            invariant
                i <= ls.len(),
                sl == views(ls@),
                sl == string_views(lines@),
                count == bash_commands(sl).len(),
                count <= ls.len() <= i64::MAX,
                i64::MIN + ls.len() <= now,
                parsed == bash_commands(sl.take(i as int)).len(),
                entries_view(out@) == bash_entries(sl, now).take(parsed as int),
                bash_commands(sl.take(i as int)) == bash_commands(sl).take(parsed as int),
                parsed <= count,
            decreases ls.len() - i,
        {
            assert(sl.take(i + 1).drop_last() =~= sl.take(i as int));
            let line = &ls[i];
            if has_non_whitespace(line) && !(line.len() > 0 && line[0] == '#') {
                let t = now - (count as i64 - parsed as i64);
                let s = string_from(line);
                let ghost old_out = out@;
                out.push((s, t));
                assert(entries_view(out@) =~= entries_view(old_out).push((line@, t)));
                proof {
                    lemma_bash_prefix(sl, i as int);
                    let cmds = bash_commands(sl);
                    assert(bash_commands(sl.take(i + 1)).len() == parsed + 1);
                    assert(bash_commands(sl.take(i + 1)) == cmds.take(parsed + 1));
                    assert(cmds.take(parsed + 1)[parsed as int] == sl[i as int]);
                    assert(cmds[parsed as int] == line@);
                    assert(bash_entries(sl, now)[parsed as int] == (line@, t));
                    assert(parsed < bash_entries(sl, now).len());
                    assert(bash_entries(sl, now).take(parsed + 1) =~= bash_entries(sl, now).take(
                        parsed as int,
                    ).push((line@, t)));
                }
                assert(entries_view(out@) =~= bash_entries(sl, now).take(parsed + 1));
                parsed += 1;
            } else {
                proof {
                    lemma_bash_prefix(sl, i as int);
                }
            }
            i += 1;
        }
        assert(sl.take(ls.len() as int) =~= sl);
        assert(bash_entries(sl, now).take(count as int) =~= bash_entries(sl, now));
        out
    }
}

/// Reading one more line extends the recorded prefix by that line, or
/// leaves it as it is.
proof fn lemma_bash_prefix(sl: Seq<Seq<char>>, i: int)
    requires
        0 <= i < sl.len(),
        bash_commands(sl.take(i)) == bash_commands(sl).take(bash_commands(sl.take(i)).len() as int),
    ensures
        bash_commands(sl.take(i + 1)) == bash_commands(sl).take(
            bash_commands(sl.take(i + 1)).len() as int,
        ),
        is_bash_command(sl[i]) ==> bash_commands(sl.take(i + 1)) == bash_commands(sl.take(
            i,
        )).push(sl[i]),
        is_bash_command(sl[i]) ==> bash_commands(sl.take(i)).len() < bash_commands(sl).len(),
        !is_bash_command(sl[i]) ==> bash_commands(sl.take(i + 1)) == bash_commands(sl.take(i)),
{
    assert(sl.take(i + 1).drop_last() =~= sl.take(i));
    assert(sl.take(i + 1).last() == sl[i]);
    lemma_bash_commands_prefix(sl, i + 1);
}

/// The recorded lines of a prefix are a prefix of the recorded lines.
proof fn lemma_bash_commands_prefix(sl: Seq<Seq<char>>, j: int)
    requires
        0 <= j <= sl.len(),
    ensures
        bash_commands(sl.take(j)).len() <= bash_commands(sl).len(),
        bash_commands(sl.take(j)) == bash_commands(sl).take(bash_commands(sl.take(j)).len() as int),
        j < sl.len() && is_bash_command(sl[j]) ==> bash_commands(sl.take(j)).len() < bash_commands(
            sl,
        ).len(),
    decreases sl.len() - j,
{
    if j == sl.len() {
        assert(sl.take(j) =~= sl);
        assert(bash_commands(sl).take(bash_commands(sl).len() as int) =~= bash_commands(sl));
    } else {
        lemma_bash_commands_prefix(sl, j + 1);
        let a = bash_commands(sl.take(j));
        let b = bash_commands(sl.take(j + 1));
        assert(sl.take(j + 1).drop_last() =~= sl.take(j));
        assert(sl.take(j + 1).last() == sl[j]);
        if is_bash_command(sl[j]) {
            assert(b == a.push(sl[j]));
            assert(a =~= b.take(a.len() as int));
            assert(bash_commands(sl).take(b.len() as int).take(a.len() as int) =~= bash_commands(
                sl,
            ).take(a.len() as int));
        } else {
            assert(b == a);
        }
    }
}

/// A command that starts on an extended line `: <ts>:<d>;<c>\` and goes
/// on over the next line is recorded once, joined by a newline, with the
/// timestamp `<ts>` of the line it started on (whatever the current time).
pub proof fn lemma_extended_multiline_keeps_timestamp(
    ts: i64,
    duration: Seq<char>,
    c: Seq<char>,
    next: Seq<char>,
    now: i64,
)
    requires
        !duration.contains(';'),
        c.len() > 0,
        c.last() != '\\',
        !ends_with_char(next, '\\'),
    ensures
        history_entries(
            seq![
                seq![':', ' '] + render_int(ts as int) + seq![':'] + duration + seq![';'] + c.push(
                    '\\',
                ),
                next,
            ],
            now,
        ) == seq![(c.push('\n') + next, ts)],
{
    let cmd = c.push('\\');
    let first = seq![':', ' '] + render_int(ts as int) + seq![':'] + duration + seq![';'] + cmd;
    lemma_extended_line_roundtrip(ts, duration, cmd);
    assert(first[0] == ':' && first[1] == ' ');
    assert(cmd.drop_last() =~= c);
    assert(strip_trailing(cmd, '\\') == strip_trailing(c, '\\'));
    assert(strip_trailing(cmd, '\\') == c);
    let ls = seq![first, next];
    assert(ls.drop_last() =~= seq![first]);
    assert(seq![first].drop_last() =~= Seq::<Seq<char>>::empty());
    let empty = (Seq::<(Seq<char>, i64)>::empty(), Seq::<char>::empty(), 0i64);
    assert(history_fold(Seq::<Seq<char>>::empty(), now) == empty);
    assert(seq![first].last() == first);
    assert(seq![first].len() == 1);
    assert(history_fold(seq![first], now) == history_step(
        history_fold(seq![first].drop_last(), now),
        first,
        now,
    ));
    assert(history_fold(seq![first], now) == history_step(empty, first, now));
    assert(history_step(empty, first, now) == (Seq::<(Seq<char>, i64)>::empty(), c, ts));
    assert(history_fold(ls, now) == history_step(
        (Seq::<(Seq<char>, i64)>::empty(), c, ts),
        next,
        now,
    ));
}

/// A bash line that is not blank and does not begin with `#` is recorded,
/// whatever it holds further on (a `#` inside it included).
pub proof fn lemma_bash_keeps_command_lines(ls: Seq<Seq<char>>, line: Seq<char>)
    requires
        trim(line).len() > 0,
        line[0] != '#',
    ensures
        bash_commands(ls.push(line)) == bash_commands(ls).push(line),
{
    lemma_trim_nonempty(line);
    assert(ls.push(line).drop_last() =~= ls);
}

/// A bash line that begins with `#` (a timestamp or comment line) is not
/// recorded.
pub proof fn lemma_bash_skips_hash_lines(ls: Seq<Seq<char>>, line: Seq<char>)
    requires
        line.len() > 0,
        line[0] == '#',
    ensures
        bash_commands(ls.push(line)) == bash_commands(ls),
{
    assert(ls.push(line).drop_last() =~= ls);
}

/// Bash history whose lines are all commands is recorded whole, in order,
/// line `k` of `n` stamped `now - n + k`: one second apart, the last one
/// second before `now`.
pub proof fn lemma_bash_entries_of_command_lines(ls: Seq<Seq<char>>, now: i64)
    requires
        forall|k: int| 0 <= k < ls.len() ==> trim(#[trigger] ls[k]).len() > 0 && ls[k][0] != '#',
    ensures
        bash_entries(ls, now).len() == ls.len(),
        forall|k: int|
            0 <= k < ls.len() ==> #[trigger] bash_entries(ls, now)[k] == (
                ls[k],
                (now - (ls.len() - k)) as i64,
            ),
    decreases ls.len(),
{
    lemma_bash_commands_all(ls);
}

proof fn lemma_bash_commands_all(ls: Seq<Seq<char>>)
    requires
        forall|k: int| 0 <= k < ls.len() ==> trim(#[trigger] ls[k]).len() > 0 && ls[k][0] != '#',
    ensures
        bash_commands(ls) == ls,
    decreases ls.len(),
{
    if ls.len() > 0 {
        let init = ls.drop_last();
        assert forall|k: int| 0 <= k < init.len() implies trim(#[trigger] init[k]).len() > 0
            && init[k][0] != '#' by {
            assert(init[k] == ls[k]);
        }
        lemma_bash_commands_all(init);
        let last = ls.last();
        assert(trim(ls[ls.len() - 1]).len() > 0);
        lemma_bash_keeps_command_lines(init, last);
        assert(init.push(last) =~= ls);
    }
}

} // verus!
