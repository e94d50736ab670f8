use vstd::prelude::*;
use vstd::string::StringExecFns;

use crate::base_command;
use crate::importer::entries_view;
use crate::num::{render_nat, usize_to_string};
use crate::text::{chars_of, first_token, push_char, string_from};

verus! {

/// The version of the database schema; a database holding another version
/// is rebuilt.
pub const SCHEMA_VERSION: i32 = 2;

/// How a character of a `LIKE` prefix is written so that it matches itself:
/// `\`, `%` and `_` get a `\` before them.
pub open spec fn escape_char(c: char) -> Seq<char> {
    if c == '\\' || c == '%' || c == '_' {
        seq!['\\', c]
    } else {
        seq![c]
    }
}

/// `s` with the `LIKE` special characters escaped.
pub open spec fn escape_like_spec(s: Seq<char>) -> Seq<char>
    decreases s.len(),
{
    if s.len() == 0 {
        Seq::empty()
    } else {
        escape_like_spec(s.drop_last()) + escape_char(s.last())
    }
}

/// Reading an escaped `LIKE` text back: a `\` makes the next character a
/// literal one.
pub open spec fn unescape_like(s: Seq<char>) -> Seq<char>
    decreases s.len(),
{
    if s.len() == 0 {
        Seq::empty()
    } else if s[0] == '\\' && s.len() >= 2 {
        seq![s[1]] + unescape_like(s.skip(2))
    } else {
        seq![s[0]] + unescape_like(s.skip(1))
    }
}

/// Escape the special `LIKE` characters of a prefix (`\`, `%`, `_`) with a
/// `\`, so that the prefix matches only itself.
pub fn escape_like(prefix: &str) -> (r: String)
    ensures
        r@ == escape_like_spec(prefix@),
{
    let v = chars_of(prefix);
    let mut out = String::new();
    let mut i: usize = 0;
    while i < v.len()
        invariant
            i <= v.len(),
            out@ == escape_like_spec(v@.take(i as int)),
        decreases v.len() - i,
    {
        let c = v[i];
        assert(v@.take(i + 1).drop_last() =~= v@.take(i as int));
        if c == '\\' || c == '%' || c == '_' {
            push_char(&mut out, '\\');
        }
        push_char(&mut out, c);
        assert(out@ =~= escape_like_spec(v@.take(i + 1)));
        i += 1;
    }
    assert(v@.take(v.len() as int) =~= v@);
    out
}

/// The `LIKE` pattern matching the commands that start with `prefix`.
pub fn like_prefix_pattern(prefix: &str) -> (r: String)
    ensures
        r@ == escape_like_spec(prefix@).push('%'),
{
    let mut r = escape_like(prefix);
    push_char(&mut r, '%');
    r
}

proof fn lemma_escape_prepend(c: char, t: Seq<char>)
    ensures
        escape_like_spec(seq![c] + t) == escape_char(c) + escape_like_spec(t),
    decreases t.len(),
{
    if t.len() == 0 {
        assert(seq![c] + t =~= seq![c]);
        assert(seq![c].drop_last() =~= Seq::<char>::empty());
        assert(seq![c].last() == c);
        assert(escape_like_spec(Seq::<char>::empty()) == Seq::<char>::empty());
        assert(escape_like_spec(seq![c]) == escape_like_spec(seq![c].drop_last()) + escape_char(c));
        assert(escape_like_spec(seq![c]) =~= escape_char(c));
        assert(escape_char(c) + escape_like_spec(t) =~= escape_char(c));
    } else {
        lemma_escape_prepend(c, t.drop_last());
        assert((seq![c] + t).drop_last() =~= seq![c] + t.drop_last());
        assert((seq![c] + t).last() == t.last());
        assert(escape_char(c) + escape_like_spec(t.drop_last()) + escape_char(t.last())
            =~= escape_char(c) + (escape_like_spec(t.drop_last()) + escape_char(t.last())));
    }
}

/// Escaping loses nothing: reading the escaped prefix back gives the prefix.
pub proof fn lemma_escape_like_roundtrip(s: Seq<char>)
    ensures
        unescape_like(escape_like_spec(s)) == s,
    decreases s.len(),
{
    if s.len() > 0 {
        let c = s[0];
        let t = s.drop_first();
        assert(s =~= seq![c] + t);
        lemma_escape_prepend(c, t);
        lemma_escape_like_roundtrip(t);
        let e = escape_char(c) + escape_like_spec(t);
        if c == '\\' || c == '%' || c == '_' {
            assert(e[0] == '\\' && e[1] == c);
            assert(e.skip(2) =~= escape_like_spec(t));
        } else {
            assert(e[0] == c);
            assert(e.skip(1) =~= escape_like_spec(t));
        }
        assert(seq![c] + t =~= s);
    }
}


/// `?1,?2,...,?n`: the placeholders of a query with `n` parameters.
pub open spec fn placeholders(n: nat) -> Seq<char>
    decreases n,
{
    if n == 0 {
        Seq::empty()
    } else if n == 1 {
        seq!['?'] + render_nat(1)
    } else {
        placeholders((n - 1) as nat) + seq![',', '?'] + render_nat(n)
    }
}

/// The query for the last use of `n` commands at once.
pub open spec fn recency_sql_spec(n: nat) -> Seq<char> {
    "SELECT command, last_used FROM command_freq WHERE command IN ("@ + placeholders(n) + seq![')']
}

/// The query that reads the last use of `n` commands in one go, with one
/// numbered placeholder per command.
pub fn recency_sql(n: usize) -> (r: String)
    ensures
        r@ == recency_sql_spec(n as nat),
{
    let mut s = String::from_str("SELECT command, last_used FROM command_freq WHERE command IN (");
    let ghost head = s@;
    let mut i: usize = 0;
    while i < n
        invariant
            i <= n,
            s@ == head + placeholders(i as nat),
        decreases n - i,
    {
        i += 1;
        let ghost before = s@;
        if i > 1 {
            push_char(&mut s, ',');
        }
        push_char(&mut s, '?');
        let num = usize_to_string(i);
        s.append(num.as_str());
        if i > 1 {
            assert(s@ =~= head + (placeholders((i - 1) as nat) + seq![',', '?'] + render_nat(
                i as nat,
            )));
        } else {
            assert(s@ =~= head + (seq!['?'] + render_nat(1)));
        }
    }
    push_char(&mut s, ')');
    assert(s@ =~= recency_sql_spec(n as nat));
    s
}

/// The cut-off time for pruning history older than `retain_days` days.
pub fn prune_cutoff(now: i64, retain_days: i64) -> (r: i64)
    requires
        i64::MIN <= now - retain_days * 86400 <= i64::MAX,
        i64::MIN <= retain_days * 86400 <= i64::MAX,
    ensures
        r == now - retain_days * 86400,
{
    now - retain_days * (24 * 60 * 60)
}

/// One change that recording a command makes to the tables of the store.
#[derive(Debug, Clone)]
pub enum TableUpdate {
    /// A row of the raw history.
    History { command: String, directory: Option<String>, timestamp: i64 },
    /// One more use of the command, last used no earlier than `timestamp`.
    Frequency { command: String, timestamp: i64 },
    /// One more use of the command in the directory.
    DirectoryCount { directory: String, command: String },
    /// One more time `next` followed `prev`.
    Bigram { prev: String, next: String },
    /// One more time `next` followed a command whose base is `prev_base`.
    BaseBigram { prev_base: String, next: String },
    /// One more time `next` followed `two_ago` then `one_ago`.
    Trigram { two_ago: String, one_ago: String, next: String },
}

/// A table update, with its strings as character sequences.
pub enum UpdateView {
    History { command: Seq<char>, directory: Option<Seq<char>>, timestamp: i64 },
    Frequency { command: Seq<char>, timestamp: i64 },
    DirectoryCount { directory: Seq<char>, command: Seq<char> },
    Bigram { prev: Seq<char>, next: Seq<char> },
    BaseBigram { prev_base: Seq<char>, next: Seq<char> },
    Trigram { two_ago: Seq<char>, one_ago: Seq<char>, next: Seq<char> },
}

pub open spec fn opt_view(o: Option<String>) -> Option<Seq<char>> {
    match o {
        Some(s) => Some(s@),
        None => None,
    }
}

pub open spec fn opt_str_view(o: Option<&str>) -> Option<Seq<char>> {
    match o {
        Some(s) => Some(s@),
        None => None,
    }
}

impl View for TableUpdate {
    type V = UpdateView;

    open spec fn view(&self) -> UpdateView {
        match self {
            TableUpdate::History { command, directory, timestamp } => UpdateView::History {
                command: command@,
                directory: opt_view(*directory),
                timestamp: *timestamp,
            },
            TableUpdate::Frequency { command, timestamp } => UpdateView::Frequency {
                command: command@,
                timestamp: *timestamp,
            },
            TableUpdate::DirectoryCount { directory, command } => UpdateView::DirectoryCount {
                directory: directory@,
                command: command@,
            },
            TableUpdate::Bigram { prev, next } => UpdateView::Bigram { prev: prev@, next: next@ },
            TableUpdate::BaseBigram { prev_base, next } => UpdateView::BaseBigram {
                prev_base: prev_base@,
                next: next@,
            },
            TableUpdate::Trigram { two_ago, one_ago, next } => UpdateView::Trigram {
                two_ago: two_ago@,
                one_ago: one_ago@,
                next: next@,
            },
        }
    }
}

/// The views of a list of table updates.
pub open spec fn updates_view(s: Seq<TableUpdate>) -> Seq<UpdateView> {
    s.map_values(|u: TableUpdate| u@)
}

/// The updates that recording `command` makes: a history row and a use
/// of the command; a use in the directory where one is given; where a
/// previous command is given, a bigram from it and a bigram from its base
/// command; where two previous commands are given, a trigram.
pub open spec fn record_updates(
    command: Seq<char>,
    directory: Option<Seq<char>>,
    timestamp: i64,
    prev: Option<Seq<char>>,
    prev2: Option<Seq<char>>,
) -> Seq<UpdateView> {
    seq![
        UpdateView::History { command, directory, timestamp },
        UpdateView::Frequency { command, timestamp },
    ] + match directory {
        Some(d) => seq![UpdateView::DirectoryCount { directory: d, command }],
        None => Seq::empty(),
    } + match prev {
        Some(p) => seq![
            UpdateView::Bigram { prev: p, next: command },
            UpdateView::BaseBigram { prev_base: first_token(p), next: command },
        ],
        None => Seq::empty(),
    } + match (prev2, prev) {
        (Some(p2), Some(p1)) => seq![UpdateView::Trigram { two_ago: p2, one_ago: p1, next: command }],
        _ => Seq::empty(),
    }
}

fn opt_string(o: Option<&str>) -> (r: Option<String>)
    ensures
        opt_view(r) == opt_str_view(o),
{
    match o {
        Some(s) => Some(String::from_str(s)),
        None => None,
    }
}

fn push_update(out: &mut Vec<TableUpdate>, u: TableUpdate)
    ensures
        updates_view(final(out)@) == updates_view(old(out)@).push(u@),
{
    out.push(u);
    assert(updates_view(out@) =~= updates_view(old(out)@).push(u@));
}

/// Appends the updates that recording `command` makes.
fn push_record_updates(
    out: &mut Vec<TableUpdate>,
    command: &str,
    directory: Option<&str>,
    timestamp: i64,
    prev: Option<&str>,
    prev2: Option<&str>,
)
    ensures
        updates_view(final(out)@) == updates_view(old(out)@) + record_updates(
            command@,
            opt_str_view(directory),
            timestamp,
            opt_str_view(prev),
            opt_str_view(prev2),
        ),
{
    let ghost start = updates_view(out@);
    push_update(
        out,
        TableUpdate::History {
            command: String::from_str(command),
            directory: opt_string(directory),
            timestamp,
        },
    );
    push_update(out, TableUpdate::Frequency { command: String::from_str(command), timestamp });
    let ghost after_freq = updates_view(out@);
    match directory {
        Some(d) => push_update(
            out,
            TableUpdate::DirectoryCount {
                directory: String::from_str(d),
                command: String::from_str(command),
            },
        ),
        None => {},
    }
    let ghost after_dir = updates_view(out@);
    match prev {
        Some(p) => {
            push_update(
                out,
                TableUpdate::Bigram { prev: String::from_str(p), next: String::from_str(command) },
            );
            push_update(
                out,
                TableUpdate::BaseBigram {
                    prev_base: String::from_str(base_command(p)),
                    next: String::from_str(command),
                },
            );
        },
        None => {},
    }
    let ghost after_prev = updates_view(out@);
    match (prev2, prev) {
        (Some(p2), Some(p1)) => push_update(
            out,
            TableUpdate::Trigram {
                two_ago: String::from_str(p2),
                one_ago: String::from_str(p1),
                next: String::from_str(command),
            },
        ),
        _ => {},
    }
    assert(updates_view(out@) =~= start + record_updates(
        command@,
        opt_str_view(directory),
        timestamp,
        opt_str_view(prev),
        opt_str_view(prev2),
    ));
}

/// The table updates that recording one command with its context makes,
/// in the order in which they are applied.
pub fn add_command_updates(
    command: &str,
    directory: Option<&str>,
    timestamp: i64,
    prev_cmd: Option<&str>,
    prev_cmd_2: Option<&str>,
) -> (r: Vec<TableUpdate>)
    ensures
        updates_view(r@) == record_updates(
            command@,
            opt_str_view(directory),
            timestamp,
            opt_str_view(prev_cmd),
            opt_str_view(prev_cmd_2),
        ),
{
    let mut out: Vec<TableUpdate> = Vec::new();
    push_record_updates(&mut out, command, directory, timestamp, prev_cmd, prev_cmd_2);
    assert(updates_view(out@) =~= Seq::<UpdateView>::empty() + record_updates(
        command@,
        opt_str_view(directory),
        timestamp,
        opt_str_view(prev_cmd),
        opt_str_view(prev_cmd_2),
    ));
    out
}


/// The command recorded `back` places before position `i`, if any.
pub open spec fn before(cmds: Seq<(Seq<char>, i64)>, i: int, back: int) -> Option<Seq<char>> {
    if i - back >= 0 {
        Some(cmds[i - back].0)
    } else {
        None
    }
}

/// The updates that importing `cmds` in order makes: each command is
/// recorded without a directory, after the one or two commands before it.
pub open spec fn bulk_updates(cmds: Seq<(Seq<char>, i64)>) -> Seq<UpdateView>
    decreases cmds.len(),
{
    if cmds.len() == 0 {
        Seq::empty()
    } else {
        let i = cmds.len() - 1;
        bulk_updates(cmds.drop_last()) + record_updates(
            cmds[i].0,
            None,
            cmds[i].1,
            before(cmds, i, 1),
            before(cmds, i, 2),
        )
    }
}

/// The table updates of a bulk import of `(command, timestamp)` pairs, and
/// the number of bigrams it builds (one per command after the first).
pub fn bulk_add_updates(commands: &[(String, i64)]) -> (r: (Vec<TableUpdate>, usize))
    ensures
        updates_view(r.0@) == bulk_updates(entries_view(commands@)),
        r.1 == if commands.len() > 0 {
            commands.len() - 1
        } else {
            0
        },
{
    let ghost cmds = entries_view(commands@);
    let mut out: Vec<TableUpdate> = Vec::new();
    let mut bigrams: usize = 0;
    let mut i: usize = 0;
    while i < commands.len()
        invariant
            i <= commands.len(),
            cmds == entries_view(commands@),
            updates_view(out@) == bulk_updates(cmds.take(i as int)),
            bigrams == if i > 0 {
                i - 1
            } else {
                0
            },
        decreases commands.len() - i,
    {
        let prev: Option<&str> = if i >= 1 {
            Some(commands[i - 1].0.as_str())
        } else {
            None
        };
        let prev2: Option<&str> = if i >= 2 {
            Some(commands[i - 2].0.as_str())
        } else {
            None
        };
        if i >= 1 {
            bigrams += 1;
        }
        let ghost t = cmds.take(i + 1);
        assert(t.drop_last() =~= cmds.take(i as int));
        assert(opt_str_view(prev) == before(t, i as int, 1));
        assert(opt_str_view(prev2) == before(t, i as int, 2));
        push_record_updates(
            &mut out,
            commands[i].0.as_str(),
            None,
            commands[i].1,
            prev,
            prev2,
        );
        i += 1;
    }
    assert(cmds.take(commands.len() as int) =~= cmds);
    (out, bigrams)
}


/// How many bigram updates `us` holds.
pub open spec fn count_bigrams(us: Seq<UpdateView>) -> nat
    decreases us.len(),
{
    if us.len() == 0 {
        0
    } else {
        count_bigrams(us.drop_last()) + if us.last() is Bigram {
            1nat
        } else {
            0nat
        }
    }
}

proof fn lemma_count_bigrams_concat(a: Seq<UpdateView>, b: Seq<UpdateView>)
    ensures
        count_bigrams(a + b) == count_bigrams(a) + count_bigrams(b),
    decreases b.len(),
{
    if b.len() == 0 {
        assert(a + b =~= a);
    } else {
        lemma_count_bigrams_concat(a, b.drop_last());
        assert((a + b).drop_last() =~= a + b.drop_last());
        assert((a + b).last() == b.last());
    }
}

proof fn lemma_record_bigrams(
    command: Seq<char>,
    directory: Option<Seq<char>>,
    timestamp: i64,
    prev: Option<Seq<char>>,
    prev2: Option<Seq<char>>,
)
    ensures
        count_bigrams(record_updates(command, directory, timestamp, prev, prev2)) == if prev is Some {
            1nat
        } else {
            0nat
        },
{
    let head = seq![
        UpdateView::History { command, directory, timestamp },
        UpdateView::Frequency { command, timestamp },
    ];
    let d = match directory {
        Some(dd) => seq![UpdateView::DirectoryCount { directory: dd, command }],
        None => Seq::<UpdateView>::empty(),
    };
    let p = match prev {
        Some(pp) => seq![
            UpdateView::Bigram { prev: pp, next: command },
            UpdateView::BaseBigram { prev_base: first_token(pp), next: command },
        ],
        None => Seq::<UpdateView>::empty(),
    };
    let t = match (prev2, prev) {
        (Some(p2), Some(p1)) => seq![UpdateView::Trigram { two_ago: p2, one_ago: p1, next: command }],
        _ => Seq::<UpdateView>::empty(),
    };
    reveal_with_fuel(count_bigrams, 3);
    lemma_count_bigrams_concat(head, d);
    lemma_count_bigrams_concat(head + d, p);
    lemma_count_bigrams_concat(head + d + p, t);
    assert(head.drop_last().drop_last() =~= Seq::<UpdateView>::empty());
    assert(count_bigrams(head) == 0);
    if directory is Some {
        assert(d.drop_last() =~= Seq::<UpdateView>::empty());
    }
    if prev is Some {
        assert(p.drop_last().drop_last() =~= Seq::<UpdateView>::empty());
        assert(count_bigrams(p) == 1);
    }
    if t.len() > 0 {
        assert(t.drop_last() =~= Seq::<UpdateView>::empty());
    }
}

/// A bulk import builds one bigram for each command after the first: the
/// count that it reports is the number of bigram updates it makes.
pub proof fn lemma_bulk_bigram_count(cmds: Seq<(Seq<char>, i64)>)
    ensures
        count_bigrams(bulk_updates(cmds)) == if cmds.len() > 0 {
            cmds.len() - 1
        } else {
            0
        },
    decreases cmds.len(),
{
    if cmds.len() > 0 {
        let i = cmds.len() - 1;
        lemma_bulk_bigram_count(cmds.drop_last());
        lemma_count_bigrams_concat(
            bulk_updates(cmds.drop_last()),
            record_updates(cmds[i].0, None, cmds[i].1, before(cmds, i, 1), before(cmds, i, 2)),
        );
        lemma_record_bigrams(cmds[i].0, None, cmds[i].1, before(cmds, i, 1), before(cmds, i, 2));
    }
}

/// Recording a command after a previous command `p` learns the bigram
/// from `p` to the command, and every bigram it learns runs that way.
pub proof fn lemma_record_bigram_direction(
    command: Seq<char>,
    directory: Option<Seq<char>>,
    timestamp: i64,
    prev: Option<Seq<char>>,
    prev2: Option<Seq<char>>,
)
    ensures
        prev matches Some(p) ==> record_updates(
            command,
            directory,
            timestamp,
            prev,
            prev2,
        ).contains(UpdateView::Bigram { prev: p, next: command }),
        forall|k: int|
            0 <= k < record_updates(command, directory, timestamp, prev, prev2).len()
                ==> (#[trigger] record_updates(command, directory, timestamp, prev, prev2)[k] matches UpdateView::Bigram {
                prev: a,
                next: b,
            } ==> prev == Some(a) && b == command),
{
    let us = record_updates(command, directory, timestamp, prev, prev2);
    let head = seq![
        UpdateView::History { command, directory, timestamp },
        UpdateView::Frequency { command, timestamp },
    ] + match directory {
        Some(d) => seq![UpdateView::DirectoryCount { directory: d, command }],
        None => Seq::empty(),
    };
    if let Some(p) = prev {
        assert(us[head.len() as int] == UpdateView::Bigram { prev: p, next: command });
    }
}

/// A bulk import learns, for each command after the first, the bigram from
/// the command just before it to that command.
pub proof fn lemma_bulk_bigrams_follow_order(cmds: Seq<(Seq<char>, i64)>, k: int)
    requires
        1 <= k < cmds.len(),
    ensures
        bulk_updates(cmds).contains(UpdateView::Bigram { prev: cmds[k - 1].0, next: cmds[k].0 }),
    decreases cmds.len(),
{
    let i = cmds.len() - 1;
    let init = cmds.drop_last();
    let rec = record_updates(cmds[i].0, None, cmds[i].1, before(cmds, i, 1), before(cmds, i, 2));
    let bg = UpdateView::Bigram { prev: cmds[k - 1].0, next: cmds[k].0 };
    assert(bulk_updates(cmds) == bulk_updates(init) + rec);
    if k < i {
        lemma_bulk_bigrams_follow_order(init, k);
        assert(init[k - 1] == cmds[k - 1] && init[k] == cmds[k]);
        let w = choose|m: int| 0 <= m < bulk_updates(init).len() && bulk_updates(init)[m] == bg;
        assert((bulk_updates(init) + rec)[w] == bg);
    } else {
        lemma_record_bigram_direction(cmds[i].0, None, cmds[i].1, before(cmds, i, 1), before(cmds, i, 2));
        let w = choose|m: int| 0 <= m < rec.len() && rec[m] == bg;
        assert((bulk_updates(init) + rec)[bulk_updates(init).len() + w] == bg);
    }
}

} // verus!
