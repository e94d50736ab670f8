use vstd::prelude::*;

use crate::text::{push_char, string_views};

verus! {

/// Requests that a client sends to the daemon.
#[derive(Debug)]
pub enum Request {
    Ping,
    Add {
        cmd: String,
        dir: Option<String>,
        git: Option<String>,
        exit: Option<i32>,
        session: Option<String>,
        prev: Option<String>,
        prev2: Option<String>,
        timestamp: i64,
        hour: u32,
    },
    Suggest {
        prefix: Option<String>,
        prev: Option<String>,
        prev2: Option<String>,
        dir: Option<String>,
        env: Option<Vec<String>>,
        count: Option<usize>,
        plain: Option<bool>,
    },
    Shutdown,
}

/// Replies of the daemon.
#[derive(Debug)]
pub enum Response {
    Pong,
    Done,
    Suggestions(Vec<String>),
    PlainText(String),
    Error(String),
}

/// What the daemon does with a request.
#[derive(Debug)]
pub enum Action {
    /// Send this reply.
    Reply(Response),
    /// Queue the command for the writer, then reply `Done`.
    Record {
        cmd: String,
        dir: Option<String>,
        git: Option<String>,
        exit: Option<i32>,
        session: Option<String>,
        prev: Option<String>,
        prev2: Option<String>,
        timestamp: i64,
        hour: u32,
    },
    /// Rank suggestions for this context and reply with at most `limit`
    /// of them, as plain text lines where `plain` holds.
    Suggest {
        prefix: Option<String>,
        prev: Option<String>,
        prev2: Option<String>,
        dir: Option<String>,
        env: Option<Vec<String>>,
        limit: usize,
        plain: bool,
    },
    /// Reply `Done`, then shut the daemon down.
    Shutdown,
}

/// What the daemon does with `req`: a ping is answered `Pong`, an added
/// command is queued, a suggestion request is ranked with at most `count`
/// results (5 when not given), as plain text only when asked, and a
/// shutdown request stops the daemon.
pub open spec fn action_for(req: Request) -> Action {
    match req {
        Request::Ping => Action::Reply(Response::Pong),
        Request::Add { cmd, dir, git, exit, session, prev, prev2, timestamp, hour } => Action::Record {
            cmd,
            dir,
            git,
            exit,
            session,
            prev,
            prev2,
            timestamp,
            hour,
        },
        Request::Suggest { prefix, prev, prev2, dir, env, count, plain } => Action::Suggest {
            prefix,
            prev,
            prev2,
            dir,
            env,
            limit: match count {
                Some(n) => n,
                None => 5,
            },
            plain: match plain {
                Some(b) => b,
                None => false,
            },
        },
        Request::Shutdown => Action::Shutdown,
    }
}

/// Decide what the daemon does with a request.
pub fn plan_request(req: Request) -> (r: Action)
    ensures
        r == action_for(req),
{
    match req {
        Request::Ping => Action::Reply(Response::Pong),
        Request::Add { cmd, dir, git, exit, session, prev, prev2, timestamp, hour } => Action::Record {
            cmd,
            dir,
            git,
            exit,
            session,
            prev,
            prev2,
            timestamp,
            hour,
        },
        Request::Suggest { prefix, prev, prev2, dir, env, count, plain } => Action::Suggest {
            prefix,
            prev,
            prev2,
            dir,
            env,
            limit: match count {
                Some(n) => n,
                None => 5,
            },
            plain: match plain {
                Some(b) => b,
                None => false,
            },
        },
        Request::Shutdown => Action::Shutdown,
    }
}

/// The strings of `s` joined with `'\n'` between them.
pub open spec fn join_lines(s: Seq<Seq<char>>) -> Seq<char>
    decreases s.len(),
{
    if s.len() == 0 {
        Seq::empty()
    } else if s.len() == 1 {
        s[0]
    } else {
        join_lines(s.drop_last()) + seq!['\n'] + s.last()
    }
}

/// The strings of `s` joined with `'\n'` between them.
pub fn join_with_newlines(s: &Vec<String>) -> (r: String)
    ensures
        r@ == join_lines(string_views(s@)),
{
    let ghost v = string_views(s@);
    let mut out = String::new();
    let mut i: usize = 0;
    while i < s.len()
        invariant
            i <= s.len(),
            v == string_views(s@),
            out@ == join_lines(v.take(i as int)),
        decreases s.len() - i,
    {
        assert(v.take(i + 1).drop_last() =~= v.take(i as int));
        if i > 0 {
            push_char(&mut out, '\n');
        }
        let ghost before = out@;
        let line = s[i].as_str();
        vstd::string::StringExecFns::append(&mut out, line);
        assert(v.take(i + 1).last() == s@[i as int]@);
        if i == 0 {
            assert(v.take(1) =~= seq![v[0]]);
        }
        i += 1;
    }
    assert(v.take(s.len() as int) =~= v);
    out
}

/// The reply to a suggestion request: the first `limit` commands, joined
/// with newlines where `plain` holds, else as a list.
pub fn suggestion_response(cmds: Vec<String>, limit: usize, plain: bool) -> (r: Response)
    ensures
        match r {
            Response::PlainText(t) => plain && t@ == join_lines(string_views(cmds@.take(
                if limit < cmds@.len() {
                    limit as int
                } else {
                    cmds@.len() as int
                },
            ))),
            Response::Suggestions(v) => !plain && v@ == cmds@.take(
                if limit < cmds@.len() {
                    limit as int
                } else {
                    cmds@.len() as int
                },
            ),
            _ => false,
        },
{
    let ghost all = cmds@;
    let ghost k = if limit < all.len() {
        limit as int
    } else {
        all.len() as int
    };
    let mut cmds = cmds;
    cmds.truncate(limit);
    assert(cmds@ =~= all.take(k));
    if plain {
        Response::PlainText(join_with_newlines(&cmds))
    } else {
        Response::Suggestions(cmds)
    }
}

/// The pauses, in milliseconds, between the attempts to reach a daemon
/// that is being started: doubling from 20, four in all (300 ms together).
pub fn retry_delays_ms() -> (r: Vec<u64>)
    ensures
        r@ == seq![20u64, 40u64, 80u64, 160u64],
{
    let mut r: Vec<u64> = Vec::new();
    r.push(20);
    r.push(40);
    r.push(80);
    r.push(160);
    r
}

/// Planning an added command queues it with every field under its own
/// name: the previous command stays `prev` and the one before it `prev2`.
pub proof fn lemma_add_keeps_fields(
    cmd: String,
    dir: Option<String>,
    git: Option<String>,
    exit: Option<i32>,
    session: Option<String>,
    prev: Option<String>,
    prev2: Option<String>,
    timestamp: i64,
    hour: u32,
)
    ensures
        action_for(Request::Add { cmd, dir, git, exit, session, prev, prev2, timestamp, hour })
            matches Action::Record {
            cmd: c,
            dir: d,
            git: g,
            exit: e,
            session: s,
            prev: p,
            prev2: p2,
            timestamp: t,
            hour: h,
        } && c == cmd && d == dir && g == git && e == exit && s == session && p == prev && p2
            == prev2 && t == timestamp && h == hour,
{
}

} // verus!
