use vstd::prelude::*;

use crate::text::{
    chars_of, ends_with_char, lemma_lines_concat, lemma_lines_no_newline, lemma_lines_single, lines,
    push_char, range_eq, split_lines, trim, trim_bounds, views,
};

verus! {

/// Whether a line, once trimmed, is one of the lines that load the shell
/// integration (`eval "$(shellsense init zsh)"`, the same for bash, or
/// `shellsense init fish | source`).
pub open spec fn is_loader_line(line: Seq<char>) -> bool {
    let t = trim(line);
    ||| t == "eval \"$(shellsense init zsh)\""@
    ||| t == "eval \"$(shellsense init bash)\""@
    ||| t == "shellsense init fish | source"@
}

/// The lines of `ls` that are not loader lines, each followed by `'\n'`.
pub open spec fn kept_text(ls: Seq<Seq<char>>) -> Seq<char>
    decreases ls.len(),
{
    if ls.len() == 0 {
        Seq::empty()
    } else if is_loader_line(ls.last()) {
        kept_text(ls.drop_last())
    } else {
        kept_text(ls.drop_last()) + ls.last().push('\n')
    }
}

/// Remove the lines that load the shell integration from a shell
/// configuration text; every other line is kept, in order, each ending
/// with `'\n'`.
pub fn remove_init_loader_lines(content: &str) -> (r: String)
    ensures
        r@ == kept_text(lines(content@)),
{
    let zsh = chars_of("eval \"$(shellsense init zsh)\"");
    let bash = chars_of("eval \"$(shellsense init bash)\"");
    let fish = chars_of("shellsense init fish | source");
    let v = chars_of(content);
    let ls = split_lines(&v);
    let mut filtered = String::new();
    let mut i: usize = 0;
    while i < ls.len()
        invariant
            i <= ls.len(),
            zsh@ == "eval \"$(shellsense init zsh)\""@,
            bash@ == "eval \"$(shellsense init bash)\""@,
            fish@ == "shellsense init fish | source"@,
            filtered@ == kept_text(views(ls@).take(i as int)),
        decreases ls.len() - i,
    {
        let line = &ls[i];
        let (a, b) = trim_bounds(line);
        let is_loader = range_eq(line, a, b, &zsh) || range_eq(line, a, b, &bash) || range_eq(
            line,
            a,
            b,
            &fish,
        );
        assert(views(ls@).take(i + 1).drop_last() =~= views(ls@).take(i as int));
        assert(views(ls@).take(i + 1).last() == line@);
        if !is_loader {
            let ghost before = filtered@;
            let mut j: usize = 0;
            while j < line.len()
                invariant
                    j <= line.len(),
                    filtered@ == before + line@.take(j as int),
                decreases line.len() - j,
            {
                push_char(&mut filtered, line[j]);
                assert(line@.take(j + 1) =~= line@.take(j as int).push(line@[j as int]));
                j += 1;
            }
            push_char(&mut filtered, '\n');
            assert(line@.take(line.len() as int) =~= line@);
        }
        i += 1;
    }
    assert(views(ls@).take(ls.len() as int) =~= views(ls@));
    filtered
}


/// The lines of `ls` that are not loader lines, in order.
pub open spec fn kept_lines(ls: Seq<Seq<char>>) -> Seq<Seq<char>>
    decreases ls.len(),
{
    if ls.len() == 0 {
        Seq::empty()
    } else if is_loader_line(ls.last()) {
        kept_lines(ls.drop_last())
    } else {
        kept_lines(ls.drop_last()).push(ls.last())
    }
}

proof fn lemma_kept_text_ends_in_newline(ls: Seq<Seq<char>>)
    ensures
        kept_text(ls).len() > 0 ==> kept_text(ls).last() == '\n',
    decreases ls.len(),
{
    if ls.len() > 0 {
        lemma_kept_text_ends_in_newline(ls.drop_last());
    }
}

proof fn lemma_lines_of_kept_text(ls: Seq<Seq<char>>)
    requires
        forall|k: int| 0 <= k < ls.len() ==> !(#[trigger] ls[k]).contains('\n') && !ends_with_char(ls[k], '\r'),
    ensures
        lines(kept_text(ls)) == kept_lines(ls),
    decreases ls.len(),
{
    if ls.len() > 0 {
        let pre = ls.drop_last();
        assert forall|k: int| 0 <= k < pre.len() implies !(#[trigger] pre[k]).contains('\n')
            && !ends_with_char(pre[k], '\r') by {
            assert(pre[k] == ls[k]);
        }
        lemma_lines_of_kept_text(pre);
        let l = ls.last();
        assert(l == ls[ls.len() - 1]);
        if !is_loader_line(l) {
            lemma_kept_text_ends_in_newline(pre);
            lemma_lines_concat(kept_text(pre), l.push('\n'));
            lemma_lines_single(l);
        }
    }
}

proof fn lemma_kept_text_of_kept_lines(ls: Seq<Seq<char>>)
    ensures
        kept_text(kept_lines(ls)) == kept_text(ls),
    decreases ls.len(),
{
    if ls.len() > 0 {
        lemma_kept_text_of_kept_lines(ls.drop_last());
        if !is_loader_line(ls.last()) {
            let k = kept_lines(ls.drop_last()).push(ls.last());
            assert(k.drop_last() =~= kept_lines(ls.drop_last()));
        }
    }
}

/// Removing the loader lines twice removes nothing more, for text whose
/// lines do not end in a carriage return (such a `'\r'` is taken as part
/// of a line ending once the line is written back with `'\n'`).
pub proof fn lemma_remove_loader_lines_idempotent(content: Seq<char>)
    requires
        forall|k: int| 0 <= k < lines(content).len() ==> !ends_with_char(
            #[trigger] lines(content)[k],
            '\r',
        ),
    ensures
        kept_text(lines(kept_text(lines(content)))) == kept_text(lines(content)),
        forall|k: int| 0 <= k < lines(kept_text(lines(content))).len() ==> !is_loader_line(
            #[trigger] lines(kept_text(lines(content)))[k],
        ),
{
    let ls = lines(content);
    lemma_lines_no_newline(content);
    lemma_lines_of_kept_text(ls);
    lemma_kept_text_of_kept_lines(ls);
    lemma_kept_lines_no_loader(ls);
}

proof fn lemma_kept_lines_no_loader(ls: Seq<Seq<char>>)
    ensures
        forall|k: int| 0 <= k < kept_lines(ls).len() ==> !is_loader_line(#[trigger] kept_lines(ls)[k]),
    decreases ls.len(),
{
    if ls.len() > 0 {
        lemma_kept_lines_no_loader(ls.drop_last());
        let pre = kept_lines(ls.drop_last());
        if !is_loader_line(ls.last()) {
            assert forall|k: int| 0 <= k < kept_lines(ls).len() implies !is_loader_line(
                #[trigger] kept_lines(ls)[k],
            ) by {
                if k < pre.len() {
                    assert(kept_lines(ls)[k] == pre[k]);
                }
            }
        }
    }
}

} // verus!
