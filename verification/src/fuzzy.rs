use vstd::prelude::*;
use vstd::utf8::{decode_utf8, encode_utf8, encode_utf8_decode_utf8, is_char_boundary};
use vstd::string::StringSliceAdditionalSpecFns;

use crate::base_command;
use crate::text::{
    append_range, chars_of, first_token, first_token_bounds, range_eq, string_from, string_views,
    views,
};

verus! {

/// The byte length of the UTF-8 encoding of `s` (`str::len`).
pub open spec fn byte_len(s: Seq<char>) -> nat {
    encode_utf8(s).len()
}

/// The text of `input` after its first token, cut at the byte offset that
/// the token's length gives (`&input[base.len()..]`).
pub open spec fn args_of(input: Seq<char>) -> Seq<char> {
    let bytes = encode_utf8(input);
    decode_utf8(bytes.subrange(byte_len(first_token(input)) as int, bytes.len() as int))
}

/// Whether that byte offset falls on a character boundary of `input`, so
/// that the cut is possible (it is where `input` has no leading whitespace);
/// the length of any string in memory fits in `usize`.
pub open spec fn args_cut_ok(input: Seq<char>) -> bool {
    &&& byte_len(input) <= usize::MAX
    &&& is_char_boundary(encode_utf8(input), byte_len(first_token(input)) as int)
}

/// `&input[base_command(input).len()..]`: what follows the first token.
pub fn args_after_base(input: &str) -> (r: &str)
    requires
        args_cut_ok(input@),
    ensures
        r@ == args_of(input@),
{
    broadcast use vstd::utf8::encode_utf8_valid_utf8;

    let base = base_command(input);
    let k = base.len();
    let (_, rest) = input.split_at(k);
    proof {
        encode_utf8_decode_utf8(rest@);
    }
    rest
}

/// The correction that keeps the user's arguments: where `input` holds a
/// space, `base` followed by what follows the input's first token.
pub open spec fn with_args(input: Seq<char>, base: Seq<char>) -> Seq<char> {
    if input.contains(' ') {
        base + args_of(input)
    } else {
        base
    }
}

/// `s` with the characters at `i` and `i + 1` swapped.
pub open spec fn swap_adjacent(s: Seq<char>, i: int) -> Seq<char> {
    s.update(i, s[i + 1]).update(i + 1, s[i])
}

/// Whether `t` is the base (first token) of one of `known`.
pub open spec fn is_known_base(known: Seq<Seq<char>>, t: Seq<char>) -> bool {
    exists|j: int| 0 <= j < known.len() && first_token(#[trigger] known[j]) == t
}

/// The first position `i` at or after `from` where swapping characters `i`
/// and `i + 1` of `b` gives a known base.
pub open spec fn transposition_from(b: Seq<char>, known: Seq<Seq<char>>, from: int) -> Option<int>
    decreases b.len() - from,
{
    if from < 0 || from + 1 >= b.len() {
        None
    } else if is_known_base(known, swap_adjacent(b, from)) {
        Some(from)
    } else {
        transposition_from(b, known, from + 1)
    }
}

/// The correction of a single transposition: the first swap of adjacent
/// characters of the input's base that yields a known base, with the
/// input's arguments kept.
pub open spec fn transposition_fix(input: Seq<char>, known: Seq<Seq<char>>) -> Option<Seq<char>> {
    let b = first_token(input);
    if b.len() < 2 {
        None
    } else {
        match transposition_from(b, known, 0) {
            Some(i) => Some(with_args(input, swap_adjacent(b, i))),
            None => None,
        }
    }
}

fn contains_space(v: &Vec<char>) -> (b: bool)
    ensures
        b == v@.contains(' '),
{
    let mut i: usize = 0;
    while i < v.len()
        invariant
            i <= v.len(),
            forall|j: int| 0 <= j < i ==> v@[j] != ' ',
        decreases v.len() - i,
    {
        if v[i] == ' ' {
            return true;
        }
        i += 1;
    }
    false
}

/// The characters of `base` followed by the input's arguments where the
/// input holds a space.
fn join_args(input: &str, iv: &Vec<char>, base: &Vec<char>) -> (r: String)
    requires
        iv@ == input@,
        input@.contains(' ') ==> args_cut_ok(input@),
    ensures
        r@ == with_args(input@, base@),
{
    if contains_space(iv) {
        let args = chars_of(args_after_base(input));
        let mut out: Vec<char> = Vec::new();
        append_range(&mut out, base, 0, base.len());
        append_range(&mut out, &args, 0, args.len());
        assert(base@.subrange(0, base@.len() as int) =~= base@);
        assert(args@.subrange(0, args@.len() as int) =~= args@);
        string_from(&out)
    } else {
        string_from(base)
    }
}

/// Check common transposition typos (`gti` for `git`): the first swap of
/// two adjacent characters of the input's base command that gives the base
/// of a known command; arguments typed after the base are kept.
pub fn check_transposition(input: &str, known_commands: &[String]) -> (r: Option<String>)
    requires
        transposition_fix(input@, string_views(known_commands@)) is Some && input@.contains(' ')
            ==> args_cut_ok(input@),
    ensures
        match r {
            None => transposition_fix(input@, string_views(known_commands@)) is None,
            Some(c) => transposition_fix(input@, string_views(known_commands@)) == Some(c@),
        },
{
    let ghost known = string_views(known_commands@);
    let iv = chars_of(input);
    let b = chars_of(base_command(input));
    if b.len() < 2 {
        return None;
    }
    let mut bases: Vec<Vec<char>> = Vec::new();
    let mut j: usize = 0;
    while j < known_commands.len()
        invariant
            j <= known_commands.len(),
            known == string_views(known_commands@),
            bases@.len() == j,
            forall|k: int| 0 <= k < j ==> #[trigger] bases@[k]@ == first_token(known[k]),
        decreases known_commands.len() - j,
    {
        let kb = chars_of(base_command(known_commands[j].as_str()));
        bases.push(kb);
        j += 1;
    }
    let mut i: usize = 0;
    while i + 1 < b.len()
        invariant
            b@ == first_token(input@),
            b.len() >= 2,
            i + 1 <= b.len(),
            bases@.len() == known.len(),
            forall|k: int| 0 <= k < known.len() ==> #[trigger] bases@[k]@ == first_token(known[k]),
            transposition_from(b@, known, 0) == transposition_from(b@, known, i as int),
            iv@ == input@,
            known == string_views(known_commands@),
            transposition_fix(input@, known) is Some && input@.contains(' ') ==> args_cut_ok(
                input@,
            ),
        decreases b.len() - i,
    {
        let mut attempt = b.clone();
        let x = attempt[i];
        let y = attempt[i + 1];
        attempt.set(i, y);
        attempt.set(i + 1, x);
        assert(attempt@ =~= swap_adjacent(b@, i as int));
        let mut found = false;
        let mut k: usize = 0;
        while k < bases.len()
            invariant
                k <= bases.len(),
                bases@.len() == known.len(),
                forall|m: int| 0 <= m < known.len() ==> #[trigger] bases@[m]@ == first_token(known[m]),
                found ==> is_known_base(known, attempt@),
                !found ==> forall|m: int| 0 <= m < k ==> first_token(#[trigger] known[m]) != attempt@,
            decreases bases.len() - k,
        {
            if range_eq(&bases[k], 0, bases[k].len(), &attempt) {
                assert(bases@[k as int]@.subrange(0, bases@[k as int]@.len() as int) =~= bases@[k as int]@);
                assert(first_token(known[k as int]) == attempt@);
                found = true;
            } else {
                assert(bases@[k as int]@.subrange(0, bases@[k as int]@.len() as int) =~= bases@[k as int]@);
            }
            k += 1;
        }
        if found {
            assert(transposition_from(b@, known, i as int) == Some(i as int));
            assert(transposition_fix(input@, known) == Some(with_args(input@, attempt@)));
            let c = join_args(input, &iv, &attempt);
            return Some(c);
        }
        i += 1;
    }
    None
}

proof fn lemma_transposition_from(b: Seq<char>, known: Seq<Seq<char>>, from: int)
    requires
        0 <= from,
    ensures
        transposition_from(b, known, from) matches Some(i) ==> from <= i && i + 1 < b.len()
            && is_known_base(known, swap_adjacent(b, i)),
        transposition_from(b, known, from) is None ==> forall|i: int|
            from <= i && i + 1 < b.len() ==> !is_known_base(known, #[trigger] swap_adjacent(b, i)),
    decreases b.len() - from,
{
    if from + 1 < b.len() && !is_known_base(known, swap_adjacent(b, from)) {
        lemma_transposition_from(b, known, from + 1);
    }
}

/// A transposition correction starts with the input's base with two
/// adjacent characters swapped, and that is the base of a known command;
/// where none of these swaps is known, there is no correction.
pub proof fn lemma_transposition_fix_is_known_swap(input: Seq<char>, known: Seq<Seq<char>>)
    ensures
        transposition_fix(input, known) matches Some(c) ==> exists|i: int|
            0 <= i && i + 1 < first_token(input).len() && is_known_base(
                known,
                #[trigger] swap_adjacent(first_token(input), i),
            ) && c.take(first_token(input).len() as int) == swap_adjacent(first_token(input), i),
        transposition_fix(input, known) is None ==> forall|i: int|
            0 <= i && i + 1 < first_token(input).len() ==> !is_known_base(
                known,
                #[trigger] swap_adjacent(first_token(input), i),
            ),
{
    let b = first_token(input);
    lemma_transposition_from(b, known, 0);
    if let Some(i) = transposition_from(b, known, 0) {
        if b.len() >= 2 {
            let t = swap_adjacent(b, i);
            let c = with_args(input, t);
            assert(c.take(b.len() as int) =~= t);
        }
    }
}

/// The correction text when `known` is the closest known command: the
/// whole known command where both carry arguments, the known base with
/// the user's arguments where only the input carries some, else the known
/// base alone.
pub open spec fn fuzzy_fix(input: Seq<char>, known: Seq<char>) -> Seq<char> {
    let kb = first_token(known);
    if input.contains(' ') && kb != known {
        known
    } else {
        with_args(input, kb)
    }
}

/// The text that a fuzzy correction of `input` to the known command `known`
/// suggests.
pub fn corrected_command(input: &str, known: &str) -> (r: String)
    requires
        input@.contains(' ') && first_token(known@) == known@ ==> args_cut_ok(input@),
    ensures
        r@ == fuzzy_fix(input@, known@),
{
    let iv = chars_of(input);
    let kv = chars_of(known);
    let kb = chars_of(base_command(known));
    let same = range_eq(&kv, 0, kv.len(), &kb);
    assert(kv@.subrange(0, kv@.len() as int) =~= kv@);
    if contains_space(&iv) && !same {
        return string_from(&kv);
    }
    join_args(input, &iv, &kb)
}

/// The (row, column) of a small letter on a QWERTY keyboard.
pub open spec fn key_position(c: char) -> Option<(usize, usize)> {
    match c {
        'q' => Some((0usize, 0usize)),
        'w' => Some((0, 1)),
        'e' => Some((0, 2)),
        'r' => Some((0, 3)),
        't' => Some((0, 4)),
        'y' => Some((0, 5)),
        'u' => Some((0, 6)),
        'i' => Some((0, 7)),
        'o' => Some((0, 8)),
        'p' => Some((0, 9)),
        'a' => Some((1, 0)),
        's' => Some((1, 1)),
        'd' => Some((1, 2)),
        'f' => Some((1, 3)),
        'g' => Some((1, 4)),
        'h' => Some((1, 5)),
        'j' => Some((1, 6)),
        'k' => Some((1, 7)),
        'l' => Some((1, 8)),
        'z' => Some((2, 0)),
        'x' => Some((2, 1)),
        'c' => Some((2, 2)),
        'v' => Some((2, 3)),
        'b' => Some((2, 4)),
        'n' => Some((2, 5)),
        'm' => Some((2, 6)),
        _ => None,
    }
}

/// The row and column of `c` in the QWERTY rows `qwertyuiop`, `asdfghjkl`
/// and `zxcvbnm`, or `None` for any other character.
pub fn qwerty_position(c: char) -> (r: Option<(usize, usize)>)
    ensures
        r == key_position(c),
{
    match c {
        'q' => Some((0, 0)),
        'w' => Some((0, 1)),
        'e' => Some((0, 2)),
        'r' => Some((0, 3)),
        't' => Some((0, 4)),
        'y' => Some((0, 5)),
        'u' => Some((0, 6)),
        'i' => Some((0, 7)),
        'o' => Some((0, 8)),
        'p' => Some((0, 9)),
        'a' => Some((1, 0)),
        's' => Some((1, 1)),
        'd' => Some((1, 2)),
        'f' => Some((1, 3)),
        'g' => Some((1, 4)),
        'h' => Some((1, 5)),
        'j' => Some((1, 6)),
        'k' => Some((1, 7)),
        'l' => Some((1, 8)),
        'z' => Some((2, 0)),
        'x' => Some((2, 1)),
        'c' => Some((2, 2)),
        'v' => Some((2, 3)),
        'b' => Some((2, 4)),
        'n' => Some((2, 5)),
        'm' => Some((2, 6)),
        _ => None,
    }
}

/// Whenever swapping two adjacent characters of the input's base gives the
/// base of any known command, wherever it stands in the list, a
/// transposition correction is found.
pub proof fn lemma_known_swap_is_corrected(
    input: Seq<char>,
    known: Seq<Seq<char>>,
    i: int,
    j: int,
)
    requires
        0 <= i,
        i + 1 < first_token(input).len(),
        0 <= j < known.len(),
        first_token(known[j]) == swap_adjacent(first_token(input), i),
    ensures
        transposition_fix(input, known) is Some,
{
    let b = first_token(input);
    assert(is_known_base(known, swap_adjacent(b, i)));
    lemma_transposition_from(b, known, 0);
}

} // verus!
