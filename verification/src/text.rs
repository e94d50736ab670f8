use vstd::prelude::*;

verus! {

/// The Unicode `White_Space` property, which `char::is_whitespace` tests.
pub open spec fn is_ws(c: char) -> bool {
    let u = c as u32;
    ||| 0x09 <= u <= 0x0d
    ||| u == 0x20
    ||| u == 0x85
    ||| u == 0xa0
    ||| u == 0x1680
    ||| 0x2000 <= u <= 0x200a
    ||| u == 0x2028
    ||| u == 0x2029
    ||| u == 0x202f
    ||| u == 0x205f
    ||| u == 0x3000
}

/// Whether `c` is whitespace in the sense of `char::is_whitespace`.
pub fn is_whitespace(c: char) -> (b: bool)
    ensures
        b == is_ws(c),
{
    let u = c as u32;
    (0x09 <= u && u <= 0x0d) || u == 0x20 || u == 0x85 || u == 0xa0 || u == 0x1680 || (0x2000 <= u
        && u <= 0x200a) || u == 0x2028 || u == 0x2029 || u == 0x202f || u == 0x205f || u == 0x3000
}

/// The characters of a string slice, in order.
pub fn chars_of(s: &str) -> (v: Vec<char>)
    ensures
        v@ == s@,
{
    let mut v: Vec<char> = Vec::new();
    for c in it: s.chars()
        invariant
            v@ == it.seq().take(it.index() as int),
    {
        v.push(c);
    }
    v
}


/// `String::push` from std: appends one character.
#[verifier::external_body]
pub(crate) fn push_char(s: &mut String, c: char)
    ensures
        final(s)@ == old(s)@.push(c),
{
    s.push(c);
}

/// A new string holding the characters `v[from..to]`.
pub fn string_of(v: &Vec<char>, from: usize, to: usize) -> (r: String)
    requires
        from <= to <= v.len(),
    ensures
        r@ == v@.subrange(from as int, to as int),
{
    let mut r = String::new();
    let mut i = from;
    while i < to
        invariant
            from <= i <= to <= v.len(),
            r@ == v@.subrange(from as int, i as int),
        decreases to - i,
    {
        push_char(&mut r, v[i]);
        i += 1;
    }
    r
}

/// First index at or after `i` that holds no whitespace (or the length).
pub open spec fn skip_ws(s: Seq<char>, i: int) -> int
    decreases s.len() - i,
{
    if i < 0 || i >= s.len() {
        i
    } else if is_ws(s[i]) {
        skip_ws(s, i + 1)
    } else {
        i
    }
}

/// First index at or after `i` that holds whitespace (or the length).
pub open spec fn skip_non_ws(s: Seq<char>, i: int) -> int
    decreases s.len() - i,
{
    if i < 0 || i >= s.len() {
        i
    } else if !is_ws(s[i]) {
        skip_non_ws(s, i + 1)
    } else {
        i
    }
}

/// What `split_whitespace().next().unwrap_or(s)` gives: the first
/// whitespace-delimited token, or `s` itself where there is none.
pub open spec fn first_token(s: Seq<char>) -> Seq<char> {
    let a = skip_ws(s, 0);
    if a >= s.len() {
        s
    } else {
        s.subrange(a, skip_non_ws(s, a))
    }
}

pub proof fn lemma_skip_ws(s: Seq<char>, i: int)
    requires
        0 <= i <= s.len(),
    ensures
        i <= skip_ws(s, i) <= s.len(),
        forall|j: int| i <= j < skip_ws(s, i) ==> is_ws(#[trigger] s[j]),
        skip_ws(s, i) < s.len() ==> !is_ws(s[skip_ws(s, i)]),
    decreases s.len() - i,
{
    if i < s.len() && is_ws(s[i]) {
        lemma_skip_ws(s, i + 1);
    }
}

pub proof fn lemma_skip_non_ws(s: Seq<char>, i: int)
    requires
        0 <= i <= s.len(),
    ensures
        i <= skip_non_ws(s, i) <= s.len(),
        forall|j: int| i <= j < skip_non_ws(s, i) ==> !is_ws(#[trigger] s[j]),
        skip_non_ws(s, i) < s.len() ==> is_ws(s[skip_non_ws(s, i)]),
    decreases s.len() - i,
{
    if i < s.len() && !is_ws(s[i]) {
        lemma_skip_non_ws(s, i + 1);
    }
}

/// Index of the first non-whitespace character at or after `from`.
pub fn skip_whitespace(v: &Vec<char>, from: usize) -> (r: usize)
    requires
        from <= v.len(),
    ensures
        r == skip_ws(v@, from as int),
{
    let mut i = from;
    while i < v.len() && is_whitespace(v[i])
        invariant
            from <= i <= v.len(),
            skip_ws(v@, i as int) == skip_ws(v@, from as int),
        decreases v.len() - i,
    {
        i += 1;
    }
    i
}

/// Index of the first whitespace character at or after `from`.
pub fn skip_non_whitespace(v: &Vec<char>, from: usize) -> (r: usize)
    requires
        from <= v.len(),
    ensures
        r == skip_non_ws(v@, from as int),
{
    let mut i = from;
    while i < v.len() && !is_whitespace(v[i])
        invariant
            from <= i <= v.len(),
            skip_non_ws(v@, i as int) == skip_non_ws(v@, from as int),
        decreases v.len() - i,
    {
        i += 1;
    }
    i
}

/// Char bounds `(a, b)` of the first token, when there is one.
pub fn first_token_bounds(v: &Vec<char>) -> (r: Option<(usize, usize)>)
    ensures
        match r {
            None => skip_ws(v@, 0) >= v@.len(),
            Some((a, b)) => {
                &&& a == skip_ws(v@, 0) < v@.len()
                &&& b == skip_non_ws(v@, a as int)
                &&& a < b <= v@.len()
                &&& first_token(v@) == v@.subrange(a as int, b as int)
            },
        },
{
    let a = skip_whitespace(v, 0);
    if a >= v.len() {
        return None;
    }
    let b = skip_non_whitespace(v, a);
    proof {
        lemma_skip_ws(v@, 0);
        lemma_skip_non_ws(v@, a as int);
    }
    Some((a, b))
}


/// Index of the first `c` at or after `i` (or the length).
pub open spec fn find_from(s: Seq<char>, c: char, i: int) -> int
    decreases s.len() - i,
{
    if i < 0 || i >= s.len() {
        i
    } else if s[i] == c {
        i
    } else {
        find_from(s, c, i + 1)
    }
}

pub proof fn lemma_find_from(s: Seq<char>, c: char, i: int)
    requires
        0 <= i <= s.len(),
    ensures
        i <= find_from(s, c, i) <= s.len(),
        forall|j: int| i <= j < find_from(s, c, i) ==> #[trigger] s[j] != c,
        find_from(s, c, i) < s.len() ==> s[find_from(s, c, i)] == c,
    decreases s.len() - i,
{
    if i < s.len() && s[i] != c {
        lemma_find_from(s, c, i + 1);
    }
}

/// The first `c` at or after `i` is the one at `k`, where no `c` comes between.
pub proof fn lemma_find_from_at(s: Seq<char>, c: char, i: int, k: int)
    requires
        0 <= i <= k < s.len(),
        s[k] == c,
        forall|j: int| i <= j < k ==> #[trigger] s[j] != c,
    ensures
        find_from(s, c, i) == k,
    decreases k - i,
{
    if i < k {
        lemma_find_from_at(s, c, i + 1, k);
    }
}

/// Index of the first `c` at or after `from` (or the length).
pub fn find_char(v: &Vec<char>, c: char, from: usize) -> (r: usize)
    requires
        from <= v.len(),
    ensures
        r == find_from(v@, c, from as int),
        from <= r <= v.len(),
{
    let mut i = from;
    while i < v.len() && v[i] != c
        invariant
            from <= i <= v.len(),
            find_from(v@, c, i as int) == find_from(v@, c, from as int),
        decreases v.len() - i,
    {
        i += 1;
    }
    proof {
        lemma_find_from(v@, c, from as int);
    }
    i
}

/// A line as `str::lines` yields it: a `'\r'` before the `'\n'` is dropped.
pub open spec fn strip_cr(t: Seq<char>) -> Seq<char> {
    if t.len() > 0 && t.last() == '\r' {
        t.drop_last()
    } else {
        t
    }
}

/// The lines of `s[i..]` as `str::lines` yields them: split after each
/// `'\n'`, which is dropped with a `'\r'` before it; a final line without
/// `'\n'` is kept as it is, and nothing follows a final `'\n'`.
pub open spec fn lines_from(s: Seq<char>, i: int) -> Seq<Seq<char>>
    decreases s.len() - i,
{
    if i < 0 || i >= s.len() {
        Seq::empty()
    } else {
        let k = find_from(s, '\n', i);
        if k < i || k >= s.len() {
            seq![s.subrange(i, s.len() as int)]
        } else {
            seq![strip_cr(s.subrange(i, k))] + lines_from(s, k + 1)
        }
    }
}

proof fn lemma_find_shift(x: Seq<char>, y: Seq<char>, c: char, j: int)
    requires
        0 <= j <= y.len(),
    ensures
        find_from(x + y, c, x.len() + j) == x.len() + find_from(y, c, j),
    decreases y.len() - j,
{
    if j < y.len() {
        assert((x + y)[x.len() + j] == y[j]);
        if y[j] != c {
            lemma_find_shift(x, y, c, j + 1);
        }
    }
}

proof fn lemma_find_prefix(x: Seq<char>, y: Seq<char>, c: char, i: int)
    requires
        0 <= i <= x.len(),
        find_from(x, c, i) < x.len(),
    ensures
        find_from(x + y, c, i) == find_from(x, c, i),
    decreases x.len() - i,
{
    assert((x + y)[i] == x[i]);
    if x[i] != c {
        lemma_find_prefix(x, y, c, i + 1);
    }
}

proof fn lemma_lines_shift(x: Seq<char>, y: Seq<char>, j: int)
    requires
        0 <= j <= y.len(),
    ensures
        lines_from(x + y, x.len() + j) == lines_from(y, j),
    decreases y.len() - j,
{
    if j < y.len() {
        let s = x + y;
        lemma_find_shift(x, y, '\n', j);
        lemma_find_from(y, '\n', j);
        let k = find_from(y, '\n', j);
        if k >= y.len() {
            assert(s.subrange(x.len() + j, s.len() as int) =~= y.subrange(j, y.len() as int));
        } else {
            assert(s.subrange(x.len() + j, x.len() + k) =~= y.subrange(j, k));
            lemma_lines_shift(x, y, k + 1);
        }
    }
}

proof fn lemma_lines_concat_from(x: Seq<char>, y: Seq<char>, i: int)
    requires
        0 <= i <= x.len(),
        x.len() > 0 ==> x.last() == '\n',
    ensures
        lines_from(x + y, i) == lines_from(x, i) + lines_from(y, 0),
    decreases x.len() - i,
{
    if i == x.len() {
        lemma_lines_shift(x, y, 0);
        assert(lines_from(x, i) + lines_from(y, 0) =~= lines_from(y, 0));
    } else {
        lemma_find_from(x, '\n', i);
        assert(x[x.len() - 1] == '\n');
        if find_from(x, '\n', i) >= x.len() {
            assert(x[x.len() - 1] != '\n');
        }
        let k = find_from(x, '\n', i);
        lemma_find_prefix(x, y, '\n', i);
        assert((x + y).subrange(i, k) =~= x.subrange(i, k));
        lemma_lines_concat_from(x, y, k + 1);
        assert(lines_from(x + y, i) == seq![strip_cr(x.subrange(i, k))] + lines_from(x + y, k + 1));
        assert(lines_from(x, i) == seq![strip_cr(x.subrange(i, k))] + lines_from(x, k + 1));
        assert(seq![strip_cr(x.subrange(i, k))] + (lines_from(x, k + 1) + lines_from(y, 0))
            =~= seq![strip_cr(x.subrange(i, k))] + lines_from(x, k + 1) + lines_from(y, 0));
    }
}

/// Text ending in a line break splits into its lines and those of what follows.
pub proof fn lemma_lines_concat(x: Seq<char>, y: Seq<char>)
    requires
        x.len() > 0 ==> x.last() == '\n',
    ensures
        lines(x + y) == lines(x) + lines(y),
{
    lemma_lines_concat_from(x, y, 0);
}

/// A line without a line break, nor a `'\r'` at its end, followed by a
/// line break, is that one line.
pub proof fn lemma_lines_single(l: Seq<char>)
    requires
        !l.contains('\n'),
        !ends_with_char(l, '\r'),
    ensures
        lines(l.push('\n')) == seq![l],
{
    let s = l.push('\n');
    assert forall|j: int| 0 <= j < l.len() implies #[trigger] s[j] != '\n' by {
        assert(s[j] == l[j]);
    }
    if l.len() == 0 {
        lemma_find_from_at(s, '\n', 0, 0);
    } else {
        lemma_find_from_at(s, '\n', 0, l.len() as int);
    }
    assert(s.subrange(0, l.len() as int) =~= l);
    assert(lines_from(s, l.len() as int + 1) == Seq::<Seq<char>>::empty());
    assert(seq![l] + Seq::<Seq<char>>::empty() =~= seq![l]);
}

proof fn lemma_lines_from_no_newline(s: Seq<char>, i: int)
    requires
        0 <= i <= s.len(),
    ensures
        forall|k: int| 0 <= k < lines_from(s, i).len() ==> !(#[trigger] lines_from(s, i)[k]).contains(
            '\n',
        ),
    decreases s.len() - i,
{
    if i < s.len() {
        lemma_find_from(s, '\n', i);
        let k = find_from(s, '\n', i);
        if k >= s.len() {
            let t = s.subrange(i, s.len() as int);
            assert forall|m: int| 0 <= m < t.len() implies t[m] != '\n' by {
                assert(t[m] == s[i + m]);
            }
        } else {
            lemma_lines_from_no_newline(s, k + 1);
            let t = s.subrange(i, k);
            assert forall|m: int| 0 <= m < strip_cr(t).len() implies strip_cr(t)[m] != '\n' by {
                assert(strip_cr(t)[m] == t[m]);
                assert(t[m] == s[i + m]);
            }
            let rest = lines_from(s, k + 1);
            assert forall|m: int| 0 <= m < lines_from(s, i).len() implies !(
            #[trigger] lines_from(s, i)[m]).contains('\n') by {
                if m > 0 {
                    assert(lines_from(s, i)[m] == rest[m - 1]);
                }
            }
        }
    }
}

/// No line holds a line break.
pub proof fn lemma_lines_no_newline(s: Seq<char>)
    ensures
        forall|k: int| 0 <= k < lines(s).len() ==> !(#[trigger] lines(s)[k]).contains('\n'),
{
    lemma_lines_from_no_newline(s, 0);
}

/// The lines of `s`, as `str::lines` yields them.
pub open spec fn lines(s: Seq<char>) -> Seq<Seq<char>> {
    lines_from(s, 0)
}

/// The character sequences that a list of character vectors holds.
pub open spec fn views(s: Seq<Vec<char>>) -> Seq<Seq<char>> {
    s.map_values(|l: Vec<char>| l@)
}

/// The lines of `v`, as `str::lines` yields them.
pub fn split_lines(v: &Vec<char>) -> (r: Vec<Vec<char>>)
    ensures
        views(r@) == lines(v@),
{
    let mut out: Vec<Vec<char>> = Vec::new();
    let mut i: usize = 0;
    while i < v.len()
        invariant
            i <= v.len(),
            lines(v@) == views(out@) + lines_from(v@, i as int),
        decreases v.len() - i,
    {
        let k = find_char(v, '\n', i);
        let ghost old_out = views(out@);
        if k >= v.len() {
            let mut line: Vec<char> = Vec::new();
            let mut j = i;
            while j < v.len()
                invariant
                    i <= j <= v.len(),
                    line@ == v@.subrange(i as int, j as int),
                decreases v.len() - j,
            {
                line.push(v[j]);
                j += 1;
            }
            out.push(line);
            assert(views(out@) =~= old_out + seq![v@.subrange(i as int, v.len() as int)]);
            assert(lines_from(v@, v.len() as int) == Seq::<Seq<char>>::empty());
            i = v.len();
        } else {
            let mut end = k;
            if end > i && v[end - 1] == '\r' {
                end = end - 1;
            }
            let mut line: Vec<char> = Vec::new();
            let mut j = i;
            while j < end
                invariant
                    i <= j <= end <= v.len(),
                    line@ == v@.subrange(i as int, j as int),
                decreases end - j,
            {
                line.push(v[j]);
                j += 1;
            }
            assert(line@ == strip_cr(v@.subrange(i as int, k as int)));
            out.push(line);
            assert(views(out@) =~= old_out + seq![strip_cr(v@.subrange(i as int, k as int))]);
            i = k + 1;
        }
    }
    assert(views(out@) + Seq::<Seq<char>>::empty() == views(out@));
    out
}


/// Index just past the last non-whitespace character before `j` (or 0).
pub open spec fn rskip_ws(s: Seq<char>, j: int) -> int
    decreases j,
{
    if j <= 0 || j > s.len() {
        j
    } else if is_ws(s[j - 1]) {
        rskip_ws(s, j - 1)
    } else {
        j
    }
}

pub proof fn lemma_rskip_ws(s: Seq<char>, j: int)
    requires
        0 <= j <= s.len(),
    ensures
        0 <= rskip_ws(s, j) <= j,
        forall|k: int| rskip_ws(s, j) <= k < j ==> is_ws(#[trigger] s[k]),
        rskip_ws(s, j) > 0 ==> !is_ws(s[rskip_ws(s, j) - 1]),
    decreases j,
{
    if j > 0 && is_ws(s[j - 1]) {
        lemma_rskip_ws(s, j - 1);
    }
}

/// `str::trim`: `s` without its leading and trailing whitespace.
pub open spec fn trim(s: Seq<char>) -> Seq<char> {
    let a = skip_ws(s, 0);
    if a >= s.len() {
        Seq::empty()
    } else {
        s.subrange(a, rskip_ws(s, s.len() as int))
    }
}

/// Char bounds of `trim(v)` within `v`.
pub fn trim_bounds(v: &Vec<char>) -> (r: (usize, usize))
    ensures
        r.0 <= r.1 <= v.len(),
        v@.subrange(r.0 as int, r.1 as int) == trim(v@),
{
    let a = skip_whitespace(v, 0);
    proof {
        lemma_skip_ws(v@, 0);
        lemma_rskip_ws(v@, v@.len() as int);
    }
    if a >= v.len() {
        return (0, 0);
    }
    let mut b = v.len();
    while b > 0 && is_whitespace(v[b - 1])
        invariant
            a < v.len(),
            0 <= b <= v.len(),
            rskip_ws(v@, b as int) == rskip_ws(v@, v@.len() as int),
            !is_ws(v@[a as int]),
            a < b,
        decreases b,
    {
        b -= 1;
    }
    (a, b)
}

/// Whether `v[from..to]` equals `w`.
pub fn range_eq(v: &Vec<char>, from: usize, to: usize, w: &Vec<char>) -> (b: bool)
    requires
        from <= to <= v.len(),
    ensures
        b == (v@.subrange(from as int, to as int) == w@),
{
    if to - from != w.len() {
        return false;
    }
    let mut i: usize = 0;
    while i < w.len()
        invariant
            from <= to <= v.len(),
            to - from == w.len(),
            i <= w.len(),
            forall|k: int| 0 <= k < i ==> v@[from + k] == w@[k],
        decreases w.len() - i,
    {
        if v[from + i] != w[i] {
            assert(v@.subrange(from as int, to as int)[i as int] != w@[i as int]);
            return false;
        }
        i += 1;
    }
    assert(v@.subrange(from as int, to as int) =~= w@);
    true
}


/// `s` with every trailing `c` removed (`trim_end_matches(c)`).
pub open spec fn strip_trailing(s: Seq<char>, c: char) -> Seq<char>
    decreases s.len(),
{
    if s.len() > 0 && s.last() == c {
        strip_trailing(s.drop_last(), c)
    } else {
        s
    }
}

/// `s` with every leading `c` removed (`trim_start_matches(c)`).
pub open spec fn strip_leading(s: Seq<char>, c: char) -> Seq<char>
    decreases s.len(),
{
    if s.len() > 0 && s[0] == c {
        strip_leading(s.drop_first(), c)
    } else {
        s
    }
}

/// Whether `s` begins with `p`.
pub open spec fn starts_with(s: Seq<char>, p: Seq<char>) -> bool {
    p.len() <= s.len() && s.take(p.len() as int) == p
}

/// Whether `s` ends with `c`.
pub open spec fn ends_with_char(s: Seq<char>, c: char) -> bool {
    s.len() > 0 && s.last() == c
}

/// End index of `strip_trailing(v[from..to], c)` within `v`.
pub fn trailing_start(v: &Vec<char>, from: usize, to: usize, c: char) -> (r: usize)
    requires
        from <= to <= v.len(),
    ensures
        from <= r <= to,
        v@.subrange(from as int, r as int) == strip_trailing(v@.subrange(from as int, to as int), c),
{
    let mut j = to;
    while j > from && v[j - 1] == c
        invariant
            from <= j <= to <= v.len(),
            strip_trailing(v@.subrange(from as int, j as int), c) == strip_trailing(
                v@.subrange(from as int, to as int),
                c,
            ),
        decreases j,
    {
        assert(v@.subrange(from as int, j as int).drop_last() =~= v@.subrange(
            from as int,
            j - 1,
        ));
        j -= 1;
    }
    j
}

/// Start index of `strip_leading(v[from..to], c)` within `v`.
pub fn leading_end(v: &Vec<char>, from: usize, to: usize, c: char) -> (r: usize)
    requires
        from <= to <= v.len(),
    ensures
        from <= r <= to,
        v@.subrange(r as int, to as int) == strip_leading(v@.subrange(from as int, to as int), c),
{
    let mut j = from;
    while j < to && v[j] == c
        invariant
            from <= j <= to <= v.len(),
            strip_leading(v@.subrange(j as int, to as int), c) == strip_leading(
                v@.subrange(from as int, to as int),
                c,
            ),
        decreases to - j,
    {
        assert(v@.subrange(j as int, to as int).drop_first() =~= v@.subrange(j + 1, to as int));
        j += 1;
    }
    j
}

/// Whether `v` begins with `p`.
pub fn has_prefix(v: &Vec<char>, p: &Vec<char>) -> (b: bool)
    ensures
        b == starts_with(v@, p@),
{
    if p.len() > v.len() {
        return false;
    }
    let b = range_eq(v, 0, p.len(), p);
    assert(v@.take(p@.len() as int) =~= v@.subrange(0, p@.len() as int));
    b
}

/// Appends `src[from..to]` to `dst`.
pub fn append_range(dst: &mut Vec<char>, src: &Vec<char>, from: usize, to: usize)
    requires
        from <= to <= src.len(),
    ensures
        final(dst)@ == old(dst)@ + src@.subrange(from as int, to as int),
{
    let mut i = from;
    while i < to
        invariant
            from <= i <= to <= src.len(),
            dst@ == old(dst)@ + src@.subrange(from as int, i as int),
        decreases to - i,
    {
        dst.push(src[i]);
        assert(src@.subrange(from as int, i + 1) =~= src@.subrange(from as int, i as int).push(
            src@[i as int],
        ));
        i += 1;
    }
}

/// A new string holding all the characters of `v`.
pub fn string_from(v: &Vec<char>) -> (r: String)
    ensures
        r@ == v@,
{
    let r = string_of(v, 0, v.len());
    assert(v@.subrange(0, v@.len() as int) =~= v@);
    r
}


/// The character sequences that a list of strings holds.
pub open spec fn string_views(s: Seq<String>) -> Seq<Seq<char>> {
    s.map_values(|l: String| l@)
}

/// The characters of each string, in order.
pub fn char_lines(lines: &Vec<String>) -> (r: Vec<Vec<char>>)
    ensures
        views(r@) == string_views(lines@),
{
    let mut r: Vec<Vec<char>> = Vec::new();
    let mut i: usize = 0;
    while i < lines.len()
        invariant
            i <= lines.len(),
            views(r@) == string_views(lines@).take(i as int),
        decreases lines.len() - i,
    {
        let c = chars_of(lines[i].as_str());
        let ghost old_r = r@;
        r.push(c);
        assert(views(r@) =~= views(old_r).push(c@));
        assert(views(r@) =~= string_views(lines@).take(i + 1));
        i += 1;
    }
    assert(string_views(lines@).take(lines.len() as int) =~= string_views(lines@));
    r
}


/// `char::to_ascii_lowercase`: ASCII capitals become small letters.
pub open spec fn ascii_lower(c: char) -> char {
    if 'A' <= c <= 'Z' {
        ((c as u32) + 32) as char
    } else {
        c
    }
}

/// Whether every character of `s` is ASCII.
pub open spec fn all_ascii(s: Seq<char>) -> bool {
    forall|i: int| 0 <= i < s.len() ==> (#[trigger] s[i] as u32) < 128
}

/// `s` with each ASCII capital made small, one character for one.
pub open spec fn ascii_lower_seq(s: Seq<char>) -> Seq<char> {
    s.map_values(|c: char| ascii_lower(c))
}

/// What `str::to_lowercase` gives for `s`: the full Unicode lowercase
/// mapping, one or more characters for each character of `s`.
pub uninterp spec fn lowercase(s: Seq<char>) -> Seq<char>;

/// `str::to_lowercase` from std. Its result is named by `lowercase`; each
/// character maps to at least one character, so the result is no shorter
/// than `s` and is empty exactly when `s` is. In the Unicode tables the
/// ASCII characters map one for one, capitals to small letters and the
/// rest to themselves, so an ASCII string lowercases as
/// `to_ascii_lowercase` does. Which characters the mapping gives outside
/// ASCII is not stated.
#[verifier::external_body]
pub(crate) fn to_lowercase(s: &str) -> (r: String)
    ensures
        r@ == lowercase(s@),
        r@.len() >= s@.len(),
        s@.len() == 0 ==> r@.len() == 0,
        all_ascii(s@) ==> r@ == ascii_lower_seq(s@),
{
    s.to_lowercase()
}

/// Whether `n` occurs in `h` as a contiguous run.
pub open spec fn contains_seq(h: Seq<char>, n: Seq<char>) -> bool {
    exists|i: int| 0 <= i && i + n.len() <= h.len() && #[trigger] h.subrange(i, i + n.len()) == n
}

/// Whether `n` occurs in `h` (`str::contains` with a string pattern).
pub fn contains_chars(h: &Vec<char>, n: &Vec<char>) -> (b: bool)
    ensures
        b == contains_seq(h@, n@),
{
    if n.len() > h.len() {
        return false;
    }
    let last = h.len() - n.len();
    let mut i: usize = 0;
    while i < last
        invariant
            last == h.len() - n.len(),
            n.len() <= h.len(),
            i <= last,
            forall|j: int| 0 <= j < i ==> #[trigger] h@.subrange(j, j + n@.len()) != n@,
        decreases last - i,
    {
        if range_eq(h, i, i + n.len(), n) {
            return true;
        }
        i += 1;
    }
    if range_eq(h, last, h.len(), n) {
        assert(h@.subrange(last as int, last + n@.len()) == n@);
        return true;
    }
    assert forall|j: int| 0 <= j && j + n@.len() <= h@.len() implies #[trigger] h@.subrange(
        j,
        j + n@.len(),
    ) != n@ by {
        if j < last {
        } else {
            assert(j == last);
        }
    }
    false
}


/// The whitespace-delimited tokens of `s[i..]` (`split_whitespace`).
pub open spec fn tokens_from(s: Seq<char>, i: int) -> Seq<Seq<char>>
    decreases s.len() - i,
{
    if i < 0 || i >= s.len() {
        Seq::empty()
    } else {
        let a = skip_ws(s, i);
        if a >= s.len() {
            Seq::empty()
        } else {
            let b = skip_non_ws(s, a);
            if b <= i || b > s.len() {
                Seq::empty()
            } else {
                seq![s.subrange(a, b)] + tokens_from(s, b)
            }
        }
    }
}

/// The whitespace-delimited tokens of `s` (`split_whitespace`).
pub open spec fn tokens(s: Seq<char>) -> Seq<Seq<char>> {
    tokens_from(s, 0)
}

/// The whitespace-delimited tokens of `v`.
pub fn split_tokens(v: &Vec<char>) -> (r: Vec<Vec<char>>)
    ensures
        views(r@) == tokens(v@),
{
    let mut out: Vec<Vec<char>> = Vec::new();
    let mut i: usize = 0;
    while i < v.len()
        invariant
            i <= v.len(),
            tokens(v@) == views(out@) + tokens_from(v@, i as int),
        decreases v.len() - i,
    {
        let a = skip_whitespace(v, i);
        proof {
            lemma_skip_ws(v@, i as int);
        }
        if a >= v.len() {
            assert(tokens_from(v@, i as int) == Seq::<Seq<char>>::empty());
            i = v.len();
        } else {
            let b = skip_non_whitespace(v, a);
            proof {
                lemma_skip_non_ws(v@, a as int);
            }
            let mut t: Vec<char> = Vec::new();
            append_range(&mut t, v, a, b);
            assert(t@ =~= v@.subrange(a as int, b as int));
            let ghost old_out = out@;
            out.push(t);
            assert(views(out@) =~= views(old_out).push(v@.subrange(a as int, b as int)));
            assert(tokens_from(v@, i as int) == seq![v@.subrange(a as int, b as int)] + tokens_from(
                v@,
                b as int,
            ));
            assert(views(out@) + tokens_from(v@, b as int) =~= views(old_out) + (seq![
                v@.subrange(a as int, b as int),
            ] + tokens_from(v@, b as int)));
            i = b;
        }
    }
    assert(tokens_from(v@, i as int) == Seq::<Seq<char>>::empty());
    assert(views(out@) + Seq::<Seq<char>>::empty() =~= views(out@));
    out
}

/// Whether `v` holds exactly the characters of `lit`.
pub fn eq_lit(v: &Vec<char>, lit: &str) -> (b: bool)
    ensures
        b == (v@ == lit@),
{
    let w = chars_of(lit);
    let b = range_eq(v, 0, v.len(), &w);
    assert(v@.subrange(0, v@.len() as int) =~= v@);
    b
}

} // verus!
