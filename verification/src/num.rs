use vstd::prelude::*;

verus! {

/// An ASCII decimal digit.
pub open spec fn is_digit(c: char) -> bool {
    '0' <= c <= '9'
}

/// The value of an ASCII decimal digit.
pub open spec fn digit_value(c: char) -> int {
    c as int - '0' as int
}

/// Whether every character of `s` is an ASCII decimal digit.
pub open spec fn all_digits(s: Seq<char>) -> bool {
    forall|i: int| 0 <= i < s.len() ==> is_digit(#[trigger] s[i])
}

/// The value of a string of decimal digits, most significant first.
pub open spec fn digits_value(s: Seq<char>) -> int
    decreases s.len(),
{
    if s.len() == 0 {
        0
    } else {
        digits_value(s.drop_last()) * 10 + digit_value(s.last())
    }
}

/// The integer that `s` denotes in the syntax that `i64::from_str` accepts:
/// an optional `'+'` or `'-'`, then one or more ASCII digits.
pub open spec fn parse_int(s: Seq<char>) -> Option<int> {
    if s.len() > 0 && (s[0] == '+' || s[0] == '-') {
        let d = s.drop_first();
        if d.len() > 0 && all_digits(d) {
            Some(
                if s[0] == '-' {
                    -digits_value(d)
                } else {
                    digits_value(d)
                },
            )
        } else {
            None
        }
    } else if s.len() > 0 && all_digits(s) {
        Some(digits_value(s))
    } else {
        None
    }
}

/// What `s.parse::<i64>().ok()` gives.
pub open spec fn parse_i64(s: Seq<char>) -> Option<i64> {
    match parse_int(s) {
        Some(v) => if i64::MIN <= v <= i64::MAX {
            Some(v as i64)
        } else {
            None
        },
        None => None,
    }
}

pub proof fn lemma_digits_value_nonneg(s: Seq<char>)
    requires
        all_digits(s),
    ensures
        digits_value(s) >= 0,
    decreases s.len(),
{
    if s.len() > 0 {
        assert(all_digits(s.drop_last())) by {
            assert forall|i: int| 0 <= i < s.drop_last().len() implies is_digit(
                #[trigger] s.drop_last()[i],
            ) by {
                assert(s.drop_last()[i] == s[i]);
            }
        }
        lemma_digits_value_nonneg(s.drop_last());
        assert(is_digit(s[s.len() - 1]));
    }
}

pub proof fn lemma_digits_value_grows(s: Seq<char>, c: char)
    requires
        all_digits(s),
        is_digit(c),
    ensures
        digits_value(s.push(c)) == digits_value(s) * 10 + digit_value(c),
        digits_value(s.push(c)) >= digits_value(s),
{
    assert(s.push(c).drop_last() =~= s);
    lemma_digits_value_nonneg(s);
}

/// `s[from..to]` parsed as `i64::from_str` parses it.
pub fn parse_i64_range(v: &Vec<char>, from: usize, to: usize) -> (r: Option<i64>)
    requires
        from <= to <= v.len(),
    ensures
        r == parse_i64(v@.subrange(from as int, to as int)),
{
    let ghost s = v@.subrange(from as int, to as int);
    if from == to {
        return None;
    }
    let mut start = from;
    let mut negative = false;
    if v[from] == '+' || v[from] == '-' {
        negative = v[from] == '-';
        start = from + 1;
        if start == to {
            return None;
        }
    }
    let ghost d = v@.subrange(start as int, to as int);
    assert(s[0] == '+' || s[0] == '-' ==> d =~= s.drop_first());
    assert(!(s[0] == '+' || s[0] == '-') ==> d =~= s);
    let limit: u128 = 9223372036854775808;
    let mut acc: u128 = 0;
    let mut over = false;
    let mut i = start;
    while i < to
        invariant
            start <= i <= to <= v.len(),
            d == v@.subrange(start as int, to as int),
            all_digits(v@.subrange(start as int, i as int)),
            !over ==> acc == digits_value(v@.subrange(start as int, i as int)),
            !over ==> acc <= limit,
            over ==> digits_value(v@.subrange(start as int, i as int)) > limit,
            limit == 9223372036854775808,
            s == v@.subrange(from as int, to as int),
            s.len() > 0,
            d.len() > 0,
            s[0] == '+' || s[0] == '-' ==> d == s.drop_first(),
            !(s[0] == '+' || s[0] == '-') ==> d == s,
            negative == (s[0] == '-'),
        decreases to - i,
    {
        let c = v[i];
        if !('0' <= c && c <= '9') {
            assert(d[i - start] == c);
            assert(!is_digit(d[i - start]));
            assert(!all_digits(d));
            return None;
        }
        let ghost pre = v@.subrange(start as int, i as int);
        assert(v@.subrange(start as int, i + 1) =~= pre.push(c));
        proof {
            lemma_digits_value_grows(pre, c);
        }
        if !over {
            let dv = (c as u32 - '0' as u32) as u128;
            let next = acc * 10 + dv;
            if next > limit {
                over = true;
            } else {
                acc = next;
            }
        }
        i += 1;
    }
    assert(v@.subrange(start as int, to as int) == d);
    if over {
        return None;
    }
    if negative {
        if acc == limit {
            Some(i64::MIN)
        } else {
            Some(-(acc as i64))
        }
    } else {
        if acc == limit {
            None
        } else {
            Some(acc as i64)
        }
    }
}


/// The ASCII digit for `d < 10`.
pub open spec fn digit_char(d: nat) -> char {
    (('0' as u32) + d) as char
}

/// The decimal rendering of `n`, without leading zeros (`n.to_string()`).
pub open spec fn render_nat(n: nat) -> Seq<char>
    decreases n,
{
    if n < 10 {
        seq![digit_char(n)]
    } else {
        render_nat(n / 10).push(digit_char(n % 10))
    }
}

/// `n.to_string()` for a `usize`.
pub fn usize_to_string(n: usize) -> (r: String)
    ensures
        r@ == render_nat(n as nat),
{
    let mut m = n;
    let mut suffix: Vec<char> = Vec::new();
    while m >= 10
        invariant
            render_nat(n as nat) == render_nat(m as nat) + suffix@,
        decreases m,
    {
        let d = m % 10;
        let c = ((d as u8) + 48u8) as char;
        assert(c == digit_char(d as nat));
        let ghost old_suffix = suffix@;
        suffix.insert(0, c);
        assert(render_nat(m as nat) == render_nat((m / 10) as nat).push(c));
        assert(render_nat((m / 10) as nat).push(c) + old_suffix =~= render_nat((m / 10) as nat)
            + suffix@);
        m = m / 10;
    }
    let c = ((m as u8) + 48u8) as char;
    assert(c == digit_char(m as nat));
    suffix.insert(0, c);
    assert(render_nat(m as nat) == seq![c]);
    assert(render_nat(n as nat) =~= suffix@);
    crate::text::string_from(&suffix)
}


/// The decimal rendering of `i` (`i.to_string()`), with a `'-'` when negative.
pub open spec fn render_int(i: int) -> Seq<char> {
    if i < 0 {
        seq!['-'] + render_nat((-i) as nat)
    } else {
        render_nat(i as nat)
    }
}

pub proof fn lemma_render_nat(n: nat)
    ensures
        render_nat(n).len() > 0,
        all_digits(render_nat(n)),
        digits_value(render_nat(n)) == n,
    decreases n,
{
    if n >= 10 {
        lemma_render_nat(n / 10);
        let r = render_nat(n / 10);
        let c = digit_char(n % 10);
        assert(render_nat(n) == r.push(c));
        assert(is_digit(c));
        assert forall|i: int| 0 <= i < r.push(c).len() implies is_digit(#[trigger] r.push(c)[i]) by {
            if i < r.len() {
                assert(r.push(c)[i] == r[i]);
            }
        }
        lemma_digits_value_grows(r, c);
        assert(digit_value(c) == n % 10);
    } else {
        let c = digit_char(n);
        assert(render_nat(n) == seq![c]);
        assert(seq![c].drop_last() =~= Seq::<char>::empty());
        assert(digits_value(seq![c]) == digits_value(Seq::<char>::empty()) * 10 + digit_value(c));
    }
}

/// Parsing the decimal rendering of an `i64` gives it back.
pub proof fn lemma_parse_render_i64(t: i64)
    ensures
        parse_i64(render_int(t as int)) == Some(t),
        forall|k: int| 0 <= k < render_int(t as int).len() ==> #[trigger] render_int(t as int)[k] != ':',
{
    if t < 0 {
        let r = render_nat((-t) as nat);
        lemma_render_nat((-t) as nat);
        let s = seq!['-'] + r;
        assert(s.drop_first() =~= r);
        assert(s[0] == '-');
        assert forall|k: int| 0 <= k < s.len() implies #[trigger] s[k] != ':' by {
            if k > 0 {
                assert(s[k] == r[k - 1]);
                assert(is_digit(r[k - 1]));
            }
        }
    } else {
        let r = render_nat(t as nat);
        lemma_render_nat(t as nat);
        assert(is_digit(r[0]));
        assert forall|k: int| 0 <= k < r.len() implies #[trigger] r[k] != ':' by {
            assert(is_digit(r[k]));
        }
    }
}

} // verus!
