//! Character-level helpers: whitespace tokenizing, unsigned decimal
//! parsing as `str::parse` does it, and decimal rendering.
use vstd::prelude::*;

verus! {

/// The characters that `char::is_whitespace` accepts (Unicode `White_Space`).
pub open spec fn is_space(c: char) -> bool {
    let u = c as u32;
    (9 <= u && u <= 13) || u == 32 || u == 0x85 || u == 0xa0 || u == 0x1680 || (0x2000 <= u
        && u <= 0x200a) || u == 0x2028 || u == 0x2029 || u == 0x202f || u == 0x205f || u == 0x3000
}

pub fn is_space_char(c: char) -> (r: bool)
    ensures
        r == is_space(c),
{
    let u = c as u32;
    (9 <= u && u <= 13) || u == 32 || u == 0x85 || u == 0xa0 || u == 0x1680 || (0x2000 <= u
        && u <= 0x200a) || u == 0x2028 || u == 0x2029 || u == 0x202f || u == 0x205f || u == 0x3000
}

/// The maximal runs of non-whitespace characters of `s` from position `i` on.
pub open spec fn words_from(s: Seq<char>, i: int) -> Seq<Seq<char>>
    decreases s.len() - i,
{
    if i < 0 || i >= s.len() {
        seq![]
    } else if is_space(s[i]) {
        words_from(s, i + 1)
    } else if i + 1 < s.len() && !is_space(s[i + 1]) {
        let rest = words_from(s, i + 1);
        rest.update(0, seq![s[i]] + rest[0])
    } else {
        seq![seq![s[i]]] + words_from(s, i + 1)
    }
}

/// The whitespace-separated words of `s`, in order (what `split_whitespace` yields).
pub open spec fn words(s: Seq<char>) -> Seq<Seq<char>> {
    words_from(s, 0)
}

/// The characters of a string, as a vector.
pub fn chars_of(s: &str) -> (r: Vec<char>)
    ensures
        r@ == s@,
{
    let n = s.unicode_len();
    let mut r: Vec<char> = Vec::new();
    let mut i: usize = 0;
    while i < n
        invariant
            n == s@.len(),
            i <= n,
            r@ == s@.subrange(0, i as int),
        decreases n - i,
    {
        r.push(s.get_char(i));
        i = i + 1;
    }
    assert(r@ =~= s@);
    r
}

/// Start and end positions of the words of `s`.
pub fn word_spans(s: &Vec<char>) -> (spans: Vec<(usize, usize)>)
    ensures
        spans@.len() == words(s@).len(),
        forall|k: int|
            0 <= k < spans@.len() ==> {
                &&& (#[trigger] spans@[k]).0 <= spans@[k].1 <= s@.len()
                &&& s@.subrange(spans@[k].0 as int, spans@[k].1 as int) == words(s@)[k]
            },
{
    let mut spans: Vec<(usize, usize)> = Vec::new();
    let mut i: usize = s.len();
    while i > 0
        invariant
            i <= s@.len(),
            spans@.len() == words_from(s@, i as int).len(),
            forall|k: int|
                0 <= k < spans@.len() ==> {
                    &&& (#[trigger] spans@[k]).0 <= spans@[k].1 <= s@.len()
                    &&& s@.subrange(spans@[k].0 as int, spans@[k].1 as int) == words_from(
                        s@,
                        i as int,
                    )[k]
                },
            (i < s@.len() && !is_space(s@[i as int])) ==> spans@.len() > 0 && spans@[0].0 == i,
        decreases i,
    {
        i = i - 1;
        let c = s[i];
        let ghost prev = spans@;
        let ghost rest = words_from(s@, i + 1);
        if is_space_char(c) {
            assert(words_from(s@, i as int) == rest);
        } else if i + 1 < s.len() && !is_space_char(s[i + 1]) {
            let e = spans[0].1;
            let ghost cur = rest.update(0, seq![s@[i as int]] + rest[0]);
            assert(words_from(s@, i as int) == cur);
            proof {
                let ws = s@;
                assert(ws.subrange(i as int, e as int) =~= seq![ws[i as int]] + ws.subrange(
                    i + 1,
                    e as int,
                ));
            }
            spans.set(0, (i, e));
            assert forall|k: int| 0 <= k < spans@.len() implies {
                &&& spans@[k].0 <= spans@[k].1 <= s@.len()
                &&& s@.subrange(spans@[k].0 as int, spans@[k].1 as int) == words_from(
                    s@,
                    i as int,
                )[k]
            } by {
                if k == 0 {
                } else {
                    assert(spans@[k] == prev[k]);
                    assert(prev[k].0 <= prev[k].1);
                    assert(rest[k] == cur[k]);
                }
            }
        } else {
            let ghost cur = seq![seq![s@[i as int]]] + rest;
            assert(words_from(s@, i as int) == cur);
            spans.insert(0, (i, i + 1));
            proof {
                assert(s@.subrange(i as int, i + 1) =~= seq![s@[i as int]]);
            }
            assert forall|k: int| 0 <= k < spans@.len() implies {
                &&& spans@[k].0 <= spans@[k].1 <= s@.len()
                &&& s@.subrange(spans@[k].0 as int, spans@[k].1 as int) == words_from(
                    s@,
                    i as int,
                )[k]
            } by {
                if k == 0 {
                } else {
                    assert(spans@[k] == prev[k - 1]);
                    assert(rest[k - 1] == cur[k]);
                }
            }
        }
    }
    assert forall|k: int| 0 <= k < spans@.len() implies {
        &&& (#[trigger] spans@[k]).0 <= spans@[k].1 <= s@.len()
        &&& s@.subrange(spans@[k].0 as int, spans@[k].1 as int) == words(s@)[k]
    } by {
        assert(words(s@)[k] == words_from(s@, 0)[k]);
    }
    spans
}

/// Whether `s[from..to]` spells the string `w`.
pub fn span_is(s: &Vec<char>, from: usize, to: usize, w: &str) -> (r: bool)
    requires
        from <= to <= s@.len(),
    ensures
        r == (s@.subrange(from as int, to as int) == w@),
{
    let n = w.unicode_len();
    if to - from != n {
        return false;
    }
    let mut i: usize = 0;
    while i < n
        invariant
            n == w@.len(),
            to - from == n,
            from <= to <= s@.len(),
            i <= n,
            forall|j: int| 0 <= j < i ==> s@[from + j] == w@[j],
        decreases n - i,
    {
        if s[from + i] != w.get_char(i) {
            assert(s@.subrange(from as int, to as int)[i as int] != w@[i as int]);
            return false;
        }
        i = i + 1;
    }
    assert(s@.subrange(from as int, to as int) =~= w@);
    true
}

pub open spec fn is_digit(c: char) -> bool {
    '0' <= c && c <= '9'
}

pub open spec fn digit_value(c: char) -> nat {
    (c as u32 - '0' as u32) as nat
}

pub open spec fn all_digits(s: Seq<char>) -> bool {
    forall|i: int| 0 <= i < s.len() ==> is_digit(#[trigger] s[i])
}

/// The number that a sequence of decimal digits denotes.
pub open spec fn digits_value(s: Seq<char>) -> nat
    decreases s.len(),
{
    if s.len() == 0 {
        0
    } else {
        digits_value(s.drop_last()) * 10 + digit_value(s.last())
    }
}

/// How `str::parse` reads an unsigned integer type whose largest value is
/// `max`: an optional `+`, then one or more decimal digits, and no more than `max`.
pub open spec fn parse_unsigned(s: Seq<char>, max: nat) -> Option<nat> {
    let d = if s.len() > 0 && s[0] == '+' {
        s.drop_first()
    } else {
        s
    };
    if d.len() > 0 && all_digits(d) && digits_value(d) <= max {
        Some(digits_value(d))
    } else {
        None
    }
}

proof fn lemma_prefix_value_le(s: Seq<char>, k: int)
    requires
        0 <= k <= s.len(),
        all_digits(s),
    ensures
        digits_value(s.subrange(0, k)) <= digits_value(s),
    decreases s.len(),
{
    if k == s.len() {
        assert(s.subrange(0, k) =~= s);
    } else {
        let t = s.drop_last();
        assert(t.subrange(0, k) =~= s.subrange(0, k));
        assert(all_digits(t)) by {
            assert forall|i: int| 0 <= i < t.len() implies is_digit(#[trigger] t[i]) by {
                assert(t[i] == s[i]);
            }
        }
        lemma_prefix_value_le(t, k);
    }
}

/// Reads the characters `s[from..to]` as an unsigned integer no larger than `max`.
pub fn parse_unsigned_at(s: &Vec<char>, from: usize, to: usize, max: u64) -> (r: Option<u64>)
    requires
        from <= to <= s@.len(),
    ensures
        match parse_unsigned(s@.subrange(from as int, to as int), max as nat) {
            Some(v) => r == Some(v as u64),
            None => r is None,
        },
{
    let ghost t = s@.subrange(from as int, to as int);
    let mut start = from;
    if from < to && s[from] == '+' {
        start = from + 1;
    }
    let ghost d = s@.subrange(start as int, to as int);
    assert(d =~= (if t.len() > 0 && t[0] == '+' {
        t.drop_first()
    } else {
        t
    }));
    assert(parse_unsigned(t, max as nat) == (if d.len() > 0 && all_digits(d) && digits_value(d)
        <= max {
        Some(digits_value(d))
    } else {
        None::<nat>
    }));
    if start >= to {
        return None;
    }
    let mut acc: u64 = 0;
    let mut k = start;
    while k < to
        invariant
            from <= start <= k <= to <= s@.len(),
            d == s@.subrange(start as int, to as int),
            parse_unsigned(s@.subrange(from as int, to as int), max as nat) == (if d.len() > 0
                && all_digits(d) && digits_value(d) <= max {
                Some(digits_value(d))
            } else {
                None::<nat>
            }),
            acc as nat == digits_value(s@.subrange(start as int, k as int)),
            acc <= max,
            all_digits(s@.subrange(start as int, k as int)),
        decreases to - k,
    {
        let c = s[k];
        let ghost p = s@.subrange(start as int, k + 1);
        assert(p.drop_last() =~= s@.subrange(start as int, k as int));
        if !('0' <= c && c <= '9') {
            assert(d[k - start] == c);
            assert(!is_digit(d[k - start]));
            assert(!all_digits(d));
            return None;
        }
        assert(all_digits(p)) by {
            assert forall|i: int| 0 <= i < p.len() implies is_digit(#[trigger] p[i]) by {
                if i < p.len() - 1 {
                    assert(p[i] == s@.subrange(start as int, k as int)[i]);
                }
            }
        }
        let dv = (c as u32 - '0' as u32) as u64;
        let next: u128 = acc as u128 * 10 + dv as u128;
        if next > max as u128 {
            proof {
                assert(p.last() == c);
                assert(digits_value(p) == digits_value(p.drop_last()) * 10 + digit_value(c));
                if all_digits(d) {
                    assert(d.subrange(0, k + 1 - start) =~= p);
                    lemma_prefix_value_le(d, k + 1 - start);
                }
            }
            return None;
        }
        acc = next as u64;
        k = k + 1;
    }
    assert(s@.subrange(start as int, k as int) =~= d);
    Some(acc)
}

pub open spec fn digit_char(d: nat) -> char {
    if d == 0 {
        '0'
    } else if d == 1 {
        '1'
    } else if d == 2 {
        '2'
    } else if d == 3 {
        '3'
    } else if d == 4 {
        '4'
    } else if d == 5 {
        '5'
    } else if d == 6 {
        '6'
    } else if d == 7 {
        '7'
    } else if d == 8 {
        '8'
    } else {
        '9'
    }
}

/// The decimal rendering of `n`, without leading zeros.
pub open spec fn decimal(n: nat) -> Seq<char>
    decreases n,
{
    if n < 10 {
        seq![digit_char(n)]
    } else {
        decimal(n / 10).push(digit_char(n % 10))
    }
}

fn digit_str(d: u32) -> (r: &'static str)
    requires
        d < 10,
    ensures
        r@ == seq![digit_char(d as nat)],
{
    proof {
        reveal_strlit("0");
        reveal_strlit("1");
        reveal_strlit("2");
        reveal_strlit("3");
        reveal_strlit("4");
        reveal_strlit("5");
        reveal_strlit("6");
        reveal_strlit("7");
        reveal_strlit("8");
        reveal_strlit("9");
    }
    if d == 0 {
        "0"
    } else if d == 1 {
        "1"
    } else if d == 2 {
        "2"
    } else if d == 3 {
        "3"
    } else if d == 4 {
        "4"
    } else if d == 5 {
        "5"
    } else if d == 6 {
        "6"
    } else if d == 7 {
        "7"
    } else if d == 8 {
        "8"
    } else {
        "9"
    }
}

/// Appends the decimal rendering of `n` to `out`.
pub fn push_decimal(out: &mut String, n: u32)
    ensures
        final(out)@ == old(out)@ + decimal(n as nat),
    decreases n,
{
    let ghost start = out@;
    if n >= 10 {
        push_decimal(out, n / 10);
    }
    out.append(digit_str(n % 10));
    proof {
        if n >= 10 {
            assert(decimal(n as nat) == decimal((n / 10) as nat).push(digit_char((n % 10) as nat)));
        }
    }
    assert(out@ =~= start + decimal(n as nat));
}

} // verus!
