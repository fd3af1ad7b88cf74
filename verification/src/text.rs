//! Path text: the characters of a string, the segments of a delimited path,
//! and the reading of a segment as a position.

use vstd::prelude::*;

verus! {

/// Whether `sep` stands in `s` at position `at`.
pub open spec fn occurs_at(s: Seq<char>, sep: Seq<char>, at: int) -> bool {
    &&& 0 <= at
    &&& at + sep.len() <= s.len()
    &&& s.subrange(at, at + sep.len()) == sep
}

/// The segments of `s` from position `start` on, for a separator that is not
/// empty, when no separator begins in `start..at`. The leftmost occurrence
/// of the separator ends a segment, and the search goes on behind it.
pub open spec fn segments_from(s: Seq<char>, sep: Seq<char>, start: int, at: int) -> Seq<
    Seq<char>,
>
    recommends
        sep.len() > 0,
        0 <= start <= at <= s.len(),
    decreases s.len() - at,
{
    if sep.len() == 0 || at + sep.len() > s.len() {
        seq![s.subrange(start, s.len() as int)]
    } else if occurs_at(s, sep, at) {
        seq![s.subrange(start, at)] + segments_from(s, sep, at + sep.len(), at + sep.len())
    } else {
        segments_from(s, sep, start, at + 1)
    }
}

/// The segments into which the separator cuts `s`. Two separators in a row
/// enclose an empty segment, and so do a separator and an end of `s`. An
/// empty separator stands before and behind every character.
pub open spec fn segments(s: Seq<char>, sep: Seq<char>) -> Seq<Seq<char>> {
    if sep.len() == 0 {
        seq![Seq::<char>::empty()] + Seq::new(s.len(), |i: int| seq![s[i]])
            + seq![Seq::<char>::empty()]
    } else {
        segments_from(s, sep, 0, 0)
    }
}

/// The parts in a row, with `sep` between each two of them.
pub open spec fn joined(parts: Seq<Seq<char>>, sep: Seq<char>) -> Seq<char>
    decreases parts.len(),
{
    if parts.len() == 0 {
        Seq::empty()
    } else if parts.len() == 1 {
        parts[0]
    } else {
        parts[0] + sep + joined(parts.drop_first(), sep)
    }
}

/// Whether `sep` stands somewhere in `s`.
pub open spec fn contains(s: Seq<char>, sep: Seq<char>) -> bool {
    exists|at: int| occurs_at(s, sep, at)
}

/// The segments from `start` on, joined again, are `s` from `start` on;
/// there is at least one; and none of them holds the separator.
pub proof fn lemma_segments_from(s: Seq<char>, sep: Seq<char>, start: int, at: int)
    requires
        sep.len() > 0,
        0 <= start <= at <= s.len(),
        forall|i: int| start <= i < at ==> !occurs_at(s, sep, i),
    ensures
        segments_from(s, sep, start, at).len() >= 1,
        joined(segments_from(s, sep, start, at), sep) == s.subrange(start, s.len() as int),
        forall|i: int|
            0 <= i < segments_from(s, sep, start, at).len() ==> !contains(
                #[trigger] segments_from(s, sep, start, at)[i],
                sep,
            ),
    decreases s.len() - at,
{
    let k = sep.len() as int;
    let n = s.len() as int;
    if at + k > n {
        let last = s.subrange(start, n);
        assert forall|j: int| !occurs_at(last, sep, j) by {
            if occurs_at(last, sep, j) {
                assert(last.subrange(j, j + k) =~= s.subrange(start + j, start + j + k));
                assert(occurs_at(s, sep, start + j));
            }
        }
    } else if occurs_at(s, sep, at) {
        let head = s.subrange(start, at);
        let rest = segments_from(s, sep, at + k, at + k);
        lemma_segments_from(s, sep, at + k, at + k);
        let all = seq![head] + rest;
        assert(all.drop_first() =~= rest);
        assert(all[0] == head);
        assert(head + sep + s.subrange(at + k, n) =~= s.subrange(start, n)) by {
            assert(sep =~= s.subrange(at, at + k));
        }
        assert forall|j: int| !occurs_at(head, sep, j) by {
            if occurs_at(head, sep, j) {
                assert(head.subrange(j, j + k) =~= s.subrange(start + j, start + j + k));
                assert(occurs_at(s, sep, start + j));
            }
        }
        assert forall|i: int| 0 <= i < all.len() implies !contains(#[trigger] all[i], sep) by {
            if i > 0 {
                assert(all[i] == rest[i - 1]);
            }
        }
    } else {
        lemma_segments_from(s, sep, start, at + 1);
    }
}

/// Cutting loses nothing: the segments of `s`, joined again by the
/// separator, are `s`. There is always at least one segment, and where the
/// separator is not empty, no segment holds it.
pub proof fn lemma_segments_join(s: Seq<char>, sep: Seq<char>)
    ensures
        segments(s, sep).len() >= 1,
        joined(segments(s, sep), sep) == s,
        sep.len() > 0 ==> forall|i: int|
            0 <= i < segments(s, sep).len() ==> !contains(#[trigger] segments(s, sep)[i], sep),
{
    if sep.len() > 0 {
        lemma_segments_from(s, sep, 0, 0);
        assert(s.subrange(0, s.len() as int) =~= s);
    } else {
        let singles = Seq::new(s.len(), |i: int| seq![s[i]]);
        lemma_joined_singles(s, 0);
        assert(s.subrange(0, s.len() as int) =~= s);
        let tail = singles + seq![Seq::<char>::empty()];
        let all = seq![Seq::<char>::empty()] + tail;
        assert(segments(s, sep) =~= all);
        assert(all.drop_first() =~= tail);
        assert(tail =~= Seq::new((s.len() - 0) as nat, |i: int| seq![s[0 + i]]) + seq![
            Seq::<char>::empty(),
        ]);
        assert(Seq::<char>::empty() + sep + s =~= s);
    }
}

/// The characters of `s` from `from` on, each by itself, and an empty part
/// behind them, joined by nothing, are `s` from `from` on.
proof fn lemma_joined_singles(s: Seq<char>, from: int)
    requires
        0 <= from <= s.len(),
    ensures
        joined(
            Seq::new((s.len() - from) as nat, |i: int| seq![s[from + i]]) + seq![
                Seq::<char>::empty(),
            ],
            Seq::empty(),
        ) == s.subrange(from, s.len() as int),
    decreases s.len() - from,
{
    let parts = Seq::new((s.len() - from) as nat, |i: int| seq![s[from + i]]) + seq![
        Seq::<char>::empty(),
    ];
    if from == s.len() {
        assert(parts.len() == 1);
        assert(parts[0] =~= s.subrange(from, s.len() as int));
    } else {
        lemma_joined_singles(s, from + 1);
        let rest = Seq::new((s.len() - from - 1) as nat, |i: int| seq![s[from + 1 + i]]) + seq![
            Seq::<char>::empty(),
        ];
        assert(parts.drop_first() =~= rest);
        assert(parts[0] == seq![s[from]]);
        assert(seq![s[from]] + Seq::<char>::empty() + s.subrange(from + 1, s.len() as int)
            =~= s.subrange(from, s.len() as int));
    }
}

/// The contents of a list of string slices.
pub open spec fn texts(v: Seq<&str>) -> Seq<Seq<char>> {
    Seq::new(v.len(), |i: int| v[i]@)
}

/// The characters of `s`, in order.
pub fn chars_of(s: &str) -> (v: Vec<char>)
    ensures
        v@ == s@,
{
    let mut v: Vec<char> = Vec::new();
    for c in it: s.chars()
        invariant
            v@ == it.history(),
    {
        v.push(c);
    }
    v
}

/// Whether `sep` stands in `text` at position `at`.
fn matches_at(text: &Vec<char>, sep: &Vec<char>, at: usize) -> (r: bool)
    requires
        at + sep.len() <= text.len(),
    ensures
        r == occurs_at(text@, sep@, at as int),
{
    let mut j: usize = 0;
    while j < sep.len()
        invariant
            j <= sep.len(),
            at + sep.len() <= text.len(),
            forall|k: int| 0 <= k < j ==> text@[at + k] == sep@[k],
        decreases sep.len() - j,
    {
        if text[at + j] != sep[j] {
            assert(text@.subrange(at as int, at + sep.len())[j as int] == text@[at + j]);
            return false;
        }
        j += 1;
    }
    assert(text@.subrange(at as int, at + sep.len()) =~= sep@);
    true
}

/// Cuts `path` at every occurrence of `sep`, leftmost first.
pub fn split_path<'a>(path: &'a str, sep: &str) -> (segs: Vec<&'a str>)
    ensures
        texts(segs@) == segments(path@, sep@),
{
    let text = chars_of(path);
    let mark = chars_of(sep);
    let n = text.len();
    let k = mark.len();
    let mut segs: Vec<&'a str> = Vec::new();
    if k == 0 {
        segs.push(path.substring_char(0, 0));
        let mut i: usize = 0;
        while i < n
            invariant
                i <= n,
                n == path@.len(),
                sep@.len() == 0,
                segs@.len() == i + 1,
                segs@[0]@ == Seq::<char>::empty(),
                forall|j: int| 1 <= j <= i ==> (#[trigger] segs@[j])@ == seq![path@[j - 1]],
            decreases n - i,
        {
            let one = path.substring_char(i, i + 1);
            assert(one@ =~= seq![path@[i as int]]);
            segs.push(one);
            i += 1;
        }
        let ghost inner = segs@;
        segs.push(path.substring_char(n, n));
        let ghost cut = segments(path@, sep@);
        assert(cut.len() == n + 2);
        assert forall|j: int| 0 <= j < n + 2 implies texts(segs@)[j] == cut[j] by {
            if j <= n {
                assert(segs@[j] == inner[j]);
            } else {
                assert(segs@[j]@ =~= Seq::<char>::empty());
            }
        }
        assert(texts(segs@) =~= cut);
        return segs;
    }
    let mut start: usize = 0;
    let mut at: usize = 0;
    while k <= n - at
        invariant
            0 < k == mark@.len(),
            n == path@.len(),
            text@ == path@,
            mark@ == sep@,
            start <= at <= n,
            texts(segs@) + segments_from(path@, sep@, start as int, at as int) == segments(
                path@,
                sep@,
            ),
        decreases n - at,
    {
        if matches_at(&text, &mark, at) {
            let seg = path.substring_char(start, at);
            let ghost before = texts(segs@);
            segs.push(seg);
            at = at + k;
            start = at;
            assert(texts(segs@) =~= before + seq![seg@]);
            assert(texts(segs@) + segments_from(path@, sep@, start as int, at as int) =~= before
                + (seq![seg@] + segments_from(path@, sep@, start as int, at as int)));
        } else {
            at = at + 1;
        }
    }
    let last = path.substring_char(start, n);
    let ghost before = texts(segs@);
    segs.push(last);
    assert(texts(segs@) =~= before + seq![last@]);
    segs
}

/// Whether `c` is one of the ten decimal digits.
pub open spec fn is_digit(c: char) -> bool {
    '0' <= c <= '9'
}

/// The number that a decimal digit stands for.
pub open spec fn digit_value(c: char) -> nat {
    if is_digit(c) {
        (c as int - '0' as int) as nat
    } else {
        0
    }
}

/// The number that a row of decimal digits spells.
pub open spec fn decimal(s: Seq<char>) -> nat
    decreases s.len(),
{
    if s.len() == 0 {
        0
    } else {
        decimal(s.drop_last()) * 10 + digit_value(s.last())
    }
}

/// Whether every character of `s` is a decimal digit.
pub open spec fn all_digits(s: Seq<char>) -> bool {
    forall|i: int| 0 <= i < s.len() ==> is_digit(#[trigger] s[i])
}

/// `s` without the plus sign that may lead it.
pub open spec fn unsigned_part(s: Seq<char>) -> Seq<char> {
    if s.len() > 0 && s[0] == '+' {
        s.drop_first()
    } else {
        s
    }
}

/// The position that `s` spells, if it spells one: at least one decimal
/// digit and nothing else, but for a plus sign that may lead, and a number
/// that a `usize` holds.
pub open spec fn index_of(s: Seq<char>) -> Option<usize> {
    let digits = unsigned_part(s);
    if digits.len() > 0 && all_digits(digits) && decimal(digits) <= usize::MAX {
        Some(decimal(digits) as usize)
    } else {
        None
    }
}

/// A row of digits spells no less than any of its beginnings does.
pub proof fn lemma_decimal_grows(s: Seq<char>, j: int)
    requires
        0 <= j <= s.len(),
    ensures
        decimal(s.subrange(0, j)) <= decimal(s),
    decreases s.len(),
{
    if j == s.len() {
        assert(s.subrange(0, j) =~= s);
    } else {
        lemma_decimal_grows(s.drop_last(), j);
        assert(s.drop_last().subrange(0, j) =~= s.subrange(0, j));
    }
}

/// The number of a decimal digit, and `None` for any other character.
fn digit_of(c: char) -> (d: Option<usize>)
    ensures
        d == (if is_digit(c) {
            Some(digit_value(c) as usize)
        } else {
            None
        }),
{
    if '0' <= c && c <= '9' {
        Some((c as u8 - '0' as u8) as usize)
    } else {
        None
    }
}

/// Reads `s` as a position.
pub fn parse_index(s: &str) -> (r: Option<usize>)
    ensures
        r == index_of(s@),
{
    let text = chars_of(s);
    let n = text.len();
    let first: usize = if n > 0 && text[0] == '+' {
        1
    } else {
        0
    };
    let ghost digits = unsigned_part(s@);
    assert(digits =~= text@.subrange(first as int, n as int));
    if first == n {
        return None;
    }
    let mut value: usize = 0;
    let mut i: usize = first;
    while i < n
        invariant
            first <= i <= n,
            n == text@.len(),
            digits == text@.subrange(first as int, n as int),
            digits == unsigned_part(s@),
            all_digits(digits.subrange(0, i - first)),
            decimal(digits.subrange(0, i - first)) == value,
        decreases n - i,
    {
        let ghost seen = digits.subrange(0, i - first);
        let ghost next = digits.subrange(0, i + 1 - first);
        assert(next.drop_last() =~= seen);
        assert(next.last() == text@[i as int]);
        assert(digits[i - first] == text@[i as int]);
        let d = match digit_of(text[i]) {
            Some(d) => d,
            None => {
                assert(!is_digit(digits[i - first]));
                return None;
            },
        };
        proof {
            lemma_decimal_grows(digits, i + 1 - first);
            assert(decimal(next) == decimal(seen) * 10 + digit_value(next.last()));
            assert forall|j: int| 0 <= j < next.len() implies is_digit(#[trigger] next[j]) by {
                if j < seen.len() {
                    assert(next[j] == seen[j]);
                }
            }
        }
        let tens = match value.checked_mul(10) {
            Some(t) => t,
            None => {
                return None;
            },
        };
        value = match tens.checked_add(d) {
            Some(v) => v,
            None => {
                return None;
            },
        };
        i += 1;
    }
    assert(digits.subrange(0, n - first) =~= digits);
    Some(value)
}

} // verus!
