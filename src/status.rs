use vstd::prelude::*;

use crate::parser::{find_first, first_at, lemma_first_unique};
use crate::text::{chars_of, sub_vec};

verus! {

/// The characters that Unicode counts as white space.
pub open spec fn is_white(c: char) -> bool {
    ('\t' <= c && c <= '\r') || c == ' ' || c == '\u{85}' || c == '\u{a0}' || c == '\u{1680}' || (
    '\u{2000}' <= c && c <= '\u{200a}') || c == '\u{2028}' || c == '\u{2029}' || c == '\u{202f}'
        || c == '\u{205f}' || c == '\u{3000}'
}

fn white(c: char) -> (r: bool)
    ensures
        r == is_white(c),
{
    ('\t' <= c && c <= '\r') || c == ' ' || c == '\u{85}' || c == '\u{a0}' || c == '\u{1680}' || (
    '\u{2000}' <= c && c <= '\u{200a}') || c == '\u{2028}' || c == '\u{2029}' || c == '\u{202f}'
        || c == '\u{205f}' || c == '\u{3000}'
}

/// `s` without white space at either end.
pub open spec fn trimmed(s: Seq<char>) -> Seq<char>
    decreases s.len(),
{
    if s.len() > 0 && is_white(s[0]) {
        trimmed(s.drop_first())
    } else if s.len() > 0 && is_white(s.last()) {
        trimmed(s.drop_last())
    } else {
        s
    }
}

/// `i` is the position of the first `/` of `s`.
pub open spec fn first_slash(s: Seq<char>, i: int) -> bool {
    0 <= i < s.len() && s[i] == '/' && forall|k: int| 0 <= k < i ==> s[k] != '/'
}

/// The pieces of `s` between its `/` characters.
pub open spec fn pieces(s: Seq<char>) -> Seq<Seq<char>>
    decreases s.len(),
{
    if exists|i: int| first_slash(s, i) {
        let i = choose|i: int| first_slash(s, i);
        seq![s.subrange(0, i)] + pieces(s.subrange(i + 1, s.len() as int))
    } else {
        seq![s]
    }
}

pub open spec fn is_digit(c: char) -> bool {
    '0' <= c && c <= '9'
}

/// The number that the decimal digits `s` write.
pub open spec fn digits_value(s: Seq<char>) -> nat
    decreases s.len(),
{
    if s.len() == 0 {
        0
    } else {
        digits_value(s.drop_last()) * 10 + (s.last() as nat - '0' as nat) as nat
    }
}

/// `s` without one leading `+`.
pub open spec fn unsigned_part(s: Seq<char>) -> Seq<char> {
    if s.len() > 0 && s[0] == '+' {
        s.drop_first()
    } else {
        s
    }
}

/// The `u32` that `s` writes in decimal, with an optional leading `+`.
pub open spec fn decimal(s: Seq<char>) -> Option<u32> {
    let d = unsigned_part(s);
    if d.len() > 0 && (forall|k: int| 0 <= k < d.len() ==> is_digit(#[trigger] d[k])) && digits_value(d)
        <= u32::MAX {
        Some(digits_value(d) as u32)
    } else {
        None
    }
}

/// The number that leads a piece of a status line: the piece is trimmed, and
/// the text before its first space must be a decimal `u32`.
pub open spec fn leading_number(p: Seq<char>) -> Option<u32> {
    let t = trimmed(p);
    if exists|k: int| first_at(t, " "@, k) {
        let k = choose|k: int| first_at(t, " "@, k);
        decimal(t.subrange(0, k))
    } else {
        None
    }
}

/// The reading of a status line `57 TPS / 274 MB / 7 PLAYERS`: exactly three
/// pieces, each led by a number.
pub open spec fn status_of(line: Seq<char>) -> Option<(u32, u32, u32)> {
    let ps = pieces(line);
    if ps.len() == 3 && leading_number(ps[0]) is Some && leading_number(ps[1]) is Some
        && leading_number(ps[2]) is Some {
        Some((leading_number(ps[0]).unwrap(), leading_number(ps[1]).unwrap(), leading_number(ps[2]).unwrap()))
    } else {
        None
    }
}

proof fn lemma_digits_grow(s: Seq<char>, k: int)
    requires
        0 <= k <= s.len(),
        forall|j: int| 0 <= j < s.len() ==> is_digit(#[trigger] s[j]),
    ensures
        digits_value(s.subrange(0, k)) <= digits_value(s),
    decreases s.len() - k,
{
    if k < s.len() {
        lemma_digits_grow(s, k + 1);
        assert(s.subrange(0, k + 1).drop_last() =~= s.subrange(0, k));
    } else {
        assert(s.subrange(0, k) =~= s);
    }
}

/// Reads `v[from..to]` as `decimal` says.
fn parse_decimal(v: &Vec<char>, from: usize, to: usize) -> (r: Option<u32>)
    requires
        from <= to <= v@.len(),
    ensures
        r == decimal(v@.subrange(from as int, to as int)),
{
    let ghost s = v@.subrange(from as int, to as int);
    let start = if from < to && v[from] == '+' {
        from + 1
    } else {
        from
    };
    let ghost d = v@.subrange(start as int, to as int);
    assert(d =~= unsigned_part(s));
    if start == to {
        return None;
    }
    let mut value: u64 = 0;
    let mut i: usize = start;
    assert(d.subrange(0, 0) =~= Seq::<char>::empty());
    while i < to
        invariant
            from <= start < to <= v@.len(),
            start <= i <= to,
            d == v@.subrange(start as int, to as int),
            s == v@.subrange(from as int, to as int),
            d == unsigned_part(s),
            forall|k: int| 0 <= k < i - start ==> is_digit(#[trigger] d[k]),
            value == digits_value(d.subrange(0, i - start)),
            value <= u32::MAX,
        decreases to - i,
    {
        let c = v[i];
        if !('0' <= c && c <= '9') {
            assert(!is_digit(d[i - start]));
            assert(!(forall|k: int| 0 <= k < d.len() ==> is_digit(#[trigger] d[k])));
            assert(decimal(s) is None);
            return None;
        }
        assert(d.subrange(0, i - start + 1).drop_last() =~= d.subrange(0, i - start));
        assert(d.subrange(0, i - start + 1).last() == c);
        value = value * 10 + (c as u64 - '0' as u64);
        assert(value == digits_value(d.subrange(0, i - start + 1)));
        i = i + 1;
        if value > u32::MAX as u64 {
            proof {
                if forall|k: int| 0 <= k < d.len() ==> is_digit(#[trigger] d[k]) {
                    lemma_digits_grow(d, i - start);
                }
            }
            assert(decimal(s) is None);
            return None;
        }
    }
    assert(d.subrange(0, i - start) =~= d);
    Some(value as u32)
}

/// Start and end of `trimmed(v[from..to])`.
fn trim_bounds(v: &Vec<char>, from: usize, to: usize) -> (r: (usize, usize))
    requires
        from <= to <= v@.len(),
    ensures
        from <= r.0 <= r.1 <= to,
        v@.subrange(r.0 as int, r.1 as int) == trimmed(v@.subrange(from as int, to as int)),
{
    let mut a = from;
    let mut b = to;
    while a < b && white(v[a])
        invariant
            from <= a <= b == to <= v@.len(),
            trimmed(v@.subrange(a as int, b as int)) == trimmed(v@.subrange(from as int, to as int)),
        decreases b - a,
    {
        assert(v@.subrange(a as int, b as int).drop_first() =~= v@.subrange(a + 1, b as int));
        a = a + 1;
    }
    while a < b && white(v[b - 1])
        invariant
            from <= a <= b <= to <= v@.len(),
            a < b ==> !is_white(v@[a as int]),
            trimmed(v@.subrange(a as int, b as int)) == trimmed(v@.subrange(from as int, to as int)),
        decreases b - a,
    {
        assert(v@.subrange(a as int, b as int).drop_last() =~= v@.subrange(a as int, b - 1));
        b = b - 1;
    }
    (a, b)
}

/// Reads the number that leads `v[from..to]`, as `leading_number` says.
fn parse_leading(v: &Vec<char>, from: usize, to: usize) -> (r: Option<u32>)
    requires
        from <= to <= v@.len(),
    ensures
        r == leading_number(v@.subrange(from as int, to as int)),
{
    let (a, b) = trim_bounds(v, from, to);
    let t = sub_vec(v, a, b);
    proof {
        reveal_strlit(" ");
    }
    match find_first(&t, " ") {
        None => None,
        Some(k) => {
            proof {
                let j = choose|j: int| first_at(t@, " "@, j);
                lemma_first_unique(t@, " "@, j, k as int);
                assert(t@.subrange(0, k as int) =~= v@.subrange(a as int, a + k));
            }
            parse_decimal(v, a, a + k)
        },
    }
}

/// Reads a reply to the console's `status` command, such as
/// `57 TPS / 274 MB / 7 PLAYERS`, as `status_of` says.
pub fn parse_status(line: &str) -> (r: Option<(u32, u32, u32)>)
    ensures
        r == status_of(line@),
{
    let v = chars_of(line);
    let n = v.len();
    let mut bounds: Vec<(usize, usize)> = Vec::new();
    let mut start: usize = 0;
    assert(v@.subrange(0, n as int) =~= v@);
    loop
        invariant
            v@ == line@,
            n == v@.len(),
            start <= n,
            bounds@.len() <= 3,
            forall|k: int| 0 <= k < bounds@.len() ==> #[trigger] bounds@[k].0 <= bounds@[k].1 <= n,
            ({
                let got = bounds@.map_values(|b: (usize, usize)| v@.subrange(b.0 as int, b.1 as int));
                got + pieces(v@.subrange(start as int, n as int)) == pieces(v@)
            }),
        decreases n - start,
    {
        let ghost w = v@.subrange(start as int, n as int);
        let mut j: usize = start;
        while j < n && v[j] != '/'
            invariant
                n == v@.len(),
                start <= j <= n,
                forall|k: int| start <= k < j ==> v@[k] != '/',
            decreases n - j,
        {
            j = j + 1;
        }
        let ghost before = bounds@;
        if j < n {
            assert(first_slash(w, j - start));
            proof {
                let i = choose|i: int| first_slash(w, i);
                lemma_first_slash_unique(w, i, j - start);
                assert(w.subrange(0, j - start) =~= v@.subrange(start as int, j as int));
                assert(w.subrange(j - start + 1, w.len() as int) =~= v@.subrange(j + 1, n as int));
            }
            if bounds.len() == 3 {
                proof {
                    lemma_more_than_three(v@, before, w, start as int, j as int);
                }
                return None;
            }
            bounds.push((start, j));
            proof {
                let got = before.map_values(|b: (usize, usize)| v@.subrange(b.0 as int, b.1 as int));
                let got2 = bounds@.map_values(|b: (usize, usize)| v@.subrange(b.0 as int, b.1 as int));
                assert(got2 =~= got.push(v@.subrange(start as int, j as int)));
                assert(got2 + pieces(v@.subrange(j + 1, n as int)) =~= got + pieces(w));
            }
            start = j + 1;
        } else {
            assert forall|i: int| !first_slash(w, i) by {
                if first_slash(w, i) {
                    assert(v@[start + i] == '/');
                }
            }
            bounds.push((start, n));
            proof {
                let got = before.map_values(|b: (usize, usize)| v@.subrange(b.0 as int, b.1 as int));
                let got2 = bounds@.map_values(|b: (usize, usize)| v@.subrange(b.0 as int, b.1 as int));
                assert(got2 =~= got.push(w));
                assert(got2 =~= got + pieces(w));
                assert(got2 == pieces(v@));
            }
            assert(pieces(v@).len() == bounds@.len());
            if bounds.len() != 3 {
                return None;
            }
            let (a0, b0) = bounds[0];
            let (a1, b1) = bounds[1];
            let (a2, b2) = bounds[2];
            let x = parse_leading(&v, a0, b0);
            let y = parse_leading(&v, a1, b1);
            let z = parse_leading(&v, a2, b2);
            return match (x, y, z) {
                (Some(x), Some(y), Some(z)) => Some((x, y, z)),
                _ => None,
            };
        }
    }
}

proof fn lemma_first_slash_unique(s: Seq<char>, i: int, j: int)
    requires
        first_slash(s, i),
        first_slash(s, j),
    ensures
        i == j,
{
    if i < j {
        assert(s[i] != '/');
    } else if j < i {
        assert(s[j] != '/');
    }
}

proof fn lemma_pieces_nonempty(s: Seq<char>)
    ensures
        pieces(s).len() >= 1,
    decreases s.len(),
{
    if exists|i: int| first_slash(s, i) {
        let i = choose|i: int| first_slash(s, i);
        lemma_pieces_nonempty(s.subrange(i + 1, s.len() as int));
    }
}

proof fn lemma_more_than_three(
    v: Seq<char>,
    before: Seq<(usize, usize)>,
    w: Seq<char>,
    start: int,
    j: int,
)
    requires
        before.len() == 3,
        0 <= start <= j < v.len(),
        w == v.subrange(start, v.len() as int),
        first_slash(w, j - start),
        w.subrange(j - start + 1, w.len() as int) == v.subrange(j + 1, v.len() as int),
        before.map_values(|b: (usize, usize)| v.subrange(b.0 as int, b.1 as int)) + pieces(w)
            == pieces(v),
    ensures
        status_of(v) is None,
{
    lemma_pieces_nonempty(w);
    assert(pieces(v).len() >= 4);
}

} // verus!
