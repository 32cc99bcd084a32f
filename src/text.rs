use vstd::prelude::*;

verus! {

/// std's `String::push`: appends one character.
pub assume_specification[ String::push ](s: &mut String, ch: char)
    ensures
        final(s)@ == old(s)@.push(ch),
;

/// The characters of `s` as a vector, read one by one.
pub fn chars_of(s: &str) -> (r: Vec<char>)
    ensures
        r@ == s@,
{
    let n = s.unicode_len();
    let mut r: Vec<char> = Vec::new();
    let mut i: usize = 0;
    while i < n
        invariant
            n == s@.len(),
            i <= n,
            r@ == s@.subrange(0, i as int),
        decreases n - i,
    {
        r.push(s.get_char(i));
        i = i + 1;
        assert(r@ =~= s@.subrange(0, i as int));
    }
    assert(r@ =~= s@);
    r
}

/// std's `String::push_str`: appends a string slice.
pub assume_specification[ String::push_str ](s: &mut String, string: &str)
    ensures
        final(s)@ == old(s)@ + string@,
;

/// A string holding the characters `v[from..to]`.
pub fn string_of(v: &Vec<char>, from: usize, to: usize) -> (r: String)
    requires
        from <= to <= v@.len(),
    ensures
        r@ == v@.subrange(from as int, to as int),
{
    let mut r = String::new();
    let mut i: usize = from;
    while i < to
        invariant
            from <= i <= to <= v@.len(),
            r@ == v@.subrange(from as int, i as int),
        decreases to - i,
    {
        r.push(v[i]);
        i = i + 1;
        assert(r@ =~= v@.subrange(from as int, i as int));
    }
    r
}

/// The characters `v[from..to]` as a vector of their own.
pub fn sub_vec(v: &Vec<char>, from: usize, to: usize) -> (r: Vec<char>)
    requires
        from <= to <= v@.len(),
    ensures
        r@ == v@.subrange(from as int, to as int),
{
    let mut r: Vec<char> = Vec::new();
    let mut i: usize = from;
    while i < to
        invariant
            from <= i <= to <= v@.len(),
            r@ == v@.subrange(from as int, i as int),
        decreases to - i,
    {
        r.push(v[i]);
        i = i + 1;
        assert(r@ =~= v@.subrange(from as int, i as int));
    }
    r
}

/// Whether `pat` occurs in `s` at position `at`.
pub open spec fn occurs_at(s: Seq<char>, pat: Seq<char>, at: int) -> bool {
    0 <= at && at + pat.len() <= s.len() && s.subrange(at, at + pat.len()) == pat
}

/// Executable form of `occurs_at`.
pub fn matches_at(s: &Vec<char>, pat: &str, at: usize) -> (r: bool)
    ensures
        r == occurs_at(s@, pat@, at as int),
{
    let p = pat.unicode_len();
    let sl = s.len();
    if p > sl || at > sl - p {
        return false;
    }
    let mut k: usize = 0;
    while k < p
        invariant
            p == pat@.len(),
            sl == s@.len(),
            at + p <= sl,
            k <= p,
            forall|j: int| 0 <= j < k ==> s@[at + j] == pat@[j],
        decreases p - k,
    {
        if s[at + k] != pat.get_char(k) {
            assert(s@.subrange(at as int, at + p)[k as int] != pat@[k as int]);
            return false;
        }
        k = k + 1;
    }
    assert(s@.subrange(at as int, at + p) =~= pat@);
    true
}


/// `i` is the position of the first newline of `s`.
pub open spec fn first_newline(s: Seq<char>, i: int) -> bool {
    0 <= i < s.len() && s[i] == '\n' && forall|k: int| 0 <= k < i ==> s[k] != '\n'
}

/// A line that a newline ended, without the carriage return before that newline.
pub open spec fn without_cr(s: Seq<char>) -> Seq<char> {
    if s.len() > 0 && s.last() == '\r' {
        s.drop_last()
    } else {
        s
    }
}

/// The lines of `s`: split at each `\n` (a `\r` just before it is dropped),
/// with no empty line after a final `\n`.
pub open spec fn lines_of(s: Seq<char>) -> Seq<Seq<char>>
    decreases s.len(),
{
    if s.len() == 0 {
        Seq::empty()
    } else if exists|i: int| first_newline(s, i) {
        let i = choose|i: int| first_newline(s, i);
        seq![without_cr(s.subrange(0, i))] + lines_of(s.subrange(i + 1, s.len() as int))
    } else {
        seq![s]
    }
}

proof fn lemma_first_newline_unique(s: Seq<char>, i: int, j: int)
    requires
        first_newline(s, i),
        first_newline(s, j),
    ensures
        i == j,
{
    if i < j {
        assert(s[i] != '\n');
    } else if j < i {
        assert(s[j] != '\n');
    }
}

pub open spec fn strings_view(v: Seq<String>) -> Seq<Seq<char>> {
    v.map_values(|s: String| s@)
}

/// The lines of `v`, as `lines_of` says.
pub fn split_lines(v: &Vec<char>) -> (r: Vec<String>)
    ensures
        strings_view(r@) == lines_of(v@),
{
    let n = v.len();
    let mut r: Vec<String> = Vec::new();
    let mut start: usize = 0;
    assert(v@.subrange(0, n as int) =~= v@);
    while start < n
        invariant
            n == v@.len(),
            start <= n,
            strings_view(r@) + lines_of(v@.subrange(start as int, n as int)) == lines_of(v@),
        decreases n - start,
    {
        let ghost w = v@.subrange(start as int, n as int);
        let mut j: usize = start;
        while j < n && v[j] != '\n'
            invariant
                n == v@.len(),
                start <= j <= n,
                forall|k: int| start <= k < j ==> v@[k] != '\n',
            decreases n - j,
        {
            j = j + 1;
        }
        if j < n {
            assert(first_newline(w, j - start));
            proof {
                let i = choose|i: int| first_newline(w, i);
                lemma_first_newline_unique(w, i, j - start);
                assert(w.subrange(0, j - start) =~= v@.subrange(start as int, j as int));
                assert(w.subrange(j - start + 1, w.len() as int) =~= v@.subrange(j + 1, n as int));
            }
            let end = if j > start && v[j - 1] == '\r' {
                j - 1
            } else {
                j
            };
            let line = string_of(v, start, end);
            assert(line@ == without_cr(v@.subrange(start as int, j as int)));
            let ghost before = r@;
            r.push(line);
            assert(strings_view(r@) =~= strings_view(before).push(line@));
            assert(strings_view(r@) + lines_of(v@.subrange(j + 1, n as int)) =~= strings_view(before)
                + lines_of(w));
            start = j + 1;
        } else {
            assert forall|i: int| !first_newline(w, i) by {
                if first_newline(w, i) {
                    assert(v@[start + i] == '\n');
                }
            }
            let line = string_of(v, start, n);
            let ghost before = r@;
            r.push(line);
            assert(strings_view(r@) =~= strings_view(before).push(line@));
            assert(strings_view(r@) + lines_of(v@.subrange(n as int, n as int)) =~= strings_view(before)
                + lines_of(w));
            start = n;
        }
    }
    assert(lines_of(v@.subrange(n as int, n as int)) =~= Seq::<Seq<char>>::empty());
    assert(strings_view(r@) =~= lines_of(v@));
    r
}

} // verus!
