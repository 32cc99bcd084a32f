use vstd::prelude::*;

use crate::text::chars_of;

verus! {

/// First code point of the band that the game uses for its private styling glyphs.
pub const GLYPH_BAND_START: char = '\u{f80}';

/// Last code point of that band.
pub const GLYPH_BAND_END: char = '\u{107f}';

pub open spec fn is_glyph(c: char) -> bool {
    GLYPH_BAND_START <= c && c <= GLYPH_BAND_END
}

/// The characters of `s` outside the styling-glyph band, in order.
pub open spec fn unified(s: Seq<char>) -> Seq<char>
    decreases s.len(),
{
    if s.len() == 0 {
        s
    } else {
        let head = if is_glyph(s[0]) { Seq::<char>::empty() } else { seq![s[0]] };
        head + unified(s.drop_first())
    }
}

/// The characters of `s` that stand outside any `[...]` colour tag, given that
/// the text before `s` left `depth` tags open. A `]` with no tag open is dropped.
pub open spec fn uncolored(s: Seq<char>, depth: nat) -> Seq<char>
    decreases s.len(),
{
    if s.len() == 0 {
        s
    } else {
        let c = s[0];
        let rest = s.drop_first();
        if c == '[' {
            uncolored(rest, depth + 1)
        } else if c == ']' {
            uncolored(rest, if depth > 0 { (depth - 1) as nat } else { 0 })
        } else if depth == 0 {
            seq![c] + uncolored(rest, 0)
        } else {
            uncolored(rest, depth)
        }
    }
}

/// What the relay shows of game text: styling glyphs and colour tags removed.
pub open spec fn sanitized(s: Seq<char>) -> Seq<char> {
    uncolored(unified(s), 0)
}

proof fn lemma_unified_step(s: Seq<char>, i: int)
    requires
        0 <= i < s.len(),
    ensures
        unified(s.subrange(i, s.len() as int)) == (if is_glyph(s[i]) {
            Seq::<char>::empty()
        } else {
            seq![s[i]]
        }) + unified(s.subrange(i + 1, s.len() as int)),
{
    assert(s.subrange(i, s.len() as int).drop_first() =~= s.subrange(i + 1, s.len() as int));
}

proof fn lemma_uncolored_step(s: Seq<char>, i: int, depth: nat)
    requires
        0 <= i < s.len(),
    ensures
        uncolored(s.subrange(i, s.len() as int), depth) == (if s[i] == '[' {
            uncolored(s.subrange(i + 1, s.len() as int), depth + 1)
        } else if s[i] == ']' {
            uncolored(
                s.subrange(i + 1, s.len() as int),
                if depth > 0 { (depth - 1) as nat } else { 0 },
            )
        } else if depth == 0 {
            seq![s[i]] + uncolored(s.subrange(i + 1, s.len() as int), 0)
        } else {
            uncolored(s.subrange(i + 1, s.len() as int), depth)
        }),
{
    assert(s.subrange(i, s.len() as int).drop_first() =~= s.subrange(i + 1, s.len() as int));
}

fn unify_chars(v: &Vec<char>) -> (r: Vec<char>)
    ensures
        r@ == unified(v@),
{
    let mut r: Vec<char> = Vec::new();
    let mut i: usize = 0;
    assert(v@.subrange(0, v@.len() as int) =~= v@);
    while i < v.len()
        invariant
            i <= v@.len(),
            r@ + unified(v@.subrange(i as int, v@.len() as int)) == unified(v@),
        decreases v@.len() - i,
    {
        proof {
            lemma_unified_step(v@, i as int);
        }
        let c = v[i];
        if !(GLYPH_BAND_START <= c && c <= GLYPH_BAND_END) {
            r.push(c);
        }
        i = i + 1;
        assert(r@ + unified(v@.subrange(i as int, v@.len() as int)) =~= unified(v@));
    }
    assert(v@.subrange(i as int, v@.len() as int) =~= Seq::<char>::empty());
    assert(r@ =~= unified(v@));
    r
}

pub(crate) fn uncolor_chars(v: &Vec<char>) -> (r: String)
    ensures
        r@ == uncolored(v@, 0),
{
    let mut r = String::new();
    let mut depth: usize = 0;
    let mut i: usize = 0;
    assert(v@.subrange(0, v@.len() as int) =~= v@);
    while i < v.len()
        invariant
            i <= v@.len(),
            depth <= i,
            r@ + uncolored(v@.subrange(i as int, v@.len() as int), depth as nat) == uncolored(v@, 0),
        decreases v@.len() - i,
    {
        proof {
            lemma_uncolored_step(v@, i as int, depth as nat);
        }
        let c = v[i];
        if c == '[' {
            depth = depth + 1;
        } else if c == ']' {
            if depth > 0 {
                depth = depth - 1;
            }
        } else if depth == 0 {
            r.push(c);
        }
        i = i + 1;
        assert(r@ + uncolored(v@.subrange(i as int, v@.len() as int), depth as nat) =~= uncolored(v@, 0));
    }
    assert(v@.subrange(i as int, v@.len() as int) =~= Seq::<char>::empty());
    assert(r@ =~= uncolored(v@, 0));
    r
}

/// Drops the characters of the game's private styling-glyph band.
pub fn unify(s: &str) -> (r: String)
    ensures
        r@ == unified(s@),
{
    let v = chars_of(s);
    let u = unify_chars(&v);
    crate::text::string_of(&u, 0, u.len())
}

/// Drops the game's `[colour]...[]` markup: characters are kept only while no
/// tag is open; `[` opens one, `]` closes one.
pub fn strip_colors(s: &str) -> (r: String)
    ensures
        r@ == uncolored(s@, 0),
{
    let v = chars_of(s);
    uncolor_chars(&v)
}

/// Both of the above: glyphs first, then colour markup.
pub fn sanitize(s: &Vec<char>) -> (r: String)
    ensures
        r@ == sanitized(s@),
{
    let u = unify_chars(s);
    uncolor_chars(&u)
}

} // verus!
