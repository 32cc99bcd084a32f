use vstd::prelude::*;

use crate::markup::{sanitize, sanitized};
use crate::text::{chars_of, matches_at, occurs_at, sub_vec};

verus! {

/// One line of console output, classified.
#[derive(PartialEq, Eq, Debug)]
pub enum Message {
    Join { player: String },
    Left { player: String },
    Chat { player: String, content: String },
    AdminChat { player: String, content: String },
    Load { map: String },
}

/// The value of a `Message`, as sequences of characters.
pub enum Event {
    Join { player: Seq<char> },
    Left { player: Seq<char> },
    Chat { player: Seq<char>, content: Seq<char> },
    AdminChat { player: Seq<char>, content: Seq<char> },
    Load { map: Seq<char> },
}

impl View for Message {
    type V = Event;

    open spec fn view(&self) -> Event {
        match self {
            Message::Join { player } => Event::Join { player: player@ },
            Message::Left { player } => Event::Left { player: player@ },
            Message::Chat { player, content } => Event::Chat { player: player@, content: content@ },
            Message::AdminChat { player, content } => Event::AdminChat {
                player: player@,
                content: content@,
            },
            Message::Load { map } => Event::Load { map: map@ },
        }
    }
}

pub open spec fn view_of(m: Option<Message>) -> Option<Event> {
    match m {
        Some(m) => Some(m@),
        None => None,
    }
}

/// Number of characters in the body of a session token; two `=` follow it.
pub const TOKEN_BODY: usize = 22;

/// Number of characters in a whole session token.
pub const TOKEN_LEN: usize = 24;

pub open spec fn is_token_char(c: char) -> bool {
    ('a' <= c && c <= 'z') || ('A' <= c && c <= 'Z') || ('0' <= c && c <= '9') || c == '+' || c
        == '/'
}

/// A session token starts at `i`: base-64 characters, then `==`.
pub open spec fn token_at(s: Seq<char>, i: int) -> bool {
    &&& 0 <= i
    &&& i + TOKEN_LEN <= s.len()
    &&& forall|j: int| 0 <= j < TOKEN_BODY ==> #[trigger] is_token_char(s[i + j])
    &&& s[i + TOKEN_BODY] == '='
    &&& s[i + TOKEN_BODY + 1] == '='
}

/// Some session token occurs in `s`.
pub open spec fn has_token(s: Seq<char>) -> bool {
    exists|i: int| token_at(s, i)
}

/// Lines that are continuations, stack-trace frames or known boilerplate.
pub open spec fn is_noise(s: Seq<char>) -> bool {
    ||| s.len() > 0 && (s[0] == ' ' || s[0] == '\t')
    ||| occurs_at(s, "at"@, 0)
    ||| occurs_at(s, "Lost command socket connection"@, 0)
    ||| occurs_at(s, "Kicking connection"@, 0)
}

/// `pat` occurs at `i` and nowhere before it.
pub open spec fn first_at(s: Seq<char>, pat: Seq<char>, i: int) -> bool {
    occurs_at(s, pat, i) && forall|j: int| 0 <= j < i ==> !occurs_at(s, pat, j)
}

/// `s` without its leading `<` characters.
pub open spec fn trim_open(s: Seq<char>) -> Seq<char>
    decreases s.len(),
{
    if s.len() > 0 && s[0] == '<' {
        trim_open(s.drop_first())
    } else {
        s
    }
}

/// `s` without its trailing `>` characters.
pub open spec fn trim_close(s: Seq<char>) -> Seq<char>
    decreases s.len(),
{
    if s.len() > 0 && s.last() == '>' {
        trim_close(s.drop_last())
    } else {
        s
    }
}

/// Speaker of a `name: content` line whose first `": "` is at `i`.
pub open spec fn chat_name(s: Seq<char>, i: int) -> Seq<char> {
    trim_open(s.subrange(0, i))
}

/// Content of a `name: content` line whose first `": "` is at `i`.
pub open spec fn chat_text(s: Seq<char>, i: int) -> Seq<char> {
    trim_close(s.subrange(i + 2, s.len() as int))
}

/// The line is chat whose first `": "` is at `i`.
pub open spec fn chat_at(s: Seq<char>, i: int) -> bool {
    &&& first_at(s, ": "@, i)
    &&& chat_name(s, i).len() > 0
    &&& chat_text(s, i).len() > 0
    &&& !has_token(chat_name(s, i))
    &&& !has_token(chat_text(s, i))
}

/// `marker`, a session token and `]` follow position `i`.
pub open spec fn presence_at(s: Seq<char>, marker: Seq<char>, i: int) -> bool {
    &&& occurs_at(s, marker, i)
    &&& token_at(s, i + marker.len())
    &&& occurs_at(s, "]"@, i + marker.len() + TOKEN_LEN)
}

pub open spec fn joined_at(s: Seq<char>, i: int) -> bool {
    presence_at(s, " has connected. ["@, i)
}

pub open spec fn left_at(s: Seq<char>, i: int) -> bool {
    presence_at(s, " has disconnected. ["@, i)
}

/// A join or leave notice whose name takes the longest possible prefix `s[..i]`.
pub open spec fn presence_name_end(s: Seq<char>, i: int) -> bool {
    &&& 1 <= i
    &&& joined_at(s, i) || left_at(s, i)
    &&& forall|j: int| i < j ==> !(#[trigger] joined_at(s, j) || left_at(s, j))
}

/// `"Loading map "` followed by at least one character, first occurring at `i`.
pub open spec fn load_at(s: Seq<char>, i: int) -> bool {
    &&& occurs_at(s, "Loading map "@, i)
    &&& i + 12 < s.len()
    &&& forall|j: int| 0 <= j < i ==> !(#[trigger] occurs_at(s, "Loading map "@, j) && j + 12 < s.len())
}

/// What a console line means to the relay; rules in order of priority.
pub open spec fn classified(s: Seq<char>) -> Option<Event> {
    if is_noise(s) {
        None
    } else if exists|i: int| chat_at(s, i) {
        classified_chat(s)
    } else if exists|i: int| presence_name_end(s, i) {
        classified_presence(s)
    } else if exists|i: int| load_at(s, i) {
        classified_load(s)
    } else {
        None
    }
}


fn token_at_exec(v: &Vec<char>, from: usize, to: usize, i: usize) -> (r: bool)
    requires
        from <= to <= v@.len(),
    ensures
        r == token_at(v@.subrange(from as int, to as int), i as int),
{
    let ghost sub = v@.subrange(from as int, to as int);
    if i > to - from || to - from - i < TOKEN_LEN {
        return false;
    }
    let start = from + i;
    let mut j: usize = 0;
    while j < TOKEN_BODY
        invariant
            from <= to <= v@.len(),
            start == from + i,
            start + TOKEN_LEN <= to,
            sub == v@.subrange(from as int, to as int),
            j <= TOKEN_BODY,
            forall|k: int| 0 <= k < j ==> #[trigger] is_token_char(sub[i + k]),
        decreases TOKEN_BODY - j,
    {
        let c = v[start + j];
        if !(('a' <= c && c <= 'z') || ('A' <= c && c <= 'Z') || ('0' <= c && c <= '9') || c
            == '+' || c == '/') {
            assert(!is_token_char(sub[i + j]));
            return false;
        }
        j = j + 1;
    }
    v[start + TOKEN_BODY] == '=' && v[start + TOKEN_BODY + 1] == '='
}

/// Whether a session token occurs in `v[from..to]`.
fn has_token_in(v: &Vec<char>, from: usize, to: usize) -> (r: bool)
    requires
        from <= to <= v@.len(),
    ensures
        r == has_token(v@.subrange(from as int, to as int)),
{
    let ghost sub = v@.subrange(from as int, to as int);
    let n = to - from;
    let mut i: usize = 0;
    while i < n
        invariant
            from <= to <= v@.len(),
            n == to - from,
            sub == v@.subrange(from as int, to as int),
            i <= n,
            forall|k: int| 0 <= k < i ==> !#[trigger] token_at(sub, k),
        decreases n - i,
    {
        if token_at_exec(v, from, to, i) {
            return true;
        }
        i = i + 1;
    }
    assert forall|k: int| !#[trigger] token_at(sub, k) by {
        if 0 <= k < i {
        }
    }
    false
}

/// Whether `v` is a noise line.
pub(crate) fn noise(v: &Vec<char>) -> (r: bool)
    ensures
        r == is_noise(v@),
{
    (v.len() > 0 && (v[0] == ' ' || v[0] == '\t')) || matches_at(v, "at", 0) || matches_at(
        v,
        "Lost command socket connection",
        0,
    ) || matches_at(v, "Kicking connection", 0)
}

/// Position of the first occurrence of `pat` in `v`.
pub(crate) fn find_first(v: &Vec<char>, pat: &str) -> (r: Option<usize>)
    ensures
        r matches Some(i) ==> first_at(v@, pat@, i as int),
        r is None ==> forall|j: int| !#[trigger] occurs_at(v@, pat@, j),
{
    let n = v.len();
    let mut i: usize = 0;
    while i < n
        invariant
            n == v@.len(),
            i <= n,
            forall|j: int| 0 <= j < i ==> !#[trigger] occurs_at(v@, pat@, j),
        decreases n - i,
    {
        if matches_at(v, pat, i) {
            return Some(i);
        }
        i = i + 1;
    }
    if matches_at(v, pat, n) {
        return Some(n);
    }
    assert forall|j: int| !#[trigger] occurs_at(v@, pat@, j) by {
        if 0 <= j < i {
        }
    }
    None
}

pub(crate) proof fn lemma_first_unique(s: Seq<char>, pat: Seq<char>, i: int, j: int)
    requires
        first_at(s, pat, i),
        first_at(s, pat, j),
    ensures
        i == j,
{
    if i < j {
        assert(!occurs_at(s, pat, i));
    } else if j < i {
        assert(!occurs_at(s, pat, j));
    }
}

/// Start of `trim_open(v[from..to])`.
fn skip_open(v: &Vec<char>, from: usize, to: usize) -> (a: usize)
    requires
        from <= to <= v@.len(),
    ensures
        from <= a <= to,
        v@.subrange(a as int, to as int) == trim_open(v@.subrange(from as int, to as int)),
{
    let mut a = from;
    while a < to && v[a] == '<'
        invariant
            from <= a <= to <= v@.len(),
            trim_open(v@.subrange(a as int, to as int)) == trim_open(
                v@.subrange(from as int, to as int),
            ),
        decreases to - a,
    {
        assert(v@.subrange(a as int, to as int).drop_first() =~= v@.subrange(a + 1, to as int));
        a = a + 1;
    }
    a
}

/// End of `trim_close(v[from..to])`.
fn skip_close(v: &Vec<char>, from: usize, to: usize) -> (b: usize)
    requires
        from <= to <= v@.len(),
    ensures
        from <= b <= to,
        v@.subrange(from as int, b as int) == trim_close(v@.subrange(from as int, to as int)),
{
    let mut b = to;
    while b > from && v[b - 1] == '>'
        invariant
            from <= b <= to <= v@.len(),
            trim_close(v@.subrange(from as int, b as int)) == trim_close(
                v@.subrange(from as int, to as int),
            ),
        decreases b - from,
    {
        assert(v@.subrange(from as int, b as int).drop_last() =~= v@.subrange(
            from as int,
            b - 1,
        ));
        b = b - 1;
    }
    b
}

fn presence_exec(v: &Vec<char>, marker: &str, i: usize) -> (r: bool)
    ensures
        r == presence_at(v@, marker@, i as int),
{
    let n = v.len();
    if !matches_at(v, marker, i) {
        return false;
    }
    let t = i + marker.unicode_len();
    if !token_at_exec(v, 0, n, t) {
        assert(v@.subrange(0, n as int) =~= v@);
        return false;
    }
    assert(v@.subrange(0, n as int) =~= v@);
    matches_at(v, "]", t + TOKEN_LEN)
}


proof fn lemma_presence_unique(s: Seq<char>, i: int, k: int)
    requires
        presence_name_end(s, i),
        presence_name_end(s, k),
    ensures
        i == k,
{
    if i < k {
        assert(joined_at(s, k) || left_at(s, k));
    } else if k < i {
        assert(joined_at(s, i) || left_at(s, i));
    }
}

proof fn lemma_load_unique(s: Seq<char>, i: int, k: int)
    requires
        load_at(s, i),
        load_at(s, k),
    ensures
        i == k,
{
    if i < k {
        assert(occurs_at(s, "Loading map "@, i) && i + 12 < s.len());
    } else if k < i {
        assert(occurs_at(s, "Loading map "@, k) && k + 12 < s.len());
    }
}

/// The chat reading of `v`, if its first `": "` splits it into a speaker and content.
fn chat_of(v: &Vec<char>) -> (r: Option<Message>)
    ensures
        r is Some <==> exists|i: int| chat_at(v@, i),
        r is Some ==> view_of(r) == classified_chat(v@),
{
    proof {
        reveal_strlit(": ");
    }
    let n = v.len();
    let i = match find_first(v, ": ") {
        Some(i) => i,
        None => {
            return None;
        },
    };
    let a = skip_open(v, 0, i);
    let b = skip_close(v, i + 2, n);
    if a == i || b == i + 2 || has_token_in(v, a, i) || has_token_in(v, i + 2, b) {
        proof {
            assert forall|k: int| !chat_at(v@, k) by {
                if chat_at(v@, k) {
                    lemma_first_unique(v@, ": "@, i as int, k);
                }
            }
        }
        return None;
    }
    assert(chat_at(v@, i as int));
    proof {
        let k = choose|k: int| chat_at(v@, k);
        lemma_first_unique(v@, ": "@, i as int, k);
    }
    let name = sub_vec(v, a, i);
    let text = sub_vec(v, i + 2, b);
    let player = sanitize(&name);
    let content = sanitize(&text);
    if matches_at(&text, "/a", 0) {
        Some(Message::AdminChat { player, content })
    } else {
        Some(Message::Chat { player, content })
    }
}

/// The chat branch of `classified`.
pub open spec fn classified_chat(s: Seq<char>) -> Option<Event> {
    let i = choose|i: int| chat_at(s, i);
    let player = sanitized(chat_name(s, i));
    let content = sanitized(chat_text(s, i));
    if occurs_at(chat_text(s, i), "/a"@, 0) {
        Some(Event::AdminChat { player, content })
    } else {
        Some(Event::Chat { player, content })
    }
}

/// The join or leave reading of `v`.
fn presence_of(v: &Vec<char>) -> (r: Option<Message>)
    ensures
        r is Some <==> exists|i: int| presence_name_end(v@, i),
        r is Some ==> view_of(r) == classified_presence(v@),
{
    let n = v.len();
    let mut i: usize = n;
    while i >= 1
        invariant
            n == v@.len(),
            i <= n,
            forall|j: int| i < j ==> !(#[trigger] joined_at(v@, j) || left_at(v@, j)),
        decreases i,
    {
        let left = presence_exec(v, " has disconnected. [", i);
        let joined = presence_exec(v, " has connected. [", i);
        if left || joined {
            assert(presence_name_end(v@, i as int));
            proof {
                let k = choose|k: int| presence_name_end(v@, k);
                lemma_presence_unique(v@, i as int, k);
            }
            let name = sub_vec(v, 0, i);
            let player = sanitize(&name);
            if left {
                return Some(Message::Left { player });
            } else {
                return Some(Message::Join { player });
            }
        }
        proof {
            assert forall|j: int| i - 1 < j implies !(#[trigger] joined_at(v@, j) || left_at(v@, j)) by {
                if j == i {
                }
            }
        }
        i = i - 1;
    }
    assert forall|k: int| !presence_name_end(v@, k) by {
        if presence_name_end(v@, k) {
            assert(joined_at(v@, k) || left_at(v@, k));
        }
    }
    None
}

/// The join or leave branch of `classified`.
pub open spec fn classified_presence(s: Seq<char>) -> Option<Event> {
    let i = choose|i: int| presence_name_end(s, i);
    let player = sanitized(s.subrange(0, i));
    if left_at(s, i) {
        Some(Event::Left { player })
    } else {
        Some(Event::Join { player })
    }
}

/// The map-load reading of `v`.
fn load_of(v: &Vec<char>) -> (r: Option<Message>)
    ensures
        r is Some <==> exists|i: int| load_at(v@, i),
        r is Some ==> view_of(r) == classified_load(v@),
{
    proof {
        reveal_strlit("Loading map ");
    }
    let n = v.len();
    let mut i: usize = 0;
    while i < n
        invariant
            n == v@.len(),
            i <= n,
            forall|j: int| 0 <= j < i ==> !(#[trigger] occurs_at(v@, "Loading map "@, j) && j + 12 < v@.len()),
        decreases n - i,
    {
        if matches_at(v, "Loading map ", i) && n > 12 && i < n - 12 {
            assert(load_at(v@, i as int));
            proof {
                let k = choose|k: int| load_at(v@, k);
                lemma_load_unique(v@, i as int, k);
            }
            let name = sub_vec(v, i + 12, n);
            return Some(Message::Load { map: sanitize(&name) });
        }
        i = i + 1;
    }
    assert forall|k: int| !load_at(v@, k) by {
        if load_at(v@, k) {
            assert(k < i);
        }
    }
    None
}

/// The map-load branch of `classified`.
pub open spec fn classified_load(s: Seq<char>) -> Option<Event> {
    let i = choose|i: int| load_at(s, i);
    Some(Event::Load { map: sanitized(s.subrange(i + 12, s.len() as int)) })
}

/// Classifies one line of console output: noise and unrecognised lines give
/// `None`; chat, admin chat, joins, leaves and map loads give their `Message`,
/// with names and text passed through `sanitize`.
pub fn classify(line: &str) -> (r: Option<Message>)
    ensures
        view_of(r) == classified(line@),
{
    let v = chars_of(line);
    if noise(&v) {
        return None;
    }
    let chat = chat_of(&v);
    if chat.is_some() {
        return chat;
    }
    let presence = presence_of(&v);
    if presence.is_some() {
        return presence;
    }
    load_of(&v)
}

} // verus!
