use vstd::prelude::*;

use crate::markup::{sanitize, sanitized};
use crate::parser::{classified, classify, is_noise, Event, Message};
use crate::text::{chars_of, lines_of, split_lines, strings_view};

verus! {

/// One message for the chat sink: its speaker (`None` for the server itself)
/// and its text.
#[derive(PartialEq, Eq, Debug)]
pub struct Outgoing {
    pub speaker: Option<String>,
    pub content: String,
}

/// The value of an `Outgoing`.
pub struct Post {
    pub from: Option<Seq<char>>,
    pub text: Seq<char>,
}

pub open spec fn speaker_view(s: Option<String>) -> Option<Seq<char>> {
    match s {
        Some(s) => Some(s@),
        None => None,
    }
}

impl View for Outgoing {
    type V = Post;

    open spec fn view(&self) -> Post {
        Post { from: speaker_view(self.speaker), text: self.content@ }
    }
}

pub open spec fn posts_view(v: Seq<Outgoing>) -> Seq<Post> {
    v.map_values(|o: Outgoing| o@)
}

/// Name under which server messages are delivered.
pub const SERVER_NAME: &'static str = "server";

impl Outgoing {
    /// The name the sink shows: the speaker, or `server` for server messages.
    pub fn display_name(&self) -> (r: String)
        ensures
            self.speaker matches Some(s) ==> r@ == s@,
            self.speaker is None ==> r@ == SERVER_NAME@,
    {
        match &self.speaker {
            Some(s) => s.clone(),
            None => String::from_str(SERVER_NAME),
        }
    }
}

/// What the relay makes of one console line: a post, or nothing. Chat, joins and
/// leaves are posts of their player; map loads and any other line that is not
/// noise are server posts. Admin chat stays in the game.
pub open spec fn post_of(line: Seq<char>) -> Option<Post> {
    match classified(line) {
        Some(Event::Chat { player, content }) => Some(Post { from: Some(player), text: content }),
        Some(Event::Join { player }) => Some(
            Post { from: Some(player), text: "<has joined the game>"@ },
        ),
        Some(Event::Left { player }) => Some(Post { from: Some(player), text: "<has left the game>"@ }),
        Some(Event::Load { map }) => Some(Post { from: None, text: "loading map "@ + map }),
        Some(Event::AdminChat { .. }) => None,
        None => if line.len() == 0 || is_noise(line) {
            None
        } else {
            Some(Post { from: None, text: sanitized(line) })
        },
    }
}

/// Consecutive posts of one speaker merged into one, their texts joined by
/// newlines.
pub open spec fn grouped(posts: Seq<Post>) -> Seq<Post>
    decreases posts.len(),
{
    if posts.len() == 0 {
        Seq::empty()
    } else {
        let g = grouped(posts.drop_last());
        let p = posts.last();
        if g.len() > 0 && g.last().from == p.from {
            g.update(g.len() - 1, Post { from: p.from, text: g.last().text + seq!['\n'] + p.text })
        } else {
            g.push(p)
        }
    }
}

/// Turns one console line into a post, as `post_of` says.
pub fn post_from_line(line: &str) -> (r: Option<Outgoing>)
    ensures
        r matches Some(o) ==> post_of(line@) == Some(o@),
        r is None ==> post_of(line@) is None,
{
    match classify(line) {
        Some(Message::Chat { player, content }) => Some(
            Outgoing { speaker: Some(player), content },
        ),
        Some(Message::Join { player }) => Some(
            Outgoing { speaker: Some(player), content: String::from_str("<has joined the game>") },
        ),
        Some(Message::Left { player }) => Some(
            Outgoing { speaker: Some(player), content: String::from_str("<has left the game>") },
        ),
        Some(Message::Load { map }) => {
            let mut content = String::from_str("loading map ");
            content.push_str(map.as_str());
            Some(Outgoing { speaker: None, content })
        },
        Some(Message::AdminChat { .. }) => None,
        None => {
            let v = chars_of(line);
            if v.len() == 0 || crate::parser::noise(&v) {
                None
            } else {
                Some(Outgoing { speaker: None, content: sanitize(&v) })
            }
        },
    }
}


fn same_speaker(a: &Option<String>, b: &Option<String>) -> (r: bool)
    ensures
        r == (speaker_view(*a) == speaker_view(*b)),
{
    match (a, b) {
        (Some(x), Some(y)) => x.eq(y),
        (None, None) => true,
        _ => false,
    }
}

/// Adds one post to the merged list: onto the last message if the speaker is
/// the same, else as a message of its own.
fn merge_into(posts: &mut Vec<Outgoing>, p: Outgoing, entries: Ghost<Seq<Post>>)
    requires
        posts_view(old(posts)@) == grouped(entries@),
    ensures
        posts_view(final(posts)@) == grouped(entries@.push(p@)),
{
    let ghost all = entries@.push(p@);
    assert(all.drop_last() =~= entries@);
    let n = posts.len();
    if n > 0 && same_speaker(&posts[n - 1].speaker, &p.speaker) {
        let mut last = posts.pop().unwrap();
        let ghost before = last;
        last.content.push('\n');
        last.content.push_str(p.content.as_str());
        posts.push(last);
        proof {
            let g = grouped(entries@);
            assert(posts_view(old(posts)@)[n - 1] == before@);
            assert(g.last() == before@);
            assert(before.content@.push('\n') + p.content@ =~= g.last().text + seq!['\n'] + p@.text);
            assert(posts_view(posts@) =~= grouped(all));
        }
    } else {
        posts.push(p);
        proof {
            assert(posts_view(posts@) =~= grouped(all));
        }
    }
}

/// Time in milliseconds from `from` to `to`; none if `to` is earlier.
pub open spec fn elapsed(from: u64, to: u64) -> int {
    if to >= from {
        to - from
    } else {
        0
    }
}

/// The state of a relay: the posts accumulated since the last flush, the time
/// of the latest one, the line cap and the idle interval.
pub struct RelayState {
    pub pending: Seq<Post>,
    pub last: u64,
    pub cap: nat,
    pub idle: u64,
}

/// A relay after one console line arrives at `now`, and what it hands out: a
/// line that makes a post joins the pending ones; if they are then over the
/// cap, all are handed out, merged, and none stays pending.
pub open spec fn fed(s: RelayState, line: Seq<char>, now: u64) -> (RelayState, Seq<Post>) {
    match post_of(line) {
        None => (s, Seq::empty()),
        Some(p) => {
            let all = s.pending.push(p);
            if all.len() > s.cap {
                (RelayState { pending: Seq::empty(), last: now, ..s }, grouped(all))
            } else {
                (RelayState { pending: all, last: now, ..s }, Seq::empty())
            }
        },
    }
}

/// A relay after `lines` arrive at `now`, in order, and all it hands out.
pub open spec fn fed_all(s: RelayState, lines: Seq<Seq<char>>, now: u64) -> (RelayState, Seq<Post>)
    decreases lines.len(),
{
    if lines.len() == 0 {
        (s, Seq::empty())
    } else {
        let (mid, out) = fed_all(s, lines.drop_last(), now);
        let (end, more) = fed(mid, lines.last(), now);
        (end, out + more)
    }
}

/// Whether an idle check at `now` flushes: something is pending and the idle
/// interval has passed since the latest post.
pub open spec fn idle_due(s: RelayState, now: u64) -> bool {
    s.pending.len() > 0 && elapsed(s.last, now) > s.idle
}

/// Accumulates console lines as posts and hands them out merged, when more than
/// `cap` lines are pending or when none has come for longer than `idle`
/// milliseconds.
pub struct Relay {
    posts: Vec<Outgoing>,
    pending: Ghost<Seq<Post>>,
    lines: usize,
    last: u64,
    cap: usize,
    idle: u64,
}

impl View for Relay {
    type V = RelayState;

    closed spec fn view(&self) -> RelayState {
        RelayState { pending: self.pending@, last: self.last, cap: self.cap as nat, idle: self.idle }
    }
}

impl Relay {
    closed spec fn consistent(&self) -> bool {
        &&& posts_view(self.posts@) == grouped(self.pending@)
        &&& self.lines == self.pending@.len()
        &&& self.cap < usize::MAX
    }

    pub closed spec fn wf(&self) -> bool {
        self.consistent() && self.lines <= self.cap
    }

    /// A relay with nothing pending.
    pub fn new(cap: usize, idle: u64) -> (r: Relay)
        requires
            cap < usize::MAX,
        ensures
            r.wf(),
            r@.pending == Seq::<Post>::empty(),
            r@.cap == cap,
            r@.idle == idle,
    {
        let r = Relay { posts: Vec::new(), pending: Ghost(Seq::empty()), lines: 0, last: 0, cap, idle };
        assert(posts_view(r.posts@) =~= grouped(r.pending@));
        r
    }

    /// Hands out everything pending, merged, and starts afresh.
    fn flush(&mut self) -> (r: Vec<Outgoing>)
        requires
            old(self).consistent(),
        ensures
            final(self).wf(),
            posts_view(r@) == grouped(old(self)@.pending),
            final(self)@ == (RelayState { pending: Seq::empty(), ..old(self)@ }),
    {
        let mut r: Vec<Outgoing> = Vec::new();
        core::mem::swap(&mut r, &mut self.posts);
        self.pending = Ghost(Seq::empty());
        self.lines = 0;
        assert(posts_view(self.posts@) =~= grouped(self.pending@));
        r
    }

    /// Takes one console line received at `now`, as `fed` says.
    pub fn feed(&mut self, line: &str, now: u64) -> (r: Vec<Outgoing>)
        requires
            old(self).wf(),
        ensures
            final(self).wf(),
            final(self)@ == fed(old(self)@, line@, now).0,
            posts_view(r@) == fed(old(self)@, line@, now).1,
    {
        match post_from_line(line) {
            None => {
                let r: Vec<Outgoing> = Vec::new();
                assert(posts_view(r@) =~= Seq::<Post>::empty());
                r
            },
            Some(p) => {
                let ghost before = self.pending@;
                merge_into(&mut self.posts, p, self.pending);
                self.pending = Ghost(before.push(p@));
                self.lines = self.lines + 1;
                self.last = now;
                if self.lines > self.cap {
                    self.flush()
                } else {
                    let r: Vec<Outgoing> = Vec::new();
                    assert(posts_view(r@) =~= Seq::<Post>::empty());
                    r
                }
            },
        }
    }

    /// Takes a chunk of console output received at `now`, line by line, as
    /// `fed_all` says.
    pub fn feed_chunk(&mut self, chunk: &str, now: u64) -> (r: Vec<Outgoing>)
        requires
            old(self).wf(),
        ensures
            final(self).wf(),
            final(self)@ == fed_all(old(self)@, lines_of(chunk@), now).0,
            posts_view(r@) == fed_all(old(self)@, lines_of(chunk@), now).1,
    {
        let v = chars_of(chunk);
        let lines = split_lines(&v);
        let ghost ls = lines_of(chunk@);
        let mut r: Vec<Outgoing> = Vec::new();
        let mut i: usize = 0;
        assert(ls.subrange(0, 0) =~= Seq::<Seq<char>>::empty());
        assert(posts_view(r@) =~= Seq::<Post>::empty());
        while i < lines.len()
            invariant
                self.wf(),
                strings_view(lines@) == ls,
                i <= lines@.len(),
                self@ == fed_all(old(self)@, ls.subrange(0, i as int), now).0,
                posts_view(r@) == fed_all(old(self)@, ls.subrange(0, i as int), now).1,
            decreases lines@.len() - i,
        {
            let mut out = self.feed(lines[i].as_str(), now);
            let ghost before = r@;
            let ghost got = out@;
            r.append(&mut out);
            assert(ls.subrange(0, i + 1).drop_last() =~= ls.subrange(0, i as int));
            assert(ls[i as int] == lines@[i as int]@);
            assert(posts_view(r@) =~= posts_view(before) + posts_view(got));
            i = i + 1;
        }
        assert(ls.subrange(0, i as int) =~= ls);
        r
    }

    /// The idle check at `now`: hands out everything pending, merged, if
    /// `idle_due`; else nothing, and the relay stays as it was.
    pub fn poll(&mut self, now: u64) -> (r: Vec<Outgoing>)
        requires
            old(self).wf(),
        ensures
            final(self).wf(),
            idle_due(old(self)@, now) ==> posts_view(r@) == grouped(old(self)@.pending)
                && final(self)@ == (RelayState { pending: Seq::empty(), ..old(self)@ }),
            !idle_due(old(self)@, now) ==> r@.len() == 0 && final(self)@ == old(self)@,
    {
        let since = if now >= self.last {
            now - self.last
        } else {
            0
        };
        if self.lines > 0 && since > self.idle {
            self.flush()
        } else {
            Vec::new()
        }
    }
}


/// Debounce: a line that keeps the pending posts within the cap is held back;
/// the line that takes them over the cap hands out all of them, merged, at
/// once; and a relay that has just handed everything out owes nothing to an
/// idle check, whenever it comes.
pub proof fn lemma_debounce(s: RelayState, line: Seq<char>, now: u64, later: u64)
    requires
        post_of(line) is Some,
    ensures
        s.pending.len() + 1 <= s.cap ==> fed(s, line, now).1.len() == 0
            && fed(s, line, now).0.pending == s.pending.push(post_of(line).unwrap()),
        s.pending.len() + 1 > s.cap ==> fed(s, line, now).1 == grouped(
            s.pending.push(post_of(line).unwrap()),
        ) && !idle_due(fed(s, line, now).0, later),
        !idle_due(RelayState { pending: Seq::empty(), ..s }, later),
{
}

} // verus!
