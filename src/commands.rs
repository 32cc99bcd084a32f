use vstd::prelude::*;

use crate::markup::{uncolor_chars, uncolored};
use crate::parser::{find_first, first_at};
use crate::text::{chars_of, lines_of, matches_at, occurs_at, split_lines, string_of, strings_view, sub_vec};

verus! {

/// A team of the game's leaderboard.
#[derive(PartialEq, Eq, Structural, Debug, Clone, Copy)]
pub enum Team {
    Survivor,
    Infected,
}

impl Team {
    /// The team's name in the console's `lb` command.
    pub fn code(&self) -> (r: &'static str)
        ensures
            *self == Team::Survivor ==> r@ == "surv"@,
            *self == Team::Infected ==> r@ == "inf"@,
    {
        match self {
            Team::Survivor => "surv",
            Team::Infected => "inf",
        }
    }

    /// The console command that asks for the team's leaderboard.
    pub fn leaderboard_command(&self) -> (r: String)
        ensures
            *self == Team::Survivor ==> r@ == "lb surv"@,
            *self == Team::Infected ==> r@ == "lb inf"@,
    {
        let mut r = String::from_str("lb ");
        r.push_str(self.code());
        proof {
            reveal_strlit("lb ");
            reveal_strlit("surv");
            reveal_strlit("inf");
            reveal_strlit("lb surv");
            reveal_strlit("lb inf");
        }
        assert(*self == Team::Survivor ==> r@ =~= "lb surv"@);
        assert(*self == Team::Infected ==> r@ =~= "lb inf"@);
        r
    }
}


/// One player, as the console's `players` command lists them.
#[derive(PartialEq, Eq, Debug)]
pub struct Player {
    pub admin: bool,
    pub name: String,
    pub uuid: String,
    pub ip: String,
}

/// The value of a `Player`.
pub struct PlayerView {
    pub admin: bool,
    pub name: Seq<char>,
    pub uuid: Seq<char>,
    pub ip: Seq<char>,
}

impl View for Player {
    type V = PlayerView;

    open spec fn view(&self) -> PlayerView {
        PlayerView { admin: self.admin, name: self.name@, uuid: self.uuid@, ip: self.ip@ }
    }
}

pub open spec fn players_view(v: Seq<Player>) -> Seq<PlayerView> {
    v.map_values(|p: Player| p@)
}

/// `l` holds exactly two `|`, at `i` and at `j`.
pub open spec fn two_bars(l: Seq<char>, i: int, j: int) -> bool {
    &&& 0 <= i < j < l.len()
    &&& l[i] == '|'
    &&& l[j] == '|'
    &&& forall|k: int| 0 <= k < l.len() && k != i && k != j ==> l[k] != '|'
}

/// The player that a line `[A] name|uuid|ip` (or `name` after some other first
/// word) describes: the line has exactly three `|`-separated parts, and the
/// first holds a space. The admin mark is the word `[A]`; colour markup is
/// removed from the name.
pub open spec fn player_line(l: Seq<char>) -> Option<PlayerView> {
    if exists|i: int, j: int| two_bars(l, i, j) {
        let (i, j) = choose|i: int, j: int| two_bars(l, i, j);
        let first = l.subrange(0, i);
        if exists|k: int| first_at(first, " "@, k) {
            let k = choose|k: int| first_at(first, " "@, k);
            Some(
                PlayerView {
                    admin: first.subrange(0, k) == "[A]"@,
                    name: uncolored(first.subrange(k + 1, i), 0),
                    uuid: l.subrange(i + 1, j),
                    ip: l.subrange(j + 1, l.len() as int),
                },
            )
        } else {
            None
        }
    } else {
        None
    }
}

/// The players that the lines of a `players` reply list, up to the first line
/// that starts with `No`.
pub open spec fn players_in(lines: Seq<Seq<char>>) -> Seq<PlayerView>
    decreases lines.len(),
{
    if lines.len() == 0 || occurs_at(lines[0], "No"@, 0) {
        Seq::empty()
    } else {
        let rest = players_in(lines.drop_first());
        match player_line(lines[0]) {
            Some(p) => seq![p] + rest,
            None => rest,
        }
    }
}

proof fn lemma_two_bars_unique(l: Seq<char>, i: int, j: int, a: int, b: int)
    requires
        two_bars(l, i, j),
        0 <= a < b < l.len(),
        l[a] == '|',
        l[b] == '|',
    ensures
        a == i && b == j,
{
    if a != i && a != j {
        assert(l[a] != '|');
    }
    if b != i && b != j {
        assert(l[b] != '|');
    }
}

fn parse_player(v: &Vec<char>) -> (r: Option<Player>)
    ensures
        r matches Some(p) ==> player_line(v@) == Some(p@),
        r is None ==> player_line(v@) is None,
{
    let n = v.len();
    let mut count: usize = 0;
    let mut b1: usize = 0;
    let mut b2: usize = 0;
    let mut k: usize = 0;
    while k < n
        invariant
            n == v@.len(),
            k <= n,
            count <= 2,
            count == 0 ==> forall|m: int| 0 <= m < k ==> v@[m] != '|',
            count >= 1 ==> b1 < k && v@[b1 as int] == '|' && forall|m: int| 0 <= m < b1 ==> v@[m] != '|',
            count == 1 ==> forall|m: int| b1 < m < k ==> v@[m] != '|',
            count == 2 ==> b1 < b2 < k && v@[b2 as int] == '|' && (forall|m: int| b1 < m < b2 ==> v@[m] != '|') && (forall|m: int| b2 < m < k ==> v@[m] != '|'),
        decreases n - k,
    {
        if v[k] == '|' {
            if count == 0 {
                b1 = k;
                count = 1;
            } else if count == 1 {
                b2 = k;
                count = 2;
            } else {
                proof {
                    assert forall|i: int, j: int| !two_bars(v@, i, j) by {
                        if two_bars(v@, i, j) {
                            lemma_two_bars_unique(v@, i, j, b1 as int, b2 as int);
                            assert(v@[k as int] != '|');
                        }
                    }
                }
                return None;
            }
        }
        k = k + 1;
    }
    if count < 2 {
        proof {
            assert forall|i: int, j: int| !two_bars(v@, i, j) by {
                if two_bars(v@, i, j) {
                    if count == 1 {
                        if i != b1 as int {
                            assert(v@[i] != '|');
                        } else {
                            assert(v@[j] != '|');
                        }
                    } else {
                        assert(v@[i] != '|');
                    }
                }
            }
        }
        return None;
    }
    assert(two_bars(v@, b1 as int, b2 as int));
    proof {
        let (i, j) = choose|i: int, j: int| two_bars(v@, i, j);
        lemma_two_bars_unique(v@, i, j, b1 as int, b2 as int);
    }
    let first = sub_vec(v, 0, b1);
    let sp = match find_first(&first, " ") {
        Some(sp) => sp,
        None => {
            return None;
        },
    };
    proof {
        reveal_strlit(" ");
        reveal_strlit("[A]");
        let k = choose|k: int| first_at(first@, " "@, k);
        crate::parser::lemma_first_unique(first@, " "@, k, sp as int);
    }
    let admin = sp == 3 && matches_at(&first, "[A]", 0);
    proof {
        if sp == 3 {
            assert(occurs_at(first@, "[A]"@, 0) == (first@.subrange(0, 3) == "[A]"@));
        } else {
            assert(first@.subrange(0, sp as int).len() != "[A]"@.len());
        }
    }
    let name_chars = sub_vec(v, sp + 1, b1);
    assert(name_chars@ =~= first@.subrange(sp + 1, b1 as int));
    let name = uncolor_chars(&name_chars);
    let uuid = string_of(v, b1 + 1, b2);
    let ip = string_of(v, b2 + 1, n);
    Some(Player { admin, name, uuid, ip })
}

/// The players online, as the console's `players` command lists them.
pub struct Players {
    pub all: Vec<Player>,
}

impl Players {
    /// Reads a `players` reply: one player per line that `player_line`
    /// accepts, up to the first line that starts with `No`.
    pub fn parse(reply: &str) -> (r: Players)
        ensures
            players_view(r.all@) == players_in(lines_of(reply@)),
    {
        let v = chars_of(reply);
        let lines = split_lines(&v);
        let ghost ls = lines_of(reply@);
        let mut all: Vec<Player> = Vec::new();
        let mut i: usize = 0;
        assert(ls.subrange(0, ls.len() as int) =~= ls);
        while i < lines.len()
            invariant
                ls == lines_of(reply@),
                strings_view(lines@) == ls,
                i <= lines@.len(),
                players_view(all@) + players_in(ls.subrange(i as int, ls.len() as int)) == players_in(ls),
            decreases lines@.len() - i,
        {
            let line = chars_of(lines[i].as_str());
            assert(line@ == ls[i as int]);
            assert(ls.subrange(i as int, ls.len() as int).drop_first() =~= ls.subrange(i + 1, ls.len() as int));
            if matches_at(&line, "No", 0) {
                assert(ls.subrange(i as int, ls.len() as int)[0] == line@);
                assert(players_in(ls.subrange(i as int, ls.len() as int)) == Seq::<PlayerView>::empty());
                assert(players_view(all@) + players_in(ls.subrange(i as int, ls.len() as int)) =~= players_view(all@));
                return Players { all };
            }
            let ghost before = all@;
            match parse_player(&line) {
                Some(p) => {
                    all.push(p);
                    assert(players_view(all@) =~= players_view(before).push(p@));
                    assert(players_view(all@) + players_in(ls.subrange(i + 1, ls.len() as int)) =~= players_view(before) + players_in(ls.subrange(i as int, ls.len() as int)));
                },
                None => {},
            }
            i = i + 1;
        }
        assert(ls.subrange(i as int, ls.len() as int) =~= Seq::<Seq<char>>::empty());
        assert(players_view(all@) =~= players_in(ls));
        Players { all }
    }

    /// All players listed.
    pub fn get_all(&self) -> (r: &Vec<Player>)
        ensures
            r@ == self.all@,
    {
        &self.all
    }

    /// The position of the first player named `name`.
    pub fn find(&self, name: &str) -> (r: Option<usize>)
        ensures
            r matches Some(i) ==> i < self.all@.len() && self.all@[i as int].name@ == name@
                && forall|j: int| 0 <= j < i ==> self.all@[j].name@ != name@,
            r is None ==> forall|j: int| 0 <= j < self.all@.len() ==> self.all@[j].name@ != name@,
    {
        let target = String::from_str(name);
        let mut i: usize = 0;
        while i < self.all.len()
            invariant
                i <= self.all@.len(),
                target@ == name@,
                forall|j: int| 0 <= j < i ==> self.all@[j].name@ != name@,
            decreases self.all@.len() - i,
        {
            if self.all[i].name.eq(&target) {
                return Some(i);
            }
            i = i + 1;
        }
        None
    }
}


/// The map name that a line of a `maps` reply gives: the text after its first
/// `:`, colour markup removed.
pub open spec fn map_line(l: Seq<char>) -> Option<Seq<char>> {
    if exists|i: int| first_at(l, ":"@, i) {
        let i = choose|i: int| first_at(l, ":"@, i);
        Some(uncolored(l.subrange(i + 1, l.len() as int), 0))
    } else {
        None
    }
}

/// The map names that the lines of a `maps` reply give, in order.
pub open spec fn maps_in(lines: Seq<Seq<char>>) -> Seq<Seq<char>>
    decreases lines.len(),
{
    if lines.len() == 0 {
        Seq::empty()
    } else {
        let rest = maps_in(lines.drop_first());
        match map_line(lines[0]) {
            Some(m) => seq![m] + rest,
            None => rest,
        }
    }
}

/// The maps that the server offers, as its `maps` command lists them.
pub struct Maps {
    pub all: Vec<String>,
}

impl Maps {
    /// Reads a `maps` reply: one map per line that holds a `:`.
    pub fn parse(reply: &str) -> (r: Maps)
        ensures
            strings_view(r.all@) == maps_in(lines_of(reply@)),
    {
        let v = chars_of(reply);
        let lines = split_lines(&v);
        let ghost ls = lines_of(reply@);
        let mut all: Vec<String> = Vec::new();
        let mut i: usize = 0;
        assert(ls.subrange(0, ls.len() as int) =~= ls);
        while i < lines.len()
            invariant
                ls == lines_of(reply@),
                strings_view(lines@) == ls,
                i <= lines@.len(),
                strings_view(all@) + maps_in(ls.subrange(i as int, ls.len() as int)) == maps_in(ls),
            decreases lines@.len() - i,
        {
            let line = chars_of(lines[i].as_str());
            assert(line@ == ls[i as int]);
            assert(ls.subrange(i as int, ls.len() as int).drop_first() =~= ls.subrange(i + 1, ls.len() as int));
            let ghost before = all@;
            let len = line.len();
            match find_first(&line, ":") {
                Some(c) => {
                    proof {
                        reveal_strlit(":");
                        let k = choose|k: int| first_at(line@, ":"@, k);
                        crate::parser::lemma_first_unique(line@, ":"@, k, c as int);
                    }
                    let rest = sub_vec(&line, c + 1, len);
                    let name = uncolor_chars(&rest);
                    all.push(name);
                    assert(strings_view(all@) =~= strings_view(before).push(name@));
                    assert(strings_view(all@) + maps_in(ls.subrange(i + 1, ls.len() as int)) =~= strings_view(before) + maps_in(ls.subrange(i as int, ls.len() as int)));
                },
                None => {},
            }
            i = i + 1;
        }
        assert(ls.subrange(i as int, ls.len() as int) =~= Seq::<Seq<char>>::empty());
        assert(strings_view(all@) =~= maps_in(ls));
        Maps { all }
    }

    /// All maps listed.
    pub fn get_all(&self) -> (r: &Vec<String>)
        ensures
            r@ == self.all@,
    {
        &self.all
    }

    /// The position of the map named `name`, if the server offers it.
    pub fn find(&self, name: &str) -> (r: Option<usize>)
        ensures
            r matches Some(i) ==> i < self.all@.len() && self.all@[i as int]@ == name@
                && forall|j: int| 0 <= j < i ==> self.all@[j]@ != name@,
            r is None ==> forall|j: int| 0 <= j < self.all@.len() ==> self.all@[j]@ != name@,
    {
        let target = String::from_str(name);
        let mut i: usize = 0;
        while i < self.all.len()
            invariant
                i <= self.all@.len(),
                target@ == name@,
                forall|j: int| 0 <= j < i ==> self.all@[j]@ != name@,
            decreases self.all@.len() - i,
        {
            if self.all[i].eq(&target) {
                return Some(i);
            }
            i = i + 1;
        }
        None
    }
}

} // verus!
