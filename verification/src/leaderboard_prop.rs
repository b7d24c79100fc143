//! The fields of the leaderboard titles.
use vstd::prelude::*;

use crate::text::{nat_to_dec, opt_view, usize_to_string};
use crate::vmix::{plain_numbered_name, VMixFunction, VMixInterfacer, VMixSelectionTrait};

verus! {

/// `<prefix><n><suffix>`.
pub open spec fn with_number(prefix: Seq<char>, n: usize, suffix: Seq<char>) -> Seq<char> {
    prefix + nat_to_dec(n as nat) + suffix
}

/// A field of the big leaderboard title, by row.
#[derive(Clone, Copy, Debug, PartialEq, Eq, Structural)]
pub enum LeaderBoardProperty {
    Position { pos: usize },
    Name(usize),
    HotRound(usize),
    RoundScore(usize),
    TotalScore { pos: usize },
    Move { pos: usize },
    Arrow { pos: usize },
    Thru(usize),
    CheckinText,
    TotalScoreTitle,
}

/// The id of the big leaderboard title.
pub const LEADERBOARD_INPUT: &'static str = "38ded319-d270-41ec-b161-130db4b19901";

impl VMixSelectionTrait for LeaderBoardProperty {
    open spec fn selection_name(&self) -> Seq<char> {
        match *self {
            LeaderBoardProperty::Position { pos } => with_number("pos#"@, pos, ""@),
            LeaderBoardProperty::Name(pos) => with_number("name#"@, pos, ""@),
            LeaderBoardProperty::HotRound(pos) => with_number("hrp"@, pos, ""@),
            LeaderBoardProperty::RoundScore(pos) => with_number("rs#"@, pos, ""@),
            LeaderBoardProperty::TotalScore { pos } => with_number("ts#"@, pos, ""@),
            LeaderBoardProperty::TotalScoreTitle => "ts"@,
            LeaderBoardProperty::Move { pos } => with_number("move"@, pos, ""@),
            LeaderBoardProperty::Arrow { pos } => with_number("arw"@, pos, ""@),
            LeaderBoardProperty::Thru(pos) => with_number("thru#"@, pos, ""@),
            LeaderBoardProperty::CheckinText => "checkintext"@,
        }
    }

    open spec fn extension(&self) -> Seq<char> {
        match *self {
            LeaderBoardProperty::HotRound(_) | LeaderBoardProperty::Arrow { .. } => "Source"@,
            _ => "Text"@,
        }
    }

    open spec fn value_text(&self) -> Option<Seq<char>> {
        None
    }

    open spec fn input(&self) -> Seq<char> {
        LEADERBOARD_INPUT@
    }

    open spec fn well_formed(&self) -> bool {
        true
    }

    fn get_selection_name(&self) -> (r: String) {
        match *self {
            LeaderBoardProperty::Position { pos } => plain_numbered_name("pos#", pos, ""),
            LeaderBoardProperty::Name(pos) => plain_numbered_name("name#", pos, ""),
            LeaderBoardProperty::HotRound(pos) => plain_numbered_name("hrp", pos, ""),
            LeaderBoardProperty::RoundScore(pos) => plain_numbered_name("rs#", pos, ""),
            LeaderBoardProperty::TotalScore { pos } => plain_numbered_name("ts#", pos, ""),
            LeaderBoardProperty::TotalScoreTitle => String::from_str("ts"),
            LeaderBoardProperty::Move { pos } => plain_numbered_name("move", pos, ""),
            LeaderBoardProperty::Arrow { pos } => plain_numbered_name("arw", pos, ""),
            LeaderBoardProperty::Thru(pos) => plain_numbered_name("thru#", pos, ""),
            LeaderBoardProperty::CheckinText => String::from_str("checkintext"),
        }
    }

    fn data_extension(&self) -> (r: &'static str) {
        match *self {
            LeaderBoardProperty::HotRound(_) | LeaderBoardProperty::Arrow { .. } => "Source",
            _ => "Text",
        }
    }

    fn value(&self) -> (r: Option<String>) {
        None
    }

    fn input_id(&self) -> (r: &'static str) {
        LEADERBOARD_INPUT
    }
}

/// A field of the small top-six leaderboard title.
#[derive(Clone, Copy, Debug, PartialEq, Eq, Structural)]
pub enum LeaderboardTop6 {
    Position { pos: usize },
    Name { pos: usize },
    LastScore { pos: usize, hole: usize },
    LastScoreColour { pos: usize, hole: usize },
    RoundScore { pos: usize },
    TotalScore { pos: usize },
    Thru { pos: usize },
    DivisionName,
}

/// The id of the top-six title.
pub const TOP6_INPUT: &'static str = "1900db1a-4f83-4111-848d-d9a87474f56c";

impl VMixSelectionTrait for LeaderboardTop6 {
    open spec fn selection_name(&self) -> Seq<char> {
        match *self {
            LeaderboardTop6::Position { pos } => with_number("pos"@, pos, ""@),
            LeaderboardTop6::Name { pos } => with_number("name"@, pos, ""@),
            LeaderboardTop6::LastScore { pos, hole } => with_number("p"@, pos, "ls"@) + nat_to_dec(hole as nat),
            LeaderboardTop6::LastScoreColour { pos, hole } => with_number("p"@, pos, "lh"@) + nat_to_dec(hole as nat),
            LeaderboardTop6::RoundScore { pos } => with_number("p"@, pos, "scorernd"@),
            LeaderboardTop6::TotalScore { pos } => with_number("p"@, pos, "scoretot"@),
            LeaderboardTop6::Thru { pos } => with_number("p"@, pos, "thru"@),
            LeaderboardTop6::DivisionName => "top6txt"@,
        }
    }

    open spec fn extension(&self) -> Seq<char> {
        match *self {
            LeaderboardTop6::LastScoreColour { .. } => "Fill.Color"@,
            _ => "Text"@,
        }
    }

    open spec fn value_text(&self) -> Option<Seq<char>> {
        None
    }

    open spec fn input(&self) -> Seq<char> {
        TOP6_INPUT@
    }

    open spec fn well_formed(&self) -> bool {
        true
    }

    fn get_selection_name(&self) -> (r: String) {
        match *self {
            LeaderboardTop6::Position { pos } => plain_numbered_name("pos", pos, ""),
            LeaderboardTop6::Name { pos } => plain_numbered_name("name", pos, ""),
            LeaderboardTop6::LastScore { pos, hole } => {
                let mut s = plain_numbered_name("p", pos, "ls");
                let h = usize_to_string(hole);
                s.append(h.as_str());
                s
            },
            LeaderboardTop6::LastScoreColour { pos, hole } => {
                let mut s = plain_numbered_name("p", pos, "lh");
                let h = usize_to_string(hole);
                s.append(h.as_str());
                s
            },
            LeaderboardTop6::RoundScore { pos } => plain_numbered_name("p", pos, "scorernd"),
            LeaderboardTop6::TotalScore { pos } => plain_numbered_name("p", pos, "scoretot"),
            LeaderboardTop6::Thru { pos } => plain_numbered_name("p", pos, "thru"),
            LeaderboardTop6::DivisionName => String::from_str("top6txt"),
        }
    }

    fn data_extension(&self) -> (r: &'static str) {
        match *self {
            LeaderboardTop6::LastScoreColour { .. } => "Fill.Color",
            _ => "Text",
        }
    }

    fn value(&self) -> (r: Option<String>) {
        None
    }

    fn input_id(&self) -> (r: &'static str) {
        TOP6_INPUT
    }
}

/// The top-six field that mirrors a big-leaderboard field, if there is one.
pub open spec fn top6_of(p: LeaderBoardProperty) -> Option<LeaderboardTop6> {
    match p {
        LeaderBoardProperty::TotalScoreTitle | LeaderBoardProperty::Arrow { .. }
        | LeaderBoardProperty::HotRound(_) | LeaderBoardProperty::Move { .. } => None,
        LeaderBoardProperty::Position { pos } => Some(LeaderboardTop6::Position { pos }),
        LeaderBoardProperty::Thru(pos) => Some(LeaderboardTop6::Thru { pos }),
        LeaderBoardProperty::TotalScore { pos } => Some(LeaderboardTop6::TotalScore { pos }),
        LeaderBoardProperty::RoundScore(pos) => Some(LeaderboardTop6::RoundScore { pos }),
        LeaderBoardProperty::Name(pos) => Some(LeaderboardTop6::Name { pos }),
        LeaderBoardProperty::CheckinText => Some(LeaderboardTop6::DivisionName),
    }
}

impl LeaderboardTop6 {
    pub fn from_prop(leader_board_property: LeaderBoardProperty) -> (r: Option<Self>)
        ensures
            r == top6_of(leader_board_property),
    {
        match leader_board_property {
            LeaderBoardProperty::TotalScoreTitle | LeaderBoardProperty::Arrow { .. }
            | LeaderBoardProperty::HotRound(_) | LeaderBoardProperty::Move { .. } => None,
            LeaderBoardProperty::Position { pos } => Some(LeaderboardTop6::Position { pos }),
            LeaderBoardProperty::Thru(pos) => Some(LeaderboardTop6::Thru { pos }),
            LeaderBoardProperty::TotalScore { pos } => Some(LeaderboardTop6::TotalScore { pos }),
            LeaderBoardProperty::RoundScore(pos) => Some(LeaderboardTop6::RoundScore { pos }),
            LeaderBoardProperty::Name(pos) => Some(LeaderboardTop6::Name { pos }),
            LeaderBoardProperty::CheckinText => Some(LeaderboardTop6::DivisionName),
        }
    }
}

/// A top-six field on the featured-group leaderboard title.
#[derive(Clone, Copy, Debug, PartialEq, Eq, Structural)]
pub struct FeaturedLeaderboard(pub LeaderboardTop6);

impl VMixSelectionTrait for FeaturedLeaderboard {
    open spec fn selection_name(&self) -> Seq<char> {
        self.0.selection_name()
    }

    open spec fn extension(&self) -> Seq<char> {
        self.0.extension()
    }

    open spec fn value_text(&self) -> Option<Seq<char>> {
        self.0.value_text()
    }

    open spec fn input(&self) -> Seq<char> {
        TOP6_INPUT@
    }

    open spec fn well_formed(&self) -> bool {
        self.0.well_formed()
    }

    fn get_selection_name(&self) -> (r: String) {
        self.0.get_selection_name()
    }

    fn data_extension(&self) -> (r: &'static str) {
        self.0.data_extension()
    }

    fn value(&self) -> (r: Option<String>) {
        self.0.value()
    }

    fn input_id(&self) -> (r: &'static str) {
        TOP6_INPUT
    }
}

/// A top-six field on the cycling leaderboard title.
#[derive(Clone, Copy, Debug, PartialEq, Eq, Structural)]
pub struct CycledLeaderboard(pub LeaderboardTop6);

/// The id of the cycling leaderboard title.
pub const CYCLED_INPUT: &'static str = "712e8a3d-605f-4ce2-b8c5-74f64f903495";

impl VMixSelectionTrait for CycledLeaderboard {
    open spec fn selection_name(&self) -> Seq<char> {
        self.0.selection_name()
    }

    open spec fn extension(&self) -> Seq<char> {
        self.0.extension()
    }

    open spec fn value_text(&self) -> Option<Seq<char>> {
        self.0.value_text()
    }

    open spec fn input(&self) -> Seq<char> {
        CYCLED_INPUT@
    }

    open spec fn well_formed(&self) -> bool {
        self.0.well_formed()
    }

    fn get_selection_name(&self) -> (r: String) {
        self.0.get_selection_name()
    }

    fn data_extension(&self) -> (r: &'static str) {
        self.0.data_extension()
    }

    fn value(&self) -> (r: Option<String>) {
        self.0.value()
    }

    fn input_id(&self) -> (r: &'static str) {
        CYCLED_INPUT
    }
}

/// The index of the first `c` at or after `from`, or the length when there is none.
pub open spec fn index_of_char(s: Seq<char>, c: char, from: int) -> int
    decreases s.len() - from,
{
    if from >= s.len() {
        s.len() as int
    } else if s[from] == c {
        from
    } else {
        index_of_char(s, c, from + 1)
    }
}

proof fn lemma_index_of_char_bounds(s: Seq<char>, c: char, from: int)
    requires
        0 <= from <= s.len(),
    ensures
        from <= index_of_char(s, c, from) <= s.len(),
        index_of_char(s, c, from) < s.len() ==> s[index_of_char(s, c, from)] == c,
        forall|i: int| from <= i < index_of_char(s, c, from) ==> s[i] != c,
    decreases s.len() - from,
{
    if from < s.len() && s[from] != c {
        lemma_index_of_char_bounds(s, c, from + 1);
    }
}

/// Finds the first `c` in `s` at or after `from` (the length of `s` when there is none).
pub fn find_char(s: &str, c: char, from: usize) -> (r: usize)
    requires
        from <= s@.len(),
    ensures
        r == index_of_char(s@, c, from as int),
{
    let n = s.unicode_len();
    let mut i = from;
    while i < n
        invariant
            from <= i <= n,
            n == s@.len(),
            index_of_char(s@, c, from as int) == index_of_char(s@, c, i as int),
        decreases n - i,
    {
        if s.get_char(i) == c {
            return i;
        }
        i = i + 1;
    }
    i
}

/// Whether a leaderboard name can be shortened: it has a first name before a space.
pub open spec fn shortenable_name(v: Seq<char>) -> bool {
    index_of_char(v, ' ', 0) < v.len() && index_of_char(v, ' ', 0) > 0
}

/// `F. Surname`: the initial of the first word, a full stop, a space, and the second word.
pub open spec fn short_name(v: Seq<char>) -> Seq<char> {
    let k = index_of_char(v, ' ', 0);
    seq![v[0]] + ". "@ + v.subrange(k + 1, index_of_char(v, ' ', k + 1))
}

/// Shortens `First Last` to `F. Last`.
pub fn shorten_name(v: &str) -> (r: String)
    requires
        shortenable_name(v@),
    ensures
        r@ == short_name(v@),
{
    let _n = v.unicode_len();
    let k = find_char(v, ' ', 0);
    proof {
        lemma_index_of_char_bounds(v@, ' ', 0);
        lemma_index_of_char_bounds(v@, ' ', k + 1);
    }
    let end = find_char(v, ' ', k + 1);
    let initial = v.substring_char(0, 1);
    let surname = v.substring_char(k + 1, end);
    let mut s = String::from_str(initial);
    s.append(". ");
    s.append(surname);
    proof {
        assert(initial@ =~= seq![v@[0]]);
    }
    s
}

impl VMixInterfacer<LeaderBoardProperty> {
    /// The same call on the top-six title, if the field has a counterpart there;
    /// names are shortened to `F. Last`.
    pub fn to_top_6(self) -> (r: Option<VMixInterfacer<LeaderboardTop6>>)
        requires
            self.input matches Some(LeaderBoardProperty::Name(_)) ==> (self.value is Some
                && shortenable_name(self.value->0@)),
        ensures
            match self.input {
                None => r is None,
                Some(p) => match top6_of(p) {
                    None => r is None,
                    Some(t) => r is Some && r->0.input == Some(t) && r->0.function == self.function
                        && r->0.value_view() == (match p {
                            LeaderBoardProperty::Name(_) => Some(short_name(self.value->0@)),
                            _ => self.value_view(),
                        }),
                },
            },
    {
        let input = match self.input {
            Some(p) => LeaderboardTop6::from_prop(p),
            None => None,
        };
        match input {
            None => None,
            Some(t) => {
                match self.input {
                    Some(LeaderBoardProperty::Name(n)) => {
                        let name = match &self.value {
                            Some(v) => shorten_name(v.as_str()),
                            None => String::new(),
                        };
                        Some(VMixInterfacer {
                            value: Some(name),
                            function: self.function,
                            input: Some(LeaderboardTop6::Name { pos: n }),
                        })
                    },
                    _ => Some(VMixInterfacer { value: self.value, function: self.function, input: Some(t) }),
                }
            },
        }
    }
}

impl VMixInterfacer<LeaderboardTop6> {
    /// The same call on the featured-group leaderboard title.
    pub fn into_featured_leaderboard(self) -> (r: VMixInterfacer<FeaturedLeaderboard>)
        ensures
            r.function == self.function,
            r.value_view() == self.value_view(),
            r.input == match self.input {
                Some(i) => Some(FeaturedLeaderboard(i)),
                None => None,
            },
    {
        let input = match self.input {
            Some(i) => Some(FeaturedLeaderboard(i)),
            None => None,
        };
        VMixInterfacer { value: self.value, function: self.function, input }
    }

    /// The same call on the cycling leaderboard title.
    pub fn into_cycled_leaderboard(self) -> (r: VMixInterfacer<CycledLeaderboard>)
        ensures
            r.function == self.function,
            r.value_view() == self.value_view(),
            r.input == match self.input {
                Some(i) => Some(CycledLeaderboard(i)),
                None => None,
            },
    {
        let input = match self.input {
            Some(i) => Some(CycledLeaderboard(i)),
            None => None,
        };
        VMixInterfacer { value: self.value, function: self.function, input }
    }
}

} // verus!
