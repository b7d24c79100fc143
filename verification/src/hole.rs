//! Holes of a course and the hole-information title.
use vstd::prelude::*;

use crate::leaderboard_prop::{find_char, index_of_char};
use crate::sort::{stable_sort, stable_sorted, SortKey};
use crate::text::{fix_score, int_to_dec, isize_to_string, lemma_int_to_dec_len, nat_to_dec, score_text, usize_to_string};
use crate::vmix::{VMixInterfacer, VMixSelectionTrait};

verus! {

/// One hole of a layout.
#[derive(Clone, Copy, Debug, PartialEq, Eq, Structural)]
pub struct Hole {
    pub length: u16,
    pub par: u8,
    pub hole: u8,
}

impl SortKey for Hole {
    open spec fn le_spec(&self, other: &Self) -> bool {
        self.hole <= other.hole
    }

    proof fn lemma_le_total(a: &Self, b: &Self) {
    }

    proof fn lemma_le_transitive(a: &Self, b: &Self, c: &Self) {
    }

    fn le(&self, other: &Self) -> (r: bool) {
        self.hole <= other.hole
    }
}

/// The index of the first hole with the given number.
pub open spec fn first_hole_index(s: Seq<Hole>, number: u8, from: int) -> Option<int>
    decreases s.len() - from,
{
    if from < 0 || from >= s.len() {
        None
    } else if s[from].hole == number {
        Some(from)
    } else {
        first_hole_index(s, number, from + 1)
    }
}

/// The hole with the given number, the first one if there are several.
pub open spec fn find_hole_spec(s: Seq<Hole>, number: u8) -> Option<Hole> {
    match first_hole_index(s, number, 0) {
        Some(i) => Some(s[i]),
        None => None,
    }
}

proof fn lemma_first_hole_index(s: Seq<Hole>, number: u8, from: int)
    requires
        0 <= from,
    ensures
        match first_hole_index(s, number, from) {
            Some(k) => from <= k < s.len() && s[k].hole == number,
            None => forall|j: int| from <= j < s.len() ==> s[j].hole != number,
        },
    decreases s.len() - from,
{
    if from < s.len() && s[from].hole != number {
        lemma_first_hole_index(s, number, from + 1);
    }
}

/// The holes of a layout, by number.
#[derive(Clone, Debug)]
pub struct Holes {
    pub holes: Vec<Hole>,
}

impl Holes {
    pub fn find_hole(&self, hole_number: u8) -> (r: Option<Hole>)
        ensures
            r == find_hole_spec(self.holes@, hole_number),
    {
        let mut i: usize = 0;
        while i < self.holes.len()
            invariant
                i <= self.holes.len(),
                first_hole_index(self.holes@, hole_number, 0) == first_hole_index(self.holes@, hole_number, i as int),
            decreases self.holes.len() - i,
        {
            if self.holes[i].hole == hole_number {
                return Some(self.holes[i]);
            }
            i = i + 1;
        }
        None
    }

    /// The holes of a layout, ordered by number (stably).
    pub fn from_vec_hole(holes: Vec<Hole>) -> (r: Self)
        ensures
            r.holes@ == stable_sorted(holes@),
    {
        Holes { holes: stable_sort(holes) }
    }
}

/// The sign of an average result relative to zero.
#[derive(Clone, Copy, Debug, PartialEq, Eq, Structural)]
pub enum ScoreSign {
    Less,
    Equal,
    Greater,
}

/// How hard each hole plays: for each hole, by number, how many holes play at
/// least as hard (1 is the easiest).
#[derive(Clone, Debug)]
pub struct HoleDifficulty {
    pub holes: Vec<u8>,
}

/// The average result on a hole for one division: the average score in tenths
/// relative to par, and its sign as measured before rounding.
#[derive(Clone, Copy, Debug, PartialEq, Eq, Structural)]
pub struct HoleAverage {
    pub hole_number: u8,
    pub score: isize,
    pub sign: ScoreSign,
    pub has_results: bool,
}

impl SortKey for HoleAverage {
    open spec fn le_spec(&self, other: &Self) -> bool {
        self.hole_number <= other.hole_number
    }

    proof fn lemma_le_total(a: &Self, b: &Self) {
    }

    proof fn lemma_le_transitive(a: &Self, b: &Self, c: &Self) {
    }

    fn le(&self, other: &Self) -> (r: bool) {
        self.hole_number <= other.hole_number
    }
}

/// The number of holes whose average is at least `score`.
pub open spec fn count_at_least(s: Seq<HoleAverage>, score: isize) -> nat
    decreases s.len(),
{
    if s.len() == 0 {
        0
    } else {
        count_at_least(s.drop_last(), score) + if score <= s.last().score { 1nat } else { 0nat }
    }
}

/// The difficulty rank of each hole, by hole number.
pub open spec fn difficulty_ranks(s: Seq<HoleAverage>) -> Seq<u8> {
    stable_sorted(s).map_values(|h: HoleAverage| count_at_least(s, h.score) as u8)
}

proof fn lemma_count_at_least_bound(s: Seq<HoleAverage>, score: isize)
    ensures
        count_at_least(s, score) <= s.len(),
    decreases s.len(),
{
    if s.len() > 0 {
        lemma_count_at_least_bound(s.drop_last(), score);
    }
}

/// Counts the holes whose average is at least `score`.
fn count_holes_at_least(holes: &Vec<HoleAverage>, score: isize) -> (r: usize)
    ensures
        r == count_at_least(holes@, score),
{
    let mut count: usize = 0;
    let mut i: usize = 0;
    while i < holes.len()
        invariant
            i <= holes.len(),
            count == count_at_least(holes@.take(i as int), score),
        decreases holes.len() - i,
    {
        proof {
            assert(holes@.take(i + 1).drop_last() =~= holes@.take(i as int));
            lemma_count_at_least_bound(holes@.take(i as int), score);
        }
        if score <= holes[i].score {
            count = count + 1;
        }
        i = i + 1;
    }
    proof {
        assert(holes@.take(holes@.len() as int) =~= holes@);
    }
    count
}

impl HoleDifficulty {
    pub fn new(holes: Vec<HoleAverage>) -> (r: Self)
        ensures
            r.holes@ == difficulty_ranks(holes@),
    {
        let sorted = crate::sort::sorted_by_order(holes.clone());
        let mut out: Vec<u8> = Vec::new();
        let mut i: usize = 0;
        while i < sorted.len()
            invariant
                i <= sorted.len(),
                sorted@ == stable_sorted(holes@),
                out@.len() == i,
                forall|j: int| 0 <= j < i ==> out@[j] == count_at_least(holes@, #[trigger] sorted@[j].score) as u8,
            decreases sorted.len() - i,
        {
            let count = count_holes_at_least(&holes, sorted[i].score);
            out.push(count as u8);
            i = i + 1;
        }
        proof {
            assert(out@ =~= difficulty_ranks(holes@));
        }
        HoleDifficulty { holes: out }
    }

    /// How the difficulty of a hole is read out.
    pub open spec fn difficulty_text(d: u8) -> Option<Seq<char>> {
        if d == 1 {
            Some("EASIEST"@)
        } else if d == 2 {
            Some("2nd easiest"@)
        } else if d == 3 {
            Some("3rd easiest"@)
        } else if 4 <= d <= 9 {
            Some(nat_to_dec(d as nat) + "th easiest"@)
        } else if 10 <= d <= 15 {
            Some(nat_to_dec((18 - d) as nat) + "th hardest"@)
        } else if d == 16 {
            Some("3rd hardest"@)
        } else if d == 17 {
            Some("2nd hardest"@)
        } else if d == 18 {
            Some("HARDEST"@)
        } else {
            None
        }
    }

    /// How a rank reads: ranks 1 to 9 count from the easiest end (1 is
    /// "EASIEST", the others end in "easiest"), ranks 10 to 18 from the
    /// hardest (18 is "HARDEST", the others end in "hardest"); a rank from 4
    /// to 9 starts with its own digit, one from 10 to 15 with the digit of
    /// `18 - rank`; other ranks have no text.
    pub proof fn lemma_difficulty_reading(d: u8)
        ensures
            d == 1 ==> Self::difficulty_text(d) == Some("EASIEST"@),
            d == 18 ==> Self::difficulty_text(d) == Some("HARDEST"@),
            2 <= d <= 9 ==> Self::difficulty_text(d) is Some && {
                let t = Self::difficulty_text(d)->0;
                t.len() >= 7 && t.subrange(t.len() - 7, t.len() as int) == "easiest"@
            },
            10 <= d <= 17 ==> Self::difficulty_text(d) is Some && {
                let t = Self::difficulty_text(d)->0;
                t.len() >= 7 && t.subrange(t.len() - 7, t.len() as int) == "hardest"@
            },
            4 <= d <= 9 ==> Self::difficulty_text(d)->0[0] == crate::text::digit_char(d as nat),
            10 <= d <= 15 ==> Self::difficulty_text(d)->0[0] == crate::text::digit_char((18 - d) as nat),
            d == 0 || d > 18 ==> Self::difficulty_text(d) is None,
    {
        reveal_strlit("easiest");
        reveal_strlit("hardest");
        reveal_strlit("th easiest");
        reveal_strlit("th hardest");
        reveal_strlit("2nd easiest");
        reveal_strlit("3rd easiest");
        reveal_strlit("3rd hardest");
        reveal_strlit("2nd hardest");
        if 2 <= d <= 9 {
            let t = Self::difficulty_text(d)->0;
            assert(t.subrange(t.len() - 7, t.len() as int) =~= "easiest"@);
        }
        if 10 <= d <= 17 {
            let t = Self::difficulty_text(d)->0;
            assert(t.subrange(t.len() - 7, t.len() as int) =~= "hardest"@);
        }
    }

    /// The text of the difficulty of the hole at `hole` (an index into the ranks).
    pub open spec fn text_of(self, hole: int) -> Option<Seq<char>> {
        if 0 <= hole < self.holes@.len() {
            Self::difficulty_text(self.holes@[hole])
        } else {
            None
        }
    }

    pub fn hole_difficulty_text(&self, hole: usize) -> (r: Option<String>)
        ensures
            match self.text_of(hole as int) {
                Some(t) => r is Some && r->0@ == t,
                None => r is None,
            },
    {
        if hole >= self.holes.len() {
            return None;
        }
        let difficulty = self.holes[hole];
        if difficulty == 1 {
            Some(String::from_str("EASIEST"))
        } else if difficulty == 2 {
            Some(String::from_str("2nd easiest"))
        } else if difficulty == 3 {
            Some(String::from_str("3rd easiest"))
        } else if 4 <= difficulty && difficulty <= 9 {
            Some(usize_to_string(difficulty as usize).concat("th easiest"))
        } else if 10 <= difficulty && difficulty <= 15 {
            Some(usize_to_string((18 - difficulty) as usize).concat("th hardest"))
        } else if difficulty == 16 {
            Some(String::from_str("3rd hardest"))
        } else if difficulty == 17 {
            Some(String::from_str("2nd hardest"))
        } else if difficulty == 18 {
            Some(String::from_str("HARDEST"))
        } else {
            None
        }
    }
}

/// An average score in tenths, read out with one decimal: the digits before the
/// last one (`0` when there are none, and after a lone minus sign), a point,
/// and the last digit.
pub open spec fn average_parts(score: isize) -> (Seq<char>, char) {
    let t = int_to_dec(score as int);
    let rest = t.drop_last();
    let rest = if rest.len() == 0 || (rest.contains('-') && rest.len() == 1) {
        rest.push('0')
    } else {
        rest
    };
    (rest, t.last())
}

/// The average text: `-<avg>` when the sign is positive, `%2B<avg>` when it is
/// negative, `E` at zero, each followed by ` avg`.
pub open spec fn average_text(score: isize, sign: ScoreSign) -> Seq<char> {
    let (rest, decimal) = average_parts(score);
    match sign {
        ScoreSign::Greater => "-"@ + rest + "."@ + seq![decimal] + " avg"@,
        ScoreSign::Equal => "E"@ + " avg"@,
        ScoreSign::Less => "%2B"@ + rest + "."@ + seq![decimal] + " avg"@,
    }
}

fn average_result_text(score: isize, sign: ScoreSign) -> (r: String)
    ensures
        r@ == average_text(score, sign),
{
    let t = isize_to_string(score);
    let n = t.unicode_len();
    proof {
        lemma_int_to_dec_len(score as int);
    }
    let decimal = t.as_str().substring_char(n - 1, n);
    let rest0 = t.as_str().substring_char(0, n - 1);
    let m = rest0.unicode_len();
    let has_minus = find_char(rest0, '-', 0) < m;
    proof {
        assert(rest0@ =~= t@.drop_last());
        assert(decimal@ =~= seq![t@.last()]);
        lemma_index_of_char_contains(rest0@, '-');
    }
    let mut rest = String::from_str(rest0);
    if m == 0 || (has_minus && m == 1) {
        rest.append("0");
        proof {
            reveal_strlit("0");
        }
    }
    match sign {
        ScoreSign::Greater => {
            let mut s = String::from_str("-");
            s.append(rest.as_str());
            s.append(".");
            s.append(decimal);
            s.append(" avg");
            s
        },
        ScoreSign::Equal => {
            let mut s = String::from_str("E");
            s.append(" avg");
            s
        },
        ScoreSign::Less => {
            let mut s = String::from_str("%2B");
            s.append(rest.as_str());
            s.append(".");
            s.append(decimal);
            s.append(" avg");
            s
        },
    }
}

proof fn lemma_index_of_char_contains(s: Seq<char>, c: char)
    ensures
        (index_of_char(s, c, 0) < s.len()) == s.contains(c),
{
    lemma_index_of_char_from(s, c, 0);
}

proof fn lemma_index_of_char_from(s: Seq<char>, c: char, from: int)
    requires
        0 <= from <= s.len(),
    ensures
        (index_of_char(s, c, from) < s.len()) == (exists|i: int| from <= i < s.len() && s[i] == c),
        index_of_char(s, c, from) < s.len() ==> s[index_of_char(s, c, from)] == c,
    decreases s.len() - from,
{
    if from < s.len() && s[from] != c {
        lemma_index_of_char_from(s, c, from + 1);
        if exists|i: int| from <= i < s.len() && s[i] == c {
            let i = choose|i: int| from <= i < s.len() && s[i] == c;
            assert(from + 1 <= i);
        }
    }
}

/// A field of the hole-information title.
#[derive(Clone, Debug)]
pub enum VMixHoleInfo {
    Hole(u8),
    HolePar(u8),
    HoleMeters(u16),
    HoleFeet(u16),
    AverageResult { score: isize, sign: ScoreSign },
    Difficulty { hole: usize, difficulty: HoleDifficulty },
    Elevation(i16),
}

/// The id of the hole-information title.
pub const HOLE_INFO_INPUT: &'static str = "d9806a48-8766-40e0-b7fe-b217f9b1ef5b";

impl VMixSelectionTrait for VMixHoleInfo {
    open spec fn selection_name(&self) -> Seq<char> {
        match *self {
            VMixHoleInfo::Hole(_) => "hole"@,
            VMixHoleInfo::HolePar(_) => "parnr"@,
            VMixHoleInfo::HoleMeters(_) => "meternr"@,
            VMixHoleInfo::HoleFeet(_) => "feetnr"@,
            VMixHoleInfo::AverageResult { .. } => "avgresult"@,
            VMixHoleInfo::Difficulty { .. } => "difficulty"@,
            VMixHoleInfo::Elevation(_) => "elevation"@,
        }
    }

    open spec fn extension(&self) -> Seq<char> {
        "Text"@
    }

    open spec fn value_text(&self) -> Option<Seq<char>> {
        match *self {
            VMixHoleInfo::Hole(n) | VMixHoleInfo::HolePar(n) => Some(nat_to_dec(n as nat)),
            VMixHoleInfo::HoleMeters(m) => Some(nat_to_dec(m as nat) + "M"@),
            VMixHoleInfo::HoleFeet(f) => Some(nat_to_dec(f as nat) + "FT"@),
            VMixHoleInfo::AverageResult { score, sign } => Some(average_text(score, sign)),
            VMixHoleInfo::Difficulty { hole, difficulty } => difficulty.text_of(hole as int),
            VMixHoleInfo::Elevation(e) => Some(score_text(e as int)),
        }
    }

    open spec fn input(&self) -> Seq<char> {
        HOLE_INFO_INPUT@
    }

    open spec fn well_formed(&self) -> bool {
        true
    }

    fn get_selection_name(&self) -> (r: String) {
        match self {
            VMixHoleInfo::Hole(_) => String::from_str("hole"),
            VMixHoleInfo::HolePar(_) => String::from_str("parnr"),
            VMixHoleInfo::HoleMeters(_) => String::from_str("meternr"),
            VMixHoleInfo::HoleFeet(_) => String::from_str("feetnr"),
            VMixHoleInfo::AverageResult { .. } => String::from_str("avgresult"),
            VMixHoleInfo::Difficulty { .. } => String::from_str("difficulty"),
            VMixHoleInfo::Elevation(_) => String::from_str("elevation"),
        }
    }

    fn data_extension(&self) -> (r: &'static str) {
        "Text"
    }

    fn value(&self) -> (r: Option<String>) {
        match self {
            VMixHoleInfo::Hole(n) => Some(usize_to_string(*n as usize)),
            VMixHoleInfo::HolePar(n) => Some(usize_to_string(*n as usize)),
            VMixHoleInfo::HoleMeters(m) => Some(usize_to_string(*m as usize).concat("M")),
            VMixHoleInfo::HoleFeet(f) => Some(usize_to_string(*f as usize).concat("FT")),
            VMixHoleInfo::AverageResult { score, sign } => Some(average_result_text(*score, *sign)),
            VMixHoleInfo::Difficulty { hole, difficulty } => difficulty.hole_difficulty_text(*hole),
            VMixHoleInfo::Elevation(e) => Some(fix_score(*e as isize)),
        }
    }

    fn input_id(&self) -> (r: &'static str) {
        HOLE_INFO_INPUT
    }
}

/// A hole-information field on the featured-hole title.
#[derive(Clone, Debug)]
pub struct FeaturedHole(pub VMixHoleInfo);

/// The id of the featured-hole title.
pub const FEATURED_HOLE_INPUT: &'static str = "0e9bec31-70a9-4566-a1ea-e050434c1cd2";

impl VMixSelectionTrait for FeaturedHole {
    open spec fn selection_name(&self) -> Seq<char> {
        self.0.selection_name()
    }

    open spec fn extension(&self) -> Seq<char> {
        self.0.extension()
    }

    open spec fn value_text(&self) -> Option<Seq<char>> {
        self.0.value_text()
    }

    open spec fn input(&self) -> Seq<char> {
        FEATURED_HOLE_INPUT@
    }

    open spec fn well_formed(&self) -> bool {
        self.0.well_formed()
    }

    fn get_selection_name(&self) -> (r: String) {
        self.0.get_selection_name()
    }

    fn data_extension(&self) -> (r: &'static str) {
        self.0.data_extension()
    }

    fn value(&self) -> (r: Option<String>) {
        self.0.value()
    }

    fn input_id(&self) -> (r: &'static str) {
        FEATURED_HOLE_INPUT
    }
}

/// A field of the drone-shot hole title.
#[derive(Clone, Debug)]
pub enum DroneHoleInfo {
    Standard(VMixHoleInfo),
    HoleMap,
}

/// The id of the drone-shot hole title.
pub const DRONE_HOLE_INPUT: &'static str = "d135d6d1-11ee-4169-9700-4c743d729218";

impl VMixSelectionTrait for DroneHoleInfo {
    open spec fn selection_name(&self) -> Seq<char> {
        match *self {
            DroneHoleInfo::Standard(s) => s.selection_name(),
            DroneHoleInfo::HoleMap => "holemap"@,
        }
    }

    open spec fn extension(&self) -> Seq<char> {
        match *self {
            DroneHoleInfo::Standard(s) => s.extension(),
            DroneHoleInfo::HoleMap => "Source"@,
        }
    }

    open spec fn value_text(&self) -> Option<Seq<char>> {
        match *self {
            DroneHoleInfo::Standard(s) => s.value_text(),
            DroneHoleInfo::HoleMap => None,
        }
    }

    open spec fn input(&self) -> Seq<char> {
        DRONE_HOLE_INPUT@
    }

    open spec fn well_formed(&self) -> bool {
        match *self {
            DroneHoleInfo::Standard(s) => s.well_formed(),
            DroneHoleInfo::HoleMap => true,
        }
    }

    fn get_selection_name(&self) -> (r: String) {
        match self {
            DroneHoleInfo::Standard(s) => s.get_selection_name(),
            DroneHoleInfo::HoleMap => String::from_str("holemap"),
        }
    }

    fn data_extension(&self) -> (r: &'static str) {
        match self {
            DroneHoleInfo::Standard(s) => s.data_extension(),
            DroneHoleInfo::HoleMap => "Source",
        }
    }

    fn value(&self) -> (r: Option<String>) {
        match self {
            DroneHoleInfo::Standard(s) => s.value(),
            DroneHoleInfo::HoleMap => None,
        }
    }

    fn input_id(&self) -> (r: &'static str) {
        DRONE_HOLE_INPUT
    }
}

impl VMixInterfacer<VMixHoleInfo> {
    /// The same call on the drone-shot hole title.
    pub fn into_drone_hole_info(self) -> (r: VMixInterfacer<DroneHoleInfo>)
        ensures
            r.function == self.function,
            r.value_view() == self.value_view(),
            r.input == match self.input {
                Some(i) => Some(DroneHoleInfo::Standard(i)),
                None => None,
            },
    {
        let input = match self.input {
            Some(i) => Some(DroneHoleInfo::Standard(i)),
            None => None,
        };
        VMixInterfacer { input, function: self.function, value: self.value }
    }

    /// The same call on the featured-hole title.
    pub fn into_featured_hole_card(self) -> (r: VMixInterfacer<FeaturedHole>)
        ensures
            r.function == self.function,
            r.value_view() == self.value_view(),
            r.input == match self.input {
                Some(i) => Some(FeaturedHole(i)),
                None => None,
            },
    {
        let input = match self.input {
            Some(i) => Some(FeaturedHole(i)),
            None => None,
        };
        VMixInterfacer { input, function: self.function, value: self.value }
    }
}

} // verus!
