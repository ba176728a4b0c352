//! Character classes, class descriptors and the attack-rating ("THAC0")
//! lookup: four fixed progression tables indexed by clamped level, with
//! multi-class descriptors taking the best rating among their members.

use crate::text::{
    all_digits, append_u64, digits_val, is_digit, spec_split_slash, spec_u64_digits, split_slash,
};
use vstd::prelude::*;

verus! {

/// Why a class descriptor failed to parse: a malformed integer or an
/// unrecognized class name.
#[derive(Debug, Clone, Copy, PartialEq, Eq, Structural)]
pub enum ParseClassError {
    Int,
    Name,
}

/// A single character class.
#[derive(Debug, Clone, Copy, PartialEq, Eq, Structural)]
pub enum Class {
    Cleric,
    Druid,
    Fighter,
    Paladin,
    Ranger,
    Mage,
    Illusionist,
    Thief,
    Assassin,
    Monk,
    Bard,
}

/// The attack rating of clerics, druids and monks at table index `idx`.
pub open spec fn cleric_rating(idx: int) -> u32 {
    if idx <= 0 {
        20
    } else if idx == 1 {
        20
    } else if idx == 2 {
        19
    } else if idx == 3 {
        18
    } else if idx == 4 {
        18
    } else if idx == 5 {
        17
    } else if idx == 6 {
        16
    } else if idx == 7 {
        16
    } else if idx == 8 {
        15
    } else if idx == 9 {
        14
    } else if idx == 10 {
        14
    } else if idx == 11 {
        13
    } else {
        12
    }
}

/// The attack rating of fighters, paladins, rangers and monsters at `idx`.
pub open spec fn fighter_rating(idx: int) -> u32 {
    if idx <= 0 {
        20
    } else if idx >= 12 {
        8
    } else {
        (20 - idx) as u32
    }
}

/// The attack rating of mages and illusionists at `idx`.
pub open spec fn mage_rating(idx: int) -> u32 {
    if idx <= 2 {
        21
    } else if idx <= 4 {
        20
    } else if idx <= 7 {
        19
    } else if idx <= 9 {
        18
    } else {
        17
    }
}

/// The attack rating of thieves, assassins and bards at `idx`.
pub open spec fn thief_rating(idx: int) -> u32 {
    if idx <= 1 {
        21
    } else if idx <= 3 {
        20
    } else if idx <= 5 {
        19
    } else if idx <= 7 {
        18
    } else if idx <= 9 {
        17
    } else if idx <= 11 {
        16
    } else {
        15
    }
}

/// The table entry for one class at table index `idx`.
pub open spec fn class_rating(c: Class, idx: int) -> u32 {
    match c {
        Class::Cleric => cleric_rating(idx),
        Class::Druid => cleric_rating(idx),
        Class::Monk => cleric_rating(idx),
        Class::Fighter => fighter_rating(idx),
        Class::Paladin => fighter_rating(idx),
        Class::Ranger => fighter_rating(idx),
        Class::Mage => mage_rating(idx),
        Class::Illusionist => mage_rating(idx),
        Class::Thief => thief_rating(idx),
        Class::Assassin => thief_rating(idx),
        Class::Bard => thief_rating(idx),
    }
}

/// The table index for a level or hit-dice count: levels at most 1 use the
/// first entry, levels above 13 clamp to the last.
pub open spec fn clamp_index(lvl: int) -> int {
    if lvl <= 1 {
        0
    } else if lvl - 1 <= 12 {
        lvl - 1
    } else {
        12
    }
}

fn clamp_index_exec(lvl: u32) -> (r: usize)
    ensures
        r as int == clamp_index(lvl as int),
        r < 13,
{
    if lvl <= 1 {
        0
    } else if lvl - 1 <= 12 {
        (lvl - 1) as usize
    } else {
        12
    }
}

fn cleric_rating_exec(idx: usize) -> (r: u32)
    ensures
        r == cleric_rating(idx as int),
{
    if idx <= 1 {
        20
    } else if idx == 2 {
        19
    } else if idx <= 4 {
        18
    } else if idx == 5 {
        17
    } else if idx <= 7 {
        16
    } else if idx == 8 {
        15
    } else if idx <= 10 {
        14
    } else if idx == 11 {
        13
    } else {
        12
    }
}

fn fighter_rating_exec(idx: usize) -> (r: u32)
    ensures
        r == fighter_rating(idx as int),
{
    if idx == 0 {
        20
    } else if idx >= 12 {
        8
    } else {
        20 - (idx as u32)
    }
}

fn mage_rating_exec(idx: usize) -> (r: u32)
    ensures
        r == mage_rating(idx as int),
{
    if idx <= 2 {
        21
    } else if idx <= 4 {
        20
    } else if idx <= 7 {
        19
    } else if idx <= 9 {
        18
    } else {
        17
    }
}

fn thief_rating_exec(idx: usize) -> (r: u32)
    ensures
        r == thief_rating(idx as int),
{
    if idx <= 1 {
        21
    } else if idx <= 3 {
        20
    } else if idx <= 5 {
        19
    } else if idx <= 7 {
        18
    } else if idx <= 9 {
        17
    } else if idx <= 11 {
        16
    } else {
        15
    }
}

fn class_rating_exec(c: Class, idx: usize) -> (r: u32)
    ensures
        r == class_rating(c, idx as int),
{
    match c {
        Class::Cleric => cleric_rating_exec(idx),
        Class::Druid => cleric_rating_exec(idx),
        Class::Monk => cleric_rating_exec(idx),
        Class::Fighter => fighter_rating_exec(idx),
        Class::Paladin => fighter_rating_exec(idx),
        Class::Ranger => fighter_rating_exec(idx),
        Class::Mage => mage_rating_exec(idx),
        Class::Illusionist => mage_rating_exec(idx),
        Class::Thief => thief_rating_exec(idx),
        Class::Assassin => thief_rating_exec(idx),
        Class::Bard => thief_rating_exec(idx),
    }
}

/// The lesser of two ratings.
pub open spec fn min_u32(a: u32, b: u32) -> u32 {
    if a <= b {
        a
    } else {
        b
    }
}

/// The best (lowest) rating among the member classes, 20 when there are none.
pub open spec fn multi_rating(names: Seq<Class>, idx: int) -> u32
    decreases names.len(),
{
    if names.len() == 0 {
        20
    } else if names.len() == 1 {
        class_rating(names[0], idx)
    } else {
        min_u32(multi_rating(names.drop_last(), idx), class_rating(names.last(), idx))
    }
}

/// A letter folded to lower case; anything but an ASCII capital is unchanged.
pub open spec fn spec_lower_char(c: char) -> char {
    match c {
        'A' => 'a',
        'B' => 'b',
        'C' => 'c',
        'D' => 'd',
        'E' => 'e',
        'F' => 'f',
        'G' => 'g',
        'H' => 'h',
        'I' => 'i',
        'J' => 'j',
        'K' => 'k',
        'L' => 'l',
        'M' => 'm',
        'N' => 'n',
        'O' => 'o',
        'P' => 'p',
        'Q' => 'q',
        'R' => 'r',
        'S' => 's',
        'T' => 't',
        'U' => 'u',
        'V' => 'v',
        'W' => 'w',
        'X' => 'x',
        'Y' => 'y',
        'Z' => 'z',
        _ => c,
    }
}

/// A string folded to lower case, character by character.
pub open spec fn spec_lower(s: Seq<char>) -> Seq<char> {
    s.map_values(|c: char| spec_lower_char(c))
}

fn lower_char_exec(c: char) -> (r: char)
    ensures
        r == spec_lower_char(c),
{
    match c {
        'A' => 'a',
        'B' => 'b',
        'C' => 'c',
        'D' => 'd',
        'E' => 'e',
        'F' => 'f',
        'G' => 'g',
        'H' => 'h',
        'I' => 'i',
        'J' => 'j',
        'K' => 'k',
        'L' => 'l',
        'M' => 'm',
        'N' => 'n',
        'O' => 'o',
        'P' => 'p',
        'Q' => 'q',
        'R' => 'r',
        'S' => 's',
        'T' => 't',
        'U' => 'u',
        'V' => 'v',
        'W' => 'w',
        'X' => 'x',
        'Y' => 'y',
        'Z' => 'z',
        _ => c,
    }
}

/// Whether `a`, folded to lower case, reads exactly as `b`.
fn eq_lower(a: &str, b: &str) -> (r: bool)
    ensures
        r == (spec_lower(a@) == b@),
{
    let na = a.unicode_len();
    let nb = b.unicode_len();
    if na != nb {
        return false;
    }
    let mut i: usize = 0;
    while i < na
        invariant
            0 <= i <= na,
            na == a@.len(),
            na == b@.len(),
            forall|j: int| 0 <= j < i ==> spec_lower_char(a@[j]) == b@[j],
        decreases na - i,
    {
        if lower_char_exec(a.get_char(i)) != b.get_char(i) {
            assert(spec_lower(a@)[i as int] != b@[i as int]);
            return false;
        }
        i = i + 1;
    }
    proof {
        assert(spec_lower(a@) =~= b@);
    }
    true
}

/// The class a token names, compared without regard to letter case: the full
/// name or the one- or two-letter abbreviation.
pub open spec fn spec_class_of(t: Seq<char>) -> Option<Class> {
    let l = spec_lower(t);
    if l == "cleric"@ || l == "c"@ {
        Some(Class::Cleric)
    } else if l == "druid"@ || l == "d"@ {
        Some(Class::Druid)
    } else if l == "fighter"@ || l == "f"@ {
        Some(Class::Fighter)
    } else if l == "paladin"@ || l == "p"@ {
        Some(Class::Paladin)
    } else if l == "ranger"@ || l == "r"@ {
        Some(Class::Ranger)
    } else if l == "mage"@ || l == "ma"@ {
        Some(Class::Mage)
    } else if l == "illusionist"@ || l == "i"@ {
        Some(Class::Illusionist)
    } else if l == "thief"@ || l == "t"@ {
        Some(Class::Thief)
    } else if l == "assassin"@ || l == "a"@ {
        Some(Class::Assassin)
    } else if l == "monk"@ || l == "mo"@ {
        Some(Class::Monk)
    } else if l == "bard"@ || l == "b"@ {
        Some(Class::Bard)
    } else {
        None
    }
}

/// The written-out name of a class.
pub open spec fn spec_class_name(c: Class) -> Seq<char> {
    match c {
        Class::Cleric => "cleric"@,
        Class::Druid => "druid"@,
        Class::Fighter => "fighter"@,
        Class::Paladin => "paladin"@,
        Class::Ranger => "ranger"@,
        Class::Mage => "mage"@,
        Class::Illusionist => "illusionist"@,
        Class::Thief => "thief"@,
        Class::Assassin => "assassin"@,
        Class::Monk => "monk"@,
        Class::Bard => "bard"@,
    }
}

impl Class {
    /// Recognize a class token, full name or abbreviation, in any letter case.
    pub fn from_str(s: &str) -> (r: Result<Class, ParseClassError>)
        ensures
            r matches Ok(c) ==> spec_class_of(s@) == Some(c),
            r is Err ==> spec_class_of(s@) is None && r == Err::<Class, ParseClassError>(
                ParseClassError::Name,
            ),
    {
        if eq_lower(s, "cleric") || eq_lower(s, "c") {
            Ok(Class::Cleric)
        } else if eq_lower(s, "druid") || eq_lower(s, "d") {
            Ok(Class::Druid)
        } else if eq_lower(s, "fighter") || eq_lower(s, "f") {
            Ok(Class::Fighter)
        } else if eq_lower(s, "paladin") || eq_lower(s, "p") {
            Ok(Class::Paladin)
        } else if eq_lower(s, "ranger") || eq_lower(s, "r") {
            Ok(Class::Ranger)
        } else if eq_lower(s, "mage") || eq_lower(s, "ma") {
            Ok(Class::Mage)
        } else if eq_lower(s, "illusionist") || eq_lower(s, "i") {
            Ok(Class::Illusionist)
        } else if eq_lower(s, "thief") || eq_lower(s, "t") {
            Ok(Class::Thief)
        } else if eq_lower(s, "assassin") || eq_lower(s, "a") {
            Ok(Class::Assassin)
        } else if eq_lower(s, "monk") || eq_lower(s, "mo") {
            Ok(Class::Monk)
        } else if eq_lower(s, "bard") || eq_lower(s, "b") {
            Ok(Class::Bard)
        } else {
            Err(ParseClassError::Name)
        }
    }

    /// The written-out name of the class.
    pub fn to_text(&self) -> (r: &'static str)
        ensures
            r@ == spec_class_name(*self),
    {
        match *self {
            Class::Cleric => "cleric",
            Class::Druid => "druid",
            Class::Fighter => "fighter",
            Class::Paladin => "paladin",
            Class::Ranger => "ranger",
            Class::Mage => "mage",
            Class::Illusionist => "illusionist",
            Class::Thief => "thief",
            Class::Assassin => "assassin",
            Class::Monk => "monk",
            Class::Bard => "bard",
        }
    }
}

/// Where the trailing run of digits of `s` begins (the length of `s` when
/// there is none).
pub open spec fn digit_suffix_start(s: Seq<char>) -> int
    decreases s.len(),
{
    if s.len() > 0 && is_digit(s.last()) {
        digit_suffix_start(s.drop_last())
    } else {
        s.len() as int
    }
}

pub proof fn lemma_digit_suffix_start_props(s: Seq<char>)
    ensures
        0 <= digit_suffix_start(s) <= s.len(),
        forall|m: int| digit_suffix_start(s) <= m < s.len() ==> is_digit(#[trigger] s[m]),
        digit_suffix_start(s) > 0 ==> !is_digit(s[digit_suffix_start(s) - 1]),
    decreases s.len(),
{
    if s.len() > 0 && is_digit(s.last()) {
        lemma_digit_suffix_start_props(s.drop_last());
        assert(forall|m: int|
            0 <= m < s.len() - 1 ==> #[trigger] s[m] == s.drop_last()[m]);
    }
}

/// The class a token names, or an arbitrary stand-in where it names none
/// (used only under a guard that every token is recognized).
pub open spec fn class_of_or_default(t: Seq<char>) -> Class {
    match spec_class_of(t) {
        Some(c) => c,
        None => Class::Cleric,
    }
}

/// Whether the trailing digit run of `s` is present and fits the level's
/// range.
pub open spec fn spec_level_fits(s: Seq<char>) -> bool {
    let digits = s.skip(digit_suffix_start(s));
    digits.len() > 0 && digits_val(digits) <= u32::MAX as int
}

/// The name part of a compact descriptor: what precedes the trailing digit
/// run, or all of `s` when the run is absent or overflows.
pub open spec fn spec_descriptor_name(s: Seq<char>) -> Seq<char> {
    let k = digit_suffix_start(s);
    if s.skip(k).len() == 0 || spec_level_fits(s) {
        s.take(k)
    } else {
        s
    }
}

/// The level (or hit-dice) part of a compact descriptor, 1 when absent.
pub open spec fn spec_descriptor_lvl(s: Seq<char>) -> u32 {
    if spec_level_fits(s) {
        digits_val(s.skip(digit_suffix_start(s))) as u32
    } else {
        1
    }
}

/// The descriptor a compact token denotes, or the error it raises: the
/// trailing digit run is the level (1 when absent, reabsorbed into the name
/// when it overflows), then `!` and `.` name monsters and anything else is a
/// `/`-separated class list.
pub open spec fn spec_parse_classes(s: Seq<char>) -> Result<ClassesView, ParseClassError> {
    let name = spec_descriptor_name(s);
    let lvl = spec_descriptor_lvl(s);
    if name == "!"@ {
        Ok(ClassesView::Monster { magical: true, hd: lvl })
    } else if name == "."@ {
        Ok(ClassesView::Monster { magical: false, hd: lvl })
    } else {
        let toks = spec_split_slash(name);
        if forall|q: int| 0 <= q < toks.len() ==> spec_class_of(#[trigger] toks[q]) is Some {
            let members = toks.map_values(|t: Seq<char>| class_of_or_default(t));
            if toks.len() > 1 {
                Ok(ClassesView::Multi { name: members, lvl })
            } else {
                Ok(ClassesView::Single { name: members[0], lvl })
            }
        } else {
            Err(ParseClassError::Name)
        }
    }
}

/// The `/`-joined written-out names of a class list.
pub open spec fn spec_names_text(s: Seq<Class>) -> Seq<char>
    decreases s.len(),
{
    if s.len() == 0 {
        Seq::empty()
    } else if s.len() == 1 {
        spec_class_name(s[0])
    } else {
        spec_names_text(s.drop_last()) + seq!['/'] + spec_class_name(s.last())
    }
}

/// The description of a class descriptor: level and names for classed
/// combatants, hit dice and an optional `magical` mark for monsters.
pub open spec fn spec_classes_text(c: ClassesView) -> Seq<char> {
    match c {
        ClassesView::Single { name, lvl } => spec_u64_digits(lvl as int) + " level "@
            + spec_class_name(name),
        ClassesView::Multi { name, lvl } => spec_u64_digits(lvl as int) + " level "@
            + spec_names_text(name),
        ClassesView::Monster { magical, hd } => (if magical {
            "magical "@
        } else {
            Seq::<char>::empty()
        }) + spec_u64_digits(hd as int) + "-HD monster"@,
    }
}

/// A class descriptor: one class with a level, several classes sharing a
/// level, or a monster with hit dice in place of a level.
#[derive(Debug, PartialEq)]
pub enum Classes {
    Multi { name: Vec<Class>, lvl: u32 },
    Single { name: Class, lvl: u32 },
    Monster { magical: bool, hd: u32 },
}

/// The mathematical shape of a class descriptor.
pub enum ClassesView {
    Multi { name: Seq<Class>, lvl: u32 },
    Single { name: Class, lvl: u32 },
    Monster { magical: bool, hd: u32 },
}

impl View for Classes {
    type V = ClassesView;

    open spec fn view(&self) -> ClassesView {
        match self {
            Classes::Multi { name, lvl } => ClassesView::Multi { name: name@, lvl: *lvl },
            Classes::Single { name, lvl } => ClassesView::Single { name: *name, lvl: *lvl },
            Classes::Monster { magical, hd } => ClassesView::Monster {
                magical: *magical,
                hd: *hd,
            },
        }
    }
}

/// The attack rating a descriptor resolves to: single classes look their
/// table up at the clamped level, multi-classes take the best member rating,
/// monsters use the martial table indexed by hit dice.
pub open spec fn spec_thac0(c: ClassesView) -> u32 {
    match c {
        ClassesView::Single { name, lvl } => class_rating(name, clamp_index(lvl as int)),
        ClassesView::Multi { name, lvl } => multi_rating(name, clamp_index(lvl as int)),
        ClassesView::Monster { magical: _, hd } => fighter_rating(clamp_index(hd as int)),
    }
}

/// Find where the trailing run of digits begins.
fn digit_suffix_scan(s: &str) -> (j: usize)
    ensures
        j as int == digit_suffix_start(s@),
        j <= s@.len(),
{
    let n = s.unicode_len();
    let mut j: usize = n;
    loop
        invariant_except_break
            j <= n,
            n == s@.len(),
            forall|m: int| j <= m < n ==> is_digit(#[trigger] s@[m]),
        ensures
            j <= n,
            n == s@.len(),
            forall|m: int| j <= m < n ==> is_digit(#[trigger] s@[m]),
            j == 0 || !is_digit(s@[j - 1]),
        decreases j,
    {
        if j == 0 {
            break ;
        }
        let c = s.get_char(j - 1);
        let u = c as u32;
        if u < 48 || u > 57 {
            break ;
        }
        j = j - 1;
    }
    proof {
        lemma_digit_suffix_start_props(s@);
        let k = digit_suffix_start(s@);
        if j < k {
            assert(is_digit(s@[k - 1]));
        }
        if k < j {
            assert(is_digit(s@[j - 1]));
        }
        assert(j as int == k);
    }
    j
}

impl Classes {
    /// The same descriptor at the given level (hit dice for a monster).
    pub fn lvl(self, lvl: u32) -> (r: Self)
        ensures
            r@ == (match self@ {
                ClassesView::Multi { name, lvl: _ } => ClassesView::Multi { name, lvl },
                ClassesView::Single { name, lvl: _ } => ClassesView::Single { name, lvl },
                ClassesView::Monster { magical, hd: _ } => ClassesView::Monster {
                    magical,
                    hd: lvl,
                },
            }),
    {
        match self {
            Classes::Multi { name, lvl: _ } => Classes::Multi { name, lvl },
            Classes::Single { name, lvl: _ } => Classes::Single { name, lvl },
            Classes::Monster { magical, hd: _ } => Classes::Monster { magical, hd: lvl },
        }
    }

    /// Parse a compact descriptor: a trailing run of digits is the level or
    /// hit-dice count (1 when absent), `!` names a magical monster, `.` an
    /// ordinary one, and anything else is a `/`-separated list of class
    /// tokens.
    #[verifier::loop_isolation(false)]
    pub fn from_str(s: &str) -> (r: Result<Classes, ParseClassError>)
        ensures
            r matches Ok(c) ==> spec_parse_classes(s@) == Ok::<ClassesView, ParseClassError>(c@),
            r matches Err(e) ==> spec_parse_classes(s@) == Err::<ClassesView, ParseClassError>(e),
    {
        let n = s.unicode_len();
        let j = digit_suffix_scan(s);
        let ghost k = j as int;
        proof {
            lemma_digit_suffix_start_props(s@);
        }
        let mut lvl: u32 = 1;
        let mut name_end: usize = j;
        if j < n {
            let digits_part = s.substring_char(j, n);
            assert(digits_part@ =~= s@.skip(k));
            match crate::text::parse_u32(digits_part) {
                Some(v) => {
                    lvl = v;
                },
                None => {
                    // The run overflows the level's range: the whole token is
                    // read as a name, as if no level were attached.
                    name_end = n;
                },
            }
        }
        let name = s.substring_char(0, name_end);
        proof {
            if name_end == n {
                assert(name@ =~= s@.take(n as int));
                assert(s@.take(n as int) =~= s@);
            } else {
                assert(name@ =~= s@.take(k));
            }
            assert(name@ == spec_descriptor_name(s@));
            assert(lvl == spec_descriptor_lvl(s@));
        }
        if crate::text::str_eq(name, "!") {
            return Ok(Classes::Monster { magical: true, hd: lvl });
        }
        if crate::text::str_eq(name, ".") {
            return Ok(Classes::Monster { magical: false, hd: lvl });
        }
        let toks = split_slash(name);
        let mut classes: Vec<Class> = Vec::new();
        let m = toks.len();
        let mut i: usize = 0;
        while i < m
            invariant
                0 <= i <= m,
                m == toks.len(),
                toks.deep_view() == spec_split_slash(name@),
                name@ == spec_descriptor_name(s@),
                lvl == spec_descriptor_lvl(s@),
                name@ != "!"@,
                name@ != "."@,
                classes.len() == i,
                forall|q: int|
                    0 <= q < i ==> spec_class_of(toks.deep_view()[q]) == Some(
                        #[trigger] classes@[q],
                    ),
            decreases m - i,
        {
            match Class::from_str(toks[i].as_str()) {
                Ok(c) => {
                    classes.push(c);
                },
                Err(e) => {
                    proof {
                        let view_toks = spec_split_slash(name@);
                        assert(spec_class_of(view_toks[i as int]) is None);
                        assert(!(forall|q: int|
                            0 <= q < view_toks.len() ==> spec_class_of(
                                #[trigger] view_toks[q],
                            ) is Some));
                    }
                    return Err(e);
                },
            }
            i = i + 1;
        }
        proof {
            let view_toks = spec_split_slash(name@);
            assert(classes@.len() == view_toks.len());
            assert forall|q: int| 0 <= q < view_toks.len() implies spec_class_of(
                #[trigger] view_toks[q],
            ) is Some by {
                assert(spec_class_of(toks.deep_view()[q]) == Some(classes@[q]));
            }
            assert forall|q: int| 0 <= q < view_toks.len() implies view_toks.map_values(
                |t: Seq<char>| class_of_or_default(t),
            )[q] == classes@[q] by {
                assert(spec_class_of(toks.deep_view()[q]) == Some(classes@[q]));
            }
            assert(view_toks.map_values(|t: Seq<char>| class_of_or_default(t)) =~= classes@);
        }
        if classes.len() > 1 {
            Ok(Classes::Multi { name: classes, lvl })
        } else {
            assert(classes.len() == 1) by {
                crate::text::lemma_split_slash_len(name@);
            }
            let c = classes[0];
            Ok(Classes::Single { name: c, lvl })
        }
    }

    /// An equal descriptor under separate ownership.
    pub fn duplicate(&self) -> (r: Self)
        ensures
            r@ == self@,
    {
        match self {
            Classes::Multi { name, lvl } => {
                let mut members: Vec<Class> = Vec::new();
                let n = name.len();
                let mut i: usize = 0;
                while i < n
                    invariant
                        0 <= i <= n,
                        n == name@.len(),
                        members@ =~= name@.take(i as int),
                    decreases n - i,
                {
                    members.push(name[i]);
                    i = i + 1;
                }
                proof {
                    assert(members@ =~= name@);
                }
                Classes::Multi { name: members, lvl: *lvl }
            },
            Classes::Single { name, lvl } => Classes::Single { name: *name, lvl: *lvl },
            Classes::Monster { magical, hd } => Classes::Monster { magical: *magical, hd: *hd },
        }
    }

    /// Describe the descriptor in words.
    #[verifier::loop_isolation(false)]
    pub fn to_text(&self) -> (r: String)
        ensures
            r@ == spec_classes_text(self@),
    {
        let mut out = String::new();
        match self {
            Classes::Single { name, lvl } => {
                append_u64(&mut out, *lvl as u64);
                out.append(" level ");
                out.append(name.to_text());
                proof {
                    assert(out@ =~= spec_classes_text(self@));
                }
            },
            Classes::Multi { name, lvl } => {
                append_u64(&mut out, *lvl as u64);
                out.append(" level ");
                let n = name.len();
                let mut i: usize = 0;
                while i < n
                    invariant
                        0 <= i <= n,
                        out@ =~= spec_u64_digits(*lvl as int) + " level "@ + spec_names_text(
                            name@.take(i as int),
                        ),
                    decreases n - i,
                {
                    if i > 0 {
                        out.append("/");
                    }
                    out.append(name[i].to_text());
                    proof {
                        reveal_strlit("/");
                        let t = name@.take(i + 1);
                        assert(t.drop_last() =~= name@.take(i as int));
                        assert(t.last() == name@[i as int]);
                        assert(out@ =~= spec_u64_digits(*lvl as int) + " level "@
                            + spec_names_text(name@.take(i + 1)));
                    }
                    i = i + 1;
                }
                proof {
                    assert(name@.take(n as int) =~= name@);
                    assert(out@ =~= spec_classes_text(self@));
                }
            },
            Classes::Monster { magical, hd } => {
                if *magical {
                    out.append("magical ");
                }
                append_u64(&mut out, *hd as u64);
                out.append("-HD monster");
                proof {
                    assert(out@ =~= spec_classes_text(self@));
                }
            },
        }
        out
    }

    /// Resolve the attack rating for this descriptor.
    pub fn thac0(&self) -> (r: u32)
        ensures
            r == spec_thac0(self@),
    {
        match self {
            Classes::Single { name, lvl } => {
                let idx = clamp_index_exec(*lvl);
                class_rating_exec(*name, idx)
            },
            Classes::Monster { magical: _, hd } => {
                let idx = clamp_index_exec(*hd);
                fighter_rating_exec(idx)
            },
            Classes::Multi { name, lvl } => {
                let idx = clamp_index_exec(*lvl);
                let n = name.len();
                if n == 0 {
                    return 20;
                }
                let mut best = class_rating_exec(name[0], idx);
                assert(name@.take(1).len() == 1 && name@.take(1)[0] == name@[0]);
                let mut i: usize = 1;
                while i < n
                    invariant
                        1 <= i <= n,
                        n == name@.len(),
                        idx as int == clamp_index(*lvl as int),
                        best == multi_rating(name@.take(i as int), idx as int),
                    decreases n - i,
                {
                    let c = class_rating_exec(name[i], idx);
                    proof {
                        let t = name@.take(i + 1);
                        assert(t.drop_last() =~= name@.take(i as int));
                        assert(t.last() == name@[i as int]);
                    }
                    if c < best {
                        best = c;
                    }
                    i = i + 1;
                }
                proof {
                    assert(name@.take(n as int) =~= name@);
                }
                best
            },
        }
    }
}

} // verus!
