//! Entity records and the fixed seating layout.
use vstd::prelude::*;
use crate::text::{hex_field, parse_digits, split_bar, split_fields, texts};

verus! {

/// Number of seats in the fixed layout.
pub const SEAT_COUNT: usize = 20;

/// Seat value of a record whose raw slot index is outside the layout table.
pub const UNASSIGNED: i32 = -1;

/// Number of tokens in one raw record.
pub const RECORD_TOKENS: usize = 12;

/// The seat that a raw slot index occupies, or `UNASSIGNED`.
pub open spec fn seat_of(index: int) -> int {
    if index == 0x14 { 0 }
    else if index == 0x12 { 1 }
    else if index == 0x10 { 2 }
    else if index == 0x11 { 3 }
    else if index == 0x13 { 4 }
    else if index == 0x19 { 5 }
    else if index == 0x17 { 6 }
    else if index == 0x15 { 7 }
    else if index == 0x16 { 8 }
    else if index == 0x18 { 9 }
    else if index == 9 { 10 }
    else if index == 7 { 11 }
    else if index == 5 { 12 }
    else if index == 6 { 13 }
    else if index == 8 { 14 }
    else if index == 4 { 15 }
    else if index == 2 { 16 }
    else if index == 0 { 17 }
    else if index == 1 { 18 }
    else if index == 3 { 19 }
    else { -1 }
}

/// The raw slot index that is shown at `seat`, for a seat of the layout.
pub open spec fn index_of_seat(seat: int) -> int {
    if seat == 0 { 0x14 }
    else if seat == 1 { 0x12 }
    else if seat == 2 { 0x10 }
    else if seat == 3 { 0x11 }
    else if seat == 4 { 0x13 }
    else if seat == 5 { 0x19 }
    else if seat == 6 { 0x17 }
    else if seat == 7 { 0x15 }
    else if seat == 8 { 0x16 }
    else if seat == 9 { 0x18 }
    else if seat == 10 { 9 }
    else if seat == 11 { 7 }
    else if seat == 12 { 5 }
    else if seat == 13 { 6 }
    else if seat == 14 { 8 }
    else if seat == 15 { 4 }
    else if seat == 16 { 2 }
    else if seat == 17 { 0 }
    else if seat == 18 { 1 }
    else { 3 }
}

/// A raw slot index that the layout table lists: 0 to 9 and 0x10 to 0x19.
pub open spec fn listed_index(i: int) -> bool {
    0 <= i < 10 || 0x10 <= i < 0x1a
}

/// The layout table is a bijection between its twenty raw slot indices and
/// the seats 0 to 19, `index_of_seat` is its inverse, and every other index is
/// unassigned.
pub proof fn lemma_seat_table_bijective()
    ensures
        forall|i: int| listed_index(i) ==> 0 <= #[trigger] seat_of(i) < 20 && index_of_seat(seat_of(i)) == i,
        forall|s: int| 0 <= s < 20 ==> listed_index(#[trigger] index_of_seat(s)) && seat_of(index_of_seat(s)) == s,
        forall|i: int| !listed_index(i) ==> #[trigger] seat_of(i) == -1,
{
}

/// The seat of a raw slot index, or `UNASSIGNED`.
pub fn seat_for_index(index: i32) -> (r: i32)
    ensures
        r as int == seat_of(index as int),
{
    match index {
        0x14 => 0,
        0x12 => 1,
        0x10 => 2,
        0x11 => 3,
        0x13 => 4,
        0x19 => 5,
        0x17 => 6,
        0x15 => 7,
        0x16 => 8,
        0x18 => 9,
        9 => 10,
        7 => 11,
        5 => 12,
        6 => 13,
        8 => 14,
        4 => 15,
        2 => 16,
        0 => 17,
        1 => 18,
        3 => 19,
        _ => UNASSIGNED,
    }
}

/// One combatant's state at a point in time.
#[derive(Debug)]
pub struct Character {
    /// Display slot; not the index in memory.
    pub pos_in_grid: i32,
    pub name: String,
    pub lv: i32,
    pub hp: i32,
    pub hp_max: i32,
    pub mp: i32,
    pub mp_max: i32,
}

/// Mathematical value of a `Character`.
pub struct CharacterView {
    pub pos_in_grid: int,
    pub name: Seq<char>,
    pub lv: int,
    pub hp: int,
    pub hp_max: int,
    pub mp: int,
    pub mp_max: int,
}

impl View for Character {
    type V = CharacterView;

    open spec fn view(&self) -> CharacterView {
        CharacterView {
            pos_in_grid: self.pos_in_grid as int,
            name: self.name@,
            lv: self.lv as int,
            hp: self.hp as int,
            hp_max: self.hp_max as int,
            mp: self.mp as int,
            mp_max: self.mp_max as int,
        }
    }
}

/// The unassigned record with empty name and zero statistics.
pub open spec fn unassigned_view() -> CharacterView {
    CharacterView {
        pos_in_grid: -1,
        name: Seq::empty(),
        lv: 0,
        hp: 0,
        hp_max: 0,
        mp: 0,
        mp_max: 0,
    }
}

/// The record that the first twelve tokens of `t` describe, or `None` where
/// the slot index or one of the five statistics is not a hexadecimal number.
pub open spec fn record_of(t: Seq<Seq<char>>) -> Option<CharacterView> {
    if t.len() >= 12 && hex_field(t[0]) is Some && hex_field(t[4]) is Some
        && hex_field(t[5]) is Some && hex_field(t[6]) is Some && hex_field(t[7]) is Some
        && hex_field(t[8]) is Some {
        Some(
            CharacterView {
                pos_in_grid: seat_of(hex_field(t[0])->0),
                name: t[1],
                lv: hex_field(t[4])->0,
                hp: hex_field(t[5])->0,
                hp_max: hex_field(t[6])->0,
                mp: hex_field(t[7])->0,
                mp_max: hex_field(t[8])->0,
            },
        )
    } else {
        None
    }
}

fn hex_number(s: &String) -> (r: Option<i32>)
    ensures
        r matches Some(v) ==> hex_field(s@) == Some(v as int),
        r is None ==> hex_field(s@) is None,
{
    match parse_digits(s.as_str(), 16, 0x7fff_ffff) {
        Some(v) => Some(v as i32),
        None => None,
    }
}

impl Default for Character {
    fn default() -> (r: Character)
        ensures
            r@ == unassigned_view(),
    {
        Character {
            pos_in_grid: UNASSIGNED,
            name: String::new(),
            lv: 0,
            hp: 0,
            hp_max: 0,
            mp: 0,
            mp_max: 0,
        }
    }
}

impl Clone for Character {
    fn clone(&self) -> (r: Character)
        ensures
            r@ == self@,
    {
        Character {
            pos_in_grid: self.pos_in_grid,
            name: self.name.clone(),
            lv: self.lv,
            hp: self.hp,
            hp_max: self.hp_max,
            mp: self.mp,
            mp_max: self.mp_max,
        }
    }
}

impl Character {
    /// Builds the record that the twelve tokens from `start` on describe.
    pub fn from_tokens(tokens: &Vec<String>, start: usize) -> (r: Option<Character>)
        requires
            start + 12 <= tokens@.len(),
        ensures
            r matches Some(c) ==> record_of(texts(tokens@).subrange(start as int, start + 12))
                == Some(c@),
            r is None ==> record_of(texts(tokens@).subrange(start as int, start + 12)) is None,
    {
        let n = tokens.len();
        assert(start + 12 <= n);
        let ghost t = texts(tokens@).subrange(start as int, start + 12);
        assert(t[0] == tokens@[start as int]@);
        assert(t[1] == tokens@[start + 1]@);
        assert(t[4] == tokens@[start + 4]@);
        assert(t[5] == tokens@[start + 5]@);
        assert(t[6] == tokens@[start + 6]@);
        assert(t[7] == tokens@[start + 7]@);
        assert(t[8] == tokens@[start + 8]@);
        let index = match hex_number(&tokens[start]) {
            Some(v) => v,
            None => return None,
        };
        let lv = match hex_number(&tokens[start + 4]) {
            Some(v) => v,
            None => return None,
        };
        let hp = match hex_number(&tokens[start + 5]) {
            Some(v) => v,
            None => return None,
        };
        let hp_max = match hex_number(&tokens[start + 6]) {
            Some(v) => v,
            None => return None,
        };
        let mp = match hex_number(&tokens[start + 7]) {
            Some(v) => v,
            None => return None,
        };
        let mp_max = match hex_number(&tokens[start + 8]) {
            Some(v) => v,
            None => return None,
        };
        Some(
            Character {
                pos_in_grid: seat_for_index(index),
                name: tokens[start + 1].clone(),
                lv,
                hp,
                hp_max,
                mp,
                mp_max,
            },
        )
    }

    /// Builds the record that one raw record text describes; text with fewer
    /// than twelve tokens, or with a field that does not read, gives the
    /// unassigned record.
    pub fn from(character_info: &str) -> (r: Character)
        ensures
            r@ == (match record_of(split_bar(character_info@)) {
                Some(v) => v,
                None => unassigned_view(),
            }),
    {
        let tokens = split_fields(character_info);
        if tokens.len() < RECORD_TOKENS {
            return Character::default();
        }
        let ghost t = split_bar(character_info@);
        assert(texts(tokens@).subrange(0, 12) =~= t.subrange(0, 12));
        assert(record_of(t) == record_of(t.subrange(0, 12)));
        match Character::from_tokens(&tokens, 0) {
            Some(c) => c,
            None => Character::default(),
        }
    }
}

} // verus!
