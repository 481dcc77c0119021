//! The roster snapshot: seat position to entity record, and its parser.
use vstd::prelude::*;
use crate::record::{record_of, Character, CharacterView, RECORD_TOKENS, SEAT_COUNT};
use crate::text::{all_digits, split_bar, split_fields, texts};

verus! {

/// The roster with no seat taken.
pub open spec fn empty_roster() -> Seq<Option<CharacterView>> {
    Seq::new(20, |i: int| None)
}

/// Every seat of `r` holds only a record whose seat is that seat.
pub open spec fn valid_roster(r: Seq<Option<CharacterView>>) -> bool {
    &&& r.len() == 20
    &&& forall|i: int| 0 <= i < 20 && #[trigger] r[i] is Some ==> r[i]->0.pos_in_grid == i
}

/// `r` after `rec` took its seat; a missing or unassigned record changes nothing.
pub open spec fn place(r: Seq<Option<CharacterView>>, rec: Option<CharacterView>) -> Seq<
    Option<CharacterView>,
> {
    if rec is Some && 0 <= rec->0.pos_in_grid < 20 {
        r.update(rec->0.pos_in_grid, rec)
    } else {
        r
    }
}

/// The `k`-th group of twelve tokens of `t`.
pub open spec fn group(t: Seq<Seq<char>>, k: int) -> Seq<Seq<char>> {
    t.subrange(12 * k, 12 * k + 12)
}

/// The roster that the first `m` groups of `t` give, in token order.
pub open spec fn roster_upto(t: Seq<Seq<char>>, m: nat) -> Seq<Option<CharacterView>>
    decreases m,
{
    if m == 0 {
        empty_roster()
    } else {
        place(roster_upto(t, (m - 1) as nat), record_of(group(t, m - 1)))
    }
}

/// The roster of a token stream: every complete group in order, the trailing
/// partial group left out.
pub open spec fn roster_of_tokens(t: Seq<Seq<char>>) -> Seq<Option<CharacterView>> {
    roster_upto(t, t.len() / 12)
}

/// The roster that raw record text describes.
pub open spec fn roster_of(text: Seq<char>) -> Seq<Option<CharacterView>> {
    roster_of_tokens(split_bar(text))
}

/// Number of seats taken in `r`.
pub open spec fn occupied(r: Seq<Option<CharacterView>>) -> nat
    decreases r.len(),
{
    if r.len() == 0 {
        0
    } else {
        occupied(r.drop_last()) + if r.last() is Some { 1nat } else { 0nat }
    }
}

/// The `k`-th group of `t` holds a record that takes seat `seat`.
pub open spec fn lands_at(t: Seq<Seq<char>>, k: int, seat: int) -> bool {
    record_of(group(t, k)) is Some && record_of(group(t, k))->0.pos_in_grid == seat
}

/// A snapshot of the seating layout: at most one record per seat.
#[derive(Debug)]
pub struct Roster {
    seats: Vec<Option<Character>>,
}

impl View for Roster {
    type V = Seq<Option<CharacterView>>;

    closed spec fn view(&self) -> Seq<Option<CharacterView>> {
        Seq::new(
            self.seats@.len(),
            |i: int|
                match self.seats@[i] {
                    Some(c) => Some(c@),
                    None => None,
                },
        )
    }
}

impl Roster {
    /// The roster with no seat taken.
    pub fn new() -> (r: Roster)
        ensures
            r@ == empty_roster(),
            valid_roster(r@),
    {
        let mut seats: Vec<Option<Character>> = Vec::new();
        let mut i: usize = 0;
        while i < SEAT_COUNT
            invariant
                i <= 20,
                seats@.len() == i,
                forall|k: int| 0 <= k < i ==> #[trigger] seats@[k] is None,
            decreases 20 - i,
        {
            seats.push(None);
            i = i + 1;
        }
        let r = Roster { seats };
        assert(r@ =~= empty_roster());
        r
    }

    /// Puts `c` at its seat, in place of what sat there.
    pub fn insert(&mut self, c: Character)
        requires
            valid_roster(old(self)@),
            0 <= c.pos_in_grid < 20,
        ensures
            valid_roster(final(self)@),
            final(self)@ == old(self)@.update(c.pos_in_grid as int, Some(c@)),
    {
        let seat = c.pos_in_grid as usize;
        let ghost target = self@.update(c.pos_in_grid as int, Some(c@));
        self.seats.set(seat, Some(c));
        assert(self@ =~= target);
    }

    /// The record at `seat`, if that seat is taken.
    pub fn get(&self, seat: usize) -> (r: Option<&Character>)
        requires
            valid_roster(self@),
        ensures
            seat < 20 ==> (match r {
                Some(c) => self@[seat as int] == Some(c@),
                None => self@[seat as int] is None,
            }),
            seat >= 20 ==> r is None,
    {
        if seat >= SEAT_COUNT {
            return None;
        }
        match &self.seats[seat] {
            Some(c) => Some(c),
            None => None,
        }
    }

    /// Whether `seat` is taken.
    pub fn contains_key(&self, seat: usize) -> (r: bool)
        requires
            valid_roster(self@),
        ensures
            r == (seat < 20 && self@[seat as int] is Some),
    {
        self.get(seat).is_some()
    }

    /// Number of seats taken.
    pub fn len(&self) -> (r: usize)
        requires
            valid_roster(self@),
        ensures
            r == occupied(self@),
    {
        let mut count: usize = 0;
        let mut i: usize = 0;
        while i < SEAT_COUNT
            invariant
                i <= 20,
                self@.len() == 20,
                count <= i,
                count == occupied(self@.subrange(0, i as int)),
            decreases 20 - i,
        {
            let ghost p = self@.subrange(0, i as int + 1);
            assert(p.drop_last() =~= self@.subrange(0, i as int));
            if self.seats[i].is_some() {
                count = count + 1;
            }
            i = i + 1;
        }
        assert(self@.subrange(0, 20) =~= self@);
        count
    }

    /// Whether no seat is taken.
    pub fn is_empty(&self) -> (r: bool)
        requires
            valid_roster(self@),
        ensures
            r == (occupied(self@) == 0),
    {
        self.len() == 0
    }

    /// The records of the roster, in seat order.
    pub fn records(&self) -> (r: Vec<Character>)
        requires
            valid_roster(self@),
        ensures
            r@.len() == occupied(self@),
            forall|k: int| 0 <= k < r@.len() ==> self@[r@[k].pos_in_grid as int] == Some(
                #[trigger] r@[k]@,
            ),
            forall|k: int, j: int| 0 <= k < j < r@.len() ==> r@[k].pos_in_grid < r@[j].pos_in_grid,
    {
        let mut out: Vec<Character> = Vec::new();
        let mut i: usize = 0;
        while i < SEAT_COUNT
            invariant
                i <= 20,
                valid_roster(self@),
                self@.len() == self.seats@.len(),
                out@.len() == occupied(self@.subrange(0, i as int)),
                forall|k: int| 0 <= k < out@.len() ==> 0 <= #[trigger] out@[k].pos_in_grid < i
                    && self@[out@[k].pos_in_grid as int] == Some(out@[k]@),
                forall|k: int, j: int|
                    0 <= k < j < out@.len() ==> out@[k].pos_in_grid < out@[j].pos_in_grid,
            decreases 20 - i,
        {
            let ghost p = self@.subrange(0, i as int + 1);
            assert(p.drop_last() =~= self@.subrange(0, i as int));
            match &self.seats[i] {
                Some(c) => {
                    assert(self@[i as int] == Some(c@));
                    out.push(c.clone());
                },
                None => {},
            }
            i = i + 1;
        }
        assert(self@.subrange(0, 20) =~= self@);
        out
    }

    /// An independent copy of the roster.
    pub fn copy(&self) -> (r: Roster)
        requires
            valid_roster(self@),
        ensures
            r@ == self@,
            valid_roster(r@),
    {
        let mut seats: Vec<Option<Character>> = Vec::new();
        let mut i: usize = 0;
        while i < SEAT_COUNT
            invariant
                i <= 20,
                self@.len() == 20,
                self.seats@.len() == 20,
                seats@.len() == i,
                forall|k: int| 0 <= k < i ==> match #[trigger] seats@[k] {
                    Some(c) => self@[k] == Some(c@),
                    None => self@[k] is None,
                },
            decreases 20 - i,
        {
            match &self.seats[i] {
                Some(c) => seats.push(Some(c.clone())),
                None => seats.push(None),
            }
            i = i + 1;
        }
        let r = Roster { seats };
        assert(r@ =~= self@);
        r
    }
}

/// The `k`-th group of `t` takes no seat: one of its fields does not read, or
/// its slot index is outside the layout.
pub open spec fn dropped_at(t: Seq<Seq<char>>, k: int) -> bool {
    !(record_of(group(t, k)) is Some && 0 <= record_of(group(t, k))->0.pos_in_grid < 20)
}

/// Number of the first `m` groups of `t` that take no seat.
pub open spec fn dropped_upto(t: Seq<Seq<char>>, m: nat) -> nat
    decreases m,
{
    if m == 0 {
        0
    } else {
        dropped_upto(t, (m - 1) as nat) + if dropped_at(t, m - 1) { 1nat } else { 0nat }
    }
}

/// A parsed roster, with the number of complete groups that were dropped.
#[derive(Debug)]
pub struct ParseReport {
    pub roster: Roster,
    pub dropped: usize,
}

/// Parses raw record text into the roster it describes, and counts the
/// complete groups that took no seat.
pub fn parse_roster_report(raw_text: &str) -> (r: ParseReport)
    ensures
        r.roster@ == roster_of(raw_text@),
        valid_roster(r.roster@),
        r.dropped == dropped_upto(split_bar(raw_text@), split_bar(raw_text@).len() / 12),
{
    let tokens = split_fields(raw_text);
    let ghost t = split_bar(raw_text@);
    let groups = tokens.len() / RECORD_TOKENS;
    let mut roster = Roster::new();
    let mut dropped: usize = 0;
    let mut g: usize = 0;
    while g < groups
        invariant
            texts(tokens@) == t,
            groups == t.len() / 12,
            g <= groups,
            dropped <= g,
            dropped == dropped_upto(t, g as nat),
            roster@ == roster_upto(t, g as nat),
            valid_roster(roster@),
        decreases groups - g,
    {
        assert(12 * g + 12 <= t.len()) by (nonlinear_arith)
            requires
                g < groups,
                groups == t.len() / 12,
        ;
        let c = Character::from_tokens(&tokens, RECORD_TOKENS * g);
        match c {
            Some(c) => {
                if 0 <= c.pos_in_grid && c.pos_in_grid < 20 {
                    roster.insert(c);
                } else {
                    dropped = dropped + 1;
                }
            },
            None => {
                dropped = dropped + 1;
            },
        }
        g = g + 1;
    }
    ParseReport { roster, dropped }
}

/// Parses raw record text into the roster it describes: each complete group
/// of twelve tokens that reads and whose slot index is in the layout takes its
/// seat, a later group overwriting an earlier one at the same seat.
pub fn parse_roster(raw_text: &str) -> (r: Roster)
    ensures
        r@ == roster_of(raw_text@),
        valid_roster(r@),
{
    parse_roster_report(raw_text).roster
}

proof fn lemma_upto_last_write(t: Seq<Seq<char>>, m: nat, seat: int)
    requires
        0 <= seat < 20,
    ensures
        roster_upto(t, m).len() == 20,
        roster_upto(t, m)[seat] is None <==> forall|k: int| 0 <= k < m ==> !lands_at(t, k, seat),
        forall|k: int|
            0 <= k < m && lands_at(t, k, seat) && (forall|j: int| k < j < m ==> !lands_at(t, j, seat))
                ==> roster_upto(t, m)[seat] == record_of(#[trigger] group(t, k)),
    decreases m,
{
    if m > 0 {
        let l = (m - 1) as int;
        lemma_upto_last_write(t, l as nat, seat);
        let prev = roster_upto(t, l as nat);
        let cur = roster_upto(t, m);
        if lands_at(t, l, seat) {
            assert(cur[seat] == record_of(group(t, l)));
            assert forall|k: int|
                0 <= k < m && lands_at(t, k, seat) && (forall|j: int|
                    k < j < m ==> !lands_at(t, j, seat)) implies cur[seat] == record_of(
                #[trigger] group(t, k),
            ) by {
                if k < l {
                    assert(!lands_at(t, l, seat));
                }
            }
        } else {
            assert(cur[seat] == prev[seat]);
            assert forall|k: int|
                0 <= k < m && lands_at(t, k, seat) && (forall|j: int|
                    k < j < m ==> !lands_at(t, j, seat)) implies cur[seat] == record_of(
                #[trigger] group(t, k),
            ) by {
                assert(k < l);
                assert(forall|j: int| k < j < l ==> !lands_at(t, j, seat));
            }
            assert((forall|k: int| 0 <= k < m ==> !lands_at(t, k, seat)) <==> (forall|k: int|
                0 <= k < l ==> !lands_at(t, k, seat)));
        }
    }
}

/// Each seat of the parsed roster holds the record of the last complete group
/// in token order that takes that seat, and is free exactly where no group
/// takes it: one record per seat, a later group overwriting an earlier one.
pub proof fn lemma_roster_last_write_wins(t: Seq<Seq<char>>, seat: int)
    requires
        0 <= seat < 20,
    ensures
        roster_of_tokens(t)[seat] is None <==> forall|k: int|
            0 <= k < t.len() / 12 ==> !lands_at(t, k, seat),
        forall|k: int|
            0 <= k < t.len() / 12 && lands_at(t, k, seat) && (forall|j: int|
                k < j < t.len() / 12 ==> !lands_at(t, j, seat)) ==> roster_of_tokens(t)[seat]
                == record_of(#[trigger] group(t, k)),
{
    lemma_upto_last_write(t, t.len() / 12, seat);
}

proof fn lemma_upto_same_groups(a: Seq<Seq<char>>, b: Seq<Seq<char>>, m: nat)
    requires
        forall|k: int| 0 <= k < m ==> #[trigger] group(a, k) == group(b, k),
    ensures
        roster_upto(a, m) == roster_upto(b, m),
    decreases m,
{
    if m > 0 {
        lemma_upto_same_groups(a, b, (m - 1) as nat);
    }
}

/// Tokens after the last complete group of twelve never give a record: the
/// roster of `t` followed by fewer than twelve more tokens is the roster of `t`.
pub proof fn lemma_trailing_tokens_ignored(t: Seq<Seq<char>>, extra: Seq<Seq<char>>)
    requires
        t.len() % 12 == 0,
        extra.len() < 12,
    ensures
        roster_of_tokens(t + extra) == roster_of_tokens(t),
{
    let w = t + extra;
    assert(w.len() / 12 == t.len() / 12);
    let m = t.len() / 12;
    assert forall|k: int| 0 <= k < m implies #[trigger] group(w, k) == group(t, k) by {
        assert(12 * k + 12 <= t.len()) by (nonlinear_arith)
            requires
                k < m,
                m == t.len() / 12,
        ;
        assert(group(w, k) =~= group(t, k));
    }
    lemma_upto_same_groups(w, t, m);
}

/// A group whose slot index or one of whose five statistics is not a
/// hexadecimal number is dropped, and the groups around it give the same
/// roster as they would without it.
pub proof fn lemma_unreadable_record_dropped(
    pre: Seq<Seq<char>>,
    bad: Seq<Seq<char>>,
    post: Seq<Seq<char>>,
    field: int,
)
    requires
        pre.len() % 12 == 0,
        bad.len() == 12,
        field == 0 || 4 <= field <= 8,
        !all_digits(bad[field], 16),
    ensures
        roster_of_tokens(pre + bad + post) == roster_of_tokens(pre + post),
{
    let w = pre + bad + post;
    let v = pre + post;
    let p = pre.len() / 12;
    let n = v.len() / 12;
    assert(w.len() / 12 == n + 1) by (nonlinear_arith)
        requires
            w.len() == v.len() + 12,
            n == v.len() / 12,
    ;
    assert(pre.len() == 12 * p);
    assert(record_of(bad) is None);
    assert(p <= n) by (nonlinear_arith)
        requires
            pre.len() == 12 * p,
            v.len() >= pre.len(),
            n == v.len() / 12,
    ;
    assert forall|k: int| 0 <= k < p implies #[trigger] group(w, k) == group(v, k) by {
        assert(12 * k + 12 <= 12 * p) by (nonlinear_arith)
            requires
                k < p,
        ;
        assert(group(w, k) =~= group(v, k));
    }
    lemma_upto_same_groups(w, v, p as nat);
    assert(group(w, p as int) =~= bad);
    assert(roster_upto(w, (p + 1) as nat) == roster_upto(v, p as nat));
    lemma_upto_after_skip(w, v, p as nat, n);
}

proof fn lemma_upto_after_skip(w: Seq<Seq<char>>, v: Seq<Seq<char>>, p: nat, m: nat)
    requires
        p <= m,
        roster_upto(w, p + 1) == roster_upto(v, p),
        w.len() == v.len() + 12,
        forall|i: int| 0 <= i < 12 * p ==> w[i] == v[i],
        forall|i: int| 12 * p <= i < v.len() ==> w[i + 12] == v[i],
        m <= v.len() / 12,
    ensures
        roster_upto(w, m + 1) == roster_upto(v, m),
    decreases m - p,
{
    if m > p {
        lemma_upto_after_skip(w, v, p, (m - 1) as nat);
        assert(12 * (m - 1) + 12 <= v.len()) by (nonlinear_arith)
            requires
                m <= v.len() / 12,
                m >= 1,
        ;
        assert(12 * (m - 1) >= 12 * p) by (nonlinear_arith)
            requires
                m - 1 >= p,
        ;
        assert(group(w, m as int) =~= group(v, m - 1));
    }
}

} // verus!
