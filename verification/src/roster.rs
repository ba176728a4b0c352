//! The roster: an ordered collection of rows, each a finished combatant or
//! one still being built, with the per-round sort that orders the living by
//! effective initiative and drops the dead.

use crate::abilities::Abilities;
use crate::classes::Classes;
use crate::combatant::{
    builder_like, combatant_like, spec_advance_round, spec_deal_hit, spec_effective_init,
    spec_heal, spec_recv_hit, spec_team_xp, spec_xp, CombatError, Combatant, CombatantBuilder,
};
use crate::meter::Meter;
use vstd::multiset::Multiset;
use vstd::prelude::*;

verus! {

/// A roster row: a finished combatant, or one still being built.
#[derive(Debug)]
pub enum BattleRow {
    Done(Combatant),
    Building(CombatantBuilder),
}

/// Field-for-field sameness of two rows: what a duplicate preserves.
pub open spec fn row_like(a: BattleRow, b: BattleRow) -> bool {
    match (a, b) {
        (BattleRow::Done(x), BattleRow::Done(y)) => combatant_like(x, y),
        (BattleRow::Building(x), BattleRow::Building(y)) => builder_like(x, y),
        _ => false,
    }
}

/// The sort key of a row, larger first: a finished combatant ranks by
/// effective initiative, a row under construction below them all.
pub open spec fn row_key(r: BattleRow) -> int {
    match r {
        BattleRow::Done(c) => spec_effective_init(c) + 1,
        BattleRow::Building(_) => 0,
    }
}

/// Whether the sort keeps a row: rows under construction always stay, a
/// finished combatant stays while its effective initiative is positive —
/// exactly while it is not dead at a positive rating.
pub open spec fn row_retained(r: BattleRow) -> bool {
    match r {
        BattleRow::Done(c) => spec_effective_init(c) > 0,
        BattleRow::Building(_) => true,
    }
}

impl BattleRow {
    /// A row whose combatant, if finished, carries well-formed counters.
    pub open spec fn wf(self) -> bool {
        match self {
            BattleRow::Done(c) => c.wf(),
            BattleRow::Building(_) => true,
        }
    }

    /// The finished combatant in this row, if it holds one.
    pub fn done(&self) -> (r: Option<&Combatant>)
        ensures
            match *self {
                BattleRow::Done(c) => r matches Some(rc) && *rc == c,
                BattleRow::Building(_) => r is None,
            },
    {
        match self {
            BattleRow::Done(c) => Some(c),
            BattleRow::Building(_) => None,
        }
    }

    /// The finished combatant in this row, if it holds one, for updating.
    pub fn done_mut(&mut self) -> (r: Option<&mut Combatant>)
        ensures
            match *old(self) {
                BattleRow::Done(c) => r matches Some(m) && *m == c && *final (self)
                    == BattleRow::Done(*final (m)),
                BattleRow::Building(_) => r is None && *final (self) == *old(self),
            },
    {
        match self {
            BattleRow::Done(c) => Some(c),
            BattleRow::Building(_) => None,
        }
    }

    /// An equal row under separate ownership.
    pub fn duplicate(&self) -> (r: Self)
        ensures
            row_like(r, *self),
            r.wf() == self.wf(),
    {
        match self {
            BattleRow::Done(c) => BattleRow::Done(c.duplicate()),
            BattleRow::Building(cb) => BattleRow::Building(cb.duplicate()),
        }
    }
}

/// Keys never grow along the sequence.
pub open spec fn sorted_desc(s: Seq<BattleRow>) -> bool {
    forall|i: int, j: int| 0 <= i < j < s.len() ==> row_key(s[i]) >= row_key(s[j])
}

/// `x` placed behind every element whose key is at least its own: the
/// insertion step of a stable descending sort.
pub open spec fn insert_desc(x: BattleRow, s: Seq<BattleRow>) -> Seq<BattleRow>
    decreases s.len(),
{
    if s.len() == 0 {
        seq![x]
    } else if row_key(s[0]) >= row_key(x) {
        seq![s[0]] + insert_desc(x, s.skip(1))
    } else {
        seq![x] + s
    }
}

/// The stable descending sort by row key: elements are inserted left to
/// right, so rows with equal keys keep their prior relative order.
pub open spec fn sort_desc(s: Seq<BattleRow>) -> Seq<BattleRow>
    decreases s.len(),
{
    if s.len() == 0 {
        Seq::empty()
    } else {
        insert_desc(s.last(), sort_desc(s.drop_last()))
    }
}

/// Inserting puts `x` exactly at the first position whose key is below
/// `x`'s own.
proof fn lemma_insert_desc_at(x: BattleRow, s: Seq<BattleRow>, j: int)
    requires
        0 <= j <= s.len(),
        forall|q: int| 0 <= q < j ==> row_key(#[trigger] s[q]) >= row_key(x),
        j == s.len() || row_key(s[j]) < row_key(x),
    ensures
        insert_desc(x, s) =~= s.take(j) + seq![x] + s.skip(j),
    decreases j,
{
    if j == 0 {
        if s.len() == 0 {
            assert(insert_desc(x, s) =~= s.take(0) + seq![x] + s.skip(0));
        } else {
            assert(row_key(s[0]) < row_key(x));
        }
    } else {
        let t = s.skip(1);
        assert(row_key(s[0]) >= row_key(x));
        assert(forall|q: int| 0 <= q < j - 1 ==> row_key(#[trigger] t[q]) >= row_key(x));
        lemma_insert_desc_at(x, t, j - 1);
        assert(t.take(j - 1) =~= s.take(j).skip(1));
        assert(t.skip(j - 1) =~= s.skip(j));
    }
}

/// Everything inserted is either `x` or was already there.
proof fn lemma_insert_desc_multiset(x: BattleRow, s: Seq<BattleRow>)
    ensures
        insert_desc(x, s).to_multiset() =~= s.to_multiset().insert(x),
        insert_desc(x, s).len() == s.len() + 1,
    decreases s.len(),
{
    broadcast use vstd::seq_lib::group_to_multiset_ensures;

    if s.len() == 0 {
        assert(insert_desc(x, s) =~= Seq::empty().push(x));
        assert(Seq::<BattleRow>::empty().push(x).to_multiset() =~= Multiset::empty().insert(x));
    } else if row_key(s[0]) >= row_key(x) {
        lemma_insert_desc_multiset(x, s.skip(1));
        let rest = insert_desc(x, s.skip(1));
        assert(insert_desc(x, s) =~= seq![s[0]] + rest);
        vstd::seq_lib::lemma_multiset_commutative(seq![s[0]], rest);
        vstd::seq_lib::lemma_multiset_commutative(seq![s[0]], s.skip(1));
        assert(seq![s[0]] + s.skip(1) =~= s);
        assert(insert_desc(x, s).to_multiset() =~= s.to_multiset().insert(x));
    } else {
        assert(insert_desc(x, s) =~= seq![x] + s);
        vstd::seq_lib::lemma_multiset_commutative(seq![x], s);
        assert(seq![x].to_multiset() =~= Multiset::empty().insert(x));
        assert(insert_desc(x, s).to_multiset() =~= s.to_multiset().insert(x));
    }
}

/// Inserting into a sorted sequence keeps it sorted.
proof fn lemma_insert_desc_sorted(x: BattleRow, s: Seq<BattleRow>)
    requires
        sorted_desc(s),
    ensures
        sorted_desc(insert_desc(x, s)),
    decreases s.len(),
{
    if s.len() == 0 {
    } else if row_key(s[0]) >= row_key(x) {
        assert(sorted_desc(s.skip(1)));
        lemma_insert_desc_sorted(x, s.skip(1));
        let rest = insert_desc(x, s.skip(1));
        let out = seq![s[0]] + rest;
        assert(insert_desc(x, s) =~= out);
        lemma_insert_desc_multiset(x, s.skip(1));
        broadcast use vstd::seq_lib::group_to_multiset_ensures;

        assert forall|i: int, j: int| 0 <= i < j < out.len() implies row_key(out[i]) >= row_key(
            out[j],
        ) by {
            if i == 0 {
                assert(out[j] == rest[j - 1]);
                assert(rest.contains(rest[j - 1]));
                assert(rest.to_multiset().count(rest[j - 1]) > 0);
                if rest[j - 1] == x {
                    assert(row_key(out[0]) >= row_key(out[j]));
                } else {
                    assert(s.skip(1).to_multiset().count(rest[j - 1]) > 0);
                    assert(s.skip(1).contains(rest[j - 1]));
                    let w = choose|w: int| 0 <= w < s.skip(1).len() && s.skip(1)[w] == rest[j - 1];
                    assert(s[w + 1] == rest[j - 1]);
                    assert(row_key(s[0]) >= row_key(s[w + 1]));
                }
            } else {
                assert(out[i] == rest[i - 1] && out[j] == rest[j - 1]);
            }
        }
    } else {
        let out = seq![x] + s;
        assert(insert_desc(x, s) =~= out);
        assert forall|i: int, j: int| 0 <= i < j < out.len() implies row_key(out[i]) >= row_key(
            out[j],
        ) by {
            if i == 0 {
                if j == 1 {
                    assert(row_key(out[j]) == row_key(s[0]));
                } else {
                    assert(row_key(s[0]) >= row_key(s[j - 1]));
                }
            }
        }
    }
}

/// The sort leaves the rows a permutation of what went in, in never-growing
/// key order: what "sorted by effective initiative, stably" promises of the
/// result as a whole.
pub proof fn lemma_sort_desc_ensures(s: Seq<BattleRow>)
    ensures
        sorted_desc(sort_desc(s)),
        sort_desc(s).to_multiset() =~= s.to_multiset(),
        sort_desc(s).len() == s.len(),
    decreases s.len(),
{
    broadcast use vstd::seq_lib::group_to_multiset_ensures;

    if s.len() > 0 {
        lemma_sort_desc_ensures(s.drop_last());
        lemma_insert_desc_sorted(s.last(), sort_desc(s.drop_last()));
        lemma_insert_desc_multiset(s.last(), sort_desc(s.drop_last()));
        assert(s.drop_last().push(s.last()) =~= s);
        assert(s.drop_last().push(s.last()).to_multiset() =~= s.drop_last().to_multiset().insert(
            s.last(),
        ));
    }
}

/// A row at the start of a new round: a finished combatant advances, a row
/// under construction is untouched.
pub open spec fn row_advance(r: BattleRow) -> BattleRow {
    match r {
        BattleRow::Done(c) => BattleRow::Done(spec_advance_round(c)),
        b => b,
    }
}

/// A row with its class descriptor replaced (a finished combatant keeps its
/// once-computed attack rating).
pub open spec fn row_set_class(r: BattleRow, class: Classes) -> BattleRow {
    match r {
        BattleRow::Done(c) => BattleRow::Done(Combatant { class, ..c }),
        BattleRow::Building(cb) => BattleRow::Building(
            CombatantBuilder { class: Some(class), ..cb },
        ),
    }
}

/// A row with its hit-dice count replaced.
pub open spec fn row_set_hd(r: BattleRow, hd: u32) -> BattleRow {
    match r {
        BattleRow::Done(c) => BattleRow::Done(Combatant { hd, ..c }),
        BattleRow::Building(cb) => BattleRow::Building(CombatantBuilder { hd: Some(hd), ..cb }),
    }
}

/// A row with its health meter replaced.
pub open spec fn row_set_hp(r: BattleRow, hp: Meter<i32>) -> BattleRow {
    match r {
        BattleRow::Done(c) => BattleRow::Done(Combatant { hp, ..c }),
        BattleRow::Building(cb) => BattleRow::Building(CombatantBuilder { hp: Some(hp), ..cb }),
    }
}

/// A row with its action meter replaced.
pub open spec fn row_set_attacks(r: BattleRow, attacks: Meter<u32>) -> BattleRow {
    match r {
        BattleRow::Done(c) => BattleRow::Done(Combatant { attacks, ..c }),
        BattleRow::Building(cb) => BattleRow::Building(
            CombatantBuilder { attacks: Some(attacks), ..cb },
        ),
    }
}

/// A row with its armor rating replaced.
pub open spec fn row_set_ac(r: BattleRow, ac: i32) -> BattleRow {
    match r {
        BattleRow::Done(c) => BattleRow::Done(Combatant { ac, ..c }),
        BattleRow::Building(cb) => BattleRow::Building(CombatantBuilder { ac: Some(ac), ..cb }),
    }
}

/// A row with its team replaced.
pub open spec fn row_set_team(r: BattleRow, team: u32) -> BattleRow {
    match r {
        BattleRow::Done(c) => BattleRow::Done(Combatant { team, ..c }),
        BattleRow::Building(cb) => BattleRow::Building(
            CombatantBuilder { team: Some(team), ..cb },
        ),
    }
}

/// A row with its base initiative replaced.
pub open spec fn row_set_init(r: BattleRow, init: u32) -> BattleRow {
    match r {
        BattleRow::Done(c) => BattleRow::Done(Combatant { init, ..c }),
        BattleRow::Building(cb) => BattleRow::Building(
            CombatantBuilder { init: Some(init), ..cb },
        ),
    }
}

/// A row with its name replaced.
pub open spec fn row_set_name(r: BattleRow, name: String) -> BattleRow {
    match r {
        BattleRow::Done(c) => BattleRow::Done(Combatant { name, ..c }),
        BattleRow::Building(cb) => BattleRow::Building(CombatantBuilder { name, ..cb }),
    }
}

/// A row with its damage tallies and round counter reset.
pub open spec fn row_reset(r: BattleRow) -> BattleRow {
    match r {
        BattleRow::Done(c) => BattleRow::Done(Combatant { dealt: 0, recvd: 0, round: 1, ..c }),
        b => b,
    }
}

/// The rows after an attack from the combatant at `f` against the one at
/// `t`: the attacker records the hit dealt, then the target takes it (the
/// two are the same combatant when `f == t`).
pub open spec fn spec_attack_rows(rows: Seq<BattleRow>, f: int, t: int, dam: int) -> Seq<
    BattleRow,
> {
    match rows[f] {
        BattleRow::Done(cf) => {
            let after_deal = rows.update(f, BattleRow::Done(spec_deal_hit(cf, dam)));
            match after_deal[t] {
                BattleRow::Done(ct) => after_deal.update(
                    t,
                    BattleRow::Done(spec_recv_hit(ct, dam)),
                ),
                _ => after_deal,
            }
        },
        _ => rows,
    }
}

/// The team bonus pool for `team`: every finished teammate contributes its
/// pool value divided by `n`, the full roster size.
pub open spec fn spec_team_bonus(rows: Seq<BattleRow>, team: u32, n: int) -> int
    decreases rows.len(),
{
    if rows.len() == 0 {
        0
    } else {
        spec_team_bonus(rows.drop_last(), team, n) + (match rows.last() {
            BattleRow::Done(c) => if c.team == team {
                spec_team_xp(c.dealt as int) / n
            } else {
                0
            },
            BattleRow::Building(_) => 0,
        })
    }
}

/// The team bonus of well-formed rows is non-negative and, scaled by the
/// roster size it divides by, bounded.
proof fn lemma_team_bonus_bound(rows: Seq<BattleRow>, team: u32, n: int)
    requires
        n >= 1,
        forall|i: int| 0 <= i < rows.len() ==> (#[trigger] rows[i]).wf(),
    ensures
        0 <= spec_team_bonus(rows, team, n) <= rows.len() * ((i32::MAX as int) / n),
    decreases rows.len(),
{
    let q = (i32::MAX as int) / n;
    vstd::arithmetic::div_mod::lemma_div_is_ordered(0, i32::MAX as int, n);
    vstd::arithmetic::div_mod::lemma_div_basics(n);
    if rows.len() == 0 {
    } else {
        let front = rows.drop_last();
        assert(forall|i: int| 0 <= i < front.len() ==> front[i] == rows[i]);
        lemma_team_bonus_bound(front, team, n);
        let term = match rows.last() {
            BattleRow::Done(c) => if c.team == team {
                spec_team_xp(c.dealt as int) / n
            } else {
                0
            },
            BattleRow::Building(_) => 0,
        };
        assert(rows.last() == rows[rows.len() - 1]);
        assert(0 <= term <= q) by {
            match rows.last() {
                BattleRow::Done(c) => {
                    if c.team == team {
                        assert(c.wf());
                        assert(0 <= spec_team_xp(c.dealt as int) <= i32::MAX as int);
                        vstd::arithmetic::div_mod::lemma_div_is_ordered(
                            0,
                            spec_team_xp(c.dealt as int),
                            n,
                        );
                        vstd::arithmetic::div_mod::lemma_div_is_ordered(
                            spec_team_xp(c.dealt as int),
                            i32::MAX as int,
                            n,
                        );
                    }
                },
                BattleRow::Building(_) => {},
            }
        }
        assert((rows.len() - 1) * q + q == rows.len() * q) by (nonlinear_arith);
    }
}

/// Scaled back up, the per-member bound stays within the `i32` range.
proof fn lemma_team_bonus_fits(rows: Seq<BattleRow>, team: u32, n: int)
    requires
        n >= 1,
        n >= rows.len(),
        forall|i: int| 0 <= i < rows.len() ==> (#[trigger] rows[i]).wf(),
    ensures
        0 <= spec_team_bonus(rows, team, n) <= i32::MAX as int,
{
    let q = (i32::MAX as int) / n;
    lemma_team_bonus_bound(rows, team, n);
    vstd::arithmetic::div_mod::lemma_div_is_ordered(0, i32::MAX as int, n);
    assert(rows.len() * q <= n * q) by (nonlinear_arith)
        requires
            q >= 0,
            rows.len() <= n,
    ;
    vstd::arithmetic::div_mod::lemma_fundamental_div_mod(i32::MAX as int, n);
    vstd::arithmetic::div_mod::lemma_mod_bound(i32::MAX as int, n);
    assert(n * q <= i32::MAX as int);
}

/// The sort key of a row.
fn row_key_exec(r: &BattleRow) -> (k: u64)
    requires
        r.wf(),
    ensures
        k as int == row_key(*r),
{
    match r {
        BattleRow::Done(c) => c.get_init() as u64 + 1,
        BattleRow::Building(_) => 0,
    }
}

/// Whether the sort keeps the row.
fn row_retained_exec(r: &BattleRow) -> (k: bool)
    requires
        r.wf(),
    ensures
        k == row_retained(*r),
{
    match r {
        BattleRow::Done(c) => c.get_init() > 0,
        BattleRow::Building(_) => true,
    }
}

/// The first position in `out` whose key falls below `kx`; the length when
/// there is none.
fn find_insert_pos(out: &Vec<BattleRow>, kx: u64) -> (idx: usize)
    requires
        forall|q: int| 0 <= q < out@.len() ==> (#[trigger] out@[q]).wf(),
    ensures
        0 <= idx <= out@.len(),
        forall|q: int| 0 <= q < idx ==> row_key(#[trigger] out@[q]) >= kx as int,
        idx == out@.len() || row_key(out@[idx as int]) < kx as int,
{
    let n_out = out.len();
    let mut idx: usize = 0;
    loop
        invariant_except_break
            0 <= idx <= n_out,
            n_out == out@.len(),
            forall|q: int| 0 <= q < out@.len() ==> (#[trigger] out@[q]).wf(),
            forall|q: int| 0 <= q < idx ==> row_key(#[trigger] out@[q]) >= kx as int,
        ensures
            0 <= idx <= n_out,
            n_out == out@.len(),
            forall|q: int| 0 <= q < idx ==> row_key(#[trigger] out@[q]) >= kx as int,
            idx == n_out || row_key(out@[idx as int]) < kx as int,
        decreases n_out - idx,
    {
        if idx == n_out {
            break ;
        }
        if row_key_exec(&out[idx]) < kx {
            break ;
        }
        idx = idx + 1;
    }
    idx
}

/// The encounter as a whole: the ordered rows, the round count, the cursor
/// position and the optional selection.
#[derive(Debug)]
pub struct Roster {
    pub rows: Vec<BattleRow>,
    pub round: u32,
    pub pos: usize,
    pub sel: Option<usize>,
}

impl Roster {
    /// Every row is well formed.
    pub open spec fn wf(self) -> bool {
        forall|i: int| 0 <= i < self.rows@.len() ==> (#[trigger] self.rows@[i]).wf()
    }

    /// An empty roster at round one.
    pub fn new() -> (r: Self)
        ensures
            r.rows@ =~= Seq::<BattleRow>::empty(),
            r.round == 1,
            r.pos == 0,
            r.sel is None,
            r.wf(),
    {
        Roster { rows: Vec::new(), round: 1, pos: 0, sel: None }
    }

    /// Re-sort the rows: drop every finished combatant whose effective
    /// initiative is not positive (exactly the dead), order the rest by key
    /// descending — stably, so equal keys keep their prior order — and reset
    /// the cursor to the top.
    #[verifier::loop_isolation(false)]
    pub fn sort(&mut self)
        requires
            old(self).wf(),
        ensures
            final (self).rows@ =~= sort_desc(
                old(self).rows@.filter(|r: BattleRow| row_retained(r)),
            ),
            sorted_desc(final (self).rows@),
            final (self).rows@.to_multiset() =~= old(self).rows@.filter(
                |r: BattleRow| row_retained(r),
            ).to_multiset(),
            final (self).round == old(self).round,
            final (self).sel == old(self).sel,
            final (self).pos == 0,
            final (self).wf(),
    {
        proof {
            lemma_sort_desc_ensures(old(self).rows@.filter(|r: BattleRow| row_retained(r)));
        }
        let ghost orig = self.rows@;
        let ghost pred = |r: BattleRow| row_retained(r);
        let mut kept: Vec<BattleRow> = Vec::new();
        let ghost i: int = 0;
        proof {
            reveal_with_fuel(Seq::filter, 1);
            assert(orig.take(0).filter(pred) =~= Seq::<BattleRow>::empty());
        }
        while self.rows.len() > 0
            invariant
                0 <= i <= orig.len(),
                self.rows@ =~= orig.skip(i),
                self.round == old(self).round,
                self.sel == old(self).sel,
                kept@ =~= orig.take(i).filter(pred),
                forall|q: int| 0 <= q < kept@.len() ==> (#[trigger] kept@[q]).wf(),
            decreases self.rows@.len(),
        {
            let x = self.rows.remove(0);
            assert(x == orig[i]);
            proof {
                assert(orig.skip(i).remove(0) =~= orig.skip(i + 1));
            }
            if row_retained_exec(&x) {
                kept.push(x);
            }
            proof {
                reveal(Seq::filter);
                let t = orig.take(i + 1);
                assert(t.drop_last() =~= orig.take(i));
                assert(t.last() == orig[i]);
                assert(kept@ =~= orig.take(i + 1).filter(pred));
            }
            proof {
                i = i + 1;
            }
        }
        proof {
            assert(orig.take(orig.len() as int) =~= orig);
        }
        // Insert each retained row, in order, behind the rows that rank at
        // least as high: a stable insertion sort.
        let mut out: Vec<BattleRow> = Vec::new();
        let ghost keptall = kept@;
        let ghost j: int = 0;
        proof {
            assert(sort_desc(keptall.take(0)) =~= Seq::<BattleRow>::empty());
        }
        while kept.len() > 0
            invariant
                0 <= j <= keptall.len(),
                kept@ =~= keptall.skip(j),
                out@ =~= sort_desc(keptall.take(j)),
                forall|q: int| 0 <= q < keptall.len() ==> (#[trigger] keptall[q]).wf(),
                forall|q: int| 0 <= q < out@.len() ==> (#[trigger] out@[q]).wf(),
            decreases kept@.len(),
        {
            let x = kept.remove(0);
            assert(x == keptall[j]);
            proof {
                assert(keptall.skip(j).remove(0) =~= keptall.skip(j + 1));
            }
            let kx = row_key_exec(&x);
            let idx = find_insert_pos(&out, kx);
            let ghost out_before = out@;
            out.insert(idx, x);
            proof {
                lemma_insert_desc_at(x, out_before, idx as int);
                assert(out@ =~= out_before.take(idx as int) + seq![x] + out_before.skip(
                    idx as int,
                ));
                let t = keptall.take(j + 1);
                assert(t.drop_last() =~= keptall.take(j));
                assert(t.last() == keptall[j]);
                assert(out@ =~= sort_desc(keptall.take(j + 1)));
                j = j + 1;
            }
        }
        proof {
            assert(keptall.take(keptall.len() as int) =~= keptall);
        }
        self.rows = out;
        self.pos = 0;
    }

    /// Advance to the next round: count it, re-sort (dropping the dead), and
    /// let every finished combatant recover and refill its actions.
    #[verifier::loop_isolation(false)]
    pub fn advance(&mut self)
        requires
            old(self).wf(),
        ensures
            final (self).rows@ =~= sort_desc(
                old(self).rows@.filter(|r: BattleRow| row_retained(r)),
            ).map_values(|r: BattleRow| row_advance(r)),
            final (self).round as int == (if old(self).round == u32::MAX {
                u32::MAX as int
            } else {
                old(self).round as int + 1
            }),
            final (self).sel == old(self).sel,
            final (self).pos == 0,
            final (self).wf(),
    {
        if self.round < u32::MAX {
            self.round = self.round + 1;
        }
        let ghost new_round = self.round;
        self.sort();
        let ghost sorted = self.rows@;
        let ghost adv = |r: BattleRow| row_advance(r);
        let mut out: Vec<BattleRow> = Vec::new();
        let ghost i: int = 0;
        proof {
            assert(out@ =~= sorted.take(0).map_values(adv));
        }
        while self.rows.len() > 0
            invariant
                0 <= i <= sorted.len(),
                self.rows@ =~= sorted.skip(i),
                self.round == new_round,
                new_round as int == (if old(self).round == u32::MAX {
                    u32::MAX as int
                } else {
                    old(self).round as int + 1
                }),
                self.sel == old(self).sel,
                out@ =~= sorted.take(i).map_values(adv),
                forall|q: int| 0 <= q < out@.len() ==> (#[trigger] out@[q]).wf(),
            decreases self.rows@.len(),
        {
            let x = self.rows.remove(0);
            assert(x == sorted[i]);
            proof {
                assert(sorted.skip(i).remove(0) =~= sorted.skip(i + 1));
            }
            match x {
                BattleRow::Done(mut c) => {
                    c.update();
                    out.push(BattleRow::Done(c));
                },
                b => {
                    out.push(b);
                },
            }
            proof {
                assert(out@ =~= sorted.take(i + 1).map_values(adv));
                i = i + 1;
            }
        }
        proof {
            assert(sorted.take(sorted.len() as int) =~= sorted);
        }
        self.rows = out;
        self.pos = 0;
    }

    /// Add a new row for a combatant of the given name, to be built up field
    /// by field, then re-sort.
    pub fn add_combatant(&mut self, name: String)
        requires
            old(self).wf(),
        ensures
            final (self).rows@ =~= sort_desc(
                old(self).rows@.push(
                    BattleRow::Building(
                        CombatantBuilder {
                            name,
                            class: None,
                            hd: None,
                            hp: None,
                            attacks: None,
                            ac: None,
                            team: None,
                            init: None,
                        },
                    ),
                ).filter(|r: BattleRow| row_retained(r)),
            ),
            final (self).round == old(self).round,
            final (self).sel == old(self).sel,
            final (self).pos == 0,
            final (self).wf(),
    {
        let cb = CombatantBuilder::new(name);
        self.rows.push(BattleRow::Building(cb));
        proof {
            assert forall|q: int| 0 <= q < self.rows@.len() implies (
            #[trigger] self.rows@[q]).wf() by {
                if q < old(self).rows@.len() {
                    assert(self.rows@[q] == old(self).rows@[q]);
                }
            }
        }
        self.sort();
    }

    /// Record or clear the ability block of the finished combatant under the
    /// cursor; rows under construction are left alone.
    pub fn add_abilities(&mut self, abils: Option<Abilities>)
        ensures
            (old(self).pos < old(self).rows@.len() && old(self).rows@[old(self).pos as int]
                is Done) ==> final (self).rows@ =~= old(self).rows@.update(
                old(self).pos as int,
                (match old(self).rows@[old(self).pos as int] {
                    BattleRow::Done(c) => BattleRow::Done(Combatant { abilities: abils, ..c }),
                    b => b,
                }),
            ),
            !(old(self).pos < old(self).rows@.len() && old(self).rows@[old(self).pos as int]
                is Done) ==> final (self).rows@ =~= old(self).rows@,
            final (self).round == old(self).round,
            final (self).sel == old(self).sel,
            final (self).pos == old(self).pos,
            old(self).wf() ==> final (self).wf(),
    {
        if self.pos < self.rows.len() {
            let is_done = match &self.rows[self.pos] {
                BattleRow::Done(_) => true,
                BattleRow::Building(_) => false,
            };
            if is_done {
                let row = self.rows.remove(self.pos);
                let new_row = match row {
                    BattleRow::Done(mut c) => {
                        c.abilities = abils;
                        BattleRow::Done(c)
                    },
                    b => b,
                };
                self.rows.insert(self.pos, new_row);
                proof {
                    assert(self.rows@ =~= old(self).rows@.update(
                        old(self).pos as int,
                        (match old(self).rows@[old(self).pos as int] {
                            BattleRow::Done(c) => BattleRow::Done(
                                Combatant { abilities: abils, ..c },
                            ),
                            b => b,
                        }),
                    ));
                }
            }
        }
    }

    /// Set the class of the row under the cursor: the slot of a row under
    /// construction, or the descriptor of a finished combatant (whose attack
    /// rating, computed at build time, stays as it is).
    pub fn class(&mut self, class: Classes)
        ensures
            old(self).pos < old(self).rows@.len() ==> final (self).rows@ =~= old(
                self,
            ).rows@.update(
                old(self).pos as int,
                row_set_class(old(self).rows@[old(self).pos as int], class),
            ),
            old(self).pos >= old(self).rows@.len() ==> final (self).rows@ =~= old(self).rows@,
            final (self).round == old(self).round,
            final (self).sel == old(self).sel,
            final (self).pos == old(self).pos,
            old(self).wf() ==> final (self).wf(),
    {
        if self.pos < self.rows.len() {
            let row = self.rows.remove(self.pos);
            let new_row = match row {
                BattleRow::Building(cb) => BattleRow::Building(cb.class(class)),
                BattleRow::Done(mut c) => {
                    c.class = class;
                    BattleRow::Done(c)
                },
            };
            self.rows.insert(self.pos, new_row);
            proof {
                assert(self.rows@ =~= old(self).rows@.update(
                    old(self).pos as int,
                    row_set_class(old(self).rows@[old(self).pos as int], class),
                ));
            }
        }
    }

    /// Set the hit-dice count of the row under the cursor.
    pub fn hd(&mut self, hd: u32)
        ensures
            old(self).pos < old(self).rows@.len() ==> final (self).rows@ =~= old(
                self,
            ).rows@.update(
                old(self).pos as int,
                row_set_hd(old(self).rows@[old(self).pos as int], hd),
            ),
            old(self).pos >= old(self).rows@.len() ==> final (self).rows@ =~= old(self).rows@,
            final (self).round == old(self).round,
            final (self).sel == old(self).sel,
            final (self).pos == old(self).pos,
            old(self).wf() ==> final (self).wf(),
    {
        if self.pos < self.rows.len() {
            let row = self.rows.remove(self.pos);
            let new_row = match row {
                BattleRow::Building(cb) => BattleRow::Building(cb.hd(hd)),
                BattleRow::Done(mut c) => {
                    c.hd = hd;
                    BattleRow::Done(c)
                },
            };
            self.rows.insert(self.pos, new_row);
            proof {
                assert(self.rows@ =~= old(self).rows@.update(
                    old(self).pos as int,
                    row_set_hd(old(self).rows@[old(self).pos as int], hd),
                ));
            }
        }
    }

    /// Set the health meter of the row under the cursor.
    pub fn hp(&mut self, hp: Meter<i32>)
        ensures
            old(self).pos < old(self).rows@.len() ==> final (self).rows@ =~= old(
                self,
            ).rows@.update(
                old(self).pos as int,
                row_set_hp(old(self).rows@[old(self).pos as int], hp),
            ),
            old(self).pos >= old(self).rows@.len() ==> final (self).rows@ =~= old(self).rows@,
            final (self).round == old(self).round,
            final (self).sel == old(self).sel,
            final (self).pos == old(self).pos,
            old(self).wf() ==> final (self).wf(),
    {
        if self.pos < self.rows.len() {
            let row = self.rows.remove(self.pos);
            let new_row = match row {
                BattleRow::Building(cb) => BattleRow::Building(cb.hp(hp)),
                BattleRow::Done(mut c) => {
                    c.hp = hp;
                    BattleRow::Done(c)
                },
            };
            self.rows.insert(self.pos, new_row);
            proof {
                assert(self.rows@ =~= old(self).rows@.update(
                    old(self).pos as int,
                    row_set_hp(old(self).rows@[old(self).pos as int], hp),
                ));
            }
        }
    }

    /// Set the action meter of the row under the cursor.
    pub fn attacks(&mut self, attacks: Meter<u32>)
        ensures
            old(self).pos < old(self).rows@.len() ==> final (self).rows@ =~= old(
                self,
            ).rows@.update(
                old(self).pos as int,
                row_set_attacks(old(self).rows@[old(self).pos as int], attacks),
            ),
            old(self).pos >= old(self).rows@.len() ==> final (self).rows@ =~= old(self).rows@,
            final (self).round == old(self).round,
            final (self).sel == old(self).sel,
            final (self).pos == old(self).pos,
            old(self).wf() ==> final (self).wf(),
    {
        if self.pos < self.rows.len() {
            let row = self.rows.remove(self.pos);
            let new_row = match row {
                BattleRow::Building(cb) => BattleRow::Building(cb.attacks(attacks)),
                BattleRow::Done(mut c) => {
                    c.attacks = attacks;
                    BattleRow::Done(c)
                },
            };
            self.rows.insert(self.pos, new_row);
            proof {
                assert(self.rows@ =~= old(self).rows@.update(
                    old(self).pos as int,
                    row_set_attacks(old(self).rows@[old(self).pos as int], attacks),
                ));
            }
        }
    }

    /// Set the armor rating of the row under the cursor.
    pub fn ac(&mut self, ac: i32)
        ensures
            old(self).pos < old(self).rows@.len() ==> final (self).rows@ =~= old(
                self,
            ).rows@.update(
                old(self).pos as int,
                row_set_ac(old(self).rows@[old(self).pos as int], ac),
            ),
            old(self).pos >= old(self).rows@.len() ==> final (self).rows@ =~= old(self).rows@,
            final (self).round == old(self).round,
            final (self).sel == old(self).sel,
            final (self).pos == old(self).pos,
            old(self).wf() ==> final (self).wf(),
    {
        if self.pos < self.rows.len() {
            let row = self.rows.remove(self.pos);
            let new_row = match row {
                BattleRow::Building(cb) => BattleRow::Building(cb.ac(ac)),
                BattleRow::Done(mut c) => {
                    c.ac = ac;
                    BattleRow::Done(c)
                },
            };
            self.rows.insert(self.pos, new_row);
            proof {
                assert(self.rows@ =~= old(self).rows@.update(
                    old(self).pos as int,
                    row_set_ac(old(self).rows@[old(self).pos as int], ac),
                ));
            }
        }
    }

    /// Set the team of the row under the cursor.
    pub fn team(&mut self, team: u32)
        ensures
            old(self).pos < old(self).rows@.len() ==> final (self).rows@ =~= old(
                self,
            ).rows@.update(
                old(self).pos as int,
                row_set_team(old(self).rows@[old(self).pos as int], team),
            ),
            old(self).pos >= old(self).rows@.len() ==> final (self).rows@ =~= old(self).rows@,
            final (self).round == old(self).round,
            final (self).sel == old(self).sel,
            final (self).pos == old(self).pos,
            old(self).wf() ==> final (self).wf(),
    {
        if self.pos < self.rows.len() {
            let row = self.rows.remove(self.pos);
            let new_row = match row {
                BattleRow::Building(cb) => BattleRow::Building(cb.team(team)),
                BattleRow::Done(mut c) => {
                    c.team = team;
                    BattleRow::Done(c)
                },
            };
            self.rows.insert(self.pos, new_row);
            proof {
                assert(self.rows@ =~= old(self).rows@.update(
                    old(self).pos as int,
                    row_set_team(old(self).rows@[old(self).pos as int], team),
                ));
            }
        }
    }

    /// Set the base initiative of the row under the cursor.
    pub fn init(&mut self, init: u32)
        ensures
            old(self).pos < old(self).rows@.len() ==> final (self).rows@ =~= old(
                self,
            ).rows@.update(
                old(self).pos as int,
                row_set_init(old(self).rows@[old(self).pos as int], init),
            ),
            old(self).pos >= old(self).rows@.len() ==> final (self).rows@ =~= old(self).rows@,
            final (self).round == old(self).round,
            final (self).sel == old(self).sel,
            final (self).pos == old(self).pos,
            old(self).wf() ==> final (self).wf(),
    {
        if self.pos < self.rows.len() {
            let row = self.rows.remove(self.pos);
            let new_row = match row {
                BattleRow::Building(cb) => BattleRow::Building(cb.init(init)),
                BattleRow::Done(mut c) => {
                    c.init = init;
                    BattleRow::Done(c)
                },
            };
            self.rows.insert(self.pos, new_row);
            proof {
                assert(self.rows@ =~= old(self).rows@.update(
                    old(self).pos as int,
                    row_set_init(old(self).rows@[old(self).pos as int], init),
                ));
            }
        }
    }

    /// Move the cursor one row down.
    pub fn down(&mut self)
        ensures
            final (self).pos as int == (if old(self).pos + 1 < old(self).rows@.len() {
                old(self).pos as int + 1
            } else {
                old(self).pos as int
            }),
            final (self).rows@ =~= old(self).rows@,
            final (self).round == old(self).round,
            final (self).sel == old(self).sel,
            old(self).wf() ==> final (self).wf(),
    {
        if self.pos < self.rows.len() && self.pos + 1 < self.rows.len() {
            self.pos = self.pos + 1;
        }
    }

    /// Move the cursor one row up.
    pub fn up(&mut self)
        ensures
            final (self).pos as int == (if old(self).pos > 0 {
                old(self).pos as int - 1
            } else {
                0
            }),
            final (self).rows@ =~= old(self).rows@,
            final (self).round == old(self).round,
            final (self).sel == old(self).sel,
            old(self).wf() ==> final (self).wf(),
    {
        if self.pos > 0 {
            self.pos = self.pos - 1;
        }
    }

    /// Deal `dam` damage to the selected row's combatant. With no selection,
    /// or one that no longer points at a row, nothing happens; a row still
    /// under construction cannot take damage.
    pub fn damage(&mut self, dam: i32) -> (r: Result<(), CombatError>)
        requires
            dam >= 0,
            old(self).wf(),
        ensures
            final (self).round == old(self).round,
            final (self).pos == old(self).pos,
            final (self).sel == old(self).sel,
            final (self).wf(),
            (match old(self).sel {
                None => r is Ok && final (self).rows@ =~= old(self).rows@,
                Some(f) => {
                    if f >= old(self).rows@.len() {
                        r is Ok && final (self).rows@ =~= old(self).rows@
                    } else {
                        match old(self).rows@[f as int] {
                            BattleRow::Done(c) => r is Ok && final (self).rows@ =~= old(
                                self,
                            ).rows@.update(
                                f as int,
                                BattleRow::Done(spec_recv_hit(c, dam as int)),
                            ),
                            BattleRow::Building(_) => r == Err::<(), CombatError>(
                                CombatError::NotBuilt,
                            ) && final (self).rows@ =~= old(self).rows@,
                        }
                    }
                },
            }),
    {
        let f = match self.sel {
            Some(f) => f,
            None => {
                return Ok(());
            },
        };
        if f >= self.rows.len() {
            return Ok(());
        }
        match &self.rows[f] {
            BattleRow::Building(_) => {
                return Err(CombatError::NotBuilt);
            },
            BattleRow::Done(_) => {},
        }
        let row = self.rows.remove(f);
        let new_row = match row {
            BattleRow::Done(mut c) => {
                c.recv_hit(dam);
                BattleRow::Done(c)
            },
            b => b,
        };
        self.rows.insert(f, new_row);
        proof {
            assert(self.rows@ =~= old(self).rows@.update(
                f as int,
                (match old(self).rows@[f as int] {
                    BattleRow::Done(c) => BattleRow::Done(spec_recv_hit(c, dam as int)),
                    b => b,
                }),
            ));
            assert forall|q: int| 0 <= q < self.rows@.len() implies (
            #[trigger] self.rows@[q]).wf() by {
                if q != f as int {
                    assert(self.rows@[q] == old(self).rows@[q]);
                }
            }
        }
        Ok(())
    }

    /// Heal the selected row's combatant by `dam`, clamped at its hit-point
    /// maximum. With no usable selection nothing happens; a row still under
    /// construction cannot be healed.
    pub fn heal(&mut self, dam: i32) -> (r: Result<(), CombatError>)
        ensures
            final (self).round == old(self).round,
            final (self).pos == old(self).pos,
            final (self).sel == old(self).sel,
            old(self).wf() ==> final (self).wf(),
            (match old(self).sel {
                None => r is Ok && final (self).rows@ =~= old(self).rows@,
                Some(f) => {
                    if f >= old(self).rows@.len() {
                        r is Ok && final (self).rows@ =~= old(self).rows@
                    } else {
                        match old(self).rows@[f as int] {
                            BattleRow::Done(c) => r is Ok && final (self).rows@ =~= old(
                                self,
                            ).rows@.update(
                                f as int,
                                BattleRow::Done(spec_heal(c, dam as int)),
                            ),
                            BattleRow::Building(_) => r == Err::<(), CombatError>(
                                CombatError::NotBuilt,
                            ) && final (self).rows@ =~= old(self).rows@,
                        }
                    }
                },
            }),
    {
        let f = match self.sel {
            Some(f) => f,
            None => {
                return Ok(());
            },
        };
        if f >= self.rows.len() {
            return Ok(());
        }
        match &self.rows[f] {
            BattleRow::Building(_) => {
                return Err(CombatError::NotBuilt);
            },
            BattleRow::Done(_) => {},
        }
        let row = self.rows.remove(f);
        let new_row = match row {
            BattleRow::Done(mut c) => {
                c.heal(dam);
                BattleRow::Done(c)
            },
            b => b,
        };
        self.rows.insert(f, new_row);
        proof {
            assert(self.rows@ =~= old(self).rows@.update(
                f as int,
                (match old(self).rows@[f as int] {
                    BattleRow::Done(c) => BattleRow::Done(spec_heal(c, dam as int)),
                    b => b,
                }),
            ));
            if old(self).wf() {
                assert forall|q: int| 0 <= q < self.rows@.len() implies (
                #[trigger] self.rows@[q]).wf() by {
                    if q != f as int {
                        assert(self.rows@[q] == old(self).rows@[q]);
                    }
                }
            }
        }
        Ok(())
    }

    /// Replace the action meter of the selected row.
    pub fn set_attacks(&mut self, atts: Meter<u32>)
        ensures
            final (self).round == old(self).round,
            final (self).pos == old(self).pos,
            final (self).sel == old(self).sel,
            old(self).wf() ==> final (self).wf(),
            (match old(self).sel {
                Some(f) => if f < old(self).rows@.len() {
                    final (self).rows@ =~= old(self).rows@.update(
                        f as int,
                        row_set_attacks(old(self).rows@[f as int], atts),
                    )
                } else {
                    final (self).rows@ =~= old(self).rows@
                },
                None => final (self).rows@ =~= old(self).rows@,
            }),
    {
        let f = match self.sel {
            Some(f) => f,
            None => {
                return ;
            },
        };
        if f >= self.rows.len() {
            return ;
        }
        let row = self.rows.remove(f);
        let new_row = match row {
            BattleRow::Done(mut c) => {
                c.attacks = atts;
                BattleRow::Done(c)
            },
            BattleRow::Building(cb) => BattleRow::Building(cb.attacks(atts)),
        };
        self.rows.insert(f, new_row);
        proof {
            assert(self.rows@ =~= old(self).rows@.update(
                f as int,
                row_set_attacks(old(self).rows@[f as int], atts),
            ));
            if old(self).wf() {
                assert forall|q: int| 0 <= q < self.rows@.len() implies (
                #[trigger] self.rows@[q]).wf() by {
                    if q != f as int {
                        assert(self.rows@[q] == old(self).rows@[q]);
                    }
                }
            }
        }
    }

    /// Replace the health meter of the selected row.
    pub fn set_hp(&mut self, hp: Meter<i32>)
        ensures
            final (self).round == old(self).round,
            final (self).pos == old(self).pos,
            final (self).sel == old(self).sel,
            old(self).wf() ==> final (self).wf(),
            (match old(self).sel {
                Some(f) => if f < old(self).rows@.len() {
                    final (self).rows@ =~= old(self).rows@.update(
                        f as int,
                        row_set_hp(old(self).rows@[f as int], hp),
                    )
                } else {
                    final (self).rows@ =~= old(self).rows@
                },
                None => final (self).rows@ =~= old(self).rows@,
            }),
    {
        let f = match self.sel {
            Some(f) => f,
            None => {
                return ;
            },
        };
        if f >= self.rows.len() {
            return ;
        }
        let row = self.rows.remove(f);
        let new_row = match row {
            BattleRow::Done(mut c) => {
                c.hp = hp;
                BattleRow::Done(c)
            },
            BattleRow::Building(cb) => BattleRow::Building(cb.hp(hp)),
        };
        self.rows.insert(f, new_row);
        proof {
            assert(self.rows@ =~= old(self).rows@.update(
                f as int,
                row_set_hp(old(self).rows@[f as int], hp),
            ));
            if old(self).wf() {
                assert forall|q: int| 0 <= q < self.rows@.len() implies (
                #[trigger] self.rows@[q]).wf() by {
                    if q != f as int {
                        assert(self.rows@[q] == old(self).rows@[q]);
                    }
                }
            }
        }
    }

    /// Let the selected combatant attack the one under the cursor for `dam`
    /// damage: the attacker spends an action charge and records the hit, the
    /// target takes it. Both rows must hold finished combatants, and the
    /// attacker must have a charge left; with no usable selection nothing
    /// happens.
    pub fn attack(&mut self, dam: i32) -> (r: Result<(), CombatError>)
        requires
            dam >= 0,
            old(self).wf(),
        ensures
            final (self).round == old(self).round,
            final (self).pos == old(self).pos,
            final (self).sel == old(self).sel,
            final (self).wf(),
            (match old(self).sel {
                None => r is Ok && final (self).rows@ =~= old(self).rows@,
                Some(f) => {
                    let t = old(self).pos;
                    if f >= old(self).rows@.len() || t >= old(self).rows@.len() {
                        r is Ok && final (self).rows@ =~= old(self).rows@
                    } else if !(old(self).rows@[f as int] is Done) || !(old(self).rows@[t as int]
                    is Done) {
                        r == Err::<(), CombatError>(CombatError::NotBuilt) && final (self).rows@
                            =~= old(self).rows@
                    } else {
                        match old(self).rows@[f as int] {
                            BattleRow::Done(cf) => {
                                if cf.attacks.current < 1 {
                                    r == Err::<(), CombatError>(CombatError::NotEnoughAttacks)
                                        && final (self).rows@ =~= old(self).rows@
                                } else {
                                    r is Ok && final (self).rows@ =~= spec_attack_rows(
                                        old(self).rows@,
                                        f as int,
                                        t as int,
                                        dam as int,
                                    )
                                }
                            },
                            _ => false,
                        }
                    }
                },
            }),
    {
        let t = self.pos;
        let f = match self.sel {
            Some(f) => f,
            None => {
                return Ok(());
            },
        };
        if f >= self.rows.len() || t >= self.rows.len() {
            return Ok(());
        }
        match &self.rows[f] {
            BattleRow::Building(_) => {
                return Err(CombatError::NotBuilt);
            },
            BattleRow::Done(_) => {},
        }
        match &self.rows[t] {
            BattleRow::Building(_) => {
                return Err(CombatError::NotBuilt);
            },
            BattleRow::Done(_) => {},
        }
        match &self.rows[f] {
            BattleRow::Done(c) => {
                // Every finished combatant is in combat, so only the charge
                // can be missing.
                if !c.in_combat() {
                    return Err(CombatError::NotInCombat);
                }
                if !c.can_attack() {
                    return Err(CombatError::NotEnoughAttacks);
                }
            },
            BattleRow::Building(_) => {},
        }
        let row = self.rows.remove(f);
        let new_row = match row {
            BattleRow::Done(mut c) => {
                c.deal_hit(dam);
                BattleRow::Done(c)
            },
            b => b,
        };
        self.rows.insert(f, new_row);
        let ghost after_deal = self.rows@;
        let row2 = self.rows.remove(t);
        let new_row2 = match row2 {
            BattleRow::Done(mut c) => {
                c.recv_hit(dam);
                BattleRow::Done(c)
            },
            b => b,
        };
        self.rows.insert(t, new_row2);
        proof {
            let rows0 = old(self).rows@;
            let cf = (match rows0[f as int] {
                BattleRow::Done(c) => c,
                BattleRow::Building(b) => arbitrary(),
            });
            assert(after_deal =~= rows0.update(
                f as int,
                BattleRow::Done(crate::combatant::spec_deal_hit(cf, dam as int)),
            ));
            let ct = (match after_deal[t as int] {
                BattleRow::Done(c) => c,
                BattleRow::Building(b) => arbitrary(),
            });
            assert(self.rows@ =~= after_deal.update(
                t as int,
                BattleRow::Done(spec_recv_hit(ct, dam as int)),
            ));
            assert(self.rows@ =~= spec_attack_rows(rows0, f as int, t as int, dam as int));
            assert forall|q: int| 0 <= q < self.rows@.len() implies (
            #[trigger] self.rows@[q]).wf() by {
                if q != f as int && q != t as int {
                    assert(self.rows@[q] == old(self).rows@[q]);
                }
            }
        }
        Ok(())
    }

    /// Duplicate the selected row, renaming the copy when a new name is
    /// given, and append it at the bottom. With no usable selection nothing
    /// happens.
    pub fn copy_combatant(&mut self, name: Option<String>)
        ensures
            final (self).round == old(self).round,
            final (self).pos == old(self).pos,
            final (self).sel == old(self).sel,
            old(self).wf() ==> final (self).wf(),
            (match old(self).sel {
                Some(f) => if f < old(self).rows@.len() {
                    final (self).rows@.len() == old(self).rows@.len() + 1 && (forall|i: int|
                        0 <= i < old(self).rows@.len() ==> final (self).rows@[i] == old(
                            self,
                        ).rows@[i]) && (match name {
                        None => row_like(final (self).rows@.last(), old(self).rows@[f as int]),
                        Some(nm) => row_like(
                            final (self).rows@.last(),
                            row_set_name(old(self).rows@[f as int], nm),
                        ),
                    })
                } else {
                    final (self).rows@ =~= old(self).rows@
                },
                None => final (self).rows@ =~= old(self).rows@,
            }),
    {
        let f = match self.sel {
            Some(f) => f,
            None => {
                return ;
            },
        };
        if f >= self.rows.len() {
            return ;
        }
        let mut dup = self.rows[f].duplicate();
        match name {
            Some(nm) => {
                dup = match dup {
                    BattleRow::Done(mut c) => {
                        c.rename(nm);
                        BattleRow::Done(c)
                    },
                    BattleRow::Building(mut cb) => {
                        cb.name = nm;
                        BattleRow::Building(cb)
                    },
                };
            },
            None => {},
        }
        self.rows.push(dup);
        proof {
            if old(self).wf() {
                assert forall|q: int| 0 <= q < self.rows@.len() implies (
                #[trigger] self.rows@[q]).wf() by {
                    if q < old(self).rows@.len() {
                        assert(self.rows@[q] == old(self).rows@[q]);
                    } else {
                        assert(self.rows@[q] == dup);
                    }
                }
            }
        }
    }

    /// Reset every finished combatant's damage tallies and round counter.
    #[verifier::loop_isolation(false)]
    pub fn reset_all(&mut self)
        ensures
            final (self).rows@ =~= old(self).rows@.map_values(|r: BattleRow| row_reset(r)),
            final (self).round == old(self).round,
            final (self).pos == old(self).pos,
            final (self).sel == old(self).sel,
            old(self).wf() ==> final (self).wf(),
    {
        let ghost orig = self.rows@;
        let ghost rst = |r: BattleRow| row_reset(r);
        let mut out: Vec<BattleRow> = Vec::new();
        let ghost i: int = 0;
        proof {
            assert(out@ =~= orig.take(0).map_values(rst));
        }
        while self.rows.len() > 0
            invariant
                0 <= i <= orig.len(),
                self.rows@ =~= orig.skip(i),
                self.round == old(self).round,
                self.pos == old(self).pos,
                self.sel == old(self).sel,
                out@ =~= orig.take(i).map_values(rst),
                old(self).wf() ==> forall|q: int| 0 <= q < out@.len() ==> (
                #[trigger] out@[q]).wf(),
            decreases self.rows@.len(),
        {
            let x = self.rows.remove(0);
            assert(x == orig[i]);
            proof {
                assert(orig.skip(i).remove(0) =~= orig.skip(i + 1));
            }
            match x {
                BattleRow::Done(mut c) => {
                    c.reset();
                    out.push(BattleRow::Done(c));
                },
                b => {
                    out.push(b);
                },
            }
            proof {
                assert(out@ =~= orig.take(i + 1).map_values(rst));
                i = i + 1;
            }
        }
        proof {
            assert(orig.take(orig.len() as int) =~= orig);
        }
        self.rows = out;
    }

    /// The experience earned by the selected combatant: its own tallies plus
    /// the bonus pool its team built up, each teammate's share divided by the
    /// full roster size. Nothing is earned while no finished combatant is
    /// selected.
    #[verifier::loop_isolation(false)]
    pub fn get_xp(&self) -> (r: Option<i32>)
        requires
            self.wf(),
        ensures
            r is Some <==> (self.sel matches Some(f) && f < self.rows@.len()
                && self.rows@[f as int] is Done),
            (match self.sel {
                Some(f) => (f < self.rows@.len() && self.rows@[f as int] is Done)
                    ==> (match self.rows@[f as int] {
                    BattleRow::Done(c) => r matches Some(v) && v as int == spec_xp(
                        c.dealt as int,
                        c.recvd as int,
                        spec_team_bonus(self.rows@, c.team, self.rows@.len() as int),
                        c.xp_bonus,
                    ),
                    _ => true,
                }),
                None => true,
            }),
    {
        let f = match self.sel {
            Some(f) => f,
            None => {
                return None;
            },
        };
        if f >= self.rows.len() {
            return None;
        }
        let target_team = match &self.rows[f] {
            BattleRow::Building(_) => {
                return None;
            },
            BattleRow::Done(c) => c.team,
        };
        let n = self.rows.len();
        let mut sum: u64 = 0;
        let mut i: usize = 0;
        while i < n
            invariant
                0 <= i <= n,
                sum as int == spec_team_bonus(
                    self.rows@.take(i as int),
                    target_team,
                    n as int,
                ),
                sum <= i32::MAX as u64,
            decreases n - i,
        {
            proof {
                assert(forall|q: int|
                    0 <= q < i + 1 ==> #[trigger] self.rows@.take(i + 1)[q] == self.rows@[q]);
            }
            match &self.rows[i] {
                BattleRow::Done(c) => {
                    if c.team == target_team {
                        let t = c.team_xp();
                        let share: u64 = t as u64 / n as u64;
                        proof {
                            lemma_team_bonus_fits(self.rows@.take(i + 1), target_team, n as int);
                            assert(self.rows@.take(i + 1).drop_last() =~= self.rows@.take(
                                i as int,
                            ));
                        }
                        sum = sum + share;
                    } else {
                        proof {
                            assert(self.rows@.take(i + 1).drop_last() =~= self.rows@.take(
                                i as int,
                            ));
                        }
                    }
                },
                BattleRow::Building(_) => {
                    proof {
                        assert(self.rows@.take(i + 1).drop_last() =~= self.rows@.take(i as int));
                    }
                },
            }
            i = i + 1;
        }
        proof {
            assert(self.rows@.take(n as int) =~= self.rows@);
        }
        let bonus = sum as i32;
        proof {
            lemma_team_bonus_fits(self.rows@, target_team, n as int);
        }
        match &self.rows[f] {
            BattleRow::Done(c) => Some(c.xp(bonus)),
            BattleRow::Building(_) => None,
        }
    }

    /// Select the row under the cursor, or deselect it if it is already the
    /// selection.
    pub fn toggle_select(&mut self)
        ensures
            final (self).sel == (if old(self).sel == Some(old(self).pos) {
                None::<usize>
            } else {
                Some(old(self).pos)
            }),
            final (self).rows@ =~= old(self).rows@,
            final (self).round == old(self).round,
            final (self).pos == old(self).pos,
            old(self).wf() ==> final (self).wf(),
    {
        self.sel = match self.sel {
            Some(i) if i == self.pos => None,
            _ => Some(self.pos),
        };
    }
}

} // verus!
