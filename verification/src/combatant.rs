//! The combatant aggregate and its damage, healing, initiative and
//! experience operations, with the builder that collects a new combatant's
//! fields one by one.

use crate::abilities::{spec_abilities_text, Abilities};
use crate::classes::{spec_classes_text, spec_thac0, Classes, ClassesView};
use crate::meter::{spec_decrease_i32, spec_increase_i32, Meter};
use crate::status::{spec_stun_lock, status_lt, Status};
use vstd::prelude::*;

verus! {

/// A combat-rule violation. All are recoverable: the operation reports the
/// condition and leaves the roster unchanged.
#[derive(Debug, Clone, Copy, PartialEq, Eq, Structural)]
pub enum CombatError {
    NotEnoughAttacks,
    NotInCombat,
    NotBuilt,
}

/// The hit-point floor at which a leveled (classed) combatant dies.
pub const LVLD_DEAD: i32 = -10;

/// The hit-point floor at which an unleveled combatant (a monster) dies.
pub const UNLVLD_DEAD: i32 = -4;

/// Modifier specifying the total possible range of base initiative values.
pub const INIT_MOD: u32 = 12;

/// A participant with all mandatory fields known.
#[derive(Debug)]
pub struct Combatant {
    pub name: String,
    pub class: Classes,
    pub abilities: Option<Abilities>,
    pub hp: Meter<i32>,
    pub hd: u32,
    pub attacks: Meter<u32>,
    pub ac: i32,
    pub thac0: u32,
    pub status: Status,
    pub team: u32,
    pub init: u32,
    pub dealt: i32,
    pub recvd: i32,
    pub round: u32,
    pub xp_bonus: bool,
}

/// A sum saturated at the `i32` range.
pub open spec fn sat_add_i32(a: int, b: int) -> int {
    if a + b > i32::MAX as int {
        i32::MAX as int
    } else if a + b < i32::MIN as int {
        i32::MIN as int
    } else {
        a + b
    }
}

fn sat_add_i32_exec(a: i32, b: i32) -> (r: i32)
    ensures
        r as int == sat_add_i32(a as int, b as int),
{
    let wide: i64 = a as i64 + b as i64;
    if wide > i32::MAX as i64 {
        i32::MAX
    } else if wide < i32::MIN as i64 {
        i32::MIN
    } else {
        wide as i32
    }
}

/// The hit-point floor below or at which a hit kills: monsters die earlier
/// than leveled classes.
pub open spec fn spec_dead_floor(c: ClassesView) -> int {
    match c {
        ClassesView::Monster { magical: _, hd: _ } => UNLVLD_DEAD as int,
        _ => LVLD_DEAD as int,
    }
}

/// The status after a hit of `dam` against `hp_curr` hit points with death
/// floor `floor`: death is terminal, a hit past the floor kills, and a fresh
/// stun is adopted only when it is severer than the standing status.
pub open spec fn spec_receive_status(st: Status, hp_curr: int, dam: int, floor: int) -> Status {
    if st is Dead {
        st
    } else if hp_curr - dam <= floor {
        Status::Dead
    } else {
        let cand = spec_stun_lock(dam, hp_curr);
        if status_lt(st, cand) {
            cand
        } else {
            st
        }
    }
}

/// The action charges a hit consumes from its victim: a freshly adopted stun
/// of severity `x` costs `x` charges, as far as any are left.
pub open spec fn spec_receive_consumed(st: Status, hp_curr: int, dam: int, floor: int, avail: int) -> int {
    if st is Dead || hp_curr - dam <= floor {
        0
    } else {
        let cand = spec_stun_lock(dam, hp_curr);
        if status_lt(st, cand) {
            match cand {
                Status::Stunned(x) => if x as int <= avail {
                    x as int
                } else {
                    avail
                },
                _ => 0,
            }
        } else {
            0
        }
    }
}

/// A whole combatant after receiving a hit: the received-damage counter grows
/// (saturated), the status and action charges move as the two functions above
/// say, and the hit points drop without a floor.
pub open spec fn spec_recv_hit(c: Combatant, dam: int) -> Combatant {
    let floor = spec_dead_floor(c.class@);
    let hp_curr = c.hp.current as int;
    let consumed = spec_receive_consumed(c.status, hp_curr, dam, floor, c.attacks.current as int);
    Combatant {
        recvd: sat_add_i32(c.recvd as int, dam) as i32,
        status: spec_receive_status(c.status, hp_curr, dam, floor),
        attacks: Meter {
            current: (c.attacks.current - consumed) as u32,
            maximum: c.attacks.maximum,
        },
        hp: Meter {
            current: spec_decrease_i32(hp_curr, dam) as i32,
            maximum: c.hp.maximum,
        },
        ..c
    }
}

/// A combatant after dealing a hit: the dealt tally grows (saturated) and
/// one action charge is spent.
pub open spec fn spec_deal_hit(c: Combatant, dam: int) -> Combatant {
    Combatant {
        dealt: sat_add_i32(c.dealt as int, dam) as i32,
        attacks: Meter { current: (c.attacks.current - 1) as u32, maximum: c.attacks.maximum },
        ..c
    }
}

/// A combatant after healing: the hit points rise, clamped at their maximum.
pub open spec fn spec_heal(c: Combatant, amount: int) -> Combatant {
    Combatant {
        hp: Meter {
            current: spec_increase_i32(c.hp.current as int, c.hp.maximum as int, amount) as i32,
            maximum: c.hp.maximum,
        },
        ..c
    }
}

/// A combatant at the start of a new round: the round counter grows
/// (saturated), any stun wears off entirely, and the action meter refills.
pub open spec fn spec_advance_round(c: Combatant) -> Combatant {
    Combatant {
        round: if c.round == u32::MAX {
            u32::MAX
        } else {
            (c.round + 1) as u32
        },
        status: match c.status {
            Status::Stunned(_) => Status::Healthy,
            s => s,
        },
        attacks: Meter { current: c.attacks.maximum, maximum: c.attacks.maximum },
        ..c
    }
}

/// The initiative a combatant acts at: base plus twice the modifier while
/// healthy, base plus the modifier less the severity while stunned, zero once
/// dead; held to the `u32` range.
pub open spec fn spec_effective_init(c: Combatant) -> int {
    match c.status {
        Status::Healthy => if c.init as int + 2 * (INIT_MOD as int) > u32::MAX as int {
            u32::MAX as int
        } else {
            c.init as int + 2 * (INIT_MOD as int)
        },
        Status::Stunned(x) => if c.init as int + INIT_MOD as int - x as int > u32::MAX as int {
            u32::MAX as int
        } else {
            c.init as int + INIT_MOD as int - x as int
        },
        Status::Dead => 0,
    }
}

/// Experience earned: ten per point dealt, twenty per point received, the
/// team bonus on top, all raised a tenth (rounded down) for a bonus earner;
/// held to the `i32` range.
pub open spec fn spec_xp(dealt: int, recvd: int, team_bonus: int, xp_bonus: bool) -> int {
    let v = dealt * 10 + recvd * 20 + team_bonus;
    let w = if xp_bonus {
        (v * 11) / 10
    } else {
        v
    };
    if w > i32::MAX as int {
        i32::MAX as int
    } else {
        w
    }
}

/// The pool value a combatant contributes toward teammates' bonus: twenty per
/// point dealt, held to the `i32` range.
pub open spec fn spec_team_xp(dealt: int) -> int {
    if dealt * 20 > i32::MAX as int {
        i32::MAX as int
    } else {
        dealt * 20
    }
}

/// The description of a combatant: name, class and the ability block when
/// one is recorded.
pub open spec fn spec_describe(c: Combatant) -> Seq<char> {
    c.name@ + ", "@ + spec_classes_text(c.class@) + "\n\r"@ + (match c.abilities {
        Some(a) => spec_abilities_text(a),
        None => Seq::<char>::empty(),
    })
}

/// Field-for-field sameness of two combatants, the class compared by shape:
/// what a duplicate preserves.
pub open spec fn combatant_like(a: Combatant, b: Combatant) -> bool {
    a.name == b.name && a.class@ == b.class@ && a.abilities == b.abilities && a.hp == b.hp
        && a.hd == b.hd && a.attacks == b.attacks && a.ac == b.ac && a.thac0 == b.thac0
        && a.status == b.status && a.team == b.team && a.init == b.init && a.dealt == b.dealt
        && a.recvd == b.recvd && a.round == b.round && a.xp_bonus == b.xp_bonus
}

impl Combatant {
    /// Counters a well-run encounter keeps: a stun severity in range and
    /// damage tallies that never go negative.
    pub open spec fn wf(self) -> bool {
        self.status.wf() && self.dealt >= 0 && self.recvd >= 0
    }

    /// Give the combatant a new name.
    pub fn rename(&mut self, name: String)
        ensures
            *final (self) == (Combatant { name, ..*old(self) }),
    {
        self.name = name;
    }

    /// Advance the combatant one round: shake off any stun and refill the
    /// action meter.
    pub fn update(&mut self)
        ensures
            *final (self) == spec_advance_round(*old(self)),
    {
        if self.round < u32::MAX {
            self.round = self.round + 1;
        }
        if let Status::Stunned(_) = self.status {
            self.status = Status::Healthy;
        }
        let cap = self.attacks.max();
        self.attacks.increase(cap);
        proof {
            assert(self.attacks == spec_advance_round(*old(self)).attacks);
        }
    }

    /// Calculate initiative relative to base initiative and current status.
    pub fn get_init(&self) -> (r: u32)
        requires
            self.status.wf(),
        ensures
            r as int == spec_effective_init(*self),
    {
        match self.status {
            Status::Healthy => {
                let v: u64 = self.init as u64 + 2 * (INIT_MOD as u64);
                if v > u32::MAX as u64 {
                    u32::MAX
                } else {
                    v as u32
                }
            },
            Status::Stunned(x) => {
                let v: u64 = self.init as u64 + INIT_MOD as u64 - x as u64;
                if v > u32::MAX as u64 {
                    u32::MAX
                } else {
                    v as u32
                }
            },
            Status::Dead => 0,
        }
    }

    /// The floor this combatant dies at.
    fn dead(&self) -> (r: i32)
        ensures
            r as int == spec_dead_floor(self.class@),
    {
        match self.class {
            Classes::Monster { .. } => UNLVLD_DEAD,
            _ => LVLD_DEAD,
        }
    }

    /// Return true if considered "in combat". Every fully built combatant
    /// carries hit points, attacks, a team and an initiative, so this holds
    /// of all of them.
    pub fn in_combat(&self) -> (r: bool)
        ensures
            r == true,
    {
        true
    }

    /// Return true if able to attack: at least one action charge is left.
    pub fn can_attack(&self) -> (r: bool)
        ensures
            r == (self.attacks.current >= 1),
    {
        self.attacks.curr() >= 1
    }

    /// Record a hit dealt: the dealt tally grows and one action charge is
    /// spent, so a charge must be available.
    pub fn deal_hit(&mut self, dam: i32)
        requires
            dam >= 0,
            old(self).attacks.current >= 1,
        ensures
            *final (self) == spec_deal_hit(*old(self), dam as int),
            old(self).wf() ==> final (self).wf(),
    {
        self.dealt = sat_add_i32_exec(self.dealt, dam);
        self.attacks.decrease(1);
    }

    /// Receive a hit of `dam` damage.
    pub fn recv_hit(&mut self, dam: i32)
        requires
            dam >= 0,
        ensures
            *final (self) == spec_recv_hit(*old(self), dam as int),
            old(self).wf() ==> final (self).wf(),
    {
        self.recvd = sat_add_i32_exec(self.recvd, dam);
        let floor = self.dead();
        let hp_before = self.hp.curr();
        match self.status {
            Status::Healthy | Status::Stunned(_) => {
                if hp_before as i64 - dam as i64 <= floor as i64 {
                    self.status = Status::Dead;
                } else {
                    let cand = Status::stun_lock(dam, hp_before);
                    if cand.gt(&self.status) {
                        if let Status::Stunned(x) = cand {
                            let avail = self.attacks.curr();
                            let consume = if x <= avail {
                                x
                            } else {
                                avail
                            };
                            self.attacks.decrease(consume);
                        }
                        self.status = cand;
                    }
                }
            },
            Status::Dead => {},
        }
        self.hp.decrease(dam);
    }

    /// Heal: raise the hit points, clamped at their maximum.
    pub fn heal(&mut self, dam: i32)
        ensures
            *final (self) == spec_heal(*old(self), dam as int),
    {
        self.hp.increase(dam);
    }

    /// Reset the damage tallies and the round counter.
    pub fn reset(&mut self)
        ensures
            *final (self) == (Combatant { dealt: 0, recvd: 0, round: 1, ..*old(self) }),
    {
        self.dealt = 0;
        self.recvd = 0;
        self.round = 1;
    }

    /// Calculate the experience earned, given the team bonus.
    pub fn xp(&self, team_bonus: i32) -> (r: i32)
        requires
            self.dealt >= 0,
            self.recvd >= 0,
            team_bonus >= 0,
        ensures
            r as int == spec_xp(
                self.dealt as int,
                self.recvd as int,
                team_bonus as int,
                self.xp_bonus,
            ),
    {
        let v: u64 = self.dealt as u64 * 10 + self.recvd as u64 * 20 + team_bonus as u64;
        let w: u64 = if self.xp_bonus {
            (v * 11) / 10
        } else {
            v
        };
        if w > i32::MAX as u64 {
            i32::MAX
        } else {
            w as i32
        }
    }

    /// The pool value this combatant contributes toward teammates' bonus.
    pub fn team_xp(&self) -> (r: i32)
        requires
            self.dealt >= 0,
        ensures
            r as int == spec_team_xp(self.dealt as int),
    {
        let v: u64 = self.dealt as u64 * 20;
        if v > i32::MAX as u64 {
            i32::MAX
        } else {
            v as i32
        }
    }

    /// Describe the combatant's features in words.
    pub fn describe(&self) -> (r: String)
        ensures
            r@ == spec_describe(*self),
    {
        let mut out = String::new();
        out.append(self.name.as_str());
        out.append(", ");
        let class_text = self.class.to_text();
        out.append(class_text.as_str());
        out.append("\n\r");
        match self.abilities {
            Some(a) => {
                let abil_text = a.to_text();
                out.append(abil_text.as_str());
            },
            None => {},
        }
        proof {
            assert(out@ =~= spec_describe(*self));
        }
        out
    }

    /// An equal combatant under separate ownership.
    pub fn duplicate(&self) -> (r: Self)
        ensures
            combatant_like(r, *self),
    {
        Combatant {
            name: self.name.clone(),
            class: self.class.duplicate(),
            abilities: self.abilities,
            hp: self.hp,
            hd: self.hd,
            attacks: self.attacks,
            ac: self.ac,
            thac0: self.thac0,
            status: self.status,
            team: self.team,
            init: self.init,
            dealt: self.dealt,
            recvd: self.recvd,
            round: self.round,
            xp_bonus: self.xp_bonus,
        }
    }
}

/// A combatant under construction: the name is mandatory and set first, the
/// remaining fields are collected one at a time.
#[derive(Debug)]
pub struct CombatantBuilder {
    pub name: String,
    pub class: Option<Classes>,
    pub hd: Option<u32>,
    pub hp: Option<Meter<i32>>,
    pub attacks: Option<Meter<u32>>,
    pub ac: Option<i32>,
    pub team: Option<u32>,
    pub init: Option<u32>,
}

/// Field-for-field sameness of two builders, the class compared by shape:
/// what a duplicate preserves.
pub open spec fn builder_like(a: CombatantBuilder, b: CombatantBuilder) -> bool {
    a.name == b.name && (match (a.class, b.class) {
        (Some(x), Some(y)) => x@ == y@,
        (None, None) => true,
        _ => false,
    }) && a.hd == b.hd && a.hp == b.hp && a.attacks == b.attacks && a.ac == b.ac && a.team
        == b.team && a.init == b.init
}

impl CombatantBuilder {
    /// Every optional slot is filled, so a combatant can be built.
    pub open spec fn complete(self) -> bool {
        self.class is Some && self.hd is Some && self.hp is Some && self.attacks is Some
            && self.ac is Some && self.team is Some && self.init is Some
    }

    /// Start building a combatant of the given name; every other slot is
    /// empty.
    pub fn new(name: String) -> (r: Self)
        ensures
            r == (CombatantBuilder {
                name,
                class: None,
                hd: None,
                hp: None,
                attacks: None,
                ac: None,
                team: None,
                init: None,
            }),
    {
        CombatantBuilder {
            name,
            class: None,
            hd: None,
            hp: None,
            attacks: None,
            ac: None,
            team: None,
            init: None,
        }
    }

    /// Fill the class slot.
    pub fn class(self, class: Classes) -> (r: Self)
        ensures
            r == (CombatantBuilder { class: Some(class), ..self }),
    {
        CombatantBuilder { class: Some(class), ..self }
    }

    /// Fill the hit-dice slot.
    pub fn hd(self, hd: u32) -> (r: Self)
        ensures
            r == (CombatantBuilder { hd: Some(hd), ..self }),
    {
        CombatantBuilder { hd: Some(hd), ..self }
    }

    /// Fill the hit-point slot.
    pub fn hp(self, hp: Meter<i32>) -> (r: Self)
        ensures
            r == (CombatantBuilder { hp: Some(hp), ..self }),
    {
        CombatantBuilder { hp: Some(hp), ..self }
    }

    /// Fill the action-meter slot.
    pub fn attacks(self, attacks: Meter<u32>) -> (r: Self)
        ensures
            r == (CombatantBuilder { attacks: Some(attacks), ..self }),
    {
        CombatantBuilder { attacks: Some(attacks), ..self }
    }

    /// Fill the armor-rating slot.
    pub fn ac(self, ac: i32) -> (r: Self)
        ensures
            r == (CombatantBuilder { ac: Some(ac), ..self }),
    {
        CombatantBuilder { ac: Some(ac), ..self }
    }

    /// Fill the team slot.
    pub fn team(self, team: u32) -> (r: Self)
        ensures
            r == (CombatantBuilder { team: Some(team), ..self }),
    {
        CombatantBuilder { team: Some(team), ..self }
    }

    /// Fill the base-initiative slot.
    pub fn init(self, init: u32) -> (r: Self)
        ensures
            r == (CombatantBuilder { init: Some(init), ..self }),
    {
        CombatantBuilder { init: Some(init), ..self }
    }

    /// Build the combatant: yields nothing while any slot is empty, and the
    /// instant all are filled produces a healthy combatant whose attack
    /// rating is computed once, from the class at this moment.
    pub fn build(self) -> (r: Option<Combatant>)
        ensures
            r is Some <==> self.complete(),
            r matches Some(c) ==> c == (Combatant {
                name: self.name,
                class: self.class.unwrap(),
                abilities: None,
                hp: self.hp.unwrap(),
                hd: self.hd.unwrap(),
                attacks: self.attacks.unwrap(),
                ac: self.ac.unwrap(),
                thac0: spec_thac0(self.class.unwrap()@),
                status: Status::Healthy,
                team: self.team.unwrap(),
                init: self.init.unwrap(),
                dealt: 0,
                recvd: 0,
                round: 1,
                xp_bonus: false,
            }),
    {
        let class = match self.class {
            Some(c) => c,
            None => {
                return None;
            },
        };
        let hd = match self.hd {
            Some(v) => v,
            None => {
                return None;
            },
        };
        let hp = match self.hp {
            Some(v) => v,
            None => {
                return None;
            },
        };
        let attacks = match self.attacks {
            Some(v) => v,
            None => {
                return None;
            },
        };
        let ac = match self.ac {
            Some(v) => v,
            None => {
                return None;
            },
        };
        let team = match self.team {
            Some(v) => v,
            None => {
                return None;
            },
        };
        let init = match self.init {
            Some(v) => v,
            None => {
                return None;
            },
        };
        let thac0 = class.thac0();
        Some(
            Combatant {
                name: self.name,
                class,
                abilities: None,
                hp,
                hd,
                attacks,
                ac,
                thac0,
                status: Status::Healthy,
                team,
                init,
                dealt: 0,
                recvd: 0,
                round: 1,
                xp_bonus: false,
            },
        )
    }

    /// An equal builder under separate ownership.
    pub fn duplicate(&self) -> (r: Self)
        ensures
            builder_like(r, *self),
    {
        let class = match &self.class {
            Some(c) => Some(c.duplicate()),
            None => None,
        };
        CombatantBuilder {
            name: self.name.clone(),
            class,
            hd: self.hd,
            hp: self.hp,
            attacks: self.attacks,
            ac: self.ac,
            team: self.team,
            init: self.init,
        }
    }
}

/// No downgrade from a lesser subsequent hit: a combatant stunned at severity
/// 5 that survives a hit whose stun-lock is only severity 2 keeps the
/// standing stun.
pub proof fn lemma_no_stun_downgrade(c: Combatant, dam: int)
    requires
        c.status == Status::Stunned(5u32),
        spec_stun_lock(dam, c.hp.current as int) == Status::Stunned(2u32),
        c.hp.current as int - dam > spec_dead_floor(c.class@),
    ensures
        spec_recv_hit(c, dam).status == c.status,
        spec_recv_hit(c, dam).attacks == c.attacks,
{
}

/// Advancing the round clears any stun, whatever its severity, and refills
/// the action meter to its maximum.
pub proof fn lemma_advance_round_recovers(c: Combatant)
    ensures
        c.status is Stunned ==> spec_advance_round(c).status == Status::Healthy,
        spec_advance_round(c).attacks.current == spec_advance_round(c).attacks.maximum,
{
}

} // verus!

