use flesh_wounds::autosave::AutosaveSettings;
use flesh_wounds::classes::{Class, Classes};
use flesh_wounds::combatant::{Combatant, CombatantBuilder, CombatError};
use flesh_wounds::meter::Meter;
use flesh_wounds::roster::{BattleRow, Roster};
use flesh_wounds::status::Status;

fn fighter(name: &str, hp: i32, hp_max: i32, init: u32, team: u32) -> Combatant {
    CombatantBuilder::new(name.to_string())
        .class(Classes::Single { name: Class::Fighter, lvl: 1 })
        .hd(1)
        .hp(Meter::new(hp, hp_max))
        .attacks(Meter::new(1u32, 1u32))
        .ac(10)
        .team(team)
        .init(init)
        .build()
        .unwrap()
}

#[test]
fn increase_never_exceeds_the_maximum() {
    // Including when the current value starts above it.
    for (c, m, d) in [(0, 10, 3), (5, 10, 20), (10, 10, 0), (12, 10, 1), (-3, 4, 100)] {
        let mut meter: Meter<i32> = Meter::new(c, m);
        meter.increase(d);
        assert!(meter.curr() <= meter.max());
    }
    let mut meter: Meter<i32> = Meter::new(5, 10);
    meter.increase(2);
    assert_eq!(meter.curr(), 7);
    let mut acts = Meter::new(0u32, 3u32);
    acts.increase(7);
    assert_eq!(acts.curr(), 3);
}

#[test]
fn decrease_has_no_floor_at_zero() {
    let mut hp: Meter<i32> = Meter::new(5, 20);
    hp.decrease(20);
    assert_eq!(hp.curr(), -15);
    assert_eq!(hp.max(), 20);
}

#[test]
fn stun_lock_of_zero_damage_is_healthy() {
    for hp in [1, 2, 10, 1000, i32::MAX] {
        assert_eq!(Status::stun_lock(0, hp), Status::Healthy);
    }
}

#[test]
fn stun_lock_walks_the_thresholds() {
    // Damage equal to health passes the severest check at once.
    assert_eq!(Status::stun_lock(10, 10), Status::Stunned(8));
    // 10 against 16 fails every severer check and lands on damage*2 >= hp.
    assert_eq!(Status::stun_lock(10, 16), Status::Stunned(3));
    // One exact value per remaining severity.
    assert_eq!(Status::stun_lock(6, 7), Status::Stunned(8));
    assert_eq!(Status::stun_lock(5, 6), Status::Stunned(7));
    assert_eq!(Status::stun_lock(4, 5), Status::Stunned(6));
    assert_eq!(Status::stun_lock(3, 4), Status::Stunned(5));
    assert_eq!(Status::stun_lock(2, 3), Status::Stunned(4));
    assert_eq!(Status::stun_lock(5, 10), Status::Stunned(3));
    assert_eq!(Status::stun_lock(4, 10), Status::Stunned(2));
    assert_eq!(Status::stun_lock(3, 10), Status::Stunned(1));
    assert_eq!(Status::stun_lock(2, 10), Status::Healthy);
}

#[test]
fn status_is_ordered_and_starts_healthy() {
    assert_eq!(Status::default(), Status::Healthy);
    assert!(Status::Stunned(1).gt(&Status::Healthy));
    assert!(Status::Stunned(5).gt(&Status::Stunned(2)));
    assert!(Status::Dead.gt(&Status::Stunned(8)));
    assert!(!Status::Healthy.gt(&Status::Healthy));
    assert!(!Status::Stunned(2).gt(&Status::Stunned(5)));
    assert_eq!(Status::Healthy.symbol(), "+");
    assert_eq!(Status::Stunned(4).symbol(), "*");
    assert_eq!(Status::Dead.symbol(), "#");
}

#[test]
fn a_leveled_combatant_dies_at_minus_ten() {
    let mut c = fighter("Rolf", 5, 20, 10, 1);
    c.recv_hit(20);
    assert_eq!(c.status, Status::Dead);
    assert_eq!(c.hp.curr(), -15);
}

#[test]
fn a_monster_dies_at_minus_four() {
    let mut m = CombatantBuilder::new("Wolf".to_string())
        .class(Classes::Monster { magical: false, hd: 2 })
        .hd(2)
        .hp(Meter::new(3, 9))
        .attacks(Meter::new(2u32, 2u32))
        .ac(7)
        .team(2)
        .init(4)
        .build()
        .unwrap();
    m.recv_hit(7);
    assert_eq!(m.status, Status::Dead);
    let mut survivor = fighter("Sten", 3, 9, 4, 2);
    survivor.recv_hit(7);
    assert_ne!(survivor.status, Status::Dead);
}

#[test]
fn a_lesser_hit_does_not_downgrade_a_stun() {
    let mut c = fighter("Mira", 40, 40, 10, 1);
    c.status = Status::Stunned(5);
    // 10 against 40 evaluates to Stunned(1): no downgrade.
    assert_eq!(Status::stun_lock(10, 40), Status::Stunned(1));
    c.recv_hit(10);
    assert_eq!(c.status, Status::Stunned(5));
    assert_eq!(c.hp.curr(), 30);
}

#[test]
fn a_severer_stun_is_adopted_and_costs_charges() {
    let mut c = fighter("Kurt", 10, 10, 10, 1);
    c.attacks = Meter::new(2u32, 2u32);
    c.recv_hit(5);
    // 5 against 10 reaches damage*2 >= hp: Stunned(3), which consumes
    // min(3, 2) = 2 of the remaining action charges.
    assert_eq!(c.status, Status::Stunned(3));
    assert_eq!(c.attacks.curr(), 0);
    assert_eq!(c.hp.curr(), 5);
    assert_eq!(c.recvd, 5);
}

#[test]
fn death_is_terminal() {
    let mut c = fighter("Ghost", 5, 20, 10, 1);
    c.status = Status::Dead;
    c.recv_hit(1);
    assert_eq!(c.status, Status::Dead);
    let mut r = c.duplicate();
    r.update();
    assert_eq!(r.status, Status::Dead);
}

#[test]
fn advance_round_clears_any_stun_and_refills_actions() {
    for severity in 1..=8u32 {
        let mut c = fighter("Anya", 10, 10, 10, 1);
        c.attacks = Meter::new(0u32, 3u32);
        c.status = Status::Stunned(severity);
        c.update();
        assert_eq!(c.status, Status::Healthy);
        assert_eq!(c.attacks.curr(), 3);
        assert_eq!(c.attacks.max(), 3);
        assert_eq!(c.round, 2);
    }
}

#[test]
fn effective_initiative_follows_the_status() {
    let mut c = fighter("Brom", 10, 10, 10, 1);
    assert_eq!(c.get_init(), 34);
    c.status = Status::Stunned(3);
    assert_eq!(c.get_init(), 19);
    c.status = Status::Dead;
    assert_eq!(c.get_init(), 0);
}

#[test]
fn xp_weighs_damage_and_bonus() {
    let mut c = fighter("Vala", 10, 10, 10, 1);
    c.dealt = 100;
    c.recvd = 50;
    assert_eq!(c.xp(20), 2020);
    c.xp_bonus = true;
    assert_eq!(c.xp(20), 2222);
    assert_eq!(c.team_xp(), 2000);
}

#[test]
fn deal_hit_spends_a_charge_and_counts_the_damage() {
    let mut c = fighter("Olaf", 10, 10, 10, 1);
    assert!(c.can_attack());
    c.deal_hit(6);
    assert_eq!(c.dealt, 6);
    assert_eq!(c.attacks.curr(), 0);
    assert!(!c.can_attack());
}

#[test]
fn heal_is_clamped_at_the_maximum() {
    let mut c = fighter("Nils", 4, 10, 10, 1);
    c.heal(3);
    assert_eq!(c.hp.curr(), 7);
    c.heal(100);
    assert_eq!(c.hp.curr(), 10);
}

#[test]
fn reset_clears_the_tallies() {
    let mut c = fighter("Petra", 10, 10, 10, 1);
    c.deal_hit(6);
    c.recv_hit(2);
    c.update();
    c.reset();
    assert_eq!(c.dealt, 0);
    assert_eq!(c.recvd, 0);
    assert_eq!(c.round, 1);
}

#[test]
fn describe_names_the_combatant() {
    let mut c = fighter("Edda", 10, 10, 10, 1);
    assert_eq!(c.describe(), "Edda, 1 level fighter\n\r");
    c.abilities = flesh_wounds::abilities::Abilities::from_str("18/11/12/13/14/15").ok();
    assert_eq!(
        c.describe(),
        "Edda, 1 level fighter\n\rSTR: 18\n\rINT: 11\n\rWIS: 12\n\rDEX: 13\n\rCON: 14\n\rCHA: 15"
    );
}

#[test]
fn builder_yields_nothing_until_every_slot_is_filled() {
    let base = || CombatantBuilder::new("Iris".to_string());
    assert!(base().build().is_none());
    let steps = base().class(Classes::Single { name: Class::Mage, lvl: 3 });
    assert!(steps.duplicate().build().is_none());
    let steps = steps.hd(3);
    assert!(steps.duplicate().build().is_none());
    let steps = steps.hp(Meter::new(6, 6));
    assert!(steps.duplicate().build().is_none());
    let steps = steps.attacks(Meter::new(1u32, 1u32));
    assert!(steps.duplicate().build().is_none());
    let steps = steps.ac(9);
    assert!(steps.duplicate().build().is_none());
    let steps = steps.team(1);
    assert!(steps.duplicate().build().is_none());
    let steps = steps.init(11);
    let c = steps.build().unwrap();
    assert_eq!(c.name, "Iris");
    assert_eq!(c.status, Status::Healthy);
    // The attack rating is computed from the class the moment it is built.
    assert_eq!(c.thac0, 21);
    assert_eq!(c.round, 1);
    assert_eq!(c.dealt, 0);
    assert_eq!(c.recvd, 0);
    assert!(!c.xp_bonus);
    assert!(c.abilities.is_none());
    assert!(c.in_combat());
}

#[test]
fn sort_orders_by_effective_initiative_descending() {
    let mut roster = Roster::new();
    roster.rows.push(BattleRow::Done(fighter("slow", 10, 10, 10, 1)));
    roster.rows.push(BattleRow::Done(fighter("fast", 10, 10, 15, 2)));
    roster.sort();
    // Effective initiatives 34 and 39: the base-15 row precedes the base-10.
    let names: Vec<&str> = roster
        .rows
        .iter()
        .map(|r| r.done().map(|c| c.name.as_str()).unwrap_or(""))
        .collect();
    assert_eq!(names, vec!["fast", "slow"]);
    assert_eq!(roster.pos, 0);
}

#[test]
fn sort_is_stable_for_equal_keys() {
    let mut roster = Roster::new();
    roster.rows.push(BattleRow::Done(fighter("first", 10, 10, 12, 1)));
    roster.rows.push(BattleRow::Done(fighter("second", 10, 10, 12, 2)));
    roster.rows.push(BattleRow::Done(fighter("third", 10, 10, 12, 1)));
    roster.sort();
    let names: Vec<&str> = roster
        .rows
        .iter()
        .map(|r| r.done().map(|c| c.name.as_str()).unwrap_or(""))
        .collect();
    assert_eq!(names, vec!["first", "second", "third"]);
}

#[test]
fn sort_drops_the_dead_and_keeps_builders_last() {
    let mut roster = Roster::new();
    let mut dead = fighter("Dead", 10, 10, 20, 1);
    dead.status = Status::Dead;
    roster.rows.push(BattleRow::Done(dead));
    roster.rows.push(BattleRow::Building(CombatantBuilder::new("New".to_string())));
    roster.rows.push(BattleRow::Done(fighter("Live", 10, 10, 5, 1)));
    roster.sort();
    assert_eq!(roster.rows.len(), 2);
    assert_eq!(roster.rows[0].done().unwrap().name, "Live");
    assert!(roster.rows[1].done().is_none());
}

#[test]
fn sort_of_an_empty_roster_is_empty() {
    let mut roster = Roster::new();
    roster.sort();
    assert_eq!(roster.rows.len(), 0);
    assert_eq!(roster.pos, 0);
}

#[test]
fn advance_counts_the_round_and_recovers_everyone() {
    let mut roster = Roster::new();
    let mut stunned = fighter("Stunned", 10, 10, 5, 1);
    stunned.status = Status::Stunned(4);
    stunned.attacks = Meter::new(0u32, 2u32);
    roster.rows.push(BattleRow::Done(stunned));
    roster.advance();
    assert_eq!(roster.round, 2);
    let c = roster.rows[0].done().unwrap();
    assert_eq!(c.status, Status::Healthy);
    assert_eq!(c.attacks.curr(), 2);
    assert_eq!(c.round, 2);
}

#[test]
fn damage_and_heal_need_a_built_selection() {
    let mut roster = Roster::new();
    roster.rows.push(BattleRow::Building(CombatantBuilder::new("New".to_string())));
    roster.rows.push(BattleRow::Done(fighter("Tank", 10, 10, 5, 1)));
    // No selection: quietly a no-op.
    assert_eq!(roster.damage(3), Ok(()));
    assert_eq!(roster.heal(3), Ok(()));
    // A building row refuses combat operations.
    roster.sel = Some(0);
    assert_eq!(roster.damage(3), Err(CombatError::NotBuilt));
    assert_eq!(roster.heal(3), Err(CombatError::NotBuilt));
    // A finished one takes the hit.
    roster.sel = Some(1);
    assert_eq!(roster.damage(3), Ok(()));
    assert_eq!(roster.rows[1].done().unwrap().hp.curr(), 7);
    assert_eq!(roster.heal(2), Ok(()));
    assert_eq!(roster.rows[1].done().unwrap().hp.curr(), 9);
}

#[test]
fn attack_moves_damage_from_attacker_to_target() {
    let mut roster = Roster::new();
    roster.rows.push(BattleRow::Done(fighter("Axe", 10, 10, 15, 1)));
    roster.rows.push(BattleRow::Done(fighter("Shield", 30, 30, 10, 2)));
    roster.sel = Some(0);
    roster.pos = 1;
    assert_eq!(roster.attack(6), Ok(()));
    assert_eq!(roster.rows[0].done().unwrap().dealt, 6);
    assert_eq!(roster.rows[0].done().unwrap().attacks.curr(), 0);
    assert_eq!(roster.rows[1].done().unwrap().hp.curr(), 24);
    assert_eq!(roster.rows[1].done().unwrap().recvd, 6);
    // The charge is spent: a second attack is refused.
    assert_eq!(roster.attack(6), Err(CombatError::NotEnoughAttacks));
}

#[test]
fn attack_refuses_unbuilt_rows() {
    let mut roster = Roster::new();
    roster.rows.push(BattleRow::Done(fighter("Axe", 10, 10, 15, 1)));
    roster.rows.push(BattleRow::Building(CombatantBuilder::new("New".to_string())));
    roster.sel = Some(0);
    roster.pos = 1;
    assert_eq!(roster.attack(6), Err(CombatError::NotBuilt));
    roster.sel = Some(1);
    roster.pos = 0;
    assert_eq!(roster.attack(6), Err(CombatError::NotBuilt));
}

#[test]
fn xp_includes_the_team_pool_share() {
    let mut roster = Roster::new();
    let mut a = fighter("A", 10, 10, 10, 1);
    a.dealt = 100;
    a.recvd = 50;
    let mut b = fighter("B", 10, 10, 10, 1);
    b.dealt = 30;
    let mut c = fighter("C", 10, 10, 10, 2);
    c.dealt = 500;
    roster.rows.push(BattleRow::Done(a));
    roster.rows.push(BattleRow::Done(b));
    roster.rows.push(BattleRow::Done(c));
    // Team 1 pool over 3 rows: floor(2000/3) + floor(600/3) = 666 + 200.
    roster.sel = Some(0);
    assert_eq!(roster.get_xp(), Some(100 * 10 + 50 * 20 + 666 + 200));
    // No selection, or a building row, earns nothing.
    roster.sel = None;
    assert_eq!(roster.get_xp(), None);
    roster.rows.push(BattleRow::Building(CombatantBuilder::new("New".to_string())));
    roster.sel = Some(3);
    assert_eq!(roster.get_xp(), None);
}

#[test]
fn copy_combatant_duplicates_and_renames() {
    let mut roster = Roster::new();
    roster.rows.push(BattleRow::Done(fighter("Orig", 10, 10, 10, 1)));
    roster.sel = Some(0);
    roster.copy_combatant(None);
    roster.copy_combatant(Some("Twin".to_string()));
    assert_eq!(roster.rows.len(), 3);
    assert_eq!(roster.rows[1].done().unwrap().name, "Orig");
    assert_eq!(roster.rows[2].done().unwrap().name, "Twin");
    assert_eq!(roster.rows[2].done().unwrap().hp.curr(), 10);
}

#[test]
fn cursor_and_selection_move_within_bounds() {
    let mut roster = Roster::new();
    roster.rows.push(BattleRow::Done(fighter("A", 10, 10, 10, 1)));
    roster.rows.push(BattleRow::Done(fighter("B", 10, 10, 10, 1)));
    roster.up();
    assert_eq!(roster.pos, 0);
    roster.down();
    assert_eq!(roster.pos, 1);
    roster.down();
    assert_eq!(roster.pos, 1);
    roster.up();
    assert_eq!(roster.pos, 0);
    roster.toggle_select();
    assert_eq!(roster.sel, Some(0));
    roster.toggle_select();
    assert_eq!(roster.sel, None);
}

#[test]
fn field_setters_fill_builders_and_update_combatants() {
    let mut roster = Roster::new();
    roster.add_combatant("New".to_string());
    roster.class(Classes::Single { name: Class::Fighter, lvl: 2 });
    roster.hd(2);
    roster.hp(Meter::new(12, 12));
    roster.attacks(Meter::new(1u32, 1u32));
    roster.ac(8);
    roster.team(1);
    roster.init(9);
    let built = match roster.rows.remove(0) {
        BattleRow::Building(cb) => cb.build().unwrap(),
        BattleRow::Done(_) => panic!("still expected a builder row"),
    };
    assert_eq!(built.name, "New");
    assert_eq!(built.thac0, 19);
    assert_eq!(built.hp.max(), 12);
    assert_eq!(built.team, 1);
    assert_eq!(built.init, 9);
}

#[test]
fn reset_all_touches_every_finished_row() {
    let mut roster = Roster::new();
    let mut a = fighter("A", 10, 10, 10, 1);
    a.dealt = 7;
    roster.rows.push(BattleRow::Done(a));
    roster.rows.push(BattleRow::Building(CombatantBuilder::new("New".to_string())));
    roster.reset_all();
    assert_eq!(roster.rows[0].done().unwrap().dealt, 0);
    assert_eq!(roster.rows[0].done().unwrap().round, 1);
}

#[test]
fn autosave_paths_rotate() {
    let mut auto = AutosaveSettings::default();
    assert_eq!(auto.get_save_path(), ".auto1.json");
    assert_eq!(auto.get_save_path(), ".auto2.json");
    assert_eq!(auto.get_save_path(), ".auto3.json");
    assert_eq!(auto.get_save_path(), ".auto4.json");
    assert_eq!(auto.get_save_path(), ".auto0.json");
    assert_eq!(auto.get_save_path(), ".auto1.json");
}
