use flesh_wounds::abilities::{Abilities, ParseAbilitiesError};
use flesh_wounds::classes::{Class, Classes, ParseClassError};
use flesh_wounds::meter::{Meter, ParseMeterError};

#[test]
fn meter_parses_a_fraction() {
    assert_eq!(Meter::<i32>::from_str("12/34"), Ok(Meter::new(12, 34)));
    assert_eq!(Meter::<u32>::from_str("3/7"), Ok(Meter::new(3u32, 7u32)));
}

#[test]
fn meter_parses_negative_current() {
    assert_eq!(Meter::<i32>::from_str("-15/20"), Ok(Meter::new(-15, 20)));
}

#[test]
fn meter_rejects_wrong_field_count() {
    assert_eq!(Meter::<i32>::from_str("7"), Err(ParseMeterError::NumArgs));
    assert_eq!(Meter::<i32>::from_str("1/2/3"), Err(ParseMeterError::NumArgs));
    assert_eq!(Meter::<i32>::from_str(""), Err(ParseMeterError::NumArgs));
}

#[test]
fn meter_rejects_bad_integers() {
    assert_eq!(Meter::<i32>::from_str("a/3"), Err(ParseMeterError::Int));
    assert_eq!(Meter::<i32>::from_str("3/"), Err(ParseMeterError::Int));
    assert_eq!(Meter::<u32>::from_str("-1/5"), Err(ParseMeterError::Int));
    assert_eq!(Meter::<u32>::from_str("99999999999/5"), Err(ParseMeterError::Int));
}

#[test]
fn meter_round_trips_through_text() {
    // Parsing "c/m" and formatting yields "c/m" again.
    for (c, m) in [(0, 0), (5, 10), (10, 10), (123, 4567)] {
        let text = format!("{}/{}", c, m);
        let meter = Meter::<i32>::from_str(&text).unwrap();
        assert_eq!(meter.curr(), c);
        assert_eq!(meter.max(), m);
        assert_eq!(meter.to_text(), text);
    }
}

#[test]
fn meter_formats_negative_current() {
    let hp: Meter<i32> = Meter::new(-15, 20);
    assert_eq!(hp.to_text(), "-15/20");
    assert_eq!(Meter::new(7u32, 9u32).to_text(), "7/9");
}

#[test]
fn class_tokens_parse_by_name_or_abbreviation() {
    assert_eq!(Class::from_str("fighter"), Ok(Class::Fighter));
    assert_eq!(Class::from_str("f"), Ok(Class::Fighter));
    assert_eq!(Class::from_str("C"), Ok(Class::Cleric));
    assert_eq!(Class::from_str("MA"), Ok(Class::Mage));
    assert_eq!(Class::from_str("Mo"), Ok(Class::Monk));
    assert_eq!(Class::from_str("IlLuSiOnIsT"), Ok(Class::Illusionist));
    assert_eq!(Class::from_str("wizard"), Err(ParseClassError::Name));
    assert_eq!(Class::from_str(""), Err(ParseClassError::Name));
}

#[test]
fn descriptor_parses_single_class_with_level() {
    match Classes::from_str("f5") {
        Ok(Classes::Single { name, lvl }) => {
            assert_eq!(name, Class::Fighter);
            assert_eq!(lvl, 5);
        }
        other => panic!("expected a single fighter, got {:?}", other),
    }
}

#[test]
fn descriptor_level_defaults_to_one() {
    match Classes::from_str("thief") {
        Ok(Classes::Single { name, lvl }) => {
            assert_eq!(name, Class::Thief);
            assert_eq!(lvl, 1);
        }
        other => panic!("expected a level-1 thief, got {:?}", other),
    }
}

#[test]
fn descriptor_parses_multi_class() {
    match Classes::from_str("f/t7") {
        Ok(Classes::Multi { name, lvl }) => {
            assert_eq!(name, vec![Class::Fighter, Class::Thief]);
            assert_eq!(lvl, 7);
        }
        other => panic!("expected a fighter/thief, got {:?}", other),
    }
}

#[test]
fn descriptor_parses_monsters() {
    match Classes::from_str("!3") {
        Ok(Classes::Monster { magical, hd }) => {
            assert!(magical);
            assert_eq!(hd, 3);
        }
        other => panic!("expected a magical monster, got {:?}", other),
    }
    match Classes::from_str(".") {
        Ok(Classes::Monster { magical, hd }) => {
            assert!(!magical);
            assert_eq!(hd, 1);
        }
        other => panic!("expected an ordinary monster, got {:?}", other),
    }
}

#[test]
fn descriptor_rejects_unknown_tokens() {
    assert_eq!(Classes::from_str("xyz"), Err(ParseClassError::Name));
    assert_eq!(Classes::from_str("f/xyz3"), Err(ParseClassError::Name));
    assert_eq!(Classes::from_str(""), Err(ParseClassError::Name));
    // A level too large for its range folds back into the (unknown) name.
    assert_eq!(Classes::from_str("f99999999999"), Err(ParseClassError::Name));
}

#[test]
fn descriptor_level_can_be_replaced() {
    let c = Classes::from_str("f5").unwrap();
    match c.lvl(9) {
        Classes::Single { name, lvl } => {
            assert_eq!(name, Class::Fighter);
            assert_eq!(lvl, 9);
        }
        other => panic!("expected a single fighter, got {:?}", other),
    }
}

#[test]
fn thac0_reads_the_fixed_tables() {
    // One exact value per progression family, plus the clamps.
    assert_eq!(Classes::Single { name: Class::Fighter, lvl: 1 }.thac0(), 20);
    assert_eq!(Classes::Single { name: Class::Fighter, lvl: 13 }.thac0(), 8);
    assert_eq!(Classes::Single { name: Class::Fighter, lvl: 99 }.thac0(), 8);
    assert_eq!(Classes::Single { name: Class::Fighter, lvl: 0 }.thac0(), 20);
    assert_eq!(Classes::Single { name: Class::Cleric, lvl: 7 }.thac0(), 16);
    assert_eq!(Classes::Single { name: Class::Mage, lvl: 4 }.thac0(), 20);
    assert_eq!(Classes::Single { name: Class::Thief, lvl: 3 }.thac0(), 20);
    assert_eq!(Classes::Single { name: Class::Bard, lvl: 13 }.thac0(), 15);
}

#[test]
fn thac0_of_multi_class_is_the_best_member_rating() {
    // At level 5 a fighter hits at 16, a mage at 19: the pair uses 16.
    let multi = Classes::Multi { name: vec![Class::Fighter, Class::Mage], lvl: 5 };
    assert_eq!(multi.thac0(), 16);
    let empty = Classes::Multi { name: vec![], lvl: 5 };
    assert_eq!(empty.thac0(), 20);
}

#[test]
fn thac0_of_monsters_uses_the_martial_table() {
    assert_eq!(Classes::Monster { magical: false, hd: 4 }.thac0(), 17);
    assert_eq!(Classes::Monster { magical: true, hd: 20 }.thac0(), 8);
}

#[test]
fn descriptor_describes_itself() {
    assert_eq!(Classes::Single { name: Class::Fighter, lvl: 5 }.to_text(), "5 level fighter");
    assert_eq!(
        Classes::Multi { name: vec![Class::Fighter, Class::Thief], lvl: 2 }.to_text(),
        "2 level fighter/thief"
    );
    assert_eq!(Classes::Monster { magical: true, hd: 3 }.to_text(), "magical 3-HD monster");
    assert_eq!(Classes::Monster { magical: false, hd: 1 }.to_text(), "1-HD monster");
}

#[test]
fn abilities_parse_six_fields() {
    let a = Abilities::from_str("18/11/12/13/14/15").unwrap();
    assert_eq!(a.strength, 18);
    assert_eq!(a.intelligence, 11);
    assert_eq!(a.wisdom, 12);
    assert_eq!(a.dexterity, 13);
    assert_eq!(a.constitution, 14);
    assert_eq!(a.charisma, 15);
}

#[test]
fn abilities_reject_bad_input() {
    assert_eq!(Abilities::from_str("1/2/3/4/5"), Err(ParseAbilitiesError::NumArgs));
    assert_eq!(Abilities::from_str("1/2/3/4/5/6/7"), Err(ParseAbilitiesError::NumArgs));
    assert_eq!(Abilities::from_str("1/2/x/4/5/6"), Err(ParseAbilitiesError::Int));
    // A bad field is reported even when the count is also wrong.
    assert_eq!(Abilities::from_str("x/2"), Err(ParseAbilitiesError::Int));
}

#[test]
fn abilities_describe_themselves() {
    let a = Abilities::from_str("18/11/12/13/14/15").unwrap();
    assert_eq!(
        a.to_text(),
        "STR: 18\n\rINT: 11\n\rWIS: 12\n\rDEX: 13\n\rCON: 14\n\rCHA: 15"
    );
}
