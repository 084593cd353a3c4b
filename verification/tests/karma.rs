use ftml::data::karma::KarmaLevel;

#[test]
fn karma_levels_from_numbers() {
    assert_eq!(KarmaLevel::new(0), Some(KarmaLevel::Zero));
    assert_eq!(KarmaLevel::new(1), Some(KarmaLevel::One));
    assert_eq!(KarmaLevel::new(2), Some(KarmaLevel::Two));
    assert_eq!(KarmaLevel::new(3), Some(KarmaLevel::Three));
    assert_eq!(KarmaLevel::new(4), Some(KarmaLevel::Four));
    assert_eq!(KarmaLevel::new(5), Some(KarmaLevel::Five));
    assert_eq!(KarmaLevel::new(6), None);
    assert_eq!(KarmaLevel::new(255), None);
}

#[test]
fn karma_numbers_from_levels() {
    assert_eq!(KarmaLevel::Zero.value(), 0);
    assert_eq!(KarmaLevel::Three.value(), 3);
    assert_eq!(KarmaLevel::Five.value(), 5);
    assert_eq!(u8::from(KarmaLevel::Four), 4);
}

#[test]
fn karma_round_trip() {
    for value in 0..=5u8 {
        let level = KarmaLevel::new(value).unwrap();
        assert_eq!(level.value(), value);
        assert_eq!(KarmaLevel::try_from(value), Ok(level));
    }
}

#[test]
fn karma_rejects_with_the_number() {
    assert_eq!(KarmaLevel::try_from(6), Err(6));
    assert_eq!(KarmaLevel::try_from(200), Err(200));
}

#[test]
fn karma_is_written_as_its_number() {
    assert_eq!(KarmaLevel::Zero.to_string(), "0");
    assert_eq!(KarmaLevel::Two.to_string(), "2");
    assert_eq!(KarmaLevel::Five.to_string(), "5");
}
