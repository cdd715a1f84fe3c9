use thyme::anim_state::{AnimState, AnimStateKey};
use thyme::error::ParseError;

use thyme::anim_state::AnimStateKey::{Active, Disabled, Hover, Normal, Pressed};

#[test]
fn order_of_keys_in_text_does_not_matter() {
    let a = AnimState::parse("Hover + Active").unwrap();
    let b = AnimState::parse("Active+Hover").unwrap();
    assert_eq!(a, b);
    assert_eq!(a.keys(), [Hover, Normal, Normal, Active]);
    assert_eq!(a, AnimState::with_two(Active, Hover));
    assert_eq!(a, AnimState::with_two(Hover, Active));
}

#[test]
fn duplicate_key_is_refused() {
    assert_eq!(AnimState::parse("Hover+Hover"), Err(ParseError::DuplicateKey(Hover)));
    assert_eq!(
        AnimState::parse("Active + Pressed + Active"),
        Err(ParseError::DuplicateKey(Active))
    );
}

#[test]
fn normal_must_stand_alone() {
    assert_eq!(AnimState::parse("Normal+Hover"), Err(ParseError::NormalNotAlone));
    assert_eq!(AnimState::parse("Hover+Normal"), Err(ParseError::NormalNotAlone));
    assert_eq!(AnimState::parse("Normal+Normal"), Err(ParseError::NormalNotAlone));
    assert_eq!(AnimState::parse("Normal+bogus"), Err(ParseError::NormalNotAlone));
    assert_eq!(AnimState::parse("Normal"), Ok(AnimState::normal()));
    assert_eq!(AnimState::parse("  Normal "), Ok(AnimState::normal()));
}

#[test]
fn unknown_key_is_refused() {
    assert_eq!(AnimState::parse("Hovering"), Err(ParseError::UnknownKey(0)));
    assert_eq!(AnimState::parse(""), Err(ParseError::UnknownKey(0)));
    assert_eq!(AnimState::parse("Hover+"), Err(ParseError::UnknownKey(1)));
    assert_eq!(AnimState::parse("+Hover"), Err(ParseError::UnknownKey(0)));
    assert_eq!(AnimState::parse("hover"), Err(ParseError::UnknownKey(0)));
    assert_eq!(AnimState::parse("Ho ver"), Err(ParseError::UnknownKey(0)));
    assert_eq!(AnimState::parse("Hover + Active + none"), Err(ParseError::UnknownKey(2)));
    assert_eq!(AnimState::parse("Hover+Pressed+Active+x"), Err(ParseError::UnknownKey(3)));
}

#[test]
fn more_than_four_keys_are_refused() {
    assert_eq!(
        AnimState::parse("Hover+Pressed+Disabled+Active+Hover"),
        Err(ParseError::TooManyKeys)
    );
    assert_eq!(
        AnimState::parse("Hover+Pressed+Disabled+Active+bogus"),
        Err(ParseError::TooManyKeys)
    );
    assert_eq!(
        AnimState::parse("Hover+Pressed+Disabled+Active"),
        Ok(AnimState::with_four(Hover, Pressed, Disabled, Active))
    );
}

#[test]
fn the_first_fault_in_the_text_is_reported() {
    assert_eq!(AnimState::parse("bogus+Hover+Hover"), Err(ParseError::UnknownKey(0)));
    assert_eq!(AnimState::parse("Hover+Hover+bogus"), Err(ParseError::DuplicateKey(Hover)));
    assert_eq!(
        AnimState::parse("Hover+Pressed+Disabled+Hover+Active"),
        Err(ParseError::DuplicateKey(Hover))
    );
}

#[test]
fn whitespace_around_keys_is_ignored() {
    assert_eq!(AnimState::parse(" Hover\t+\n Pressed "), Ok(AnimState::with_two(Hover, Pressed)));
    assert_eq!(AnimState::parse("\u{a0}Active\u{3000}"), Ok(AnimState::new(Active)));
    assert_eq!(AnimState::parse("Active + Pressed"), Ok(AnimState::with_two(Pressed, Active)));
}

#[test]
fn single_keys() {
    assert_eq!(AnimState::parse("Hover"), Ok(AnimState::hover()));
    assert_eq!(AnimState::parse("Pressed"), Ok(AnimState::pressed()));
    assert_eq!(AnimState::parse("Disabled"), Ok(AnimState::disabled()));
    assert_eq!(AnimState::parse("Active"), Ok(AnimState::new(Active)));
    assert_eq!(AnimState::new(Hover), AnimState::hover());
    assert_eq!(AnimState::new(Normal), AnimState::normal());
}

#[test]
fn slots_are_kept_in_key_order() {
    assert_eq!(AnimState::normal().keys(), [Normal, Normal, Normal, Normal]);
    assert_eq!(AnimState::hover().keys(), [Hover, Normal, Normal, Normal]);
    assert_eq!(AnimState::pressed().keys(), [Pressed, Normal, Normal, Normal]);
    assert_eq!(AnimState::disabled().keys(), [Disabled, Normal, Normal, Normal]);
    assert_eq!(AnimState::new(Active).keys(), [Normal, Normal, Normal, Active]);
    assert_eq!(AnimState::with_two(Active, Pressed).keys(), [Pressed, Normal, Normal, Active]);
    assert_eq!(
        AnimState::with_three(Active, Disabled, Hover).keys(),
        [Hover, Disabled, Normal, Active]
    );
    assert_eq!(
        AnimState::with_four(Active, Disabled, Pressed, Hover).keys(),
        [Hover, Pressed, Disabled, Active]
    );
    assert_eq!(
        AnimState::with_four(Active, Normal, Pressed, Normal).keys(),
        [Pressed, Normal, Normal, Active]
    );
}

#[test]
fn contains_finds_each_key_of_the_state() {
    let state = AnimState::with_two(Hover, Active);
    assert!(state.contains(Hover));
    assert!(state.contains(Active));
    assert!(state.contains(Normal));
    assert!(!state.contains(Pressed));
    assert!(!state.contains(Disabled));
    let full = AnimState::with_four(Hover, Pressed, Disabled, Active);
    assert!(!full.contains(Normal));
}

#[test]
fn add_takes_a_normal_slot() {
    let mut state = AnimState::normal();
    state.add(Active);
    assert_eq!(state, AnimState::new(Active));
    state.add(Hover);
    assert_eq!(state, AnimState::with_two(Hover, Active));
    assert_eq!(state.keys(), [Hover, Normal, Normal, Active]);
    state.add(Pressed);
    state.add(Disabled);
    assert_eq!(state.keys(), [Hover, Pressed, Disabled, Active]);
}

#[test]
fn add_normal_changes_nothing() {
    let mut state = AnimState::with_two(Hover, Pressed);
    state.add(Normal);
    assert_eq!(state, AnimState::with_two(Hover, Pressed));
}

#[test]
fn add_to_a_full_state_changes_nothing() {
    let mut state = AnimState::with_four(Hover, Pressed, Disabled, Active);
    state.add(Hover);
    assert_eq!(state.keys(), [Hover, Pressed, Disabled, Active]);
}

#[test]
fn text_joins_the_four_slots() {
    assert_eq!(AnimState::normal().to_text(), "+++");
    assert_eq!(AnimState::hover().to_text(), "Hover+++");
    assert_eq!(AnimState::with_two(Active, Hover).to_text(), "Hover+++Active");
    assert_eq!(
        AnimState::with_four(Active, Disabled, Pressed, Hover).to_text(),
        "Hover+Pressed+Disabled+Active"
    );
}

#[test]
fn key_order_is_the_order_of_the_vocabulary() {
    let keys: [AnimStateKey; 5] = [Hover, Pressed, Disabled, Normal, Active];
    let mut i = 0;
    while i + 1 < keys.len() {
        assert!(keys[i] < keys[i + 1]);
        i += 1;
    }
}
