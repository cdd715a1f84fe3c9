use thyme::anim_state::{AnimState, AnimStateKey};
use thyme::color::Color;
use thyme::definition::{
    has_distinct_names, has_distinct_states, FontDefinition, ImageDefinition,
    ImageDefinitionKind, ImageFill, ImageSet, ThemeDefinition, WidgetThemeDefinition,
};

fn simple() -> ImageDefinition {
    ImageDefinition {
        color: Color::white(),
        kind: ImageDefinitionKind::Simple { position: [0, 0], size: [16, 16], fill: ImageFill::Stretch },
    }
}

fn animated(states: Vec<(AnimState, String)>) -> ImageDefinition {
    ImageDefinition { color: Color::white(), kind: ImageDefinitionKind::Animated { states } }
}

fn set(images: Vec<(String, ImageDefinition)>) -> ImageSet {
    ImageSet { source: "gui".to_string(), images }
}

fn font() -> FontDefinition {
    FontDefinition { source: "roboto".to_string(), size: 20.0f32.to_bits() }
}

#[test]
fn names_of_a_table_are_distinct() {
    let empty: Vec<(String, u8)> = Vec::new();
    assert!(has_distinct_names(&empty));
    assert!(has_distinct_names(&vec![("a".to_string(), 1), ("b".to_string(), 1)]));
    assert!(!has_distinct_names(&vec![("a".to_string(), 1), ("b".to_string(), 2), ("a".to_string(), 3)]));
    assert!(!has_distinct_names(&vec![("b".to_string(), 1), ("a".to_string(), 2), ("a".to_string(), 3)]));
}

#[test]
fn states_of_an_animated_image_are_distinct() {
    let hover_active = AnimState::with_two(AnimStateKey::Hover, AnimStateKey::Active);
    let active_hover = AnimState::with_two(AnimStateKey::Active, AnimStateKey::Hover);
    assert!(hover_active.same_as(&active_hover));
    assert!(!hover_active.same_as(&AnimState::hover()));
    assert!(has_distinct_states(&vec![
        (AnimState::normal(), "n".to_string()),
        (AnimState::hover(), "h".to_string()),
        (hover_active, "ha".to_string()),
    ]));
    assert!(!has_distinct_states(&vec![
        (hover_active, "a".to_string()),
        (AnimState::hover(), "h".to_string()),
        (active_hover, "b".to_string()),
    ]));
}

#[test]
fn a_definition_whose_lists_are_tables_is_keyed() {
    let good = ThemeDefinition {
        fonts: vec![("medium".to_string(), font()), ("small".to_string(), font())],
        image_sets: vec![(
            "gui".to_string(),
            set(vec![
                ("normal".to_string(), simple()),
                (
                    "button".to_string(),
                    animated(vec![
                        (AnimState::normal(), "normal".to_string()),
                        (AnimState::hover(), "normal".to_string()),
                    ]),
                ),
            ]),
        )],
        widgets: vec![
            ("a".to_string(), WidgetThemeDefinition::default()),
            ("b".to_string(), WidgetThemeDefinition::default()),
        ],
    };
    assert!(good.is_keyed());
    assert!(good.image_sets[0].1.is_keyed());
}

#[test]
fn a_definition_with_a_name_twice_is_not_keyed() {
    let fonts_twice = ThemeDefinition {
        fonts: vec![("medium".to_string(), font()), ("medium".to_string(), font())],
        image_sets: Vec::new(),
        widgets: Vec::new(),
    };
    assert!(!fonts_twice.is_keyed());
    let images_twice = ThemeDefinition {
        fonts: Vec::new(),
        image_sets: vec![(
            "gui".to_string(),
            set(vec![("normal".to_string(), simple()), ("normal".to_string(), simple())]),
        )],
        widgets: Vec::new(),
    };
    assert!(!images_twice.is_keyed());
    let states_twice = ThemeDefinition {
        fonts: Vec::new(),
        image_sets: vec![(
            "gui".to_string(),
            set(vec![(
                "button".to_string(),
                animated(vec![
                    (AnimState::hover(), "a".to_string()),
                    (AnimState::new(AnimStateKey::Hover), "b".to_string()),
                ]),
            )]),
        )],
        widgets: Vec::new(),
    };
    assert!(!states_twice.is_keyed());
    let sets_twice = ThemeDefinition {
        fonts: Vec::new(),
        image_sets: vec![("gui".to_string(), set(Vec::new())), ("gui".to_string(), set(Vec::new()))],
        widgets: Vec::new(),
    };
    assert!(!sets_twice.is_keyed());
    let widgets_twice = ThemeDefinition {
        fonts: Vec::new(),
        image_sets: Vec::new(),
        widgets: vec![
            ("a".to_string(), WidgetThemeDefinition::default()),
            ("a".to_string(), WidgetThemeDefinition::default()),
        ],
    };
    assert!(!widgets_twice.is_keyed());
}
