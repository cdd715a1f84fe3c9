use thyme::arena::Arena;
use thyme::resources::Resources;
use thyme::color::Color;
use thyme::definition::{Align, Layout, Point, ThemeDefinition, WidgetThemeDefinition};
use thyme::error::{Error, ResourceKind};
use thyme::inherit::{add_children_recursive, merge_from};
use thyme::theme::ThemeSet;
use thyme::widget_theme::{
    FontHandle, FontSummary, ImageHandle, WidgetTheme, WidgetThemeHandle,
};

fn point(x: f32, y: f32) -> Point {
    Point { x: x.to_bits(), y: y.to_bits() }
}

fn def() -> WidgetThemeDefinition {
    WidgetThemeDefinition::default()
}

fn named(id: &str, def: WidgetThemeDefinition) -> (String, WidgetThemeDefinition) {
    (id.to_string(), def)
}

fn medium() -> FontSummary {
    FontSummary { handle: FontHandle { id: 0 }, line_height: 20.0f32.to_bits() }
}

fn fonts() -> Vec<(String, FontSummary)> {
    vec![
        ("medium".to_string(), medium()),
        (
            "small".to_string(),
            FontSummary { handle: FontHandle { id: 1 }, line_height: 16.0f32.to_bits() },
        ),
    ]
}

fn images() -> Vec<(String, ImageHandle)> {
    vec![
        ("gui/normal".to_string(), ImageHandle { id: 0 }),
        ("gui/button".to_string(), ImageHandle { id: 1 }),
        ("gui/close".to_string(), ImageHandle { id: 2 }),
    ]
}

type Theme = ThemeSet<&'static str, u32>;

fn build(widgets: Vec<(String, WidgetThemeDefinition)>) -> Result<Theme, Error> {
    let definition = ThemeDefinition { fonts: Vec::new(), image_sets: Vec::new(), widgets };
    ThemeSet::new(definition, vec!["roboto 20", "roboto 16"], fonts(), vec![10, 11, 12], images())
}

fn text(s: &str) -> Option<String> {
    Some(s.to_string())
}

fn child_ids(set: &Theme, id: &str) -> Vec<String> {
    let theme = set.theme(id).unwrap();
    let mut out = Vec::new();
    for child in theme.children.iter() {
        let path = all_paths(set).into_iter().find(|p| set.handle(p) == Some(*child)).unwrap();
        out.push(set.theme(&path).unwrap().id.clone());
    }
    out
}

fn all_paths(set: &Theme) -> Vec<String> {
    // every path that the tests below can produce, filtered by what the set holds
    let parts = ["button", "titlebar", "main_window_titlebar", "label", "close_button", "a", "b", "c", "icon", "x"];
    let mut out = Vec::new();
    let mut level: Vec<String> = parts.iter().map(|p| p.to_string()).collect();
    for _ in 0..5 {
        let mut next = Vec::new();
        for path in level.iter() {
            if set.handle(path).is_some() {
                out.push(path.clone());
                for part in parts.iter() {
                    next.push(format!("{}/{}", path, part));
                }
            }
        }
        level = next;
    }
    out
}

fn button_and_titlebar() -> Vec<(String, WidgetThemeDefinition)> {
    vec![
        named(
            "button",
            WidgetThemeDefinition {
                background: text("gui/normal"),
                size: Some(point(100.0, 25.0)),
                ..def()
            },
        ),
        named(
            "titlebar",
            WidgetThemeDefinition {
                from: text("button"),
                children: vec![named("label", WidgetThemeDefinition { font: text("medium"), ..def() })],
                ..def()
            },
        ),
    ]
}

#[test]
fn titlebar_inherits_from_button() {
    let set = build(button_and_titlebar()).unwrap();
    let titlebar = set.theme("titlebar").unwrap();
    assert_eq!(titlebar.background, Some(ImageHandle { id: 0 }));
    assert_eq!(titlebar.size, Some(point(100.0, 25.0)));
    assert_eq!(titlebar.from, None);
    assert_eq!(titlebar.children.len(), 1);
    let label = set.theme("titlebar/label").unwrap();
    assert_eq!(label.font, Some(medium()));
    assert_eq!(label.background, None);
    assert_eq!(label.size, None);
    assert_eq!(label.handle, titlebar.children[0]);
    assert_eq!(label.parent_handle, Some(titlebar.handle));
    assert_eq!(label.id, "label");
    assert_eq!(label.full_id, "titlebar/label");
    let button = set.theme("button").unwrap();
    assert_eq!(button.background, Some(ImageHandle { id: 0 }));
    assert_eq!(button.size, Some(point(100.0, 25.0)));
    assert!(button.children.is_empty());
}

#[test]
fn label_that_inherits_from_button_gets_its_fields() {
    let mut widgets = button_and_titlebar();
    widgets[1].1.children[0].1.from = text("button");
    let set = build(widgets).unwrap();
    let label = set.theme("titlebar/label").unwrap();
    assert_eq!(label.font, Some(medium()));
    assert_eq!(label.background, Some(ImageHandle { id: 0 }));
    assert_eq!(label.size, Some(point(100.0, 25.0)));
    assert_eq!(label.from, None);
}

fn window_widgets() -> Vec<(String, WidgetThemeDefinition)> {
    vec![
        named(
            "button",
            WidgetThemeDefinition {
                background: text("gui/button"),
                size: Some(point(100.0, 25.0)),
                ..def()
            },
        ),
        named(
            "titlebar",
            WidgetThemeDefinition {
                from: text("button"),
                children: vec![
                    named("label", WidgetThemeDefinition { font: text("medium"), ..def() }),
                    named(
                        "close_button",
                        WidgetThemeDefinition {
                            from: text("button"),
                            foreground: text("gui/close"),
                            size: Some(point(25.0, 25.0)),
                            ..def()
                        },
                    ),
                ],
                ..def()
            },
        ),
        named(
            "main_window_titlebar",
            WidgetThemeDefinition {
                from: text("titlebar"),
                children: vec![named(
                    "label",
                    WidgetThemeDefinition { text: text("Main Window"), ..def() },
                )],
                ..def()
            },
        ),
    ]
}

#[test]
fn nested_references_resolve_through_a_chain() {
    let set = build(window_widgets()).unwrap();
    let main = set.theme("main_window_titlebar").unwrap();
    assert_eq!(main.background, Some(ImageHandle { id: 1 }));
    assert_eq!(main.size, Some(point(100.0, 25.0)));
    assert_eq!(main.children.len(), 2);
    let label = set.theme("main_window_titlebar/label").unwrap();
    assert_eq!(label.font, Some(medium()));
    assert_eq!(label.text, text("Main Window"));
    assert_eq!(label.handle, main.children[0]);
    let close = set.theme("main_window_titlebar/close_button").unwrap();
    assert_eq!(close.background, Some(ImageHandle { id: 1 }));
    assert_eq!(close.foreground, Some(ImageHandle { id: 2 }));
    assert_eq!(close.size, Some(point(25.0, 25.0)));
    assert_eq!(close.from, None);
    assert_eq!(close.handle, main.children[1]);
    assert_eq!(close.parent_handle, Some(main.handle));
    assert_eq!(close.full_id, "main_window_titlebar/close_button");
    // the source keeps its own records
    let source = set.theme("titlebar/close_button").unwrap();
    assert_ne!(source.handle, close.handle);
    assert_eq!(source.full_id, "titlebar/close_button");
    assert_eq!(source.parent_handle, Some(set.theme("titlebar").unwrap().handle));
    assert_eq!(child_ids(&set, "main_window_titlebar"), vec!["label", "close_button"]);
    assert_eq!(child_ids(&set, "titlebar"), vec!["label", "close_button"]);
}

#[test]
fn chain_resolves_whatever_the_order_of_the_widgets() {
    let mut widgets = window_widgets();
    widgets.reverse();
    let set = build(widgets).unwrap();
    let main = set.theme("main_window_titlebar").unwrap();
    assert_eq!(main.background, Some(ImageHandle { id: 1 }));
    assert_eq!(main.size, Some(point(100.0, 25.0)));
    let close = set.theme("main_window_titlebar/close_button").unwrap();
    assert_eq!(close.background, Some(ImageHandle { id: 1 }));
    assert_eq!(close.foreground, Some(ImageHandle { id: 2 }));
    assert_eq!(close.size, Some(point(25.0, 25.0)));
    let label = set.theme("main_window_titlebar/label").unwrap();
    assert_eq!(label.font, Some(medium()));
    assert_eq!(label.text, text("Main Window"));
}

#[test]
fn two_widgets_that_inherit_from_each_other_are_a_circle() {
    let widgets = vec![
        named("a", WidgetThemeDefinition { from: text("b"), ..def() }),
        named("b", WidgetThemeDefinition { from: text("a"), ..def() }),
    ];
    assert_eq!(build(widgets).err(), Some(Error::CircularReference));
}

#[test]
fn a_widget_that_inherits_from_itself_is_a_circle() {
    let widgets = vec![named("a", WidgetThemeDefinition { from: text("a"), ..def() })];
    assert_eq!(build(widgets).err(), Some(Error::CircularReference));
}

#[test]
fn a_reference_to_no_widget_is_an_error() {
    let widgets = vec![
        named("a", def()),
        named(
            "b",
            WidgetThemeDefinition {
                children: vec![named("c", WidgetThemeDefinition { from: text("nowhere"), ..def() })],
                ..def()
            },
        ),
    ];
    assert_eq!(
        build(widgets).err(),
        Some(Error::UnknownReference { name: "nowhere".to_string(), widget: "c".to_string() })
    );
}

#[test]
fn a_local_id_with_a_separator_is_an_error() {
    let widgets = vec![named("a/b", def())];
    assert_eq!(
        build(widgets).err(),
        Some(Error::Name { id: "a/b".to_string() })
    );
    let nested = vec![named(
        "a",
        WidgetThemeDefinition { children: vec![named("/", def())], ..def() },
    )];
    assert_eq!(
        build(nested).err(),
        Some(Error::Name { id: "/".to_string() })
    );
}

#[test]
fn missing_resources_are_errors() {
    let background = vec![named(
        "a",
        WidgetThemeDefinition {
            children: vec![named(
                "b",
                WidgetThemeDefinition {
                    background: text("gui/none"),
                    foreground: text("gui/nothing"),
                    font: text("huge"),
                    ..def()
                },
            )],
            ..def()
        },
    )];
    assert_eq!(
        build(background).err(),
        Some(Error::MissingResource {
            kind: ResourceKind::Background,
            name: "gui/none".to_string(),
            widget: "a/b".to_string(),
        })
    );
    let foreground = vec![named(
        "a",
        WidgetThemeDefinition {
            background: text("gui/close"),
            foreground: text("gui/nothing"),
            font: text("huge"),
            ..def()
        },
    )];
    assert_eq!(
        build(foreground).err(),
        Some(Error::MissingResource {
            kind: ResourceKind::Foreground,
            name: "gui/nothing".to_string(),
            widget: "a".to_string(),
        })
    );
    let font = vec![named(
        "a",
        WidgetThemeDefinition {
            background: text("gui/close"),
            foreground: text("gui/button"),
            font: text("huge"),
            ..def()
        },
    )];
    assert_eq!(
        build(font).err(),
        Some(Error::MissingResource {
            kind: ResourceKind::Font,
            name: "huge".to_string(),
            widget: "a".to_string(),
        })
    );
}

#[test]
fn two_widgets_with_one_path_are_an_error() {
    let top = vec![named("a", def()), named("a", def())];
    assert_eq!(
        build(top).err(),
        Some(Error::DuplicateId { full_id: "a".to_string() })
    );
    let nested = vec![named(
        "a",
        WidgetThemeDefinition { children: vec![named("b", def()), named("b", def())], ..def() },
    )];
    assert_eq!(
        build(nested).err(),
        Some(Error::DuplicateId { full_id: "a/b".to_string() })
    );
}

#[test]
fn handles_are_given_in_preorder() {
    let widgets = vec![
        named(
            "a",
            WidgetThemeDefinition {
                children: vec![
                    named("b", WidgetThemeDefinition { children: vec![named("c", def())], ..def() }),
                    named("x", def()),
                ],
                ..def()
            },
        ),
        named("button", def()),
    ];
    let set = build(widgets).unwrap();
    assert_eq!(set.handle("a"), Some(WidgetThemeHandle { id: 0 }));
    assert_eq!(set.handle("a/b"), Some(WidgetThemeHandle { id: 1 }));
    assert_eq!(set.handle("a/b/c"), Some(WidgetThemeHandle { id: 2 }));
    assert_eq!(set.handle("a/x"), Some(WidgetThemeHandle { id: 3 }));
    assert_eq!(set.handle("button"), Some(WidgetThemeHandle { id: 4 }));
    assert_eq!(set.handle("b"), None);
    assert!(set.theme("a/c").is_none());
    let a = set.theme("a").unwrap();
    assert_eq!(a.children, vec![WidgetThemeHandle { id: 1 }, WidgetThemeHandle { id: 3 }]);
    assert_eq!(a.parent_handle, None);
    assert_eq!(a.handle, WidgetThemeHandle { id: 0 });
    let c = set.theme("a/b/c").unwrap();
    assert_eq!(c.parent_handle, Some(WidgetThemeHandle { id: 1 }));
    assert_eq!(c.full_id, "a/b/c");
    assert_eq!(c.id, "c");
}

#[test]
fn fields_of_a_definition_reach_the_record() {
    let widgets = vec![named(
        "a",
        WidgetThemeDefinition {
            text: text("Hello"),
            text_color: Some(Color { r: 255, g: 170, b: 0 }),
            font: text("small"),
            background: text("gui/button"),
            foreground: text("gui/close"),
            wants_mouse: Some(true),
            wants_scroll: Some(false),
            text_align: Some(Align::Center),
            pos: Some(point(10.0, 10.0)),
            size: Some(point(100.0, 0.0)),
            align: Some(Align::TopLeft),
            child_align: Some(Align::Top),
            layout: Some(Layout::Vertical),
            layout_spacing: Some(point(5.0, 5.0)),
            ..def()
        },
    )];
    let set = build(widgets).unwrap();
    let a = set.theme("a").unwrap();
    assert_eq!(a.text, text("Hello"));
    assert_eq!(a.text_color, Some(Color { r: 255, g: 170, b: 0 }));
    assert_eq!(a.font.unwrap().handle, FontHandle { id: 1 });
    assert_eq!(a.background, Some(ImageHandle { id: 1 }));
    assert_eq!(a.foreground, Some(ImageHandle { id: 2 }));
    assert_eq!(a.wants_mouse, Some(true));
    assert_eq!(a.wants_scroll, Some(false));
    assert_eq!(a.text_align, Some(Align::Center));
    assert_eq!(a.pos, Some(point(10.0, 10.0)));
    assert_eq!(a.size, Some(point(100.0, 0.0)));
    assert_eq!(a.width_from, None);
    assert_eq!(a.height_from, None);
    assert_eq!(a.border, None);
    assert_eq!(a.align, Some(Align::TopLeft));
    assert_eq!(a.child_align, Some(Align::Top));
    assert_eq!(a.layout, Some(Layout::Vertical));
    assert_eq!(a.layout_spacing, Some(point(5.0, 5.0)));
}

#[test]
fn a_field_that_the_destination_has_set_is_kept() {
    let widgets = vec![
        named(
            "a",
            WidgetThemeDefinition {
                text: text("from a"),
                wants_mouse: Some(true),
                layout: Some(Layout::Free),
                size: Some(point(1.0, 2.0)),
                ..def()
            },
        ),
        named(
            "b",
            WidgetThemeDefinition {
                from: text("a"),
                text: text("from b"),
                wants_mouse: Some(false),
                pos: Some(point(3.0, 4.0)),
                ..def()
            },
        ),
    ];
    let set = build(widgets).unwrap();
    let b = set.theme("b").unwrap();
    assert_eq!(b.text, text("from b"));
    assert_eq!(b.wants_mouse, Some(false));
    assert_eq!(b.pos, Some(point(3.0, 4.0)));
    assert_eq!(b.layout, Some(Layout::Free));
    assert_eq!(b.size, Some(point(1.0, 2.0)));
    assert_eq!(b.align, None);
    let a = set.theme("a").unwrap();
    assert_eq!(a.text, text("from a"));
    assert_eq!(a.pos, None);
}

#[test]
fn children_are_the_union_of_both_sides() {
    let widgets = vec![
        named(
            "a",
            WidgetThemeDefinition {
                children: vec![
                    named("label", WidgetThemeDefinition { text: text("source"), wants_mouse: Some(true), ..def() }),
                    named(
                        "icon",
                        WidgetThemeDefinition {
                            foreground: text("gui/close"),
                            children: vec![named("x", WidgetThemeDefinition { text: text("deep"), ..def() })],
                            ..def()
                        },
                    ),
                ],
                ..def()
            },
        ),
        named(
            "b",
            WidgetThemeDefinition {
                from: text("a"),
                children: vec![
                    named("c", def()),
                    named("label", WidgetThemeDefinition { text: text("dest"), ..def() }),
                ],
                ..def()
            },
        ),
    ];
    let set = build(widgets).unwrap();
    assert_eq!(child_ids(&set, "b"), vec!["c", "label", "icon"]);
    let label = set.theme("b/label").unwrap();
    assert_eq!(label.text, text("dest"));
    assert_eq!(label.wants_mouse, Some(true));
    let icon = set.theme("b/icon").unwrap();
    assert_eq!(icon.foreground, Some(ImageHandle { id: 2 }));
    assert_eq!(icon.parent_handle, Some(set.theme("b").unwrap().handle));
    let deep = set.theme("b/icon/x").unwrap();
    assert_eq!(deep.text, text("deep"));
    assert_eq!(deep.parent_handle, Some(icon.handle));
    assert_eq!(icon.children, vec![deep.handle]);
    // the copies have handles behind all the records that were defined
    assert_eq!(icon.handle, WidgetThemeHandle { id: 7 });
    assert_eq!(deep.handle, WidgetThemeHandle { id: 8 });
    // the source is as it was
    let source = set.theme("a/icon/x").unwrap();
    assert_eq!(source.handle, WidgetThemeHandle { id: 3 });
    assert_eq!(source.full_id, "a/icon/x");
    assert_eq!(child_ids(&set, "a"), vec!["label", "icon"]);
}

#[test]
fn a_widget_may_inherit_from_its_own_ancestor() {
    let widgets = vec![named(
        "a",
        WidgetThemeDefinition {
            text: text("top"),
            children: vec![named(
                "b",
                WidgetThemeDefinition {
                    children: vec![named("c", WidgetThemeDefinition { from: text("a"), ..def() })],
                    ..def()
                },
            )],
            ..def()
        },
    )];
    let set = build(widgets).unwrap();
    let c = set.theme("a/b/c").unwrap();
    assert_eq!(c.text, text("top"));
    assert_eq!(c.children.len(), 1);
    assert!(set.theme("a/b/c/b").is_some());
    let copy = set.theme("a/b/c/b/c").unwrap();
    assert_eq!(copy.text, None);
    assert!(copy.children.is_empty());
    assert_eq!(copy.from, None);
}

#[test]
fn resolving_a_resolved_arena_changes_nothing() {
    let resources = Resources::new(fonts(), images());
    let mut arena = Arena::new();
    for (id, def) in window_widgets().iter() {
        WidgetTheme::create(None, id, &mut arena, def, &resources).unwrap();
    }
    assert!(arena.any_pending());
    arena.resolve().unwrap();
    assert!(!arena.any_pending());
    let count = arena.len();
    let mut before: Vec<WidgetTheme> = Vec::new();
    for h in 0..count {
        before.push(arena.get(WidgetThemeHandle { id: h as u64 }).duplicate());
    }
    arena.resolve().unwrap();
    assert_eq!(arena.len(), count);
    for h in 0..count {
        assert_eq!(arena.get(WidgetThemeHandle { id: h as u64 }), &before[h]);
    }
}

#[test]
fn two_builds_of_one_definition_agree() {
    let first = build(window_widgets()).unwrap();
    let second = build(window_widgets()).unwrap();
    let paths = all_paths(&first);
    assert_eq!(paths, all_paths(&second));
    assert_eq!(paths.len(), 7);
    for path in paths.iter() {
        assert_eq!(first.handle(path), second.handle(path));
        assert_eq!(first.theme(path), second.theme(path));
    }
}

#[test]
fn merge_from_merges_one_record_into_another() {
    let resources = Resources::new(fonts(), images());
    let mut arena = Arena::new();
    let source = WidgetThemeDefinition {
        background: text("gui/button"),
        children: vec![named("label", WidgetThemeDefinition { text: text("source"), ..def() })],
        ..def()
    };
    let dest = WidgetThemeDefinition { foreground: text("gui/close"), ..def() };
    let from = WidgetTheme::create(None, "a", &mut arena, &source, &resources).unwrap();
    let to = WidgetTheme::create(None, "b", &mut arena, &dest, &resources).unwrap();
    assert_eq!(arena.len(), 3);
    merge_from(from, to, &mut arena);
    assert_eq!(arena.len(), 4);
    let merged = arena.get(to);
    assert_eq!(merged.background, Some(ImageHandle { id: 1 }));
    assert_eq!(merged.foreground, Some(ImageHandle { id: 2 }));
    assert_eq!(merged.children, vec![WidgetThemeHandle { id: 3 }]);
    let copy = arena.get(WidgetThemeHandle { id: 3 });
    assert_eq!(copy.text, text("source"));
    assert_eq!(copy.full_id, "b/label");
    assert_eq!(copy.id, "label");
    assert_eq!(copy.parent_handle, Some(to));
    assert_eq!(arena.handle("b/label"), Some(WidgetThemeHandle { id: 3 }));
    assert_eq!(arena.handle("a/label"), Some(WidgetThemeHandle { id: 1 }));
    assert_eq!(arena.get(from).children, vec![WidgetThemeHandle { id: 1 }]);
}

#[test]
fn add_children_recursive_copies_a_subtree() {
    let resources = Resources::new(fonts(), images());
    let mut arena = Arena::new();
    let source = WidgetThemeDefinition {
        text: text("root"),
        children: vec![
            named("b", WidgetThemeDefinition { children: vec![named("c", def())], ..def() }),
            named("x", WidgetThemeDefinition { font: text("small"), ..def() }),
        ],
        ..def()
    };
    let from = WidgetTheme::create(None, "a", &mut arena, &source, &resources).unwrap();
    let to = WidgetTheme::create(None, "button", &mut arena, &def(), &resources).unwrap();
    let tree = arena.subtree(from);
    assert_eq!(tree.children.len(), 2);
    assert_eq!(tree.children[0].children[0].theme.full_id, "a/b/c");
    add_children_recursive(&tree, to, &mut arena);
    assert_eq!(arena.len(), 9);
    let paths = ["button/a", "button/a/b", "button/a/b/c", "button/a/x"];
    for (i, path) in paths.iter().enumerate() {
        let handle = arena.handle(path).unwrap();
        assert_eq!(handle, WidgetThemeHandle { id: 5 + i as u64 });
        assert_eq!(arena.get(handle).full_id, *path);
        assert_eq!(arena.get(handle).handle, handle);
    }
    assert_eq!(arena.get(to).children, vec![WidgetThemeHandle { id: 5 }]);
    let root = arena.get(WidgetThemeHandle { id: 5 });
    assert_eq!(root.text, text("root"));
    assert_eq!(root.children, vec![WidgetThemeHandle { id: 6 }, WidgetThemeHandle { id: 8 }]);
    assert_eq!(arena.get(WidgetThemeHandle { id: 8 }).font.unwrap().handle, FontHandle { id: 1 });
    assert_eq!(arena.get(WidgetThemeHandle { id: 7 }).parent_handle, Some(WidgetThemeHandle { id: 6 }));
}

#[test]
fn resources_are_found_by_name() {
    let set = build(Vec::new()).unwrap();
    assert_eq!(set.find_font(Some("medium")), Some(medium()));
    assert_eq!(set.find_font(Some("large")), None);
    assert_eq!(set.find_font(None), None);
    assert_eq!(set.find_image(Some("gui/close")), Some(ImageHandle { id: 2 }));
    assert_eq!(set.find_image(Some("gui")), None);
    assert_eq!(set.find_image(None), None);
    assert!(set.theme("button").is_none());
    assert_eq!(set.handle("button"), None);
    assert_eq!(*set.font(set.find_font(Some("small")).unwrap().handle), "roboto 16");
    assert_eq!(*set.font(FontHandle { id: 0 }), "roboto 20");
    assert_eq!(*set.image(set.find_image(Some("gui/close")).unwrap()), 12);
    assert_eq!(*set.image(ImageHandle { id: 0 }), 10);
}

#[test]
fn a_later_registration_replaces_an_earlier_one() {
    let mut list = images();
    list.push(("gui/close".to_string(), ImageHandle { id: 9 }));
    let resources = Resources::new(fonts(), list);
    assert_eq!(resources.find_image("gui/close"), Some(ImageHandle { id: 9 }));
    assert_eq!(resources.find_image("gui/button"), Some(ImageHandle { id: 1 }));
}

#[test]
fn a_long_chain_needs_one_pass_for_each_link() {
    // w0 has nothing pending; each other widget inherits from the one before
    // it, and they stand in the order that resolves one link in each pass
    let build = |links: usize| {
        let mut widgets = Vec::new();
        for i in (1..=links).rev() {
            widgets.push(named(
                &format!("w{}", i),
                WidgetThemeDefinition { from: Some(format!("w{}", i - 1)), ..def() },
            ));
        }
        widgets.push(named("w0", WidgetThemeDefinition { text: text("end"), ..def() }));
        build(widgets)
    };
    let set = build(20).unwrap();
    assert_eq!(set.theme("w20").unwrap().text, text("end"));
    assert_eq!(build(21).err(), Some(Error::CircularReference));
}

#[test]
fn every_record_is_indexed_by_its_own_path() {
    let resources = Resources::new(fonts(), images());
    let mut arena = Arena::new();
    for (id, def) in window_widgets().iter() {
        WidgetTheme::create(None, id, &mut arena, def, &resources).unwrap();
    }
    arena.resolve().unwrap();
    assert_eq!(arena.len(), 7);
    for h in 0..arena.len() {
        let handle = WidgetThemeHandle { id: h as u64 };
        let record = arena.get(handle);
        assert_eq!(record.handle, handle);
        assert_eq!(arena.handle(&record.full_id), Some(handle));
        assert!(!record.id.contains('/'));
        match record.parent_handle {
            None => assert_eq!(record.full_id, record.id),
            Some(parent) => {
                assert!(parent.id < handle.id);
                let parent = arena.get(parent);
                assert_eq!(record.full_id, format!("{}/{}", parent.full_id, record.id));
                assert!(parent.children.contains(&handle));
            }
        }
        for child in record.children.iter() {
            assert!(child.id > handle.id);
            assert_eq!(arena.get(*child).parent_handle, Some(handle));
        }
    }
}

#[test]
fn the_source_of_a_merge_is_left_as_it_is() {
    let resources = Resources::new(fonts(), images());
    let mut arena = Arena::new();
    let widgets = window_widgets();
    for (id, def) in widgets.iter() {
        WidgetTheme::create(None, id, &mut arena, def, &resources).unwrap();
    }
    let from = arena.handle("titlebar").unwrap();
    let to = arena.handle("main_window_titlebar").unwrap();
    let before = arena.subtree(from);
    merge_from(from, to, &mut arena);
    assert_eq!(arena.subtree(from), before);
    // the pending reference of the source's child went to the copy with it
    let copy = arena.get(arena.handle("main_window_titlebar/close_button").unwrap());
    assert_eq!(copy.from, text("button"));
    assert_eq!(copy.background, None);
    // the destination takes the pending reference of the source where it has none
    assert_eq!(arena.get(to).from, text("titlebar"));
}

#[test]
fn one_step_of_a_pass() {
    let resources = Resources::new(fonts(), images());
    let mut arena = Arena::new();
    for (id, def) in window_widgets().iter() {
        WidgetTheme::create(None, id, &mut arena, def, &resources).unwrap();
    }
    let button = arena.handle("button").unwrap();
    let titlebar = arena.handle("titlebar").unwrap();
    let main = arena.handle("main_window_titlebar").unwrap();
    // nothing is pending in the button
    arena.resolve_at(button).unwrap();
    assert_eq!(arena.len(), 6);
    // the source of the main titlebar is not ready: it waits
    arena.resolve_at(main).unwrap();
    assert_eq!(arena.get(main).from, text("titlebar"));
    assert_eq!(arena.get(main).background, None);
    assert_eq!(arena.len(), 6);
    // the titlebar is resolved, then the main titlebar can be
    arena.resolve_at(titlebar).unwrap();
    assert_eq!(arena.get(titlebar).from, None);
    assert_eq!(arena.get(titlebar).background, Some(ImageHandle { id: 1 }));
    arena.resolve_at(main).unwrap();
    assert_eq!(arena.get(main).from, None);
    assert_eq!(arena.get(main).background, Some(ImageHandle { id: 1 }));
    assert_eq!(arena.len(), 7);
    assert!(arena.any_pending());
    arena.resolve_pass().unwrap();
    assert!(!arena.any_pending());
    assert_eq!(arena.len(), 7);
}

#[test]
fn messages_name_what_is_at_fault() {
    assert_eq!(
        Error::Name { id: "a/b".to_string() }.message(),
        "'a/b' theme name invalid.  the '/' character is not allowed"
    );
    assert_eq!(
        Error::MissingResource {
            kind: ResourceKind::Background,
            name: "gui/none".to_string(),
            widget: "a/b".to_string(),
        }
        .message(),
        "Unable to locate image 'gui/none' as background for widget 'a/b'"
    );
    assert_eq!(
        Error::MissingResource {
            kind: ResourceKind::Foreground,
            name: "gui/none".to_string(),
            widget: "a".to_string(),
        }
        .message(),
        "Unable to locate image 'gui/none' as foreground for widget 'a'"
    );
    assert_eq!(
        Error::MissingResource {
            kind: ResourceKind::Font,
            name: "huge".to_string(),
            widget: "a".to_string(),
        }
        .message(),
        "Unable to locate font 'huge' for widget 'a'"
    );
    assert_eq!(
        Error::DuplicateId { full_id: "a/b".to_string() }.message(),
        "More than one theme has the id 'a/b'"
    );
    assert_eq!(
        Error::UnknownReference { name: "nowhere".to_string(), widget: "c".to_string() }.message(),
        "Invalid from theme 'nowhere' in 'c'"
    );
    assert_eq!(
        Error::CircularReference.message(),
        "Unable to resolve all from references after 20 iterations.  \
         This is most likely caused by a circular reference."
    );
}

#[test]
fn a_copy_is_not_made_where_the_destination_has_the_child() {
    let widgets = vec![
        named(
            "a",
            WidgetThemeDefinition {
                children: vec![named(
                    "label",
                    WidgetThemeDefinition {
                        children: vec![named("x", WidgetThemeDefinition { text: text("deep"), ..def() })],
                        ..def()
                    },
                )],
                ..def()
            },
        ),
        named(
            "b",
            WidgetThemeDefinition {
                from: text("a"),
                children: vec![named("label", WidgetThemeDefinition { text: text("own"), ..def() })],
                ..def()
            },
        ),
    ];
    let set = build(widgets).unwrap();
    assert_eq!(child_ids(&set, "b"), vec!["label"]);
    // the child that both have is merged, and gets what only the source has below it
    assert_eq!(set.theme("b/label").unwrap().text, text("own"));
    assert_eq!(set.theme("b/label/x").unwrap().text, text("deep"));
    assert_eq!(set.theme("b/label/x").unwrap().handle, WidgetThemeHandle { id: 5 });
}

#[test]
fn a_child_of_a_widget_without_name_has_a_path_with_a_separator() {
    let widgets = vec![named(
        "",
        WidgetThemeDefinition { children: vec![named("a", def())], ..def() },
    )];
    let set = build(widgets).unwrap();
    assert!(set.theme("").is_some());
    assert_eq!(set.theme("/a").unwrap().id, "a");
    assert!(set.theme("a").is_none());
}

#[test]
fn a_widget_may_inherit_from_its_own_child() {
    let widgets = vec![named(
        "a",
        WidgetThemeDefinition {
            from: text("a/b"),
            children: vec![named(
                "b",
                WidgetThemeDefinition {
                    text: text("inner"),
                    children: vec![named("x", WidgetThemeDefinition { wants_mouse: Some(true), ..def() })],
                    ..def()
                },
            )],
            ..def()
        },
    )];
    let set = build(widgets).unwrap();
    let a = set.theme("a").unwrap();
    assert_eq!(a.text, text("inner"));
    assert_eq!(child_ids(&set, "a"), vec!["b", "x"]);
    assert_eq!(set.theme("a/x").unwrap().wants_mouse, Some(true));
    assert_eq!(set.theme("a/x").unwrap().handle, WidgetThemeHandle { id: 3 });
    assert_eq!(set.theme("a/b/x").unwrap().handle, WidgetThemeHandle { id: 2 });
    assert_eq!(child_ids(&set, "a/b"), vec!["x"]);
}

#[test]
fn a_child_keeps_its_own_pending_reference_when_its_parent_inherits() {
    let widgets = vec![
        named("plain", WidgetThemeDefinition { text: text("plain"), ..def() }),
        named("fancy", WidgetThemeDefinition { text: text("fancy"), ..def() }),
        named(
            "a",
            WidgetThemeDefinition {
                children: vec![named("label", WidgetThemeDefinition { from: text("plain"), ..def() })],
                ..def()
            },
        ),
        named(
            "b",
            WidgetThemeDefinition {
                from: text("a"),
                children: vec![named("label", WidgetThemeDefinition { from: text("fancy"), ..def() })],
                ..def()
            },
        ),
    ];
    // "b" is resolved in the first pass, before either label
    let mut widgets = widgets;
    widgets.swap(2, 3);
    let set = build(widgets).unwrap();
    assert_eq!(set.theme("b/label").unwrap().text, text("fancy"));
    assert_eq!(set.theme("a/label").unwrap().text, text("plain"));
}

#[test]
fn an_error_of_the_widget_itself_leaves_the_arena_as_it_was() {
    let resources = Resources::new(fonts(), images());
    let mut arena = Arena::new();
    assert_eq!(
        WidgetTheme::create(None, "a/b", &mut arena, &def(), &resources),
        Err(Error::Name { id: "a/b".to_string() })
    );
    assert_eq!(arena.len(), 0);
    assert_eq!(arena.handle("a/b"), None);
    let missing = WidgetThemeDefinition { font: text("huge"), children: vec![named("x", def())], ..def() };
    assert_eq!(
        WidgetTheme::create(None, "a", &mut arena, &missing, &resources),
        Err(Error::MissingResource {
            kind: ResourceKind::Font,
            name: "huge".to_string(),
            widget: "a".to_string(),
        })
    );
    assert_eq!(arena.len(), 0);
    assert_eq!(arena.handle("a"), None);
    // the arena can still be used
    let a = WidgetTheme::create(None, "a", &mut arena, &def(), &resources).unwrap();
    assert_eq!(a, WidgetThemeHandle { id: 0 });
    assert_eq!(
        WidgetTheme::create(None, "a", &mut arena, &def(), &resources),
        Err(Error::DuplicateId { full_id: "a".to_string() })
    );
    assert_eq!(arena.len(), 1);
    assert_eq!(arena.handle("a"), Some(a));
    assert!(arena.get(a).children.is_empty());
}

#[test]
fn an_error_below_a_widget_leaves_what_was_placed_before_it() {
    let resources = Resources::new(fonts(), images());
    let mut arena = Arena::new();
    let bad = WidgetThemeDefinition {
        children: vec![named("x", def()), named("y", WidgetThemeDefinition { background: text("gui/none"), ..def() })],
        ..def()
    };
    assert_eq!(
        WidgetTheme::create(None, "a", &mut arena, &bad, &resources),
        Err(Error::MissingResource {
            kind: ResourceKind::Background,
            name: "gui/none".to_string(),
            widget: "a/y".to_string(),
        })
    );
    assert_eq!(arena.len(), 2);
    assert_eq!(arena.handle("a/x"), Some(WidgetThemeHandle { id: 1 }));
    assert_eq!(arena.handle("a/y"), None);
    // still linked: a widget can be added
    let b = WidgetTheme::create(None, "b", &mut arena, &def(), &resources).unwrap();
    assert_eq!(b, WidgetThemeHandle { id: 2 });
}

#[test]
fn a_reference_to_no_widget_leaves_the_arena_as_it_was() {
    let resources = Resources::new(fonts(), images());
    let mut arena = Arena::new();
    let a = WidgetTheme::create(
        None,
        "a",
        &mut arena,
        &WidgetThemeDefinition { from: text("nowhere"), text: text("own"), ..def() },
        &resources,
    )
    .unwrap();
    assert_eq!(
        arena.resolve_at(a),
        Err(Error::UnknownReference { name: "nowhere".to_string(), widget: "a".to_string() })
    );
    assert_eq!(arena.len(), 1);
    assert_eq!(arena.get(a).from, text("nowhere"));
    assert_eq!(arena.get(a).text, text("own"));
}

#[test]
fn a_handle_that_was_found_is_the_place_of_an_object() {
    let set = build(button_and_titlebar()).unwrap();
    assert_eq!(set.font_count(), 2);
    assert_eq!(set.image_count(), 3);
    for name in ["medium", "small"] {
        let summary = set.find_font(Some(name)).unwrap();
        assert!(summary.handle.id < set.font_count());
        set.font(summary.handle);
    }
    for name in ["gui/normal", "gui/button", "gui/close"] {
        let handle = set.find_image(Some(name)).unwrap();
        assert!(handle.id < set.image_count());
        set.image(handle);
    }
    let label = set.theme("titlebar/label").unwrap();
    assert_eq!(*set.font(label.font.unwrap().handle), "roboto 20");
}

#[test]
fn a_theme_without_references_has_one_record_for_each_widget() {
    let widgets = vec![
        named(
            "a",
            WidgetThemeDefinition {
                text: text("top"),
                children: vec![
                    named("b", WidgetThemeDefinition { children: vec![named("c", def())], ..def() }),
                    named("x", WidgetThemeDefinition { font: text("small"), ..def() }),
                ],
                ..def()
            },
        ),
        named("button", WidgetThemeDefinition { background: text("gui/button"), ..def() }),
    ];
    let set = build(widgets).unwrap();
    let paths = ["a", "a/b", "a/b/c", "a/x", "button"];
    for (i, path) in paths.iter().enumerate() {
        assert_eq!(set.handle(path), Some(WidgetThemeHandle { id: i as u64 }));
        assert_eq!(set.theme(path).unwrap().from, None);
    }
    let mut indexed = all_paths(&set);
    indexed.sort();
    assert_eq!(indexed, vec!["a", "a/b", "a/b/c", "a/x", "button"]);
    assert_eq!(set.theme("a").unwrap().text, text("top"));
    assert_eq!(set.theme("a").unwrap().font, None);
    assert_eq!(set.theme("a/b").unwrap().text, None);
    assert_eq!(set.theme("a/x").unwrap().font.unwrap().handle, FontHandle { id: 1 });
    assert_eq!(set.theme("button").unwrap().background, Some(ImageHandle { id: 1 }));
    assert_eq!(child_ids(&set, "a"), vec!["b", "x"]);
    assert_eq!(child_ids(&set, "a/b"), vec!["c"]);
    assert!(set.theme("button").unwrap().children.is_empty());
}

#[test]
fn a_circle_of_three_widgets_is_a_circular_reference() {
    let widgets = vec![
        named("a", WidgetThemeDefinition { from: text("b"), ..def() }),
        named("b", WidgetThemeDefinition { from: text("c"), ..def() }),
        named("c", WidgetThemeDefinition { from: text("a"), ..def() }),
        named("d", WidgetThemeDefinition { from: text("a"), ..def() }),
    ];
    assert_eq!(build(widgets).err(), Some(Error::CircularReference));
}
