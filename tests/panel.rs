use hati_settings::color::{parse_color, Color};
use hati_settings::panel::{edit, Panel, Settings, Shown, Value, Write};
use hati_settings::schema::{Key, KEY_COUNT};

fn text(s: &str) -> Value {
    Value::Text(s.to_string())
}

fn sample_values() -> Vec<Value> {
    vec![
        Value::Flag(true),
        text("circle"),
        Value::Int(50),
        Value::Int(0),
        Value::Flag(false),
        text("rgba(0, 255, 255, 1)"),
        text("rgba(255, 0, 255, 1)"),
        text("rgba(50, 255, 50, 1)"),
        Value::Int(80),
        Value::Hundredths(70),
        Value::Int(4),
        Value::Hundredths(250),
        Value::Flag(false),
        Value::Hundredths(200),
        Value::Flag(true),
        Value::Int(20),
        Value::Int(10),
        Value::Flag(false),
        Value::Hundredths(200),
        text("Control_L"),
        Value::Flag(true),
        Value::Hundredths(30),
        Value::Hundredths(85),
        Value::Flag(true),
        text("ripple"),
        Value::Flag(false),
    ]
}

fn sample() -> Settings {
    Settings::from_values(sample_values()).unwrap()
}

fn with(key: Key, value: Value) -> Settings {
    let mut s = sample();
    s.set(key, value);
    s
}

#[test]
fn snapshot_needs_every_key_with_its_type() {
    assert_eq!(sample_values().len(), KEY_COUNT);
    let mut short = sample_values();
    short.pop();
    assert!(Settings::from_values(short).is_none());
    let mut wrong = sample_values();
    wrong[2] = Value::Flag(true);
    assert!(Settings::from_values(wrong).is_none());
    let mut long = sample_values();
    long.push(Value::Flag(true));
    assert!(Settings::from_values(long).is_none());
}

#[test]
fn load_shows_every_stored_value() {
    let s = sample();
    let p = Panel::load(&s);
    assert_eq!(*p.shown(Key::Enabled), Shown::Active(true));
    assert_eq!(*p.shown(Key::Shape), Shown::Selected(0));
    assert_eq!(*p.shown(Key::CornerRadius), Shown::Number(50));
    assert_eq!(*p.shown(Key::Rotation), Shown::Number(0));
    assert_eq!(*p.shown(Key::Color), Shown::Rgba(parse_color("rgba(0, 255, 255, 1)")));
    assert_eq!(*p.shown(Key::Size), Shown::Number(80));
    assert_eq!(*p.shown(Key::Opacity), Shown::Number(70));
    assert_eq!(*p.shown(Key::Gap), Shown::Number(250));
    assert_eq!(*p.shown(Key::MagnifierKey), Shown::Selected(2));
    assert_eq!(*p.shown(Key::ClickAnimationMode), Shown::Selected(1));
    assert_eq!(*p.shown(Key::InertiaSmoothness), Shown::Number(85));
    assert_eq!(*p.shown(Key::AutoHide), Shown::Active(false));
    for i in 0..KEY_COUNT {
        let k = Key::at(i);
        match (s.get(k), p.shown(k)) {
            (Value::Flag(b), Shown::Active(a)) => assert_eq!(a, b),
            (Value::Int(n), Shown::Number(m)) => assert_eq!(m, n),
            (Value::Hundredths(n), Shown::Number(m)) => assert_eq!(m, n),
            (Value::Text(t), Shown::Selected(e)) => {
                assert_eq!(hati_settings::schema::choice(k, *e), Some(t.as_str()))
            }
            (Value::Text(t), Shown::Rgba(c)) => {
                assert_eq!(&hati_settings::color::format_color(c), t)
            }
            _ => panic!("control of the wrong kind"),
        }
    }
}

#[test]
fn load_squircle_selects_second_entry() {
    let mut s = sample();
    s.set(Key::Shape, text("squircle"));
    s.set(Key::CornerRadius, Value::Int(25));
    let p = Panel::load(&s);
    assert_eq!(*p.shown(Key::Shape), Shown::Selected(1));
    assert_eq!(*p.shown(Key::CornerRadius), Shown::Number(25));
    assert_eq!(*s.get(Key::Shape), text("squircle"));
}

#[test]
fn load_does_not_derive_radius_from_shape() {
    let mut s = sample();
    s.set(Key::Shape, text("squircle"));
    s.set(Key::CornerRadius, Value::Int(10));
    let p = Panel::load(&s);
    assert_eq!(*p.shown(Key::Shape), Shown::Selected(1));
    assert_eq!(*p.shown(Key::CornerRadius), Shown::Number(10));
}

#[test]
fn load_handles_unknown_and_out_of_range_values() {
    let mut s = sample();
    s.set(Key::Shape, text("hexagon"));
    s.set(Key::MagnifierKey, text("Meta_L"));
    s.set(Key::Size, Value::Int(500));
    s.set(Key::Opacity, Value::Hundredths(-3));
    s.set(Key::Color, text("garbage"));
    let p = Panel::load(&s);
    assert_eq!(*p.shown(Key::Shape), Shown::Selected(0));
    assert_eq!(*p.shown(Key::MagnifierKey), Shown::Selected(0));
    assert_eq!(*p.shown(Key::Size), Shown::Number(200));
    assert_eq!(*p.shown(Key::Opacity), Shown::Number(0));
    assert_eq!(*p.shown(Key::Color), Shown::Rgba(Color::fallback()));
}

#[test]
fn dependents_start_as_governor_says() {
    let p = Panel::load(&sample());
    assert!(!p.is_interactive(Key::DashGapSize));
    assert!(p.is_interactive(Key::GlowRadius));
    assert!(p.is_interactive(Key::GlowSpread));
    assert!(!p.is_interactive(Key::MagnifierZoom));
    assert!(!p.is_interactive(Key::MagnifierKey));
    assert!(p.is_interactive(Key::InertiaStiffness));
    assert!(p.is_interactive(Key::ClickAnimationMode));
    assert!(p.is_interactive(Key::Color));
    assert!(p.is_interactive(Key::LeftClickColor));
    assert!(p.is_interactive(Key::Size));
}

#[test]
fn toggling_governor_flips_dependents() {
    let pairs = [
        (Key::DashedBorder, Key::DashGapSize, true),
        (Key::Glow, Key::GlowRadius, true),
        (Key::Glow, Key::GlowSpread, true),
        (Key::MagnifierEnabled, Key::MagnifierZoom, true),
        (Key::MagnifierEnabled, Key::MagnifierKey, true),
        (Key::InertiaEnabled, Key::InertiaStiffness, true),
        (Key::InertiaEnabled, Key::InertiaSmoothness, true),
        (Key::ClickAnimations, Key::ClickAnimationMode, true),
        (Key::UseSystemAccent, Key::Color, false),
    ];
    for (g, d, on) in pairs {
        let mut s = sample();
        let mut p = Panel::load(&s);
        s.set(g, Value::Flag(!on));
        p.refresh(&s, g);
        assert!(!p.is_interactive(d));
        assert_eq!(*p.shown(g), Shown::Active(!on));
        s.set(g, Value::Flag(on));
        p.refresh(&s, g);
        assert!(p.is_interactive(d));
        assert_eq!(*p.shown(g), Shown::Active(on));
    }
}

#[test]
fn refresh_shows_external_change() {
    let mut s = sample();
    let mut p = Panel::load(&s);
    s.set(Key::Rotation, Value::Int(90));
    p.refresh(&s, Key::Rotation);
    assert_eq!(*p.shown(Key::Rotation), Shown::Number(90));
    s.set(Key::Shape, text("square"));
    p.refresh(&s, Key::Shape);
    assert_eq!(*p.shown(Key::Shape), Shown::Selected(2));
    assert_eq!(*p.shown(Key::CornerRadius), Shown::Number(50));
}

#[test]
fn shape_selection_writes_shape_and_radius() {
    let s = sample();
    let expected = [("circle", 50), ("squircle", 25), ("square", 0)];
    for (i, (name, radius)) in expected.iter().enumerate() {
        let mut t = with(Key::CornerRadius, Value::Int(33));
        let writes = edit(&t, Key::Shape, &Shown::Selected(i));
        assert!(writes.contains(&Write { key: Key::CornerRadius, value: Value::Int(*radius) }));
        t.apply(&writes);
        assert_eq!(*t.get(Key::Shape), text(name));
        assert_eq!(*t.get(Key::CornerRadius), Value::Int(*radius));
    }
    let writes = edit(&s, Key::Shape, &Shown::Selected(1));
    assert_eq!(
        writes,
        vec![
            Write { key: Key::Shape, value: text("squircle") },
            Write { key: Key::CornerRadius, value: Value::Int(25) },
        ]
    );
}

#[test]
fn radius_edit_leaves_shape() {
    let s = sample();
    let writes = edit(&s, Key::CornerRadius, &Shown::Number(12));
    assert_eq!(writes, vec![Write { key: Key::CornerRadius, value: Value::Int(12) }]);
}

#[test]
fn unchanged_value_is_not_written_back() {
    let s = sample();
    assert!(edit(&s, Key::Enabled, &Shown::Active(true)).is_empty());
    assert!(edit(&s, Key::Shape, &Shown::Selected(0)).is_empty());
    assert!(edit(&s, Key::Opacity, &Shown::Number(70)).is_empty());
    assert!(edit(&s, Key::Color, &Shown::Rgba(parse_color("rgba(0, 255, 255, 1)"))).is_empty());
}

#[test]
fn edits_write_values_in_range() {
    let s = sample();
    assert_eq!(
        edit(&s, Key::Size, &Shown::Number(500)),
        vec![Write { key: Key::Size, value: Value::Int(200) }]
    );
    assert_eq!(
        edit(&s, Key::InertiaStiffness, &Shown::Number(0)),
        vec![Write { key: Key::InertiaStiffness, value: Value::Hundredths(1) }]
    );
    assert_eq!(
        edit(&s, Key::Glow, &Shown::Active(false)),
        vec![Write { key: Key::Glow, value: Value::Flag(false) }]
    );
    assert!(edit(&s, Key::Glow, &Shown::Number(3)).is_empty());
}

#[test]
fn selector_edits() {
    let s = sample();
    assert_eq!(
        edit(&s, Key::MagnifierKey, &Shown::Selected(6)),
        vec![Write { key: Key::MagnifierKey, value: text("Super_L") }]
    );
    assert!(edit(&s, Key::MagnifierKey, &Shown::Selected(8)).is_empty());
    assert_eq!(
        edit(&s, Key::ClickAnimationMode, &Shown::Selected(0)),
        vec![Write { key: Key::ClickAnimationMode, value: text("directional") }]
    );
    assert_eq!(
        edit(&s, Key::ClickAnimationMode, &Shown::Selected(5)),
        vec![Write { key: Key::ClickAnimationMode, value: text("directional") }]
    );
    assert_eq!(
        edit(&s, Key::Shape, &Shown::Selected(9)),
        Vec::<Write>::new()
    );
}

#[test]
fn color_edit_writes_encoding() {
    let s = sample();
    let c = Color { red: 180, green: 0, blue: 255, alpha: "0.5".to_string() };
    assert_eq!(
        edit(&s, Key::RightClickColor, &Shown::Rgba(c)),
        vec![Write { key: Key::RightClickColor, value: text("rgba(180, 0, 255, 0.5)") }]
    );
}

#[test]
fn color_edit_respells_alpha() {
    let s = sample();
    let c = Color { red: 1, green: 2, blue: 3, alpha: "0.50".to_string() };
    assert_eq!(
        edit(&s, Key::LeftClickColor, &Shown::Rgba(c)),
        vec![Write { key: Key::LeftClickColor, value: text("rgba(1, 2, 3, 0.5)") }]
    );
    let c = Color { red: 1, green: 2, blue: 3, alpha: "abc".to_string() };
    assert_eq!(
        edit(&s, Key::LeftClickColor, &Shown::Rgba(c)),
        vec![Write { key: Key::LeftClickColor, value: text("rgba(1, 2, 3, 0.7)") }]
    );
    let c = Color { red: 1, green: 2, blue: 3, alpha: "5e-1".to_string() };
    assert_eq!(
        edit(&s, Key::LeftClickColor, &Shown::Rgba(c)),
        vec![Write { key: Key::LeftClickColor, value: text("rgba(1, 2, 3, 0.5)") }]
    );
}

#[test]
fn apply_sets_values_in_order() {
    let mut s = sample();
    s.apply(&vec![
        Write { key: Key::Size, value: Value::Int(60) },
        Write { key: Key::Size, value: Value::Int(70) },
        Write { key: Key::Gap, value: Value::Hundredths(0) },
    ]);
    assert_eq!(*s.get(Key::Size), Value::Int(70));
    assert_eq!(*s.get(Key::Gap), Value::Hundredths(0));
    assert_eq!(*s.get(Key::Rotation), Value::Int(0));
}
