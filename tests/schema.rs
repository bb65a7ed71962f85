use hati_settings::schema::{choice, choice_count, key_named, shape_selection, Domain, Group, Key, KEY_COUNT};

#[test]
fn key_names_are_verbatim() {
    let names = [
        "enabled", "shape", "corner-radius", "rotation", "use-system-accent", "color",
        "left-click-color", "right-click-color", "size", "opacity", "border-weight", "gap",
        "dashed-border", "dash-gap-size", "glow", "glow-radius", "glow-spread",
        "magnifier-enabled", "magnifier-zoom", "magnifier-key", "inertia-enabled",
        "inertia-stiffness", "inertia-smoothness", "click-animations", "click-animation-mode",
        "auto-hide",
    ];
    assert_eq!(names.len(), KEY_COUNT);
    for (i, name) in names.iter().enumerate() {
        let k = Key::at(i);
        assert_eq!(k.name(), *name);
        assert_eq!(k.index(), i);
    }
}

#[test]
fn domains_and_groups() {
    assert_eq!(Key::CornerRadius.domain(), Domain::Int { lo: 0, hi: 50 });
    assert_eq!(Key::Rotation.domain(), Domain::Int { lo: 0, hi: 360 });
    assert_eq!(Key::Size.domain(), Domain::Int { lo: 40, hi: 200 });
    assert_eq!(Key::Opacity.domain(), Domain::Hundredths { lo: 0, hi: 100 });
    assert_eq!(Key::DashGapSize.domain(), Domain::Hundredths { lo: 150, hi: 500 });
    assert_eq!(Key::InertiaSmoothness.domain(), Domain::Hundredths { lo: 10, hi: 99 });
    assert_eq!(Key::Glow.domain(), Domain::Flag);
    assert_eq!(Key::Shape.domain(), Domain::Choice);
    assert_eq!(Key::LeftClickColor.domain(), Domain::ColorText);
    assert_eq!(Key::Rotation.group(), Group::General);
    assert_eq!(Key::Gap.group(), Group::Border);
    assert_eq!(Key::MagnifierKey.group(), Group::Magnifier);
    assert_eq!(Key::AutoHide.group(), Group::Behavior);
}

#[test]
fn governors() {
    assert_eq!(Key::DashGapSize.governor(), Some((Key::DashedBorder, true)));
    assert_eq!(Key::GlowRadius.governor(), Some((Key::Glow, true)));
    assert_eq!(Key::GlowSpread.governor(), Some((Key::Glow, true)));
    assert_eq!(Key::MagnifierZoom.governor(), Some((Key::MagnifierEnabled, true)));
    assert_eq!(Key::MagnifierKey.governor(), Some((Key::MagnifierEnabled, true)));
    assert_eq!(Key::InertiaStiffness.governor(), Some((Key::InertiaEnabled, true)));
    assert_eq!(Key::InertiaSmoothness.governor(), Some((Key::InertiaEnabled, true)));
    assert_eq!(Key::ClickAnimationMode.governor(), Some((Key::ClickAnimations, true)));
    assert_eq!(Key::Color.governor(), Some((Key::UseSystemAccent, false)));
    assert_eq!(Key::LeftClickColor.governor(), None);
    assert_eq!(Key::Glow.governor(), None);
}

#[test]
fn shape_table() {
    assert_eq!(shape_selection(0), ("circle", 50));
    assert_eq!(shape_selection(1), ("squircle", 25));
    assert_eq!(shape_selection(2), ("square", 0));
    assert_eq!(shape_selection(7), ("circle", 50));
}

#[test]
fn choice_lists() {
    assert_eq!(choice_count(Key::Shape), 3);
    assert_eq!(choice_count(Key::MagnifierKey), 8);
    assert_eq!(choice_count(Key::ClickAnimationMode), 2);
    assert_eq!(choice_count(Key::Size), 0);
    assert_eq!(choice(Key::MagnifierKey, 0), Some("Shift_L"));
    assert_eq!(choice(Key::MagnifierKey, 7), Some("Super_R"));
    assert_eq!(choice(Key::MagnifierKey, 8), None);
    assert_eq!(choice(Key::ClickAnimationMode, 1), Some("ripple"));
    assert_eq!(choice(Key::Shape, 1), Some("squircle"));
}

#[test]
fn keys_by_name() {
    assert_eq!(key_named("glow-radius"), Some(Key::GlowRadius));
    assert_eq!(key_named("auto-hide"), Some(Key::AutoHide));
    assert_eq!(key_named("enabled"), Some(Key::Enabled));
    assert_eq!(key_named("glow_radius"), None);
    assert_eq!(key_named(""), None);
}
