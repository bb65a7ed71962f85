//! The configuration schema: every key, its name in the store, the group it
//! is shown in, the values it may hold, and the key that governs whether its
//! control is interactive.
//!
//! Floating-point keys are held in hundredths: `0.75` is `75`.

use vstd::prelude::*;
use crate::text::same_text;

verus! {

/// Number of keys in the schema.
pub const KEY_COUNT: usize = 26;

#[derive(Clone, Copy, Debug, PartialEq, Eq, Structural)]
pub enum Key {
    Enabled,
    Shape,
    CornerRadius,
    Rotation,
    UseSystemAccent,
    Color,
    LeftClickColor,
    RightClickColor,
    Size,
    Opacity,
    BorderWeight,
    Gap,
    DashedBorder,
    DashGapSize,
    Glow,
    GlowRadius,
    GlowSpread,
    MagnifierEnabled,
    MagnifierZoom,
    MagnifierKey,
    InertiaEnabled,
    InertiaStiffness,
    InertiaSmoothness,
    ClickAnimations,
    ClickAnimationMode,
    AutoHide,
}

#[derive(Clone, Copy, Debug, PartialEq, Eq, Structural)]
pub enum Group {
    General,
    Appearance,
    Border,
    Magnifier,
    Physics,
    Behavior,
}

/// The values a key may hold.
#[derive(Clone, Copy, Debug, PartialEq, Eq, Structural)]
pub enum Domain {
    /// A boolean.
    Flag,
    /// A 32-bit integer in `lo..=hi`.
    Int { lo: i32, hi: i32 },
    /// A double in `lo/100..=hi/100`, held in hundredths.
    Hundredths { lo: i32, hi: i32 },
    /// One of the key's named choices.
    Choice,
    /// A color in the `rgba(...)` encoding.
    ColorText,
}

pub open spec fn key_index(k: Key) -> nat {
    match k {
        Key::Enabled => 0,
        Key::Shape => 1,
        Key::CornerRadius => 2,
        Key::Rotation => 3,
        Key::UseSystemAccent => 4,
        Key::Color => 5,
        Key::LeftClickColor => 6,
        Key::RightClickColor => 7,
        Key::Size => 8,
        Key::Opacity => 9,
        Key::BorderWeight => 10,
        Key::Gap => 11,
        Key::DashedBorder => 12,
        Key::DashGapSize => 13,
        Key::Glow => 14,
        Key::GlowRadius => 15,
        Key::GlowSpread => 16,
        Key::MagnifierEnabled => 17,
        Key::MagnifierZoom => 18,
        Key::MagnifierKey => 19,
        Key::InertiaEnabled => 20,
        Key::InertiaStiffness => 21,
        Key::InertiaSmoothness => 22,
        Key::ClickAnimations => 23,
        Key::ClickAnimationMode => 24,
        Key::AutoHide => 25,
    }
}

/// All keys, in schema order.
pub open spec fn all_keys() -> Seq<Key> {
    seq![
        Key::Enabled,
        Key::Shape,
        Key::CornerRadius,
        Key::Rotation,
        Key::UseSystemAccent,
        Key::Color,
        Key::LeftClickColor,
        Key::RightClickColor,
        Key::Size,
        Key::Opacity,
        Key::BorderWeight,
        Key::Gap,
        Key::DashedBorder,
        Key::DashGapSize,
        Key::Glow,
        Key::GlowRadius,
        Key::GlowSpread,
        Key::MagnifierEnabled,
        Key::MagnifierZoom,
        Key::MagnifierKey,
        Key::InertiaEnabled,
        Key::InertiaStiffness,
        Key::InertiaSmoothness,
        Key::ClickAnimations,
        Key::ClickAnimationMode,
        Key::AutoHide,
    ]
}

/// The key at `i` in schema order.
pub open spec fn key_at(i: int) -> Key {
    all_keys()[i]
}

/// The key's name in the store.
pub open spec fn key_name(k: Key) -> Seq<char> {
    match k {
        Key::Enabled => "enabled"@,
        Key::Shape => "shape"@,
        Key::CornerRadius => "corner-radius"@,
        Key::Rotation => "rotation"@,
        Key::UseSystemAccent => "use-system-accent"@,
        Key::Color => "color"@,
        Key::LeftClickColor => "left-click-color"@,
        Key::RightClickColor => "right-click-color"@,
        Key::Size => "size"@,
        Key::Opacity => "opacity"@,
        Key::BorderWeight => "border-weight"@,
        Key::Gap => "gap"@,
        Key::DashedBorder => "dashed-border"@,
        Key::DashGapSize => "dash-gap-size"@,
        Key::Glow => "glow"@,
        Key::GlowRadius => "glow-radius"@,
        Key::GlowSpread => "glow-spread"@,
        Key::MagnifierEnabled => "magnifier-enabled"@,
        Key::MagnifierZoom => "magnifier-zoom"@,
        Key::MagnifierKey => "magnifier-key"@,
        Key::InertiaEnabled => "inertia-enabled"@,
        Key::InertiaStiffness => "inertia-stiffness"@,
        Key::InertiaSmoothness => "inertia-smoothness"@,
        Key::ClickAnimations => "click-animations"@,
        Key::ClickAnimationMode => "click-animation-mode"@,
        Key::AutoHide => "auto-hide"@,
    }
}

pub open spec fn group(k: Key) -> Group {
    match k {
        Key::Enabled => Group::General,
        Key::Shape => Group::General,
        Key::CornerRadius => Group::General,
        Key::Rotation => Group::General,
        Key::UseSystemAccent => Group::Appearance,
        Key::Color => Group::Appearance,
        Key::LeftClickColor => Group::Appearance,
        Key::RightClickColor => Group::Appearance,
        Key::Size => Group::Appearance,
        Key::Opacity => Group::Appearance,
        Key::BorderWeight => Group::Border,
        Key::Gap => Group::Border,
        Key::DashedBorder => Group::Border,
        Key::DashGapSize => Group::Border,
        Key::Glow => Group::Border,
        Key::GlowRadius => Group::Border,
        Key::GlowSpread => Group::Border,
        Key::MagnifierEnabled => Group::Magnifier,
        Key::MagnifierZoom => Group::Magnifier,
        Key::MagnifierKey => Group::Magnifier,
        Key::InertiaEnabled => Group::Physics,
        Key::InertiaStiffness => Group::Physics,
        Key::InertiaSmoothness => Group::Physics,
        Key::ClickAnimations => Group::Behavior,
        Key::ClickAnimationMode => Group::Behavior,
        Key::AutoHide => Group::Behavior,
    }
}

pub open spec fn domain(k: Key) -> Domain {
    match k {
        Key::Enabled => Domain::Flag,
        Key::Shape => Domain::Choice,
        Key::CornerRadius => Domain::Int { lo: 0, hi: 50 },
        Key::Rotation => Domain::Int { lo: 0, hi: 360 },
        Key::UseSystemAccent => Domain::Flag,
        Key::Color => Domain::ColorText,
        Key::LeftClickColor => Domain::ColorText,
        Key::RightClickColor => Domain::ColorText,
        Key::Size => Domain::Int { lo: 40, hi: 200 },
        Key::Opacity => Domain::Hundredths { lo: 0, hi: 100 },
        Key::BorderWeight => Domain::Int { lo: 2, hi: 20 },
        Key::Gap => Domain::Hundredths { lo: 0, hi: 2000 },
        Key::DashedBorder => Domain::Flag,
        Key::DashGapSize => Domain::Hundredths { lo: 150, hi: 500 },
        Key::Glow => Domain::Flag,
        Key::GlowRadius => Domain::Int { lo: 0, hi: 100 },
        Key::GlowSpread => Domain::Int { lo: 0, hi: 50 },
        Key::MagnifierEnabled => Domain::Flag,
        Key::MagnifierZoom => Domain::Hundredths { lo: 100, hi: 400 },
        Key::MagnifierKey => Domain::Choice,
        Key::InertiaEnabled => Domain::Flag,
        Key::InertiaStiffness => Domain::Hundredths { lo: 1, hi: 100 },
        Key::InertiaSmoothness => Domain::Hundredths { lo: 10, hi: 99 },
        Key::ClickAnimations => Domain::Flag,
        Key::ClickAnimationMode => Domain::Choice,
        Key::AutoHide => Domain::Flag,
    }
}

/// The governing key of `k` and the value of it that makes `k`'s control
/// interactive.
pub open spec fn governor(k: Key) -> Option<(Key, bool)> {
    match k {
        Key::Color => Some((Key::UseSystemAccent, false)),
        Key::DashGapSize => Some((Key::DashedBorder, true)),
        Key::GlowRadius => Some((Key::Glow, true)),
        Key::GlowSpread => Some((Key::Glow, true)),
        Key::MagnifierZoom => Some((Key::MagnifierEnabled, true)),
        Key::MagnifierKey => Some((Key::MagnifierEnabled, true)),
        Key::InertiaStiffness => Some((Key::InertiaEnabled, true)),
        Key::InertiaSmoothness => Some((Key::InertiaEnabled, true)),
        Key::ClickAnimationMode => Some((Key::ClickAnimations, true)),
        _ => None,
    }
}

/// The named values of a choice key, in the order its selector lists them.
pub open spec fn choices(k: Key) -> Seq<Seq<char>> {
    match k {
        Key::Shape => seq!["circle"@, "squircle"@, "square"@],
        Key::MagnifierKey => seq!["Shift_L"@, "Shift_R"@, "Control_L"@, "Control_R"@, "Alt_L"@, "Alt_R"@, "Super_L"@, "Super_R"@],
        Key::ClickAnimationMode => seq!["directional"@, "ripple"@],
        _ => Seq::empty(),
    }
}

impl Key {

    pub fn index(self) -> (r: usize)
        ensures
            r == key_index(self),
    {
        match self {
            Key::Enabled => 0,
            Key::Shape => 1,
            Key::CornerRadius => 2,
            Key::Rotation => 3,
            Key::UseSystemAccent => 4,
            Key::Color => 5,
            Key::LeftClickColor => 6,
            Key::RightClickColor => 7,
            Key::Size => 8,
            Key::Opacity => 9,
            Key::BorderWeight => 10,
            Key::Gap => 11,
            Key::DashedBorder => 12,
            Key::DashGapSize => 13,
            Key::Glow => 14,
            Key::GlowRadius => 15,
            Key::GlowSpread => 16,
            Key::MagnifierEnabled => 17,
            Key::MagnifierZoom => 18,
            Key::MagnifierKey => 19,
            Key::InertiaEnabled => 20,
            Key::InertiaStiffness => 21,
            Key::InertiaSmoothness => 22,
            Key::ClickAnimations => 23,
            Key::ClickAnimationMode => 24,
            Key::AutoHide => 25,
        }
    }


    pub fn at(i: usize) -> (r: Key)
        requires
            i < KEY_COUNT,
        ensures
            key_index(r) == i,
            r == key_at(i as int),
    {
        match i {
            0 => Key::Enabled,
            1 => Key::Shape,
            2 => Key::CornerRadius,
            3 => Key::Rotation,
            4 => Key::UseSystemAccent,
            5 => Key::Color,
            6 => Key::LeftClickColor,
            7 => Key::RightClickColor,
            8 => Key::Size,
            9 => Key::Opacity,
            10 => Key::BorderWeight,
            11 => Key::Gap,
            12 => Key::DashedBorder,
            13 => Key::DashGapSize,
            14 => Key::Glow,
            15 => Key::GlowRadius,
            16 => Key::GlowSpread,
            17 => Key::MagnifierEnabled,
            18 => Key::MagnifierZoom,
            19 => Key::MagnifierKey,
            20 => Key::InertiaEnabled,
            21 => Key::InertiaStiffness,
            22 => Key::InertiaSmoothness,
            23 => Key::ClickAnimations,
            24 => Key::ClickAnimationMode,
            _ => Key::AutoHide,
        }
    }


    /// The key's name in the store.
    pub fn name(self) -> (r: &'static str)
        ensures
            r@ == key_name(self),
    {
        match self {
            Key::Enabled => "enabled",
            Key::Shape => "shape",
            Key::CornerRadius => "corner-radius",
            Key::Rotation => "rotation",
            Key::UseSystemAccent => "use-system-accent",
            Key::Color => "color",
            Key::LeftClickColor => "left-click-color",
            Key::RightClickColor => "right-click-color",
            Key::Size => "size",
            Key::Opacity => "opacity",
            Key::BorderWeight => "border-weight",
            Key::Gap => "gap",
            Key::DashedBorder => "dashed-border",
            Key::DashGapSize => "dash-gap-size",
            Key::Glow => "glow",
            Key::GlowRadius => "glow-radius",
            Key::GlowSpread => "glow-spread",
            Key::MagnifierEnabled => "magnifier-enabled",
            Key::MagnifierZoom => "magnifier-zoom",
            Key::MagnifierKey => "magnifier-key",
            Key::InertiaEnabled => "inertia-enabled",
            Key::InertiaStiffness => "inertia-stiffness",
            Key::InertiaSmoothness => "inertia-smoothness",
            Key::ClickAnimations => "click-animations",
            Key::ClickAnimationMode => "click-animation-mode",
            Key::AutoHide => "auto-hide",
        }
    }


    pub fn group(self) -> (r: Group)
        ensures
            r == group(self),
    {
        match self {
            Key::Enabled => Group::General,
            Key::Shape => Group::General,
            Key::CornerRadius => Group::General,
            Key::Rotation => Group::General,
            Key::UseSystemAccent => Group::Appearance,
            Key::Color => Group::Appearance,
            Key::LeftClickColor => Group::Appearance,
            Key::RightClickColor => Group::Appearance,
            Key::Size => Group::Appearance,
            Key::Opacity => Group::Appearance,
            Key::BorderWeight => Group::Border,
            Key::Gap => Group::Border,
            Key::DashedBorder => Group::Border,
            Key::DashGapSize => Group::Border,
            Key::Glow => Group::Border,
            Key::GlowRadius => Group::Border,
            Key::GlowSpread => Group::Border,
            Key::MagnifierEnabled => Group::Magnifier,
            Key::MagnifierZoom => Group::Magnifier,
            Key::MagnifierKey => Group::Magnifier,
            Key::InertiaEnabled => Group::Physics,
            Key::InertiaStiffness => Group::Physics,
            Key::InertiaSmoothness => Group::Physics,
            Key::ClickAnimations => Group::Behavior,
            Key::ClickAnimationMode => Group::Behavior,
            Key::AutoHide => Group::Behavior,
        }
    }


    pub fn domain(self) -> (r: Domain)
        ensures
            r == domain(self),
    {
        match self {
            Key::Enabled => Domain::Flag,
            Key::Shape => Domain::Choice,
            Key::CornerRadius => Domain::Int { lo: 0, hi: 50 },
            Key::Rotation => Domain::Int { lo: 0, hi: 360 },
            Key::UseSystemAccent => Domain::Flag,
            Key::Color => Domain::ColorText,
            Key::LeftClickColor => Domain::ColorText,
            Key::RightClickColor => Domain::ColorText,
            Key::Size => Domain::Int { lo: 40, hi: 200 },
            Key::Opacity => Domain::Hundredths { lo: 0, hi: 100 },
            Key::BorderWeight => Domain::Int { lo: 2, hi: 20 },
            Key::Gap => Domain::Hundredths { lo: 0, hi: 2000 },
            Key::DashedBorder => Domain::Flag,
            Key::DashGapSize => Domain::Hundredths { lo: 150, hi: 500 },
            Key::Glow => Domain::Flag,
            Key::GlowRadius => Domain::Int { lo: 0, hi: 100 },
            Key::GlowSpread => Domain::Int { lo: 0, hi: 50 },
            Key::MagnifierEnabled => Domain::Flag,
            Key::MagnifierZoom => Domain::Hundredths { lo: 100, hi: 400 },
            Key::MagnifierKey => Domain::Choice,
            Key::InertiaEnabled => Domain::Flag,
            Key::InertiaStiffness => Domain::Hundredths { lo: 1, hi: 100 },
            Key::InertiaSmoothness => Domain::Hundredths { lo: 10, hi: 99 },
            Key::ClickAnimations => Domain::Flag,
            Key::ClickAnimationMode => Domain::Choice,
            Key::AutoHide => Domain::Flag,
        }
    }


    pub fn governor(self) -> (r: Option<(Key, bool)>)
        ensures
            r == governor(self),
    {
        match self {
            Key::Color => Some((Key::UseSystemAccent, false)),
            Key::DashGapSize => Some((Key::DashedBorder, true)),
            Key::GlowRadius => Some((Key::Glow, true)),
            Key::GlowSpread => Some((Key::Glow, true)),
            Key::MagnifierZoom => Some((Key::MagnifierEnabled, true)),
            Key::MagnifierKey => Some((Key::MagnifierEnabled, true)),
            Key::InertiaStiffness => Some((Key::InertiaEnabled, true)),
            Key::InertiaSmoothness => Some((Key::InertiaEnabled, true)),
            Key::ClickAnimationMode => Some((Key::ClickAnimations, true)),
            _ => None,
        }
    }


}

/// The key whose store name is `name`.
pub fn key_named(name: &str) -> (r: Option<Key>)
    ensures
        r matches Some(k) ==> key_name(k) == name@,
        r is None ==> forall|k: Key| key_name(k) != name@,
{
    let mut i: usize = 0;
    while i < KEY_COUNT
        invariant
            i <= KEY_COUNT,
            forall|j: int| 0 <= j < i ==> key_name(#[trigger] key_at(j)) != name@,
        decreases KEY_COUNT - i,
    {
        let k = Key::at(i);
        if same_text(k.name(), name) {
            return Some(k);
        }
        i += 1;
    }
    assert forall|k: Key| key_name(k) != name@ by {
        lemma_key_index(k);
        assert(key_name(key_at(key_index(k) as int)) != name@);
    }
    None
}

/// The named value at `i` of a choice key.
pub fn choice(k: Key, i: usize) -> (r: Option<&'static str>)
    ensures
        r is Some <==> i < choices(k).len(),
        r matches Some(x) ==> x@ == choices(k)[i as int],
{
    match k {
        Key::Shape => match i {
            0 => Some("circle"),
            1 => Some("squircle"),
            2 => Some("square"),
            _ => None,
        },
        Key::MagnifierKey => match i {
            0 => Some("Shift_L"),
            1 => Some("Shift_R"),
            2 => Some("Control_L"),
            3 => Some("Control_R"),
            4 => Some("Alt_L"),
            5 => Some("Alt_R"),
            6 => Some("Super_L"),
            7 => Some("Super_R"),
            _ => None,
        },
        Key::ClickAnimationMode => match i {
            0 => Some("directional"),
            1 => Some("ripple"),
            _ => None,
        },
        _ => None,
    }
}

/// The number of named values of a choice key; zero for other keys.
pub fn choice_count(k: Key) -> (r: usize)
    ensures
        r == choices(k).len(),
{
    match k {
        Key::Shape => 3,
        Key::MagnifierKey => 8,
        Key::ClickAnimationMode => 2,
        _ => 0,
    }
}

/// The corner radius, in percent, that selecting shape `i` sets: circle 50,
/// squircle 25, square 0.
pub open spec fn shape_radius(i: int) -> i32 {
    if i == 1 {
        25
    } else if i == 2 {
        0
    } else {
        50
    }
}

/// The shape name and corner radius that selecting entry `i` of the shape
/// selector stores; an entry past the list stands for the circle.
pub fn shape_selection(i: usize) -> (r: (&'static str, i32))
    ensures
        i < 3 ==> r.0@ == choices(Key::Shape)[i as int],
        i >= 3 ==> r.0@ == choices(Key::Shape)[0],
        r.1 == shape_radius(i as int),
        i == 0 ==> r.0@ == "circle"@ && r.1 == 50,
        i == 1 ==> r.0@ == "squircle"@ && r.1 == 25,
        i == 2 ==> r.0@ == "square"@ && r.1 == 0,
{
    match i {
        1 => ("squircle", 25),
        2 => ("square", 0),
        _ => ("circle", 50),
    }
}

/// Schema order and the index agree.
pub proof fn lemma_key_index(k: Key)
    ensures
        key_index(k) < KEY_COUNT,
        key_at(key_index(k) as int) == k,
{
}

} // verus!
