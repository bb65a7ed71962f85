//! What holds of the panel and the store together.

use vstd::prelude::*;
use crate::color::color_text;
use crate::color::{alpha_or_default, ColorView};
use crate::color_laws::{lemma_read_alpha_canonical, lemma_read_written};
use crate::schema::{
    choices, domain, governor, key_at, key_index, lemma_key_index, shape_radius, Domain, Key,
    KEY_COUNT,
};
use crate::panel::{
    apply_writes, display, edit_writes, entered_value, fits, is_interactive, is_snapshot,
    is_valid, keep_if_changed, position, refreshed, shows, stored, ShownView, ValueView,
    WriteView, PanelView,
};

verus! {

/// Every key of `s` holds a value it may hold.
pub open spec fn all_valid(s: Seq<ValueView>) -> bool {
    forall|i: int| 0 <= i < KEY_COUNT ==> is_valid(key_at(i), #[trigger] s[i])
}

/// The control of `k`, showing `shown`, shows exactly the stored value `v`:
/// the same flag, the same number, the entry named `v`, or a color that is
/// written back as `v`.
pub open spec fn shows_exactly(k: Key, shown: ShownView, v: ValueView) -> bool {
    match (v, shown) {
        (ValueView::Flag(b), ShownView::Active(a)) => a == b,
        (ValueView::Int(n), ShownView::Number(m)) => m == n,
        (ValueView::Hundredths(n), ShownView::Number(m)) => m == n,
        (ValueView::Text(t), ShownView::Selected(i)) => i < choices(k).len() && choices(k)[i as int]
            == t,
        (ValueView::Text(t), ShownView::Rgba(c)) => color_text(c) == t,
        _ => false,
    }
}

proof fn lemma_position_found(opts: Seq<Seq<char>>, t: Seq<char>)
    requires
        opts.contains(t),
    ensures
        position(opts, t) < opts.len(),
        opts[position(opts, t) as int] == t,
    decreases opts.len(),
{
    if opts[0] != t {
        let j = choose|j: int| 0 <= j < opts.len() && opts[j] == t;
        assert(opts.drop_first()[j - 1] == t);
        lemma_position_found(opts.drop_first(), t);
    }
}

/// A panel loaded against a store whose every value is valid shows each value
/// exactly, with nothing brought into range or replaced.
pub proof fn lemma_load_shows_stored(p: PanelView, s: Seq<ValueView>, k: Key)
    requires
        is_snapshot(s),
        all_valid(s),
        shows(p, s),
    ensures
        shows_exactly(k, p.shown[key_index(k) as int], stored(s, k)),
{
    lemma_key_index(k);
    let i = key_index(k) as int;
    assert(p.shown[i] == display(k, s[i]));
    assert(is_valid(k, s[i]));
    if domain(k) == Domain::Choice {
        if let ValueView::Text(t) = s[i] {
            lemma_position_found(choices(k), t);
        }
    }
}

/// Setting a governing key to its enabling value makes each control it
/// governs interactive, and setting it to the other value makes it not.
pub proof fn lemma_governor_toggle(p: PanelView, s: Seq<ValueView>, d: Key)
    requires
        is_snapshot(s),
        shows(p, s),
        governor(d) is Some,
    ensures
        ({
            let (g, on) = governor(d)->0;
            let enabled = s.update(key_index(g) as int, ValueView::Flag(on));
            let disabled = s.update(key_index(g) as int, ValueView::Flag(!on));
            &&& is_interactive(d, enabled)
            &&& !is_interactive(d, disabled)
            &&& refreshed(p, enabled, g).interactive[key_index(d) as int]
            &&& !refreshed(p, disabled, g).interactive[key_index(d) as int]
        }),
{
    let (g, on) = governor(d)->0;
    lemma_key_index(d);
    lemma_key_index(g);
}

/// A panel in step with the store stays in step when it takes in a change
/// that the store reports.
pub proof fn lemma_refresh_in_step(p: PanelView, s: Seq<ValueView>, k: Key, v: ValueView)
    requires
        is_snapshot(s),
        shows(p, s),
        fits(k, v),
    ensures
        ({
            let t = s.update(key_index(k) as int, v);
            is_snapshot(t) && shows(refreshed(p, t, k), t)
        }),
{
    lemma_key_index(k);
    let t = s.update(key_index(k) as int, v);
    let q = refreshed(p, t, k);
    assert forall|i: int| 0 <= i < KEY_COUNT implies fits(key_at(i), #[trigger] t[i]) by {
        lemma_key_index(key_at(i));
        assert(fits(key_at(i), s[i]));
    }
    assert forall|i: int| 0 <= i < KEY_COUNT implies #[trigger] q.shown[i] == display(
        key_at(i),
        t[i],
    ) by {
        lemma_key_index(key_at(i));
        assert(p.shown[i] == display(key_at(i), s[i]));
    }
    assert forall|i: int| 0 <= i < KEY_COUNT implies #[trigger] q.interactive[i] == is_interactive(
        key_at(i),
        t,
    ) by {
        lemma_key_index(key_at(i));
        assert(p.interactive[i] == is_interactive(key_at(i), s));
        if let Some((g, _)) = governor(key_at(i)) {
            lemma_key_index(g);
        }
    }
}

proof fn lemma_apply_one(s: Seq<ValueView>, w: WriteView)
    ensures
        apply_writes(s, seq![w]) == s.update(key_index(w.key) as int, w.value),
{
    assert(seq![w].drop_last() =~= Seq::<WriteView>::empty());
    assert(apply_writes(s, Seq::<WriteView>::empty()) == s);
    assert(seq![w].last() == w);
}

proof fn lemma_apply_kept(s: Seq<ValueView>, w: WriteView)
    requires
        is_snapshot(s),
    ensures
        apply_writes(s, keep_if_changed(s, w)) == s.update(key_index(w.key) as int, w.value),
{
    lemma_key_index(w.key);
    if stored(s, w.key) == w.value {
        assert(s.update(key_index(w.key) as int, w.value) =~= s);
    } else {
        lemma_apply_one(s, w);
    }
}

/// After a user edit's writes are applied, the store holds under the edited
/// key the value the control stands for, and for a shape the corner radius
/// that the shape sets; every other key keeps its value.
pub proof fn lemma_edit_reaches_store(s: Seq<ValueView>, k: Key, input: ShownView)
    requires
        is_snapshot(s),
        entered_value(k, input) is Some,
    ensures
        ({
            let t = apply_writes(s, edit_writes(s, k, input));
            let shape = k == Key::Shape && input is Selected;
            &&& stored(t, k) == entered_value(k, input)->0
            &&& shape ==> stored(t, Key::CornerRadius) == ValueView::Int(
                shape_radius(input->Selected_0 as int),
            )
            &&& forall|j: Key|
                j != k && !(shape && j == Key::CornerRadius) ==> #[trigger] stored(t, j) == stored(s, j)
        }),
{
    let v = entered_value(k, input)->0;
    let w1 = WriteView { key: k, value: v };
    let first = keep_if_changed(s, w1);
    lemma_key_index(k);
    lemma_key_index(Key::CornerRadius);
    lemma_apply_kept(s, w1);
    let s1 = s.update(key_index(k) as int, v);
    if k == Key::Shape && input is Selected {
        let w2 = WriteView {
            key: Key::CornerRadius,
            value: ValueView::Int(shape_radius(input->Selected_0 as int)),
        };
        let second = keep_if_changed(s, w2);
        let ws = first + second;
        assert(edit_writes(s, k, input) == ws);
        if second.len() == 0 {
            assert(ws =~= first);
            assert(stored(s, Key::CornerRadius) == w2.value);
        } else {
            assert(ws.drop_last() =~= first);
            assert(ws.last() == w2);
        }
        let t = apply_writes(s, ws);
        assert forall|j: Key|
            j != k && !(j == Key::CornerRadius) implies #[trigger] stored(t, j) == stored(s, j) by {
            lemma_key_index(j);
        }
    } else {
        assert(edit_writes(s, k, input) == first);
        let t = apply_writes(s, first);
        assert forall|j: Key| j != k implies #[trigger] stored(t, j) == stored(s, j) by {
            lemma_key_index(j);
        }
    }
}

/// Each shape selection sets its fixed corner radius: circle 50, squircle 25,
/// square 0.
pub proof fn lemma_shape_sets_radius(s: Seq<ValueView>, i: usize)
    requires
        is_snapshot(s),
        i < 3,
    ensures
        ({
            let t = apply_writes(s, edit_writes(s, Key::Shape, ShownView::Selected(i)));
            &&& i == 0 ==> stored(t, Key::Shape) == ValueView::Text("circle"@) && stored(
                t,
                Key::CornerRadius,
            ) == ValueView::Int(50)
            &&& i == 1 ==> stored(t, Key::Shape) == ValueView::Text("squircle"@) && stored(
                t,
                Key::CornerRadius,
            ) == ValueView::Int(25)
            &&& i == 2 ==> stored(t, Key::Shape) == ValueView::Text("square"@) && stored(
                t,
                Key::CornerRadius,
            ) == ValueView::Int(0)
        }),
{
    lemma_edit_reaches_store(s, Key::Shape, ShownView::Selected(i));
}

/// A user edit never writes a value that its key may not hold.
pub proof fn lemma_edits_are_valid(s: Seq<ValueView>, k: Key, input: ShownView)
    requires
        is_snapshot(s),
    ensures
        forall|j: int|
            0 <= j < edit_writes(s, k, input).len() ==> is_valid(
                (#[trigger] edit_writes(s, k, input)[j]).key,
                edit_writes(s, k, input)[j].value,
            ),
{
    let ws = edit_writes(s, k, input);
    if let Some(v) = entered_value(k, input) {
        assert(is_valid(k, v)) by {
            if let ShownView::Rgba(c) = input {
                if domain(k) == Domain::ColorText {
                    lemma_read_alpha_canonical(c.alpha);
                    lemma_read_written(ColorView { alpha: alpha_or_default(c.alpha), ..c });
                }
            }
            if let ShownView::Selected(i) = input {
                if domain(k) == Domain::Choice {
                    if i < choices(k).len() {
                        assert(choices(k).contains(choices(k)[i as int]));
                    } else {
                        assert(choices(k).contains(choices(k)[0]));
                    }
                }
            }
        }
        if let ShownView::Selected(i) = input {
            assert(is_valid(Key::CornerRadius, ValueView::Int(shape_radius(i as int))));
        }
    }
}

} // verus!
