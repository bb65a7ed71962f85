//! The settings panel as data: the store snapshot it reads, what each control
//! shows, which controls are interactive, and the writes a user edit makes.
//!
//! Every key has one control: a switch for a flag, a spin button for a number,
//! a selector for a choice, a color button for a color.

use vstd::prelude::*;
use crate::color::{
    alpha_from_text, alpha_or_default, color_of, color_text, format_color, parse_color, Color,
    ColorView,
};
use crate::schema::{
    choice, choice_count, choices, domain, governor, key_at, key_index, lemma_key_index,
    shape_radius, shape_selection, Domain, Key, KEY_COUNT,
};
use crate::text::same_text;

verus! {

/// A value of the store. Doubles are held in hundredths.
#[derive(Clone, Debug, PartialEq, Eq)]
pub enum Value {
    Flag(bool),
    Int(i32),
    Hundredths(i32),
    Text(String),
}

pub enum ValueView {
    Flag(bool),
    Int(i32),
    Hundredths(i32),
    Text(Seq<char>),
}

impl View for Value {
    type V = ValueView;

    open spec fn view(&self) -> ValueView {
        match self {
            Value::Flag(b) => ValueView::Flag(*b),
            Value::Int(n) => ValueView::Int(*n),
            Value::Hundredths(n) => ValueView::Hundredths(*n),
            Value::Text(t) => ValueView::Text(t@),
        }
    }
}

/// One store write: `key` is set to `value`.
#[derive(Clone, Debug, PartialEq, Eq)]
pub struct Write {
    pub key: Key,
    pub value: Value,
}

pub struct WriteView {
    pub key: Key,
    pub value: ValueView,
}

impl View for Write {
    type V = WriteView;

    open spec fn view(&self) -> WriteView {
        WriteView { key: self.key, value: self.value@ }
    }
}

/// What a control shows.
#[derive(Clone, Debug, PartialEq, Eq)]
pub enum Shown {
    /// A switch, on or off.
    Active(bool),
    /// A spin button's value (hundredths for a double).
    Number(i32),
    /// A selector's entry.
    Selected(usize),
    /// A color button's color.
    Rgba(Color),
}

pub enum ShownView {
    Active(bool),
    Number(i32),
    Selected(usize),
    Rgba(ColorView),
}

impl View for Shown {
    type V = ShownView;

    open spec fn view(&self) -> ShownView {
        match self {
            Shown::Active(b) => ShownView::Active(*b),
            Shown::Number(n) => ShownView::Number(*n),
            Shown::Selected(i) => ShownView::Selected(*i),
            Shown::Rgba(c) => ShownView::Rgba(c@),
        }
    }
}

/// Whether `v` has the type of key `k`.
pub open spec fn fits(k: Key, v: ValueView) -> bool {
    match domain(k) {
        Domain::Flag => v is Flag,
        Domain::Int { .. } => v is Int,
        Domain::Hundredths { .. } => v is Hundredths,
        Domain::Choice => v is Text,
        Domain::ColorText => v is Text,
    }
}

/// Whether key `k` may hold `v`: a number in its range, one of its choices,
/// or a color as the encoder writes it.
pub open spec fn is_valid(k: Key, v: ValueView) -> bool {
    match (domain(k), v) {
        (Domain::Flag, ValueView::Flag(_)) => true,
        (Domain::Int { lo, hi }, ValueView::Int(n)) => lo <= n <= hi,
        (Domain::Hundredths { lo, hi }, ValueView::Hundredths(n)) => lo <= n <= hi,
        (Domain::Choice, ValueView::Text(t)) => choices(k).contains(t),
        (Domain::ColorText, ValueView::Text(t)) => color_text(color_of(t)) == t,
        _ => false,
    }
}

/// A whole store: one value per key, in schema order, each of its key's type.
pub open spec fn is_snapshot(s: Seq<ValueView>) -> bool {
    &&& s.len() == KEY_COUNT
    &&& forall|i: int| 0 <= i < KEY_COUNT ==> fits(key_at(i), #[trigger] s[i])
}

/// The value that the store `s` holds under `k`.
pub open spec fn stored(s: Seq<ValueView>, k: Key) -> ValueView {
    s[key_index(k) as int]
}

pub open spec fn clamp(n: i32, lo: i32, hi: i32) -> i32 {
    if n < lo {
        lo
    } else if n > hi {
        hi
    } else {
        n
    }
}

/// Place of `t` among `opts`, or their number when it is not one of them.
pub open spec fn position(opts: Seq<Seq<char>>, t: Seq<char>) -> nat
    decreases opts.len(),
{
    if opts.len() == 0 {
        0
    } else if opts[0] == t {
        0
    } else {
        1 + position(opts.drop_first(), t)
    }
}

/// The selector entry that shows stored text `t`: its place among the key's
/// choices, or the first entry when it is none of them.
pub open spec fn entry_of(k: Key, t: Seq<char>) -> usize {
    let p = position(choices(k), t);
    if p < choices(k).len() {
        p as usize
    } else {
        0
    }
}

/// What the control of `k` shows for the stored value `v`. A spin button
/// keeps its value within its range.
pub open spec fn display(k: Key, v: ValueView) -> ShownView {
    match v {
        ValueView::Flag(b) => ShownView::Active(b),
        ValueView::Int(n) => ShownView::Number(
            match domain(k) {
                Domain::Int { lo, hi } => clamp(n, lo, hi),
                _ => n,
            },
        ),
        ValueView::Hundredths(n) => ShownView::Number(
            match domain(k) {
                Domain::Hundredths { lo, hi } => clamp(n, lo, hi),
                _ => n,
            },
        ),
        ValueView::Text(t) => if domain(k) == Domain::ColorText {
            ShownView::Rgba(color_of(t))
        } else {
            ShownView::Selected(entry_of(k, t))
        },
    }
}

/// Whether the control of `k` is interactive in store `s`: always, or when
/// its governing key holds the enabling value.
pub open spec fn is_interactive(k: Key, s: Seq<ValueView>) -> bool {
    match governor(k) {
        Some((g, on)) => stored(s, g) == ValueView::Flag(on),
        None => true,
    }
}

/// The value that the control of `k` stands for when the user leaves it
/// showing `input`. Numbers are brought into the key's range. A selector
/// entry past the list stands for the first choice, but for the magnifier key,
/// which is then left as it is.
pub open spec fn entered_value(k: Key, input: ShownView) -> Option<ValueView> {
    match (domain(k), input) {
        (Domain::Flag, ShownView::Active(b)) => Some(ValueView::Flag(b)),
        (Domain::Int { lo, hi }, ShownView::Number(n)) => Some(ValueView::Int(clamp(n, lo, hi))),
        (Domain::Hundredths { lo, hi }, ShownView::Number(n)) => Some(
            ValueView::Hundredths(clamp(n, lo, hi)),
        ),
        (Domain::Choice, ShownView::Selected(i)) => if i < choices(k).len() {
            Some(ValueView::Text(choices(k)[i as int]))
        } else if k == Key::MagnifierKey {
            None
        } else {
            Some(ValueView::Text(choices(k)[0]))
        },
        (Domain::ColorText, ShownView::Rgba(c)) => Some(
            ValueView::Text(color_text(ColorView { alpha: alpha_or_default(c.alpha), ..c })),
        ),
        _ => None,
    }
}

/// `w`, unless the store already holds its value.
pub open spec fn keep_if_changed(s: Seq<ValueView>, w: WriteView) -> Seq<WriteView> {
    if stored(s, w.key) == w.value {
        Seq::empty()
    } else {
        seq![w]
    }
}

/// The writes that a user edit of the control of `k` to `input` makes on
/// store `s`. Selecting a shape also sets the corner radius it stands for.
/// A value that the store already holds is not written again.
pub open spec fn edit_writes(s: Seq<ValueView>, k: Key, input: ShownView) -> Seq<WriteView> {
    match entered_value(k, input) {
        None => Seq::empty(),
        Some(v) => {
            let first = keep_if_changed(s, WriteView { key: k, value: v });
            match input {
                ShownView::Selected(i) => if k == Key::Shape {
                    first + keep_if_changed(
                        s,
                        WriteView { key: Key::CornerRadius, value: ValueView::Int(shape_radius(i as int)) },
                    )
                } else {
                    first
                },
                _ => first,
            }
        },
    }
}

/// The store after `ws`, applied in order.
pub open spec fn apply_writes(s: Seq<ValueView>, ws: Seq<WriteView>) -> Seq<ValueView>
    decreases ws.len(),
{
    if ws.len() == 0 {
        s
    } else {
        apply_writes(s, ws.drop_last()).update(key_index(ws.last().key) as int, ws.last().value)
    }
}

pub fn same_value(a: &Value, b: &Value) -> (r: bool)
    ensures
        r == (a@ == b@),
{
    match (a, b) {
        (Value::Flag(x), Value::Flag(y)) => *x == *y,
        (Value::Int(x), Value::Int(y)) => *x == *y,
        (Value::Hundredths(x), Value::Hundredths(y)) => *x == *y,
        (Value::Text(x), Value::Text(y)) => same_text(x.as_str(), y.as_str()),
        _ => false,
    }
}

fn clamp_to(n: i32, lo: i32, hi: i32) -> (r: i32)
    ensures
        r == clamp(n, lo, hi),
{
    if n < lo {
        lo
    } else if n > hi {
        hi
    } else {
        n
    }
}

proof fn lemma_position(opts: Seq<Seq<char>>, t: Seq<char>, i: int)
    requires
        0 <= i <= opts.len(),
        forall|j: int| 0 <= j < i ==> opts[j] != t,
        i < opts.len() ==> opts[i] == t,
    ensures
        position(opts, t) == i,
    decreases opts.len(),
{
    if i > 0 {
        assert forall|j: int| 0 <= j < i - 1 implies opts.drop_first()[j] != t by {
            assert(opts.drop_first()[j] == opts[j + 1]);
        }
        assert(opts[0] != t);
        lemma_position(opts.drop_first(), t, i - 1);
    }
}

/// The selector entry that shows stored text `t` for choice key `k`.
pub fn entry_index(k: Key, t: &str) -> (r: usize)
    ensures
        r == entry_of(k, t@),
{
    let n = choice_count(k);
    let mut i: usize = 0;
    while i < n
        invariant
            n == choices(k).len(),
            i <= n,
            forall|j: int| 0 <= j < i ==> choices(k)[j] != t@,
        decreases n - i,
    {
        if let Some(x) = choice(k, i) {
            if same_text(x, t) {
                proof {
                    lemma_position(choices(k), t@, i as int);
                }
                return i;
            }
        }
        i += 1;
    }
    proof {
        lemma_position(choices(k), t@, n as int);
    }
    0
}

/// What the control of `k` shows for the stored value `v`.
pub fn display_value(k: Key, v: &Value) -> (r: Shown)
    ensures
        r@ == display(k, v@),
{
    match v {
        Value::Flag(b) => Shown::Active(*b),
        Value::Int(n) => Shown::Number(
            match k.domain() {
                Domain::Int { lo, hi } => clamp_to(*n, lo, hi),
                _ => *n,
            },
        ),
        Value::Hundredths(n) => Shown::Number(
            match k.domain() {
                Domain::Hundredths { lo, hi } => clamp_to(*n, lo, hi),
                _ => *n,
            },
        ),
        Value::Text(t) => if k.domain() == Domain::ColorText {
            Shown::Rgba(parse_color(t.as_str()))
        } else {
            Shown::Selected(entry_index(k, t.as_str()))
        },
    }
}


/// A snapshot of the configuration store: one value per key, in schema order.
#[derive(Clone, Debug)]
pub struct Settings {
    values: Vec<Value>,
}

impl View for Settings {
    type V = Seq<ValueView>;

    closed spec fn view(&self) -> Seq<ValueView> {
        self.values@.map_values(|v: Value| v@)
    }
}

impl Settings {
    /// A snapshot from one value per key, in schema order; none when a value is
    /// missing, left over, or not of its key's type.
    pub fn from_values(values: Vec<Value>) -> (r: Option<Settings>)
        ensures
            r is Some <==> is_snapshot(values@.map_values(|v: Value| v@)),
            r matches Some(st) ==> st@ == values@.map_values(|v: Value| v@),
    {
        let ghost view = values@.map_values(|v: Value| v@);
        if values.len() != KEY_COUNT {
            return None;
        }
        let mut i: usize = 0;
        while i < KEY_COUNT
            invariant
                values@.len() == KEY_COUNT,
                view == values@.map_values(|v: Value| v@),
                i <= KEY_COUNT,
                forall|j: int| 0 <= j < i ==> fits(key_at(j), #[trigger] view[j]),
            decreases KEY_COUNT - i,
        {
            let k = Key::at(i);
            let ok = match (k.domain(), &values[i]) {
                (Domain::Flag, Value::Flag(_)) => true,
                (Domain::Int { .. }, Value::Int(_)) => true,
                (Domain::Hundredths { .. }, Value::Hundredths(_)) => true,
                (Domain::Choice, Value::Text(_)) => true,
                (Domain::ColorText, Value::Text(_)) => true,
                _ => false,
            };
            if !ok {
                assert(!fits(key_at(i as int), view[i as int]));
                return None;
            }
            i += 1;
        }
        Some(Settings { values })
    }

    /// The value stored under `k`.
    pub fn get(&self, k: Key) -> (r: &Value)
        requires
            is_snapshot(self@),
        ensures
            r@ == stored(self@, k),
    {
        proof {
            lemma_key_index(k);
        }
        &self.values[k.index()]
    }

    /// Stores `v` under `k`.
    pub fn set(&mut self, k: Key, v: Value)
        requires
            is_snapshot(old(self)@),
            fits(k, v@),
        ensures
            final(self)@ == old(self)@.update(key_index(k) as int, v@),
            is_snapshot(final(self)@),
    {
        proof {
            lemma_key_index(k);
        }
        let i = k.index();
        self.values[i] = v;
        assert(self@ =~= old(self)@.update(key_index(k) as int, v@));
    }

    /// Applies `writes` in order.
    pub fn apply(&mut self, writes: &Vec<Write>)
        requires
            is_snapshot(old(self)@),
            forall|j: int| 0 <= j < writes@.len() ==> fits(#[trigger] writes@[j].key, writes@[j]@.value),
        ensures
            final(self)@ == apply_writes(old(self)@, writes@.map_values(|w: Write| w@)),
            is_snapshot(final(self)@),
    {
        let ghost ws = writes@.map_values(|w: Write| w@);
        let ghost start = self@;
        let mut i: usize = 0;
        while i < writes.len()
            invariant
                ws == writes@.map_values(|w: Write| w@),
                i <= ws.len(),
                forall|j: int| 0 <= j < writes@.len() ==> fits(#[trigger] writes@[j].key, writes@[j]@.value),
                is_snapshot(self@),
                self@ == apply_writes(start, ws.take(i as int)),
            decreases ws.len() - i,
        {
            let w = &writes[i];
            self.set(w.key, copy_value(&w.value));
            assert(ws.take(i + 1).drop_last() =~= ws.take(i as int));
            i += 1;
        }
        assert(ws.take(ws.len() as int) =~= ws);
    }
}

/// A copy of `v`.
pub fn copy_value(v: &Value) -> (r: Value)
    ensures
        r@ == v@,
{
    match v {
        Value::Flag(b) => Value::Flag(*b),
        Value::Int(n) => Value::Int(*n),
        Value::Hundredths(n) => Value::Hundredths(*n),
        Value::Text(t) => Value::Text(t.clone()),
    }
}

/// Whether the control of `k` is interactive in store `s`.
pub fn interactive_in(k: Key, s: &Settings) -> (r: bool)
    requires
        is_snapshot(s@),
    ensures
        r == is_interactive(k, s@),
{
    match k.governor() {
        Some((g, on)) => match s.get(g) {
            Value::Flag(b) => *b == on,
            _ => false,
        },
        None => true,
    }
}

/// The writes that a user edit of the control of `k` to `input` makes on
/// store `s`: the value the control stands for, and for a shape the corner
/// radius it implies, each unless the store already holds it.
pub fn edit(s: &Settings, k: Key, input: &Shown) -> (r: Vec<Write>)
    requires
        is_snapshot(s@),
    ensures
        r@.map_values(|w: Write| w@) == edit_writes(s@, k, input@),
{
    let entered: Option<Value> = match (k.domain(), input) {
        (Domain::Flag, Shown::Active(b)) => Some(Value::Flag(*b)),
        (Domain::Int { lo, hi }, Shown::Number(n)) => Some(Value::Int(clamp_to(*n, lo, hi))),
        (Domain::Hundredths { lo, hi }, Shown::Number(n)) => Some(
            Value::Hundredths(clamp_to(*n, lo, hi)),
        ),
        (Domain::Choice, Shown::Selected(i)) => match choice(k, *i) {
            Some(x) => Some(Value::Text(String::from_str(x))),
            None => if k == Key::MagnifierKey {
                None
            } else {
                match choice(k, 0) {
                    Some(x) => Some(Value::Text(String::from_str(x))),
                    None => None,
                }
            },
        },
        (Domain::ColorText, Shown::Rgba(c)) => {
            let alpha = match alpha_from_text(c.alpha.as_str()) {
                Some(a) => a,
                None => Color::fallback().alpha,
            };
            Some(Value::Text(format_color(&Color { red: c.red, green: c.green, blue: c.blue, alpha })))
        },
        _ => None,
    };
    assert(entered_value(k, input@) == match entered {
        Some(v) => Some(v@),
        None => None::<ValueView>,
    }) by {
        if domain(k) == Domain::Choice {
            assert(choices(k).len() > 0);
        }
    }
    let mut r: Vec<Write> = Vec::new();
    match entered {
        None => {},
        Some(v) => {
            let unchanged = same_value(s.get(k), &v);
            if !unchanged {
                r.push(Write { key: k, value: v });
            }
            if k == Key::Shape {
                if let Shown::Selected(i) = input {
                    let (_, radius) = shape_selection(*i);
                    let rv = Value::Int(radius);
                    if !same_value(s.get(Key::CornerRadius), &rv) {
                        r.push(Write { key: Key::CornerRadius, value: rv });
                    }
                }
            }
        },
    }
    assert(r@.map_values(|w: Write| w@) =~= edit_writes(s@, k, input@));
    r
}


/// What every control shows and whether it is interactive, in schema order.
#[derive(Clone, Debug)]
pub struct Panel {
    shown: Vec<Shown>,
    interactive: Vec<bool>,
}

pub struct PanelView {
    pub shown: Seq<ShownView>,
    pub interactive: Seq<bool>,
}

impl View for Panel {
    type V = PanelView;

    closed spec fn view(&self) -> PanelView {
        PanelView { shown: self.shown@.map_values(|x: Shown| x@), interactive: self.interactive@ }
    }
}

/// The panel `p` is in step with store `s`: each control shows its key's
/// stored value and is interactive exactly when its governor allows.
pub open spec fn shows(p: PanelView, s: Seq<ValueView>) -> bool {
    &&& p.shown.len() == KEY_COUNT
    &&& p.interactive.len() == KEY_COUNT
    &&& forall|i: int| 0 <= i < KEY_COUNT ==> #[trigger] p.shown[i] == display(key_at(i), s[i])
    &&& forall|i: int|
        0 <= i < KEY_COUNT ==> #[trigger] p.interactive[i] == is_interactive(key_at(i), s)
}

/// The panel `p` after the store, now `s`, reported a change under `k`: the
/// control of `k` shows the new value and the controls that `k` governs are
/// re-evaluated; nothing else changes.
pub open spec fn refreshed(p: PanelView, s: Seq<ValueView>, k: Key) -> PanelView {
    PanelView {
        shown: p.shown.update(key_index(k) as int, display(k, stored(s, k))),
        interactive: Seq::new(
            p.interactive.len(),
            |i: int|
                match governor(key_at(i)) {
                    Some((g, _)) => if g == k {
                        is_interactive(key_at(i), s)
                    } else {
                        p.interactive[i]
                    },
                    None => p.interactive[i],
                },
        ),
    }
}

impl Panel {
    /// The panel on opening against store `s`: every control shows its
    /// stored value, and every dependent control starts interactive or not as
    /// its governor says. Nothing is written.
    pub fn load(s: &Settings) -> (r: Panel)
        requires
            is_snapshot(s@),
        ensures
            shows(r@, s@),
    {
        let mut shown: Vec<Shown> = Vec::new();
        let mut interactive: Vec<bool> = Vec::new();
        let mut i: usize = 0;
        while i < KEY_COUNT
            invariant
                is_snapshot(s@),
                i <= KEY_COUNT,
                shown@.len() == i,
                interactive@.len() == i,
                forall|j: int| 0 <= j < i ==> (#[trigger] shown@[j])@ == display(key_at(j), s@[j]),
                forall|j: int|
                    0 <= j < i ==> #[trigger] interactive@[j] == is_interactive(key_at(j), s@),
            decreases KEY_COUNT - i,
        {
            let k = Key::at(i);
            shown.push(display_value(k, s.get(k)));
            interactive.push(interactive_in(k, s));
            i += 1;
        }
        let r = Panel { shown, interactive };
        assert forall|j: int| 0 <= j < KEY_COUNT implies #[trigger] r@.shown[j] == display(
            key_at(j),
            s@[j],
        ) by {
            assert(r@.shown[j] == shown@[j]@);
        }
        r
    }

    /// What the control of `k` shows.
    pub fn shown(&self, k: Key) -> (r: &Shown)
        requires
            self@.shown.len() == KEY_COUNT,
        ensures
            r@ == self@.shown[key_index(k) as int],
    {
        proof {
            lemma_key_index(k);
        }
        &self.shown[k.index()]
    }

    /// Whether the control of `k` is interactive.
    pub fn is_interactive(&self, k: Key) -> (r: bool)
        requires
            self@.interactive.len() == KEY_COUNT,
        ensures
            r == self@.interactive[key_index(k) as int],
    {
        proof {
            lemma_key_index(k);
        }
        self.interactive[k.index()]
    }

    /// Takes in a change that the store, now `s`, reported under `k`.
    pub fn refresh(&mut self, s: &Settings, k: Key)
        requires
            is_snapshot(s@),
            old(self)@.shown.len() == KEY_COUNT,
            old(self)@.interactive.len() == KEY_COUNT,
        ensures
            final(self)@ == refreshed(old(self)@, s@, k),
    {
        proof {
            lemma_key_index(k);
        }
        let ghost before = self@;
        let shown = display_value(k, s.get(k));
        self.shown[k.index()] = shown;
        assert(self@.shown =~= before.shown.update(key_index(k) as int, display(k, stored(s@, k))));
        let mut i: usize = 0;
        while i < KEY_COUNT
            invariant
                is_snapshot(s@),
                i <= KEY_COUNT,
                self@.shown == refreshed(before, s@, k).shown,
                self@.interactive.len() == KEY_COUNT,
                before.interactive.len() == KEY_COUNT,
                forall|j: int|
                    0 <= j < i ==> #[trigger] self@.interactive[j] == refreshed(
                        before,
                        s@,
                        k,
                    ).interactive[j],
                forall|j: int| i <= j < KEY_COUNT ==> #[trigger] self@.interactive[j] == before.interactive[j],
            decreases KEY_COUNT - i,
        {
            let d = Key::at(i);
            if let Some((g, _)) = d.governor() {
                if g == k {
                    let on = interactive_in(d, s);
                    let ghost mid = self@;
                    self.interactive[i] = on;
                    assert(self@.shown == mid.shown);
                }
            }
            i += 1;
        }
        assert(self@.interactive =~= refreshed(before, s@, k).interactive);
    }
}

} // verus!
