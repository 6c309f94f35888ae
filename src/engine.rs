//! The form display state machine: one step per input event.
use vstd::prelude::*;

use crate::codec::{serialize, serialized};
use crate::element::{
    element_views, swap_options, swapped, values_of, views, Element, ElementOption, ElementView,
    OptionView,
};
use crate::form::{
    Form, HotKey, UserInput, BROWSER_ACTION_FORM_EXIT, BROWSER_ACTION_NONE, FRONT_PAGE_FORM_ID,
};
use crate::key::{key_of, Key, TextInputKey};
use crate::value::Value;
use crate::walker::{flatten, flattened, is_initial_selection};

verus! {

/// What wakes the engine up.
#[derive(Clone, Copy, Debug, PartialEq, Eq, Structural)]
pub enum Event {
    /// The configuration engine signalled its refresh event.
    Driver,
    /// A key was pressed.
    Key(TextInputKey),
}

/// How a form invocation ends.
pub enum Decision {
    /// Nothing chosen: the caller polls again.
    Refresh,
    /// The user left the form.
    Exit,
    /// A hot key was pressed.
    HotKey { action: u32, default_id: u16 },
    /// The user finalized a statement, with its value and, for an ordered
    /// list, the new contents of its buffer.
    Select { statement: usize, value: Value, buffer: Option<Vec<u8>> },
}

/// What a [`Decision`] holds, as plain values.
pub enum DecisionView {
    Refresh,
    Exit,
    HotKey { action: u32, default_id: u16 },
    Select { statement: nat, value: Value, buffer: Option<Seq<u8>> },
}

impl View for Decision {
    type V = DecisionView;

    open spec fn view(&self) -> DecisionView {
        match self {
            Decision::Refresh => DecisionView::Refresh,
            Decision::Exit => DecisionView::Exit,
            Decision::HotKey { action, default_id } => DecisionView::HotKey {
                action: *action,
                default_id: *default_id,
            },
            Decision::Select { statement, value, buffer } => DecisionView::Select {
                statement: *statement as nat,
                value: *value,
                buffer: match buffer {
                    Some(b) => Some(b@),
                    None => None,
                },
            },
        }
    }
}

/// The engine's state, as plain values.
pub struct EngineView {
    pub elements: Seq<ElementView>,
    pub selected: Option<nat>,
    pub editing: bool,
    pub element_start: nat,
    /// Value of the edited element when editing began.
    pub saved_value: Value,
    /// Options of the edited element when editing began.
    pub saved_options: Seq<OptionView>,
}

impl EngineView {
    /// The selection names a selectable element, or there is none to name;
    /// editing happens only on an editable selected element.
    pub open spec fn wf(self) -> bool {
        &&& match self.selected {
            Some(i) => i < self.elements.len() && self.elements[i as int].selectable,
            None => forall|k: int| 0 <= k < self.elements.len() ==> !(#[trigger] self.elements[k]).selectable,
        }
        &&& self.editing ==> (self.selected matches Some(i) && self.elements[i as int].editable)
    }

    pub open spec fn with_element(self, i: nat, e: ElementView) -> EngineView {
        EngineView { elements: self.elements.update(i as int, e), ..self }
    }
}

/// The first selectable element at or after `u`.
pub open spec fn first_selectable_from(es: Seq<ElementView>, u: int) -> Option<nat>
    decreases es.len() - u,
{
    if u < 0 || u >= es.len() {
        None
    } else if es[u].selectable {
        Some(u as nat)
    } else {
        first_selectable_from(es, u + 1)
    }
}

/// The last selectable element before `u`.
pub open spec fn last_selectable_before(es: Seq<ElementView>, u: int) -> Option<nat>
    decreases u,
{
    if u <= 0 || u > es.len() {
        None
    } else if es[u - 1].selectable {
        Some((u - 1) as nat)
    } else {
        last_selectable_before(es, u - 1)
    }
}

/// Where Down moves the selection from `s`: the next selectable element,
/// wrapping around to the first one.
pub open spec fn next_down(es: Seq<ElementView>, s: nat) -> nat {
    match first_selectable_from(es, s + 1int) {
        Some(t) => t,
        None => match first_selectable_from(es, 0) {
            Some(t) => t,
            None => s,
        },
    }
}

/// Where Up moves the selection from `s`: the previous selectable element,
/// wrapping around to the last one.
pub open spec fn next_up(es: Seq<ElementView>, s: nat) -> nat {
    match last_selectable_before(es, s as int) {
        Some(t) => t,
        None => match last_selectable_before(es, es.len() as int) {
            Some(t) => t,
            None => s,
        },
    }
}

/// The top of the scroll window after the selection moved to `sel`: moved
/// only as far as needed to show `sel` in a window of `window` rows.
pub open spec fn scrolled(start: nat, sel: nat, window: nat) -> nat {
    if sel < start {
        sel
    } else if window > 0 && sel >= start + window {
        (sel + 1 - window) as nat
    } else {
        start
    }
}

/// Position of the first option holding value `v`.
pub open spec fn position_of(opts: Seq<OptionView>, v: Value, from: int) -> Option<nat>
    decreases opts.len() - from,
{
    if from < 0 || from >= opts.len() {
        None
    } else if opts[from].value == v {
        Some(from as nat)
    } else {
        position_of(opts, v, from + 1)
    }
}

/// The element after Down while it is edited.
pub open spec fn edit_down(e: ElementView) -> ElementView {
    let n = e.options.len();
    if e.list {
        ElementView { list_i: if e.list_i + 1 < n { e.list_i + 1 } else { 0 }, ..e }
    } else {
        match position_of(e.options, e.value, 0) {
            Some(i) => ElementView {
                value: e.options[if i + 1 < n { i + 1int } else { 0int }].value,
                ..e
            },
            None => e,
        }
    }
}

/// The element after Up while it is edited.
pub open spec fn edit_up(e: ElementView) -> ElementView {
    let n = e.options.len();
    if e.list {
        ElementView {
            list_i: if e.list_i > 0 { (e.list_i - 1) as nat } else if n > 0 { (n - 1) as nat } else { e.list_i },
            ..e
        }
    } else {
        match position_of(e.options, e.value, 0) {
            Some(i) => ElementView {
                value: e.options[if i > 0 { i - 1int } else { n - 1int }].value,
                ..e
            },
            None => e,
        }
    }
}

/// The element after PageDown while it is edited: the option under the cursor
/// moves one place down, and the cursor with it.
pub open spec fn move_down(e: ElementView) -> ElementView {
    if e.list && e.list_i + 1 < e.options.len() {
        ElementView {
            options: swapped(e.options, e.list_i as int, e.list_i + 1int),
            list_i: e.list_i + 1,
            ..e
        }
    } else {
        e
    }
}

/// The element after PageUp while it is edited: the option under the cursor
/// moves one place up, and the cursor with it.
pub open spec fn move_up(e: ElementView) -> ElementView {
    if e.list && e.list_i > 0 && e.list_i < e.options.len() {
        ElementView {
            options: swapped(e.options, e.list_i - 1, e.list_i as int),
            list_i: (e.list_i - 1) as nat,
            ..e
        }
    } else {
        e
    }
}

/// The first hot key bound to the keystroke.
pub open spec fn hot_key_for(hks: Seq<HotKey>, raw: TextInputKey, from: int) -> Option<nat>
    decreases hks.len() - from,
{
    if from < 0 || from >= hks.len() {
        None
    } else if hks[from].key_data == raw {
        Some(from as nat)
    } else {
        hot_key_for(hks, raw, from + 1)
    }
}

/// Enter: toggle a checkbox and finish, begin editing, or finish with the
/// selected statement and the value being shown.
pub open spec fn enter_step(s: EngineView) -> (EngineView, Option<DecisionView>) {
    match s.selected {
        None => (s, None),
        Some(i) => {
            let e = s.elements[i as int];
            if e.checkbox {
                match e.value {
                    Value::Bool(b) => (s, Some(DecisionView::Select {
                        statement: e.statement,
                        value: Value::Bool(!b),
                        buffer: None,
                    })),
                    _ => (s, None),
                }
            } else if e.editable && !s.editing {
                (EngineView { editing: true, saved_value: e.value, saved_options: e.options, ..s }, None)
            } else {
                (EngineView { editing: false, ..s }, Some(DecisionView::Select {
                    statement: e.statement,
                    value: e.value,
                    buffer: if s.editing && e.list {
                        match e.buffer_len {
                            Some(n) => Some(serialized(values_of(e.options), n)),
                            None => None,
                        }
                    } else {
                        None
                    },
                }))
            }
        },
    }
}

/// Escape while editing: the edited element gets back what it held when
/// editing began, and browsing resumes on it.
pub open spec fn discard_step(s: EngineView) -> EngineView {
    match s.selected {
        Some(i) => EngineView {
            editing: false,
            ..s.with_element(i, ElementView {
                value: s.saved_value,
                options: s.saved_options,
                list_i: 0,
                ..s.elements[i as int]
            })
        },
        None => EngineView { editing: false, ..s },
    }
}

/// Down or Up while browsing.
pub open spec fn browse_step(s: EngineView, down: bool, window: nat) -> EngineView {
    match s.selected {
        Some(i) => {
            let t = if down { next_down(s.elements, i) } else { next_up(s.elements, i) };
            EngineView { selected: Some(t), element_start: scrolled(s.element_start, t, window), ..s }
        },
        None => s,
    }
}

/// The edited element after a navigation key.
pub open spec fn edited(e: ElementView, k: Key) -> ElementView {
    match k {
        Key::Down => edit_down(e),
        Key::Up => edit_up(e),
        Key::PageDown => move_down(e),
        Key::PageUp => move_up(e),
        _ => e,
    }
}

/// A navigation key applied to the edited element.
pub open spec fn edit_step(s: EngineView, k: Key) -> EngineView {
    match s.selected {
        Some(i) => s.with_element(i, edited(s.elements[i as int], k)),
        None => s,
    }
}

/// The effect of one decoded key.
pub open spec fn key_step(s: EngineView, form_id: u16, k: Key, window: nat) -> (EngineView, Option<DecisionView>) {
    match k {
        Key::Enter => enter_step(s),
        Key::Escape => if s.editing {
            (discard_step(s), None)
        } else if form_id != FRONT_PAGE_FORM_ID {
            (s, Some(DecisionView::Exit))
        } else {
            (s, None)
        },
        Key::Down => if s.editing {
            (edit_step(s, Key::Down), None)
        } else {
            (browse_step(s, true, window), None)
        },
        Key::Up => if s.editing {
            (edit_step(s, Key::Up), None)
        } else {
            (browse_step(s, false, window), None)
        },
        Key::PageDown => if s.editing {
            (edit_step(s, Key::PageDown), None)
        } else {
            (s, None)
        },
        Key::PageUp => if s.editing {
            (edit_step(s, Key::PageUp), None)
        } else {
            (s, None)
        },
        _ => (s, None),
    }
}

/// The effect of one event: the next state, and how the invocation ends if
/// it does.
pub open spec fn step(s: EngineView, form_id: u16, hks: Seq<HotKey>, ev: Event, window: nat) -> (EngineView, Option<DecisionView>) {
    match ev {
        Event::Driver => (s, Some(DecisionView::Refresh)),
        Event::Key(raw) => match hot_key_for(hks, raw, 0) {
            Some(h) if !s.editing => (s, Some(DecisionView::HotKey {
                action: hks[h as int].action,
                default_id: hks[h as int].default_id,
            })),
            _ => key_step(s, form_id, key_of(raw), window),
        },
    }
}

/// The view of an optional decision.
pub open spec fn decision_view(d: Option<Decision>) -> Option<DecisionView> {
    match d {
        Some(d) => Some(d@),
        None => None,
    }
}

/// The navigation and edit state of one form invocation.
pub struct Engine {
    elements: Vec<Element>,
    selected: Option<usize>,
    editing: bool,
    element_start: usize,
    saved_value: Value,
    saved_options: Vec<ElementOption>,
}

impl View for Engine {
    type V = EngineView;

    closed spec fn view(&self) -> EngineView {
        EngineView {
            elements: element_views(self.elements@),
            selected: match self.selected {
                Some(i) => Some(i as nat),
                None => None,
            },
            editing: self.editing,
            element_start: self.element_start as nat,
            saved_value: self.saved_value,
            saved_options: views(self.saved_options@),
        }
    }
}

fn first_selectable_exec(es: &Vec<Element>, u: usize) -> (r: Option<usize>)
    ensures
        r matches Some(t) ==> first_selectable_from(element_views(es@), u as int) == Some(t as nat),
        r is None ==> first_selectable_from(element_views(es@), u as int) is None,
{
    let ghost vs = element_views(es@);
    let mut j: usize = u;
    while j < es.len()
        invariant
            u <= j,
            vs == element_views(es@),
            first_selectable_from(vs, u as int) == first_selectable_from(vs, j as int),
        decreases es@.len() - j,
    {
        assert(vs[j as int] == es@[j as int]@);
        if es[j].selectable {
            return Some(j);
        }
        j = j + 1;
    }
    None
}

fn last_selectable_exec(es: &Vec<Element>, u: usize) -> (r: Option<usize>)
    requires
        u <= es@.len(),
    ensures
        r matches Some(t) ==> last_selectable_before(element_views(es@), u as int) == Some(t as nat),
        r is None ==> last_selectable_before(element_views(es@), u as int) is None,
{
    let ghost vs = element_views(es@);
    let mut j: usize = u;
    while j > 0
        invariant
            j <= u <= es@.len(),
            vs == element_views(es@),
            last_selectable_before(vs, u as int) == last_selectable_before(vs, j as int),
        decreases j,
    {
        assert(vs[j - 1] == es@[j - 1]@);
        if es[j - 1].selectable {
            return Some(j - 1);
        }
        j = j - 1;
    }
    None
}

fn position_exec(opts: &Vec<ElementOption>, v: Value) -> (r: Option<usize>)
    ensures
        r matches Some(i) ==> position_of(views(opts@), v, 0) == Some(i as nat),
        r is None ==> position_of(views(opts@), v, 0) is None,
{
    let ghost vs = views(opts@);
    let mut j: usize = 0;
    while j < opts.len()
        invariant
            vs == views(opts@),
            position_of(vs, v, 0) == position_of(vs, v, j as int),
        decreases opts@.len() - j,
    {
        assert(vs[j as int] == opts@[j as int]@);
        if opts[j].value == v {
            return Some(j);
        }
        j = j + 1;
    }
    None
}

fn hot_key_exec(form: &Form, raw: TextInputKey) -> (r: Option<usize>)
    ensures
        r matches Some(h) ==> h < form.hot_keys@.len(),
        r matches Some(h) ==> hot_key_for(form.hot_keys@, raw, 0) == Some(h as nat),
        r is None ==> hot_key_for(form.hot_keys@, raw, 0) is None,
{
    let mut j: usize = 0;
    while j < form.hot_keys.len()
        invariant
            hot_key_for(form.hot_keys@, raw, 0) == hot_key_for(form.hot_keys@, raw, j as int),
        decreases form.hot_keys@.len() - j,
    {
        if form.hot_keys.get(j).key_data == raw {
            return Some(j);
        }
        j = j + 1;
    }
    None
}

proof fn lemma_first_selectable(es: Seq<ElementView>, u: int)
    ensures
        first_selectable_from(es, u) matches Some(t) ==> u <= t < es.len() && es[t as int].selectable,
    decreases es.len() - u,
{
    if 0 <= u < es.len() && !es[u].selectable {
        lemma_first_selectable(es, u + 1);
    }
}

proof fn lemma_last_selectable(es: Seq<ElementView>, u: int)
    ensures
        last_selectable_before(es, u) matches Some(t) ==> t < u && es[t as int].selectable,
    decreases u,
{
    if 0 < u <= es.len() && !es[u - 1].selectable {
        lemma_last_selectable(es, u - 1);
    }
}

fn scrolled_exec(start: usize, sel: usize, window: usize) -> (r: usize)
    ensures
        r == scrolled(start as nat, sel as nat, window as nat),
{
    if sel < start {
        sel
    } else if window > 0 && sel - start >= window {
        sel - (window - 1)
    } else {
        start
    }
}

pub proof fn lemma_position_in_bounds(opts: Seq<OptionView>, v: Value, from: int)
    ensures
        position_of(opts, v, from) matches Some(i) ==> from <= i < opts.len() && opts[i as int].value == v,
    decreases opts.len() - from,
{
    if 0 <= from < opts.len() && opts[from].value != v {
        lemma_position_in_bounds(opts, v, from + 1);
    }
}

fn clone_options(opts: &Vec<ElementOption>) -> (r: Vec<ElementOption>)
    ensures
        views(r@) == views(opts@),
{
    let mut out: Vec<ElementOption> = Vec::new();
    let mut j: usize = 0;
    while j < opts.len()
        invariant
            j <= opts@.len(),
            views(out@) =~= views(opts@).take(j as int),
        decreases opts@.len() - j,
    {
        let o = &opts[j];
        let ghost prev = out@;
        out.push(ElementOption { value: o.value, prompt: o.prompt.clone() });
        assert(out@.last()@ == opts@[j as int]@);
        assert(views(out@) =~= views(prev).push(out@.last()@));
        assert(views(out@) =~= views(opts@).take(j + 1));
        j = j + 1;
    }
    assert(views(opts@).take(j as int) =~= views(opts@));
    out
}

/// Down on an edited element.
fn element_down(e: &mut Element)
    ensures
        final(e)@ == edit_down(old(e)@),
{
    let n = e.options.len();
    if e.list {
        if n > 0 && e.list_i < n - 1 {
            e.list_i = e.list_i + 1;
        } else {
            e.list_i = 0;
        }
    } else {
        match position_exec(&e.options, e.value) {
            Some(i) => {
                proof {
                    lemma_position_in_bounds(views(e.options@), e.value, 0);
                }
                let k = if i + 1 < n { i + 1 } else { 0 };
                assert(views(e.options@)[k as int] == e.options@[k as int]@);
                e.value = e.options[k].value;
            },
            None => {},
        }
    }
}

/// Up on an edited element.
fn element_up(e: &mut Element)
    ensures
        final(e)@ == edit_up(old(e)@),
{
    let n = e.options.len();
    if e.list {
        if e.list_i > 0 {
            e.list_i = e.list_i - 1;
        } else if n > 0 {
            e.list_i = n - 1;
        }
    } else {
        match position_exec(&e.options, e.value) {
            Some(i) => {
                proof {
                    lemma_position_in_bounds(views(e.options@), e.value, 0);
                }
                let k = if i > 0 { i - 1 } else { n - 1 };
                assert(views(e.options@)[k as int] == e.options@[k as int]@);
                e.value = e.options[k].value;
            },
            None => {},
        }
    }
}

/// PageDown on an edited element.
fn element_move_down(e: &mut Element)
    ensures
        final(e)@ == move_down(old(e)@),
{
    if e.list && e.options.len() > 0 && e.list_i < e.options.len() - 1 {
        swap_options(&mut e.options, e.list_i, e.list_i + 1);
        e.list_i = e.list_i + 1;
    }
}

/// PageUp on an edited element.
fn element_move_up(e: &mut Element)
    ensures
        final(e)@ == move_up(old(e)@),
{
    if e.list && e.list_i > 0 && e.list_i < e.options.len() {
        swap_options(&mut e.options, e.list_i - 1, e.list_i);
        e.list_i = e.list_i - 1;
    }
}

impl Engine {
    /// The state a form invocation starts in: the form's elements, the
    /// initial selection, browsing, scrolled to the top.
    pub fn new(form: &Form) -> (r: Engine)
        ensures
            r@.wf(),
            r@.elements == flattened(form.statements@),
            is_initial_selection(r@.elements, form.highlighted, match r@.selected {
                Some(i) => Some(i as usize),
                None => None,
            }),
            !r@.editing,
            r@.element_start == 0,
    {
        let (elements, selected) = flatten(form);
        let r = Engine {
            elements,
            selected,
            editing: false,
            element_start: 0,
            saved_value: Value::Bool(false),
            saved_options: Vec::new(),
        };
        proof {
            let es = r@.elements;
            assert(forall|k: int| 0 <= k < es.len() ==> #[trigger] es[k] == r.elements@[k]@);
            let sel = match r@.selected {
                Some(i) => Some(i as usize),
                None => None,
            };
            assert(sel == selected);
        }
        r
    }

    pub fn elements(&self) -> (r: &Vec<Element>)
        ensures
            element_views(r@) == self@.elements,
    {
        &self.elements
    }

    pub fn selected(&self) -> (r: Option<usize>)
        ensures
            r matches Some(i) ==> self@.selected == Some(i as nat),
            r is None ==> self@.selected is None,
    {
        self.selected
    }

    pub fn editing(&self) -> (r: bool)
        ensures
            r == self@.editing,
    {
        self.editing
    }

    pub fn element_start(&self) -> (r: usize)
        ensures
            r == self@.element_start,
    {
        self.element_start
    }

    fn take_selected(&mut self, i: usize) -> (e: Element)
        requires
            i < old(self).elements@.len(),
        ensures
            e == old(self).elements@[i as int],
            final(self).elements@ == old(self).elements@.remove(i as int),
            final(self).selected == old(self).selected,
            final(self).editing == old(self).editing,
            final(self).element_start == old(self).element_start,
            final(self).saved_value == old(self).saved_value,
            final(self).saved_options == old(self).saved_options,
    {
        self.elements.remove(i)
    }

    fn put_selected(&mut self, i: usize, e: Element)
        requires
            i <= old(self).elements@.len(),
        ensures
            final(self).elements@ == old(self).elements@.insert(i as int, e),
            final(self).selected == old(self).selected,
            final(self).editing == old(self).editing,
            final(self).element_start == old(self).element_start,
            final(self).saved_value == old(self).saved_value,
            final(self).saved_options == old(self).saved_options,
    {
        self.elements.insert(i, e);
    }

    fn enter(&mut self) -> (r: Option<Decision>)
        requires
            old(self)@.wf(),
        ensures
            (final(self)@, decision_view(r)) == enter_step(old(self)@),
    {
        let i = match self.selected {
            Some(i) => i,
            None => return None,
        };
        assert(self@.elements[i as int] == self.elements@[i as int]@);
        let e = &self.elements[i];
        if e.checkbox {
            match e.value {
                Value::Bool(b) => Some(Decision::Select {
                    statement: e.statement,
                    value: Value::Bool(!b),
                    buffer: None,
                }),
                _ => None,
            }
        } else if e.editable && !self.editing {
            let v = e.value;
            let saved = clone_options(&e.options);
            self.saved_value = v;
            self.saved_options = saved;
            self.editing = true;
            None
        } else {
            let buffer = if self.editing && e.list {
                match e.buffer_len {
                    Some(n) => Some(serialize(&e.options, n)),
                    None => None,
                }
            } else {
                None
            };
            let d = Decision::Select { statement: e.statement, value: e.value, buffer };
            self.editing = false;
            Some(d)
        }
    }

    fn discard(&mut self)
        requires
            old(self)@.wf(),
        ensures
            final(self)@ == discard_step(old(self)@),
    {
        match self.selected {
            Some(i) => {
                let ghost before = self@;
                let mut e = self.take_selected(i);
                e.value = self.saved_value;
                e.options = clone_options(&self.saved_options);
                e.list_i = 0;
                self.put_selected(i, e);
                self.editing = false;
                assert(self@.elements =~= before.elements.update(i as int, e@));
            },
            None => {
                self.editing = false;
            },
        }
    }

    fn edit(&mut self, k: Key)
        requires
            old(self)@.wf(),
        ensures
            final(self)@ == edit_step(old(self)@, k),
    {
        match self.selected {
            Some(i) => {
                let ghost before = self@;
                let mut e = self.take_selected(i);
                match k {
                    Key::Down => element_down(&mut e),
                    Key::Up => element_up(&mut e),
                    Key::PageDown => element_move_down(&mut e),
                    Key::PageUp => element_move_up(&mut e),
                    _ => {},
                }
                self.put_selected(i, e);
                assert(self@.elements =~= before.elements.update(i as int, e@));
            },
            None => {},
        }
    }

    fn browse(&mut self, down: bool, window: usize)
        requires
            old(self)@.wf(),
        ensures
            final(self)@ == browse_step(old(self)@, down, window as nat),
    {
        match self.selected {
            Some(i) => {
                let n = self.elements.len();
                let t = if down {
                    match first_selectable_exec(&self.elements, i + 1) {
                        Some(t) => t,
                        None => match first_selectable_exec(&self.elements, 0) {
                            Some(t) => t,
                            None => i,
                        },
                    }
                } else {
                    match last_selectable_exec(&self.elements, i) {
                        Some(t) => t,
                        None => match last_selectable_exec(&self.elements, n) {
                            Some(t) => t,
                            None => i,
                        },
                    }
                };
                self.selected = Some(t);
                self.element_start = scrolled_exec(self.element_start, t, window);
            },
            None => {},
        }
    }

    /// Applies one event: returns how the invocation ends, if it does.
    pub fn handle(&mut self, form: &Form, ev: Event, window: usize) -> (r: Option<Decision>)
        requires
            old(self)@.wf(),
        ensures
            final(self)@.wf(),
            (final(self)@, decision_view(r))
                == step(old(self)@, form.form_id, form.hot_keys@, ev, window as nat),
    {
        proof {
            lemma_step_wf(self@, form.form_id, form.hot_keys@, ev, window as nat);
        }
        let raw = match ev {
            Event::Driver => return Some(Decision::Refresh),
            Event::Key(raw) => raw,
        };
        if !self.editing {
            match hot_key_exec(form, raw) {
                Some(h) => {
                    let hk = form.hot_keys.get(h);
                    return Some(Decision::HotKey { action: hk.action, default_id: hk.default_id });
                },
                None => {},
            }
        }
        let k = Key::from(raw);
        match k {
            Key::Enter => self.enter(),
            Key::Escape => {
                if self.editing {
                    self.discard();
                    None
                } else if form.form_id != FRONT_PAGE_FORM_ID {
                    Some(Decision::Exit)
                } else {
                    None
                }
            },
            Key::Down | Key::Up => {
                if self.editing {
                    self.edit(k);
                } else {
                    self.browse(k == Key::Down, window);
                }
                None
            },
            Key::PageDown | Key::PageUp => {
                if self.editing {
                    self.edit(k);
                }
                None
            },
            _ => None,
        }
    }
}

/// Every step keeps the state well formed.
pub proof fn lemma_step_wf(s: EngineView, form_id: u16, hks: Seq<HotKey>, ev: Event, window: nat)
    requires
        s.wf(),
    ensures
        step(s, form_id, hks, ev, window).0.wf(),
{
    let es = s.elements;
    if let Some(i) = s.selected {
        lemma_first_selectable(es, i + 1int);
        lemma_first_selectable(es, 0);
        lemma_last_selectable(es, i as int);
        lemma_last_selectable(es, es.len() as int);
        let t = step(s, form_id, hks, ev, window).0;
        assert(t.elements.len() == es.len());
        assert forall|j: int| 0 <= j < es.len() implies
            #[trigger] t.elements[j].selectable == es[j].selectable
            && t.elements[j].editable == es[j].editable by {}
    }
}

impl UserInput {
    /// Records how a form invocation ended: the action code for a refresh,
    /// an exit or a hot key (with its default id), or the finalized
    /// statement with its value and list buffer. Other fields keep their
    /// contents.
    pub fn record(&mut self, d: Decision)
        ensures
            match d@ {
                DecisionView::Refresh => final(self).action == BROWSER_ACTION_NONE
                    && final(self).default_id == old(self).default_id
                    && final(self).selected_statement == old(self).selected_statement
                    && final(self).input_value == old(self).input_value
                    && final(self).buffer == old(self).buffer,
                DecisionView::Exit => final(self).action == BROWSER_ACTION_FORM_EXIT
                    && final(self).default_id == old(self).default_id
                    && final(self).selected_statement == old(self).selected_statement
                    && final(self).input_value == old(self).input_value
                    && final(self).buffer == old(self).buffer,
                DecisionView::HotKey { action, default_id } => final(self).action == action
                    && final(self).default_id == default_id
                    && final(self).selected_statement == old(self).selected_statement
                    && final(self).input_value == old(self).input_value
                    && final(self).buffer == old(self).buffer,
                DecisionView::Select { statement, value, buffer } => final(self).action == old(self).action
                    && final(self).default_id == old(self).default_id
                    && final(self).selected_statement == Some(statement as usize)
                    && final(self).input_value == value
                    && match (final(self).buffer, buffer) {
                        (Some(b), Some(v)) => b@ == v,
                        (None, None) => true,
                        _ => false,
                    },
            },
    {
        match d {
            Decision::Refresh => {
                self.action = BROWSER_ACTION_NONE;
            },
            Decision::Exit => {
                self.action = BROWSER_ACTION_FORM_EXIT;
            },
            Decision::HotKey { action, default_id } => {
                self.action = action;
                self.default_id = default_id;
            },
            Decision::Select { statement, value, buffer } => {
                self.selected_statement = Some(statement);
                self.input_value = value;
                self.buffer = buffer;
            },
        }
    }
}

} // verus!
