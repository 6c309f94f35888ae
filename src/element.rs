use vstd::prelude::*;

use crate::value::Value;

verus! {

/// A resolved choice of a flattened question.
pub struct ElementOption {
    pub value: Value,
    pub prompt: String,
}

/// What an [`ElementOption`] holds, as plain values.
pub struct OptionView {
    pub value: Value,
    pub prompt: Seq<char>,
}

impl View for ElementOption {
    type V = OptionView;

    open spec fn view(&self) -> OptionView {
        OptionView { value: self.value, prompt: self.prompt@ }
    }
}

/// The flattened, renderable projection of one statement.
pub struct Element {
    /// Position of the statement in its form.
    pub statement: usize,
    pub prompt: String,
    pub help: String,
    pub value: Value,
    pub options: Vec<ElementOption>,
    pub selectable: bool,
    pub editable: bool,
    /// Whether the element is an ordered list.
    pub list: bool,
    /// Whether Enter toggles the element's value at once.
    pub checkbox: bool,
    /// Cursor into the options while an ordered list is edited.
    pub list_i: usize,
    /// Length of the statement's ordered-list buffer.
    pub buffer_len: Option<usize>,
}

/// What an [`Element`] holds, as plain values.
pub struct ElementView {
    pub statement: nat,
    pub prompt: Seq<char>,
    pub help: Seq<char>,
    pub value: Value,
    pub options: Seq<OptionView>,
    pub selectable: bool,
    pub editable: bool,
    pub list: bool,
    pub checkbox: bool,
    pub list_i: nat,
    pub buffer_len: Option<nat>,
}

impl View for Element {
    type V = ElementView;

    open spec fn view(&self) -> ElementView {
        ElementView {
            statement: self.statement as nat,
            prompt: self.prompt@,
            help: self.help@,
            value: self.value,
            options: views(self.options@),
            selectable: self.selectable,
            editable: self.editable,
            list: self.list,
            checkbox: self.checkbox,
            list_i: self.list_i as nat,
            buffer_len: match self.buffer_len {
                Some(n) => Some(n as nat),
                None => None,
            },
        }
    }
}

/// The views of a sequence of elements.
pub open spec fn element_views(es: Seq<Element>) -> Seq<ElementView> {
    es.map_values(|e: Element| e@)
}

/// The views of a sequence of options.
pub open spec fn views(opts: Seq<ElementOption>) -> Seq<OptionView> {
    opts.map_values(|o: ElementOption| o@)
}

/// The values of a sequence of options, in order.
pub open spec fn values_of(opts: Seq<OptionView>) -> Seq<Value> {
    opts.map_values(|o: OptionView| o.value)
}

/// Exchanges the entries at `i` and `j`.
pub open spec fn swapped<A>(s: Seq<A>, i: int, j: int) -> Seq<A> {
    s.update(i, s[j]).update(j, s[i])
}

/// Exchanges the options at `i` and `j`.
pub fn swap_options(opts: &mut Vec<ElementOption>, i: usize, j: usize)
    requires
        i < j < old(opts)@.len(),
    ensures
        final(opts)@ == swapped(old(opts)@, i as int, j as int),
        views(final(opts)@) == swapped(views(old(opts)@), i as int, j as int),
{
    let b = opts.remove(j);
    let a = opts.remove(i);
    opts.insert(i, b);
    opts.insert(j, a);
    assert(opts@ =~= swapped(old(opts)@, i as int, j as int));
    assert(views(opts@) =~= swapped(views(old(opts)@), i as int, j as int));
}

} // verus!
