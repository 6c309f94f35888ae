//! Flattening a form's statements into the elements the engine draws and edits.
use vstd::prelude::*;

use crate::codec::{order_by_buffer, ordered_by_buffer};
use crate::element::{element_views, views, Element, ElementOption, ElementView, OptionView};
use crate::form::{Form, OpCode, QuestionOption, Statement};

verus! {

/// For a supported operation: whether its element is selectable, editable,
/// and an ordered list.
pub open spec fn flags(op: OpCode) -> Option<(bool, bool, bool)> {
    match op {
        OpCode::Action => Some((true, false, false)),
        OpCode::Checkbox => Some((true, true, false)),
        OpCode::Numeric => Some((true, true, false)),
        OpCode::OneOf => Some((true, true, false)),
        OpCode::OrderedList => Some((true, true, true)),
        OpCode::Ref => Some((true, false, false)),
        OpCode::Subtitle => Some((false, false, false)),
        OpCode::Other(_) => None,
    }
}

/// A resolved text, or the empty text when it could not be resolved.
pub open spec fn text_of(t: Option<String>) -> Seq<char> {
    match t {
        Some(s) => s@,
        None => Seq::empty(),
    }
}

/// The options that can be read, in list order, with their texts.
pub open spec fn option_views(opts: Seq<QuestionOption>) -> Seq<OptionView>
    decreases opts.len(),
{
    if opts.len() == 0 {
        Seq::empty()
    } else {
        let o = opts.last();
        option_views(opts.drop_last()) + match o.value {
            Some(v) => seq![OptionView { value: v, prompt: text_of(o.prompt) }],
            None => Seq::empty(),
        }
    }
}

/// The element a statement at position `idx` becomes, if any.
pub open spec fn element_of(st: Statement, idx: nat) -> Option<ElementView> {
    match st.op_code {
        Some(op) => match flags(op) {
            Some((selectable, editable, list)) => {
                let opts = option_views(st.options@);
                Some(ElementView {
                    statement: idx,
                    prompt: text_of(st.prompt),
                    help: text_of(st.help),
                    value: st.current_value,
                    options: match st.buffer {
                        Some(b) => if list { ordered_by_buffer(opts, b@) } else { opts },
                        None => opts,
                    },
                    selectable,
                    editable,
                    list,
                    checkbox: op == OpCode::Checkbox,
                    list_i: 0,
                    buffer_len: match st.buffer {
                        Some(b) => Some(b@.len()),
                        None => None,
                    },
                })
            },
            None => None,
        },
        None => None,
    }
}

/// The elements of a form's statements, in statement order.
pub open spec fn flattened(sts: Seq<Statement>) -> Seq<ElementView>
    decreases sts.len(),
{
    if sts.len() == 0 {
        Seq::empty()
    } else {
        flattened(sts.drop_last()) + match element_of(sts.last(), (sts.len() - 1) as nat) {
            Some(e) => seq![e],
            None => Seq::empty(),
        }
    }
}

/// Whether the element at `k` is selectable and belongs to the highlighted statement.
pub open spec fn highlight_at(es: Seq<ElementView>, highlighted: Option<usize>, k: int) -> bool {
    &&& 0 <= k < es.len()
    &&& es[k].selectable
    &&& highlighted == Some(es[k].statement as usize)
}

/// Whether `sel` is the selection the engine starts with: the element of the
/// highlighted statement when that one is selectable, else the first
/// selectable element, else none.
pub open spec fn is_initial_selection(es: Seq<ElementView>, highlighted: Option<usize>, sel: Option<usize>) -> bool {
    if exists|k: int| #[trigger] highlight_at(es, highlighted, k) {
        sel matches Some(k) && highlight_at(es, highlighted, k as int)
    } else if exists|k: int| 0 <= k < es.len() && es[k].selectable {
        sel matches Some(k) && k < es.len() && es[k as int].selectable
            && forall|t: int| 0 <= t < k ==> !es[t].selectable
    } else {
        sel is None
    }
}

fn text(t: &Option<String>) -> (r: String)
    ensures
        r@ == text_of(*t),
{
    match t {
        Some(s) => s.clone(),
        None => String::new(),
    }
}

fn flags_exec(op: OpCode) -> (r: Option<(bool, bool, bool)>)
    ensures
        r == flags(op),
{
    match op {
        OpCode::Action => Some((true, false, false)),
        OpCode::Checkbox => Some((true, true, false)),
        OpCode::Numeric => Some((true, true, false)),
        OpCode::OneOf => Some((true, true, false)),
        OpCode::OrderedList => Some((true, true, true)),
        OpCode::Ref => Some((true, false, false)),
        OpCode::Subtitle => Some((false, false, false)),
        OpCode::Other(_) => None,
    }
}

/// The readable options of a statement, with their texts.
fn resolve_options(st: &Statement) -> (r: Vec<ElementOption>)
    ensures
        views(r@) == option_views(st.options@),
{
    let mut out: Vec<ElementOption> = Vec::new();
    let mut k: usize = 0;
    while k < st.options.len()
        invariant
            k <= st.options@.len(),
            views(out@) == option_views(st.options@.take(k as int)),
        decreases st.options@.len() - k,
    {
        let o = st.options.get(k);
        let ghost prev = out@;
        assert(st.options@.take(k + 1).drop_last() =~= st.options@.take(k as int));
        assert(st.options@.take(k + 1).last() == *o);
        match o.value {
            Some(v) => {
                out.push(ElementOption { value: v, prompt: text(&o.prompt) });
                assert(views(out@) =~= views(prev) + seq![out@.last()@]);
            },
            None => {},
        }
        k = k + 1;
    }
    assert(st.options@.take(k as int) =~= st.options@);
    out
}

/// The element a statement at position `idx` becomes, if any.
pub fn element_for(st: &Statement, idx: usize) -> (r: Option<Element>)
    ensures
        r matches Some(e) ==> element_of(*st, idx as nat) == Some(e@),
        r is None ==> element_of(*st, idx as nat) is None,
{
    let op = match st.op_code {
        Some(op) => op,
        None => return None,
    };
    let (selectable, editable, list) = match flags_exec(op) {
        Some(f) => f,
        None => return None,
    };
    let mut options = resolve_options(st);
    let buffer_len = match &st.buffer {
        Some(b) => {
            if list {
                order_by_buffer(&mut options, b);
            }
            Some(b.len())
        },
        None => None,
    };
    let e = Element {
        statement: idx,
        prompt: text(&st.prompt),
        help: text(&st.help),
        value: st.current_value,
        options,
        selectable,
        editable,
        list,
        checkbox: op == OpCode::Checkbox,
        list_i: 0,
        buffer_len,
    };
    Some(e)
}

/// Flattens a form: one element per statement with a supported operation,
/// in statement order, and the selection to start with.
pub fn flatten(form: &Form) -> (r: (Vec<Element>, Option<usize>))
    ensures
        element_views(r.0@) == flattened(form.statements@),
        is_initial_selection(element_views(r.0@), form.highlighted, r.1),
{
    let sts = &form.statements;
    let mut elements: Vec<Element> = Vec::new();
    let mut first: Option<usize> = None;
    let mut hit: Option<usize> = None;
    let mut k: usize = 0;
    while k < sts.len()
        invariant
            k <= sts@.len(),
            element_views(elements@) == flattened(sts@.take(k as int)),
            forall|t: int| 0 <= t < elements@.len() ==> elements@[t].statement < k,
            match first {
                Some(f) => f < elements@.len() && elements@[f as int].selectable
                    && forall|t: int| 0 <= t < f ==> !elements@[t].selectable,
                None => forall|t: int| 0 <= t < elements@.len() ==> !elements@[t].selectable,
            },
            match hit {
                Some(h) => h < elements@.len() && elements@[h as int].selectable
                    && form.highlighted == Some(elements@[h as int].statement),
                None => forall|t: int| 0 <= t < elements@.len() && elements@[t].selectable
                    ==> form.highlighted != Some(elements@[t].statement),
            },
        decreases sts@.len() - k,
    {
        let st = sts.get(k);
        let ghost prev = elements@;
        assert(sts@.take(k + 1).drop_last() =~= sts@.take(k as int));
        assert(sts@.take(k + 1).last() == *st);
        match element_for(st, k) {
            Some(e) => {
                if e.selectable {
                    if first.is_none() {
                        first = Some(elements.len());
                    }
                    if form.highlighted == Some(k) {
                        hit = Some(elements.len());
                    }
                }
                elements.push(e);
                assert(element_views(elements@) =~= element_views(prev) + seq![elements@.last()@]);
            },
            None => {
                assert(element_views(elements@) =~= element_views(prev) + Seq::<ElementView>::empty());
            },
        }
        k = k + 1;
    }
    assert(sts@.take(k as int) =~= sts@);
    let ghost es = element_views(elements@);
    assert(forall|t: int| 0 <= t < elements@.len() ==> #[trigger] es[t] == elements@[t]@);
    let sel = match hit {
        Some(h) => Some(h),
        None => first,
    };
    (elements, sel)
}

} // verus!
