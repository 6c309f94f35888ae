//! What holds of the engine, the walker and the challenge over several steps.
use vstd::prelude::*;

use crate::codec::{
    first_match, lemma_first_match, matches_at, ordered_by_buffer, packed, reorder_from, serialized,
};
use crate::element::{swapped, values_of, ElementView, OptionView};
use crate::engine::{
    first_selectable_from, key_step, last_selectable_before, position_of, step, DecisionView,
    EngineView, Event,
};
use crate::security::{
    challenge_step, security_step, ChallengeView, SecurityAction, SecurityEvent, SecurityPhase,
    SecurityState, Verdict, CODE_LEN,
};
use crate::status::Status;
use crate::value::{encoding, lemma_encoding_injective, lemma_encoding_len, width, Value};
use crate::form::{HotKey, Statement, FRONT_PAGE_FORM_ID};
use crate::walker::{element_of, flattened};
use crate::key::{key_of, Key, TextInputKey};

verus! {

proof fn lemma_none_from(es: Seq<ElementView>, u: int)
    requires
        0 <= u,
        forall|t: int| u <= t < es.len() ==> !(#[trigger] es[t]).selectable,
    ensures
        first_selectable_from(es, u) is None,
    decreases es.len() - u,
{
    if u < es.len() {
        lemma_none_from(es, u + 1);
    }
}

proof fn lemma_none_before(es: Seq<ElementView>, u: int)
    requires
        u <= es.len(),
        forall|t: int| 0 <= t < u ==> !(#[trigger] es[t]).selectable,
    ensures
        last_selectable_before(es, u) is None,
    decreases u,
{
    if u > 0 {
        lemma_none_before(es, u - 1);
    }
}

/// Down on the last selectable element selects the first selectable one, and
/// Up on the first selectable element selects the last one, in one step.
pub proof fn navigation_wraps(s: EngineView, form_id: u16, hks: Seq<HotKey>, raw: TextInputKey, window: nat)
    requires
        s.wf(),
        !s.editing,
        s.selected is Some,
    ensures
        ({
            let i = s.selected->Some_0;
            key_of(raw) == Key::Down && (forall|t: int| i < t < s.elements.len() ==> !(#[trigger] s.elements[t]).selectable)
                ==> key_step(s, form_id, key_of(raw), window).0.selected == first_selectable_from(s.elements, 0)
        }),
        ({
            let i = s.selected->Some_0;
            key_of(raw) == Key::Up && (forall|t: int| 0 <= t < i ==> !(#[trigger] s.elements[t]).selectable)
                ==> key_step(s, form_id, key_of(raw), window).0.selected == last_selectable_before(s.elements, s.elements.len() as int)
        }),
{
    let i = s.selected->Some_0;
    let es = s.elements;
    if forall|t: int| i < t < es.len() ==> !(#[trigger] es[t]).selectable {
        lemma_none_from(es, i + 1int);
        assert(es[i as int].selectable);
        assert(first_selectable_from(es, 0) is Some) by {
            lemma_some_from(es, 0, i as int);
        }
    }
    if forall|t: int| 0 <= t < i ==> !(#[trigger] es[t]).selectable {
        lemma_none_before(es, i as int);
        assert(last_selectable_before(es, es.len() as int) is Some) by {
            lemma_some_before(es, es.len() as int, i as int);
        }
    }
}

proof fn lemma_some_from(es: Seq<ElementView>, u: int, t: int)
    requires
        0 <= u <= t < es.len(),
        es[t].selectable,
    ensures
        first_selectable_from(es, u) is Some,
    decreases t - u,
{
    if !es[u].selectable {
        lemma_some_from(es, u + 1, t);
    }
}

proof fn lemma_some_before(es: Seq<ElementView>, u: int, t: int)
    requires
        0 <= t < u <= es.len(),
        es[t].selectable,
    ensures
        last_selectable_before(es, u) is Some,
    decreases u - t,
{
    if !es[u - 1].selectable {
        lemma_some_before(es, u - 1, t);
    }
}

/// On the front-page form, Escape while browsing changes nothing and ends
/// nothing.
pub proof fn front_page_escape_is_inert(s: EngineView, hks: Seq<HotKey>, raw: TextInputKey, window: nat)
    requires
        !s.editing,
        key_of(raw) == Key::Escape,
    ensures
        key_step(s, FRONT_PAGE_FORM_ID, key_of(raw), window) == (s, Option::<DecisionView>::None),
        crate::engine::hot_key_for(hks, raw, 0) is None
            ==> step(s, FRONT_PAGE_FORM_ID, hks, Event::Key(raw), window) == (s, Option::<DecisionView>::None),
{
}

/// The state after a sequence of decoded keys.
pub open spec fn run_keys(s: EngineView, form_id: u16, keys: Seq<Key>, window: nat) -> EngineView
    decreases keys.len(),
{
    if keys.len() == 0 {
        s
    } else {
        run_keys(key_step(s, form_id, keys[0], window).0, form_id, keys.drop_first(), window)
    }
}

/// Keys that act on the value or order being edited.
pub open spec fn is_edit_key(k: Key) -> bool {
    k == Key::Down || k == Key::Up || k == Key::PageDown || k == Key::PageUp
}

/// Whether value `v` is among the options.
pub open spec fn is_option_value(opts: Seq<OptionView>, v: Value) -> bool {
    exists|j: int| 0 <= j < opts.len() && (#[trigger] opts[j]).value == v
}

/// `t` edits element `i` of `s`, which it saved when editing began, and
/// differs from `s` in that element's value, option order and cursor only.
pub open spec fn edits_element_of(t: EngineView, s: EngineView, i: nat) -> bool {
    let e = s.elements[i as int];
    &&& t.editing
    &&& t.selected == Some(i)
    &&& t.saved_value == e.value
    &&& t.saved_options == e.options
    &&& t.elements.len() == s.elements.len()
    &&& forall|j: int| 0 <= j < s.elements.len() && j != i ==> #[trigger] t.elements[j] == s.elements[j]
    &&& t.elements[i as int] == ElementView {
        value: t.elements[i as int].value,
        options: t.elements[i as int].options,
        list_i: t.elements[i as int].list_i,
        ..e
    }
}

proof fn lemma_position_of_value(opts: Seq<OptionView>, v: Value, from: int)
    requires
        0 <= from,
        exists|j: int| from <= j < opts.len() && (#[trigger] opts[j]).value == v,
    ensures
        position_of(opts, v, from) matches Some(p) && p < opts.len(),
    decreases opts.len() - from,
{
    if opts[from].value != v {
        let j = choose|j: int| from <= j < opts.len() && (#[trigger] opts[j]).value == v;
        assert(j != from);
        lemma_position_of_value(opts, v, from + 1);
    }
}

proof fn lemma_run_edits(t: EngineView, s: EngineView, i: nat, form_id: u16, keys: Seq<Key>, window: nat)
    requires
        i < s.elements.len(),
        edits_element_of(t, s, i),
        forall|k: int| 0 <= k < keys.len() ==> is_edit_key(#[trigger] keys[k]),
    ensures
        edits_element_of(run_keys(t, form_id, keys, window), s, i),
        !s.elements[i as int].list && is_option_value(t.elements[i as int].options, t.elements[i as int].value) ==> {
            let r = run_keys(t, form_id, keys, window).elements[i as int];
            &&& r.options == t.elements[i as int].options
            &&& is_option_value(r.options, r.value)
        },
    decreases keys.len(),
{
    if keys.len() > 0 {
        let k = keys[0];
        let e = t.elements[i as int];
        let t1 = key_step(t, form_id, k, window).0;
        if !s.elements[i as int].list && is_option_value(e.options, e.value) {
            lemma_position_of_value(e.options, e.value, 0);
            crate::engine::lemma_position_in_bounds(e.options, e.value, 0);
            let n = e.options.len();
            let p = position_of(e.options, e.value, 0)->Some_0;
            if k == Key::Down {
                let q = if p + 1 < n { p + 1 } else { 0 };
                assert(e.options[q as int].value == t1.elements[i as int].value);
            } else if k == Key::Up {
                let q = if p > 0 { p - 1 } else { n - 1 };
                assert(e.options[q as int].value == t1.elements[i as int].value);
            }
        }
        assert(edits_element_of(t1, s, i));
        assert forall|j: int| 0 <= j < keys.drop_first().len() implies is_edit_key(#[trigger] keys.drop_first()[j]) by {
            assert(keys.drop_first()[j] == keys[j + 1]);
        }
        lemma_run_edits(t1, s, i, form_id, keys.drop_first(), window);
    }
}

/// Editing a scalar element with Up and Down and committing with Enter
/// finishes with the value last shown, which is one of the element's options.
pub proof fn edit_commit_round_trip(s: EngineView, form_id: u16, moves: Seq<Key>, window: nat)
    requires
        s.wf(),
        !s.editing,
        s.selected is Some,
        ({
            let e = s.elements[s.selected->Some_0 as int];
            e.editable && !e.checkbox && !e.list && is_option_value(e.options, e.value)
        }),
        forall|k: int| 0 <= k < moves.len() ==> (#[trigger] moves[k] == Key::Down || moves[k] == Key::Up),
    ensures
        ({
            let i = s.selected->Some_0;
            let e = s.elements[i as int];
            let s1 = key_step(s, form_id, Key::Enter, window);
            let s2 = run_keys(s1.0, form_id, moves, window);
            let v = s2.elements[i as int].value;
            &&& s1.1 is None
            &&& s2.editing
            &&& is_option_value(e.options, v)
            &&& key_step(s2, form_id, Key::Enter, window).1 == Some(DecisionView::Select {
                statement: e.statement,
                value: v,
                buffer: None,
            })
        }),
{
    let i = s.selected->Some_0;
    let s1 = key_step(s, form_id, Key::Enter, window).0;
    assert(s1.elements =~= s.elements);
    assert(edits_element_of(s1, s, i));
    assert forall|k: int| 0 <= k < moves.len() implies is_edit_key(#[trigger] moves[k]) by {}
    lemma_run_edits(s1, s, i, form_id, moves, window);
}

/// Escape after any edits of an element gives back the element as it was
/// before editing began, ends nothing, and keeps the selection.
pub proof fn escape_discards_edit(s: EngineView, form_id: u16, edits: Seq<Key>, window: nat)
    requires
        s.wf(),
        !s.editing,
        s.selected is Some,
        ({
            let e = s.elements[s.selected->Some_0 as int];
            e.editable && !e.checkbox && e.list_i == 0
        }),
        forall|k: int| 0 <= k < edits.len() ==> is_edit_key(#[trigger] edits[k]),
    ensures
        ({
            let s1 = key_step(s, form_id, Key::Enter, window).0;
            let s2 = run_keys(s1, form_id, edits, window);
            let (s3, d) = key_step(s2, form_id, Key::Escape, window);
            &&& d is None
            &&& !s3.editing
            &&& s3.selected == s.selected
            &&& s3.elements == s.elements
        }),
{
    let i = s.selected->Some_0;
    let s1 = key_step(s, form_id, Key::Enter, window).0;
    assert(s1.elements =~= s.elements);
    assert(edits_element_of(s1, s, i));
    lemma_run_edits(s1, s, i, form_id, edits, window);
    let s2 = run_keys(s1, form_id, edits, window);
    let s3 = key_step(s2, form_id, Key::Escape, window).0;
    assert(s3.elements =~= s.elements);
}

/// The challenge after typing ASCII digits one by one.
pub open spec fn type_digits(s: ChallengeView, ds: Seq<u8>) -> ChallengeView
    decreases ds.len(),
{
    if ds.len() == 0 {
        s
    } else {
        type_digits(challenge_step(s, Key::Character(ds[0] as char)).0, ds.drop_first())
    }
}

/// Whether every byte is an ASCII digit.
pub open spec fn all_digits(ds: Seq<u8>) -> bool {
    forall|k: int| 0 <= k < ds.len() ==> 48 <= #[trigger] ds[k] <= 57
}

proof fn lemma_type_digits(s: ChallengeView, ds: Seq<u8>)
    requires
        s.wf(),
        all_digits(ds),
        s.input.len() + ds.len() <= s.code.len(),
    ensures
        type_digits(s, ds) == (ChallengeView { input: s.input + ds, ..s }),
    decreases ds.len(),
{
    if ds.len() == 0 {
        assert(s.input + ds =~= s.input);
    } else {
        let d = ds[0];
        assert(48 <= d <= 57);
        assert((d as char) as u32 as u8 == d);
        let s1 = challenge_step(s, Key::Character(d as char)).0;
        assert(s1.input == s.input.push(d));
        assert forall|k: int| 0 <= k < ds.drop_first().len() implies 48 <= #[trigger] ds.drop_first()[k] <= 57 by {
            assert(ds.drop_first()[k] == ds[k + 1]);
        }
        lemma_type_digits(s1, ds.drop_first());
        assert(s.input.push(d) + ds.drop_first() =~= s.input + ds);
    }
}

/// On a fresh challenge, typing exactly the code and pressing Enter on
/// Confirm succeeds; typing any other digits (at most as many as the code
/// has) and pressing Enter clears the input and keeps waiting.
pub proof fn confirmation_exact_match(s: ChallengeView, ds: Seq<u8>)
    requires
        s.wf(),
        s.input.len() == 0,
        s.button == 0,
        all_digits(ds),
        ds.len() <= CODE_LEN,
    ensures
        ({
            let t = type_digits(s, ds);
            &&& t.input == ds
            &&& ds == s.code ==> challenge_step(t, Key::Enter) == (t, Verdict::Confirmed)
            &&& ds != s.code ==> challenge_step(t, Key::Enter)
                == (ChallengeView { input: Seq::empty(), ..t }, Verdict::Pending)
        }),
{
    lemma_type_digits(s, ds);
    assert(Seq::<u8>::empty() + ds =~= ds);
}

/// How many times the fail-safe (arm the lock, shut down) is asked for over a
/// sequence of events.
pub open spec fn fail_safes(p: SecurityPhase, evs: Seq<SecurityEvent>) -> nat
    decreases evs.len(),
{
    if evs.len() == 0 {
        0
    } else {
        let (q, a) = security_step(p, evs[0]);
        (if a == SecurityAction::LockAndShutdown { 1nat } else { 0nat }) + fail_safes(q, evs.drop_first())
    }
}

proof fn lemma_finished_is_quiet(evs: Seq<SecurityEvent>)
    ensures
        fail_safes(SecurityPhase::Finished, evs) == 0,
    decreases evs.len(),
{
    if evs.len() > 0 {
        lemma_finished_is_quiet(evs.drop_first());
    }
}

/// Whatever events come, the fail-safe is asked for at most once.
pub proof fn fail_safe_at_most_once(p: SecurityPhase, evs: Seq<SecurityEvent>)
    ensures
        fail_safes(p, evs) <= 1,
    decreases evs.len(),
{
    if evs.len() > 0 {
        let (q, a) = security_step(p, evs[0]);
        if a == SecurityAction::LockAndShutdown {
            lemma_finished_is_quiet(evs.drop_first());
        } else {
            fail_safe_at_most_once(q, evs.drop_first());
        }
    }
}

/// Choosing Cancel ends the challenge as cancelled; a cancelled or failed
/// challenge on an unlocked system asks for the fail-safe exactly once,
/// whatever follows.
pub proof fn cancel_fails_safe_once(c: ChallengeView, st: SecurityState, err: Status, rest: Seq<SecurityEvent>)
    requires
        c.button == 1,
        st != SecurityState::Lock,
    ensures
        challenge_step(c, Key::Enter).1 == Verdict::Cancelled,
        fail_safes(
            SecurityPhase::Idle,
            seq![SecurityEvent::State(Ok(st)), SecurityEvent::Prompt(Err(err))] + rest,
        ) == 1,
{
    let evs = seq![SecurityEvent::State(Ok(st)), SecurityEvent::Prompt(Err(err))] + rest;
    assert(evs.drop_first().drop_first() =~= rest);
    assert(evs[0] == SecurityEvent::State(Ok(st)));
    assert(evs.drop_first()[0] == SecurityEvent::Prompt(Err(err)));
    lemma_finished_is_quiet(rest);
    assert(fail_safes(SecurityPhase::Prompting, evs.drop_first()) == 1 + fail_safes(SecurityPhase::Finished, rest));
    assert(fail_safes(SecurityPhase::Idle, evs) == fail_safes(SecurityPhase::Prompting, evs.drop_first()));
}

/// Whether a statement has an element: its operation can be read and is one
/// the engine supports.
pub open spec fn represented(st: Statement) -> bool {
    element_of(st, 0) is Some
}

/// How many statements have an element.
pub open spec fn count_represented(sts: Seq<Statement>) -> nat
    decreases sts.len(),
{
    if sts.len() == 0 {
        0
    } else {
        count_represented(sts.drop_last()) + if represented(sts.last()) { 1nat } else { 0nat }
    }
}

/// Flattening yields exactly one element per represented statement, in
/// statement order, each the element of its statement.
pub proof fn flatten_one_element_per_statement(sts: Seq<Statement>)
    ensures
        flattened(sts).len() == count_represented(sts),
        forall|k: int| 0 <= k < flattened(sts).len() ==> {
            let e = #[trigger] flattened(sts)[k];
            &&& e.statement < sts.len()
            &&& element_of(sts[e.statement as int], e.statement) == Some(e)
        },
        forall|k1: int, k2: int| 0 <= k1 < k2 < flattened(sts).len()
            ==> (#[trigger] flattened(sts)[k1]).statement < (#[trigger] flattened(sts)[k2]).statement,
        forall|j: int| 0 <= j < sts.len() && represented(#[trigger] sts[j])
            ==> exists|k: int| 0 <= k < flattened(sts).len() && (#[trigger] flattened(sts)[k]).statement == j,
    decreases sts.len(),
{
    if sts.len() > 0 {
        let pre = sts.drop_last();
        flatten_one_element_per_statement(pre);
        let fp = flattened(pre);
        let f = flattened(sts);
        let n = (sts.len() - 1) as nat;
        assert(element_of(sts.last(), n) is Some <==> represented(sts.last()));
        assert forall|k: int| 0 <= k < fp.len() implies #[trigger] f[k] == fp[k] by {}
        assert forall|k: int| 0 <= k < f.len() implies ({
            let e = #[trigger] f[k];
            &&& e.statement < sts.len()
            &&& element_of(sts[e.statement as int], e.statement) == Some(e)
        }) by {
            if k < fp.len() {
                assert(sts[fp[k].statement as int] == pre[fp[k].statement as int]);
            }
        }
        assert forall|j: int| 0 <= j < sts.len() && represented(#[trigger] sts[j])
            implies exists|k: int| 0 <= k < f.len() && (#[trigger] f[k]).statement == j by {
            if j < pre.len() {
                assert(pre[j] == sts[j]);
                let k = choose|k: int| 0 <= k < fp.len() && (#[trigger] fp[k]).statement == j;
                assert(f[k] == fp[k]);
            } else {
                assert(f[fp.len() as int].statement == j);
            }
        }
    }
}

/// The `k`-th slot of `w` bytes of a buffer.
pub open spec fn slot(buf: Seq<u8>, k: int, w: int) -> Seq<u8> {
    buf.subrange(k * w, k * w + w)
}

proof fn lemma_packed_layout(vals: Seq<Value>, room: nat, w: nat)
    requires
        w > 0,
        forall|k: int| 0 <= k < vals.len() ==> width(#[trigger] vals[k]) == w,
        vals.len() * w <= room,
    ensures
        packed(vals, room).len() == vals.len() * w,
        forall|k: int| 0 <= k < vals.len() ==> #[trigger] slot(packed(vals, room), k, w as int) == encoding(vals[k]),
    decreases vals.len(),
{
    if vals.len() > 0 {
        let rest = vals.drop_first();
        let n = vals.len();
        lemma_encoding_len(vals[0]);
        assert(n * w == w + rest.len() * w) by (nonlinear_arith)
            requires n == rest.len() + 1;
        assert forall|k: int| 0 <= k < rest.len() implies width(#[trigger] rest[k]) == w by {
            assert(rest[k] == vals[k + 1]);
        }
        lemma_packed_layout(rest, (room - w) as nat, w);
        let p = packed(vals, room);
        let e = encoding(vals[0]);
        let pr = packed(rest, (room - w) as nat);
        assert(p == e + pr);
        assert forall|k: int| 0 <= k < n implies #[trigger] slot(p, k, w as int) == encoding(vals[k]) by {
            assert((k + 1) * w <= n * w) by (nonlinear_arith)
                requires k + 1 <= n, w > 0;
            assert(k * w + w == (k + 1) * w) by (nonlinear_arith);
            if k == 0 {
                assert(slot(p, 0, w as int) =~= e);
            } else {
                assert(k * w == w + (k - 1) * w) by (nonlinear_arith);
                assert(slot(p, k, w as int) =~= slot(pr, k - 1, w as int));
                assert(vals[k] == rest[k - 1]);
            }
        }
    }
}

proof fn lemma_first_match_some(opts: Seq<OptionView>, buf: Seq<u8>, off: nat, from: int, j: int)
    requires
        0 <= from <= j < opts.len(),
        matches_at(opts[j].value, buf, off),
    ensures
        first_match(opts, buf, off, from) is Some,
    decreases j - from,
{
    if !matches_at(opts[from].value, buf, off) {
        lemma_first_match_some(opts, buf, off, from + 1, j);
    }
}

proof fn lemma_swap_multiset(a: Seq<OptionView>, m: int)
    requires
        0 <= m < a.len(),
    ensures
        swapped(a, 0, m).to_multiset() == a.to_multiset(),
{
    broadcast use vstd::multiset::group_multiset_axioms;
    let s1 = a.update(0, a[m]);
    vstd::seq_lib::to_multiset_update(a, 0, a[m]);
    if m != 0 {
        assert(s1[m] == a[m]);
    }
    vstd::seq_lib::to_multiset_update(s1, m, a[0]);
    a.to_multiset_ensures();
    assert(a.contains(a[0]));
    assert(a.contains(a[m]));
    assert(a.to_multiset().count(a[0]) > 0);
    assert(a.to_multiset().count(a[m]) > 0);
    assert(swapped(a, 0, m).to_multiset() =~= a.to_multiset());
}

proof fn lemma_reorder_chosen(cur: Seq<OptionView>, chosen: Seq<OptionView>, buf: Seq<u8>, i: nat, w: nat)
    requires
        w > 0,
        cur.len() == chosen.len(),
        i <= chosen.len(),
        forall|k: int| 0 <= k < chosen.len() ==> width((#[trigger] chosen[k]).value) == w,
        forall|a: int, b: int| 0 <= a < chosen.len() && 0 <= b < chosen.len() && a != b
            ==> (#[trigger] chosen[a]).value != (#[trigger] chosen[b]).value,
        forall|k: int| 0 <= k < chosen.len() ==> #[trigger] slot(buf, k, w as int) == encoding(chosen[k].value),
        chosen.len() * w <= buf.len(),
        cur.take(i as int) == chosen.take(i as int),
        cur.skip(i as int).to_multiset() == chosen.skip(i as int).to_multiset(),
    ensures
        reorder_from(cur, buf, i as int, i * w) == chosen,
    decreases chosen.len() - i,
{
    let n = chosen.len();
    if i == n {
        assert(cur =~= cur.take(n as int));
        assert(chosen =~= chosen.take(n as int));
    } else {
        let off = i * w;
        let a = cur.skip(i as int);
        let c = chosen.skip(i as int);
        a.to_multiset_ensures();
        c.to_multiset_ensures();
        assert((i + 1) * w <= n * w) by (nonlinear_arith)
            requires i + 1 <= n, w > 0;
        assert(i * w + w == (i + 1) * w) by (nonlinear_arith);
        // Every remaining option is one of the remaining chosen ones.
        assert forall|j: int| i <= j < n implies
            #[trigger] matches_at(cur[j].value, buf, off) <==> cur[j] == chosen[i as int] by {
            assert(a[j - i] == cur[j]);
            assert(a.contains(cur[j]));
            assert(a.to_multiset().count(cur[j]) > 0);
            assert(c.to_multiset().count(cur[j]) > 0);
            assert(c.contains(cur[j]));
            let m2 = choose|m2: int| 0 <= m2 < c.len() && c[m2] == cur[j];
            let m = i + m2;
            assert(chosen[m] == cur[j]);
            lemma_encoding_len(chosen[m].value);
            lemma_encoding_len(chosen[i as int].value);
            assert(slot(buf, i as int, w as int) == encoding(chosen[i as int].value));
            if matches_at(cur[j].value, buf, off) {
                lemma_encoding_injective(chosen[m].value, chosen[i as int].value);
            }
        }
        assert(c[0] == chosen[i as int]);
        assert(c.contains(chosen[i as int]));
        assert(c.to_multiset().count(chosen[i as int]) > 0);
        assert(a.to_multiset().count(chosen[i as int]) > 0);
        assert(a.contains(chosen[i as int]));
        let j0 = choose|j0: int| 0 <= j0 < a.len() && a[j0] == chosen[i as int];
        assert(cur[i + j0] == chosen[i as int]);
        assert(matches_at(cur[i + j0].value, buf, off));
        lemma_first_match_some(cur, buf, off, i as int, i + j0);
        lemma_first_match(cur, buf, off, i as int);
        let j = first_match(cur, buf, off, i as int)->Some_0;
        assert(matches_at(cur[j].value, buf, off));
        assert(cur[j] == chosen[i as int]);
        lemma_encoding_len(cur[j].value);
        let next = swapped(cur, i as int, j);
        assert(i <= j < n);
        assert(next.len() == n);
        assert forall|k: int| 0 <= k < i + 1 implies #[trigger] next.take(i + 1int)[k] == chosen.take(i + 1int)[k] by {
            if k < i {
                assert(next[k] == cur[k]);
                assert(cur.take(i as int)[k] == chosen.take(i as int)[k]);
            } else {
                assert(next[k] == cur[j]);
            }
        }
        assert(next.take(i + 1int) =~= chosen.take(i + 1int));
        let a2 = next.skip(i as int);
        assert(a2 =~= swapped(a, 0, j - i));
        lemma_swap_multiset(a, j - i);
        assert(next.skip(i + 1int) =~= a2.remove(0));
        assert(chosen.skip(i + 1int) =~= c.remove(0));
        vstd::seq_lib::to_multiset_remove(a2, 0);
        vstd::seq_lib::to_multiset_remove(c, 0);
        lemma_reorder_chosen(next, chosen, buf, i + 1, w);
    }
}

/// An ordered list committed in some order and flattened again comes back in
/// that order: the buffer holds each chosen value in its native width, one
/// after another, then zeros to its full length; reading it orders the
/// statement's options as chosen. The options are those of one statement:
/// values of one integer width, pairwise different, that fit the buffer.
pub proof fn ordered_list_round_trip(opts: Seq<OptionView>, chosen: Seq<OptionView>, len: nat)
    requires
        opts.to_multiset() == chosen.to_multiset(),
        forall|k: int| 0 <= k < chosen.len() ==> width((#[trigger] chosen[k]).value) == width(chosen[0].value),
        chosen.len() > 0 ==> width(chosen[0].value) > 0,
        forall|a: int, b: int| 0 <= a < chosen.len() && 0 <= b < chosen.len() && a != b
            ==> (#[trigger] chosen[a]).value != (#[trigger] chosen[b]).value,
        chosen.len() > 0 ==> chosen.len() * width(chosen[0].value) <= len,
    ensures
        ({
            let buf = serialized(values_of(chosen), len);
            let w = if chosen.len() > 0 { width(chosen[0].value) } else { 0 };
            &&& buf.len() == len
            &&& forall|k: int| 0 <= k < chosen.len() ==> #[trigger] slot(buf, k, w as int) == encoding(chosen[k].value)
            &&& forall|t: int| chosen.len() * w <= t < len ==> #[trigger] buf[t] == 0
            &&& ordered_by_buffer(opts, buf) == chosen
        }),
{
    let vals = values_of(chosen);
    let buf = serialized(vals, len);
    opts.to_multiset_ensures();
    chosen.to_multiset_ensures();
    if chosen.len() == 0 {
        assert(opts.len() == 0);
        assert(packed(vals, len) =~= Seq::<u8>::empty());
        assert(reorder_from(opts, buf, 0, 0) == opts);
        assert(opts =~= chosen);
    } else {
        let w = width(chosen[0].value);
        let n = chosen.len();
        assert forall|k: int| 0 <= k < vals.len() implies width(#[trigger] vals[k]) == w by {}
        lemma_packed_layout(vals, len, w);
        let p = packed(vals, len);
        assert forall|k: int| 0 <= k < n implies #[trigger] slot(buf, k, w as int) == encoding(chosen[k].value) by {
            assert((k + 1) * w <= n * w) by (nonlinear_arith)
                requires k + 1 <= n, w > 0;
            assert(k * w + w == (k + 1) * w) by (nonlinear_arith);
            assert(slot(buf, k, w as int) =~= slot(p, k, w as int));
            assert(vals[k] == chosen[k].value);
        }
        assert(opts.take(0) =~= chosen.take(0));
        assert(opts.skip(0) =~= opts);
        assert(chosen.skip(0) =~= chosen);
        assert(0 * w == 0);
        lemma_reorder_chosen(opts, chosen, buf, 0, w);
    }
}

} // verus!
