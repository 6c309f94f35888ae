//! The byte layout of an ordered-list question's backing buffer: the chosen
//! option values one after another, each in its native width, zero-padded.
use vstd::prelude::*;

use crate::element::{swap_options, swapped, values_of, views, ElementOption, OptionView};
use crate::value::{encode, encoding, lemma_encoding_len, Value};

verus! {

/// Whether the buffer holds the encoding of `v` at `off`.
pub open spec fn matches_at(v: Value, buf: Seq<u8>, off: nat) -> bool {
    let e = encoding(v);
    &&& e.len() > 0
    &&& off + e.len() <= buf.len()
    &&& buf.subrange(off as int, (off + e.len()) as int) == e
}

/// The first position from `j` on whose option the buffer holds at `off`.
pub open spec fn first_match(opts: Seq<OptionView>, buf: Seq<u8>, off: nat, j: int) -> Option<int>
    decreases opts.len() - j,
{
    if j < 0 || j >= opts.len() {
        None
    } else if matches_at(opts[j].value, buf, off) {
        Some(j)
    } else {
        first_match(opts, buf, off, j + 1)
    }
}

pub proof fn lemma_first_match(opts: Seq<OptionView>, buf: Seq<u8>, off: nat, j: int)
    ensures
        first_match(opts, buf, off, j) matches Some(k) ==> {
            &&& j <= k < opts.len()
            &&& matches_at(opts[k].value, buf, off)
        },
    decreases opts.len() - j,
{
    if 0 <= j < opts.len() && !matches_at(opts[j].value, buf, off) {
        lemma_first_match(opts, buf, off, j + 1);
    }
}

/// Options from `i` on put in the order the buffer gives from `off` on: each
/// position takes the first remaining option found next in the buffer; a
/// position whose option is not found keeps what it has.
pub open spec fn reorder_from(opts: Seq<OptionView>, buf: Seq<u8>, i: int, off: nat) -> Seq<OptionView>
    decreases opts.len() - i,
{
    if i < 0 || i >= opts.len() {
        opts
    } else {
        match first_match(opts, buf, off, i) {
            Some(j) => if i <= j < opts.len() {
                reorder_from(swapped(opts, i, j), buf, i + 1, off + encoding(opts[j].value).len())
            } else {
                opts
            },
            None => reorder_from(opts, buf, i + 1, off),
        }
    }
}

/// The options in the order a backing buffer records.
pub open spec fn ordered_by_buffer(opts: Seq<OptionView>, buf: Seq<u8>) -> Seq<OptionView> {
    reorder_from(opts, buf, 0, 0)
}

/// Encodings of the values that fit, one after another, in `room` bytes; the
/// first value that does not fit ends the sequence.
pub open spec fn packed(vals: Seq<Value>, room: nat) -> Seq<u8>
    decreases vals.len(),
{
    if vals.len() == 0 {
        Seq::empty()
    } else {
        let e = encoding(vals[0]);
        if e.len() <= room {
            e + packed(vals.drop_first(), (room - e.len()) as nat)
        } else {
            Seq::empty()
        }
    }
}

/// A backing buffer of `len` bytes that records the values in order.
pub open spec fn serialized(vals: Seq<Value>, len: nat) -> Seq<u8> {
    let p = packed(vals, len);
    p + Seq::new((len - p.len()) as nat, |_k: int| 0u8)
}

/// Whether the buffer holds the encoding of `v` at `off`.
fn matches_at_exec(v: Value, buf: &Vec<u8>, off: usize) -> (r: bool)
    ensures
        r == matches_at(v, buf@, off as nat),
{
    let e = encode(v);
    proof {
        lemma_encoding_len(v);
    }
    if e.len() == 0 || off > buf.len() || e.len() > buf.len() - off {
        return false;
    }
    let end = off + e.len();
    let mut k: usize = 0;
    while k < e.len()
        invariant
            k <= e@.len(),
            end == off + e@.len(),
            e@ == encoding(v),
            e@.len() > 0,
            end <= buf@.len(),
            forall|t: int| 0 <= t < k ==> buf@[off + t] == e@[t],
        decreases e@.len() - k,
    {
        if buf[off + k] != e[k] {
            assert(buf@.subrange(off as int, end as int)[k as int] != e@[k as int]);
            assert(buf@.subrange(off as int, end as int) != e@);
            return false;
        }
        k = k + 1;
    }
    assert(buf@.subrange(off as int, end as int) =~= e@);
    true
}

fn first_match_exec(opts: &Vec<ElementOption>, buf: &Vec<u8>, off: usize, i: usize) -> (r: Option<usize>)
    requires
        i <= opts@.len(),
    ensures
        r matches Some(j) ==> i <= j < opts@.len(),
        r matches Some(j) ==> first_match(views(opts@), buf@, off as nat, i as int) == Some(j as int),
        r is None ==> first_match(views(opts@), buf@, off as nat, i as int) is None,
{
    let ghost vs = views(opts@);
    let mut j: usize = i;
    while j < opts.len()
        invariant
            i <= j <= opts@.len(),
            vs == views(opts@),
            first_match(vs, buf@, off as nat, i as int) == first_match(vs, buf@, off as nat, j as int),
        decreases opts@.len() - j,
    {
        if matches_at_exec(opts[j].value, buf, off) {
            assert(vs[j as int] == opts@[j as int]@);
            return Some(j);
        }
        assert(vs[j as int] == opts@[j as int]@);
        j = j + 1;
    }
    None
}

/// Puts the options in the order the backing buffer records.
pub fn order_by_buffer(opts: &mut Vec<ElementOption>, buf: &Vec<u8>)
    ensures
        views(final(opts)@) == ordered_by_buffer(views(old(opts)@), buf@),
{
    let n = opts.len();
    let mut off: usize = 0;
    let mut i: usize = 0;
    while i < n
        invariant
            i <= n,
            opts@.len() == n,
            off <= buf@.len(),
            reorder_from(views(opts@), buf@, i as int, off as nat)
                == ordered_by_buffer(views(old(opts)@), buf@),
        decreases n - i,
    {
        let ghost before = views(opts@);
        match first_match_exec(opts, buf, off, i) {
            Some(j) => {
                let w = encode(opts[j].value).len();
                proof {
                    lemma_first_match(before, buf@, off as nat, i as int);
                    lemma_encoding_len(opts@[j as int].value);
                    assert(before[j as int] == opts@[j as int]@);
                    assert(matches_at(before[j as int].value, buf@, off as nat));
                    assert(off + w <= buf@.len());
                }
                if i != j {
                    swap_options(opts, i, j);
                } else {
                    assert(swapped(before, i as int, j as int) =~= before);
                }
                let blen = buf.len();
                assert(off + w <= blen);
                off = off + w;
            },
            None => {},
        }
        i = i + 1;
    }
}

/// A backing buffer of `len` bytes that records the options' values in order.
pub fn serialize(opts: &Vec<ElementOption>, len: usize) -> (r: Vec<u8>)
    ensures
        r@ == serialized(values_of(views(opts@)), len as nat),
{
    let ghost vals = values_of(views(opts@));
    let mut out: Vec<u8> = Vec::new();
    let mut stopped = false;
    let mut i: usize = 0;
    assert(vals.skip(0) =~= vals);
    assert(out@ + packed(vals, len as nat) =~= packed(vals, len as nat));
    while i < opts.len()
        invariant
            i <= opts@.len(),
            vals == values_of(views(opts@)),
            out@.len() <= len,
            !stopped ==> out@ + packed(vals.skip(i as int), (len - out@.len()) as nat)
                == packed(vals, len as nat),
            stopped ==> out@ == packed(vals, len as nat),
        decreases opts@.len() - i,
    {
        if !stopped {
            let mut e = encode(opts[i].value);
            let ghost room = (len - out@.len()) as nat;
            let ghost rest = vals.skip(i as int);
            assert(rest[0] == vals[i as int]);
            assert(rest.drop_first() =~= vals.skip(i + 1));
            if e.len() <= len - out.len() {
                let ghost prev = out@;
                let ghost ee = e@;
                out.append(&mut e);
                assert(out@ + packed(vals.skip(i + 1), (len - out@.len()) as nat)
                    =~= prev + (ee + packed(rest.drop_first(), (room - ee.len()) as nat)));
            } else {
                stopped = true;
                assert(out@ + Seq::<u8>::empty() =~= out@);
            }
        }
        i = i + 1;
    }
    if !stopped {
        assert(vals.skip(i as int) =~= Seq::<Value>::empty());
        assert(out@ + Seq::<u8>::empty() =~= out@);
    }
    let ghost p = out@;
    while out.len() < len
        invariant
            p.len() <= out@.len() <= len,
            out@ =~= p + Seq::new((out@.len() - p.len()) as nat, |_k: int| 0u8),
        decreases len - out@.len(),
    {
        out.push(0u8);
    }
    out
}

} // verus!
