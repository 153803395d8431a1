use vstd::prelude::*;
use crate::template::strings_view;
use crate::text::{decimal, push_char, push_decimal};

verus! {

/// The payload shape of a variant.
#[derive(Debug)]
pub enum Shape {
    /// No payload.
    Unit,
    /// A number of positional slots, referred to as `_0`, `_1`, ...
    Positional(usize),
    /// Named fields, in declaration order.
    Named(Vec<String>),
}

/// The synthesized name of positional slot `k`: `_` followed by `k` in decimal.
pub open spec fn positional_name(k: nat) -> Seq<char> {
    seq!['_'] + decimal(k)
}

/// The reference names of a shape's slots, in slot order.
pub open spec fn slot_names(shape: Shape) -> Seq<Seq<char>> {
    match shape {
        Shape::Unit => Seq::empty(),
        Shape::Positional(n) => Seq::new(n as nat, |k: int| positional_name(k as nat)),
        Shape::Named(fields) => strings_view(fields@),
    }
}

/// The index of the first of `names` equal to `name`, or `names.len()` when there is none.
pub open spec fn position(names: Seq<Seq<char>>, name: Seq<char>) -> nat
    decreases names.len(),
{
    if names.len() == 0 {
        0
    } else if names[0] == name {
        0
    } else {
        1 + position(names.drop_first(), name)
    }
}

pub proof fn lemma_position_bound(names: Seq<Seq<char>>, name: Seq<char>)
    ensures
        position(names, name) <= names.len(),
    decreases names.len(),
{
    if names.len() > 0 && names[0] != name {
        lemma_position_bound(names.drop_first(), name);
    }
}

/// Builds the reference names of a shape's slots: for positional slots `_0, _1, ...`, for
/// named fields the field names.
pub fn slot_names_of(shape: &Shape) -> (r: Vec<String>)
    ensures
        strings_view(r@) == slot_names(*shape),
{
    let mut r: Vec<String> = Vec::new();
    match shape {
        Shape::Unit => {},
        Shape::Positional(n) => {
            let n = *n;
            let mut k: usize = 0;
            while k < n
                invariant
                    k <= n,
                    strings_view(r@) == Seq::new(k as nat, |j: int| positional_name(j as nat)),
                decreases n - k,
            {
                let mut name = String::new();
                push_char(&mut name, '_');
                push_decimal(&mut name, k as u64);
                assert(name@ =~= positional_name(k as nat));
                let ghost r0 = r@;
                r.push(name);
                assert(strings_view(r@) =~= strings_view(r0).push(positional_name(k as nat)));
                k = k + 1;
                assert(strings_view(r@) =~= Seq::new(k as nat, |j: int| positional_name(j as nat)));
            }
        },
        Shape::Named(fields) => {
            let mut k: usize = 0;
            while k < fields.len()
                invariant
                    k <= fields@.len(),
                    strings_view(r@) == strings_view(fields@.take(k as int)),
                decreases fields@.len() - k,
            {
                let ghost r0 = r@;
                r.push(fields[k].clone());
                assert(strings_view(r@) =~= strings_view(r0).push(fields@[k as int]@));
                assert(fields@.take(k + 1) =~= fields@.take(k as int).push(fields@[k as int]));
                k = k + 1;
                assert(strings_view(r@) =~= strings_view(fields@.take(k as int)));
            }
            assert(fields@.take(k as int) =~= fields@);
        },
    }
    proof {
        if shape is Unit {
            assert(strings_view(r@) =~= Seq::empty());
        }
    }
    r
}

/// The number of slots of a shape.
pub fn slot_count(shape: &Shape) -> (r: usize)
    ensures
        r == slot_names(*shape).len(),
{
    match shape {
        Shape::Unit => 0,
        Shape::Positional(n) => *n,
        Shape::Named(fields) => fields.len(),
    }
}

/// Resolves a reference name against the slot names: the first slot with that name.
pub fn lookup(names: &Vec<String>, name: &String) -> (r: Option<usize>)
    ensures
        match r {
            Some(k) => k == position(strings_view(names@), name@) && k < names@.len(),
            None => position(strings_view(names@), name@) == names@.len(),
        },
{
    let ghost all = strings_view(names@);
    let mut i: usize = 0;
    assert(all.skip(0) =~= all);
    while i < names.len()
        invariant
            i <= names@.len(),
            all == strings_view(names@),
            position(all, name@) == i + position(all.skip(i as int), name@),
        decreases names@.len() - i,
    {
        assert(all.skip(i as int).drop_first() =~= all.skip(i + 1));
        if names[i] == *name {
            return Some(i);
        }
        i = i + 1;
    }
    None
}

} // verus!
