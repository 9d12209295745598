//! Text as sequences of characters: conversion and lexicographic order.

use vstd::prelude::*;

verus! {

/// The characters of `s`, in order.
pub fn chars_of(s: &str) -> (out: Vec<char>)
    ensures
        out@ == s@,
{
    let mut out: Vec<char> = Vec::new();
    for c in it: s.chars()
        invariant
            it.seq() == s@,
            out@ == s@.take(it.index() as int),
    {
        out.push(c);
    }
    out
}

/// `a` comes before `b`, or equals it, in the lexicographic order of their
/// characters from index `from` on, given that they agree before `from`.
/// Characters are ordered by their code points.
pub open spec fn ordered_from(a: Seq<char>, b: Seq<char>, from: int) -> bool
    decreases a.len() - from,
{
    if from < 0 || from >= a.len() {
        true
    } else if from >= b.len() {
        false
    } else if a[from] != b[from] {
        a[from] < b[from]
    } else {
        ordered_from(a, b, from + 1)
    }
}

/// `a` comes before `b`, or equals it, in lexicographic order: at the first
/// index where they differ `a` holds the smaller character, or `a` is a
/// prefix of `b`.
pub open spec fn ordered(a: Seq<char>, b: Seq<char>) -> bool {
    ordered_from(a, b, 0)
}

/// Of two texts that agree before `from`, one comes before the other or they
/// are equal.
pub proof fn lemma_ordered_total(a: Seq<char>, b: Seq<char>, from: int)
    requires
        0 <= from,
    ensures
        ordered_from(a, b, from) || ordered_from(b, a, from),
    decreases a.len() - from,
{
    if from < a.len() && from < b.len() && a[from] == b[from] {
        lemma_ordered_total(a, b, from + 1);
    }
}

/// The order is transitive.
pub proof fn lemma_ordered_transitive(a: Seq<char>, b: Seq<char>, c: Seq<char>, from: int)
    requires
        0 <= from,
        ordered_from(a, b, from),
        ordered_from(b, c, from),
    ensures
        ordered_from(a, c, from),
    decreases a.len() - from,
{
    if from < a.len() && from < b.len() && from < c.len() && a[from] == b[from] && b[from]
        == c[from] {
        lemma_ordered_transitive(a, b, c, from + 1);
    }
}

/// Whether `a` comes before `b`, or equals it, in lexicographic order.
pub fn precedes(a: &str, b: &str) -> (le: bool)
    ensures
        le == ordered(a@, b@),
{
    let x = chars_of(a);
    let y = chars_of(b);
    let mut i: usize = 0;
    while i < x.len()
        invariant
            x@ == a@,
            y@ == b@,
            i <= x.len(),
            ordered(x@, y@) == ordered_from(x@, y@, i as int),
        decreases x.len() - i,
    {
        if i >= y.len() {
            return false;
        }
        if x[i] != y[i] {
            return x[i] < y[i];
        }
        i = i + 1;
    }
    true
}

} // verus!
