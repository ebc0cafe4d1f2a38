//! Identity labels.
//!
//! The broadcast scheme names identities by strings. The identity of slot
//! `i` is the number `i` written in decimal, without sign or leading zeros.
use crate::M;
use vstd::prelude::*;
use vstd::string::StringExecFns;

verus! {

/// The character for the decimal digit `d`.
pub open spec fn digit_char(d: nat) -> char {
    if d == 0 {
        '0'
    } else if d == 1 {
        '1'
    } else if d == 2 {
        '2'
    } else if d == 3 {
        '3'
    } else if d == 4 {
        '4'
    } else if d == 5 {
        '5'
    } else if d == 6 {
        '6'
    } else if d == 7 {
        '7'
    } else if d == 8 {
        '8'
    } else {
        '9'
    }
}

/// `n` written in decimal.
pub open spec fn decimal(n: nat) -> Seq<char>
    decreases n,
{
    if n < 10 {
        seq![digit_char(n)]
    } else {
        decimal(n / 10).push(digit_char(n % 10))
    }
}

/// The labels of `ids`, in the same order.
pub open spec fn labels_of(ids: Seq<usize>) -> Seq<Seq<char>> {
    Seq::new(ids.len(), |j: int| decimal(ids[j] as nat))
}

/// The labels of all slots of the universe, in slot order.
pub open spec fn universe() -> Seq<Seq<char>> {
    Seq::new(M as nat, |i: int| decimal(i as nat))
}

/// The number that a string of decimal digits spells; the inverse of
/// `decimal`.
pub open spec fn decimal_value(digits: Seq<char>) -> nat
    decreases digits.len(),
{
    if digits.len() == 0 {
        0
    } else {
        10 * decimal_value(digits.drop_last()) + digit_value(digits.last())
    }
}

/// The digit that a character stands for.
pub open spec fn digit_value(c: char) -> nat {
    if c == '1' {
        1
    } else if c == '2' {
        2
    } else if c == '3' {
        3
    } else if c == '4' {
        4
    } else if c == '5' {
        5
    } else if c == '6' {
        6
    } else if c == '7' {
        7
    } else if c == '8' {
        8
    } else if c == '9' {
        9
    } else {
        0
    }
}

/// Reading a label back gives the number it was written for.
pub proof fn lemma_decimal_value(n: nat)
    ensures
        decimal_value(decimal(n)) == n,
    decreases n,
{
    if n < 10 {
        let s = seq![digit_char(n)];
        assert(s.drop_last() =~= Seq::<char>::empty());
        assert(s.last() == digit_char(n));
        assert(decimal_value(s.drop_last()) == 0);
    } else {
        lemma_decimal_value(n / 10);
        let s = decimal(n / 10).push(digit_char(n % 10));
        assert(s.drop_last() =~= decimal(n / 10));
        assert(s.last() == digit_char(n % 10));
    }
}

/// Two slots have the same label only if they are the same slot.
pub proof fn lemma_labels_differ(a: nat, b: nat)
    requires
        decimal(a) == decimal(b),
    ensures
        a == b,
{
    lemma_decimal_value(a);
    lemma_decimal_value(b);
}

/// The one-character string for the decimal digit `d`.
fn digit(d: usize) -> (s: &'static str)
    requires
        d < 10,
    ensures
        s@ == seq![digit_char(d as nat)],
{
    proof {
        reveal_strlit("0");
        reveal_strlit("1");
        reveal_strlit("2");
        reveal_strlit("3");
        reveal_strlit("4");
        reveal_strlit("5");
        reveal_strlit("6");
        reveal_strlit("7");
        reveal_strlit("8");
        reveal_strlit("9");
    }
    let s = if d == 0 {
        "0"
    } else if d == 1 {
        "1"
    } else if d == 2 {
        "2"
    } else if d == 3 {
        "3"
    } else if d == 4 {
        "4"
    } else if d == 5 {
        "5"
    } else if d == 6 {
        "6"
    } else if d == 7 {
        "7"
    } else if d == 8 {
        "8"
    } else {
        "9"
    };
    assert(s@ =~= seq![digit_char(d as nat)]);
    s
}

/// The identity label of slot `id`.
pub fn label(id: usize) -> (text: String)
    ensures
        text@ == decimal(id as nat),
    decreases id,
{
    if id < 10 {
        digit(id).to_owned()
    } else {
        let mut text = label(id / 10);
        text.append(digit(id % 10));
        assert(text@ =~= decimal((id / 10) as nat).push(digit_char((id % 10) as nat)));
        text
    }
}

/// The identity labels of the slots `ids`, in the same order.
pub fn labels(ids: &[usize]) -> (texts: Vec<String>)
    ensures
        texts.deep_view() == labels_of(ids@),
{
    let mut texts: Vec<String> = Vec::with_capacity(ids.len());
    let mut n: usize = 0;
    while n < ids.len()
        invariant
            n <= ids.len(),
            texts@.len() == n,
            forall|j: int| 0 <= j < n ==> texts@[j]@ == decimal(ids@[j] as nat),
        decreases ids.len() - n,
    {
        texts.push(label(ids[n]));
        n += 1;
    }
    assert(texts.deep_view() =~= labels_of(ids@));
    texts
}

/// The identity labels of all slots of the universe, in slot order: the
/// identities that a fresh key needs one slot key for.
pub fn identities() -> (texts: Vec<String>)
    ensures
        texts.deep_view() == universe(),
{
    let mut texts: Vec<String> = Vec::with_capacity(M);
    let mut id: usize = 0;
    while id < M
        invariant
            id <= M,
            texts@.len() == id,
            forall|j: int| 0 <= j < id ==> texts@[j]@ == decimal(j as nat),
        decreases M - id,
    {
        texts.push(label(id));
        id += 1;
    }
    assert(texts.deep_view() =~= universe());
    texts
}

} // verus!
