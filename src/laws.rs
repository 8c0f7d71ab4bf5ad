//! Properties of the editor that relate several inputs.
use vstd::prelude::*;
use crate::calculator::{
    after_clear_entry, after_decimal, after_digit, after_operator, breaks_number, display_without_operator,
    current_number, display_ok, number_start, operator_refused, recorded, without_operator,
    zero_text, HISTORY_LIMIT,
};
use crate::text::{balance, depth_ok, is_binary_op, is_digit, lemma_push_char};

verus! {

/// Expression and display after the characters of `ds` are typed one by one
/// as digits into a fresh editor.
pub open spec fn typed_digits(ds: Seq<char>) -> (Seq<char>, Seq<char>)
    decreases ds.len(),
{
    if ds.len() == 0 {
        (seq![], zero_text())
    } else {
        let p = typed_digits(ds.drop_last());
        after_digit(p.0, p.1, ds.last())
    }
}

/// `ds` without its leading zeros, though never shorter than one digit.
pub open spec fn without_leading_zeros(ds: Seq<char>) -> Seq<char>
    decreases ds.len(),
{
    if ds.len() > 1 && ds[0] == '0' {
        without_leading_zeros(ds.drop_first())
    } else {
        ds
    }
}

proof fn lemma_strip_zeros_push(ds: Seq<char>, c: char)
    ensures
        without_leading_zeros(ds.push(c)) == if ds.len() == 0 || without_leading_zeros(ds)
            == zero_text() {
            seq![c]
        } else {
            without_leading_zeros(ds).push(c)
        },
    decreases ds.len(),
{
    let dc = ds.push(c);
    if ds.len() == 0 {
        assert(dc =~= seq![c]);
    } else if ds[0] == '0' {
        assert(dc[0] == ds[0]);
        assert(dc.drop_first() =~= ds.drop_first().push(c));
        if ds.len() == 1 {
            assert(ds =~= zero_text());
            assert(dc.drop_first() =~= seq![c]);
            assert(without_leading_zeros(seq![c]) == seq![c]);
            assert(without_leading_zeros(dc) == without_leading_zeros(dc.drop_first()));
        } else {
            lemma_strip_zeros_push(ds.drop_first(), c);
        }
    } else {
        assert(dc[0] == ds[0]);
        assert(ds != zero_text());
    }
}

/// Typing only digits keeps the expression and the display equal, and both
/// hold the digits typed with the leading zeros replaced.
pub proof fn lemma_digits_typed(ds: Seq<char>)
    requires
        forall|i: int| 0 <= i < ds.len() ==> is_digit(#[trigger] ds[i]),
    ensures
        ds.len() > 0 ==> typed_digits(ds).0 == typed_digits(ds).1,
        ds.len() > 0 ==> typed_digits(ds).0 == without_leading_zeros(ds),
    decreases ds.len(),
{
    if ds.len() > 0 {
        let p = ds.drop_last();
        let c = ds.last();
        assert(is_digit(ds[ds.len() - 1]));
        assert(p.push(c) =~= ds);
        lemma_strip_zeros_push(p, c);
        if p.len() == 0 {
            assert(p =~= seq![]);
            assert(typed_digits(p) == (Seq::<char>::empty(), zero_text()));
            assert(ds =~= seq![c]);
        } else {
            assert forall|i: int| 0 <= i < p.len() implies is_digit(#[trigger] p[i]) by {
                assert(p[i] == ds[i]);
            }
            lemma_digits_typed(p);
        }
    }
}

proof fn lemma_number_start_bound(s: Seq<char>)
    ensures
        0 <= number_start(s) <= s.len(),
    decreases s.len(),
{
    if s.len() > 0 {
        lemma_number_start_bound(s.drop_last());
    }
}

/// A second decimal point on the same number changes nothing.
pub proof fn lemma_decimal_idempotent(e: Seq<char>, d: Seq<char>)
    ensures
        ({
            let p = after_decimal(e, d);
            after_decimal(p.0, p.1) == p
        }),
{
    let p = after_decimal(e, d);
    let e1 = p.0;
    if e1 != e {
        assert(e1.len() > 0 && e1.last() == '.' && !breaks_number(e1.last()));
        assert(e1.drop_last().push('.') =~= e1);
        lemma_number_start_bound(e1.drop_last());
        let k = number_start(e1);
        assert(k == number_start(e1.drop_last()));
        let cur = current_number(e1);
        assert(cur[e1.len() - 1 - k] == '.');
        assert(cur.contains('.'));
    }
}

/// Two operators in a row leave what the second alone would have left.
pub proof fn lemma_operator_replaces(e: Seq<char>, d: Seq<char>, op1: char, op2: char)
    requires
        e.len() > 0,
        display_ok(e, d),
        is_binary_op(op1),
        is_binary_op(op2),
    ensures
        ({
            let p = after_operator(e, d, op1);
            after_operator(p.0, p.1, op2) == after_operator(e, d, op2)
        }),
{
    let b = without_operator(e);
    let sd = display_without_operator(e, d);
    let p = after_operator(e, d, op1);
    assert(sd.len() > 0);
    assert(sd == zero_text() ==> b == zero_text() || b.len() == 0);
    if operator_refused(e, op1) {
        assert(without_operator(p.0) == b);
        assert(display_without_operator(p.0, p.1) == sd);
    } else if b.len() == 0 {
        assert(p.0.drop_last() =~= b);
        assert(without_operator(p.0) == b);
        assert(display_without_operator(p.0, p.1) == sd);
    } else {
        assert(p.0.drop_last() =~= b);
        assert(p.1.drop_last() =~= sd);
        assert(without_operator(p.0) == b);
        assert(display_without_operator(p.0, p.1) == sd);
    }
}

/// `n` backspaces from the given expression, display and depth.
pub open spec fn cleared(e: Seq<char>, d: Seq<char>, depth: int, n: nat) -> (
    Seq<char>,
    Seq<char>,
    int,
)
    decreases n,
{
    if n == 0 {
        (e, d, depth)
    } else {
        let x = after_clear_entry(e, d, depth);
        cleared(x.0, x.1, x.2, (n - 1) as nat)
    }
}

/// Backspacing until the expression is empty leaves the display showing `0`
/// and no group open, whatever characters were taken away.
pub proof fn lemma_clear_entry_until_empty(e: Seq<char>, d: Seq<char>, depth: int)
    requires
        depth_ok(e),
        depth == balance(e),
        display_ok(e, d),
    ensures
        cleared(e, d, depth, e.len()) == (Seq::<char>::empty(), zero_text(), 0int),
    decreases e.len(),
{
    if e.len() == 0 {
        assert(e =~= Seq::<char>::empty());
    } else {
        let x = after_clear_entry(e, d, depth);
        assert(e.drop_last().push(e.last()) =~= e);
        lemma_push_char(e.drop_last(), e.last());
        assert(display_ok(x.0, x.1));
        lemma_clear_entry_until_empty(x.0, x.1, x.2);
        assert(x.0.len() == (e.len() - 1) as nat);
    }
}

/// The history keeps at most its limit of entries: a new entry always goes
/// last, and once the history is full the oldest entry leaves.
pub proof fn lemma_history_fifo(h: Seq<(Seq<char>, Seq<char>)>, x: (Seq<char>, Seq<char>))
    requires
        h.len() <= HISTORY_LIMIT,
    ensures
        recorded(h, x).len() <= HISTORY_LIMIT,
        recorded(h, x).last() == x,
        h.len() < HISTORY_LIMIT ==> recorded(h, x) == h.push(x),
        h.len() == HISTORY_LIMIT ==> recorded(h, x) == h.skip(1).push(x),
{
    if h.len() == HISTORY_LIMIT {
        assert(h.push(x).skip(1) =~= h.skip(1).push(x));
    }
}

} // verus!
