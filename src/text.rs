//! Character classes and small string helpers shared by the editor.
use vstd::prelude::*;
use vstd::string::*;

verus! {

/// An ASCII decimal digit.
pub open spec fn is_digit(c: char) -> bool {
    '0' <= c && c <= '9'
}

/// One of the binary operators of the editor: `+ − × ÷`.
pub open spec fn is_binary_op(c: char) -> bool {
    c == '+' || c == '−' || c == '×' || c == '÷'
}

/// A character after which a new operand starts.
pub open spec fn is_operand_boundary(c: char) -> bool {
    is_binary_op(c) || c == '('
}

/// Either minus glyph: the operator `−`, or the ASCII `-` that a result text
/// may start with.
pub open spec fn is_minus(c: char) -> bool {
    c == '-' || c == '−'
}

/// A character that ends an operand, so that a juxtaposed operand multiplies it.
pub open spec fn closes_operand(c: char) -> bool {
    is_digit(c) || c == ')' || c == 'π' || c == 'e'
}

/// Change of parenthesis depth that one character causes.
pub open spec fn paren_delta(c: char) -> int {
    if c == '(' {
        1
    } else if c == ')' {
        -1
    } else {
        0
    }
}

/// Number of `(` minus number of `)`.
pub open spec fn balance(s: Seq<char>) -> int
    decreases s.len(),
{
    if s.len() == 0 {
        0
    } else {
        balance(s.drop_last()) + paren_delta(s.last())
    }
}

/// Every prefix has at least as many `(` as `)`, and fewer than `i32::MAX` more.
pub open spec fn depth_ok(s: Seq<char>) -> bool
    decreases s.len(),
{
    if s.len() == 0 {
        true
    } else {
        depth_ok(s.drop_last()) && 0 <= balance(s) < i32::MAX
    }
}

/// No parenthesis in the text.
pub open spec fn paren_free(s: Seq<char>) -> bool {
    forall|i: int| 0 <= i < s.len() ==> #[trigger] s[i] != '(' && s[i] != ')'
}

/// The last character of a text, if any.
pub open spec fn last_of(s: Seq<char>) -> Option<char> {
    if s.len() == 0 {
        None
    } else {
        Some(s.last())
    }
}

/// Appending text without parentheses changes neither the balance nor the
/// nesting of a text.
pub proof fn lemma_append_paren_free(s: Seq<char>, t: Seq<char>)
    requires
        paren_free(t),
    ensures
        balance(s + t) == balance(s),
        depth_ok(s + t) == depth_ok(s),
    decreases t.len(),
{
    if t.len() == 0 {
        assert(s + t =~= s);
    } else {
        assert(paren_free(t.drop_last()));
        lemma_append_paren_free(s, t.drop_last());
        assert((s + t).drop_last() =~= s + t.drop_last());
        assert(t.last() == t[t.len() - 1]);
    }
}

/// A nested text stays nested when one character without parentheses is put
/// into it or taken out of it.
pub proof fn lemma_splice_paren_free(a: Seq<char>, c: char, b: Seq<char>)
    requires
        c != '(' && c != ')',
    ensures
        balance(a.push(c) + b) == balance(a + b),
        depth_ok(a.push(c) + b) == depth_ok(a + b),
    decreases b.len(),
{
    if b.len() == 0 {
        assert(a.push(c) + b =~= a.push(c));
        assert(a + b =~= a);
        assert(a.push(c).drop_last() =~= a);
    } else {
        lemma_splice_paren_free(a, c, b.drop_last());
        assert((a.push(c) + b).drop_last() =~= a.push(c) + b.drop_last());
        assert((a + b).drop_last() =~= a + b.drop_last());
    }
}

/// Relies on `String::from_iter`: collecting characters gives a string of
/// exactly those characters, in order.
#[verifier::external_body]
pub fn string_of(v: &[char]) -> (r: String)
    ensures
        r@ == v@,
{
    String::from_iter(v.iter())
}

/// The characters of a string, in order.
pub fn chars_of(s: &str) -> (r: Vec<char>)
    ensures
        r@ == s@,
{
    let n = s.unicode_len();
    let mut r: Vec<char> = Vec::new();
    let mut i: usize = 0;
    while i < n
        invariant
            n == s@.len(),
            i <= n,
            r@ == s@.take(i as int),
        decreases n - i,
    {
        r.push(s.get_char(i));
        i += 1;
        assert(r@ =~= s@.take(i as int));
    }
    assert(s@.take(n as int) =~= s@);
    r
}

/// The last character of a string, if any.
pub fn last_char(s: &str) -> (r: Option<char>)
    ensures
        r == last_of(s@),
{
    let n = s.unicode_len();
    if n == 0 {
        None
    } else {
        Some(s.get_char(n - 1))
    }
}

/// Whether a string is exactly `"0"`.
pub fn is_zero_text(s: &str) -> (r: bool)
    ensures
        r == (s@ == seq!['0']),
{
    let n = s.unicode_len();
    if n != 1 {
        proof {
            if s@ == seq!['0'] {
                assert(s@.len() == 1);
            }
        }
        false
    } else {
        let c = s.get_char(0);
        proof {
            if c == '0' {
                assert(s@ =~= seq!['0']);
            }
        }
        c == '0'
    }
}

/// Balance and nesting of a text after one more character.
pub proof fn lemma_push_char(s: Seq<char>, c: char)
    ensures
        balance(s.push(c)) == balance(s) + paren_delta(c),
        depth_ok(s.push(c)) == (depth_ok(s) && 0 <= balance(s) + paren_delta(c) < i32::MAX),
{
    assert(s.push(c).drop_last() =~= s);
}

/// A nested text has a non-negative balance.
pub proof fn lemma_depth_ok_balance(s: Seq<char>)
    requires
        depth_ok(s),
    ensures
        0 <= balance(s) < i32::MAX,
{
}

/// Whether `c` is one of the binary operators.
pub fn is_binary_op_exec(c: char) -> (r: bool)
    ensures
        r == is_binary_op(c),
{
    c == '+' || c == '−' || c == '×' || c == '÷'
}

/// Whether a new operand starts after `c`.
pub fn is_operand_boundary_exec(c: char) -> (r: bool)
    ensures
        r == is_operand_boundary(c),
{
    is_binary_op_exec(c) || c == '('
}

/// Whether `c` ends an operand.
pub fn closes_operand_exec(c: char) -> (r: bool)
    ensures
        r == closes_operand(c),
{
    ('0' <= c && c <= '9') || c == ')' || c == 'π' || c == 'e'
}

/// A string without its last character.
pub fn without_last(s: &str) -> (r: String)
    requires
        s@.len() > 0,
    ensures
        r@ == s@.drop_last(),
{
    let n = s.unicode_len();
    String::from_str(s.substring_char(0, n - 1))
}

} // verus!
