//! The rewrite that turns the edited expression into plain infix text for the
//! evaluator: glyph substitution, implicit multiplication and the degree to
//! radian rewrite of trigonometric calls.
use vstd::prelude::*;
use vstd::string::*;
use vstd::utf8::encode_utf8;
use crate::text::{chars_of, is_digit, paren_delta, string_of};

verus! {

/// Evaluator text for one character of the edited expression.
pub open spec fn token_of(c: char) -> Seq<char> {
    if c == '×' {
        seq!['*']
    } else if c == '÷' {
        seq!['/']
    } else if c == '−' {
        seq!['-']
    } else if c == 'π' {
        seq!['p', 'i']
    } else {
        seq![c]
    }
}

/// Every display glyph replaced by its evaluator token.
pub open spec fn substituted(s: Seq<char>) -> Seq<char>
    decreases s.len(),
{
    if s.len() == 0 {
        seq![]
    } else {
        substituted(s.drop_last()) + token_of(s.last())
    }
}

/// `n` closing parentheses.
pub open spec fn closers(n: nat) -> Seq<char> {
    Seq::new(n, |i: int| ')')
}

/// The identifiers that the evaluator knows, in the order they are tried.
/// None is a prefix of another, so the first that occurs is the longest.
pub open spec fn known_names() -> Seq<Seq<char>> {
    seq![
        seq!['s', 'i', 'n'],
        seq!['c', 'o', 's'],
        seq!['t', 'a', 'n'],
        seq!['a', 's', 'i', 'n'],
        seq!['a', 'c', 'o', 's'],
        seq!['a', 't', 'a', 'n'],
        seq!['l', 'o', 'g', '1', '0'],
        seq!['l', 'n'],
        seq!['s', 'q', 'r', 't'],
        seq!['a', 'b', 's'],
        seq!['e', 'x', 'p'],
        seq!['p', 'i'],
    ]
}

/// `w` stands in `s` from position `i` on.
pub open spec fn occurs_at(s: Seq<char>, i: int, w: Seq<char>) -> bool {
    0 <= i && i + w.len() <= s.len() && s.subrange(i, i + w.len()) == w
}

/// Length of the first known name from index `k` of the table on that occurs
/// at `i`, or 0.
pub open spec fn known_from(s: Seq<char>, i: int, k: int) -> nat
    decreases known_names().len() - k,
{
    if k < 0 || k >= known_names().len() {
        0
    } else if occurs_at(s, i, known_names()[k]) {
        known_names()[k].len()
    } else {
        known_from(s, i, k + 1)
    }
}

/// Length of the known name that occurs at `i`, or 0.
pub open spec fn known_len_at(s: Seq<char>, i: int) -> nat {
    known_from(s, i, 0)
}

/// A character after which a juxtaposed call, constant or group multiplies.
pub open spec fn closes_factor(c: char) -> bool {
    is_digit(c) || c == ')'
}

/// The text with `*` put where the next factor needs one after `acc`.
pub open spec fn with_mul(acc: Seq<char>, needed: bool) -> Seq<char> {
    if needed {
        acc.push('*')
    } else {
        acc
    }
}

/// Scanning `s` from `i` with `acc` written so far, `after_name` telling
/// whether `acc` ends in a known name: a known name that follows a digit or
/// `)`, a `(` that follows a digit or `)`, and a digit that follows `)` each
/// get a `*` in front. The characters of a name are no number, so nothing
/// follows a name with a `*`.
pub open spec fn implicit_mul_from(s: Seq<char>, i: int, acc: Seq<char>, after_name: bool) -> Seq<
    char,
>
    decreases s.len() - i,
{
    if i < 0 || i >= s.len() {
        acc
    } else {
        let n = known_len_at(s, i);
        if n > 0 && i + n <= s.len() {
            let needed = !after_name && acc.len() > 0 && closes_factor(acc.last());
            implicit_mul_from(s, i + n, with_mul(acc, needed) + s.subrange(i, i + n), true)
        } else {
            let c = s[i];
            let needed = !after_name && acc.len() > 0 && ((c == '(' && closes_factor(acc.last()))
                || (is_digit(c) && acc.last() == ')'));
            implicit_mul_from(s, i + 1, with_mul(acc, needed).push(c), false)
        }
    }
}

/// The text with every implicit multiplication written out.
pub open spec fn implicit_mul(s: Seq<char>) -> Seq<char> {
    implicit_mul_from(s, 0, seq![], false)
}

/// Scanning from `j` at parenthesis depth `depth`: the first position where
/// the depth comes back to zero.
pub open spec fn close_scan(s: Seq<char>, j: int, depth: int) -> Option<int>
    decreases s.len() - j,
{
    if j < 0 || j >= s.len() {
        None
    } else {
        let d = depth + paren_delta(s[j]);
        if d == 0 {
            Some(j)
        } else {
            close_scan(s, j + 1, d)
        }
    }
}

/// Position of the `)` that matches the `(` at `open`, if `s` has a `(` there
/// and it is closed.
pub open spec fn closing_from(s: Seq<char>, open: int) -> Option<int> {
    if open < 0 || open + 1 >= s.len() || s[open] != '(' {
        None
    } else {
        close_scan(s, open + 1, 1)
    }
}

/// The decimal text of pi / 180 that multiplies a trigonometric argument.
pub open spec fn deg_to_rad_text() -> Seq<char> {
    seq![
        '0', '.', '0', '1', '7', '4', '5', '3', '2', '9', '2', '5', '1', '9', '9', '4', '3',
        '2', '9', '5',
    ]
}

/// The call `f(inner)` with its argument turned from degrees into radians.
pub open spec fn radians_call(f: Seq<char>, inner: Seq<char>) -> Seq<char> {
    f + seq!['(', '('] + inner + seq![')', '*'] + deg_to_rad_text() + seq![')']
}

/// A letter of a name.
pub open spec fn is_letter(c: char) -> bool {
    ('a' <= c && c <= 'z') || ('A' <= c && c <= 'Z')
}

/// A call of `f` starts at `i`: `f(` stands there and is not the tail of a
/// longer name such as `asin`.
pub open spec fn call_at(s: Seq<char>, i: int, f: Seq<char>) -> bool {
    occurs_at(s, i, f.push('(')) && (i == 0 || !is_letter(s[i - 1]))
}

/// Scanning `s` from `i` with `acc` written so far: each call `f(...)` whose
/// parenthesis is closed gets its argument scaled to radians; one left open is
/// copied as it stands.
pub open spec fn radians_from(s: Seq<char>, f: Seq<char>, i: int, acc: Seq<char>) -> Seq<
    char,
>
    decreases s.len() - i,
{
    if i < 0 || i >= s.len() {
        acc
    } else if call_at(s, i, f) {
        match closing_from(s, i + f.len()) {
            Some(end) => if i <= end < s.len() {
                radians_from(
                    s,
                    f,
                    end + 1,
                    acc + radians_call(f, s.subrange(i + f.len() + 1, end)),
                )
            } else {
                acc
            },
            None => radians_from(s, f, i + f.len() + 1, acc + f.push('(')),
        }
    } else {
        radians_from(s, f, i + 1, acc.push(s[i]))
    }
}

/// Every closed `f(...)` call in `s` with its argument scaled to radians.
pub open spec fn radians_for(s: Seq<char>, f: Seq<char>) -> Seq<char> {
    radians_from(s, f, 0, seq![])
}

/// The arguments of `sin`, `cos` and `tan` calls scaled from degrees to radians.
pub open spec fn to_radians(s: Seq<char>) -> Seq<char> {
    radians_for(
        radians_for(radians_for(s, seq!['s', 'i', 'n']), seq!['c', 'o', 's']),
        seq!['t', 'a', 'n'],
    )
}

/// Appends `s[from..to]` to `acc`.
pub(crate) fn push_range(acc: &mut Vec<char>, s: &Vec<char>, from: usize, to: usize)
    requires
        from <= to <= s@.len(),
    ensures
        final(acc)@ == old(acc)@ + s@.subrange(from as int, to as int),
{
    let mut k: usize = from;
    while k < to
        invariant
            from <= k <= to <= s@.len(),
            acc@ == old(acc)@ + s@.subrange(from as int, k as int),
        decreases to - k,
    {
        acc.push(s[k]);
        k += 1;
        assert(acc@ =~= old(acc)@ + s@.subrange(from as int, k as int));
    }
}

/// Appends all of `s` to `acc`.
fn push_all(acc: &mut Vec<char>, s: &Vec<char>)
    ensures
        final(acc)@ == old(acc)@ + s@,
{
    push_range(acc, s, 0, s.len());
    assert(s@.subrange(0, s@.len() as int) =~= s@);
}

/// Replaces each display glyph by its evaluator token.
pub fn substitute_glyphs(s: &Vec<char>) -> (r: Vec<char>)
    ensures
        r@ == substituted(s@),
{
    let mut r: Vec<char> = Vec::new();
    let mut i: usize = 0;
    while i < s.len()
        invariant
            i <= s@.len(),
            r@ == substituted(s@.take(i as int)),
        decreases s.len() - i,
    {
        let c = s[i];
        if c == '×' {
            r.push('*');
        } else if c == '÷' {
            r.push('/');
        } else if c == '−' {
            r.push('-');
        } else if c == 'π' {
            r.push('p');
            r.push('i');
        } else {
            r.push(c);
        }
        assert(s@.take(i + 1).drop_last() =~= s@.take(i as int));
        i += 1;
        assert(r@ =~= substituted(s@.take(i as int)));
    }
    assert(s@.take(s@.len() as int) =~= s@);
    r
}

/// Whether `w` stands in `s` from position `i` on.
pub(crate) fn occurs_at_exec(s: &Vec<char>, i: usize, w: &Vec<char>) -> (r: bool)
    ensures
        r == occurs_at(s@, i as int, w@),
{
    let n = s.len();
    if i > n || w.len() > n - i {
        return false;
    }
    let mut k: usize = 0;
    while k < w.len()
        invariant
            n == s@.len(),
            i <= s@.len(),
            i + w@.len() <= s@.len(),
            k <= w@.len(),
            forall|m: int| 0 <= m < k ==> s@[i + m] == w@[m],
        decreases w.len() - k,
    {
        if s[i + k] != w[k] {
            assert(s@.subrange(i as int, i + w@.len())[k as int] != w@[k as int]);
            return false;
        }
        k += 1;
    }
    assert(s@.subrange(i as int, i + w@.len()) =~= w@);
    true
}

/// The table of known names.
fn known_name_table() -> (r: Vec<Vec<char>>)
    ensures
        r@.len() == known_names().len(),
        forall|k: int| 0 <= k < r@.len() ==> #[trigger] r@[k]@ == known_names()[k],
{
    let r = vec![
        vec!['s', 'i', 'n'],
        vec!['c', 'o', 's'],
        vec!['t', 'a', 'n'],
        vec!['a', 's', 'i', 'n'],
        vec!['a', 'c', 'o', 's'],
        vec!['a', 't', 'a', 'n'],
        vec!['l', 'o', 'g', '1', '0'],
        vec!['l', 'n'],
        vec!['s', 'q', 'r', 't'],
        vec!['a', 'b', 's'],
        vec!['e', 'x', 'p'],
        vec!['p', 'i'],
    ];
    assert(r@.len() == known_names().len());
    assert forall|k: int| 0 <= k < r@.len() implies #[trigger] r@[k]@ == known_names()[k] by {
        assert(r@[k]@ =~= known_names()[k]);
    }
    r
}

/// Length of the known name that occurs at `i`, or 0.
fn known_len_at_exec(s: &Vec<char>, i: usize, table: &Vec<Vec<char>>) -> (r: usize)
    requires
        table@.len() == known_names().len(),
        forall|k: int| 0 <= k < table@.len() ==> #[trigger] table@[k]@ == known_names()[k],
    ensures
        r == known_len_at(s@, i as int),
{
    let mut k: usize = 0;
    while k < table.len()
        invariant
            table@.len() == known_names().len(),
            forall|k: int| 0 <= k < table@.len() ==> #[trigger] table@[k]@ == known_names()[k],
            k <= table@.len(),
            known_len_at(s@, i as int) == known_from(s@, i as int, k as int),
        decreases table.len() - k,
    {
        if occurs_at_exec(s, i, &table[k]) {
            assert(table@[k as int]@ == known_names()[k as int]);
            return table[k].len();
        }
        k += 1;
    }
    0
}

/// Writes out every implicit multiplication: a known function or constant
/// name, or a `(`, that follows a digit or `)`, and a digit that follows `)`.
pub fn add_implicit_multiplication(expr: &str) -> (r: String)
    ensures
        r@ == implicit_mul(expr@),
{
    let s = chars_of(expr);
    let table = known_name_table();
    let mut out: Vec<char> = Vec::new();
    let mut after_name = false;
    let mut i: usize = 0;
    while i < s.len()
        invariant
            s@ == expr@,
            table@.len() == known_names().len(),
            forall|k: int| 0 <= k < table@.len() ==> #[trigger] table@[k]@ == known_names()[k],
            i <= s@.len(),
            implicit_mul_from(s@, i as int, out@, after_name) == implicit_mul(expr@),
        decreases s.len() - i,
    {
        let n = known_len_at_exec(&s, i, &table);
        let last = if out.len() > 0 {
            Some(out[out.len() - 1])
        } else {
            None
        };
        if n > 0 {
            proof {
                lemma_known_len_fits(s@, i as int);
            }
            match last {
                Some(l) => {
                    if !after_name && (('0' <= l && l <= '9') || l == ')') {
                        out.push('*');
                    }
                },
                None => {},
            }
            push_range(&mut out, &s, i, i + n);
            after_name = true;
            i = i + n;
        } else {
            let c = s[i];
            match last {
                Some(l) => {
                    let digit_before = '0' <= l && l <= '9';
                    let digit_here = '0' <= c && c <= '9';
                    if !after_name && ((c == '(' && (digit_before || l == ')')) || (digit_here
                        && l == ')')) {
                        out.push('*');
                    }
                },
                None => {},
            }
            out.push(c);
            after_name = false;
            i = i + 1;
        }
    }
    string_of(out.as_slice())
}

/// A name that occurs at `i` ends within the text.
proof fn lemma_known_len_fits(s: Seq<char>, i: int)
    ensures
        i + known_len_at(s, i) <= s.len() || known_len_at(s, i) == 0,
{
    lemma_known_from_fits(s, i, 0);
}

proof fn lemma_known_from_fits(s: Seq<char>, i: int, k: int)
    ensures
        i + known_from(s, i, k) <= s.len() || known_from(s, i, k) == 0,
    decreases known_names().len() - k,
{
    if 0 <= k < known_names().len() && !occurs_at(s, i, known_names()[k]) {
        lemma_known_from_fits(s, i, k + 1);
    }
}

/// A `close_scan` hit lies within the scanned part.
proof fn lemma_close_scan_range(s: Seq<char>, j: int, depth: int)
    ensures
        close_scan(s, j, depth) matches Some(x) ==> j <= x < s.len(),
    decreases s.len() - j,
{
    if 0 <= j < s.len() && depth + paren_delta(s[j]) != 0 {
        lemma_close_scan_range(s, j + 1, depth + paren_delta(s[j]));
    }
}

/// Position of the `)` that matches the `(` at `open`.
fn matching_paren(s: &Vec<char>, open: usize) -> (r: Option<usize>)
    ensures
        match r {
            Some(j) => closing_from(s@, open as int) == Some(j as int),
            None => closing_from(s@, open as int) is None,
        },
{
    let n = s.len();
    if open >= n || open + 1 >= n || s[open] != '(' {
        return None;
    }
    let mut depth: usize = 1;
    let mut j: usize = open + 1;
    while j < n
        invariant
            n == s@.len(),
            open < j <= n,
            1 <= depth <= j - open,
            close_scan(s@, j as int, depth as int) == closing_from(s@, open as int),
        decreases n - j,
    {
        let c = s[j];
        if c == '(' {
            depth += 1;
        } else if c == ')' {
            depth -= 1;
            if depth == 0 {
                return Some(j);
            }
        }
        j += 1;
    }
    None
}

/// Position of the `)` that closes the call whose name takes the first
/// `func_len` characters of `s`, counted in characters; `None` when no `(`
/// follows the name or the call is never closed.
pub fn find_closing_paren(s: &str, func_len: usize) -> (r: Option<usize>)
    ensures
        match r {
            Some(j) => closing_from(s@, func_len as int) == Some(j as int),
            None => closing_from(s@, func_len as int) is None,
        },
{
    let chars = chars_of(s);
    matching_paren(&chars, func_len)
}

/// One pass of the degree rewrite, for the calls of `f`.
fn radians_pass(s: &Vec<char>, f: &Vec<char>) -> (r: Vec<char>)
    ensures
        r@ == radians_for(s@, f@),
{
    let mut pattern: Vec<char> = Vec::new();
    push_all(&mut pattern, f);
    pattern.push('(');
    let mut head: Vec<char> = Vec::new();
    push_all(&mut head, f);
    head.push('(');
    head.push('(');
    let mut tail: Vec<char> = vec![')', '*'];
    let factor = deg_to_rad_chars();
    push_all(&mut tail, &factor);
    tail.push(')');
    let n = s.len();
    let mut acc: Vec<char> = Vec::new();
    let mut i: usize = 0;
    while i < n
        invariant
            n == s@.len(),
            i <= n,
            pattern@ == f@.push('('),
            head@ == f@ + seq!['(', '('],
            tail@ == seq![')', '*'] + deg_to_rad_text() + seq![')'],
            radians_from(s@, f@, i as int, acc@) == radians_for(s@, f@),
        decreases n - i,
    {
        let name_start = i == 0 || !(('a' <= s[i - 1] && s[i - 1] <= 'z') || ('A' <= s[i - 1]
            && s[i - 1] <= 'Z'));
        if name_start && occurs_at_exec(s, i, &pattern) {
            let open = i + f.len();
            match matching_paren(s, open) {
                Some(end) => {
                    proof {
                        lemma_close_scan_range(s@, open + 1, 1);
                    }
                    let ghost before = acc@;
                    push_all(&mut acc, &head);
                    push_range(&mut acc, s, open + 1, end);
                    push_all(&mut acc, &tail);
                    assert(acc@ =~= before + radians_call(
                        f@,
                        s@.subrange(i + f@.len() + 1, end as int),
                    ));
                    i = end + 1;
                },
                None => {
                    push_all(&mut acc, &pattern);
                    i = open + 1;
                },
            }
        } else {
            acc.push(s[i]);
            i += 1;
        }
    }
    acc
}

/// The characters of the pi / 180 factor.
fn deg_to_rad_chars() -> (r: Vec<char>)
    ensures
        r@ == deg_to_rad_text(),
{
    let r = vec![
        '0', '.', '0', '1', '7', '4', '5', '3', '2', '9', '2', '5', '1', '9', '9', '4', '3',
        '2', '9', '5',
    ];
    assert(r@ =~= deg_to_rad_text());
    r
}

/// Scales the argument of every closed `sin`, `cos` and `tan` call from
/// degrees to radians, matching parentheses by depth.
pub fn convert_trig_to_radians(expr: &str) -> (r: String)
    ensures
        r@ == to_radians(expr@),
{
    let s = chars_of(expr);
    let sin_name = vec!['s', 'i', 'n'];
    let cos_name = vec!['c', 'o', 's'];
    let tan_name = vec!['t', 'a', 'n'];
    assert(sin_name@ =~= seq!['s', 'i', 'n']);
    assert(cos_name@ =~= seq!['c', 'o', 's']);
    assert(tan_name@ =~= seq!['t', 'a', 'n']);
    let a = radians_pass(&s, &sin_name);
    let b = radians_pass(&a, &cos_name);
    let c = radians_pass(&b, &tan_name);
    string_of(c.as_slice())
}

/// Byte offset of the character at position `char_idx`, or the byte length of
/// `s` when there is no such character.
pub fn char_to_byte_index(s: &str, char_idx: usize) -> (r: usize)
    ensures
        r == if char_idx < s@.len() {
            encode_utf8(s@.subrange(0, char_idx as int)).len() as usize
        } else {
            s.spec_bytes().len() as usize
        },
{
    let n = s.unicode_len();
    if char_idx >= n {
        s.len()
    } else {
        s.substring_char(0, char_idx).len()
    }
}

} // verus!
