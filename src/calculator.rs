//! The expression editor: the input state machine, the calculation steps
//! around the evaluator, and the result history.
use vstd::prelude::*;
use vstd::string::*;
use crate::normalize::{
    add_implicit_multiplication, closers, push_range, convert_trig_to_radians, implicit_mul, occurs_at,
    occurs_at_exec, substitute_glyphs, substituted, to_radians,
};
use crate::text::{
    balance, chars_of, closes_operand, depth_ok, is_binary_op, is_digit, is_minus,
    is_operand_boundary, is_zero_text, last_char, last_of, lemma_append_paren_free,
    lemma_depth_ok_balance, lemma_push_char, lemma_splice_paren_free, paren_delta, paren_free, string_of,
    is_binary_op_exec, is_operand_boundary_exec, closes_operand_exec, without_last,
};

verus! {

/// Most entries the history keeps.
pub const HISTORY_LIMIT: usize = 100;

/// How the arguments of `sin`, `cos` and `tan` are read.
#[derive(Clone, Copy, PartialEq, Eq, Debug, Structural)]
pub enum AngleMode {
    Radians,
    Degrees,
}

/// One finished calculation: what the display showed, and the result text.
#[derive(Clone, Debug)]
pub struct HistoryEntry {
    pub expression: String,
    pub result: String,
}

/// Why a calculation gave no result.
#[derive(Clone, Copy, PartialEq, Eq, Debug, Structural)]
pub enum CalcError {
    /// The expression ends in an operator or an opening parenthesis.
    Incomplete,
    /// The value is not a number.
    Undefined,
    /// The value is infinite.
    Infinity,
    /// The evaluator could not parse the text.
    SyntaxError,
    /// The evaluator found a parenthesis missing.
    MissingParen,
    /// Any other failure of the evaluator.
    Error,
}

/// What the evaluator made of a normalized expression.
#[derive(Clone, Debug)]
pub enum EvalOutcome {
    /// A finite value, already written as result text.
    Value(String),
    /// The value is not a number.
    NotANumber,
    /// The value is infinite.
    Infinite,
    /// The evaluator refused the text, with its message.
    Rejected(String),
    /// The evaluator stopped abnormally.
    Aborted,
}

/// The editor state.
pub struct Calculator {
    /// The evaluator-bound expression.
    pub expression: String,
    /// What the user sees.
    pub display: String,
    /// Finished calculations, oldest first.
    pub history: Vec<HistoryEntry>,
    pub angle_mode: AngleMode,
    /// Parentheses opened and not yet closed.
    pub open_parens: i32,
}

/// The display is never empty, shows `0` for an empty expression, and shows
/// `0` otherwise only for the number zero.
pub open spec fn display_ok(e: Seq<char>, d: Seq<char>) -> bool {
    &&& d.len() > 0
    &&& e.len() == 0 ==> d == zero_text()
    &&& d == zero_text() ==> (e.len() == 0 || e == zero_text())
}

/// Appending text to both buffers keeps the display consistent.
pub proof fn lemma_display_append(e: Seq<char>, d: Seq<char>, t: Seq<char>)
    requires
        display_ok(e, d),
        t.len() > 0,
    ensures
        display_ok(e + t, joined(e, d, t)),
        display_ok(e + t, d + t),
{
    assert((d + t).len() >= 2);
    assert(zero_text().len() == 1);
}

/// The one-character text `"0"` that stands for an empty expression.
pub open spec fn zero_text() -> Seq<char> {
    seq!['0']
}

/// Display after `t` is appended to expression `e` shown as `d`: the
/// placeholder of an empty expression is replaced.
pub open spec fn joined(e: Seq<char>, d: Seq<char>, t: Seq<char>) -> Seq<char> {
    if e.len() == 0 {
        t
    } else {
        d + t
    }
}

/// `×` when a new operand right after `e` multiplies it.
pub open spec fn juxtaposition(e: Seq<char>) -> Seq<char> {
    if e.len() > 0 && closes_operand(e.last()) {
        seq!['×']
    } else {
        seq![]
    }
}

/// Expression and display after digit `c`.
pub open spec fn after_digit(e: Seq<char>, d: Seq<char>, c: char) -> (Seq<char>, Seq<char>) {
    if d == zero_text() && c != '.' {
        (seq![c], seq![c])
    } else {
        (e.push(c), d.push(c))
    }
}

/// A character that ends the current number.
pub open spec fn breaks_number(c: char) -> bool {
    is_binary_op(c) || c == '(' || c == ')'
}

/// Start of the longest suffix without an operator or a parenthesis.
pub open spec fn number_start(s: Seq<char>) -> int
    decreases s.len(),
{
    if s.len() == 0 {
        0
    } else if breaks_number(s.last()) {
        s.len() as int
    } else {
        number_start(s.drop_last())
    }
}

/// The number being typed at the end of `s`.
pub open spec fn current_number(s: Seq<char>) -> Seq<char> {
    s.skip(number_start(s))
}

/// Expression and display after a decimal point.
pub open spec fn after_decimal(e: Seq<char>, d: Seq<char>) -> (Seq<char>, Seq<char>) {
    if current_number(e).contains('.') {
        (e, d)
    } else if e.len() == 0 || is_operand_boundary(e.last()) {
        (e + seq!['0', '.'], joined(e, d, seq!['0', '.']))
    } else {
        (e.push('.'), d.push('.'))
    }
}

/// `e` without a trailing binary operator.
pub open spec fn without_operator(e: Seq<char>) -> Seq<char> {
    if e.len() > 0 && is_binary_op(e.last()) {
        e.drop_last()
    } else {
        e
    }
}

/// Whether operator `op` is refused after `e`: only a minus may start an
/// expression or follow an opening parenthesis.
pub open spec fn operator_refused(e: Seq<char>, op: char) -> bool {
    let b = without_operator(e);
    (b.len() == 0 || b.last() == '(') && op != '−'
}

/// The display once a trailing operator of `e` is taken away: it loses its
/// last glyph, shows `0` when nothing is left, and shows the remaining
/// expression where the shortened display would be empty or a lone `0`.
pub open spec fn display_without_operator(e: Seq<char>, d: Seq<char>) -> Seq<char> {
    let b = without_operator(e);
    if b.len() == e.len() {
        d
    } else if b.len() == 0 {
        zero_text()
    } else if d.len() > 1 && d.drop_last() != zero_text() {
        d.drop_last()
    } else {
        b
    }
}

/// Expression and display after operator `op`. An operator at the end is
/// taken away first, so presses overwrite and never stack; a refused
/// operator leaves only that removal.
pub open spec fn after_operator(e: Seq<char>, d: Seq<char>, op: char) -> (Seq<char>, Seq<char>) {
    let b = without_operator(e);
    let sd = display_without_operator(e, d);
    if operator_refused(e, op) {
        (b, sd)
    } else if b.len() == 0 {
        (seq![op], seq![op])
    } else {
        (b.push(op), sd.push(op))
    }
}

/// Start of the operand at the end of `s`: just after its last operator or
/// opening parenthesis.
pub open spec fn operand_start(s: Seq<char>) -> int
    decreases s.len(),
{
    if s.len() == 0 {
        0
    } else if is_operand_boundary(s.last()) {
        s.len() as int
    } else {
        operand_start(s.drop_last())
    }
}

/// Whether the operand starting at `k` carries a unary minus right before it:
/// a `−` at the start or after another operator or `(`.
pub open spec fn has_unary_minus(s: Seq<char>, k: int) -> bool {
    k > 0 && s[k - 1] == '−' && (k == 1 || is_operand_boundary(s[k - 2]))
}

/// `s` with the sign of its last operand changed: a unary minus before it, or
/// a minus that it starts with, is taken away; else a `−` is put before it.
pub open spec fn toggled(s: Seq<char>) -> Seq<char> {
    let k = operand_start(s);
    if has_unary_minus(s, k) {
        s.take(k - 1) + s.skip(k)
    } else if k < s.len() && is_minus(s[k]) {
        s.take(k) + s.skip(k + 1)
    } else {
        s.take(k).push('−') + s.skip(k)
    }
}

/// Expression, display and depth after one backspace.
pub open spec fn after_clear_entry(e: Seq<char>, d: Seq<char>, depth: int) -> (
    Seq<char>,
    Seq<char>,
    int,
) {
    if e.len() == 0 {
        (e, d, depth)
    } else {
        let r = e.drop_last();
        (r, if r.len() == 0 {
            zero_text()
        } else {
            r
        }, depth - paren_delta(e.last()))
    }
}

/// A result text that can seed an expression: not empty, no parenthesis.
pub open spec fn is_result_text(s: Seq<char>) -> bool {
    s.len() > 0 && paren_free(s)
}

/// Whether a text can seed an expression.
pub fn is_result_text_exec(s: &str) -> (r: bool)
    ensures
        r == is_result_text(s@),
{
    let n = s.unicode_len();
    let mut i: usize = 0;
    while i < n
        invariant
            n == s@.len(),
            i <= n,
            forall|j: int| 0 <= j < i ==> #[trigger] s@[j] != '(' && s@[j] != ')',
        decreases n - i,
    {
        let c = s.get_char(i);
        if c == '(' || c == ')' {
            return false;
        }
        i += 1;
    }
    n > 0
}

/// The text handed to the evaluator.
pub open spec fn normalized(e: Seq<char>, depth: nat, mode: AngleMode) -> Seq<char> {
    let m = implicit_mul(substituted(e) + closers(depth));
    if mode == AngleMode::Degrees {
        to_radians(m)
    } else {
        m
    }
}

/// `w` stands somewhere in `s`.
pub open spec fn contains_text(s: Seq<char>, w: Seq<char>) -> bool {
    exists|i: int| occurs_at(s, i, w)
}

/// The error that an evaluator message stands for.
pub open spec fn error_of_message(m: Seq<char>) -> CalcError {
    if contains_text(m, "parse"@) || contains_text(m, "Parse"@) {
        CalcError::SyntaxError
    } else if contains_text(m, "parenthesis"@) {
        CalcError::MissingParen
    } else {
        CalcError::Error
    }
}

/// The text shown for an error.
pub open spec fn error_text(e: CalcError) -> Seq<char> {
    match e {
        CalcError::Incomplete => "Incomplete"@,
        CalcError::Undefined => "Undefined"@,
        CalcError::Infinity => "Infinity"@,
        CalcError::SyntaxError => "Syntax error"@,
        CalcError::MissingParen => "Missing )"@,
        CalcError::Error => "Error"@,
    }
}

/// A history entry as two texts.
pub open spec fn entry_view(h: HistoryEntry) -> (Seq<char>, Seq<char>) {
    (h.expression@, h.result@)
}

/// History as texts, oldest first.
pub open spec fn history_view(h: Seq<HistoryEntry>) -> Seq<(Seq<char>, Seq<char>)> {
    h.map_values(|x: HistoryEntry| entry_view(x))
}

/// History after one more entry, the oldest dropped past the limit.
pub open spec fn recorded(h: Seq<(Seq<char>, Seq<char>)>, x: (Seq<char>, Seq<char>)) -> Seq<
    (Seq<char>, Seq<char>),
> {
    if h.len() + 1 > HISTORY_LIMIT {
        h.push(x).skip(1)
    } else {
        h.push(x)
    }
}

impl CalcError {
    /// The short text shown to the user.
    pub fn message(&self) -> (r: String)
        ensures
            r@ == error_text(*self),
    {
        match self {
            CalcError::Incomplete => String::from_str("Incomplete"),
            CalcError::Undefined => String::from_str("Undefined"),
            CalcError::Infinity => String::from_str("Infinity"),
            CalcError::SyntaxError => String::from_str("Syntax error"),
            CalcError::MissingParen => String::from_str("Missing )"),
            CalcError::Error => String::from_str("Error"),
        }
    }
}

/// Whether `w` stands somewhere in `s`.
fn contains_exec(s: &Vec<char>, w: &Vec<char>) -> (r: bool)
    ensures
        r == contains_text(s@, w@),
{
    let n = s.len();
    let mut i: usize = 0;
    while i < n
        invariant
            n == s@.len(),
            i <= n,
            forall|j: int| 0 <= j < i ==> !occurs_at(s@, j, w@),
        decreases n - i,
    {
        if occurs_at_exec(s, i, w) {
            return true;
        }
        i += 1;
    }
    if occurs_at_exec(s, n, w) {
        return true;
    }
    assert forall|j: int| !occurs_at(s@, j, w@) by {
        if 0 <= j < i {
        }
    }
    false
}

/// The error that an evaluator message stands for.
pub fn classify_error(err: &str) -> (r: CalcError)
    ensures
        r == error_of_message(err@),
{
    let s = chars_of(err);
    if contains_exec(&s, &chars_of("parse")) || contains_exec(&s, &chars_of("Parse")) {
        CalcError::SyntaxError
    } else if contains_exec(&s, &chars_of("parenthesis")) {
        CalcError::MissingParen
    } else {
        CalcError::Error
    }
}

/// The short text for an evaluator message: `Syntax error` when it speaks of
/// parsing, `Missing )` when of a parenthesis, `Error` otherwise.
pub fn simplify_error(err: &str) -> (r: String)
    ensures
        r@ == error_text(error_of_message(err@)),
{
    classify_error(err).message()
}

impl Calculator {
    /// The editor's invariant: the depth counts the open parentheses of the
    /// expression, the history is bounded, and the display shows `0` exactly
    /// for an empty expression or the number zero.
    pub open spec fn wf(&self) -> bool {
        &&& depth_ok(self.expression@)
        &&& self.open_parens == balance(self.expression@)
        &&& self.history@.len() <= HISTORY_LIMIT
        &&& display_ok(self.expression@, self.display@)
    }

    /// History and angle mode are those of `other`.
    pub open spec fn keeps_record(&self, other: &Self) -> bool {
        self.history == other.history && self.angle_mode == other.angle_mode
    }

    /// Nothing changed from `other`.
    pub open spec fn unchanged(&self, other: &Self) -> bool {
        &&& self.expression@ == other.expression@
        &&& self.display@ == other.display@
        &&& self.open_parens == other.open_parens
        &&& self.keeps_record(other)
    }

    /// A fresh editor: empty expression shown as `0`, in degrees.
    pub fn new() -> (r: Self)
        ensures
            r.wf(),
            r.expression@.len() == 0,
            r.display@ == zero_text(),
            r.history@.len() == 0,
            r.angle_mode == AngleMode::Degrees,
            r.open_parens == 0,
    {
        let r = Calculator {
            expression: String::new(),
            display: String::from_str("0"),
            history: Vec::new(),
            angle_mode: AngleMode::Degrees,
            open_parens: 0,
        };
        proof {
            reveal_strlit("0");
            assert(r.display@ =~= zero_text());
        }
        r
    }

    /// Appends `t` to the expression and to the display, replacing the
    /// display's placeholder when the expression was empty.
    fn append_text(&mut self, t: &str)
        ensures
            final(self).expression@ == old(self).expression@ + t@,
            final(self).display@ == joined(old(self).expression@, old(self).display@, t@),
            final(self).open_parens == old(self).open_parens,
            final(self).keeps_record(old(self)),
    {
        if self.expression.as_str().unicode_len() == 0 {
            self.display = String::from_str(t);
        } else {
            self.display.append(t);
        }
        self.expression.append(t);
    }

    /// Types a digit (or a decimal point given as a digit). A display that
    /// shows `0` has that zero replaced.
    pub fn input_digit(&mut self, digit: &str)
        requires
            old(self).wf(),
            digit@.len() == 1,
            is_digit(digit@[0]) || digit@[0] == '.',
        ensures
            final(self).wf(),
            (final(self).expression@, final(self).display@) == after_digit(
                old(self).expression@,
                old(self).display@,
                digit@[0],
            ),
            final(self).open_parens == old(self).open_parens,
            final(self).keeps_record(old(self)),
    {
        let c = digit.get_char(0);
        proof {
            assert(digit@ =~= seq![c]);
            lemma_push_char(self.expression@, c);
            lemma_push_char(seq![], c);
            assert(seq![].push(c) =~= seq![c]);
            reveal_strlit("0");
            lemma_push_char(seq![], '0');
            assert(seq![].push('0') =~= zero_text());
            assert(self.expression@ + digit@ =~= self.expression@.push(c));
            assert(self.display@ + digit@ =~= self.display@.push(c));
            lemma_display_append(self.expression@, self.display@, digit@);
        }
        if is_zero_text(self.display.as_str()) && c != '.' {
            self.expression = String::from_str(digit);
            self.display = String::from_str(digit);
        } else {
            self.expression.append(digit);
            self.display.append(digit);
        }
    }

    /// Types a decimal point, unless the number being typed has one; after
    /// nothing, an operator or `(` it is typed as `0.`.
    pub fn input_decimal(&mut self)
        requires
            old(self).wf(),
        ensures
            final(self).wf(),
            (final(self).expression@, final(self).display@) == after_decimal(
                old(self).expression@,
                old(self).display@,
            ),
            final(self).open_parens == old(self).open_parens,
            final(self).keeps_record(old(self)),
    {
        let s = chars_of(self.expression.as_str());
        let n = s.len();
        let mut i: usize = n;
        let mut has_point = false;
        assert(s@.take(n as int) =~= s@);
        while i > 0 && !(is_binary_op_exec(s[i - 1]) || s[i - 1] == '(' || s[i - 1] == ')')
            invariant
                n == s@.len(),
                i <= n,
                number_start(s@) == number_start(s@.take(i as int)),
                has_point == (exists|j: int| i <= j < n && s@[j] == '.'),
            decreases i,
        {
            proof {
                assert(s@.take(i as int).drop_last() =~= s@.take(i - 1));
            }
            if s[i - 1] == '.' {
                has_point = true;
            }
            i -= 1;
        }
        proof {
            assert(s@.take(n as int) =~= s@);
            if i > 0 {
                assert(s@.take(i as int).last() == s@[i - 1]);
            } else {
                assert(s@.take(0) =~= seq![]);
            }
            assert(number_start(s@) == i);
            let cur = current_number(s@);
            assert(cur =~= s@.skip(i as int));
            if has_point {
                let j = choose|j: int| i <= j < n && s@[j] == '.';
                assert(cur[j - i] == '.');
            }
            if cur.contains('.') {
                let k = choose|k: int| 0 <= k < cur.len() && cur[k] == '.';
                assert(s@[i + k] == '.');
            }
            reveal_strlit("0.");
            reveal_strlit(".");
            assert("0."@ =~= seq!['0', '.']);
            assert("."@ =~= seq!['.']);
            lemma_append_paren_free(self.expression@, seq!['0', '.']);
            lemma_append_paren_free(self.expression@, seq!['.']);
            assert(self.expression@.push('.') =~= self.expression@ + seq!['.']);
            assert(self.display@.push('.') =~= self.display@ + seq!['.']);
            lemma_display_append(self.expression@, self.display@, seq!['0', '.']);
            lemma_display_append(self.expression@, self.display@, seq!['.']);
        }
        if has_point {
            return;
        }
        let starts_number = match last_char(self.expression.as_str()) {
            None => true,
            Some(l) => is_operand_boundary_exec(l),
        };
        if starts_number {
            self.append_text("0.");
        } else {
            self.append_text(".");
        }
    }

    /// Types a binary operator. An operator at the end is replaced; only a
    /// minus may start the expression or follow `(`, others are then ignored.
    pub fn input_operator(&mut self, op: &str)
        requires
            old(self).wf(),
            op@.len() == 1,
            is_binary_op(op@[0]),
        ensures
            final(self).wf(),
            (final(self).expression@, final(self).display@) == after_operator(
                old(self).expression@,
                old(self).display@,
                op@[0],
            ),
            final(self).open_parens == old(self).open_parens,
            final(self).keeps_record(old(self)),
    {
        let c = op.get_char(0);
        let ends_op = match last_char(self.expression.as_str()) {
            None => false,
            Some(l) => is_binary_op_exec(l),
        };
        let base = if ends_op {
            without_last(self.expression.as_str())
        } else {
            self.expression.clone()
        };
        proof {
            assert(base@ == without_operator(self.expression@));
            assert(op@ =~= seq![c]);
            let e = self.expression@;
            if ends_op {
                assert(e.drop_last().push(e.last()) =~= e);
                lemma_push_char(e.drop_last(), e.last());
            }
            lemma_push_char(base@, c);
            lemma_push_char(seq![], c);
            assert(seq![].push(c) =~= seq![c]);
            assert(base@ + op@ =~= base@.push(c));
            assert(zero_text().last() == '0');
        }
        let shown = if !ends_op {
            self.display.clone()
        } else if base.as_str().unicode_len() == 0 {
            String::from_str("0")
        } else if self.display.as_str().unicode_len() > 1 {
            let shorter = without_last(self.display.as_str());
            if is_zero_text(shorter.as_str()) {
                base.clone()
            } else {
                shorter
            }
        } else {
            base.clone()
        };
        proof {
            reveal_strlit("0");
            assert("0"@ =~= zero_text());
            assert(shown@ == display_without_operator(self.expression@, self.display@));
            assert(display_ok(base@, shown@));
        }
        let refused = match last_char(base.as_str()) {
            None => c != '−',
            Some(l) => l == '(' && c != '−',
        };
        if refused {
            self.expression = base;
            self.display = shown;
            return;
        }
        if base.as_str().unicode_len() == 0 {
            self.expression = String::from_str(op);
            self.display = String::from_str(op);
        } else {
            self.expression = base;
            self.expression.append(op);
            self.display = shown;
            self.display.append(op);
            assert(self.display@.last() == c);
        }
    }

    /// Types a function call such as `sin(`: a `×` goes first when the
    /// expression ends in an operand.
    pub fn input_function(&mut self, func: &str)
        requires
            old(self).wf(),
            paren_free(func@),
            old(self).open_parens < i32::MAX - 1,
        ensures
            final(self).wf(),
            final(self).expression@ == old(self).expression@ + juxtaposition(
                old(self).expression@,
            ) + func@ + seq!['('],
            final(self).display@ == joined(
                old(self).expression@,
                old(self).display@,
                juxtaposition(old(self).expression@) + func@ + seq!['('],
            ),
            final(self).open_parens == old(self).open_parens + 1,
            final(self).keeps_record(old(self)),
    {
        let mut t = self.juxtaposition_text();
        t.append(func);
        t.append("(");
        let ghost e = self.expression@;
        let ghost j = juxtaposition(e);
        proof {
            reveal_strlit("(");
            assert("("@ =~= seq!['(']);
            lemma_display_append(e, self.display@, t@);
            assert(e + t@ =~= e + j + func@ + seq!['(']);
            assert(e + j + func@ + seq!['('] =~= (e + (j + func@)).push('('));
            assert(paren_free(j + func@)) by {
                assert forall|i: int| 0 <= i < (j + func@).len() implies #[trigger] (j
                    + func@)[i] != '(' && (j + func@)[i] != ')' by {
                    if i >= j.len() {
                        assert((j + func@)[i] == func@[i - j.len()]);
                    }
                }
            }
            lemma_append_paren_free(e, j + func@);
            lemma_push_char(e + (j + func@), '(');
        }
        self.append_text(t.as_str());
        self.open_parens = self.open_parens + 1;
    }

    /// `×` when a new operand right after the expression multiplies it, else
    /// nothing.
    fn juxtaposition_text(&self) -> (r: String)
        ensures
            r@ == juxtaposition(self.expression@),
    {
        proof {
            reveal_strlit("×");
            reveal_strlit("");
        }
        match last_char(self.expression.as_str()) {
            Some(l) => if closes_operand_exec(l) {
                String::from_str("×")
            } else {
                String::from_str("")
            },
            None => String::from_str(""),
        }
    }

    /// Types a constant such as `π`: a `×` goes first when the expression ends
    /// in an operand.
    pub fn input_constant(&mut self, constant: &str)
        requires
            old(self).wf(),
            is_result_text(constant@),
        ensures
            final(self).wf(),
            final(self).expression@ == old(self).expression@ + juxtaposition(
                old(self).expression@,
            ) + constant@,
            final(self).display@ == joined(
                old(self).expression@,
                old(self).display@,
                juxtaposition(old(self).expression@) + constant@,
            ),
            final(self).open_parens == old(self).open_parens,
            final(self).keeps_record(old(self)),
    {
        let mut t = self.juxtaposition_text();
        t.append(constant);
        let ghost e = self.expression@;
        let ghost j = juxtaposition(e);
        proof {
            assert(e + t@ =~= e + j + constant@);
            assert(paren_free(j + constant@)) by {
                assert forall|i: int| 0 <= i < (j + constant@).len() implies #[trigger] (j
                    + constant@)[i] != '(' && (j + constant@)[i] != ')' by {
                    if i >= j.len() {
                        assert((j + constant@)[i] == constant@[i - j.len()]);
                    }
                }
            }
            lemma_append_paren_free(e, j + constant@);
            lemma_display_append(e, self.display@, t@);
        }
        self.append_text(t.as_str());
    }

    /// Opens a group: a `×` goes first when the expression ends in an operand.
    pub fn input_open_paren(&mut self)
        requires
            old(self).wf(),
            old(self).open_parens < i32::MAX - 1,
        ensures
            final(self).wf(),
            final(self).expression@ == old(self).expression@ + juxtaposition(
                old(self).expression@,
            ) + seq!['('],
            final(self).display@ == joined(
                old(self).expression@,
                old(self).display@,
                juxtaposition(old(self).expression@) + seq!['('],
            ),
            final(self).open_parens == old(self).open_parens + 1,
            final(self).keeps_record(old(self)),
    {
        let mut t = self.juxtaposition_text();
        t.append("(");
        let ghost e = self.expression@;
        let ghost j = juxtaposition(e);
        proof {
            reveal_strlit("(");
            assert("("@ =~= seq!['(']);
            lemma_display_append(e, self.display@, t@);
            assert(e + t@ =~= (e + j).push('('));
            assert(e + j + seq!['('] =~= (e + j).push('('));
            lemma_append_paren_free(e, j);
            lemma_push_char(e + j, '(');
        }
        self.append_text(t.as_str());
        self.open_parens = self.open_parens + 1;
    }

    /// Closes a group, only while one is open and the expression does not end
    /// in `(` or an operator.
    pub fn input_close_paren(&mut self)
        requires
            old(self).wf(),
        ensures
            final(self).wf(),
            final(self).keeps_record(old(self)),
            final(self).open_parens >= 0,
            ({
                let e = old(self).expression@;
                if old(self).open_parens > 0 && e.len() > 0 && e.last() != '(' && !is_binary_op(
                    e.last(),
                ) {
                    &&& final(self).expression@ == e.push(')')
                    &&& final(self).display@ == old(self).display@.push(')')
                    &&& final(self).open_parens == old(self).open_parens - 1
                } else {
                    final(self).unchanged(old(self))
                }
            }),
    {
        proof {
            lemma_push_char(self.expression@, ')');
            reveal_strlit(")");
            assert(")"@ =~= seq![')']);
            assert(self.expression@.push(')') =~= self.expression@ + seq![')']);
            assert(self.display@.push(')') =~= self.display@ + seq![')']);
            lemma_display_append(self.expression@, self.display@, seq![')']);
        }
        if self.open_parens > 0 {
            match last_char(self.expression.as_str()) {
                Some(l) => {
                    if l != '(' && !is_binary_op_exec(l) {
                        self.append_text(")");
                        self.open_parens = self.open_parens - 1;
                    }
                },
                None => {},
            }
        }
    }

    /// Appends `t` to the expression and `shown` to the display when the
    /// caller found the end of the expression fit for them.
    fn append_after_operand(&mut self, t: &str, shown: &str, accepted: bool)
        requires
            old(self).wf(),
            old(self).expression@.len() > 0,
            paren_free(t@),
            shown@.len() > 0,
        ensures
            final(self).wf(),
            final(self).keeps_record(old(self)),
            final(self).open_parens == old(self).open_parens,
            accepted ==> final(self).expression@ == old(self).expression@ + t@
                && final(self).display@ == old(self).display@ + shown@,
            !accepted ==> final(self).unchanged(old(self)),
    {
        if accepted {
            proof {
                lemma_append_paren_free(self.expression@, t@);
                assert((self.display@ + shown@).len() > 1);
            }
            self.expression.append(t);
            self.display.append(shown);
        }
    }

    /// Squares the operand at the end: `^2`, shown as `²`.
    pub fn input_square(&mut self)
        requires
            old(self).wf(),
        ensures
            final(self).wf(),
            final(self).keeps_record(old(self)),
            final(self).open_parens == old(self).open_parens,
            ({
                let e = old(self).expression@;
                if e.len() > 0 && closes_operand(e.last()) {
                    &&& final(self).expression@ == e + seq!['^', '2']
                    &&& final(self).display@ == old(self).display@.push('²')
                } else {
                    final(self).unchanged(old(self))
                }
            }),
    {
        proof {
            reveal_strlit("^2");
            reveal_strlit("²");
            assert(self.display@.push('²') =~= self.display@ + seq!['²']);
        }
        match last_char(self.expression.as_str()) {
            Some(l) => {
                let ok = closes_operand_exec(l);
                self.append_after_operand("^2", "²", ok);
            },
            None => {},
        }
    }

    /// Raises the operand at the end to a power still to be typed.
    pub fn input_power(&mut self)
        requires
            old(self).wf(),
        ensures
            final(self).wf(),
            final(self).keeps_record(old(self)),
            final(self).open_parens == old(self).open_parens,
            ({
                let e = old(self).expression@;
                if e.len() > 0 && closes_operand(e.last()) {
                    &&& final(self).expression@ == e.push('^')
                    &&& final(self).display@ == old(self).display@.push('^')
                } else {
                    final(self).unchanged(old(self))
                }
            }),
    {
        proof {
            reveal_strlit("^");
            assert(self.display@.push('^') =~= self.display@ + seq!['^']);
            assert(self.expression@.push('^') =~= self.expression@ + seq!['^']);
        }
        match last_char(self.expression.as_str()) {
            Some(l) => {
                let ok = closes_operand_exec(l);
                self.append_after_operand("^", "^", ok);
            },
            None => {},
        }
    }

    /// Divides the number or group at the end by 100: `/100`, shown as `%`.
    pub fn input_percent(&mut self)
        requires
            old(self).wf(),
        ensures
            final(self).wf(),
            final(self).keeps_record(old(self)),
            final(self).open_parens == old(self).open_parens,
            ({
                let e = old(self).expression@;
                if e.len() > 0 && (is_digit(e.last()) || e.last() == ')') {
                    &&& final(self).expression@ == e + seq!['/', '1', '0', '0']
                    &&& final(self).display@ == old(self).display@.push('%')
                } else {
                    final(self).unchanged(old(self))
                }
            }),
    {
        proof {
            reveal_strlit("/100");
            reveal_strlit("%");
            assert(self.display@.push('%') =~= self.display@ + seq!['%']);
        }
        match last_char(self.expression.as_str()) {
            Some(l) => {
                let ok = ('0' <= l && l <= '9') || l == ')';
                self.append_after_operand("/100", "%", ok);
            },
            None => {},
        }
    }

    /// Changes the sign of the operand at the end: a unary minus right
    /// before it is taken away, else one is put there.
    pub fn toggle_sign(&mut self)
        requires
            old(self).wf(),
        ensures
            final(self).wf(),
            final(self).keeps_record(old(self)),
            final(self).open_parens == old(self).open_parens,
            if old(self).expression@.len() == 0 || old(self).display@ == zero_text() {
                final(self).unchanged(old(self))
            } else {
                &&& final(self).expression@ == toggled(old(self).expression@)
                &&& final(self).display@ == if final(self).expression@.len() == 0 {
                    zero_text()
                } else {
                    final(self).expression@
                }
            },
    {
        if self.expression.as_str().unicode_len() == 0 || is_zero_text(self.display.as_str()) {
            return;
        }
        let s = chars_of(self.expression.as_str());
        let n = s.len();
        let mut k: usize = n;
        assert(s@.take(n as int) =~= s@);
        while k > 0 && !is_operand_boundary_exec(s[k - 1])
            invariant
                n == s@.len(),
                k <= n,
                operand_start(s@) == operand_start(s@.take(k as int)),
            decreases k,
        {
            proof {
                assert(s@.take(k as int).drop_last() =~= s@.take(k - 1));
            }
            k -= 1;
        }
        proof {
            if k > 0 {
                assert(s@.take(k as int).last() == s@[k - 1]);
            } else {
                assert(s@.take(0) =~= seq![]);
            }
            assert(operand_start(s@) == k);
        }
        let unary = k > 0 && s[k - 1] == '−' && (k == 1 || is_operand_boundary_exec(s[k - 2]));
        let leading = k < n && (s[k] == '-' || s[k] == '−');
        let mut out: Vec<char> = Vec::new();
        if unary {
            push_range(&mut out, &s, 0, k - 1);
            push_range(&mut out, &s, k, n);
            proof {
                let a = s@.take(k - 1);
                let b = s@.skip(k as int);
                assert(out@ =~= a + b);
                assert(s@ =~= a.push(s@[k - 1]) + b);
                lemma_splice_paren_free(a, s@[k - 1], b);
            }
        } else if leading {
            push_range(&mut out, &s, 0, k);
            push_range(&mut out, &s, k + 1, n);
            proof {
                let a = s@.take(k as int);
                let b = s@.skip(k + 1);
                assert(out@ =~= a + b);
                assert(s@ =~= a.push(s@[k as int]) + b);
                lemma_splice_paren_free(a, s@[k as int], b);
            }
        } else {
            push_range(&mut out, &s, 0, k);
            out.push('−');
            push_range(&mut out, &s, k, n);
            proof {
                let a = s@.take(k as int);
                let b = s@.skip(k as int);
                assert(out@ =~= a.push('−') + b);
                assert(s@ =~= a + b);
                lemma_splice_paren_free(a, '−', b);
            }
        }
        self.expression = string_of(out.as_slice());
        if out.len() == 0 {
            self.display = String::from_str("0");
            proof {
                reveal_strlit("0");
                assert(self.display@ =~= zero_text());
            }
        } else {
            self.display = self.expression.clone();
        }
    }

    /// Empties the expression, shows `0`, closes every group. History and
    /// angle mode stay.
    pub fn clear(&mut self)
        requires
            old(self).wf(),
        ensures
            final(self).wf(),
            final(self).keeps_record(old(self)),
            final(self).expression@.len() == 0,
            final(self).display@ == zero_text(),
            final(self).open_parens == 0,
    {
        self.expression = String::new();
        self.display = String::from_str("0");
        self.open_parens = 0;
        proof {
            reveal_strlit("0");
            assert(self.display@ =~= zero_text());
        }
    }

    /// Takes the last character off the expression, whatever its width, and
    /// keeps the depth in step with a removed parenthesis.
    pub fn clear_entry(&mut self)
        requires
            old(self).wf(),
        ensures
            final(self).wf(),
            final(self).keeps_record(old(self)),
            (final(self).expression@, final(self).display@, final(self).open_parens as int)
                == after_clear_entry(
                old(self).expression@,
                old(self).display@,
                old(self).open_parens as int,
            ),
    {
        let n = self.expression.as_str().unicode_len();
        if n == 0 {
            return;
        }
        let last = self.expression.as_str().get_char(n - 1);
        proof {
            let e = self.expression@;
            assert(e.drop_last().push(e.last()) =~= e);
            lemma_push_char(e.drop_last(), e.last());
        }
        if last == '(' {
            self.open_parens = self.open_parens - 1;
        } else if last == ')' {
            self.open_parens = self.open_parens + 1;
        }
        self.expression = without_last(self.expression.as_str());
        if self.expression.as_str().unicode_len() == 0 {
            self.display = String::from_str("0");
            proof {
                reveal_strlit("0");
                assert(self.display@ =~= zero_text());
            }
        } else {
            self.display = self.expression.clone();
        }
    }

    /// Brings back a result from the history: it replaces a display that
    /// shows `0`, else it is appended as typed.
    pub fn use_history(&mut self, result: &str)
        requires
            old(self).wf(),
            is_result_text(result@),
        ensures
            final(self).wf(),
            final(self).keeps_record(old(self)),
            final(self).open_parens == old(self).open_parens,
            if old(self).display@ == zero_text() {
                final(self).expression@ == result@ && final(self).display@ == result@
            } else {
                &&& final(self).expression@ == old(self).expression@ + result@
                &&& final(self).display@ == old(self).display@ + result@
            },
    {
        proof {
            lemma_append_paren_free(self.expression@, result@);
            lemma_append_paren_free(seq![], result@);
            assert(seq![] + result@ =~= result@);
            lemma_display_append(self.expression@, self.display@, result@);
            lemma_push_char(seq![], '0');
            assert(seq![].push('0') =~= zero_text());
            reveal_strlit("0");
        }
        if is_zero_text(self.display.as_str()) {
            self.expression = String::from_str(result);
            self.display = String::from_str(result);
        } else {
            self.expression.append(result);
            self.display.append(result);
        }
    }

    /// Switches between degrees and radians.
    pub fn toggle_angle_mode(&mut self)
        requires
            old(self).wf(),
        ensures
            final(self).wf(),
            final(self).angle_mode != old(self).angle_mode,
            final(self).expression == old(self).expression,
            final(self).display == old(self).display,
            final(self).open_parens == old(self).open_parens,
            final(self).history == old(self).history,
    {
        self.angle_mode = match self.angle_mode {
            AngleMode::Radians => AngleMode::Degrees,
            AngleMode::Degrees => AngleMode::Radians,
        };
    }

    /// Parentheses opened and not yet closed.
    pub fn get_open_parens(&self) -> (r: i32)
        ensures
            r == self.open_parens,
    {
        self.open_parens
    }

    /// The text for the evaluator: glyphs substituted, open groups closed,
    /// implicit multiplications written out, and in degrees the arguments of
    /// `sin`, `cos` and `tan` scaled to radians.
    fn preprocess_expression(&self) -> (r: String)
        requires
            self.wf(),
        ensures
            r@ == normalized(self.expression@, self.open_parens as nat, self.angle_mode),
    {
        let s = chars_of(self.expression.as_str());
        let mut t = substitute_glyphs(&s);
        let ghost base = t@;
        let mut k: i32 = 0;
        proof {
            lemma_depth_ok_balance(self.expression@);
        }
        while k < self.open_parens
            invariant
                0 <= k <= self.open_parens,
                t@ == base + closers(k as nat),
            decreases self.open_parens - k,
        {
            t.push(')');
            k += 1;
            assert(t@ =~= base + closers(k as nat));
        }
        let joined_text = string_of(t.as_slice());
        let m = add_implicit_multiplication(joined_text.as_str());
        match self.angle_mode {
            AngleMode::Degrees => convert_trig_to_radians(m.as_str()),
            AngleMode::Radians => m,
        }
    }

    /// What calculating asks of the evaluator: nothing for an empty
    /// expression (whose value is 0), `Incomplete` for one that ends in an
    /// operator or `(`, else the normalized text. The editor is not changed.
    pub fn evaluation_input(&self) -> (r: Result<Option<String>, CalcError>)
        requires
            self.wf(),
        ensures
            ({
                let e = self.expression@;
                if e.len() == 0 {
                    r == Ok::<Option<String>, CalcError>(None)
                } else if is_operand_boundary(e.last()) {
                    r == Err::<Option<String>, CalcError>(CalcError::Incomplete)
                } else {
                    r matches Ok(Some(t)) && t@ == normalized(
                        e,
                        self.open_parens as nat,
                        self.angle_mode,
                    )
                }
            }),
    {
        match last_char(self.expression.as_str()) {
            None => Ok(None),
            Some(l) => {
                if is_operand_boundary_exec(l) {
                    Err(CalcError::Incomplete)
                } else {
                    Ok(Some(self.preprocess_expression()))
                }
            },
        }
    }

    /// Takes in what the evaluator made of the normalized text. A value is
    /// recorded in the history with the display it came from, the oldest entry
    /// dropped past the limit, and becomes the new expression; every other
    /// outcome is an error that changes nothing.
    pub fn finish_calculation(&mut self, outcome: EvalOutcome) -> (r: Result<(), CalcError>)
        requires
            old(self).wf(),
        ensures
            final(self).wf(),
            match outcome {
                EvalOutcome::Value(t) => if !is_result_text(t@) {
                    r == Err::<(), CalcError>(CalcError::Error) && final(self).unchanged(old(self))
                } else {
                    &&& r == Ok::<(), CalcError>(())
                    &&& history_view(final(self).history@) == recorded(
                        history_view(old(self).history@),
                        (old(self).display@, t@),
                    )
                    &&& final(self).expression@ == t@
                    &&& final(self).display@ == t@
                    &&& final(self).open_parens == 0
                    &&& final(self).angle_mode == old(self).angle_mode
                },
                EvalOutcome::NotANumber => r == Err::<(), CalcError>(CalcError::Undefined)
                    && final(self).unchanged(old(self)),
                EvalOutcome::Infinite => r == Err::<(), CalcError>(CalcError::Infinity)
                    && final(self).unchanged(old(self)),
                EvalOutcome::Rejected(m) => r == Err::<(), CalcError>(error_of_message(m@))
                    && final(self).unchanged(old(self)),
                EvalOutcome::Aborted => r == Err::<(), CalcError>(CalcError::Error)
                    && final(self).unchanged(old(self)),
            },
    {
        match outcome {
            EvalOutcome::Value(t) => {
                if !is_result_text_exec(t.as_str()) {
                    return Err(CalcError::Error);
                }
                let ghost h0 = history_view(self.history@);
                let entry = HistoryEntry { expression: self.display.clone(), result: t.clone() };
                self.history.push(entry);
                proof {
                    assert(history_view(self.history@) =~= h0.push((old(self).display@, t@)));
                }
                if self.history.len() > HISTORY_LIMIT {
                    self.history.remove(0);
                    proof {
                        assert(history_view(self.history@) =~= h0.push(
                            (old(self).display@, t@),
                        ).skip(1));
                    }
                }
                proof {
                    lemma_append_paren_free(seq![], t@);
                    assert(seq![] + t@ =~= t@);
                }
                self.expression = t.clone();
                self.display = t;
                self.open_parens = 0;
                Ok(())
            },
            EvalOutcome::NotANumber => Err(CalcError::Undefined),
            EvalOutcome::Infinite => Err(CalcError::Infinity),
            EvalOutcome::Rejected(m) => Err(classify_error(m.as_str())),
            EvalOutcome::Aborted => Err(CalcError::Error),
        }
    }
}

impl Default for Calculator {
    fn default() -> (r: Self)
        ensures
            r.wf(),
            r.expression@.len() == 0,
            r.display@ == zero_text(),
            r.history@.len() == 0,
            r.angle_mode == AngleMode::Degrees,
            r.open_parens == 0,
    {
        Calculator::new()
    }
}

} // verus!
