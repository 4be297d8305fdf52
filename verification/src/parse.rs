//! The parser for the bracketed surface syntax. The grammar is stated as a
//! family of spec-level parsers over character sequences, each returning how
//! many characters it consumes together with the value it produces; the
//! executable parser is proved to agree with them exactly.
//!
//! Alternatives are ordered as in a parsing expression grammar: the first
//! alternative that matches wins, and a failed alternative consumes nothing.

use vstd::prelude::*;

use crate::ast::{ast_seq_view, ast_view, lemma_ast_seq_view, Ast, SpecAst};
use crate::chars::{
    alnum_char, chars_of, digit_char, is_alnum_char, is_digit_char, is_token_char, is_ws_char,
    push_char, token_char, usize_string, ws_char,
};

verus! {

/// One element of an operator head: a named operator with an optional tag
/// name, or a multiplicity.
#[derive(Debug, PartialEq, Eq)]
pub enum Op {
    Op { op: String, name: String },
    Multiple { from: u32, to: Option<u32> },
}

/// The model of an operator-head element.
#[verifier::ext_equal]
pub enum SpecOp {
    Op { op: Seq<char>, name: Seq<char> },
    Multiple { from: u32, to: Option<u32> },
}

impl View for Op {
    type V = SpecOp;

    open spec fn view(&self) -> SpecOp {
        match self {
            Op::Op { op, name } => SpecOp::Op { op: op@, name: name@ },
            Op::Multiple { from, to } => SpecOp::Multiple { from: *from, to: *to },
        }
    }
}

/// The model of a sequence of operator-head elements.
pub open spec fn op_seq_view(items: Seq<Op>) -> Seq<SpecOp> {
    Seq::new(items.len(), |i: int| items[i]@)
}

/// The length of the leading whitespace run.
pub open spec fn spec_ws(s: Seq<char>) -> nat
    decreases s.len(),
{
    if s.len() > 0 && is_ws_char(s[0]) {
        1 + spec_ws(s.drop_first())
    } else {
        0
    }
}

/// The length of the leading run of token characters.
pub open spec fn spec_token_len(s: Seq<char>) -> nat
    decreases s.len(),
{
    if s.len() > 0 && is_token_char(s[0]) {
        1 + spec_token_len(s.drop_first())
    } else {
        0
    }
}

/// The length of the leading run of decimal digits.
pub open spec fn spec_digits_len(s: Seq<char>) -> nat
    decreases s.len(),
{
    if s.len() > 0 && is_digit_char(s[0]) {
        1 + spec_digits_len(s.drop_first())
    } else {
        0
    }
}

/// The length of the leading run of characters other than `q`.
pub open spec fn spec_till(s: Seq<char>, q: char) -> nat
    decreases s.len(),
{
    if s.len() > 0 && s[0] != q {
        1 + spec_till(s.drop_first(), q)
    } else {
        0
    }
}

/// The length of the leading run of characters that are neither `[` nor
/// `]`: the longest outer literal.
pub open spec fn spec_outer_len(s: Seq<char>) -> nat
    decreases s.len(),
{
    if s.len() > 0 && s[0] != '[' && s[0] != ']' {
        1 + spec_outer_len(s.drop_first())
    } else {
        0
    }
}

/// The numeric value of a digit string.
pub open spec fn spec_dec_val(d: Seq<char>) -> nat
    decreases d.len(),
{
    if d.len() == 0 {
        0
    } else {
        (spec_dec_val(d.drop_last()) * 10 + (d.last() as u32 - '0' as u32)) as nat
    }
}

/// A token: one or more token characters.
pub open spec fn spec_token(s: Seq<char>) -> Option<(nat, Seq<char>)> {
    if spec_token_len(s) > 0 {
        Some((spec_token_len(s), s.take(spec_token_len(s) as int)))
    } else {
        None
    }
}

/// A multiplicity: `N-M`, `N+` or `N`, with decimal values that must fit in
/// 32 bits.
pub open spec fn spec_multiple(s: Seq<char>) -> Option<(nat, SpecOp)> {
    let d = spec_digits_len(s);
    if d == 0 {
        None
    } else {
        let v = spec_dec_val(s.take(d as int));
        if d < s.len() && s[d as int] == '-' && spec_digits_len(s.skip((d + 1) as int)) > 0 {
            let d2 = spec_digits_len(s.skip((d + 1) as int));
            let v2 = spec_dec_val(s.skip((d + 1) as int).take(d2 as int));
            if v <= u32::MAX && v2 <= u32::MAX {
                Some(
                    ((d + 1 + d2) as nat, SpecOp::Multiple {
                        from: v as u32,
                        to: Some(v2 as u32),
                    }),
                )
            } else {
                None
            }
        } else if d < s.len() && s[d as int] == '+' {
            if v <= u32::MAX {
                Some(((d + 1) as nat, SpecOp::Multiple { from: v as u32, to: None }))
            } else {
                None
            }
        } else {
            if v <= u32::MAX {
                Some((d, SpecOp::Multiple { from: v as u32, to: Some(v as u32) }))
            } else {
                None
            }
        }
    }
}

/// A named operator: a token, optionally followed by `:` and a tag token.
pub open spec fn spec_op(s: Seq<char>) -> Option<(nat, SpecOp)> {
    let t = spec_token_len(s);
    if t == 0 {
        None
    } else {
        let op = s.take(t as int);
        if t < s.len() && s[t as int] == ':' && spec_token_len(s.skip((t + 1) as int)) > 0 {
            let t2 = spec_token_len(s.skip((t + 1) as int));
            Some(((t + 1 + t2) as nat, SpecOp::Op { op, name: s.skip((t + 1) as int).take(t2 as int) }))
        } else {
            Some((t, SpecOp::Op { op, name: Seq::empty() }))
        }
    }
}

/// One operator-head element with surrounding whitespace.
pub open spec fn spec_one_op(s: Seq<char>) -> Option<(nat, SpecOp)> {
    let w1 = spec_ws(s);
    let inner = match spec_multiple(s.skip(w1 as int)) {
        Some(r) => Some(r),
        None => spec_op(s.skip(w1 as int)),
    };
    match inner {
        None => None,
        Some((n, o)) => {
            let w2 = spec_ws(s.skip((w1 + n) as int));
            Some(((w1 + n + w2) as nat, o))
        },
    }
}

/// Zero or more further operator-head elements.
pub open spec fn spec_ops0(s: Seq<char>) -> (nat, Seq<SpecOp>)
    decreases s.len(),
{
    match spec_one_op(s) {
        None => (0, Seq::empty()),
        Some((n, o)) => if n == 0 || n > s.len() {
            (0, Seq::empty())
        } else {
            let (m, rest) = spec_ops0(s.skip(n as int));
            ((n + m) as nat, seq![o] + rest)
        },
    }
}

/// An operator head: one or more operators or multiplicities.
pub open spec fn spec_ops(s: Seq<char>) -> Option<(nat, Seq<SpecOp>)> {
    match spec_one_op(s) {
        None => None,
        Some((n, o)) => if n == 0 || n > s.len() {
            Some((n, seq![o]))
        } else {
            let (m, rest) = spec_ops0(s.skip(n as int));
            Some(((n + m) as nat, seq![o] + rest))
        },
    }
}

/// A quoted literal with quote character `q`: the body runs to the next
/// quote, is not empty, and has no escape processing.
pub open spec fn spec_quoted(s: Seq<char>, q: char) -> Option<(nat, SpecAst)> {
    if s.len() > 0 && s[0] == q {
        let c = spec_till(s.skip(1), q);
        if c >= 1 && 1 + c < s.len() && s[(1 + c) as int] == q {
            Some(((c + 2) as nat, SpecAst::Literal(s.subrange(1, (1 + c) as int))))
        } else {
            None
        }
    } else {
        None
    }
}

/// A quoted literal, double- or single-quoted.
pub open spec fn spec_literal(s: Seq<char>) -> Option<(nat, SpecAst)> {
    match spec_quoted(s, '"') {
        Some(r) => Some(r),
        None => spec_quoted(s, '\''),
    }
}

/// A macro use: `#` followed by either a two-endpoint character range
/// `c..d` (both endpoints alphanumeric) or a macro name.
pub open spec fn spec_macro(s: Seq<char>) -> Option<(nat, SpecAst)> {
    if s.len() == 0 || s[0] != '#' {
        None
    } else {
        let t = s.skip(1);
        if t.len() >= 4 && is_alnum_char(t[0]) && t[1] == '.' && t[2] == '.' && is_alnum_char(
            t[3],
        ) {
            Some((5, SpecAst::Range { start: t[0], end: t[3] }))
        } else {
            match spec_token(t) {
                Some((n, name)) => Some(((1 + n) as nat, SpecAst::Macro(name))),
                None => None,
            }
        }
    }
}

/// Wraps a match body in the operators of an operator head, associating to
/// the right: the first operator becomes the outermost node.
pub open spec fn spec_wrap_ops(ops: Seq<SpecOp>, body: SpecAst) -> SpecAst
    decreases ops.len(),
{
    if ops.len() == 0 {
        body
    } else {
        let inner = spec_wrap_ops(ops.drop_first(), body);
        match ops[0] {
            SpecOp::Op { op, name } => SpecAst::Operator {
                op,
                name,
                subexpr: Box::new(inner),
            },
            SpecOp::Multiple { from, to } => SpecAst::Multiple {
                from,
                to,
                subexpr: Box::new(inner),
            },
        }
    }
}

/// A list of nodes as a single node: a singleton stands alone, anything
/// else becomes a concatenation.
pub open spec fn spec_concat_if_needed(items: Seq<SpecAst>) -> SpecAst {
    if items.len() == 1 {
        items[0]
    } else {
        SpecAst::Concat(items)
    }
}

/// A list of alternatives as a single node: a singleton stands alone,
/// anything else becomes an alternation.
pub open spec fn spec_either_if_needed(items: Seq<SpecAst>) -> SpecAst {
    if items.len() == 1 {
        items[0]
    } else {
        SpecAst::Either(items)
    }
}

/// A bracket group `[ ... ]`.
pub open spec fn spec_braces(s: Seq<char>) -> Option<(nat, SpecAst)>
    decreases s.len(), 0int,
{
    if s.len() == 0 || s[0] != '[' {
        None
    } else {
        match spec_braces_tail(s.skip(1)) {
            Some((n, a)) => Some(((1 + n) as nat, a)),
            None => None,
        }
    }
}

/// What follows the opening bracket of a group: the whitespace-framed body
/// and the closing bracket.
pub open spec fn spec_braces_tail(t: Seq<char>) -> Option<(nat, SpecAst)>
    decreases t.len(), 7int,
{
    let w1 = spec_ws(t);
    if w1 > t.len() {
        None
    } else {
        let (n, a) = spec_contents(t.skip(w1 as int));
        if w1 + n > t.len() {
            None
        } else {
            let w2 = spec_ws(t.skip((w1 + n) as int));
            if w1 + n + w2 < t.len() && t[(w1 + n + w2) as int] == ']' {
                Some(((w1 + n + w2 + 1) as nat, a))
            } else {
                None
            }
        }
    }
}

/// The body of a bracket group: an alternation, an operator head with
/// matches, or nothing at all (the empty concatenation).
pub open spec fn spec_contents(s: Seq<char>) -> (nat, SpecAst)
    decreases s.len(), 6int,
{
    match spec_either(s) {
        Some(r) => r,
        None => match spec_ops_then_matches(s) {
            Some(r) => r,
            None => (0, SpecAst::Concat(Seq::empty())),
        },
    }
}

/// An alternation: match bodies separated by `|`. A single body without a
/// `|` stands for itself.
pub open spec fn spec_either(s: Seq<char>) -> Option<(nat, SpecAst)>
    decreases s.len(), 5int,
{
    match spec_matches(s) {
        None => None,
        Some((n1, a1)) => if n1 == 0 || n1 > s.len() {
            None
        } else {
            let (n2, rest) = spec_either_rest(s.skip(n1 as int));
            Some(((n1 + n2) as nat, spec_either_if_needed(seq![a1] + rest)))
        },
    }
}

/// One further alternative: the whitespace after a `|`, then a match body.
pub open spec fn spec_either_elem(u: Seq<char>) -> Option<(nat, SpecAst)>
    decreases u.len(), 5int,
{
    let w2 = spec_ws(u);
    if w2 > u.len() {
        None
    } else {
        match spec_matches(u.skip(w2 as int)) {
            None => None,
            Some((n, a)) => Some(((w2 + n) as nat, a)),
        }
    }
}

/// Zero or more further alternatives, each introduced by a `|` surrounded
/// by optional whitespace.
pub open spec fn spec_either_rest(s: Seq<char>) -> (nat, Seq<SpecAst>)
    decreases s.len(), 6int,
{
    let w1 = spec_ws(s);
    if w1 < s.len() && s[w1 as int] == '|' {
        match spec_either_elem(s.skip((w1 + 1) as int)) {
            None => (0, Seq::empty()),
            Some((n, a)) => if w1 + 1 + n > s.len() {
                (0, Seq::empty())
            } else {
                let (m, rest) = spec_either_rest(s.skip((w1 + 1 + n) as int));
                (((w1 + 1 + n) + m) as nat, seq![a] + rest)
            },
        }
    } else {
        (0, Seq::empty())
    }
}

/// An operator head followed by a match body; the operators wrap the body
/// right to left.
pub open spec fn spec_ops_then_matches(s: Seq<char>) -> Option<(nat, SpecAst)>
    decreases s.len(), 5int,
{
    match spec_ops(s) {
        None => None,
        Some((n, ops)) => if n > s.len() {
            None
        } else {
            match spec_matches(s.skip(n as int)) {
                None => None,
                Some((m, body)) => Some(((n + m) as nat, spec_wrap_ops(ops, body))),
            }
        },
    }
}

/// A match body: one or more atoms, a singleton standing alone.
pub open spec fn spec_matches(s: Seq<char>) -> Option<(nat, SpecAst)>
    decreases s.len(), 4int,
{
    match spec_match(s) {
        None => None,
        Some((n, a)) => if n == 0 || n > s.len() {
            None
        } else {
            let (m, rest) = spec_matches0(s.skip(n as int));
            Some(((n + m) as nat, spec_concat_if_needed(seq![a] + rest)))
        },
    }
}

/// Zero or more further atoms.
pub open spec fn spec_matches0(s: Seq<char>) -> (nat, Seq<SpecAst>)
    decreases s.len(), 3int,
{
    match spec_match(s) {
        None => (0, Seq::empty()),
        Some((n, a)) => if n == 0 || n > s.len() {
            (0, Seq::empty())
        } else {
            let (m, rest) = spec_matches0(s.skip(n as int));
            ((n + m) as nat, seq![a] + rest)
        },
    }
}

/// One atom with surrounding whitespace: a quoted literal, a macro
/// definition, a macro use or a nested bracket group.
pub open spec fn spec_match(s: Seq<char>) -> Option<(nat, SpecAst)>
    decreases s.len(), 2int,
{
    let w1 = spec_ws(s);
    if w1 > s.len() {
        None
    } else {
        let t = s.skip(w1 as int);
        let inner = match spec_literal(t) {
            Some(r) => Some(r),
            None => match spec_def_macro(t) {
                Some(r) => Some(r),
                None => match spec_macro(t) {
                    Some(r) => Some(r),
                    None => spec_braces(t),
                },
            },
        };
        match inner {
            None => None,
            Some((n, a)) => {
                let w2 = spec_ws(s.skip((w1 + n) as int));
                Some(((w1 + n + w2) as nat, a))
            },
        }
    }
}

/// A macro definition: `#name=[...]`. The part before `=` must be a macro
/// name, not a character range.
pub open spec fn spec_def_macro(s: Seq<char>) -> Option<(nat, SpecAst)>
    decreases s.len(), 1int,
{
    match spec_macro(s) {
        Some((n, SpecAst::Macro(name))) => if n < s.len() && s[n as int] == '=' {
            match spec_braces(s.skip((n + 1) as int)) {
                Some((nb, body)) => Some(
                    ((n + 1 + nb) as nat, SpecAst::DefMacro(name, Box::new(body))),
                ),
                None => None,
            }
        } else {
            None
        },
        _ => None,
    }
}

/// The top level: a sequence of outer literals and bracket groups.
pub open spec fn spec_top0(s: Seq<char>) -> (nat, Seq<SpecAst>)
    decreases s.len(), 8int,
{
    if s.len() == 0 {
        (0, Seq::empty())
    } else if s[0] != '[' && s[0] != ']' {
        let k = spec_outer_len(s);
        if k == 0 || k > s.len() {
            (0, Seq::empty())
        } else {
            let (m, rest) = spec_top0(s.skip(k as int));
            ((k + m) as nat, seq![SpecAst::Literal(s.take(k as int))] + rest)
        }
    } else {
        match spec_braces(s) {
            None => (0, Seq::empty()),
            Some((n, a)) => if n == 0 || n > s.len() {
                (0, Seq::empty())
            } else {
                let (m, rest) = spec_top0(s.skip(n as int));
                ((n + m) as nat, seq![a] + rest)
            },
        }
    }
}

/// A whole pattern: the top-level sequence must consume all of the input.
pub open spec fn spec_parse(s: Seq<char>) -> Option<SpecAst> {
    let (n, items) = spec_top0(s);
    if n == s.len() {
        Some(spec_concat_if_needed(items))
    } else {
        None
    }
}


/// A pattern without brackets parses as one literal run (or as the empty
/// concatenation when it is empty).
#[verifier::rlimit(100)]
#[verifier::spinoff_prover]
pub proof fn lemma_parse_plain_text(p: Seq<char>)
    requires
        forall|i: int| 0 <= i < p.len() ==> #[trigger] p[i] != '[' && p[i] != ']',
    ensures
        spec_parse(p) == Some(
            if p.len() == 0 {
                SpecAst::Concat(Seq::empty())
            } else {
                SpecAst::Literal(p)
            },
        ),
{
    if p.len() > 0 {
        lemma_outer_count(p, p.len() as int);
        let k = spec_outer_len(p);
        assert(k == p.len());
        assert(p.skip(k as int) =~= Seq::<char>::empty());
        assert(spec_top0(Seq::<char>::empty()).0 == 0);
        assert(p.take(k as int) =~= p);
        let items = seq![SpecAst::Literal(p)] + Seq::<SpecAst>::empty();
        assert(items.len() == 1 && items[0] == SpecAst::Literal(p));
        assert(spec_top0(p).1 =~= items);
        assert(spec_top0(p).0 == p.len());
    }
}

/// Whitespace directly after the opening bracket does not change what a
/// bracket group means: `[ X...` parses to the same node as `[X...`, one
/// consumed character longer. Interior whitespace is insignificant.
pub proof fn lemma_bracket_body_whitespace(c: char, rest: Seq<char>)
    requires
        is_ws_char(c),
    ensures
        ({
            let spaced = spec_braces(seq!['['] + seq![c] + rest);
            let tight = spec_braces(seq!['['] + rest);
            match (spaced, tight) {
                (Some((n1, a1)), Some((n2, a2))) => n1 == n2 + 1 && a1 == a2,
                (None, None) => true,
                _ => false,
            }
        }),
{
    let u = seq![c] + rest;
    assert((seq!['['] + seq![c] + rest).skip(1) =~= u);
    assert((seq!['['] + rest).skip(1) =~= rest);
    assert((seq!['['] + seq![c] + rest)[0] == '[');
    assert((seq!['['] + rest)[0] == '[');
    lemma_braces_tail_ws(c, rest);
}

/// The helper behind [`lemma_bracket_body_whitespace`], at the level of the
/// group's tail.
proof fn lemma_braces_tail_ws(c: char, t: Seq<char>)
    requires
        is_ws_char(c),
    ensures
        ({
            let spaced = spec_braces_tail(seq![c] + t);
            let tight = spec_braces_tail(t);
            match (spaced, tight) {
                (Some((n1, a1)), Some((n2, a2))) => n1 == n2 + 1 && a1 == a2,
                (None, None) => true,
                _ => false,
            }
        }),
{
    let u = seq![c] + t;
    assert(u.drop_first() =~= t);
    assert(spec_ws(u) == 1 + spec_ws(t));
    let w = spec_ws(t);
    if w <= t.len() {
        assert(u.skip((1 + w) as int) =~= t.skip(w as int));
        let n = spec_contents(t.skip(w as int)).0;
        if w + n <= t.len() {
            assert(u.skip((1 + w + n) as int) =~= t.skip((w + n) as int));
            let w2 = spec_ws(t.skip((w + n) as int));
            if w + n + w2 < t.len() {
                assert(u[(1 + w + n + w2) as int] == t[(w + n + w2) as int]);
            }
        }
    }
}

/// Skipping twice is skipping the sum.
proof fn lemma_skip_skip(s: Seq<char>, a: int, b: int)
    requires
        0 <= a,
        0 <= b,
        a + b <= s.len(),
    ensures
        s.skip(a).skip(b) == s.skip(a + b),
{
    assert(s.skip(a).skip(b) =~= s.skip(a + b));
}

/// A run of `n` whitespace characters stopped by a non-whitespace character
/// (or the end) is exactly what `spec_ws` counts.
proof fn lemma_ws_count(t: Seq<char>, n: int)
    requires
        0 <= n <= t.len(),
        forall|i: int| 0 <= i < n ==> is_ws_char(#[trigger] t[i]),
        n == t.len() || !is_ws_char(t[n]),
    ensures
        spec_ws(t) == n,
    decreases t.len(),
{
    if n == 0 {
    } else {
        assert(is_ws_char(t[0]));
        let u = t.drop_first();
        assert(forall|i: int| 0 <= i < n - 1 ==> is_ws_char(#[trigger] u[i]));
        lemma_ws_count(u, n - 1);
    }
}

proof fn lemma_token_count(t: Seq<char>, n: int)
    requires
        0 <= n <= t.len(),
        forall|i: int| 0 <= i < n ==> is_token_char(#[trigger] t[i]),
        n == t.len() || !is_token_char(t[n]),
    ensures
        spec_token_len(t) == n,
    decreases t.len(),
{
    if n == 0 {
    } else {
        assert(is_token_char(t[0]));
        let u = t.drop_first();
        assert(forall|i: int| 0 <= i < n - 1 ==> is_token_char(#[trigger] u[i]));
        lemma_token_count(u, n - 1);
    }
}

proof fn lemma_digits_count(t: Seq<char>, n: int)
    requires
        0 <= n <= t.len(),
        forall|i: int| 0 <= i < n ==> is_digit_char(#[trigger] t[i]),
        n == t.len() || !is_digit_char(t[n]),
    ensures
        spec_digits_len(t) == n,
    decreases t.len(),
{
    if n == 0 {
    } else {
        assert(is_digit_char(t[0]));
        let u = t.drop_first();
        assert(forall|i: int| 0 <= i < n - 1 ==> is_digit_char(#[trigger] u[i]));
        lemma_digits_count(u, n - 1);
    }
}

proof fn lemma_till_count(t: Seq<char>, q: char, n: int)
    requires
        0 <= n <= t.len(),
        forall|i: int| 0 <= i < n ==> #[trigger] t[i] != q,
        n == t.len() || t[n] == q,
    ensures
        spec_till(t, q) == n,
    decreases t.len(),
{
    if n == 0 {
    } else {
        let u = t.drop_first();
        assert(forall|i: int| 0 <= i < n - 1 ==> #[trigger] u[i] != q);
        lemma_till_count(u, q, n - 1);
    }
}

pub proof fn lemma_outer_count(t: Seq<char>, n: int)
    requires
        0 <= n <= t.len(),
        forall|i: int| 0 <= i < n ==> #[trigger] t[i] != '[' && t[i] != ']',
        n == t.len() || t[n] == '[' || t[n] == ']',
    ensures
        spec_outer_len(t) == n,
    decreases t.len(),
{
    if n == 0 {
    } else {
        let u = t.drop_first();
        assert(forall|i: int| 0 <= i < n - 1 ==> #[trigger] u[i] != '[' && u[i] != ']');
        lemma_outer_count(u, n - 1);
    }
}

/// Counts the whitespace run starting at `pos`.
fn scan_ws(v: &Vec<char>, pos: usize) -> (r: usize)
    requires
        pos <= v@.len(),
    ensures
        pos <= r <= v@.len(),
        (r - pos) as nat == spec_ws(v@.skip(pos as int)),
{
    let mut j: usize = pos;
    while j < v.len() && ws_char(v[j])
        invariant
            pos <= j <= v@.len(),
            forall|i: int| pos <= i < j ==> is_ws_char(#[trigger] v@[i]),
        decreases v@.len() - j,
    {
        j = j + 1;
    }
    proof {
        let t = v@.skip(pos as int);
        assert(forall|i: int| 0 <= i < j - pos ==> is_ws_char(#[trigger] t[i]));
        lemma_ws_count(t, j - pos);
    }
    j
}

/// Counts the token-character run starting at `pos`.
fn scan_token(v: &Vec<char>, pos: usize) -> (r: usize)
    requires
        pos <= v@.len(),
    ensures
        pos <= r <= v@.len(),
        (r - pos) as nat == spec_token_len(v@.skip(pos as int)),
{
    let mut j: usize = pos;
    while j < v.len() && token_char(v[j])
        invariant
            pos <= j <= v@.len(),
            forall|i: int| pos <= i < j ==> is_token_char(#[trigger] v@[i]),
        decreases v@.len() - j,
    {
        j = j + 1;
    }
    proof {
        let t = v@.skip(pos as int);
        assert(forall|i: int| 0 <= i < j - pos ==> is_token_char(#[trigger] t[i]));
        lemma_token_count(t, j - pos);
    }
    j
}

/// Counts the digit run starting at `pos`.
fn scan_digits(v: &Vec<char>, pos: usize) -> (r: usize)
    requires
        pos <= v@.len(),
    ensures
        pos <= r <= v@.len(),
        (r - pos) as nat == spec_digits_len(v@.skip(pos as int)),
        forall|i: int| pos <= i < r ==> is_digit_char(#[trigger] v@[i]),
{
    let mut j: usize = pos;
    while j < v.len() && digit_char(v[j])
        invariant
            pos <= j <= v@.len(),
            forall|i: int| pos <= i < j ==> is_digit_char(#[trigger] v@[i]),
        decreases v@.len() - j,
    {
        j = j + 1;
    }
    proof {
        let t = v@.skip(pos as int);
        assert(forall|i: int| 0 <= i < j - pos ==> is_digit_char(#[trigger] t[i]));
        lemma_digits_count(t, j - pos);
    }
    j
}

/// Counts the run of characters other than `q` starting at `pos`.
fn scan_till(v: &Vec<char>, pos: usize, q: char) -> (r: usize)
    requires
        pos <= v@.len(),
    ensures
        pos <= r <= v@.len(),
        (r - pos) as nat == spec_till(v@.skip(pos as int), q),
        r < v@.len() ==> v@[r as int] == q,
{
    let mut j: usize = pos;
    while j < v.len() && v[j] != q
        invariant
            pos <= j <= v@.len(),
            forall|i: int| pos <= i < j ==> #[trigger] v@[i] != q,
        decreases v@.len() - j,
    {
        j = j + 1;
    }
    proof {
        let t = v@.skip(pos as int);
        assert(forall|i: int| 0 <= i < j - pos ==> #[trigger] t[i] != q);
        lemma_till_count(t, q, j - pos);
    }
    j
}

/// Counts the bracket-free run starting at `pos`.
fn scan_outer(v: &Vec<char>, pos: usize) -> (r: usize)
    requires
        pos <= v@.len(),
    ensures
        pos <= r <= v@.len(),
        (r - pos) as nat == spec_outer_len(v@.skip(pos as int)),
{
    let mut j: usize = pos;
    while j < v.len() && v[j] != '[' && v[j] != ']'
        invariant
            pos <= j <= v@.len(),
            forall|i: int| pos <= i < j ==> #[trigger] v@[i] != '[' && v@[i] != ']',
        decreases v@.len() - j,
    {
        j = j + 1;
    }
    proof {
        let t = v@.skip(pos as int);
        assert(forall|i: int| 0 <= i < j - pos ==> #[trigger] t[i] != '[' && t[i] != ']');
        lemma_outer_count(t, j - pos);
    }
    j
}

/// Copies the characters between two positions into a string.
fn take_string(v: &Vec<char>, a: usize, b: usize) -> (r: String)
    requires
        a <= b <= v@.len(),
    ensures
        r@ == v@.subrange(a as int, b as int),
{
    let mut r = String::new();
    let mut i: usize = a;
    while i < b
        invariant
            a <= i <= b <= v@.len(),
            r@ == v@.subrange(a as int, i as int),
        decreases b - i,
    {
        push_char(&mut r, v[i]);
        proof {
            assert(r@ =~= v@.subrange(a as int, i + 1));
        }
        i = i + 1;
    }
    r
}

/// A longer digit prefix has a value at least as large.
proof fn lemma_dec_val_mono(d: Seq<char>, i: int)
    requires
        0 <= i <= d.len(),
        forall|j: int| 0 <= j < d.len() ==> is_digit_char(#[trigger] d[j]),
    ensures
        spec_dec_val(d.take(i)) <= spec_dec_val(d),
    decreases d.len() - i,
{
    if i < d.len() {
        assert(d.take(i + 1).drop_last() =~= d.take(i));
        assert(is_digit_char(d[i]));
        assert(spec_dec_val(d.take(i)) <= spec_dec_val(d.take(i + 1)));
        lemma_dec_val_mono(d, i + 1);
        assert(d.take(d.len() as int) =~= d);
    } else {
        assert(d.take(i) =~= d);
    }
}

/// Reads the decimal value of the digit run `v[pos..pos + d]`, refusing a
/// value that does not fit in 32 bits.
fn parse_dec(v: &Vec<char>, pos: usize, d: usize) -> (r: Option<u32>)
    requires
        pos + d <= v@.len(),
        forall|i: int| pos <= i < pos + d ==> is_digit_char(#[trigger] v@[i]),
    ensures
        ({
            let seg = v@.subrange(pos as int, (pos + d) as int);
            match r {
                Some(x) => x as nat == spec_dec_val(seg) && spec_dec_val(seg) <= u32::MAX,
                None => spec_dec_val(seg) > u32::MAX,
            }
        }),
{
    let ghost seg = v@.subrange(pos as int, (pos + d) as int);
    let n = v.len();
    let mut acc: u64 = 0;
    let mut i: usize = 0;
    proof {
        assert(seg.take(0) =~= Seq::<char>::empty());
        assert(forall|j: int| 0 <= j < seg.len() ==> is_digit_char(#[trigger] seg[j]));
    }
    while i < d
        invariant
            0 <= i <= d,
            n == v@.len(),
            pos + d <= v@.len(),
            seg == v@.subrange(pos as int, (pos + d) as int),
            forall|j: int| pos <= j < pos + d ==> is_digit_char(#[trigger] v@[j]),
            acc as nat == spec_dec_val(seg.take(i as int)),
            acc <= u32::MAX,
        decreases d - i,
    {
        let c = v[pos + i];
        proof {
            assert(seg[i as int] == v@[pos + i]);
            assert(is_digit_char(c));
        }
        let dv: u64 = (c as u32 - '0' as u32) as u64;
        proof {
            assert(dv <= 9);
        }
        let next: u64 = acc * 10 + dv;
        proof {
            assert(seg.take(i + 1).drop_last() =~= seg.take(i as int));
            assert(seg.take(i + 1).last() == seg[i as int]);
            assert(next as nat == spec_dec_val(seg.take(i + 1)));
        }
        i = i + 1;
        if next > u32::MAX as u64 {
            proof {
                assert(forall|j: int| 0 <= j < seg.len() ==> is_digit_char(#[trigger] seg[j]));
                lemma_dec_val_mono(seg, i as int);
                assert(seg.take(seg.len() as int) =~= seg);
            }
            return None;
        }
        acc = next;
    }
    proof {
        assert(seg.take(d as int) =~= seg);
    }
    Some(acc as u32)
}

/// Parses a multiplicity at `pos`.
fn multiple_at(v: &Vec<char>, pos: usize) -> (r: Option<(usize, Op)>)
    requires
        pos <= v@.len(),
    ensures
        ({
            let t = v@.skip(pos as int);
            match r {
                Some((p2, o)) => pos < p2 <= v@.len() && spec_multiple(t) == Some(
                    ((p2 - pos) as nat, o@),
                ),
                None => spec_multiple(t) is None,
            }
        }),
{
    let ghost t = v@.skip(pos as int);
    let dpos = scan_digits(v, pos);
    proof {
        assert(t.take((dpos - pos) as int) =~= v@.subrange(pos as int, dpos as int));
    }
    if dpos == pos {
        return None;
    }
    let minus = dpos < v.len() && v[dpos] == '-';
    if minus {
        let d2pos = scan_digits(v, dpos + 1);
        proof {
            lemma_skip_skip(v@, pos as int, (dpos + 1 - pos) as int);
            assert(t[(dpos - pos) as int] == v@[dpos as int]);
        }
        if d2pos > dpos + 1 {
            proof {
                assert(t.skip((dpos - pos + 1) as int).take((d2pos - dpos - 1) as int)
                    =~= v@.subrange((dpos + 1) as int, d2pos as int));
            }
            let v1 = parse_dec(v, pos, dpos - pos);
            let v2 = parse_dec(v, dpos + 1, d2pos - (dpos + 1));
            match (v1, v2) {
                (Some(a), Some(b)) => {
                    return Some((d2pos, Op::Multiple { from: a, to: Some(b) }));
                },
                _ => {
                    return None;
                },
            }
        }
    }
    proof {
        if (dpos as int) - (pos as int) < t.len() {
            assert(t[(dpos - pos) as int] == v@[dpos as int]);
        }
    }
    if dpos < v.len() && v[dpos] == '+' {
        match parse_dec(v, pos, dpos - pos) {
            Some(a) => Some((dpos + 1, Op::Multiple { from: a, to: None })),
            None => None,
        }
    } else {
        match parse_dec(v, pos, dpos - pos) {
            Some(a) => Some((dpos, Op::Multiple { from: a, to: Some(a) })),
            None => None,
        }
    }
}

/// Parses a named operator at `pos`.
fn op_at(v: &Vec<char>, pos: usize) -> (r: Option<(usize, Op)>)
    requires
        pos <= v@.len(),
    ensures
        ({
            let t = v@.skip(pos as int);
            match r {
                Some((p2, o)) => pos < p2 <= v@.len() && spec_op(t) == Some(
                    ((p2 - pos) as nat, o@),
                ),
                None => spec_op(t) is None,
            }
        }),
{
    let ghost t = v@.skip(pos as int);
    let tpos = scan_token(v, pos);
    if tpos == pos {
        return None;
    }
    let op = take_string(v, pos, tpos);
    proof {
        assert(t.take((tpos - pos) as int) =~= v@.subrange(pos as int, tpos as int));
    }
    if tpos < v.len() && v[tpos] == ':' {
        proof {
            assert(t[(tpos - pos) as int] == v@[tpos as int]);
            lemma_skip_skip(v@, pos as int, (tpos + 1 - pos) as int);
        }
        let t2pos = scan_token(v, tpos + 1);
        if t2pos > tpos + 1 {
            let name = take_string(v, tpos + 1, t2pos);
            proof {
                assert(t.skip((tpos - pos + 1) as int).take((t2pos - tpos - 1) as int)
                    =~= v@.subrange((tpos + 1) as int, t2pos as int));
            }
            return Some((t2pos, Op::Op { op, name }));
        }
        let name = String::new();
        proof {
            assert(name@ =~= Seq::<char>::empty());
        }
        return Some((tpos, Op::Op { op, name }));
    }
    proof {
        if (tpos as int) - (pos as int) < t.len() {
            assert(t[(tpos - pos) as int] == v@[tpos as int]);
        }
    }
    let name = String::new();
    proof {
        assert(name@ =~= Seq::<char>::empty());
    }
    Some((tpos, Op::Op { op, name }))
}

/// Parses one operator-head element, with surrounding whitespace.
fn one_op_at(v: &Vec<char>, pos: usize) -> (r: Option<(usize, Op)>)
    requires
        pos <= v@.len(),
    ensures
        ({
            let t = v@.skip(pos as int);
            match r {
                Some((p2, o)) => pos < p2 <= v@.len() && spec_one_op(t) == Some(
                    ((p2 - pos) as nat, o@),
                ),
                None => spec_one_op(t) is None,
            }
        }),
{
    let ghost t = v@.skip(pos as int);
    let w1pos = scan_ws(v, pos);
    proof {
        lemma_skip_skip(v@, pos as int, (w1pos - pos) as int);
    }
    let inner = match multiple_at(v, w1pos) {
        Some(r) => Some(r),
        None => op_at(v, w1pos),
    };
    match inner {
        None => None,
        Some((p1, o)) => {
            proof {
                lemma_skip_skip(v@, pos as int, (p1 - pos) as int);
            }
            let w2pos = scan_ws(v, p1);
            Some((w2pos, o))
        },
    }
}

/// Parses zero or more further operator-head elements.
fn ops0_at(v: &Vec<char>, pos: usize) -> (r: (usize, Vec<Op>))
    requires
        pos <= v@.len(),
    ensures
        pos <= r.0 <= v@.len(),
        spec_ops0(v@.skip(pos as int)).0 == (r.0 - pos) as nat,
        spec_ops0(v@.skip(pos as int)).1 == op_seq_view(r.1@),
    decreases v@.len() - pos,
{
    let ghost t = v@.skip(pos as int);
    match one_op_at(v, pos) {
        None => {
            let l: Vec<Op> = Vec::new();
            proof {
                assert(op_seq_view(l@) =~= Seq::<SpecOp>::empty());
            }
            (pos, l)
        },
        Some((p1, o)) => {
            proof {
                lemma_skip_skip(v@, pos as int, (p1 - pos) as int);
            }
            let (p2, rest) = ops0_at(v, p1);
            let ghost rest_view = op_seq_view(rest@);
            let mut items = rest;
            items.insert(0, o);
            proof {
                assert(op_seq_view(items@) =~= seq![o@] + rest_view);
            }
            (p2, items)
        },
    }
}

/// Parses an operator head: one or more elements.
fn ops_at(v: &Vec<char>, pos: usize) -> (r: Option<(usize, Vec<Op>)>)
    requires
        pos <= v@.len(),
    ensures
        ({
            let t = v@.skip(pos as int);
            match r {
                Some((p2, l)) => pos < p2 <= v@.len() && spec_ops(t) == Some(
                    ((p2 - pos) as nat, op_seq_view(l@)),
                ),
                None => spec_ops(t) is None,
            }
        }),
{
    let ghost t = v@.skip(pos as int);
    match one_op_at(v, pos) {
        None => None,
        Some((p1, o)) => {
            proof {
                lemma_skip_skip(v@, pos as int, (p1 - pos) as int);
            }
            let (p2, rest) = ops0_at(v, p1);
            let ghost rest_view = op_seq_view(rest@);
            let mut items = rest;
            items.insert(0, o);
            proof {
                assert(op_seq_view(items@) =~= seq![o@] + rest_view);
            }
            Some((p2, items))
        },
    }
}

/// Parses a quoted literal with quote character `q`.
fn quoted_at(v: &Vec<char>, pos: usize, q: char) -> (r: Option<(usize, Ast)>)
    requires
        pos <= v@.len(),
    ensures
        ({
            let t = v@.skip(pos as int);
            match r {
                Some((p2, a)) => pos < p2 <= v@.len() && spec_quoted(t, q) == Some(
                    ((p2 - pos) as nat, a@),
                ),
                None => spec_quoted(t, q) is None,
            }
        }),
{
    let ghost t = v@.skip(pos as int);
    if pos < v.len() && v[pos] == q {
        proof {
            lemma_skip_skip(v@, pos as int, 1);
        }
        let e = scan_till(v, pos + 1, q);
        if e > pos + 1 && e < v.len() {
            let content = take_string(v, pos + 1, e);
            proof {
                assert(t.subrange(1, (e - pos) as int) =~= v@.subrange((pos + 1) as int, e as int));
                assert(t[(e - pos) as int] == v@[e as int]);
            }
            Some((e + 1, Ast::Literal(content)))
        } else {
            proof {
                if (e as int) - (pos as int) < t.len() {
                    assert(t[(e - pos) as int] == v@[e as int]);
                }
            }
            None
        }
    } else {
        None
    }
}

/// Parses a quoted literal, double- or single-quoted.
fn literal_at(v: &Vec<char>, pos: usize) -> (r: Option<(usize, Ast)>)
    requires
        pos <= v@.len(),
    ensures
        ({
            let t = v@.skip(pos as int);
            match r {
                Some((p2, a)) => pos < p2 <= v@.len() && spec_literal(t) == Some(
                    ((p2 - pos) as nat, a@),
                ),
                None => spec_literal(t) is None,
            }
        }),
{
    match quoted_at(v, pos, '"') {
        Some(r) => Some(r),
        None => quoted_at(v, pos, '\''),
    }
}

/// Parses a macro use or character range at `pos`.
fn macro_at(v: &Vec<char>, pos: usize) -> (r: Option<(usize, Ast)>)
    requires
        pos <= v@.len(),
    ensures
        ({
            let t = v@.skip(pos as int);
            match r {
                Some((p2, a)) => pos < p2 <= v@.len() && spec_macro(t) == Some(
                    ((p2 - pos) as nat, a@),
                ),
                None => spec_macro(t) is None,
            }
        }),
{
    let ghost t = v@.skip(pos as int);
    if pos < v.len() && v[pos] == '#' {
        proof {
            lemma_skip_skip(v@, pos as int, 1);
        }
        let ghost u = v@.skip((pos + 1) as int);
        if v.len() - pos >= 5 && alnum_char(v[pos + 1]) && v[pos + 2] == '.' && v[pos + 3] == '.'
            && alnum_char(v[pos + 4]) {
            proof {
                assert(u[0] == v@[(pos + 1) as int]);
                assert(u[1] == v@[(pos + 2) as int]);
                assert(u[2] == v@[(pos + 3) as int]);
                assert(u[3] == v@[(pos + 4) as int]);
            }
            Some((pos + 5, Ast::Range { start: v[pos + 1], end: v[pos + 4] }))
        } else {
            proof {
                if u.len() >= 4 {
                    assert(u[0] == v@[(pos + 1) as int]);
                    assert(u[1] == v@[(pos + 2) as int]);
                    assert(u[2] == v@[(pos + 3) as int]);
                    assert(u[3] == v@[(pos + 4) as int]);
                }
            }
            let tpos = scan_token(v, pos + 1);
            if tpos > pos + 1 {
                let name = take_string(v, pos + 1, tpos);
                proof {
                    assert(u.take((tpos - pos - 1) as int) =~= v@.subrange(
                        (pos + 1) as int,
                        tpos as int,
                    ));
                }
                Some((tpos, Ast::Macro(name)))
            } else {
                None
            }
        }
    } else {
        None
    }
}

/// Wraps a match body in the operators of an operator head, right to left.
fn wrap_ops(ops: Vec<Op>, body: Ast) -> (r: Ast)
    ensures
        r@ == spec_wrap_ops(op_seq_view(ops@), body@),
    decreases ops@.len(),
{
    if ops.len() == 0 {
        body
    } else {
        let ghost old_ops = ops@;
        let mut ops = ops;
        let first = ops.remove(0);
        proof {
            assert(op_seq_view(ops@) =~= op_seq_view(old_ops).drop_first());
            assert(first@ == op_seq_view(old_ops)[0]);
        }
        let inner = wrap_ops(ops, body);
        match first {
            Op::Op { op, name } => Ast::Operator { op, name, subexpr: Box::new(inner) },
            Op::Multiple { from, to } => Ast::Multiple { from, to, subexpr: Box::new(inner) },
        }
    }
}

/// A list of nodes as one node: a singleton stands alone, anything else
/// becomes a concatenation.
pub fn concat_if_needed(items: Vec<Ast>) -> (r: Ast)
    ensures
        r@ == spec_concat_if_needed(ast_seq_view(items@)),
{
    proof {
        lemma_ast_seq_view(items@);
    }
    if items.len() == 1 {
        let ghost old_items = items@;
        let mut items = items;
        match items.pop() {
            Some(a) => {
                proof {
                    assert(a@ == ast_seq_view(old_items)[0]);
                }
                a
            },
            None => Ast::Concat(items),
        }
    } else {
        Ast::Concat(items)
    }
}

/// A list of alternatives as one node: a singleton stands alone, anything
/// else becomes an alternation.
pub fn either_if_needed(items: Vec<Ast>) -> (r: Ast)
    ensures
        r@ == spec_either_if_needed(ast_seq_view(items@)),
{
    proof {
        lemma_ast_seq_view(items@);
    }
    if items.len() == 1 {
        let ghost old_items = items@;
        let mut items = items;
        match items.pop() {
            Some(a) => {
                proof {
                    assert(a@ == ast_seq_view(old_items)[0]);
                }
                a
            },
            None => Ast::Either(items),
        }
    } else {
        Ast::Either(items)
    }
}

/// Prepends an atom to a parsed list.
fn cons_ast(a: Ast, rest: Vec<Ast>) -> (r: Vec<Ast>)
    ensures
        ast_seq_view(r@) == seq![a@] + ast_seq_view(rest@),
{
    let ghost rest_seq = rest@;
    let mut items = rest;
    items.insert(0, a);
    proof {
        assert(items@ =~= seq![a] + rest_seq);
        lemma_ast_cons(a, rest_seq);
    }
    items
}

/// Prepending an element to a node list prepends its model.
proof fn lemma_ast_cons(a: Ast, rest: Seq<Ast>)
    ensures
        ast_seq_view(seq![a] + rest) == seq![a@] + ast_seq_view(rest),
{
    lemma_ast_seq_view(seq![a] + rest);
    lemma_ast_seq_view(rest);
    assert(ast_seq_view(seq![a] + rest) =~= seq![a@] + ast_seq_view(rest));
}

/// Parses a bracket group at `pos`.
#[verifier::rlimit(100)]
#[verifier::spinoff_prover]
fn braces_at(v: &Vec<char>, pos: usize) -> (r: Option<(usize, Ast)>)
    requires
        pos <= v@.len(),
    ensures
        ({
            let t = v@.skip(pos as int);
            match r {
                Some((p2, a)) => pos < p2 <= v@.len() && spec_braces(t) == Some(
                    ((p2 - pos) as nat, a@),
                ),
                None => spec_braces(t) is None,
            }
        }),
    decreases v@.len() - pos, 0int,
{
    let ghost t = v@.skip(pos as int);
    if pos < v.len() && v[pos] == '[' {
        proof {
            lemma_skip_skip(v@, pos as int, 1);
        }
        match braces_tail_at(v, pos + 1) {
            Some((p2, a)) => Some((p2, a)),
            None => None,
        }
    } else {
        None
    }
}

/// The bracket-group tail parses exactly when its pieces line up.
#[verifier::rlimit(100)]
#[verifier::spinoff_prover]
proof fn lemma_braces_tail_some(t: Seq<char>, w1: nat, n: nat, w2: nat, av: SpecAst)
    requires
        w1 == spec_ws(t),
        w1 <= t.len(),
        spec_contents(t.skip(w1 as int)).0 == n,
        spec_contents(t.skip(w1 as int)).1 == av,
        w1 + n <= t.len(),
        w2 == spec_ws(t.skip((w1 + n) as int)),
        w1 + n + w2 < t.len(),
        t[(w1 + n + w2) as int] == ']',
    ensures
        spec_braces_tail(t) == Some(((w1 + n + w2 + 1) as nat, av)),
{
}

/// The bracket-group tail fails when no closing bracket follows the body.
#[verifier::rlimit(100)]
#[verifier::spinoff_prover]
proof fn lemma_braces_tail_none(t: Seq<char>, w1: nat, n: nat, w2: nat)
    requires
        w1 == spec_ws(t),
        w1 <= t.len(),
        spec_contents(t.skip(w1 as int)).0 == n,
        w1 + n <= t.len(),
        w2 == spec_ws(t.skip((w1 + n) as int)),
        w1 + n + w2 < t.len() ==> t[(w1 + n + w2) as int] != ']',
    ensures
        spec_braces_tail(t) is None,
{
}

/// Parses the rest of a bracket group, after its opening bracket.
#[verifier::rlimit(100)]
#[verifier::spinoff_prover]
fn braces_tail_at(v: &Vec<char>, pos: usize) -> (r: Option<(usize, Ast)>)
    requires
        pos <= v@.len(),
    ensures
        ({
            let t = v@.skip(pos as int);
            match r {
                Some((p2, a)) => pos < p2 <= v@.len() && spec_braces_tail(t) == Some(
                    ((p2 - pos) as nat, a@),
                ),
                None => spec_braces_tail(t) is None,
            }
        }),
    decreases v@.len() - pos, 7int,
{
    let ghost t = v@.skip(pos as int);
    let w1pos = scan_ws(v, pos);
    proof {
        lemma_skip_skip(v@, pos as int, (w1pos - pos) as int);
    }
    let (cpos, a) = contents_at(v, w1pos);
    proof {
        lemma_skip_skip(v@, pos as int, (cpos - pos) as int);
    }
    let w2pos = scan_ws(v, cpos);
    if w2pos < v.len() && v[w2pos] == ']' {
        proof {
            assert(t[(w2pos - pos) as int] == v@[w2pos as int]);
            lemma_braces_tail_some(
                t,
                (w1pos - pos) as nat,
                (cpos - w1pos) as nat,
                (w2pos - cpos) as nat,
                a@,
            );
        }
        Some((w2pos + 1, a))
    } else {
        proof {
            if (w2pos as int) < v@.len() {
                assert(t[(w2pos - pos) as int] == v@[w2pos as int]);
            }
            lemma_braces_tail_none(
                t,
                (w1pos - pos) as nat,
                (cpos - w1pos) as nat,
                (w2pos - cpos) as nat,
            );
        }
        None
    }
}

/// Parses the body of a bracket group.
#[verifier::rlimit(100)]
#[verifier::spinoff_prover]
fn contents_at(v: &Vec<char>, pos: usize) -> (r: (usize, Ast))
    requires
        pos <= v@.len(),
    ensures
        pos <= r.0 <= v@.len(),
        spec_contents(v@.skip(pos as int)).0 == (r.0 - pos) as nat,
        spec_contents(v@.skip(pos as int)).1 == r.1@,
    decreases v@.len() - pos, 6int,
{
    match either_at(v, pos) {
        Some((p, a)) => (p, a),
        None => match ops_then_matches_at(v, pos) {
            Some((p, a)) => (p, a),
            None => {
                let empty: Vec<Ast> = Vec::new();
                let r = Ast::Concat(empty);
                proof {
                    assert(r@ == SpecAst::Concat(ast_seq_view(Seq::<Ast>::empty())));
                }
                (pos, r)
            },
        },
    }
}

/// Parses an alternation (or a single match body) at `pos`.
#[verifier::rlimit(100)]
#[verifier::spinoff_prover]
fn either_at(v: &Vec<char>, pos: usize) -> (r: Option<(usize, Ast)>)
    requires
        pos <= v@.len(),
    ensures
        ({
            let t = v@.skip(pos as int);
            match r {
                Some((p2, a)) => pos < p2 <= v@.len() && spec_either(t) == Some(
                    ((p2 - pos) as nat, a@),
                ),
                None => spec_either(t) is None,
            }
        }),
    decreases v@.len() - pos, 5int,
{
    let ghost t = v@.skip(pos as int);
    match matches_at(v, pos) {
        None => None,
        Some((p1, a1)) => {
            proof {
                lemma_skip_skip(v@, pos as int, (p1 - pos) as int);
            }
            let (p2, rest) = either_rest_at(v, p1);
            let ghost rv = ast_seq_view(rest@);
            let items = cons_ast(a1, rest);
            let a = either_if_needed(items);
            proof {
                let n1 = (p1 - pos) as nat;
                assert(spec_matches(t) == Some((n1, a1@)));
                assert(t.skip(n1 as int) == v@.skip(p1 as int));
                assert(spec_either_rest(t.skip(n1 as int)).1 == rv);
                assert(spec_either(t) == Some(
                    (((p2 - pos)) as nat, spec_either_if_needed(seq![a1@] + rv)),
                ));
            }
            Some((p2, a))
        },
    }
}

/// Parses one further `|`-introduced alternative, after its `|`.
#[verifier::rlimit(100)]
#[verifier::spinoff_prover]
fn either_elem_at(v: &Vec<char>, pos: usize) -> (r: Option<(usize, Ast)>)
    requires
        pos <= v@.len(),
    ensures
        ({
            let u = v@.skip(pos as int);
            match r {
                Some((p2, a)) => pos <= p2 <= v@.len() && spec_either_elem(u) == Some(
                    ((p2 - pos) as nat, a@),
                ),
                None => spec_either_elem(u) is None,
            }
        }),
    decreases v@.len() - pos, 5int,
{
    let ghost u = v@.skip(pos as int);
    let w2pos = scan_ws(v, pos);
    proof {
        lemma_skip_skip(v@, pos as int, (w2pos - pos) as int);
    }
    match matches_at(v, w2pos) {
        None => None,
        Some((p1, a)) => Some((p1, a)),
    }
}

/// Parses zero or more further `|`-introduced alternatives.
#[verifier::rlimit(100)]
#[verifier::spinoff_prover]
fn either_rest_at(v: &Vec<char>, pos: usize) -> (r: (usize, Vec<Ast>))
    requires
        pos <= v@.len(),
    ensures
        pos <= r.0 <= v@.len(),
        spec_either_rest(v@.skip(pos as int)).0 == (r.0 - pos) as nat,
        spec_either_rest(v@.skip(pos as int)).1 == ast_seq_view(r.1@),
    decreases v@.len() - pos, 6int,
{
    let ghost t = v@.skip(pos as int);
    let w1pos = scan_ws(v, pos);
    if w1pos < v.len() && v[w1pos] == '|' {
        proof {
            assert(t[(w1pos - pos) as int] == v@[w1pos as int]);
            lemma_skip_skip(v@, pos as int, (w1pos + 1 - pos) as int);
        }
        match either_elem_at(v, w1pos + 1) {
            None => {
                let l: Vec<Ast> = Vec::new();
                proof {
                    assert(ast_seq_view(l@) =~= Seq::<SpecAst>::empty());
                }
                (pos, l)
            },
            Some((p1, a)) => {
                proof {
                    lemma_skip_skip(v@, pos as int, (p1 - pos) as int);
                }
                let (p2, rest) = either_rest_at(v, p1);
                let items = cons_ast(a, rest);
                proof {
                    let w1 = (w1pos - pos) as nat;
                    let n = (p1 - (w1pos + 1)) as nat;
                    assert(spec_ws(t) == w1);
                    assert(t[w1 as int] == '|');
                    assert(t.skip((w1 + 1) as int) == v@.skip((w1pos + 1) as int));
                    assert(spec_either_elem(t.skip((w1 + 1) as int)) == Some((n, a@)));
                    assert(w1 + 1 + n == p1 - pos);
                    assert(t.skip((w1 + 1 + n) as int) == v@.skip(p1 as int));
                    assert(spec_either_rest(t).0 == (w1 + 1 + n) + spec_either_rest(
                        t.skip((w1 + 1 + n) as int),
                    ).0);
                    assert(spec_either_rest(t).1 == seq![a@] + spec_either_rest(
                        t.skip((w1 + 1 + n) as int),
                    ).1);
                }
                (p2, items)
            },
        }
    } else {
        proof {
            if (w1pos as int) - (pos as int) < t.len() {
                assert(t[(w1pos - pos) as int] == v@[w1pos as int]);
            }
        }
        let l: Vec<Ast> = Vec::new();
        proof {
            assert(ast_seq_view(l@) =~= Seq::<SpecAst>::empty());
        }
        (pos, l)
    }
}

/// Parses an operator head followed by a match body.
#[verifier::rlimit(100)]
#[verifier::spinoff_prover]
fn ops_then_matches_at(v: &Vec<char>, pos: usize) -> (r: Option<(usize, Ast)>)
    requires
        pos <= v@.len(),
    ensures
        ({
            let t = v@.skip(pos as int);
            match r {
                Some((p2, a)) => pos < p2 <= v@.len() && spec_ops_then_matches(t) == Some(
                    ((p2 - pos) as nat, a@),
                ),
                None => spec_ops_then_matches(t) is None,
            }
        }),
    decreases v@.len() - pos, 5int,
{
    let ghost t = v@.skip(pos as int);
    match ops_at(v, pos) {
        None => None,
        Some((p1, ops)) => {
            proof {
                lemma_skip_skip(v@, pos as int, (p1 - pos) as int);
            }
            match matches_at(v, p1) {
                None => None,
                Some((p2, body)) => {
                    let ghost ov = op_seq_view(ops@);
                    let a = wrap_ops(ops, body);
                    proof {
                        let n = (p1 - pos) as nat;
                        assert(spec_ops(t) == Some((n, ov)));
                        assert(t.skip(n as int) == v@.skip(p1 as int));
                        assert(spec_matches(t.skip(n as int)) == Some(
                            ((p2 - p1) as nat, body@),
                        ));
                        assert(spec_ops_then_matches(t) == Some(
                            ((p2 - pos) as nat, spec_wrap_ops(ov, body@)),
                        ));
                    }
                    Some((p2, a))
                },
            }
        },
    }
}

/// Parses a match body: one or more atoms.
#[verifier::rlimit(100)]
#[verifier::spinoff_prover]
fn matches_at(v: &Vec<char>, pos: usize) -> (r: Option<(usize, Ast)>)
    requires
        pos <= v@.len(),
    ensures
        ({
            let t = v@.skip(pos as int);
            match r {
                Some((p2, a)) => pos < p2 <= v@.len() && spec_matches(t) == Some(
                    ((p2 - pos) as nat, a@),
                ),
                None => spec_matches(t) is None,
            }
        }),
    decreases v@.len() - pos, 4int,
{
    let ghost t = v@.skip(pos as int);
    match match_at(v, pos) {
        None => None,
        Some((p1, a)) => {
            proof {
                lemma_skip_skip(v@, pos as int, (p1 - pos) as int);
            }
            let (p2, rest) = matches0_at(v, p1);
            let ghost rv = ast_seq_view(rest@);
            let items = cons_ast(a, rest);
            let node = concat_if_needed(items);
            proof {
                let n = (p1 - pos) as nat;
                assert(spec_match(t) == Some((n, a@)));
                assert(t.skip(n as int) == v@.skip(p1 as int));
                assert(spec_matches0(t.skip(n as int)).1 == rv);
                assert(spec_matches(t) == Some(
                    (((p2 - pos)) as nat, spec_concat_if_needed(seq![a@] + rv)),
                ));
            }
            Some((p2, node))
        },
    }
}

/// Parses zero or more further atoms.
#[verifier::rlimit(100)]
#[verifier::spinoff_prover]
fn matches0_at(v: &Vec<char>, pos: usize) -> (r: (usize, Vec<Ast>))
    requires
        pos <= v@.len(),
    ensures
        pos <= r.0 <= v@.len(),
        spec_matches0(v@.skip(pos as int)).0 == (r.0 - pos) as nat,
        spec_matches0(v@.skip(pos as int)).1 == ast_seq_view(r.1@),
    decreases v@.len() - pos, 3int,
{
    let ghost t = v@.skip(pos as int);
    match match_at(v, pos) {
        None => {
            let l: Vec<Ast> = Vec::new();
            proof {
                assert(ast_seq_view(l@) =~= Seq::<SpecAst>::empty());
            }
            (pos, l)
        },
        Some((p1, a)) => {
            proof {
                lemma_skip_skip(v@, pos as int, (p1 - pos) as int);
            }
            let (p2, rest) = matches0_at(v, p1);
            let ghost rv = ast_seq_view(rest@);
            let items = cons_ast(a, rest);
            proof {
                let n = (p1 - pos) as nat;
                assert(spec_match(t) == Some((n, a@)));
                assert(t.skip(n as int) == v@.skip(p1 as int));
                assert(spec_matches0(t).0 == n + spec_matches0(t.skip(n as int)).0);
                assert(spec_matches0(t).1 == seq![a@] + rv);
            }
            (p2, items)
        },
    }
}

/// Parses one atom with its surrounding whitespace.
#[verifier::rlimit(100)]
#[verifier::spinoff_prover]
fn match_at(v: &Vec<char>, pos: usize) -> (r: Option<(usize, Ast)>)
    requires
        pos <= v@.len(),
    ensures
        ({
            let t = v@.skip(pos as int);
            match r {
                Some((p2, a)) => pos < p2 <= v@.len() && spec_match(t) == Some(
                    ((p2 - pos) as nat, a@),
                ),
                None => spec_match(t) is None,
            }
        }),
    decreases v@.len() - pos, 2int,
{
    let ghost t = v@.skip(pos as int);
    let w1pos = scan_ws(v, pos);
    proof {
        lemma_skip_skip(v@, pos as int, (w1pos - pos) as int);
    }
    let inner = match literal_at(v, w1pos) {
        Some(r) => Some(r),
        None => match def_macro_at(v, w1pos) {
            Some(r) => Some(r),
            None => match macro_at(v, w1pos) {
                Some(r) => Some(r),
                None => braces_at(v, w1pos),
            },
        },
    };
    match inner {
        None => None,
        Some((p1, a)) => {
            proof {
                lemma_skip_skip(v@, pos as int, (p1 - pos) as int);
            }
            let w2pos = scan_ws(v, p1);
            proof {
                let w1 = (w1pos - pos) as nat;
                let n = (p1 - w1pos) as nat;
                let w2 = (w2pos - p1) as nat;
                assert(spec_ws(t) == w1);
                assert(t.skip(w1 as int) == v@.skip(w1pos as int));
                assert(t.skip((w1 + n) as int) == v@.skip(p1 as int));
                assert(spec_ws(t.skip((w1 + n) as int)) == w2);
                assert(w1 + n + w2 == w2pos - pos);
            }
            Some((w2pos, a))
        },
    }
}

/// Parses a macro definition `#name=[...]` at `pos`.
#[verifier::rlimit(100)]
#[verifier::spinoff_prover]
fn def_macro_at(v: &Vec<char>, pos: usize) -> (r: Option<(usize, Ast)>)
    requires
        pos <= v@.len(),
    ensures
        ({
            let t = v@.skip(pos as int);
            match r {
                Some((p2, a)) => pos < p2 <= v@.len() && spec_def_macro(t) == Some(
                    ((p2 - pos) as nat, a@),
                ),
                None => spec_def_macro(t) is None,
            }
        }),
    decreases v@.len() - pos, 1int,
{
    let ghost t = v@.skip(pos as int);
    match macro_at(v, pos) {
        Some((p1, Ast::Macro(name))) => {
            if p1 < v.len() && v[p1] == '=' {
                proof {
                    assert(t[(p1 - pos) as int] == v@[p1 as int]);
                    lemma_skip_skip(v@, pos as int, (p1 + 1 - pos) as int);
                }
                match braces_at(v, p1 + 1) {
                    Some((p2, body)) => Some((p2, Ast::DefMacro(name, Box::new(body)))),
                    None => None,
                }
            } else {
                proof {
                    if (p1 as int) - (pos as int) < t.len() {
                        assert(t[(p1 - pos) as int] == v@[p1 as int]);
                    }
                }
                None
            }
        },
        Some((_, _)) => None,
        None => None,
    }
}

/// Parses the top-level sequence of outer literals and bracket groups.
#[verifier::rlimit(100)]
#[verifier::spinoff_prover]
fn top0_at(v: &Vec<char>, pos: usize) -> (r: (usize, Vec<Ast>))
    requires
        pos <= v@.len(),
    ensures
        pos <= r.0 <= v@.len(),
        spec_top0(v@.skip(pos as int)).0 == (r.0 - pos) as nat,
        spec_top0(v@.skip(pos as int)).1 == ast_seq_view(r.1@),
    decreases v@.len() - pos, 8int,
{
    let ghost t = v@.skip(pos as int);
    if pos == v.len() {
        let l: Vec<Ast> = Vec::new();
        proof {
            assert(ast_seq_view(l@) =~= Seq::<SpecAst>::empty());
        }
        (pos, l)
    } else if v[pos] != '[' && v[pos] != ']' {
        proof {
            assert(t[0] == v@[pos as int]);
        }
        let k = scan_outer(v, pos);
        proof {
            assert(spec_outer_len(t) > 0);
            lemma_skip_skip(v@, pos as int, (k - pos) as int);
            assert(t.take((k - pos) as int) =~= v@.subrange(pos as int, k as int));
        }
        let lit = take_string(v, pos, k);
        let (p2, rest) = top0_at(v, k);
        let a = Ast::Literal(lit);
        let items = cons_ast(a, rest);
        (p2, items)
    } else {
        proof {
            assert(t[0] == v@[pos as int]);
        }
        match braces_at(v, pos) {
            None => {
                let l: Vec<Ast> = Vec::new();
                proof {
                    assert(ast_seq_view(l@) =~= Seq::<SpecAst>::empty());
                }
                (pos, l)
            },
            Some((p1, a)) => {
                proof {
                    lemma_skip_skip(v@, pos as int, (p1 - pos) as int);
                }
                let (p2, rest) = top0_at(v, p1);
                let items = cons_ast(a, rest);
                (p2, items)
            },
        }
    }
}

/// Parses a whole Kleenexp pattern into its syntax tree. The parse fails
/// exactly when the grammar cannot consume the whole input.
pub fn parse(pattern: &str) -> (r: Result<Ast, String>)
    ensures
        match r {
            Ok(a) => spec_parse(pattern@) == Some(a@),
            Err(_) => spec_parse(pattern@) is None,
        },
{
    let v = chars_of(pattern);
    proof {
        assert(v@.skip(0) =~= v@);
    }
    let (p, items) = top0_at(&v, 0);
    if p == v.len() {
        Ok(concat_if_needed(items))
    } else {
        let mut e = String::new();
        e.append("unable to parse pattern past character ");
        let d = usize_string(p);
        e.append(d.as_str());
        Err(e)
    }
}

/// The length of the leading whitespace run of a string: the parser wraps
/// every token parser in such a skip on both sides.
pub fn ws(i: &str) -> (r: usize)
    ensures
        r as nat == spec_ws(i@),
        r <= i@.len(),
{
    let v = chars_of(i);
    proof {
        assert(v@.skip(0) =~= v@);
    }
    scan_ws(&v, 0)
}

/// Splits off a leading token, returning the rest of the input and the
/// token text.
pub fn token(i: &str) -> (r: Result<(String, String), String>)
    ensures
        ({
            match (r, spec_token(i@)) {
                (Ok((rest, tok)), Some((n, tokv))) => tok@ == tokv && rest@ == i@.skip(n as int),
                (Err(_), None) => true,
                _ => false,
            }
        }),
{
    let v = chars_of(i);
    proof {
        assert(v@.skip(0) =~= v@);
    }
    let tpos = scan_token(&v, 0);
    if tpos == 0 {
        let mut e = String::new();
        e.append("expected a token");
        Err(e)
    } else {
        let tok = take_string(&v, 0, tpos);
        let rest = take_string(&v, tpos, v.len());
        proof {
            assert(v@.subrange(0, tpos as int) =~= v@.take(tpos as int));
            assert(v@.subrange(tpos as int, v@.len() as int) =~= v@.skip(tpos as int));
        }
        Ok((rest, tok))
    }
}

/// Parses a leading operator head, returning the rest of the input and the
/// operators.
pub fn ops(i: &str) -> (r: Result<(String, Vec<Op>), String>)
    ensures
        ({
            match (r, spec_ops(i@)) {
                (Ok((rest, l)), Some((n, lv))) => op_seq_view(l@) == lv && rest@ == i@.skip(
                    n as int,
                ),
                (Err(_), None) => true,
                _ => false,
            }
        }),
{
    let v = chars_of(i);
    proof {
        assert(v@.skip(0) =~= v@);
    }
    match ops_at(&v, 0) {
        Some((p, l)) => {
            let rest = take_string(&v, p, v.len());
            proof {
                assert(v@.subrange(p as int, v@.len() as int) =~= v@.skip(p as int));
            }
            Ok((rest, l))
        },
        None => {
            let mut e = String::new();
            e.append("expected an operator head");
            Err(e)
        },
    }
}

/// Parses a leading match body, returning the rest of the input and the
/// node.
pub fn matches(i: &str) -> (r: Result<(String, Ast), String>)
    ensures
        ({
            match (r, spec_matches(i@)) {
                (Ok((rest, a)), Some((n, av))) => a@ == av && rest@ == i@.skip(n as int),
                (Err(_), None) => true,
                _ => false,
            }
        }),
{
    let v = chars_of(i);
    proof {
        assert(v@.skip(0) =~= v@);
    }
    match matches_at(&v, 0) {
        Some((p, a)) => {
            let rest = take_string(&v, p, v.len());
            proof {
                assert(v@.subrange(p as int, v@.len() as int) =~= v@.skip(p as int));
            }
            Ok((rest, a))
        },
        None => {
            let mut e = String::new();
            e.append("expected a match body");
            Err(e)
        },
    }
}

/// Parses a leading alternation, returning the rest of the input and the
/// node.
pub fn either(i: &str) -> (r: Result<(String, Ast), String>)
    ensures
        ({
            match (r, spec_either(i@)) {
                (Ok((rest, a)), Some((n, av))) => a@ == av && rest@ == i@.skip(n as int),
                (Err(_), None) => true,
                _ => false,
            }
        }),
{
    let v = chars_of(i);
    proof {
        assert(v@.skip(0) =~= v@);
    }
    match either_at(&v, 0) {
        Some((p, a)) => {
            let rest = take_string(&v, p, v.len());
            proof {
                assert(v@.subrange(p as int, v@.len() as int) =~= v@.skip(p as int));
            }
            Ok((rest, a))
        },
        None => {
            let mut e = String::new();
            e.append("expected an alternation");
            Err(e)
        },
    }
}

/// Parses a leading operator head with its match body, returning the rest
/// of the input and the node.
pub fn ops_then_matches(i: &str) -> (r: Result<(String, Ast), String>)
    ensures
        ({
            match (r, spec_ops_then_matches(i@)) {
                (Ok((rest, a)), Some((n, av))) => a@ == av && rest@ == i@.skip(n as int),
                (Err(_), None) => true,
                _ => false,
            }
        }),
{
    let v = chars_of(i);
    proof {
        assert(v@.skip(0) =~= v@);
    }
    match ops_then_matches_at(&v, 0) {
        Some((p, a)) => {
            let rest = take_string(&v, p, v.len());
            proof {
                assert(v@.subrange(p as int, v@.len() as int) =~= v@.skip(p as int));
            }
            Ok((rest, a))
        },
        None => {
            let mut e = String::new();
            e.append("expected an operator head with matches");
            Err(e)
        },
    }
}

} // verus!
