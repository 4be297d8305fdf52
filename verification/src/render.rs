//! Rendering of the intermediate representation to a concrete regex string:
//! escaping, quantifier syntax, character classes (with deterministic,
//! sorted item order) and flavor-specific capture headers.

use vstd::prelude::*;

use crate::RegexFlavor;
use crate::chars::{
    is_word_char, lex_le, push_char, spec_dec, spec_lex_le, u32_string, word_char,
};
use crate::regexable::{
    components_view, lemma_rx_seq_view, rx_seq_view, rx_view, CharacterClassComponent,
    ParensOperator, Regexable, SpecComponent, SpecRegexable,
};

verus! {

/// The escape that a character needs in a literal outside a character class:
/// `Some(e)` means the character is rendered as a backslash followed by `e`.
pub open spec fn spec_escape_char(c: char) -> Option<char> {
    if c == '(' || c == ')' || c == '[' || c == ']' || c == '{' || c == '}' || c == '?'
        || c == '*' || c == '+' || c == '|' || c == '^' || c == '$' || c == '.' || c == '\\' {
        Some(c)
    } else if c == '\t' {
        Some('t')
    } else if c == '\n' {
        Some('n')
    } else if c == '\r' {
        Some('r')
    } else if c == '\u{b}' {
        Some('v')
    } else if c == '\u{c}' {
        Some('f')
    } else {
        None
    }
}

/// One literal character after escaping.
pub open spec fn spec_escape_one(c: char) -> Seq<char> {
    match spec_escape_char(c) {
        Some(e) => seq!['\\', e],
        None => seq![c],
    }
}

/// A literal string after escaping of regex metacharacters and controls.
pub open spec fn spec_escape(s: Seq<char>) -> Seq<char>
    decreases s.len(),
{
    if s.len() == 0 {
        Seq::empty()
    } else {
        spec_escape(s.drop_last()) + spec_escape_one(s.last())
    }
}

/// The escape that a character needs inside a character class.
pub open spec fn spec_class_escape_char(c: char) -> Option<char> {
    if c == '[' || c == ']' || c == '^' || c == '-' || c == '\\' {
        Some(c)
    } else if c == '\t' {
        Some('t')
    } else if c == '\n' {
        Some('n')
    } else if c == '\r' {
        Some('r')
    } else if c == '\u{b}' {
        Some('v')
    } else if c == '\u{c}' {
        Some('f')
    } else {
        None
    }
}

/// One character-class character after escaping.
pub open spec fn spec_class_escape(c: char) -> Seq<char> {
    match spec_class_escape_char(c) {
        Some(e) => seq!['\\', e],
        None => seq![c],
    }
}

/// Wraps a fragment in a non-capturing group when asked to.
pub open spec fn spec_wrap_if(condition: bool, s: Seq<char>) -> Seq<char> {
    if condition {
        seq!['(', '?', ':'] + s + seq![')']
    } else {
        s
    }
}

/// The shortest quantifier syntax for a repetition range, with `?` appended
/// for a lazy repetition.
pub open spec fn spec_quantifier(min: u32, max: Option<u32>, is_greedy: bool) -> Seq<char> {
    let op = if min == 0 && max is None {
        seq!['*']
    } else if min == 1 && max is None {
        seq!['+']
    } else if min == 0 && max == Some(1u32) {
        seq!['?']
    } else if max is None {
        seq!['{'] + spec_dec(min as nat) + seq![',', '}']
    } else if min == max->0 {
        seq!['{'] + spec_dec(min as nat) + seq!['}']
    } else {
        seq!['{'] + spec_dec(min as nat) + seq![','] + spec_dec(max->0 as nat) + seq!['}']
    };
    if is_greedy {
        op + seq!['?']
    } else {
        op
    }
}

/// A capture-group name must be a lowercase identifier: `[a-z_]` followed by
/// word characters.
pub open spec fn spec_identifier(name: Seq<char>) -> bool {
    &&& name.len() > 0
    &&& (name[0] == '_' || ('a' <= name[0] && name[0] <= 'z'))
    &&& forall|i: int| 1 <= i < name.len() ==> is_word_char(#[trigger] name[i])
}

/// The header of a capture group: empty for an unnamed group, `?P<name>`
/// (or `?<name>` for the Javascript flavor) for a valid name, and no header
/// at all (an error) for an invalid name.
pub open spec fn spec_capture_header(name: Seq<char>, flavor: RegexFlavor) -> Option<Seq<char>> {
    if name.len() == 0 {
        Some(Seq::empty())
    } else if !spec_identifier(name) {
        None
    } else if flavor == RegexFlavor::Javascript {
        Some(seq!['?', '<'] + name + seq!['>'])
    } else {
        Some(seq!['?', 'P', '<'] + name + seq!['>'])
    }
}

/// The header of a lookaround group.
pub open spec fn spec_parens_header(op: ParensOperator) -> Seq<char> {
    match op {
        ParensOperator::Lookahead => seq!['?', '='],
        ParensOperator::Lookbehind => seq!['?', '<', '='],
        ParensOperator::NegativeLookahead => seq!['?', '!'],
        ParensOperator::NegativeLookbehind => seq!['?', '<', '!'],
    }
}

/// The rendering of one character-class item, if it is legal.
pub open spec fn spec_render_range(c: SpecComponent) -> Option<Seq<char>> {
    match c {
        SpecComponent::Special(s) => Some(s),
        SpecComponent::Single(ch) => Some(spec_class_escape(ch)),
        SpecComponent::Range(a, b) => if a == b {
            Some(spec_class_escape(a))
        } else if (a as u32) < (b as u32) {
            Some(spec_class_escape(a) + seq!['-'] + spec_class_escape(b))
        } else {
            None
        },
    }
}

/// The renderings of all items of a character class, in source order.
pub open spec fn spec_render_ranges(cs: Seq<SpecComponent>) -> Option<Seq<Seq<char>>>
    decreases cs.len(),
{
    if cs.len() == 0 {
        Some(Seq::empty())
    } else {
        match (spec_render_ranges(cs.drop_last()), spec_render_range(cs.last())) {
            (Some(a), Some(b)) => Some(a.push(b)),
            _ => None,
        }
    }
}

/// Inserts a string into a lexicographically sorted list, keeping it sorted.
pub open spec fn spec_insert_sorted(x: Seq<char>, l: Seq<Seq<char>>) -> Seq<Seq<char>>
    decreases l.len(),
{
    if l.len() == 0 {
        seq![x]
    } else if spec_lex_le(x, l[0]) {
        seq![x] + l
    } else {
        seq![l[0]] + spec_insert_sorted(x, l.drop_first())
    }
}

/// Sorts a list of strings lexicographically (insertion sort).
pub open spec fn spec_sort_strings(l: Seq<Seq<char>>) -> Seq<Seq<char>>
    decreases l.len(),
{
    if l.len() == 0 {
        l
    } else {
        spec_insert_sorted(l[0], spec_sort_strings(l.drop_first()))
    }
}

/// Concatenates a list of strings.
pub open spec fn spec_join(l: Seq<Seq<char>>) -> Seq<char>
    decreases l.len(),
{
    if l.len() == 0 {
        Seq::empty()
    } else {
        spec_join(l.drop_last()) + l.last()
    }
}

/// The bracket form of a character class: the items are rendered one by
/// one, sorted by their rendered form, and joined between `[` and `]`,
/// with `^` first when the class is inverted.
pub open spec fn spec_render_class(cs: Seq<SpecComponent>, inverted: bool) -> Option<Seq<char>> {
    match spec_render_ranges(cs) {
        None => None,
        Some(rs) => Some(
            seq!['['] + (if inverted {
                seq!['^']
            } else {
                Seq::empty()
            }) + spec_join(spec_sort_strings(rs)) + seq![']'],
        ),
    }
}

/// The uppercase counterpart of the specials `\d`, `\s` and `\w`.
pub open spec fn spec_upper_special(s: Seq<char>) -> Seq<char> {
    if s == seq!['\\', 'd'] {
        seq!['\\', 'D']
    } else if s == seq!['\\', 's'] {
        seq!['\\', 'S']
    } else {
        seq!['\\', 'W']
    }
}

/// Whether an IR node is an alternation of more than one alternative; such
/// a child must be wrapped when it stands inside a concatenation.
pub open spec fn spec_is_multi_either(r: SpecRegexable) -> bool {
    match r {
        SpecRegexable::Either(subs) => subs.len() > 1,
        _ => false,
    }
}

/// The full rendering of an IR node in a flavor. `None` is a rendering
/// error (an invalid range or capture name somewhere inside). `wrap` asks
/// for a result that is safe to concatenate unparenthesized.
pub open spec fn spec_render(r: SpecRegexable, flavor: RegexFlavor, wrap: bool) -> Option<
    Seq<char>,
>
    decreases r,
{
    match r {
        SpecRegexable::Literal(s) => Some(
            spec_wrap_if(wrap && spec_escape(s).len() != 1, spec_escape(s)),
        ),
        SpecRegexable::Multiple { min, max, is_greedy, sub } => match spec_render(
            *sub,
            flavor,
            true,
        ) {
            None => None,
            Some(b) => Some(spec_wrap_if(wrap, b + spec_quantifier(min, max, is_greedy))),
        },
        SpecRegexable::Either(items) => match spec_render_either(items, flavor) {
            None => None,
            Some(j) => Some(spec_wrap_if(wrap, j)),
        },
        SpecRegexable::Concat(items) => match spec_render_concat(items, flavor) {
            None => None,
            Some(j) => Some(spec_wrap_if(wrap, j)),
        },
        SpecRegexable::CharacterClass { characters, inverted } => if characters.len() == 0 {
            if inverted {
                Some(seq!['.'])
            } else {
                Some(seq!['(', '?', '!', ')', '.'])
            }
        } else if characters.len() == 1 {
            match characters[0] {
                SpecComponent::Single(ch) => if inverted {
                    spec_render_class(characters, inverted)
                } else {
                    Some(spec_escape_one(ch))
                },
                SpecComponent::Special(s) => if s == seq!['\\', 'd'] || s == seq!['\\', 's'] || s
                    == seq!['\\', 'w'] {
                    if inverted {
                        Some(spec_upper_special(s))
                    } else {
                        Some(s)
                    }
                } else {
                    spec_render_class(characters, inverted)
                },
                SpecComponent::Range(_, _) => spec_render_class(characters, inverted),
            }
        } else {
            spec_render_class(characters, inverted)
        },
        SpecRegexable::Boundary(tok, _) => Some(tok),
        SpecRegexable::Capture(name, sub) => match spec_capture_header(name, flavor) {
            None => None,
            Some(h) => match spec_render(*sub, flavor, false) {
                None => None,
                Some(b) => Some(seq!['('] + h + b + seq![')']),
            },
        },
        SpecRegexable::ParensOperator(op, sub) => match spec_render(*sub, flavor, false) {
            None => None,
            Some(b) => Some(seq!['('] + spec_parens_header(op) + b + seq![')']),
        },
    }
}

/// The alternatives of an alternation, each rendered unwrapped, joined
/// with `|`.
pub open spec fn spec_render_either(items: Seq<SpecRegexable>, flavor: RegexFlavor) -> Option<
    Seq<char>,
>
    decreases items,
{
    if items.len() == 0 {
        Some(Seq::empty())
    } else if items.len() == 1 {
        spec_render(items.last(), flavor, false)
    } else {
        match (spec_render_either(items.drop_last(), flavor), spec_render(
            items.last(),
            flavor,
            false,
        )) {
            (Some(a), Some(b)) => Some(a + seq!['|'] + b),
            _ => None,
        }
    }
}

/// The children of a concatenation, joined without separator; a child that
/// is a proper alternation is wrapped.
pub open spec fn spec_render_concat(items: Seq<SpecRegexable>, flavor: RegexFlavor) -> Option<
    Seq<char>,
>
    decreases items,
{
    if items.len() == 0 {
        Some(Seq::empty())
    } else {
        match (spec_render_concat(items.drop_last(), flavor), spec_render(
            items.last(),
            flavor,
            spec_is_multi_either(items.last()),
        )) {
            (Some(a), Some(b)) => Some(a + b),
            _ => None,
        }
    }
}

/// A list of strings in nondecreasing lexicographic order.
pub open spec fn strs_sorted(l: Seq<Seq<char>>) -> bool {
    forall|i: int, j: int| 0 <= i < j < l.len() ==> spec_lex_le(#[trigger] l[i], #[trigger] l[j])
}

/// The lexicographic order is transitive.
pub proof fn lemma_lex_trans(a: Seq<char>, b: Seq<char>, c: Seq<char>)
    requires
        spec_lex_le(a, b),
        spec_lex_le(b, c),
    ensures
        spec_lex_le(a, c),
    decreases a.len(),
{
    if a.len() > 0 && b.len() > 0 && c.len() > 0 && (a[0] as u32) == (b[0] as u32) && (b[0] as u32)
        == (c[0] as u32) {
        lemma_lex_trans(a.drop_first(), b.drop_first(), c.drop_first());
    }
}

/// Prepending an element inserts it into the multiset of a list.
proof fn lemma_cons_multiset(x: Seq<char>, l: Seq<Seq<char>>)
    ensures
        (seq![x] + l).to_multiset() == l.to_multiset().insert(x),
    decreases l.len(),
{
    broadcast use vstd::seq_lib::group_to_multiset_ensures;

    let whole = seq![x] + l;
    assert(whole[0] == x);
    assert(whole.contains(x));
    assert(whole.to_multiset().count(x) > 0);
    assert(whole.remove(0) =~= l);
    assert(whole.remove(0).to_multiset() == whole.to_multiset().remove(whole[0]));
    assert(l.to_multiset() == whole.to_multiset().remove(x));
    assert(whole.to_multiset() =~= l.to_multiset().insert(x));
}

/// Inserting into a sorted list keeps it sorted and only adds the new
/// element.
pub proof fn lemma_insert_sorted(x: Seq<char>, l: Seq<Seq<char>>)
    requires
        strs_sorted(l),
    ensures
        strs_sorted(spec_insert_sorted(x, l)),
        spec_insert_sorted(x, l).to_multiset() == l.to_multiset().insert(x),
        spec_insert_sorted(x, l).len() == l.len() + 1,
    decreases l.len(),
{
    broadcast use vstd::seq_lib::group_to_multiset_ensures;

    let out = spec_insert_sorted(x, l);
    if l.len() == 0 {
        assert(out =~= seq![x] + l);
        lemma_cons_multiset(x, l);
    } else if spec_lex_le(x, l[0]) {
        lemma_cons_multiset(x, l);
        assert forall|i: int, j: int| 0 <= i < j < out.len() implies spec_lex_le(
            #[trigger] out[i],
            #[trigger] out[j],
        ) by {
            if i == 0 {
                if j > 1 {
                    lemma_lex_trans(x, l[0], l[j - 1]);
                }
            }
        }
    } else {
        let rest = l.drop_first();
        assert(forall|i: int, j: int|
            0 <= i < j < rest.len() ==> spec_lex_le(#[trigger] rest[i], #[trigger] rest[j]));
        lemma_insert_sorted(x, rest);
        let inner = spec_insert_sorted(x, rest);
        assert(out =~= seq![l[0]] + inner);
        lemma_cons_multiset(l[0], inner);
        lemma_cons_multiset(l[0], rest);
        assert(l =~= seq![l[0]] + rest);
        assert(out.to_multiset() =~= l.to_multiset().insert(x));
        crate::chars::lemma_lex_total(x, l[0]);
        assert forall|i: int, j: int| 0 <= i < j < out.len() implies spec_lex_le(
            #[trigger] out[i],
            #[trigger] out[j],
        ) by {
            if i == 0 {
                let y = out[j];
                assert(y == inner[j - 1]);
                assert(inner.to_multiset().count(y) > 0);
                assert(inner.to_multiset() == rest.to_multiset().insert(x));
                if y == x {
                    assert(spec_lex_le(l[0], y));
                } else {
                    assert(rest.to_multiset().count(y) > 0);
                    assert(rest.contains(y));
                    let k = choose|k: int| 0 <= k < rest.len() && rest[k] == y;
                    assert(spec_lex_le(l[0], l[k + 1]));
                }
            } else {
                assert(out[i] == inner[i - 1] && out[j] == inner[j - 1]);
            }
        }
    }
}

/// Sorting makes a list sorted and keeps exactly its elements.
pub proof fn lemma_sort_strings(l: Seq<Seq<char>>)
    ensures
        strs_sorted(spec_sort_strings(l)),
        spec_sort_strings(l).to_multiset() == l.to_multiset(),
        spec_sort_strings(l).len() == l.len(),
    decreases l.len(),
{
    broadcast use vstd::seq_lib::group_to_multiset_ensures;

    if l.len() > 0 {
        let rest = l.drop_first();
        lemma_sort_strings(rest);
        lemma_insert_sorted(l[0], spec_sort_strings(rest));
        lemma_cons_multiset(l[0], rest);
        assert(l =~= seq![l[0]] + rest);
        assert(spec_sort_strings(l).to_multiset() =~= l.to_multiset());
    }
}

/// The items of a rendered character class stand in sorted order: the
/// bracket form joins the item renderings after sorting, and the sorted
/// list holds exactly the renderings of the class's items.
pub proof fn lemma_class_items_sorted(cs: Seq<SpecComponent>)
    ensures
        match spec_render_ranges(cs) {
            Some(rs) => strs_sorted(spec_sort_strings(rs)) && spec_sort_strings(rs).to_multiset()
                == rs.to_multiset() && (spec_render_class(cs, false) matches Some(out) && out
                == seq!['['] + spec_join(spec_sort_strings(rs)) + seq![']']),
            None => spec_render_class(cs, false) is None,
        },
{
    match spec_render_ranges(cs) {
        Some(rs) => {
            lemma_sort_strings(rs);
            assert(seq!['['] + Seq::<char>::empty() + spec_join(spec_sort_strings(rs))
                + seq![']'] =~= seq!['['] + spec_join(spec_sort_strings(rs)) + seq![']']);
        },
        None => {},
    }
}

/// Every repetition range renders to its shortest classical form: `*`, `+`
/// and `?` for the ranges they abbreviate, `{n}` rather than `{n,n}` for an
/// exact count, and `{n,}` or `{n,m}` otherwise.
pub proof fn lemma_quantifier_minimal(n: u32, m: u32)
    ensures
        spec_quantifier(0u32, None, false) == seq!['*'],
        spec_quantifier(1u32, None, false) == seq!['+'],
        spec_quantifier(0u32, Some(1u32), false) == seq!['?'],
        n >= 2 ==> spec_quantifier(n, None, false) == seq!['{'] + spec_dec(n as nat) + seq![
            ',',
            '}',
        ],
        spec_quantifier(n, Some(n), false) == seq!['{'] + spec_dec(n as nat) + seq!['}'],
        n != m && !(n == 0 && m == 1) ==> spec_quantifier(n, Some(m), false) == seq!['{']
            + spec_dec(n as nat) + seq![','] + spec_dec(m as nat) + seq!['}'],
{
}

/// A string without regex metacharacters or controls escapes to itself.
pub proof fn lemma_escape_id(p: Seq<char>)
    requires
        forall|i: int| 0 <= i < p.len() ==> spec_escape_char(#[trigger] p[i]) is None,
    ensures
        spec_escape(p) == p,
    decreases p.len(),
{
    if p.len() > 0 {
        lemma_escape_id(p.drop_last());
        assert(spec_escape(p) =~= p);
    } else {
        assert(spec_escape(p) =~= p);
    }
}

/// Decides which escape a literal character needs.
pub fn escape_char(c: char) -> (r: Option<char>)
    ensures
        r == spec_escape_char(c),
{
    match c {
        '(' | ')' | '[' | ']' | '{' | '}' | '?' | '*' | '+' | '|' | '^' | '$' | '.' | '\\' => Some(
            c,
        ),
        '\t' => Some('t'),
        '\n' => Some('n'),
        '\r' => Some('r'),
        '\u{b}' => Some('v'),
        '\u{c}' => Some('f'),
        _ => None,
    }
}

/// Escapes a whole literal.
pub fn escape(string: &str) -> (r: String)
    ensures
        r@ == spec_escape(string@),
{
    let n = string.unicode_len();
    let mut r = String::new();
    let mut i: usize = 0;
    while i < n
        invariant
            n == string@.len(),
            i <= n,
            r@ == spec_escape(string@.take(i as int)),
        decreases n - i,
    {
        let c = string.get_char(i);
        match escape_char(c) {
            Some(e) => {
                push_char(&mut r, '\\');
                push_char(&mut r, e);
            },
            None => {
                push_char(&mut r, c);
            },
        }
        proof {
            let t = string@.take(i + 1);
            assert(t.drop_last() =~= string@.take(i as int));
            assert(t.last() == string@[i as int]);
            assert(r@ =~= spec_escape(string@.take(i as int)) + spec_escape_one(string@[i as int]));
        }
        i = i + 1;
    }
    proof {
        assert(string@.take(n as int) =~= string@);
    }
    r
}

/// Decides which escape a character needs inside a character class.
pub fn character_class_escape_char(c: char) -> (r: Option<char>)
    ensures
        r == spec_class_escape_char(c),
{
    match c {
        '[' | ']' | '^' | '-' | '\\' => Some(c),
        '\t' => Some('t'),
        '\n' => Some('n'),
        '\r' => Some('r'),
        '\u{b}' => Some('v'),
        '\u{c}' => Some('f'),
        _ => None,
    }
}

/// Escapes one character for use inside a character class.
pub fn character_class_escape(c: char) -> (r: String)
    ensures
        r@ == spec_class_escape(c),
{
    let mut r = String::new();
    match character_class_escape_char(c) {
        Some(e) => {
            push_char(&mut r, '\\');
            push_char(&mut r, e);
            proof {
                assert(r@ =~= spec_class_escape(c));
            }
        },
        None => {
            push_char(&mut r, c);
            proof {
                assert(r@ =~= spec_class_escape(c));
            }
        },
    }
    r
}

/// Escapes one literal character (outside a class).
pub fn escape_one(c: char) -> (r: String)
    ensures
        r@ == spec_escape_one(c),
{
    let mut r = String::new();
    match escape_char(c) {
        Some(e) => {
            push_char(&mut r, '\\');
            push_char(&mut r, e);
            proof {
                assert(r@ =~= spec_escape_one(c));
            }
        },
        None => {
            push_char(&mut r, c);
            proof {
                assert(r@ =~= spec_escape_one(c));
            }
        },
    }
    r
}

/// Wraps a fragment in a non-capturing group when the condition holds.
pub fn wrap_if(condition: bool, string: &str) -> (r: String)
    ensures
        r@ == spec_wrap_if(condition, string@),
{
    if condition {
        let mut r = String::new();
        push_char(&mut r, '(');
        push_char(&mut r, '?');
        push_char(&mut r, ':');
        r.append(string);
        push_char(&mut r, ')');
        proof {
            assert(r@ =~= spec_wrap_if(condition, string@));
        }
        r
    } else {
        let mut r = String::new();
        r.append(string);
        proof {
            assert(r@ =~= string@);
        }
        r
    }
}

/// Renders the shortest quantifier for a repetition range.
pub fn quantifier_op(min: u32, max: Option<u32>, is_greedy: bool) -> (r: String)
    ensures
        r@ == spec_quantifier(min, max, is_greedy),
{
    let mut r: String = match max {
        None => {
            if min == 0 {
                let mut s = String::new();
                push_char(&mut s, '*');
                proof {
                    assert(s@ =~= seq!['*']);
                }
                s
            } else if min == 1 {
                let mut s = String::new();
                push_char(&mut s, '+');
                proof {
                    assert(s@ =~= seq!['+']);
                }
                s
            } else {
                let mut s = String::new();
                push_char(&mut s, '{');
                let d = u32_string(min);
                s.append(d.as_str());
                push_char(&mut s, ',');
                push_char(&mut s, '}');
                proof {
                    assert(s@ =~= seq!['{'] + spec_dec(min as nat) + seq![',', '}']);
                }
                s
            }
        },
        Some(b) => {
            if min == 0 && b == 1 {
                let mut s = String::new();
                push_char(&mut s, '?');
                proof {
                    assert(s@ =~= seq!['?']);
                }
                s
            } else if min == b {
                let mut s = String::new();
                push_char(&mut s, '{');
                let d = u32_string(min);
                s.append(d.as_str());
                push_char(&mut s, '}');
                proof {
                    assert(s@ =~= seq!['{'] + spec_dec(min as nat) + seq!['}']);
                }
                s
            } else {
                let mut s = String::new();
                push_char(&mut s, '{');
                let d = u32_string(min);
                s.append(d.as_str());
                push_char(&mut s, ',');
                let d2 = u32_string(b);
                s.append(d2.as_str());
                push_char(&mut s, '}');
                proof {
                    assert(s@ =~= seq!['{'] + spec_dec(min as nat) + seq![','] + spec_dec(
                        b as nat,
                    ) + seq!['}']);
                }
                s
            }
        },
    };
    if is_greedy {
        push_char(&mut r, '?');
    }
    r
}

/// Decides whether a capture-group name is a valid identifier.
pub fn is_identifier(name: &str) -> (r: bool)
    ensures
        r == spec_identifier(name@),
{
    let n = name.unicode_len();
    if n == 0 {
        return false;
    }
    let first = name.get_char(0);
    if !(first == '_' || ('a' <= first && first <= 'z')) {
        return false;
    }
    let mut i: usize = 1;
    while i < n
        invariant
            n == name@.len(),
            1 <= i <= n,
            name@[0] == '_' || ('a' <= name@[0] && name@[0] <= 'z'),
            forall|j: int| 1 <= j < i ==> is_word_char(#[trigger] name@[j]),
        decreases n - i,
    {
        if !word_char(name.get_char(i)) {
            return false;
        }
        i = i + 1;
    }
    true
}

/// Renders the header of a capture group for a flavor, rejecting invalid
/// group names.
pub fn capture_header(name: &str, flavor: RegexFlavor) -> (r: Result<String, String>)
    ensures
        match r {
            Ok(s) => spec_capture_header(name@, flavor) == Some(s@),
            Err(_) => spec_capture_header(name@, flavor) is None,
        },
{
    if name.unicode_len() == 0 {
        let r = String::new();
        proof {
            assert(r@ =~= Seq::<char>::empty());
        }
        return Ok(r);
    }
    if !is_identifier(name) {
        let mut e = String::new();
        e.append("Invalid group name: ");
        e.append(name);
        return Err(e);
    }
    let mut r = String::new();
    push_char(&mut r, '?');
    if flavor != RegexFlavor::Javascript {
        push_char(&mut r, 'P');
    }
    push_char(&mut r, '<');
    r.append(name);
    push_char(&mut r, '>');
    proof {
        if flavor == RegexFlavor::Javascript {
            assert(r@ =~= seq!['?', '<'] + name@ + seq!['>']);
        } else {
            assert(r@ =~= seq!['?', 'P', '<'] + name@ + seq!['>']);
        }
    }
    Ok(r)
}

impl ParensOperator {
    /// The fixed header of a lookaround group.
    pub fn header(&self) -> (r: &'static str)
        ensures
            r@ == spec_parens_header(*self),
    {
        match self {
            ParensOperator::Lookahead => {
                let r = "?=";
                proof {
                    reveal_strlit("?=");
                    assert(r@ =~= spec_parens_header(ParensOperator::Lookahead));
                }
                r
            },
            ParensOperator::Lookbehind => {
                let r = "?<=";
                proof {
                    reveal_strlit("?<=");
                    assert(r@ =~= spec_parens_header(ParensOperator::Lookbehind));
                }
                r
            },
            ParensOperator::NegativeLookahead => {
                let r = "?!";
                proof {
                    reveal_strlit("?!");
                    assert(r@ =~= spec_parens_header(ParensOperator::NegativeLookahead));
                }
                r
            },
            ParensOperator::NegativeLookbehind => {
                let r = "?<!";
                proof {
                    reveal_strlit("?<!");
                    assert(r@ =~= spec_parens_header(ParensOperator::NegativeLookbehind));
                }
                r
            },
        }
    }
}

/// Renders one character-class item, rejecting a backwards range.
pub fn render_character_range(component: &CharacterClassComponent) -> (r: Result<String, String>)
    ensures
        match r {
            Ok(s) => spec_render_range(component@) == Some(s@),
            Err(_) => spec_render_range(component@) is None,
        },
{
    match component {
        CharacterClassComponent::Special(s) => Ok(s.clone()),
        CharacterClassComponent::Single(c) => Ok(character_class_escape(*c)),
        CharacterClassComponent::Range(a, b) => {
            if *a == *b {
                Ok(character_class_escape(*a))
            } else if (*a as u32) < (*b as u32) {
                let mut r = character_class_escape(*a);
                push_char(&mut r, '-');
                let eb = character_class_escape(*b);
                r.append(eb.as_str());
                proof {
                    assert(r@ =~= spec_class_escape(*a) + seq!['-'] + spec_class_escape(*b));
                }
                Ok(r)
            } else {
                let mut e = String::new();
                e.append("'#");
                push_char(&mut e, *a);
                push_char(&mut e, '-');
                push_char(&mut e, *b);
                e.append("' is not a legal character range");
                Err(e)
            }
        },
    }
}

/// The models of a list of rendered strings.
pub open spec fn strs_view(s: Seq<String>) -> Seq<Seq<char>> {
    Seq::new(s.len(), |i: int| s[i]@)
}

/// Inserts a string into a sorted vector, keeping it sorted.
fn insert_string(x: String, v: Vec<String>) -> (r: Vec<String>)
    ensures
        strs_view(r@) == spec_insert_sorted(x@, strs_view(v@)),
    decreases v@.len(),
{
    if v.len() == 0 {
        let mut r = v;
        r.push(x);
        proof {
            assert(strs_view(r@) =~= spec_insert_sorted(x@, strs_view(v@)));
        }
        r
    } else if lex_le(x.as_str(), v[0].as_str()) {
        let ghost old_v = v@;
        let mut r = v;
        r.insert(0, x);
        proof {
            assert(strs_view(r@) =~= seq![x@] + strs_view(old_v));
        }
        r
    } else {
        let ghost old_v = v@;
        let mut v = v;
        let first = v.remove(0);
        proof {
            assert(strs_view(v@) =~= strs_view(old_v).drop_first());
        }
        let rest = insert_string(x, v);
        let mut r = rest;
        r.insert(0, first);
        proof {
            assert(strs_view(r@) =~= seq![strs_view(old_v)[0]] + spec_insert_sorted(
                x@,
                strs_view(old_v).drop_first(),
            ));
        }
        r
    }
}

/// Sorts a vector of strings lexicographically.
fn sort_strings(v: Vec<String>) -> (r: Vec<String>)
    ensures
        strs_view(r@) == spec_sort_strings(strs_view(v@)),
    decreases v@.len(),
{
    if v.len() == 0 {
        v
    } else {
        let ghost old_v = v@;
        let mut v = v;
        let first = v.remove(0);
        proof {
            assert(strs_view(v@) =~= strs_view(old_v).drop_first());
            assert(first@ == strs_view(old_v)[0]);
        }
        let rest = sort_strings(v);
        insert_string(first, rest)
    }
}

/// Concatenates a vector of strings.
fn join_strings(v: &Vec<String>) -> (r: String)
    ensures
        r@ == spec_join(strs_view(v@)),
{
    let mut r = String::new();
    let mut i: usize = 0;
    while i < v.len()
        invariant
            i <= v@.len(),
            r@ == spec_join(strs_view(v@).take(i as int)),
        decreases v@.len() - i,
    {
        r.append(v[i].as_str());
        proof {
            let t = strs_view(v@).take(i + 1);
            assert(t.drop_last() =~= strs_view(v@).take(i as int));
            assert(t.last() == v@[i as int]@);
        }
        i = i + 1;
    }
    proof {
        assert(strs_view(v@).take(v@.len() as int) =~= strs_view(v@));
    }
    r
}

/// A failing item makes the whole item list fail.
proof fn lemma_ranges_err(cs: Seq<SpecComponent>, i: int)
    requires
        0 <= i < cs.len(),
        spec_render_range(cs[i]) is None,
    ensures
        spec_render_ranges(cs) is None,
    decreases cs.len(),
{
    if i < cs.len() - 1 {
        assert(cs.drop_last()[i] == cs[i]);
        lemma_ranges_err(cs.drop_last(), i);
    }
}

/// Renders a whole character class in bracket form, with items sorted by
/// their rendered form.
pub fn render_character_class(
    characters: &Vec<CharacterClassComponent>,
    inverted: bool,
) -> (r: Result<String, String>)
    ensures
        match r {
            Ok(s) => spec_render_class(components_view(characters@), inverted) == Some(s@),
            Err(_) => spec_render_class(components_view(characters@), inverted) is None,
        },
{
    let ghost cv = components_view(characters@);
    let mut ranges: Vec<String> = Vec::new();
    let mut i: usize = 0;
    proof {
        assert(cv.take(0) =~= Seq::<SpecComponent>::empty());
        assert(strs_view(ranges@) =~= Seq::<Seq<char>>::empty());
    }
    while i < characters.len()
        invariant
            i <= characters@.len(),
            cv == components_view(characters@),
            spec_render_ranges(cv.take(i as int)) == Some(strs_view(ranges@)),
        decreases characters@.len() - i,
    {
        match render_character_range(&characters[i]) {
            Ok(s) => {
                ranges.push(s);
                proof {
                    let t = cv.take(i + 1);
                    assert(t.drop_last() =~= cv.take(i as int));
                    assert(t.last() == cv[i as int]);
                    assert(strs_view(ranges@) =~= spec_render_ranges(cv.take(i as int))->0.push(
                        strs_view(ranges@).last(),
                    ));
                }
                i = i + 1;
            },
            Err(e) => {
                proof {
                    lemma_ranges_err(cv, i as int);
                }
                return Err(e);
            },
        }
    }
    proof {
        assert(cv.take(characters@.len() as int) =~= cv);
    }
    let sorted = sort_strings(ranges);
    let joined = join_strings(&sorted);
    let mut r = String::new();
    push_char(&mut r, '[');
    if inverted {
        push_char(&mut r, '^');
    }
    r.append(joined.as_str());
    push_char(&mut r, ']');
    proof {
        if inverted {
            assert(r@ =~= seq!['['] + seq!['^'] + spec_join(spec_sort_strings(
                spec_render_ranges(cv)->0,
            )) + seq![']']);
        } else {
            assert(r@ =~= seq!['['] + Seq::<char>::empty() + spec_join(spec_sort_strings(
                spec_render_ranges(cv)->0,
            )) + seq![']']);
        }
    }
    Ok(r)
}

/// Recognizes the specials `\d`, `\s` and `\w`, which have uppercase
/// counterparts.
fn is_special_dsw(s: &String) -> (r: bool)
    ensures
        r == (s@ == seq!['\\', 'd'] || s@ == seq!['\\', 's'] || s@ == seq!['\\', 'w']),
{
    if s.as_str().unicode_len() != 2 {
        proof {
            assert(s@ != seq!['\\', 'd'] && s@ != seq!['\\', 's'] && s@ != seq!['\\', 'w']);
        }
        return false;
    }
    let c0 = s.as_str().get_char(0);
    let c1 = s.as_str().get_char(1);
    let r = c0 == '\\' && (c1 == 'd' || c1 == 's' || c1 == 'w');
    proof {
        if r {
            assert(s@ =~= seq!['\\', c1]);
        }
    }
    r
}

/// The uppercase counterpart of a `\d`, `\s` or `\w` special.
fn upper_special(s: &String) -> (r: String)
    requires
        s@ == seq!['\\', 'd'] || s@ == seq!['\\', 's'] || s@ == seq!['\\', 'w'],
    ensures
        r@ == spec_upper_special(s@),
{
    let c1 = s.as_str().get_char(1);
    let mut r = String::new();
    push_char(&mut r, '\\');
    if c1 == 'd' {
        push_char(&mut r, 'D');
        proof {
            assert(r@ =~= seq!['\\', 'D']);
        }
    } else if c1 == 's' {
        push_char(&mut r, 'S');
        proof {
            assert(r@ =~= seq!['\\', 'S']);
        }
    } else {
        push_char(&mut r, 'W');
        proof {
            assert(r@ =~= seq!['\\', 'W']);
        }
    }
    r
}

/// A failing alternative makes the whole alternation fail.
proof fn lemma_either_err(items: Seq<SpecRegexable>, flavor: RegexFlavor, i: int)
    requires
        0 <= i < items.len(),
        spec_render(items[i], flavor, false) is None,
    ensures
        spec_render_either(items, flavor) is None,
    decreases items.len(),
{
    if i < items.len() - 1 {
        assert(items.drop_last()[i] == items[i]);
        lemma_either_err(items.drop_last(), flavor, i);
    }
}

/// A failing child makes the whole concatenation fail.
proof fn lemma_concat_err(items: Seq<SpecRegexable>, flavor: RegexFlavor, i: int)
    requires
        0 <= i < items.len(),
        spec_render(items[i], flavor, spec_is_multi_either(items[i])) is None,
    ensures
        spec_render_concat(items, flavor) is None,
    decreases items.len(),
{
    if i < items.len() - 1 {
        assert(items.drop_last()[i] == items[i]);
        lemma_concat_err(items.drop_last(), flavor, i);
    }
}

/// Renders the alternatives of an alternation, joined with `|`.
fn render_either_items(items: &Vec<Regexable>, flavor: RegexFlavor) -> (r: Result<String, String>)
    ensures
        match r {
            Ok(s) => spec_render_either(rx_seq_view(items@), flavor) == Some(s@),
            Err(_) => spec_render_either(rx_seq_view(items@), flavor) is None,
        },
    decreases *items,
{
    broadcast use lemma_rx_seq_view;

    let ghost v = rx_seq_view(items@);
    let mut acc = String::new();
    let mut i: usize = 0;
    proof {
        assert(v.take(0) =~= Seq::<SpecRegexable>::empty());
    }
    while i < items.len()
        invariant
            i <= items@.len(),
            v == rx_seq_view(items@),
            v.len() == items@.len(),
            spec_render_either(v.take(i as int), flavor) == Some(acc@),
            i == 0 ==> acc@ == Seq::<char>::empty(),
        decreases items@.len() - i,
    {
        proof {
            lemma_rx_seq_view(items@);
            assert(v[i as int] == rx_view(items@[i as int]));
        }
        match items[i].into_regex(flavor, false) {
            Ok(b) => {
                if i > 0 {
                    push_char(&mut acc, '|');
                }
                acc.append(b.as_str());
                proof {
                    let t = v.take(i + 1);
                    assert(t.drop_last() =~= v.take(i as int));
                    assert(t.last() == v[i as int]);
                    if i == 0 {
                        assert(acc@ =~= b@);
                    }
                }
                i = i + 1;
            },
            Err(e) => {
                proof {
                    lemma_either_err(v, flavor, i as int);
                }
                return Err(e);
            },
        }
    }
    proof {
        assert(v.take(items@.len() as int) =~= v);
    }
    Ok(acc)
}

/// Renders the children of a concatenation, joined without separator.
fn render_concat_items(items: &Vec<Regexable>, flavor: RegexFlavor) -> (r: Result<String, String>)
    ensures
        match r {
            Ok(s) => spec_render_concat(rx_seq_view(items@), flavor) == Some(s@),
            Err(_) => spec_render_concat(rx_seq_view(items@), flavor) is None,
        },
    decreases *items,
{
    broadcast use lemma_rx_seq_view;

    let ghost v = rx_seq_view(items@);
    let mut acc = String::new();
    let mut i: usize = 0;
    proof {
        assert(v.take(0) =~= Seq::<SpecRegexable>::empty());
    }
    while i < items.len()
        invariant
            i <= items@.len(),
            v == rx_seq_view(items@),
            v.len() == items@.len(),
            spec_render_concat(v.take(i as int), flavor) == Some(acc@),
        decreases items@.len() - i,
    {
        let child_wrap = match &items[i] {
            Regexable::Either(subs) => subs.len() > 1,
            _ => false,
        };
        proof {
            lemma_rx_seq_view(items@);
            assert(v[i as int] == rx_view(items@[i as int]));
            if let Regexable::Either(subs) = &items[i as int] {
                lemma_rx_seq_view(subs@);
            }
            assert(child_wrap == spec_is_multi_either(v[i as int]));
        }
        match items[i].into_regex(flavor, child_wrap) {
            Ok(b) => {
                acc.append(b.as_str());
                proof {
                    let t = v.take(i + 1);
                    assert(t.drop_last() =~= v.take(i as int));
                    assert(t.last() == v[i as int]);
                }
                i = i + 1;
            },
            Err(e) => {
                proof {
                    lemma_concat_err(v, flavor, i as int);
                }
                return Err(e);
            },
        }
    }
    proof {
        assert(v.take(items@.len() as int) =~= v);
    }
    Ok(acc)
}

impl Regexable {
    /// Renders this IR node as a concrete regex string in the given flavor.
    /// `wrap` asks for a fragment that is safe to concatenate without
    /// further parentheses.
    pub fn into_regex(&self, flavor: RegexFlavor, wrap: bool) -> (r: Result<String, String>)
        ensures
            match r {
                Ok(s) => spec_render(self@, flavor, wrap) == Some(s@),
                Err(_) => spec_render(self@, flavor, wrap) is None,
            },
        decreases *self,
    {
        match self {
            Regexable::Literal(s) => {
                let e = escape(s.as_str());
                let elen = e.as_str().unicode_len();
                Ok(wrap_if(wrap && elen != 1, e.as_str()))
            },
            Regexable::Multiple { min, max, is_greedy, sub } => {
                match (**sub).into_regex(flavor, true) {
                    Err(e) => Err(e),
                    Ok(b) => {
                        let q = quantifier_op(*min, *max, *is_greedy);
                        let mut body = b;
                        body.append(q.as_str());
                        Ok(wrap_if(wrap, body.as_str()))
                    },
                }
            },
            Regexable::Either(items) => match render_either_items(items, flavor) {
                Err(e) => Err(e),
                Ok(j) => Ok(wrap_if(wrap, j.as_str())),
            },
            Regexable::Concat(items) => match render_concat_items(items, flavor) {
                Err(e) => Err(e),
                Ok(j) => Ok(wrap_if(wrap, j.as_str())),
            },
            Regexable::CharacterClass { characters, inverted } => {
                if characters.len() == 0 {
                    let mut r = String::new();
                    if *inverted {
                        push_char(&mut r, '.');
                        proof {
                            assert(r@ =~= seq!['.']);
                        }
                    } else {
                        // An empty non-inverted class must never match; a
                        // negative lookahead of the empty string followed by
                        // a width-one pattern expresses that.
                        push_char(&mut r, '(');
                        push_char(&mut r, '?');
                        push_char(&mut r, '!');
                        push_char(&mut r, ')');
                        push_char(&mut r, '.');
                        proof {
                            assert(r@ =~= seq!['(', '?', '!', ')', '.']);
                        }
                    }
                    Ok(r)
                } else if characters.len() == 1 {
                    match &characters[0] {
                        CharacterClassComponent::Single(ch) => {
                            if *inverted {
                                render_character_class(characters, *inverted)
                            } else {
                                Ok(escape_one(*ch))
                            }
                        },
                        CharacterClassComponent::Special(s) => {
                            if is_special_dsw(s) {
                                if *inverted {
                                    Ok(upper_special(s))
                                } else {
                                    Ok(s.clone())
                                }
                            } else {
                                render_character_class(characters, *inverted)
                            }
                        },
                        CharacterClassComponent::Range(_, _) => {
                            render_character_class(characters, *inverted)
                        },
                    }
                } else {
                    render_character_class(characters, *inverted)
                }
            },
            Regexable::Boundary(tok, _) => Ok(tok.clone()),
            Regexable::Capture(name, sub) => match capture_header(name.as_str(), flavor) {
                Err(e) => Err(e),
                Ok(h) => match (**sub).into_regex(flavor, false) {
                    Err(e) => Err(e),
                    Ok(b) => {
                        let mut r = String::new();
                        push_char(&mut r, '(');
                        r.append(h.as_str());
                        r.append(b.as_str());
                        push_char(&mut r, ')');
                        proof {
                            assert(r@ =~= seq!['('] + h@ + b@ + seq![')']);
                        }
                        Ok(r)
                    },
                },
            },
            Regexable::ParensOperator(op, sub) => match (**sub).into_regex(flavor, false) {
                Err(e) => Err(e),
                Ok(b) => {
                    let h = op.header();
                    let mut r = String::new();
                    push_char(&mut r, '(');
                    r.append(h);
                    r.append(b.as_str());
                    push_char(&mut r, ')');
                    proof {
                        assert(r@ =~= seq!['('] + spec_parens_header(*op) + b@ + seq![')']);
                    }
                    Ok(r)
                },
            },
        }
    }
}

} // verus!
