//! The table of built-in macros. The atomic entries (character classes,
//! boundaries, literal glyphs and their short names) are constructed
//! directly; the derived entries are Kleenexp sources compiled against the
//! table built so far, so they exercise the same parser and compiler as any
//! user pattern.

use vstd::prelude::*;

use crate::chars::push_char;
use crate::compiler::{spec_env_lookup, spec_scope_lookup, Macros};
use crate::regexable::{
    components_view, lemma_rx_seq_view, rx_seq_view, CharacterClassComponent, Regexable,
    SpecComponent, SpecRegexable,
};
use crate::{parse_and_compile, spec_parse_compile};

verus! {

/// The characters of the newline character class: carriage return, line
/// feed, and the two Unicode line separators (kept as opaque specials).
pub open spec fn spec_newline_chars() -> Seq<SpecComponent> {
    seq![
        SpecComponent::Single('\r'),
        SpecComponent::Single('\n'),
        SpecComponent::Special("\\u2028"@),
        SpecComponent::Special("\\u2029"@),
    ]
}

/// A non-inverted character class.
pub open spec fn spec_cc(items: Seq<SpecComponent>) -> SpecRegexable {
    SpecRegexable::CharacterClass { characters: items, inverted: false }
}

/// The class of one single character.
pub open spec fn spec_single(c: char) -> SpecRegexable {
    spec_cc(seq![SpecComponent::Single(c)])
}

/// The class of one opaque special, `\` followed by `c`.
pub open spec fn spec_special(c: char) -> SpecRegexable {
    spec_cc(seq![SpecComponent::Special(seq!['\\', c])])
}

/// The class of one character range.
pub open spec fn spec_range_cc(a: char, b: char) -> SpecRegexable {
    spec_cc(seq![SpecComponent::Range(a, b)])
}

/// `any` matches any character but a newline: the inversion of the empty
/// class, which renders as `.`.
pub open spec fn spec_any() -> SpecRegexable {
    SpecRegexable::CharacterClass { characters: Seq::empty(), inverted: true }
}

/// `newline` matches one newline character or the Windows pair.
pub open spec fn spec_newline() -> SpecRegexable {
    SpecRegexable::Either(
        seq![spec_cc(spec_newline_chars()), SpecRegexable::Literal("\r\n"@)],
    )
}

/// `not_newline` is the inversion of the newline character class (not of
/// `newline`, which also covers the two-character Windows pair).
pub open spec fn spec_not_newline() -> SpecRegexable {
    SpecRegexable::CharacterClass { characters: spec_newline_chars(), inverted: true }
}

/// `any_at_all` also matches newlines.
pub open spec fn spec_any_at_all() -> SpecRegexable {
    SpecRegexable::Either(seq![spec_any(), spec_newline()])
}

/// `letter` is the two ranges of Latin letters.
pub open spec fn spec_letter() -> SpecRegexable {
    spec_cc(seq![SpecComponent::Range('A', 'Z'), SpecComponent::Range('a', 'z')])
}

/// The atomic character-class entries of the built-in table.
pub open spec fn spec_scope_classes() -> Seq<(Seq<char>, SpecRegexable)> {
    Seq::empty().push(("any"@, spec_any())).push(("newline"@, spec_newline())).push(
        ("not_newline"@, spec_not_newline()),
    ).push(("any_at_all"@, spec_any_at_all())).push(
        ("newline_character"@, spec_cc(spec_newline_chars())),
    ).push(("linefeed"@, spec_single('\n'))).push(("carriage_return"@, spec_single('\r'))).push(
        ("tab"@, spec_single('\t')),
    ).push(("digit"@, spec_special('d'))).push(("letter"@, spec_letter())).push(
        ("lowercase"@, spec_range_cc('a', 'z')),
    ).push(("uppercase"@, spec_range_cc('A', 'Z'))).push(("space"@, spec_special('s'))).push(
        ("token_character"@, spec_special('w')),
    )
}

/// ... plus the boundary and literal-glyph entries.
pub open spec fn spec_scope_sigils() -> Seq<(Seq<char>, SpecRegexable)> {
    spec_scope_classes().push(("start_line"@, SpecRegexable::Boundary("^"@, None))).push(
        ("end_line"@, SpecRegexable::Boundary("$"@, None)),
    ).push(("start_string"@, SpecRegexable::Boundary("\\A"@, None))).push(
        ("end_string"@, SpecRegexable::Boundary("\\Z"@, None)),
    ).push(("word_boundary"@, SpecRegexable::Boundary("\\b"@, Some("\\B"@)))).push(
        ("windows_newline"@, SpecRegexable::Literal("\r\n"@)),
    ).push(("quote"@, SpecRegexable::Literal("'"@))).push(
        ("double_quote"@, SpecRegexable::Literal("\""@)),
    ).push(("left_brace"@, SpecRegexable::Literal("["@))).push(
        ("right_brace"@, SpecRegexable::Literal("]"@)),
    ).push(("vertical_tab"@, SpecRegexable::Literal("\u{b}"@))).push(
        ("formfeed"@, SpecRegexable::Literal("\u{c}"@)),
    ).push(("bell"@, SpecRegexable::Literal("\u{7}"@))).push(
        ("backspace"@, SpecRegexable::Literal("\u{8}"@)),
    )
}

/// ... plus the short names, each bound to the same value as its canonical
/// name.
pub open spec fn spec_scope_base() -> Seq<(Seq<char>, SpecRegexable)> {
    spec_scope_sigils().push(("lf"@, spec_single('\n'))).push(
        ("cr"@, spec_single('\r')),
    ).push(("t"@, spec_single('\t'))).push(("d"@, spec_special('d'))).push(
        ("l"@, spec_letter()),
    ).push(("lc"@, spec_range_cc('a', 'z'))).push(("uc"@, spec_range_cc('A', 'Z'))).push(
        ("s"@, spec_special('s')),
    ).push(("tc"@, spec_special('w'))).push(
        ("wb"@, SpecRegexable::Boundary("\\b"@, Some("\\B"@))),
    ).push(("a"@, spec_any())).push(("aaa"@, spec_any_at_all())).push(
        ("n"@, spec_newline()),
    ).push(("nc"@, spec_cc(spec_newline_chars()))).push(
        ("crlf"@, SpecRegexable::Literal("\r\n"@)),
    ).push(("ss"@, SpecRegexable::Boundary("\\A"@, None))).push(
        ("es"@, SpecRegexable::Boundary("\\Z"@, None)),
    ).push(("sl"@, SpecRegexable::Boundary("^"@, None))).push(
        ("el"@, SpecRegexable::Boundary("$"@, None)),
    ).push(("q"@, SpecRegexable::Literal("'"@))).push(
        ("dq"@, SpecRegexable::Literal("\""@)),
    ).push(("lb"@, SpecRegexable::Literal("["@))).push(("rb"@, SpecRegexable::Literal("]"@)))
}

/// Extends the table with one derived macro: its Kleenexp source is parsed
/// and compiled against the table built so far, and the result is bound to
/// the short name (when there is one) and to the canonical name. A source
/// that does not compile leaves the table unchanged.
pub open spec fn spec_scope_add_derived(
    scope: Seq<(Seq<char>, SpecRegexable)>,
    name: Seq<char>,
    short: Option<Seq<char>>,
    src: Seq<char>,
) -> Seq<(Seq<char>, SpecRegexable)> {
    match spec_parse_compile(src, seq![scope]) {
        None => scope,
        Some(rx) => {
            let scope1 = match short {
                Some(s) => scope.push((s, rx)),
                None => scope,
            };
            scope1.push((name, rx))
        },
    }
}

/// The whole built-in scope: the atomic entries followed by the derived
/// macros, in definition order.
pub open spec fn spec_builtin_scope() -> Seq<(Seq<char>, SpecRegexable)> {
    let s0 = spec_scope_base();
    let s1 = spec_scope_add_derived(s0, "integer"@, Some("int"@), "[[0-1 '-'] [1+ #digit]]"@);
    let s2 = spec_scope_add_derived(s1, "digits"@, Some("ds"@), "[1+ #digit]"@);
    let s3 = spec_scope_add_derived(s2, "decimal"@, None, "[#int [0-1 '.' #digits]]"@);
    let s4 = spec_scope_add_derived(
        s3,
        "float"@,
        None,
        "[[0-1 '-'] [[#digits '.' [0-1 #digits] | '.' #digits] [0-1 #exponent] | #int #exponent] #exponent=[['e' | 'E'] [0-1 ['+' | '-']] #digits]]"@,
    );
    let s5 = spec_scope_add_derived(s4, "hex_digit"@, Some("hexd"@), "[#digit | #a..f | #A..F]"@);
    let s6 = spec_scope_add_derived(s5, "hex_number"@, Some("hexn"@), "[1+ #hex_digit]"@);
    let s7 = spec_scope_add_derived(s6, "letters"@, None, "[1+ #letter]"@);
    let s8 = spec_scope_add_derived(s7, "token"@, None, "[#letter | '_'][0+ #token_character]"@);
    let s9 = spec_scope_add_derived(s8, "capture_0+_any"@, Some("c0"@), "[capture 0+ #any]"@);
    spec_scope_add_derived(s9, "capture_1+_any"@, Some("c1"@), "[capture 1+ #any]"@)
}

/// The built-in environment: one scope holding the built-in table.
#[verifier::opaque]
pub open spec fn spec_builtins() -> Seq<Seq<(Seq<char>, SpecRegexable)>> {
    seq![spec_builtin_scope()]
}

/// A binding that a lookup finds survives the addition of a derived
/// macro, which only appends entries.
proof fn lemma_lookup_survives_derived(
    scope: Seq<(Seq<char>, SpecRegexable)>,
    name: Seq<char>,
    dname: Seq<char>,
    dshort: Option<Seq<char>>,
    dsrc: Seq<char>,
)
    requires
        spec_scope_lookup(scope, name) is Some,
    ensures
        spec_scope_lookup(spec_scope_add_derived(scope, dname, dshort, dsrc), name)
            == spec_scope_lookup(scope, name),
{
    let out = spec_scope_add_derived(scope, dname, dshort, dsrc);
    match spec_parse_compile(dsrc, seq![scope]) {
        None => {},
        Some(rx) => {
            match dshort {
                Some(s) => {
                    let ext = seq![(s, rx), (dname, rx)];
                    assert(out =~= scope + ext);
                    crate::compiler::lemma_scope_lookup_prefix(scope, ext, name);
                },
                None => {
                    let ext = seq![(dname, rx)];
                    assert(out =~= scope + ext);
                    crate::compiler::lemma_scope_lookup_prefix(scope, ext, name);
                },
            }
        },
    }
}

/// Every derived addition keeps a binding that the atomic table already
/// resolves.
#[verifier::rlimit(100)]
#[verifier::spinoff_prover]
proof fn lemma_lookup_survives_all_derived(name: Seq<char>)
    requires
        spec_scope_lookup(spec_scope_base(), name) is Some,
    ensures
        spec_scope_lookup(spec_builtin_scope(), name) == spec_scope_lookup(
            spec_scope_base(),
            name,
        ),
{
    let s0 = spec_scope_base();
    let s1 = spec_scope_add_derived(s0, "integer"@, Some("int"@), "[[0-1 '-'] [1+ #digit]]"@);
    let s2 = spec_scope_add_derived(s1, "digits"@, Some("ds"@), "[1+ #digit]"@);
    let s3 = spec_scope_add_derived(s2, "decimal"@, None, "[#int [0-1 '.' #digits]]"@);
    let s4 = spec_scope_add_derived(
        s3,
        "float"@,
        None,
        "[[0-1 '-'] [[#digits '.' [0-1 #digits] | '.' #digits] [0-1 #exponent] | #int #exponent] #exponent=[['e' | 'E'] [0-1 ['+' | '-']] #digits]]"@,
    );
    let s5 = spec_scope_add_derived(s4, "hex_digit"@, Some("hexd"@), "[#digit | #a..f | #A..F]"@);
    let s6 = spec_scope_add_derived(s5, "hex_number"@, Some("hexn"@), "[1+ #hex_digit]"@);
    let s7 = spec_scope_add_derived(s6, "letters"@, None, "[1+ #letter]"@);
    let s8 = spec_scope_add_derived(s7, "token"@, None, "[#letter | '_'][0+ #token_character]"@);
    let s9 = spec_scope_add_derived(s8, "capture_0+_any"@, Some("c0"@), "[capture 0+ #any]"@);
    lemma_lookup_survives_derived(s0, name, "integer"@, Some("int"@), "[[0-1 '-'] [1+ #digit]]"@);
    lemma_lookup_survives_derived(s1, name, "digits"@, Some("ds"@), "[1+ #digit]"@);
    lemma_lookup_survives_derived(s2, name, "decimal"@, None, "[#int [0-1 '.' #digits]]"@);
    lemma_lookup_survives_derived(
        s3,
        name,
        "float"@,
        None,
        "[[0-1 '-'] [[#digits '.' [0-1 #digits] | '.' #digits] [0-1 #exponent] | #int #exponent] #exponent=[['e' | 'E'] [0-1 ['+' | '-']] #digits]]"@,
    );
    lemma_lookup_survives_derived(s4, name, "hex_digit"@, Some("hexd"@), "[#digit | #a..f | #A..F]"@);
    lemma_lookup_survives_derived(s5, name, "hex_number"@, Some("hexn"@), "[1+ #hex_digit]"@);
    lemma_lookup_survives_derived(s6, name, "letters"@, None, "[1+ #letter]"@);
    lemma_lookup_survives_derived(s7, name, "token"@, None, "[#letter | '_'][0+ #token_character]"@);
    lemma_lookup_survives_derived(s8, name, "capture_0+_any"@, Some("c0"@), "[capture 0+ #any]"@);
    lemma_lookup_survives_derived(s9, name, "capture_1+_any"@, Some("c1"@), "[capture 1+ #any]"@);
}

/// The short name `n` names the same macro as its canonical name
/// `newline`: looking either name up in the built-in table gives the same
/// value, the newline pattern.
pub proof fn lemma_short_name_newline()
    ensures
        spec_env_lookup(spec_builtins(), "n"@) == spec_env_lookup(spec_builtins(), "newline"@),
        spec_env_lookup(spec_builtins(), "n"@) == Some(spec_newline()),
{
    reveal(spec_builtins);
    let base = spec_scope_base();
    proof_base_names();
    assert(base[1].0 == "newline"@ && base[1].1 == spec_newline());
    assert(base[40].0 == "n"@ && base[40].1 == spec_newline());
    assert(forall|i: int| 0 <= i < 1 ==> (#[trigger] base[i]).0 != "newline"@);
    assert(forall|i: int| 0 <= i < 40 ==> (#[trigger] base[i]).0 != "n"@);
    crate::compiler::lemma_scope_lookup_at(base, "newline"@, 1);
    crate::compiler::lemma_scope_lookup_at(base, "n"@, 40);
    lemma_lookup_survives_all_derived("newline"@);
    lemma_lookup_survives_all_derived("n"@);
    assert(spec_builtins().last() == spec_builtin_scope());
}

/// No atomic entry before the short name `n` is itself named `n`.
#[verifier::rlimit(100)]
#[verifier::spinoff_prover]
proof fn base_name_differs(i: int)
    requires
        0 <= i < 40,
    ensures
        spec_scope_base()[i].0 != "n"@,
{
    reveal_strlit("n");
    if i == 0 {
        reveal_strlit("any");
        assert(spec_scope_base()[0].0 == "any"@);
        assert("any"@ != "n"@);
    } else if i == 1 {
        reveal_strlit("newline");
        assert(spec_scope_base()[1].0 == "newline"@);
        assert("newline"@ != "n"@);
    } else if i == 2 {
        reveal_strlit("not_newline");
        assert(spec_scope_base()[2].0 == "not_newline"@);
        assert("not_newline"@ != "n"@);
    } else if i == 3 {
        reveal_strlit("any_at_all");
        assert(spec_scope_base()[3].0 == "any_at_all"@);
        assert("any_at_all"@ != "n"@);
    } else if i == 4 {
        reveal_strlit("newline_character");
        assert(spec_scope_base()[4].0 == "newline_character"@);
        assert("newline_character"@ != "n"@);
    } else if i == 5 {
        reveal_strlit("linefeed");
        assert(spec_scope_base()[5].0 == "linefeed"@);
        assert("linefeed"@ != "n"@);
    } else if i == 6 {
        reveal_strlit("carriage_return");
        assert(spec_scope_base()[6].0 == "carriage_return"@);
        assert("carriage_return"@ != "n"@);
    } else if i == 7 {
        reveal_strlit("tab");
        assert(spec_scope_base()[7].0 == "tab"@);
        assert("tab"@ != "n"@);
    } else if i == 8 {
        reveal_strlit("digit");
        assert(spec_scope_base()[8].0 == "digit"@);
        assert("digit"@ != "n"@);
    } else if i == 9 {
        reveal_strlit("letter");
        assert(spec_scope_base()[9].0 == "letter"@);
        assert("letter"@ != "n"@);
    } else if i == 10 {
        reveal_strlit("lowercase");
        assert(spec_scope_base()[10].0 == "lowercase"@);
        assert("lowercase"@ != "n"@);
    } else if i == 11 {
        reveal_strlit("uppercase");
        assert(spec_scope_base()[11].0 == "uppercase"@);
        assert("uppercase"@ != "n"@);
    } else if i == 12 {
        reveal_strlit("space");
        assert(spec_scope_base()[12].0 == "space"@);
        assert("space"@ != "n"@);
    } else if i == 13 {
        reveal_strlit("token_character");
        assert(spec_scope_base()[13].0 == "token_character"@);
        assert("token_character"@ != "n"@);
    } else if i == 14 {
        reveal_strlit("start_line");
        assert(spec_scope_base()[14].0 == "start_line"@);
        assert("start_line"@ != "n"@);
    } else if i == 15 {
        reveal_strlit("end_line");
        assert(spec_scope_base()[15].0 == "end_line"@);
        assert("end_line"@ != "n"@);
    } else if i == 16 {
        reveal_strlit("start_string");
        assert(spec_scope_base()[16].0 == "start_string"@);
        assert("start_string"@ != "n"@);
    } else if i == 17 {
        reveal_strlit("end_string");
        assert(spec_scope_base()[17].0 == "end_string"@);
        assert("end_string"@ != "n"@);
    } else if i == 18 {
        reveal_strlit("word_boundary");
        assert(spec_scope_base()[18].0 == "word_boundary"@);
        assert("word_boundary"@ != "n"@);
    } else if i == 19 {
        reveal_strlit("windows_newline");
        assert(spec_scope_base()[19].0 == "windows_newline"@);
        assert("windows_newline"@ != "n"@);
    } else if i == 20 {
        reveal_strlit("quote");
        assert(spec_scope_base()[20].0 == "quote"@);
        assert("quote"@ != "n"@);
    } else if i == 21 {
        reveal_strlit("double_quote");
        assert(spec_scope_base()[21].0 == "double_quote"@);
        assert("double_quote"@ != "n"@);
    } else if i == 22 {
        reveal_strlit("left_brace");
        assert(spec_scope_base()[22].0 == "left_brace"@);
        assert("left_brace"@ != "n"@);
    } else if i == 23 {
        reveal_strlit("right_brace");
        assert(spec_scope_base()[23].0 == "right_brace"@);
        assert("right_brace"@ != "n"@);
    } else if i == 24 {
        reveal_strlit("vertical_tab");
        assert(spec_scope_base()[24].0 == "vertical_tab"@);
        assert("vertical_tab"@ != "n"@);
    } else if i == 25 {
        reveal_strlit("formfeed");
        assert(spec_scope_base()[25].0 == "formfeed"@);
        assert("formfeed"@ != "n"@);
    } else if i == 26 {
        reveal_strlit("bell");
        assert(spec_scope_base()[26].0 == "bell"@);
        assert("bell"@ != "n"@);
    } else if i == 27 {
        reveal_strlit("backspace");
        assert(spec_scope_base()[27].0 == "backspace"@);
        assert("backspace"@ != "n"@);
    } else if i == 28 {
        reveal_strlit("lf");
        assert(spec_scope_base()[28].0 == "lf"@);
        assert("lf"@ != "n"@);
    } else if i == 29 {
        reveal_strlit("cr");
        assert(spec_scope_base()[29].0 == "cr"@);
        assert("cr"@ != "n"@);
    } else if i == 30 {
        reveal_strlit("t");
        assert(spec_scope_base()[30].0 == "t"@);
        assert("t"@ != "n"@) by {
            assert("t"@[0] == 't');
            assert("n"@[0] == 'n');
        };
    } else if i == 31 {
        reveal_strlit("d");
        assert(spec_scope_base()[31].0 == "d"@);
        assert("d"@ != "n"@) by {
            assert("d"@[0] == 'd');
            assert("n"@[0] == 'n');
        };
    } else if i == 32 {
        reveal_strlit("l");
        assert(spec_scope_base()[32].0 == "l"@);
        assert("l"@ != "n"@) by {
            assert("l"@[0] == 'l');
            assert("n"@[0] == 'n');
        };
    } else if i == 33 {
        reveal_strlit("lc");
        assert(spec_scope_base()[33].0 == "lc"@);
        assert("lc"@ != "n"@);
    } else if i == 34 {
        reveal_strlit("uc");
        assert(spec_scope_base()[34].0 == "uc"@);
        assert("uc"@ != "n"@);
    } else if i == 35 {
        reveal_strlit("s");
        assert(spec_scope_base()[35].0 == "s"@);
        assert("s"@ != "n"@) by {
            assert("s"@[0] == 's');
            assert("n"@[0] == 'n');
        };
    } else if i == 36 {
        reveal_strlit("tc");
        assert(spec_scope_base()[36].0 == "tc"@);
        assert("tc"@ != "n"@);
    } else if i == 37 {
        reveal_strlit("wb");
        assert(spec_scope_base()[37].0 == "wb"@);
        assert("wb"@ != "n"@);
    } else if i == 38 {
        reveal_strlit("a");
        assert(spec_scope_base()[38].0 == "a"@);
        assert("a"@ != "n"@) by {
            assert("a"@[0] == 'a');
            assert("n"@[0] == 'n');
        };
    } else if i == 39 {
        reveal_strlit("aaa");
        assert(spec_scope_base()[39].0 == "aaa"@);
        assert("aaa"@ != "n"@);
    }
}

/// The names of the atomic entries, revealed for the lookup proofs.
#[verifier::rlimit(100)]
#[verifier::spinoff_prover]
proof fn proof_base_names()
    ensures
        forall|i: int| 0 <= i < 40 ==> (#[trigger] spec_scope_base()[i]).0 != "n"@,
        forall|i: int| 0 <= i < 1 ==> (#[trigger] spec_scope_base()[i]).0 != "newline"@,
        spec_scope_base()[1].0 == "newline"@,
        spec_scope_base()[40].0 == "n"@,
        spec_scope_base()[1].1 == spec_newline(),
        spec_scope_base()[40].1 == spec_newline(),
{
    assert forall|i: int| 0 <= i < 40 implies (#[trigger] spec_scope_base()[i]).0 != "n"@ by {
        base_name_differs(i);
    }
    reveal_strlit("any");
    reveal_strlit("newline");
    assert(spec_scope_base()[0].0 == "any"@);
    assert("any"@ != "newline"@);
    assert(spec_scope_base()[1].0 == "newline"@);
    assert(spec_scope_base()[40].0 == "n"@);
}

/// One single-character class.
fn single(c: char) -> (r: Regexable)
    ensures
        r@ == spec_single(c),
{
    let mut characters: Vec<CharacterClassComponent> = Vec::new();
    characters.push(CharacterClassComponent::Single(c));
    let r = Regexable::CharacterClass { characters, inverted: false };
    proof {
        assert(components_view(seq![CharacterClassComponent::Single(c)])
            =~= seq![SpecComponent::Single(c)]);
    }
    r
}

/// One opaque-special class, `\` followed by `c`.
fn special(c: char) -> (r: Regexable)
    ensures
        r@ == spec_special(c),
{
    let mut s = String::new();
    push_char(&mut s, '\\');
    push_char(&mut s, c);
    proof {
        assert(s@ =~= seq!['\\', c]);
    }
    let mut characters: Vec<CharacterClassComponent> = Vec::new();
    characters.push(CharacterClassComponent::Special(s));
    let r = Regexable::CharacterClass { characters, inverted: false };
    proof {
        assert(components_view(rx_cc_chars(r)) =~= seq![SpecComponent::Special(seq!['\\', c])]);
    }
    r
}

/// The characters of a class node, for stating the helpers' proofs.
spec fn rx_cc_chars(r: Regexable) -> Seq<CharacterClassComponent> {
    match r {
        Regexable::CharacterClass { characters, inverted } => characters@,
        _ => Seq::empty(),
    }
}

/// One range class.
fn range_cc(a: char, b: char) -> (r: Regexable)
    ensures
        r@ == spec_range_cc(a, b),
{
    let mut characters: Vec<CharacterClassComponent> = Vec::new();
    characters.push(CharacterClassComponent::Range(a, b));
    let r = Regexable::CharacterClass { characters, inverted: false };
    proof {
        assert(components_view(seq![CharacterClassComponent::Range(a, b)])
            =~= seq![SpecComponent::Range(a, b)]);
    }
    r
}

/// A literal entry.
fn lit(s: &str) -> (r: Regexable)
    ensures
        r@ == SpecRegexable::Literal(s@),
{
    Regexable::Literal(String::from_str(s))
}

/// The newline character class's items.
fn newline_components() -> (r: Vec<CharacterClassComponent>)
    ensures
        components_view(r@) == spec_newline_chars(),
{
    let mut r: Vec<CharacterClassComponent> = Vec::new();
    r.push(CharacterClassComponent::Single('\r'));
    r.push(CharacterClassComponent::Single('\n'));
    r.push(CharacterClassComponent::Special(String::from_str("\\u2028")));
    r.push(CharacterClassComponent::Special(String::from_str("\\u2029")));
    proof {
        assert(components_view(r@) =~= spec_newline_chars());
    }
    r
}

/// The value of `any`.
fn rx_any() -> (r: Regexable)
    ensures
        r@ == spec_any(),
{
    let characters: Vec<CharacterClassComponent> = Vec::new();
    let r = Regexable::CharacterClass { characters, inverted: true };
    proof {
        assert(components_view(Seq::<CharacterClassComponent>::empty())
            =~= Seq::<SpecComponent>::empty());
    }
    r
}

/// The value of `newline`.
fn rx_newline() -> (r: Regexable)
    ensures
        r@ == spec_newline(),
{
    let first = Regexable::CharacterClass { characters: newline_components(), inverted: false };
    let second = lit("\r\n");
    let mut items: Vec<Regexable> = Vec::new();
    items.push(first);
    items.push(second);
    let r = Regexable::Either(items);
    proof {
        lemma_rx_seq_view(rx_either_items(r));
        assert(rx_seq_view(rx_either_items(r)) =~= seq![
            spec_cc(spec_newline_chars()),
            SpecRegexable::Literal("\r\n"@),
        ]);
    }
    r
}

/// The children of an alternation node, for stating the helpers' proofs.
spec fn rx_either_items(r: Regexable) -> Seq<Regexable> {
    match r {
        Regexable::Either(items) => items@,
        _ => Seq::empty(),
    }
}

/// The value of `not_newline`.
fn rx_not_newline() -> (r: Regexable)
    ensures
        r@ == spec_not_newline(),
{
    let r = Regexable::CharacterClass { characters: newline_components(), inverted: true };
    r
}

/// The value of `any_at_all`.
fn rx_any_at_all() -> (r: Regexable)
    ensures
        r@ == spec_any_at_all(),
{
    let mut items: Vec<Regexable> = Vec::new();
    items.push(rx_any());
    items.push(rx_newline());
    let r = Regexable::Either(items);
    proof {
        lemma_rx_seq_view(rx_either_items(r));
        assert(rx_seq_view(rx_either_items(r)) =~= seq![spec_any(), spec_newline()]);
    }
    r
}

/// The value of `letter`.
fn rx_letter() -> (r: Regexable)
    ensures
        r@ == spec_letter(),
{
    let mut characters: Vec<CharacterClassComponent> = Vec::new();
    characters.push(CharacterClassComponent::Range('A', 'Z'));
    characters.push(CharacterClassComponent::Range('a', 'z'));
    let r = Regexable::CharacterClass { characters, inverted: false };
    proof {
        assert(components_view(rx_cc_chars(r)) =~= seq![
            SpecComponent::Range('A', 'Z'),
            SpecComponent::Range('a', 'z'),
        ]);
    }
    r
}

/// A boundary entry.
fn boundary(code: &str, reverse: Option<&str>) -> (r: Regexable)
    ensures
        r@ == SpecRegexable::Boundary(
            code@,
            match reverse {
                Some(s) => Some(s@),
                None => None,
            },
        ),
{
    let rev: Option<String> = match reverse {
        Some(s) => Some(String::from_str(s)),
        None => None,
    };
    Regexable::Boundary(String::from_str(code), rev)
}

/// Binds a name in the innermost scope.
fn define_rx(m: &mut Macros, name: &str, rx: Regexable)
    requires
        old(m)@.len() >= 1,
    ensures
        final(m)@ == old(m)@.update(
            old(m)@.len() - 1,
            old(m)@.last().push((name@, rx@)),
        ),
{
    m.define(String::from_str(name), rx);
}

/// Compiles one derived macro against the table built so far and binds it
/// to its names; a source that does not compile adds nothing.
fn define_derived(m: &mut Macros, name: &str, short: Option<&str>, src: &str)
    requires
        old(m)@.len() == 1,
    ensures
        final(m)@ == seq![
            spec_scope_add_derived(
                old(m)@[0],
                name@,
                match short {
                    Some(s) => Some(s@),
                    None => None,
                },
                src@,
            ),
        ],
{
    reveal(crate::spec_parse_compile);
    let ghost scope0 = m@[0];
    proof {
        assert(m@ =~= seq![scope0]);
    }
    match parse_and_compile(src, m) {
        Err(_) => {
            proof {
                assert(m@ =~= seq![spec_scope_add_derived(scope0, name@, match short {
                    Some(s) => Some(s@),
                    None => None,
                }, src@)]);
            }
        },
        Ok(rx) => {
            match short {
                Some(s) => {
                    let copy = rx.clone();
                    m.define(String::from_str(s), copy);
                },
                None => {},
            }
            m.define(String::from_str(name), rx);
            proof {
                assert(m@ =~~= seq![spec_scope_add_derived(scope0, name@, match short {
                    Some(s) => Some(s@),
                    None => None,
                }, src@)]);
            }
        },
    }
}

/// Builds the whole built-in macro table. Construction is deterministic
/// and has no state outside the returned value, so independent callers get
/// identical tables.
pub fn builtins() -> (m: Macros)
    ensures
        m@ == spec_builtins(),
        m@.len() == 1,
{
    reveal(spec_builtins);
    let mut m = Macros::new();
    define_rx(&mut m, "any", rx_any());
    define_rx(&mut m, "newline", rx_newline());
    define_rx(&mut m, "not_newline", rx_not_newline());
    define_rx(&mut m, "any_at_all", rx_any_at_all());
    define_rx(
        &mut m,
        "newline_character",
        Regexable::CharacterClass { characters: newline_components(), inverted: false },
    );
    define_rx(&mut m, "linefeed", single('\n'));
    define_rx(&mut m, "carriage_return", single('\r'));
    define_rx(&mut m, "tab", single('\t'));
    define_rx(&mut m, "digit", special('d'));
    define_rx(&mut m, "letter", rx_letter());
    define_rx(&mut m, "lowercase", range_cc('a', 'z'));
    define_rx(&mut m, "uppercase", range_cc('A', 'Z'));
    define_rx(&mut m, "space", special('s'));
    define_rx(&mut m, "token_character", special('w'));
    proof {
        assert(m@ =~~= seq![spec_scope_classes()]);
    }
    define_rx(&mut m, "start_line", boundary("^", None));
    define_rx(&mut m, "end_line", boundary("$", None));
    define_rx(&mut m, "start_string", boundary("\\A", None));
    define_rx(&mut m, "end_string", boundary("\\Z", None));
    define_rx(&mut m, "word_boundary", boundary("\\b", Some("\\B")));
    define_rx(&mut m, "windows_newline", lit("\r\n"));
    define_rx(&mut m, "quote", lit("'"));
    define_rx(&mut m, "double_quote", lit("\""));
    define_rx(&mut m, "left_brace", lit("["));
    define_rx(&mut m, "right_brace", lit("]"));
    define_rx(&mut m, "vertical_tab", lit("\u{b}"));
    define_rx(&mut m, "formfeed", lit("\u{c}"));
    define_rx(&mut m, "bell", lit("\u{7}"));
    define_rx(&mut m, "backspace", lit("\u{8}"));
    proof {
        assert(m@ =~~= seq![spec_scope_sigils()]);
    }
    define_rx(&mut m, "lf", single('\n'));
    define_rx(&mut m, "cr", single('\r'));
    define_rx(&mut m, "t", single('\t'));
    define_rx(&mut m, "d", special('d'));
    define_rx(&mut m, "l", rx_letter());
    define_rx(&mut m, "lc", range_cc('a', 'z'));
    define_rx(&mut m, "uc", range_cc('A', 'Z'));
    define_rx(&mut m, "s", special('s'));
    define_rx(&mut m, "tc", special('w'));
    define_rx(&mut m, "wb", boundary("\\b", Some("\\B")));
    define_rx(&mut m, "a", rx_any());
    define_rx(&mut m, "aaa", rx_any_at_all());
    define_rx(&mut m, "n", rx_newline());
    define_rx(
        &mut m,
        "nc",
        Regexable::CharacterClass { characters: newline_components(), inverted: false },
    );
    define_rx(&mut m, "crlf", lit("\r\n"));
    define_rx(&mut m, "ss", boundary("\\A", None));
    define_rx(&mut m, "es", boundary("\\Z", None));
    define_rx(&mut m, "sl", boundary("^", None));
    define_rx(&mut m, "el", boundary("$", None));
    define_rx(&mut m, "q", lit("'"));
    define_rx(&mut m, "dq", lit("\""));
    define_rx(&mut m, "lb", lit("["));
    define_rx(&mut m, "rb", lit("]"));
    proof {
        assert(m@ =~~= seq![spec_scope_base()]);
    }
    define_derived(&mut m, "integer", Some("int"), "[[0-1 '-'] [1+ #digit]]");
    define_derived(&mut m, "digits", Some("ds"), "[1+ #digit]");
    define_derived(&mut m, "decimal", None, "[#int [0-1 '.' #digits]]");
    define_derived(
        &mut m,
        "float",
        None,
        "[[0-1 '-'] [[#digits '.' [0-1 #digits] | '.' #digits] [0-1 #exponent] | #int #exponent] #exponent=[['e' | 'E'] [0-1 ['+' | '-']] #digits]]",
    );
    define_derived(&mut m, "hex_digit", Some("hexd"), "[#digit | #a..f | #A..F]");
    define_derived(&mut m, "hex_number", Some("hexn"), "[1+ #hex_digit]");
    define_derived(&mut m, "letters", None, "[1+ #letter]");
    define_derived(&mut m, "token", None, "[#letter | '_'][0+ #token_character]");
    define_derived(&mut m, "capture_0+_any", Some("c0"), "[capture 0+ #any]");
    define_derived(&mut m, "capture_1+_any", Some("c1"), "[capture 1+ #any]");
    proof {
        assert(m@ =~= spec_builtins());
    }
    m
}

} // verus!
