//! The compiler from the syntax tree to the intermediate representation:
//! the lexically scoped macro environment, operator desugaring, inversion,
//! and the fusion of alternations into character classes.

use vstd::prelude::*;

use crate::ast::{ast_seq_view, ast_view, lemma_ast_seq_view, Ast, SpecAst};
use crate::chars::{
    alnum_char, alpha_char, is_alnum_char, is_alpha_char, push_char, str_eq, u32_string,
};
use crate::regexable::{
    clone_components, components_view, lemma_rx_seq_view, rx_seq_view, rx_view,
    CharacterClassComponent, ParensOperator, Regexable, SpecComponent, SpecRegexable,
};

verus! {

/// The model of one macro scope: name-to-IR bindings in definition order.
pub open spec fn scope_view(s: Seq<(String, Regexable)>) -> Seq<(Seq<char>, SpecRegexable)> {
    Seq::new(s.len(), |i: int| (s[i].0@, rx_view(s[i].1)))
}

/// The model of the whole environment: a stack of scopes, the innermost
/// scope last.
pub open spec fn env_view(e: Seq<Vec<(String, Regexable)>>) -> Seq<
    Seq<(Seq<char>, SpecRegexable)>,
> {
    Seq::new(e.len(), |i: int| scope_view(e[i]@))
}

/// Looks a name up in one scope: the first binding with that name.
pub open spec fn spec_scope_lookup(
    scope: Seq<(Seq<char>, SpecRegexable)>,
    name: Seq<char>,
) -> Option<SpecRegexable>
    decreases scope.len(),
{
    if scope.len() == 0 {
        None
    } else if scope[0].0 == name {
        Some(scope[0].1)
    } else {
        spec_scope_lookup(scope.drop_first(), name)
    }
}

/// Looks a name up in an environment: the innermost scope that binds it
/// wins.
pub open spec fn spec_env_lookup(
    env: Seq<Seq<(Seq<char>, SpecRegexable)>>,
    name: Seq<char>,
) -> Option<SpecRegexable>
    decreases env.len(),
{
    if env.len() == 0 {
        None
    } else {
        match spec_scope_lookup(env.last(), name) {
            Some(r) => Some(r),
            None => spec_env_lookup(env.drop_last(), name),
        }
    }
}

/// A lookup lands on the first binding of the name.
pub proof fn lemma_scope_lookup_at(
    scope: Seq<(Seq<char>, SpecRegexable)>,
    name: Seq<char>,
    k: int,
)
    requires
        0 <= k < scope.len(),
        scope[k].0 == name,
        forall|i: int| 0 <= i < k ==> (#[trigger] scope[i]).0 != name,
    ensures
        spec_scope_lookup(scope, name) == Some(scope[k].1),
    decreases k,
{
    if k > 0 {
        let rest = scope.drop_first();
        assert(forall|i: int| 0 <= i < k - 1 ==> (#[trigger] rest[i]).0 != name);
        lemma_scope_lookup_at(rest, name, k - 1);
    }
}

/// A binding that a lookup finds is untouched by later bindings of other
/// names appended after it.
pub proof fn lemma_scope_lookup_prefix(
    p: Seq<(Seq<char>, SpecRegexable)>,
    e: Seq<(Seq<char>, SpecRegexable)>,
    name: Seq<char>,
)
    requires
        spec_scope_lookup(p, name) is Some,
    ensures
        spec_scope_lookup(p + e, name) == spec_scope_lookup(p, name),
    decreases p.len(),
{
    if p.len() > 0 {
        assert((p + e)[0] == p[0]);
        if p[0].0 != name {
            assert((p + e).drop_first() =~= p.drop_first() + e);
            lemma_scope_lookup_prefix(p.drop_first(), e, name);
        }
    }
}

/// A stack of macro scopes. The bottom scope holds the built-in macros;
/// each bracket group that defines macros pushes a scope of its own while
/// it is being compiled.
pub struct Macros {
    scopes: Vec<Vec<(String, Regexable)>>,
}

impl View for Macros {
    type V = Seq<Seq<(Seq<char>, SpecRegexable)>>;

    closed spec fn view(&self) -> Seq<Seq<(Seq<char>, SpecRegexable)>> {
        env_view(self.scopes@)
    }
}

/// Looks a name up in one scope's vector of bindings.
fn scope_lookup<'a>(
    scope: &'a Vec<(String, Regexable)>,
    name: &str,
) -> (r: Option<&'a Regexable>)
    ensures
        match r {
            Some(rx) => spec_scope_lookup(scope_view(scope@), name@) == Some(rx_view(*rx)),
            None => spec_scope_lookup(scope_view(scope@), name@) is None,
        },
{
    let ghost sv = scope_view(scope@);
    let mut j: usize = 0;
    proof {
        assert(sv.skip(0) =~= sv);
    }
    while j < scope.len()
        invariant
            j <= scope@.len(),
            sv == scope_view(scope@),
            spec_scope_lookup(sv, name@) == spec_scope_lookup(sv.skip(j as int), name@),
        decreases scope@.len() - j,
    {
        if str_eq(scope[j].0.as_str(), name) {
            proof {
                assert(sv.skip(j as int)[0] == sv[j as int]);
            }
            return Some(&scope[j].1);
        }
        proof {
            assert(sv.skip(j as int)[0] == sv[j as int]);
            assert(sv.skip(j as int).drop_first() =~= sv.skip(j + 1));
        }
        j = j + 1;
    }
    proof {
        assert(sv.skip(scope@.len() as int) =~= Seq::<(Seq<char>, SpecRegexable)>::empty());
    }
    None
}

impl Macros {
    /// An environment with a single, empty scope.
    pub fn new() -> (m: Macros)
        ensures
            m@ == seq![Seq::<(Seq<char>, SpecRegexable)>::empty()],
    {
        let mut scopes: Vec<Vec<(String, Regexable)>> = Vec::new();
        let scope: Vec<(String, Regexable)> = Vec::new();
        scopes.push(scope);
        let m = Macros { scopes };
        proof {
            assert(m@ =~~= seq![Seq::<(Seq<char>, SpecRegexable)>::empty()]);
        }
        m
    }

    /// Opens a new, empty innermost scope.
    pub fn push(&mut self)
        ensures
            final(self)@ == old(self)@.push(Seq::empty()),
    {
        let scope: Vec<(String, Regexable)> = Vec::new();
        self.scopes.push(scope);
        proof {
            assert(final(self)@ =~~= old(self)@.push(Seq::empty()));
        }
    }

    /// Closes the innermost scope.
    pub fn pop(&mut self)
        requires
            old(self)@.len() > 0,
        ensures
            final(self)@ == old(self)@.drop_last(),
    {
        let _ = self.scopes.pop();
        proof {
            assert(final(self)@ =~~= old(self)@.drop_last());
        }
    }

    /// Whether the innermost scope already binds a name.
    pub fn defined_in_current(&self, name: &str) -> (r: bool)
        requires
            self@.len() > 0,
        ensures
            r == (spec_scope_lookup(self@.last(), name@) is Some),
    {
        let n = self.scopes.len();
        match scope_lookup(&self.scopes[n - 1], name) {
            Some(_) => true,
            None => false,
        }
    }

    /// Adds a binding to the innermost scope.
    pub fn define(&mut self, name: String, rx: Regexable)
        requires
            old(self)@.len() > 0,
        ensures
            final(self)@ == old(self)@.update(
                old(self)@.len() - 1,
                old(self)@.last().push((name@, rx@)),
            ),
    {
        let ghost old_env = self@;
        match self.scopes.pop() {
            Some(mut scope) => {
                let ghost old_scope = scope@;
                scope.push((name, rx));
                proof {
                    assert(scope_view(scope@) =~= scope_view(old_scope).push(
                        (scope@.last().0@, rx_view(scope@.last().1)),
                    ));
                }
                self.scopes.push(scope);
                proof {
                    assert(final(self)@ =~~= old_env.update(
                        old_env.len() - 1,
                        old_env.last().push((scope@.last().0@, rx_view(scope@.last().1))),
                    ));
                }
            },
            None => {},
        }
    }

    /// Finds the innermost binding of a name, walking the scopes from the
    /// innermost outward.
    pub fn find_macro(&self, name: &str) -> (r: Option<Regexable>)
        ensures
            match r {
                Some(rx) => spec_env_lookup(self@, name@) == Some(rx@),
                None => spec_env_lookup(self@, name@) is None,
            },
    {
        let ghost ev = self@;
        let mut i: usize = self.scopes.len();
        proof {
            assert(ev.take(i as int) =~= ev);
        }
        while i > 0
            invariant
                i <= self@.len(),
                ev == self@,
                spec_env_lookup(ev, name@) == spec_env_lookup(ev.take(i as int), name@),
            decreases i,
        {
            match scope_lookup(&self.scopes[i - 1], name) {
                Some(rx) => {
                    proof {
                        assert(ev.take(i as int).last() == ev[i - 1]);
                    }
                    return Some(rx.clone());
                },
                None => {
                    proof {
                        assert(ev.take(i as int).last() == ev[i - 1]);
                        assert(ev.take(i as int).drop_last() =~= ev.take(i - 1));
                    }
                    i = i - 1;
                },
            }
        }
        proof {
            assert(ev.take(0) =~= Seq::<Seq<(Seq<char>, SpecRegexable)>>::empty());
        }
        None
    }

    /// Like [`Self::find_macro`], but an unknown name is an error.
    pub fn get_macro(&self, name: &str) -> (r: Result<Regexable, String>)
        ensures
            match r {
                Ok(rx) => spec_env_lookup(self@, name@) == Some(rx@),
                Err(_) => spec_env_lookup(self@, name@) is None,
            },
    {
        match self.find_macro(name) {
            Some(rx) => Ok(rx),
            None => {
                let mut e = String::new();
                e.append("Macro not defined: ");
                e.append(name);
                Err(e)
            },
        }
    }
}

/// Whether an IR node is empty: the empty concatenation or the empty
/// literal. Operators and quantifiers reject such a body.
pub open spec fn spec_is_empty(r: SpecRegexable) -> bool {
    match r {
        SpecRegexable::Concat(v) => v.len() == 0,
        SpecRegexable::Literal(s) => s.len() == 0,
        _ => false,
    }
}

/// The inversion of an IR node, where inversion is defined: a
/// single-character literal becomes an inverted class, a class flips its
/// polarity, a boundary swaps with its inverse, a lookaround flips between
/// its positive and negative form. Everything else cannot be inverted.
pub open spec fn spec_invert(r: SpecRegexable) -> Option<SpecRegexable> {
    match r {
        SpecRegexable::Literal(s) => if s.len() == 1 {
            Some(
                SpecRegexable::CharacterClass {
                    characters: seq![SpecComponent::Single(s[0])],
                    inverted: true,
                },
            )
        } else {
            None
        },
        SpecRegexable::CharacterClass { characters, inverted } => Some(
            SpecRegexable::CharacterClass { characters, inverted: !inverted },
        ),
        SpecRegexable::Boundary(a, rev) => match rev {
            Some(b) => Some(SpecRegexable::Boundary(b, Some(a))),
            None => None,
        },
        SpecRegexable::ParensOperator(op, sub) => {
            let flipped = match op {
                ParensOperator::Lookahead => ParensOperator::NegativeLookahead,
                ParensOperator::Lookbehind => ParensOperator::NegativeLookbehind,
                ParensOperator::NegativeLookahead => ParensOperator::Lookahead,
                ParensOperator::NegativeLookbehind => ParensOperator::Lookbehind,
            };
            Some(SpecRegexable::ParensOperator(flipped, sub))
        },
        _ => None,
    }
}

/// Inverts an IR node, or explains why it cannot be done.
pub fn invert(regexable: Regexable) -> (r: Result<Regexable, String>)
    ensures
        match r {
            Ok(o) => spec_invert(regexable@) == Some(o@),
            Err(_) => spec_invert(regexable@) is None,
        },
{
    match regexable {
        Regexable::Literal(s) => {
            let n = s.as_str().unicode_len();
            if n == 1 {
                let c = s.as_str().get_char(0);
                let mut characters: Vec<CharacterClassComponent> = Vec::new();
                characters.push(CharacterClassComponent::Single(c));
                let r = Regexable::CharacterClass { characters, inverted: true };
                proof {
                    assert(components_view(seq![CharacterClassComponent::Single(c)])
                        =~= seq![SpecComponent::Single(s@[0])]);
                }
                Ok(r)
            } else {
                let mut e = String::new();
                e.append("Expression cannot be inverted (maybe try [not lookahead <expression>]?)");
                Err(e)
            }
        },
        Regexable::CharacterClass { characters, inverted } => Ok(
            Regexable::CharacterClass { characters, inverted: !inverted },
        ),
        Regexable::Boundary(a, rev) => match rev {
            Some(b) => Ok(Regexable::Boundary(b, Some(a))),
            None => {
                let mut e = String::new();
                e.append("Expression cannot be inverted (maybe try [not lookahead <expression>]?)");
                Err(e)
            },
        },
        Regexable::ParensOperator(op, sub) => {
            let flipped = match op {
                ParensOperator::Lookahead => ParensOperator::NegativeLookahead,
                ParensOperator::Lookbehind => ParensOperator::NegativeLookbehind,
                ParensOperator::NegativeLookahead => ParensOperator::Lookahead,
                ParensOperator::NegativeLookbehind => ParensOperator::Lookbehind,
            };
            Ok(Regexable::ParensOperator(flipped, sub))
        },
        Regexable::Capture(_, _) => {
            // Inverting a capture group is not supported.
            let mut e = String::new();
            e.append("Expression cannot be inverted (maybe try [not lookahead <expression>]?)");
            Err(e)
        },
        _ => {
            let mut e = String::new();
            e.append("Expression cannot be inverted (maybe try [not lookahead <expression>]?)");
            Err(e)
        },
    }
}

/// Whether an IR node may stand in a fused character class: a
/// single-character literal or a non-inverted class.
pub open spec fn spec_cc_item(r: SpecRegexable) -> bool {
    match r {
        SpecRegexable::Literal(s) => s.len() == 1,
        SpecRegexable::CharacterClass { characters, inverted } => !inverted,
        _ => false,
    }
}

/// The class items contributed by one fusable alternative.
pub open spec fn spec_cc_items_of(r: SpecRegexable) -> Seq<SpecComponent> {
    match r {
        SpecRegexable::Literal(s) => seq![SpecComponent::Single(s[0])],
        SpecRegexable::CharacterClass { characters, inverted } => characters,
        _ => Seq::empty(),
    }
}

/// The concatenated class items of all alternatives.
pub open spec fn spec_cc_flatten(rs: Seq<SpecRegexable>) -> Seq<SpecComponent>
    decreases rs.len(),
{
    if rs.len() == 0 {
        Seq::empty()
    } else {
        spec_cc_flatten(rs.drop_last()) + spec_cc_items_of(rs.last())
    }
}

/// An alternation whose alternatives are all single-character literals or
/// non-inverted classes fuses into one class; any other alternation stays
/// an alternation.
pub open spec fn spec_to_cc_or_either(rs: Seq<SpecRegexable>) -> SpecRegexable {
    if forall|i: int| 0 <= i < rs.len() ==> spec_cc_item(#[trigger] rs[i]) {
        SpecRegexable::CharacterClass { characters: spec_cc_flatten(rs), inverted: false }
    } else {
        SpecRegexable::Either(rs)
    }
}

/// Fuses an alternation into a character class when all alternatives allow
/// it.
pub fn to_character_class_or_either(compiled: Vec<Regexable>) -> (r: Regexable)
    ensures
        r@ == spec_to_cc_or_either(rx_seq_view(compiled@)),
{
    let ghost rs = rx_seq_view(compiled@);
    proof {
        lemma_rx_seq_view(compiled@);
    }
    let mut all_single = true;
    let mut i: usize = 0;
    while i < compiled.len()
        invariant
            i <= compiled@.len(),
            rs == rx_seq_view(compiled@),
            rs.len() == compiled@.len(),
            forall|j: int| 0 <= j < compiled@.len() ==> rs[j] == rx_view(compiled@[j]),
            all_single == forall|j: int| 0 <= j < i ==> spec_cc_item(#[trigger] rs[j]),
        decreases compiled@.len() - i,
    {
        let this_ok = match &compiled[i] {
            Regexable::Literal(s) => s.as_str().unicode_len() == 1,
            Regexable::CharacterClass { characters: _, inverted } => !*inverted,
            _ => false,
        };
        proof {
            assert(this_ok == spec_cc_item(rs[i as int]));
        }
        all_single = all_single && this_ok;
        i = i + 1;
    }
    if all_single {
        let mut characters: Vec<CharacterClassComponent> = Vec::new();
        let mut k: usize = 0;
        proof {
            assert(rs.take(0) =~= Seq::<SpecRegexable>::empty());
            assert(components_view(characters@) =~= Seq::<SpecComponent>::empty());
        }
        while k < compiled.len()
            invariant
                k <= compiled@.len(),
                rs == rx_seq_view(compiled@),
                rs.len() == compiled@.len(),
                forall|j: int| 0 <= j < compiled@.len() ==> rs[j] == rx_view(compiled@[j]),
                forall|j: int| 0 <= j < rs.len() ==> spec_cc_item(#[trigger] rs[j]),
                components_view(characters@) == spec_cc_flatten(rs.take(k as int)),
            decreases compiled@.len() - k,
        {
            let ghost old_chars = characters@;
            proof {
                assert(spec_cc_item(rs[k as int]));
            }
            match &compiled[k] {
                Regexable::Literal(s) => {
                    let c = s.as_str().get_char(0);
                    characters.push(CharacterClassComponent::Single(c));
                },
                Regexable::CharacterClass { characters: sub, inverted: _ } => {
                    let mut cloned = clone_components(sub);
                    characters.append(&mut cloned);
                },
                _ => {},
            }
            proof {
                let t = rs.take(k + 1);
                assert(t.drop_last() =~= rs.take(k as int));
                assert(t.last() == rs[k as int]);
                assert(components_view(characters@) =~= spec_cc_flatten(rs.take(k as int))
                    + spec_cc_items_of(rs[k as int]));
            }
            k = k + 1;
        }
        proof {
            assert(rs.take(compiled@.len() as int) =~= rs);
        }
        Regexable::CharacterClass { characters, inverted: false }
    } else {
        Regexable::Either(compiled)
    }
}

/// An alternation whose alternatives are all single-character literals or
/// non-inverted character classes compiles to one non-inverted character
/// class, whose items are the alternatives' items in source order.
pub proof fn lemma_single_alternatives_fuse(rs: Seq<SpecRegexable>)
    requires
        forall|i: int| 0 <= i < rs.len() ==> spec_cc_item(#[trigger] rs[i]),
    ensures
        spec_to_cc_or_either(rs) == (SpecRegexable::CharacterClass {
            characters: spec_cc_flatten(rs),
            inverted: false,
        }),
{
}

/// Inverting an inversion is the identity at the level of the intermediate
/// representation, for every node whose inversion is defined and invertible
/// back: a character class, a boundary with an inverse form, or a
/// lookaround. (A single-character literal inverts to a class, which
/// inverts back to a class, not to the literal it came from; both render the
/// same way.)
pub proof fn lemma_invert_involutive(x: SpecRegexable)
    requires
        match x {
            SpecRegexable::CharacterClass { .. } => true,
            SpecRegexable::Boundary(_, rev) => rev is Some,
            SpecRegexable::ParensOperator(_, _) => true,
            _ => false,
        },
    ensures
        match spec_invert(x) {
            Some(y) => spec_invert(y) == Some(x),
            None => false,
        },
{
}

/// Rejects an empty body under an operator or quantifier.
pub fn check_not_empty(expr: &Regexable, what: String) -> (r: Result<(), String>)
    ensures
        r is Ok <==> !spec_is_empty(expr@),
{
    let is_empty = match expr {
        Regexable::Concat(v) => {
            proof {
                lemma_rx_seq_view(v@);
            }
            v.len() == 0
        },
        Regexable::Literal(s) => s.as_str().is_empty(),
        _ => false,
    };
    if is_empty {
        let mut e = what;
        e.append(" not allowed to have empty body");
        Err(e)
    } else {
        Ok(())
    }
}

/// Prepending an IR node to a list prepends its model.
proof fn lemma_rx_cons(a: Regexable, rest: Seq<Regexable>)
    ensures
        rx_seq_view(seq![a] + rest) == seq![a@] + rx_seq_view(rest),
{
    lemma_rx_seq_view(seq![a] + rest);
    lemma_rx_seq_view(rest);
    assert(rx_seq_view(seq![a] + rest) =~= seq![a@] + rx_seq_view(rest));
}

/// The compilation of one syntax-tree node under an environment. `None` is
/// a compile error: an unknown macro, a duplicate definition, an empty body
/// under an operator or quantifier, an unknown operator, an invalid range,
/// a named or impossible inversion, or a bare macro definition.
pub open spec fn spec_compile(
    ast: SpecAst,
    env: Seq<Seq<(Seq<char>, SpecRegexable)>>,
) -> Option<SpecRegexable>
    decreases ast,
{
    match ast {
        SpecAst::Concat(items) => {
            let env1 = env.push(Seq::empty());
            match spec_compile_defs(items, env1) {
                None => None,
                Some(env2) => match spec_compile_matches(items, env2) {
                    None => None,
                    Some(rs) => Some(SpecRegexable::Concat(rs)),
                },
            }
        },
        SpecAst::Either(items) => match spec_compile_list(items, env) {
            None => None,
            Some(rs) => Some(spec_to_cc_or_either(rs)),
        },
        SpecAst::Multiple { from, to, subexpr } => match spec_compile(*subexpr, env) {
            None => None,
            Some(body) => if spec_is_empty(body) {
                None
            } else if from == 0 && to == Some(0u32) {
                Some(SpecRegexable::Literal(Seq::empty()))
            } else {
                Some(
                    SpecRegexable::Multiple {
                        min: from,
                        max: to,
                        is_greedy: false,
                        sub: Box::new(body),
                    },
                )
            },
        },
        SpecAst::Operator { op, name, subexpr } => if op == "comment"@ {
            Some(SpecRegexable::Literal(Seq::empty()))
        } else {
            match spec_compile(*subexpr, env) {
                None => None,
                Some(body) => if spec_is_empty(body) {
                    None
                } else if op == "capture"@ || op == "c"@ {
                    Some(SpecRegexable::Capture(name, Box::new(body)))
                } else if op == "not"@ || op == "n"@ {
                    if name.len() > 0 {
                        None
                    } else {
                        spec_invert(body)
                    }
                } else if op == "lookahead"@ || op == "la"@ {
                    Some(
                        SpecRegexable::ParensOperator(ParensOperator::Lookahead, Box::new(body)),
                    )
                } else if op == "lookbehind"@ || op == "lb"@ {
                    Some(
                        SpecRegexable::ParensOperator(ParensOperator::Lookbehind, Box::new(body)),
                    )
                } else {
                    None
                },
            }
        },
        SpecAst::Macro(name) => spec_env_lookup(env, name),
        SpecAst::Range { start, end } => if (start as u32) <= (end as u32) && is_alnum_char(start)
            && is_alnum_char(end) && (is_alpha_char(start) == is_alpha_char(end)) {
            Some(
                SpecRegexable::CharacterClass {
                    characters: seq![SpecComponent::Range(start, end)],
                    inverted: false,
                },
            )
        } else {
            None
        },
        SpecAst::Literal(s) => Some(SpecRegexable::Literal(s)),
        SpecAst::DefMacro(_, _) => None,
    }
}

/// Whether a node is a definitions block: a concatenation holding only
/// macro definitions. Such a block arises from a bracket group written for
/// its definitions alone, and contributes them to the surrounding scope.
pub open spec fn spec_is_defs_block(a: SpecAst) -> bool {
    match a {
        SpecAst::Concat(items) => items.len() > 0 && (forall|i: int|
            0 <= i < items.len() ==> (#[trigger] items[i]) is DefMacro),
        _ => false,
    }
}

/// Folds the macro definitions among a concatenation's children, in order,
/// into the innermost scope. A definition may use earlier siblings of the
/// same scope but not itself; defining a name twice in one scope fails.
pub open spec fn spec_compile_defs(
    items: Seq<SpecAst>,
    env: Seq<Seq<(Seq<char>, SpecRegexable)>>,
) -> Option<Seq<Seq<(Seq<char>, SpecRegexable)>>>
    decreases items,
{
    if items.len() == 0 {
        Some(env)
    } else {
        match items[0] {
            SpecAst::DefMacro(name, body) => if spec_scope_lookup(env.last(), name) is Some {
                None
            } else {
                match spec_compile(*body, env) {
                    None => None,
                    Some(rx) => spec_compile_defs(
                        items.drop_first(),
                        env.update(env.len() - 1, env.last().push((name, rx))),
                    ),
                }
            },
            SpecAst::Concat(sub) => if spec_is_defs_block(items[0]) {
                match spec_compile_defs(sub, env) {
                    None => None,
                    Some(env2) => spec_compile_defs(items.drop_first(), env2),
                }
            } else {
                spec_compile_defs(items.drop_first(), env)
            },
            _ => spec_compile_defs(items.drop_first(), env),
        }
    }
}

/// Compiles the non-definition children of a concatenation, in order.
pub open spec fn spec_compile_matches(
    items: Seq<SpecAst>,
    env: Seq<Seq<(Seq<char>, SpecRegexable)>>,
) -> Option<Seq<SpecRegexable>>
    decreases items,
{
    if items.len() == 0 {
        Some(Seq::empty())
    } else {
        match items[0] {
            SpecAst::DefMacro(_, _) => spec_compile_matches(items.drop_first(), env),
            _ => if spec_is_defs_block(items[0]) {
                spec_compile_matches(items.drop_first(), env)
            } else { match spec_compile(items[0], env) {
                None => None,
                Some(rx) => match spec_compile_matches(items.drop_first(), env) {
                    None => None,
                    Some(rest) => Some(seq![rx] + rest),
                },
            } },
        }
    }
}

/// Compiles every child of an alternation, in order.
pub open spec fn spec_compile_list(
    items: Seq<SpecAst>,
    env: Seq<Seq<(Seq<char>, SpecRegexable)>>,
) -> Option<Seq<SpecRegexable>>
    decreases items,
{
    if items.len() == 0 {
        Some(Seq::empty())
    } else {
        match spec_compile(items[0], env) {
            None => None,
            Some(rx) => match spec_compile_list(items.drop_first(), env) {
                None => None,
                Some(rest) => Some(seq![rx] + rest),
            },
        }
    }
}

impl Ast {
    /// Compiles this node to the intermediate representation under the
    /// given macro environment. The environment is left exactly as it was.
    #[verifier::rlimit(80)]
    pub fn compile(&self, macros: &mut Macros) -> (r: Result<Regexable, String>)
        requires
            old(macros)@.len() >= 1,
        ensures
            final(macros)@ == old(macros)@,
            match r {
                Ok(rx) => spec_compile(self@, old(macros)@) == Some(rx@),
                Err(_) => spec_compile(self@, old(macros)@) is None,
            },
        decreases *self, 0int,
    {
        match self {
            Ast::Concat(items) => {
                let ghost env0 = macros@;
                macros.push();
                proof {
                    assert(macros@.drop_last() =~= env0);
                }
                match compile_defs(items, 0, macros) {
                    Err(e) => {
                        proof {
                            assert(macros@.drop_last() =~= env0);
                        }
                        macros.pop();
                        proof {
                            assert(ast_seq_view(items@).skip(0) =~= ast_seq_view(items@));
                        }
                        Err(e)
                    },
                    Ok(()) => {
                        proof {
                            assert(ast_seq_view(items@).skip(0) =~= ast_seq_view(items@));
                            assert(macros@.drop_last() =~= env0);
                        }
                        match compile_matches(items, 0, macros) {
                            Err(e) => {
                                macros.pop();
                                Err(e)
                            },
                            Ok(v) => {
                                macros.pop();
                                Ok(Regexable::Concat(v))
                            },
                        }
                    },
                }
            },
            Ast::Either(items) => {
                proof {
                    assert(ast_seq_view(items@).skip(0) =~= ast_seq_view(items@));
                }
                match compile_list(items, 0, macros) {
                    Err(e) => Err(e),
                    Ok(v) => Ok(to_character_class_or_either(v)),
                }
            },
            Ast::Multiple { from, to, subexpr } => {
                match (**subexpr).compile(macros) {
                    Err(e) => Err(e),
                    Ok(body) => {
                        let mut what = String::new();
                        what.append("Range ");
                        let d = u32_string(*from);
                        what.append(d.as_str());
                        what.append("-");
                        match to {
                            Some(t) => {
                                let d2 = u32_string(*t);
                                what.append(d2.as_str());
                            },
                            None => {},
                        }
                        match check_not_empty(&body, what) {
                            Err(e) => Err(e),
                            Ok(()) => {
                                let to_zero = match to {
                                    Some(t) => *t == 0,
                                    None => false,
                                };
                                if *from == 0 && to_zero {
                                    let s = String::new();
                                    proof {
                                        assert(s@ =~= Seq::<char>::empty());
                                    }
                                    Ok(Regexable::Literal(s))
                                } else {
                                    Ok(
                                        Regexable::Multiple {
                                            min: *from,
                                            max: *to,
                                            is_greedy: false,
                                            sub: Box::new(body),
                                        },
                                    )
                                }
                            },
                        }
                    },
                }
            },
            Ast::Operator { op, name, subexpr } => {
                if str_eq(op.as_str(), "comment") {
                    let s = String::new();
                    proof {
                        assert(s@ =~= Seq::<char>::empty());
                    }
                    return Ok(Regexable::Literal(s));
                }
                match (**subexpr).compile(macros) {
                    Err(e) => Err(e),
                    Ok(body) => {
                        let mut what = String::new();
                        what.append("Operator ");
                        what.append(op.as_str());
                        match check_not_empty(&body, what) {
                            Err(e) => Err(e),
                            Ok(()) => {
                                if str_eq(op.as_str(), "capture") || str_eq(op.as_str(), "c") {
                                    Ok(Regexable::Capture(name.clone(), Box::new(body)))
                                } else if str_eq(op.as_str(), "not") || str_eq(op.as_str(), "n") {
                                    if !name.as_str().is_empty() {
                                        let mut e = String::new();
                                        e.append("Invert operator does not accept name");
                                        Err(e)
                                    } else {
                                        invert(body)
                                    }
                                } else if str_eq(op.as_str(), "lookahead") || str_eq(
                                    op.as_str(),
                                    "la",
                                ) {
                                    Ok(
                                        Regexable::ParensOperator(
                                            ParensOperator::Lookahead,
                                            Box::new(body),
                                        ),
                                    )
                                } else if str_eq(op.as_str(), "lookbehind") || str_eq(
                                    op.as_str(),
                                    "lb",
                                ) {
                                    Ok(
                                        Regexable::ParensOperator(
                                            ParensOperator::Lookbehind,
                                            Box::new(body),
                                        ),
                                    )
                                } else {
                                    let mut e = String::new();
                                    e.append("Operator ");
                                    e.append(op.as_str());
                                    e.append(" does not exist");
                                    Err(e)
                                }
                            },
                        }
                    },
                }
            },
            Ast::Macro(name) => macros.get_macro(name.as_str()),
            Ast::Range { start, end } => {
                if (*start as u32) <= (*end as u32) && alnum_char(*start) && alnum_char(*end)
                    && (alpha_char(*start) == alpha_char(*end)) {
                    let mut characters: Vec<CharacterClassComponent> = Vec::new();
                    characters.push(CharacterClassComponent::Range(*start, *end));
                    let r = Regexable::CharacterClass { characters, inverted: false };
                    proof {
                        assert(components_view(seq![CharacterClassComponent::Range(*start, *end)])
                            =~= seq![SpecComponent::Range(*start, *end)]);
                    }
                    Ok(r)
                } else {
                    let mut e = String::new();
                    e.append("Invalid character range: ");
                    push_char(&mut e, *start);
                    e.append("..");
                    push_char(&mut e, *end);
                    Err(e)
                }
            },
            Ast::Literal(s) => Ok(Regexable::Literal(s.clone())),
            Ast::DefMacro(_, _) => {
                // A bare definition outside a concatenation defines nothing.
                let mut e = String::new();
                e.append("Macro definition is only allowed inside a bracket group");
                Err(e)
            },
        }
    }
}

/// Decides whether a node is a definitions block.
fn is_defs_block(a: &Ast) -> (r: bool)
    ensures
        r == spec_is_defs_block(a@),
{
    match a {
        Ast::Concat(items) => {
            proof {
                lemma_ast_seq_view(items@);
            }
            if items.len() == 0 {
                return false;
            }
            let mut j: usize = 0;
            proof {
                assert(a@ == SpecAst::Concat(ast_seq_view(items@)));
            }
            while j < items.len()
                invariant
                    a@ == SpecAst::Concat(ast_seq_view(items@)),
                    j <= items@.len(),
                    forall|k: int| 0 <= k < j ==> ast_seq_view(items@)[k] is DefMacro,
                    ast_seq_view(items@).len() == items@.len(),
                    forall|k: int| 0 <= k < items@.len() ==> ast_seq_view(items@)[k]
                        == ast_view(items@[k]),
                decreases items@.len() - j,
            {
                let d = match &items[j] {
                    Ast::DefMacro(_, _) => true,
                    _ => false,
                };
                if !d {
                    proof {
                        assert(!(ast_seq_view(items@)[j as int] is DefMacro));
                        assert(!(forall|k: int|
                            0 <= k < ast_seq_view(items@).len() ==> (#[trigger] ast_seq_view(
                                items@,
                            )[k]) is DefMacro)) by {
                            assert(!(ast_seq_view(items@)[j as int] is DefMacro));
                        };
                        assert(!spec_is_defs_block(a@));
                    }
                    return false;
                }
                j = j + 1;
            }
            true
        },
        _ => false,
    }
}

/// Folds the macro definitions among `items[i..]` into the innermost scope.
/// Only the innermost scope is touched.
#[verifier::rlimit(80)]
fn compile_defs(items: &Vec<Ast>, i: usize, macros: &mut Macros) -> (r: Result<(), String>)
    requires
        i <= items@.len(),
        old(macros)@.len() >= 1,
    ensures
        final(macros)@.len() == old(macros)@.len(),
        final(macros)@.drop_last() == old(macros)@.drop_last(),
        match r {
            Ok(_) => spec_compile_defs(ast_seq_view(items@).skip(i as int), old(macros)@)
                == Some(final(macros)@),
            Err(_) => spec_compile_defs(ast_seq_view(items@).skip(i as int), old(macros)@)
                is None,
        },
    decreases *items, items@.len() - i,
{
    let ghost sv = ast_seq_view(items@).skip(i as int);
    proof {
        lemma_ast_seq_view(items@);
    }
    if i == items.len() {
        proof {
            assert(sv =~= Seq::<SpecAst>::empty());
        }
        return Ok(());
    }
    proof {
        assert(sv[0] == ast_view(items@[i as int]));
        assert(sv.drop_first() =~= ast_seq_view(items@).skip(i + 1));
    }
    match &items[i] {
        Ast::DefMacro(name, body) => {
            if macros.defined_in_current(name.as_str()) {
                let mut e = String::new();
                e.append("Macro #");
                e.append(name.as_str());
                e.append(" already defined");
                return Err(e);
            }
            match (**body).compile(macros) {
                Err(e) => Err(e),
                Ok(rx) => {
                    let ghost env0 = macros@;
                    macros.define(name.clone(), rx);
                    proof {
                        assert(macros@.drop_last() =~= env0.drop_last());
                    }
                    compile_defs(items, i + 1, macros)
                },
            }
        },
        Ast::Concat(sub) => {
            if is_defs_block(&items[i]) {
                proof {
                    assert(ast_seq_view(sub@).skip(0) =~= ast_seq_view(sub@));
                }
                match compile_defs(sub, 0, macros) {
                    Err(e) => Err(e),
                    Ok(()) => compile_defs(items, i + 1, macros),
                }
            } else {
                compile_defs(items, i + 1, macros)
            }
        },
        _ => compile_defs(items, i + 1, macros),
    }
}

/// Compiles the non-definition children among `items[i..]`, in order.
#[verifier::rlimit(80)]
fn compile_matches(items: &Vec<Ast>, i: usize, macros: &mut Macros) -> (r: Result<
    Vec<Regexable>,
    String,
>)
    requires
        i <= items@.len(),
        old(macros)@.len() >= 1,
    ensures
        final(macros)@ == old(macros)@,
        match r {
            Ok(v) => spec_compile_matches(ast_seq_view(items@).skip(i as int), old(macros)@)
                == Some(rx_seq_view(v@)),
            Err(_) => spec_compile_matches(ast_seq_view(items@).skip(i as int), old(macros)@)
                is None,
        },
    decreases *items, items@.len() - i,
{
    let ghost sv = ast_seq_view(items@).skip(i as int);
    proof {
        lemma_ast_seq_view(items@);
    }
    if i == items.len() {
        let v: Vec<Regexable> = Vec::new();
        proof {
            assert(sv =~= Seq::<SpecAst>::empty());
            assert(rx_seq_view(v@) =~= Seq::<SpecRegexable>::empty());
        }
        return Ok(v);
    }
    proof {
        assert(sv[0] == ast_view(items@[i as int]));
        assert(sv.drop_first() =~= ast_seq_view(items@).skip(i + 1));
    }
    let skip_child = match &items[i] {
        Ast::DefMacro(_, _) => true,
        Ast::Concat(_) => is_defs_block(&items[i]),
        _ => false,
    };
    if skip_child {
        compile_matches(items, i + 1, macros)
    } else {
        match items[i].compile(macros) {
            Err(e) => Err(e),
            Ok(rx) => match compile_matches(items, i + 1, macros) {
                Err(e) => Err(e),
                Ok(rest) => {
                    let ghost rest_seq = rest@;
                    let mut v = rest;
                    v.insert(0, rx);
                    proof {
                        assert(v@ =~= seq![rx] + rest_seq);
                        lemma_rx_cons(rx, rest_seq);
                    }
                    Ok(v)
                },
            },
        }
    }
}

/// Compiles every child among `items[i..]`, in order.
#[verifier::rlimit(80)]
fn compile_list(items: &Vec<Ast>, i: usize, macros: &mut Macros) -> (r: Result<
    Vec<Regexable>,
    String,
>)
    requires
        i <= items@.len(),
        old(macros)@.len() >= 1,
    ensures
        final(macros)@ == old(macros)@,
        match r {
            Ok(v) => spec_compile_list(ast_seq_view(items@).skip(i as int), old(macros)@)
                == Some(rx_seq_view(v@)),
            Err(_) => spec_compile_list(ast_seq_view(items@).skip(i as int), old(macros)@)
                is None,
        },
    decreases *items, items@.len() - i,
{
    let ghost sv = ast_seq_view(items@).skip(i as int);
    proof {
        lemma_ast_seq_view(items@);
    }
    if i == items.len() {
        let v: Vec<Regexable> = Vec::new();
        proof {
            assert(sv =~= Seq::<SpecAst>::empty());
            assert(rx_seq_view(v@) =~= Seq::<SpecRegexable>::empty());
        }
        return Ok(v);
    }
    proof {
        assert(sv[0] == ast_view(items@[i as int]));
        assert(sv.drop_first() =~= ast_seq_view(items@).skip(i + 1));
    }
    match items[i].compile(macros) {
        Err(e) => Err(e),
        Ok(rx) => match compile_list(items, i + 1, macros) {
            Err(e) => Err(e),
            Ok(rest) => {
                let ghost rest_seq = rest@;
                let mut v = rest;
                v.insert(0, rx);
                proof {
                    assert(v@ =~= seq![rx] + rest_seq);
                    lemma_rx_cons(rx, rest_seq);
                }
                Ok(v)
            },
        },
    }
}

} // verus!
