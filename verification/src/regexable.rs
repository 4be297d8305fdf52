//! The intermediate regex algebra that patterns are compiled into, together
//! with its mathematical model. A [`Regexable`] value is later rendered to a
//! concrete regex string; contracts all speak about the model types.

use vstd::prelude::*;

verus! {

/// A lookaround operator wrapped in parentheses in the output.
#[derive(Copy, Clone, PartialEq, Eq, Structural, Debug)]
pub enum ParensOperator {
    Lookahead,
    Lookbehind,
    NegativeLookahead,
    NegativeLookbehind,
}

/// One item of a character class: an opaque special token such as `\d`, a
/// single code point, or an inclusive code-point range.
#[derive(Debug)]
pub enum CharacterClassComponent {
    Special(String),
    Single(char),
    Range(char, char),
}

/// The model of a character-class item.
#[verifier::ext_equal]
pub enum SpecComponent {
    Special(Seq<char>),
    Single(char),
    Range(char, char),
}

impl View for CharacterClassComponent {
    type V = SpecComponent;

    open spec fn view(&self) -> SpecComponent {
        match self {
            CharacterClassComponent::Special(s) => SpecComponent::Special(s@),
            CharacterClassComponent::Single(c) => SpecComponent::Single(*c),
            CharacterClassComponent::Range(a, b) => SpecComponent::Range(*a, *b),
        }
    }
}

/// The model of a sequence of character-class items.
pub open spec fn components_view(s: Seq<CharacterClassComponent>) -> Seq<SpecComponent> {
    Seq::new(s.len(), |i: int| s[i]@)
}

/// The intermediate representation of a compiled pattern.
#[derive(Debug)]
pub enum Regexable {
    Literal(String),
    Multiple { min: u32, max: Option<u32>, is_greedy: bool, sub: Box<Regexable> },
    Either(Vec<Regexable>),
    Concat(Vec<Regexable>),
    CharacterClass { characters: Vec<CharacterClassComponent>, inverted: bool },
    Boundary(String, Option<String>),
    Capture(String, Box<Regexable>),
    ParensOperator(ParensOperator, Box<Regexable>),
}

/// The model of the intermediate representation.
#[verifier::ext_equal]
pub enum SpecRegexable {
    Literal(Seq<char>),
    Multiple { min: u32, max: Option<u32>, is_greedy: bool, sub: Box<SpecRegexable> },
    Either(Seq<SpecRegexable>),
    Concat(Seq<SpecRegexable>),
    CharacterClass { characters: Seq<SpecComponent>, inverted: bool },
    Boundary(Seq<char>, Option<Seq<char>>),
    Capture(Seq<char>, Box<SpecRegexable>),
    ParensOperator(ParensOperator, Box<SpecRegexable>),
}

/// The model of one IR node.
pub open spec fn rx_view(r: Regexable) -> SpecRegexable
    decreases r,
{
    match r {
        Regexable::Literal(s) => SpecRegexable::Literal(s@),
        Regexable::Multiple { min, max, is_greedy, sub } => SpecRegexable::Multiple {
            min,
            max,
            is_greedy,
            sub: Box::new(rx_view(*sub)),
        },
        Regexable::Either(items) => SpecRegexable::Either(rx_seq_view(items@)),
        Regexable::Concat(items) => SpecRegexable::Concat(rx_seq_view(items@)),
        Regexable::CharacterClass { characters, inverted } => SpecRegexable::CharacterClass {
            characters: components_view(characters@),
            inverted,
        },
        Regexable::Boundary(tok, rev) => SpecRegexable::Boundary(
            tok@,
            match rev {
                Some(s) => Some(s@),
                None => None,
            },
        ),
        Regexable::Capture(name, sub) => SpecRegexable::Capture(name@, Box::new(rx_view(*sub))),
        Regexable::ParensOperator(op, sub) => SpecRegexable::ParensOperator(
            op,
            Box::new(rx_view(*sub)),
        ),
    }
}

/// The model of a sequence of IR nodes.
pub open spec fn rx_seq_view(items: Seq<Regexable>) -> Seq<SpecRegexable>
    decreases items,
{
    if items.len() == 0 {
        Seq::empty()
    } else {
        rx_seq_view(items.drop_last()).push(rx_view(items.last()))
    }
}

impl View for Regexable {
    type V = SpecRegexable;

    open spec fn view(&self) -> SpecRegexable {
        rx_view(*self)
    }
}

/// `rx_seq_view` maps the node model over the sequence, element by element.
pub broadcast proof fn lemma_rx_seq_view(items: Seq<Regexable>)
    ensures
        #[trigger] rx_seq_view(items).len() == items.len(),
        forall|i: int| 0 <= i < items.len() ==> rx_seq_view(items)[i] == rx_view(items[i]),
    decreases items.len(),
{
    if items.len() > 0 {
        lemma_rx_seq_view(items.drop_last());
    }
}

impl Clone for CharacterClassComponent {
    fn clone(&self) -> (r: Self)
        ensures
            r@ == self@,
    {
        match self {
            CharacterClassComponent::Special(s) => CharacterClassComponent::Special(s.clone()),
            CharacterClassComponent::Single(c) => CharacterClassComponent::Single(*c),
            CharacterClassComponent::Range(a, b) => CharacterClassComponent::Range(*a, *b),
        }
    }
}

/// Copies a vector of character-class items, preserving the model.
pub fn clone_components(items: &Vec<CharacterClassComponent>) -> (r: Vec<CharacterClassComponent>)
    ensures
        components_view(r@) == components_view(items@),
        r@.len() == items@.len(),
{
    let mut r: Vec<CharacterClassComponent> = Vec::new();
    let mut i: usize = 0;
    while i < items.len()
        invariant
            i <= items@.len(),
            r@.len() == i,
            forall|j: int| 0 <= j < i ==> r@[j]@ == items@[j]@,
        decreases items@.len() - i,
    {
        r.push(items[i].clone());
        i = i + 1;
    }
    proof {
        assert(components_view(r@) =~= components_view(items@));
    }
    r
}

impl Clone for Regexable {
    fn clone(&self) -> (r: Self)
        ensures
            r@ == self@,
        decreases *self,
    {
        match self {
            Regexable::Literal(s) => Regexable::Literal(s.clone()),
            Regexable::Multiple { min, max, is_greedy, sub } => Regexable::Multiple {
                min: *min,
                max: *max,
                is_greedy: *is_greedy,
                sub: Box::new((**sub).clone()),
            },
            Regexable::Either(items) => Regexable::Either(clone_rx_vec(items)),
            Regexable::Concat(items) => Regexable::Concat(clone_rx_vec(items)),
            Regexable::CharacterClass { characters, inverted } => Regexable::CharacterClass {
                characters: clone_components(characters),
                inverted: *inverted,
            },
            Regexable::Boundary(tok, rev) => Regexable::Boundary(
                tok.clone(),
                match rev {
                    Some(s) => Some(s.clone()),
                    None => None,
                },
            ),
            Regexable::Capture(name, sub) => Regexable::Capture(
                name.clone(),
                Box::new((**sub).clone()),
            ),
            Regexable::ParensOperator(op, sub) => Regexable::ParensOperator(
                *op,
                Box::new((**sub).clone()),
            ),
        }
    }
}

/// Copies a vector of IR nodes, preserving the model.
pub fn clone_rx_vec(items: &Vec<Regexable>) -> (r: Vec<Regexable>)
    ensures
        rx_seq_view(r@) == rx_seq_view(items@),
        r@.len() == items@.len(),
    decreases *items,
{
    let mut r: Vec<Regexable> = Vec::new();
    let mut i: usize = 0;
    while i < items.len()
        invariant
            i <= items@.len(),
            r@.len() == i,
            forall|j: int| 0 <= j < i ==> #[trigger] rx_view(r@[j]) == rx_view(items@[j]),
        decreases items@.len() - i,
    {
        let c = items[i].clone();
        r.push(c);
        i = i + 1;
    }
    proof {
        lemma_rx_seq_view(r@);
        lemma_rx_seq_view(items@);
        assert(rx_seq_view(r@) =~= rx_seq_view(items@));
    }
    r
}

} // verus!
