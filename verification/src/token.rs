//! Token trees: the input and output alphabet of the rewriter.

use vstd::prelude::*;

verus! {

/// A delimiter of a token group.
#[derive(Clone, Copy, Debug, PartialEq, Eq, Structural)]
pub enum Delim {
    /// `(` ... `)`
    Paren,
    /// `[` ... `]`
    Bracket,
    /// `{` ... `}`
    Brace,
}

/// One token tree: an identifier (or keyword), a single punctuation
/// character, a literal, or a delimited group of further trees.
#[derive(Debug, PartialEq, Eq)]
pub enum Tree {
    Ident(String),
    Punct(char),
    Literal(String),
    Group(Delim, Vec<Tree>),
}

/// The tree is an identifier whose characters are `name`.
pub open spec fn is_ident(t: Tree, name: Seq<char>) -> bool {
    t matches Tree::Ident(s) && s@ == name
}

/// The tree is the punctuation character `c`.
pub open spec fn is_punct(t: Tree, c: char) -> bool {
    t matches Tree::Punct(p) && p == c
}

/// The tree is a group with delimiter `d`.
pub open spec fn is_group(t: Tree, d: Delim) -> bool {
    t matches Tree::Group(dd, _) && dd == d
}

/// The tokens inside a group; the empty sequence on any other tree.
pub open spec fn group_inner(t: Tree) -> Seq<Tree> {
    match t {
        Tree::Group(_, ts) => ts@,
        _ => Seq::empty(),
    }
}

/// Whether the identifier held by `s` spells the same word as `lit`.
pub fn ident_text_is(s: &String, lit: &str) -> (r: bool)
    ensures
        r == (s@ == lit@),
{
    let other: String = String::from_str(lit);
    *s == other
}

/// Whether the tree is an identifier spelling `lit`.
pub fn tree_is_ident(t: &Tree, lit: &str) -> (r: bool)
    ensures
        r == is_ident(*t, lit@),
{
    match t {
        Tree::Ident(s) => ident_text_is(s, lit),
        _ => false,
    }
}

/// Whether the tree is the punctuation character `c`.
pub fn tree_is_punct(t: &Tree, c: char) -> (r: bool)
    ensures
        r == is_punct(*t, c),
{
    match t {
        Tree::Punct(p) => *p == c,
        _ => false,
    }
}

/// Whether the tree is a group with delimiter `d`.
pub fn tree_is_group(t: &Tree, d: Delim) -> (r: bool)
    ensures
        r == is_group(*t, d),
{
    match t {
        Tree::Group(dd, _) => *dd == d,
        _ => false,
    }
}

} // verus!
