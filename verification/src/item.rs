//! The item classifier: splitting an attribute-free declaration into its
//! visibility qualifier, keyword and body.

use vstd::prelude::*;

use crate::token::Delim;
use crate::token::Tree;
use crate::token::group_inner;
use crate::token::is_group;
use crate::token::is_ident;
use crate::token::tree_is_group;
use crate::token::tree_is_ident;

verus! {

/// The keyword of a recognized item declaration.
#[derive(Clone, Copy, Debug, PartialEq, Eq, Structural)]
pub enum Kw {
    Enum,
    Struct,
    Trait,
}

/// A visibility qualifier: absent, a bare `pub`, or a restricted
/// `pub(...)` whose restriction tokens are kept verbatim.
#[derive(Debug, PartialEq, Eq)]
pub enum Vis {
    Inherited,
    Pub,
    Restricted(Vec<Tree>),
}

/// The mathematical value of a [`Vis`].
#[verifier::ext_equal]
pub enum VisModel {
    Inherited,
    Pub,
    Restricted(Seq<Tree>),
}

impl View for Vis {
    type V = VisModel;

    open spec fn view(&self) -> VisModel {
        match self {
            Vis::Inherited => VisModel::Inherited,
            Vis::Pub => VisModel::Pub,
            Vis::Restricted(ts) => VisModel::Restricted(ts@),
        }
    }
}

/// An item stripped of its attributes: visibility, keyword, and the
/// remaining body tokens, kept verbatim and never reparsed.
#[derive(Debug, PartialEq, Eq)]
pub struct ItemShell {
    pub vis: Vis,
    pub kw: Kw,
    pub body: Vec<Tree>,
}

/// The mathematical value of an [`ItemShell`].
#[verifier::ext_equal]
pub struct ShellModel {
    pub vis: VisModel,
    pub kw: Kw,
    pub body: Seq<Tree>,
}

impl View for ItemShell {
    type V = ShellModel;

    open spec fn view(&self) -> ShellModel {
        ShellModel { vis: self.vis@, kw: self.kw, body: self.body@ }
    }
}

/// How many leading tokens the visibility qualifier occupies: `pub` followed
/// by a parenthesized group takes two, a bare `pub` one, anything else zero.
pub open spec fn vis_token_count(t: Seq<Tree>) -> int {
    if t.len() >= 1 && is_ident(t[0], "pub"@) {
        if t.len() >= 2 && is_group(t[1], Delim::Paren) {
            2
        } else {
            1
        }
    } else {
        0
    }
}

/// The visibility qualifier spelled by the leading tokens.
pub open spec fn vis_model_of(t: Seq<Tree>) -> VisModel {
    if vis_token_count(t) == 2 {
        VisModel::Restricted(group_inner(t[1]))
    } else if vis_token_count(t) == 1 {
        VisModel::Pub
    } else {
        VisModel::Inherited
    }
}

/// The item kind named by a keyword token, if it is a recognized one.
pub open spec fn keyword_of(t: Tree) -> Option<Kw> {
    if is_ident(t, "enum"@) {
        Some(Kw::Enum)
    } else if is_ident(t, "struct"@) {
        Some(Kw::Struct)
    } else if is_ident(t, "trait"@) {
        Some(Kw::Trait)
    } else {
        None
    }
}

/// Splits an attribute-free declaration into its shell.  The tokens must
/// spell an optional visibility qualifier, a recognized keyword, and a
/// nonempty body; any other shape is rejected.
pub open spec fn classify_spec(t: Seq<Tree>) -> Option<ShellModel> {
    let k = vis_token_count(t);
    if t.len() > k + 1 {
        match keyword_of(t[k]) {
            Some(kw) => Some(ShellModel { vis: vis_model_of(t), kw, body: t.skip(k + 1) }),
            None => None,
        }
    } else {
        None
    }
}

/// Consumes an attribute-free declaration and returns its shell, or `None`
/// when the tokens do not spell a recognized item form.
pub fn classify(t: Vec<Tree>) -> (r: Option<ItemShell>)
    ensures
        match r {
            Some(shell) => classify_spec(t@) == Some(shell@),
            None => classify_spec(t@) is None,
        },
{
    let ghost t0 = t@;
    let mut t = t;
    let vis: Vis;
    if t.len() >= 1 && tree_is_ident(&t[0], "pub") {
        if t.len() >= 2 && tree_is_group(&t[1], Delim::Paren) {
            let _p = t.remove(0);
            let g = t.remove(0);
            match g {
                Tree::Group(_, inner) => {
                    vis = Vis::Restricted(inner);
                },
                _ => {
                    return unreached();
                },
            }
        } else {
            let _p = t.remove(0);
            vis = Vis::Pub;
        }
    } else {
        vis = Vis::Inherited;
    }
    let ghost k = vis_token_count(t0);
    proof {
        assert(t@ =~= t0.skip(k));
        assert(vis@ == vis_model_of(t0));
    }
    if t.len() < 2 {
        return None;
    }
    let kw: Kw;
    if tree_is_ident(&t[0], "enum") {
        kw = Kw::Enum;
    } else if tree_is_ident(&t[0], "struct") {
        kw = Kw::Struct;
    } else if tree_is_ident(&t[0], "trait") {
        kw = Kw::Trait;
    } else {
        return None;
    }
    let _k = t.remove(0);
    proof {
        assert(t@ =~= t0.skip(k + 1));
    }
    Some(ItemShell { vis, kw, body: t })
}

} // verus!
