//! The whole rewrite pipeline: stripping attribute blocks, partitioning
//! them, classifying derive entries, and assembling the expansion.

use vstd::prelude::*;

use crate::derive::DeriveEntry;
use crate::derive::EntryModel;
use crate::derive::MacroEntry;
use crate::derive::MacroModel;
use crate::derive::classify_entries;
use crate::derive::entry_views;
use crate::derive::macro_entries;
use crate::derive::macro_views;
use crate::derive::parse_entry_list;
use crate::derive::parse_entry_lists;
use crate::derive::parse_entries;
use crate::derive::std_entries;
use crate::item::ItemShell;
use crate::item::ShellModel;
use crate::item::classify;
use crate::item::classify_spec;
use crate::token::Delim;
use crate::token::Tree;
use crate::token::group_inner;
use crate::token::is_group;
use crate::token::is_ident;
use crate::token::is_punct;
use crate::token::tree_is_group;
use crate::token::tree_is_ident;
use crate::token::tree_is_punct;

verus! {

/// The input starts with an attribute block: a `#` followed by a
/// bracketed group.
pub open spec fn is_attr_start(s: Seq<Tree>) -> bool {
    s.len() >= 2 && is_punct(s[0], '#') && is_group(s[1], Delim::Bracket)
}

/// The contents of the leading attribute blocks, one inner token list per
/// block, in order.
pub open spec fn attr_blocks(s: Seq<Tree>) -> Seq<Seq<Tree>>
    decreases s.len(),
{
    if is_attr_start(s) {
        seq![group_inner(s[1])] + attr_blocks(s.skip(2))
    } else {
        Seq::empty()
    }
}

/// The tokens that remain once the leading attribute blocks are stripped.
pub open spec fn rest_after_attrs(s: Seq<Tree>) -> Seq<Tree>
    decreases s.len(),
{
    if is_attr_start(s) {
        rest_after_attrs(s.skip(2))
    } else {
        s
    }
}

/// The block is a `derive(...)` attribute: exactly the word `derive`
/// followed by a nonempty parenthesized group.  A `derive()` with nothing
/// inside does not count and passes through like any other attribute.
pub open spec fn is_derive_block(b: Seq<Tree>) -> bool {
    &&& b.len() == 2
    &&& is_ident(b[0], "derive"@)
    &&& is_group(b[1], Delim::Paren)
    &&& group_inner(b[1]).len() >= 1
}

/// The contents of the `derive(...)` blocks, in order.
pub open spec fn derive_lists(blocks: Seq<Seq<Tree>>) -> Seq<Seq<Tree>>
    decreases blocks.len(),
{
    if blocks.len() == 0 {
        Seq::empty()
    } else {
        let front = derive_lists(blocks.drop_last());
        if is_derive_block(blocks.last()) {
            front.push(group_inner(blocks.last()[1]))
        } else {
            front
        }
    }
}

/// The attribute blocks that are not `derive(...)` attributes, in order.
pub open spec fn other_blocks(blocks: Seq<Seq<Tree>>) -> Seq<Seq<Tree>>
    decreases blocks.len(),
{
    if blocks.len() == 0 {
        Seq::empty()
    } else {
        let front = other_blocks(blocks.drop_last());
        if is_derive_block(blocks.last()) {
            front
        } else {
            front.push(blocks.last())
        }
    }
}

/// The views of a sequence of attribute blocks.
pub open spec fn block_views(v: Seq<Vec<Tree>>) -> Seq<Seq<Tree>> {
    v.map_values(|b: Vec<Tree>| b@)
}

/// Why an input was rejected.
#[derive(Clone, Copy, Debug, PartialEq, Eq, Structural)]
pub enum ExpandError {
    /// After the attributes, the tokens do not spell a visibility
    /// qualifier, a recognized keyword and a nonempty body.
    UnrecognizedItem,
    /// The contents of some `derive(...)` attribute do not parse as a
    /// comma-separated list of derive entries.
    MalformedDerive,
}

/// The result of one expansion: everything the emitter and the dispatcher
/// need.  The emitted item is the synthesized `derive(...)` attribute
/// holding `std_derives` (omitted when empty), then `other_attrs` in their
/// original order, then the shell.  Each `macro_derives` entry is one
/// dispatched invocation, in source order, and every invocation receives
/// the same shell.
#[derive(Debug, PartialEq, Eq)]
pub struct Expansion {
    pub std_derives: Vec<DeriveEntry>,
    pub other_attrs: Vec<Vec<Tree>>,
    pub macro_derives: Vec<MacroEntry>,
    pub shell: ItemShell,
}

/// The mathematical value of an [`Expansion`].
#[verifier::ext_equal]
pub struct ExpModel {
    pub std_derives: Seq<EntryModel>,
    pub other_attrs: Seq<Seq<Tree>>,
    pub macro_derives: Seq<MacroModel>,
    pub shell: ShellModel,
}

impl View for Expansion {
    type V = ExpModel;

    open spec fn view(&self) -> ExpModel {
        ExpModel {
            std_derives: entry_views(self.std_derives@),
            other_attrs: block_views(self.other_attrs@),
            macro_derives: macro_views(self.macro_derives@),
            shell: self.shell@,
        }
    }
}

/// What expanding a token sequence yields: the item shell, the
/// pass-through attributes, the unmarked derive entries, and the marked
/// ones as normalized macro invocations; or the reason the input is
/// rejected.
pub open spec fn expand_spec(s: Seq<Tree>) -> Result<ExpModel, ExpandError> {
    let blocks = attr_blocks(s);
    match classify_spec(rest_after_attrs(s)) {
        None => Err(ExpandError::UnrecognizedItem),
        Some(shell) => match parse_entry_lists(derive_lists(blocks)) {
            None => Err(ExpandError::MalformedDerive),
            Some(es) => Ok(
                ExpModel {
                    std_derives: std_entries(es),
                    other_attrs: other_blocks(blocks),
                    macro_derives: macro_entries(es),
                    shell,
                },
            ),
        },
    }
}

/// Splits the input into its leading attribute blocks and the rest.
fn strip_attrs(input: Vec<Tree>) -> (r: (Vec<Vec<Tree>>, Vec<Tree>))
    ensures
        block_views(r.0@) == attr_blocks(input@),
        r.1@ == rest_after_attrs(input@),
{
    let mut t = input;
    let mut blocks: Vec<Vec<Tree>> = Vec::new();
    proof {
        assert(block_views(blocks@) =~= Seq::<Seq<Tree>>::empty());
        assert(block_views(blocks@) + attr_blocks(t@) =~= attr_blocks(t@));
    }
    while t.len() >= 2 && tree_is_punct(&t[0], '#') && tree_is_group(&t[1], Delim::Bracket)
        invariant
            attr_blocks(input@) == block_views(blocks@) + attr_blocks(t@),
            rest_after_attrs(input@) == rest_after_attrs(t@),
        decreases t@.len(),
    {
        let ghost before = t@;
        let _hash = t.remove(0);
        let g = t.remove(0);
        proof {
            assert(t@ =~= before.skip(2));
        }
        match g {
            Tree::Group(_, inner) => {
                proof {
                    assert(attr_blocks(before) == seq![inner@] + attr_blocks(t@));
                    assert(block_views(blocks@.push(inner)) =~= block_views(blocks@).push(
                        inner@,
                    ));
                    assert(block_views(blocks@).push(inner@) + attr_blocks(t@)
                        =~= block_views(blocks@) + (seq![inner@] + attr_blocks(t@)));
                }
                blocks.push(inner);
            },
            _ => {
                proof {
                    assert(false);
                }
            },
        }
    }
    proof {
        assert(!is_attr_start(t@));
        assert(attr_blocks(t@) =~= Seq::<Seq<Tree>>::empty());
        assert(block_views(blocks@) + attr_blocks(t@) =~= block_views(blocks@));
    }
    (blocks, t)
}

/// Buckets the attribute blocks: the contents of each `derive(...)`
/// attribute on one side, every other block, kept verbatim, on the other.
fn partition_blocks(blocks: Vec<Vec<Tree>>) -> (r: (Vec<Vec<Tree>>, Vec<Vec<Tree>>))
    ensures
        block_views(r.0@) == derive_lists(block_views(blocks@)),
        block_views(r.1@) == other_blocks(block_views(blocks@)),
{
    let ghost all = block_views(blocks@);
    let mut rest = blocks;
    let mut dlists: Vec<Vec<Tree>> = Vec::new();
    let mut others: Vec<Vec<Tree>> = Vec::new();
    let ghost mut done: Seq<Seq<Tree>> = Seq::empty();
    proof {
        assert(all =~= done + block_views(rest@));
        assert(block_views(dlists@) =~= derive_lists(done));
        assert(block_views(others@) =~= other_blocks(done));
    }
    while rest.len() > 0
        invariant
            all == done + block_views(rest@),
            block_views(dlists@) == derive_lists(done),
            block_views(others@) == other_blocks(done),
        decreases rest@.len(),
    {
        let ghost before = rest@;
        let mut b = rest.remove(0);
        let ghost b0 = b@;
        proof {
            assert(rest@ =~= before.skip(1));
            assert(block_views(before)[0] == b0);
            assert(block_views(before) =~= seq![b0] + block_views(rest@));
            assert(done.push(b0) + block_views(rest@) =~= done + block_views(before));
            assert((done.push(b0)).drop_last() =~= done);
            assert((done.push(b0)).last() == b0);
        }
        let is_derive = b.len() == 2 && tree_is_ident(&b[0], "derive") && tree_is_group(
            &b[1],
            Delim::Paren,
        );
        if is_derive {
            let g = b.remove(1);
            proof {
                assert(g == b0[1]);
            }
            match g {
                Tree::Group(_, inner) => {
                    if inner.len() >= 1 {
                        proof {
                            assert(Tree::Group(Delim::Paren, inner) == b0[1]);
                            assert(group_inner(b0[1]) == inner@);
                            assert(is_derive_block(b0));
                            assert(block_views(dlists@.push(inner)) =~= block_views(
                                dlists@,
                            ).push(inner@));
                            assert(derive_lists(done.push(b0)) == derive_lists(done).push(
                                group_inner(b0[1]),
                            ));
                            assert(other_blocks(done.push(b0)) == other_blocks(done));
                        }
                        dlists.push(inner);
                        proof {
                            done = done.push(b0);
                        }
                        continue ;
                    } else {
                        // An empty `derive()` is not a derive block; put the
                        // group back and pass the block through verbatim.
                        proof {
                            assert(Tree::Group(Delim::Paren, inner) == b0[1]);
                            assert(group_inner(b0[1]) == inner@);
                        }
                        b.push(Tree::Group(Delim::Paren, inner));
                        proof {
                            assert(b@ =~= b0);
                        }
                    }
                },
                _ => {
                    proof {
                        assert(false);
                    }
                },
            }
        }
        proof {
            assert(b@ == b0);
            assert(!is_derive_block(b0));
            assert(block_views(others@.push(b)) =~= block_views(others@).push(b0));
            assert(other_blocks(done.push(b0)) == other_blocks(done).push(b0));
            assert(derive_lists(done.push(b0)) == derive_lists(done));
        }
        others.push(b);
        proof {
            done = done.push(b0);
        }
    }
    proof {
        assert(block_views(rest@) =~= Seq::<Seq<Tree>>::empty());
        assert(done =~= all);
    }
    (dlists, others)
}

/// Parses every derive list and concatenates the entries in order, or
/// reports the first malformed list.
fn parse_all_lists(dlists: Vec<Vec<Tree>>) -> (r: Option<Vec<DeriveEntry>>)
    ensures
        match r {
            Some(v) => parse_entry_lists(block_views(dlists@)) == Some(entry_views(v@)),
            None => parse_entry_lists(block_views(dlists@)) is None,
        },
{
    let ghost all = block_views(dlists@);
    let mut rest = dlists;
    let mut acc: Vec<DeriveEntry> = Vec::new();
    proof {
        assert(entry_views(acc@) =~= Seq::<EntryModel>::empty());
        assert(entry_views(acc@) + parse_entry_lists(block_views(rest@))->0 =~= parse_entry_lists(
            block_views(rest@),
        )->0);
    }
    while rest.len() > 0
        invariant
            all == block_views(dlists@),
            parse_entry_lists(all) is Some <==> parse_entry_lists(block_views(rest@)) is Some,
            parse_entry_lists(block_views(rest@)) is Some ==> parse_entry_lists(all)->0
                == entry_views(acc@) + parse_entry_lists(block_views(rest@))->0,
        decreases rest@.len(),
    {
        let ghost before = rest@;
        let list = rest.remove(0);
        proof {
            assert(rest@ =~= before.skip(1));
            assert(block_views(before)[0] == list@);
            assert(block_views(before).skip(1) =~= block_views(rest@));
        }
        let parsed = parse_entry_list(list);
        match parsed {
            None => {
                proof {
                    assert(parse_entries(list@) is None);
                    assert(parse_entry_lists(block_views(before)) is None);
                    assert(parse_entry_lists(all) is None);
                }
                return None;
            },
            Some(mut es) => {
                proof {
                    assert(parse_entries(list@) == Some(entry_views(es@)));
                    assert(parse_entry_lists(block_views(before)) is Some <==> parse_entry_lists(
                        block_views(rest@),
                    ) is Some);
                    if parse_entry_lists(block_views(rest@)) is Some {
                        let r = parse_entry_lists(block_views(rest@))->0;
                        assert(parse_entry_lists(block_views(before))->0 == entry_views(es@) + r);
                        assert(entry_views(acc@ + es@) =~= entry_views(acc@) + entry_views(es@));
                        assert(entry_views(acc@) + (entry_views(es@) + r) =~= entry_views(
                            acc@ + es@,
                        ) + r);
                    }
                }
                acc.append(&mut es);
            },
        }
    }
    proof {
        assert(block_views(rest@) =~= Seq::<Seq<Tree>>::empty());
        assert(parse_entry_lists(block_views(rest@)) == Some(Seq::<EntryModel>::empty()));
        assert(entry_views(acc@) + Seq::<EntryModel>::empty() =~= entry_views(acc@));
        assert(parse_entry_lists(all) == Some(entry_views(acc@)));
    }
    Some(acc)
}

/// Expands one decorated item declaration.
///
/// On success the result carries the synthesized standard-derive list, the
/// pass-through attributes, the macro invocations to dispatch in source
/// order, and the shared item shell, exactly as [`expand_spec`] describes.
/// `Err(ExpandError::UnrecognizedItem)` comes back if and only if the
/// tokens after the attributes spell no recognized item form, and
/// `Err(ExpandError::MalformedDerive)` if and only if the item is
/// recognized but some `derive(...)` contents do not parse as entries.
pub fn expand(input: Vec<Tree>) -> (r: Result<Expansion, ExpandError>)
    ensures
        match r {
            Ok(e) => expand_spec(input@) == Ok::<ExpModel, ExpandError>(e@),
            Err(err) => expand_spec(input@) == Err::<ExpModel, ExpandError>(err),
        },
{
    let (blocks, rest) = strip_attrs(input);
    let shell: ItemShell = match classify(rest) {
        Some(shell) => shell,
        None => {
            return Err(ExpandError::UnrecognizedItem);
        },
    };
    let (dlists, others) = partition_blocks(blocks);
    let entries: Vec<DeriveEntry> = match parse_all_lists(dlists) {
        Some(entries) => entries,
        None => {
            return Err(ExpandError::MalformedDerive);
        },
    };
    let (stds, macros) = classify_entries(entries);
    let e = Expansion { std_derives: stds, other_attrs: others, macro_derives: macros, shell };
    proof {
        assert(e@ =~~= expand_spec(input@)->Ok_0);
    }
    Ok(e)
}

} // verus!
