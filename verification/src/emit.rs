//! The emitter: turning an expansion back into token trees — the
//! synthesized item, and the token form handed to each dispatched macro.

use vstd::prelude::*;

use crate::derive::DeriveEntry;
use crate::derive::EntryModel;
use crate::derive::MacroEntry;
use crate::derive::MacroModel;
use crate::derive::entry_views;
use crate::expand::ExpModel;
use crate::expand::Expansion;
use crate::expand::block_views;
use crate::item::ItemShell;
use crate::item::Kw;
use crate::item::ShellModel;
use crate::item::Vis;
use crate::item::VisModel;
use crate::token::Delim;
use crate::token::Tree;
use crate::token::group_inner;
use crate::token::is_ident;
use crate::token::is_punct;

verus! {

/// The characters an item keyword spells.
pub open spec fn kw_text(k: Kw) -> Seq<char> {
    match k {
        Kw::Enum => "enum"@,
        Kw::Struct => "struct"@,
        Kw::Trait => "trait"@,
    }
}

/// How many tokens a visibility qualifier occupies when emitted.
pub open spec fn vis_token_len(v: VisModel) -> int {
    match v {
        VisModel::Inherited => 0,
        VisModel::Pub => 1,
        VisModel::Restricted(_) => 2,
    }
}

/// `out` spells the visibility qualifier `v`, verbatim.
pub open spec fn is_vis_tokens(v: VisModel, out: Seq<Tree>) -> bool {
    match v {
        VisModel::Inherited => out.len() == 0,
        VisModel::Pub => out.len() == 1 && is_ident(out[0], "pub"@),
        VisModel::Restricted(ts) => {
            &&& out.len() == 2
            &&& is_ident(out[0], "pub"@)
            &&& out[1] matches Tree::Group(Delim::Paren, inner) && inner@ == ts
        },
    }
}

/// `out` spells the bare item: visibility, keyword, then the body verbatim.
pub open spec fn is_shell_tokens(sh: ShellModel, out: Seq<Tree>) -> bool {
    let k = vis_token_len(sh.vis);
    &&& out.len() == k + 1 + sh.body.len()
    &&& is_vis_tokens(sh.vis, out.take(k))
    &&& is_ident(out[k], kw_text(sh.kw))
    &&& out.skip(k + 1) == sh.body
}

/// How many tokens one derive entry occupies when emitted.
pub open spec fn entry_token_len(e: EntryModel) -> int {
    match e.args {
        Some(_) => 2,
        None => 1,
    }
}

/// `out` spells one derive entry: its name, then its argument group when it
/// has one, the argument tokens verbatim.
pub open spec fn is_entry_tokens(e: EntryModel, out: Seq<Tree>) -> bool {
    match e.args {
        None => out.len() == 1 && is_ident(out[0], e.name),
        Some(a) => {
            &&& out.len() == 2
            &&& is_ident(out[0], e.name)
            &&& out[1] matches Tree::Group(Delim::Paren, inner) && inner@ == a
        },
    }
}

/// `out` spells the entries of `es` in order, separated by single commas.
pub open spec fn is_entry_list_tokens(es: Seq<EntryModel>, out: Seq<Tree>) -> bool
    decreases es.len(),
{
    if es.len() == 0 {
        out.len() == 0
    } else if es.len() == 1 {
        is_entry_tokens(es[0], out)
    } else {
        let n = entry_token_len(es[0]);
        &&& out.len() >= n + 2
        &&& is_entry_tokens(es[0], out.take(n))
        &&& is_punct(out[n], ',')
        &&& is_entry_list_tokens(es.skip(1), out.skip(n + 1))
    }
}

/// `out` spells one attribute block `#[...]` whose contents are `b`.
pub open spec fn is_attr_block_tokens(b: Seq<Tree>, out: Seq<Tree>) -> bool {
    &&& out.len() == 2
    &&& is_punct(out[0], '#')
    &&& out[1] matches Tree::Group(Delim::Bracket, inner) && inner@ == b
}

/// `out` spells the blocks of `bs` in order, each as `#[...]`.
pub open spec fn is_attr_list_tokens(bs: Seq<Seq<Tree>>, out: Seq<Tree>) -> bool
    decreases bs.len(),
{
    if bs.len() == 0 {
        out.len() == 0
    } else {
        &&& out.len() >= 2
        &&& is_attr_block_tokens(bs[0], out.take(2))
        &&& is_attr_list_tokens(bs.skip(1), out.skip(2))
    }
}

/// How many tokens the synthesized derive attribute occupies: none at all
/// when there is no standard entry to carry.
pub open spec fn derive_attr_len(es: Seq<EntryModel>) -> int {
    if es.len() == 0 {
        0
    } else {
        2
    }
}

/// `out` spells the synthesized `#[derive(...)]` listing the entries of
/// `es`, or nothing when `es` is empty.
pub open spec fn is_derive_attr_tokens(es: Seq<EntryModel>, out: Seq<Tree>) -> bool {
    if es.len() == 0 {
        out.len() == 0
    } else {
        &&& out.len() == 2
        &&& is_punct(out[0], '#')
        &&& out[1] matches Tree::Group(Delim::Bracket, battr) && {
            let bt = battr@;
            &&& bt.len() == 2
            &&& is_ident(bt[0], "derive"@)
            &&& bt[1] matches Tree::Group(Delim::Paren, inner) && is_entry_list_tokens(
                es,
                inner@,
            )
        }
    }
}

/// `out` spells the emitted item: the synthesized derive attribute first,
/// then every pass-through attribute in original order, then the shell.
pub open spec fn is_emitted_item_tokens(m: ExpModel, out: Seq<Tree>) -> bool {
    let i = derive_attr_len(m.std_derives);
    let j = i + 2 * m.other_attrs.len();
    &&& out.len() >= j
    &&& is_derive_attr_tokens(m.std_derives, out.take(i))
    &&& is_attr_list_tokens(m.other_attrs, out.subrange(i, j))
    &&& is_shell_tokens(m.shell, out.skip(j))
}

/// `out` spells what one dispatched macro receives: the normalized argument
/// tuple, then the bare item with no attributes.
pub open spec fn is_invocation_tokens(inv: MacroModel, sh: ShellModel, out: Seq<Tree>) -> bool {
    &&& out.len() >= 1
    &&& out[0] matches Tree::Group(Delim::Paren, a) && a@ == inv.args
    &&& is_shell_tokens(sh, out.skip(1))
}

/// Joining one more entry, after a comma, onto an emitted entry list keeps
/// it an emitted entry list.
proof fn lemma_entry_list_push(es: Seq<EntryModel>, out: Seq<Tree>, e: EntryModel, etok: Seq<Tree>)
    requires
        es.len() >= 1,
        is_entry_list_tokens(es, out),
        is_entry_tokens(e, etok),
    ensures
        is_entry_list_tokens(es.push(e), out + seq![Tree::Punct(',')] + etok),
    decreases es.len(),
{
    let joined = out + seq![Tree::Punct(',')] + etok;
    let n = entry_token_len(es[0]);
    if es.len() == 1 {
        assert(out.len() == n);
        assert(joined.take(n) =~= out);
        assert(is_punct(joined[n], ','));
        assert(joined.skip(n + 1) =~= etok);
        assert((es.push(e)).skip(1) =~= seq![e]);
        assert(is_entry_list_tokens(seq![e], etok));
    } else {
        assert(is_entry_tokens(es[0], out.take(n)));
        lemma_entry_list_push(es.skip(1), out.skip(n + 1), e, etok);
        assert((es.push(e)).skip(1) =~= es.skip(1).push(e));
        assert(joined.take(n) =~= out.take(n));
        assert(is_punct(joined[n], ','));
        assert(joined.skip(n + 1) =~= out.skip(n + 1) + seq![Tree::Punct(',')] + etok);
    }
}

/// Appending one more `#[...]` block onto an emitted attribute list keeps
/// it an emitted attribute list.
proof fn lemma_attr_list_push(bs: Seq<Seq<Tree>>, out: Seq<Tree>, b: Seq<Tree>, g: Tree)
    requires
        is_attr_list_tokens(bs, out),
        g matches Tree::Group(Delim::Bracket, _),
        group_inner(g) == b,
    ensures
        is_attr_list_tokens(bs.push(b), out + seq![Tree::Punct('#'), g]),
    decreases bs.len(),
{
    let joined = out + seq![Tree::Punct('#'), g];
    assert((bs.push(b)).len() == bs.len() + 1);
    if bs.len() == 0 {
        assert((bs.push(b))[0] == b);
        assert(joined.len() == 2);
        assert(is_attr_block_tokens(b, joined.take(2)));
        assert(joined.skip(2) =~= Seq::<Tree>::empty());
        assert((bs.push(b)).skip(1) =~= Seq::<Seq<Tree>>::empty());
        assert(is_attr_list_tokens((bs.push(b)).skip(1), joined.skip(2)));
        assert(is_attr_list_tokens(bs.push(b), joined));
    } else {
        assert((bs.push(b))[0] == bs[0]);
        assert(is_attr_block_tokens(bs[0], out.take(2)));
        lemma_attr_list_push(bs.skip(1), out.skip(2), b, g);
        assert((bs.push(b)).skip(1) =~= bs.skip(1).push(b));
        assert(joined.take(2) =~= out.take(2));
        assert(joined.skip(2) =~= out.skip(2) + seq![Tree::Punct('#'), g]);
        assert(is_attr_list_tokens((bs.push(b)).skip(1), joined.skip(2)));
        assert(is_attr_list_tokens(bs.push(b), joined));
    }
}

/// Consumes the standard entries and lays them out comma-separated, as the
/// synthesized derive attribute holds them.
fn entry_list_tokens(entries: Vec<DeriveEntry>) -> (out: Vec<Tree>)
    ensures
        is_entry_list_tokens(entry_views(entries@), out@),
{
    let ghost all = entry_views(entries@);
    let mut rest = entries;
    let mut out: Vec<Tree> = Vec::new();
    let ghost mut done: Seq<EntryModel> = Seq::empty();
    proof {
        assert(all =~= done + entry_views(rest@));
    }
    while rest.len() > 0
        invariant
            all == done + entry_views(rest@),
            is_entry_list_tokens(done, out@),
        decreases rest@.len(),
    {
        let ghost before = rest@;
        let e = rest.remove(0);
        let ghost ev = e@;
        proof {
            assert(rest@ =~= before.skip(1));
            assert(entry_views(before)[0] == ev);
            assert(entry_views(before) =~= seq![ev] + entry_views(rest@));
            assert(done.push(ev) + entry_views(rest@) =~= done + entry_views(before));
        }
        let ghost outbase = out@;
        if out.len() > 0 {
            out.push(Tree::Punct(','));
        }
        let ghost mid = out@;
        let DeriveEntry { name, args, marked: _ } = e;
        out.push(Tree::Ident(name));
        match args {
            Some(a) => {
                out.push(Tree::Group(Delim::Paren, a));
            },
            None => {},
        }
        proof {
            let etok = out@.skip(mid.len() as int);
            assert(out@.skip(mid.len() as int) == etok);
            assert(is_entry_tokens(ev, etok));
            if done.len() == 0 {
                assert(outbase.len() == 0);
                assert(mid =~= outbase);
                assert(out@ =~= etok);
                assert((done.push(ev)).len() == 1);
                assert((done.push(ev))[0] == ev);
                assert(is_entry_list_tokens(done.push(ev), out@));
            } else {
                assert(outbase.len() > 0);
                assert(mid =~= outbase + seq![Tree::Punct(',')]);
                lemma_entry_list_push(done, outbase, ev, etok);
                assert(out@ =~= outbase + seq![Tree::Punct(',')] + etok);
            }
            done = done.push(ev);
        }
    }
    proof {
        assert(entry_views(rest@) =~= Seq::<EntryModel>::empty());
        assert(done =~= all);
    }
    out
}

/// Consumes a shell and lays it out as tokens: visibility, keyword, body.
pub fn shell_tokens(shell: ItemShell) -> (out: Vec<Tree>)
    ensures
        is_shell_tokens(shell@, out@),
{
    let ghost m = shell@;
    let ItemShell { vis, kw, body } = shell;
    let mut out: Vec<Tree> = Vec::new();
    match vis {
        Vis::Inherited => {},
        Vis::Pub => {
            out.push(Tree::Ident(String::from_str("pub")));
        },
        Vis::Restricted(ts) => {
            out.push(Tree::Ident(String::from_str("pub")));
            out.push(Tree::Group(Delim::Paren, ts));
        },
    }
    let ghost k = vis_token_len(m.vis);
    proof {
        assert(out@.len() == k);
        assert(is_vis_tokens(m.vis, out@));
    }
    let kword: &str = match kw {
        Kw::Enum => "enum",
        Kw::Struct => "struct",
        Kw::Trait => "trait",
    };
    out.push(Tree::Ident(String::from_str(kword)));
    let mut body = body;
    let ghost pre = out@;
    out.append(&mut body);
    proof {
        assert(out@.take(k) =~= pre.take(k));
        assert(is_vis_tokens(m.vis, out@.take(k)));
        assert(out@[k] == pre[k]);
        assert(is_ident(out@[k], kw_text(m.kw)));
        assert(out@.skip(k + 1) =~= m.body);
    }
    out
}

/// Consumes an expansion and emits the rewritten item: the synthesized
/// `#[derive(...)]` with the standard entries (omitted when there are
/// none), the pass-through attributes in original order, and the untouched
/// shell.  This is the single item the rewrite emits; the macro invocations
/// in `macro_derives` are dispatched separately and never see these
/// attributes.
pub fn emitted_item(e: Expansion) -> (out: Vec<Tree>)
    ensures
        is_emitted_item_tokens(e@, out@),
{
    let ghost m = e@;
    let Expansion { std_derives, other_attrs, macro_derives: _, shell } = e;
    let mut out: Vec<Tree> = Vec::new();
    let ghost dlen = derive_attr_len(m.std_derives);
    if std_derives.len() > 0 {
        let inner = entry_list_tokens(std_derives);
        let mut battr: Vec<Tree> = Vec::new();
        battr.push(Tree::Ident(String::from_str("derive")));
        battr.push(Tree::Group(Delim::Paren, inner));
        out.push(Tree::Punct('#'));
        out.push(Tree::Group(Delim::Bracket, battr));
    }
    proof {
        assert(out@.len() == dlen);
        assert(is_derive_attr_tokens(m.std_derives, out@));
    }
    let ghost dpart = out@;
    let mut rest = other_attrs;
    let ghost mut done: Seq<Seq<Tree>> = Seq::empty();
    proof {
        assert(m.other_attrs =~= done + block_views(rest@));
        assert(out@.skip(dlen) =~= Seq::<Tree>::empty());
        assert(is_attr_list_tokens(done, out@.skip(dlen)));
    }
    while rest.len() > 0
        invariant
            m.other_attrs == done + block_views(rest@),
            out@.len() == dlen + 2 * done.len(),
            dlen == derive_attr_len(m.std_derives),
            out@.take(dlen) == dpart,
            is_derive_attr_tokens(m.std_derives, dpart),
            is_attr_list_tokens(done, out@.skip(dlen)),
        decreases rest@.len(),
    {
        let ghost before = rest@;
        let ghost outpre = out@;
        let b = rest.remove(0);
        let ghost bv = b@;
        proof {
            assert(rest@ =~= before.skip(1));
            assert(block_views(before)[0] == bv);
            assert(block_views(before) =~= seq![bv] + block_views(rest@));
            assert(done.push(bv) + block_views(rest@) =~= done + block_views(before));
        }
        out.push(Tree::Punct('#'));
        out.push(Tree::Group(Delim::Bracket, b));
        proof {
            let g = Tree::Group(Delim::Bracket, b);
            assert(out@ =~= outpre + seq![Tree::Punct('#'), g]);
            assert(out@.take(dlen) =~= outpre.take(dlen));
            lemma_attr_list_push(done, outpre.skip(dlen), bv, g);
            assert(out@.skip(dlen) =~= outpre.skip(dlen) + seq![Tree::Punct('#'), g]);
            done = done.push(bv);
        }
    }
    proof {
        assert(block_views(rest@) =~= Seq::<Seq<Tree>>::empty());
        assert(done =~= m.other_attrs);
    }
    let ghost apart = out@;
    let mut st = shell_tokens(shell);
    let ghost stv = st@;
    out.append(&mut st);
    proof {
        let j = dlen + 2 * m.other_attrs.len();
        assert(apart.len() == j);
        assert(out@ =~= apart + stv);
        assert(out@.take(dlen) =~= apart.take(dlen));
        assert(out@.subrange(dlen, j) =~= apart.skip(dlen));
        assert(out@.skip(j) =~= stv);
    }
    out
}

/// Consumes one macro invocation and its shell and lays out the tokens the
/// dispatched macro receives: `(args)` followed by the bare item.
pub fn invocation_tokens(inv: MacroEntry, shell: ItemShell) -> (out: Vec<Tree>)
    ensures
        is_invocation_tokens(inv@, shell@, out@),
{
    let ghost iv = inv@;
    let ghost sv = shell@;
    let MacroEntry { name: _, args } = inv;
    let mut out: Vec<Tree> = Vec::new();
    out.push(Tree::Group(Delim::Paren, args));
    let mut st = shell_tokens(shell);
    let ghost stv = st@;
    out.append(&mut st);
    proof {
        assert(out@.skip(1) =~= stv);
    }
    out
}

} // verus!
