//! The laws the rewrite obeys, stated over the mathematical model and
//! proved once and for all.

use vstd::prelude::*;

use crate::derive::EntryModel;
use crate::derive::parse_entries;
use crate::derive::MacroModel;
use crate::derive::macro_entries;
use crate::derive::normalized_args;
use crate::derive::parse_entry_lists;
use crate::derive::std_entries;
use crate::expand::ExpModel;
use crate::expand::ExpandError;
use crate::emit::derive_attr_len;
use crate::emit::is_attr_block_tokens;
use crate::emit::is_attr_list_tokens;
use crate::emit::is_derive_attr_tokens;
use crate::emit::is_emitted_item_tokens;
use crate::emit::is_invocation_tokens;
use crate::emit::is_entry_list_tokens;
use crate::emit::is_entry_tokens;
use crate::emit::is_shell_tokens;
use crate::emit::is_vis_tokens;
use crate::emit::entry_token_len;
use crate::emit::kw_text;
use crate::emit::vis_token_len;
use crate::expand::attr_blocks;
use crate::expand::is_attr_start;
use crate::expand::derive_lists;
use crate::expand::expand_spec;
use crate::expand::is_derive_block;
use crate::expand::other_blocks;
use crate::expand::rest_after_attrs;
use crate::item::Kw;
use crate::item::ShellModel;
use crate::item::VisModel;
use crate::item::classify_spec;
use crate::item::keyword_of;
use crate::item::vis_model_of;
use crate::item::vis_token_count;
use crate::token::Tree;
use crate::token::group_inner;
use crate::token::is_ident;
use crate::token::is_punct;

verus! {

/// The macro invocation a marked entry turns into.
pub open spec fn invocation_of(e: EntryModel) -> MacroModel {
    MacroModel { name: e.name, args: normalized_args(e.args) }
}

/// The marked entries of `es`, in order.
pub open spec fn marked_entries(es: Seq<EntryModel>) -> Seq<EntryModel>
    decreases es.len(),
{
    if es.len() == 0 {
        Seq::empty()
    } else {
        let front = marked_entries(es.drop_last());
        if es.last().marked {
            front.push(es.last())
        } else {
            front
        }
    }
}

/// The derive entries an input carries, flattened across all its
/// `derive(...)` attributes in order; meaningful when the input expands
/// successfully.
pub open spec fn input_entries(s: Seq<Tree>) -> Seq<EntryModel> {
    parse_entry_lists(derive_lists(attr_blocks(s)))->0
}

/// The dispatched invocations are exactly the marked entries, in order,
/// each with its arguments normalized.
proof fn lemma_macro_entries_from_marked(es: Seq<EntryModel>)
    ensures
        macro_entries(es) == marked_entries(es).map_values(|e: EntryModel| invocation_of(e)),
    decreases es.len(),
{
    if es.len() == 0 {
        assert(macro_entries(es) =~= marked_entries(es).map_values(
            |e: EntryModel| invocation_of(e),
        ));
    } else {
        lemma_macro_entries_from_marked(es.drop_last());
        let front = marked_entries(es.drop_last());
        if es.last().marked {
            assert(marked_entries(es) == front.push(es.last()));
            assert(marked_entries(es).map_values(|e: EntryModel| invocation_of(e))
                =~= front.map_values(|e: EntryModel| invocation_of(e)).push(
                invocation_of(es.last()),
            ));
            assert(macro_entries(es) =~= marked_entries(es).map_values(
                |e: EntryModel| invocation_of(e),
            ));
        } else {
            assert(macro_entries(es) =~= marked_entries(es).map_values(
                |e: EntryModel| invocation_of(e),
            ));
        }
    }
}

/// Derive count conservation: a successful expansion dispatches exactly
/// one invocation per marked entry of the input, no matter how the entries
/// were split across `derive(...)` attributes.
pub proof fn lemma_derive_count_conservation(s: Seq<Tree>, m: ExpModel)
    requires
        expand_spec(s) == Ok::<ExpModel, ExpandError>(m),
    ensures
        m.macro_derives.len() == marked_entries(input_entries(s)).len(),
{
    lemma_macro_entries_from_marked(input_entries(s));
}

/// Dispatch order: the `i`-th dispatched invocation names the `i`-th
/// marked entry of the input, in source order.
pub proof fn lemma_dispatch_order(s: Seq<Tree>, m: ExpModel, i: int)
    requires
        expand_spec(s) == Ok::<ExpModel, ExpandError>(m),
        0 <= i < marked_entries(input_entries(s)).len(),
    ensures
        m.macro_derives.len() == marked_entries(input_entries(s)).len(),
        m.macro_derives[i].name == marked_entries(input_entries(s))[i].name,
{
    lemma_macro_entries_from_marked(input_entries(s));
}

/// Argument normalization: a marked entry invoked without parentheses is
/// dispatched with the empty argument tuple, and one invoked with
/// parentheses holding tokens `ts` is dispatched with exactly `ts`.
pub proof fn lemma_argument_normalization(s: Seq<Tree>, m: ExpModel, i: int)
    requires
        expand_spec(s) == Ok::<ExpModel, ExpandError>(m),
        0 <= i < marked_entries(input_entries(s)).len(),
    ensures
        marked_entries(input_entries(s))[i].args is None ==> m.macro_derives[i].args
            == Seq::<Tree>::empty(),
        forall|ts: Seq<Tree>|
            marked_entries(input_entries(s))[i].args == Some(ts) ==> m.macro_derives[i].args == ts,
{
    lemma_macro_entries_from_marked(input_entries(s));
}

/// Visibility propagation: a successful expansion keeps the declared
/// visibility qualifier verbatim in the shell, which both the emitted item
/// and every dispatched invocation carry.
pub proof fn lemma_visibility_propagation(s: Seq<Tree>, m: ExpModel)
    requires
        expand_spec(s) == Ok::<ExpModel, ExpandError>(m),
    ensures
        m.shell.vis == vis_model_of(rest_after_attrs(s)),
{
}

/// Visibility propagation at the token level: the item the emitter lays
/// out retains the shell's visibility qualifier unchanged, in place after
/// the attributes.
pub proof fn lemma_emitted_item_visibility(m: ExpModel, out: Seq<Tree>)
    requires
        is_emitted_item_tokens(m, out),
    ensures
        is_vis_tokens(
            m.shell.vis,
            out.skip(derive_attr_len(m.std_derives) + 2 * m.other_attrs.len()).take(
                vis_token_len(m.shell.vis),
            ),
        ),
{
}

/// Visibility propagation at the token level: every dispatched invocation
/// receives the shell's visibility qualifier verbatim, right after the
/// argument tuple.
pub proof fn lemma_invocation_visibility(inv: MacroModel, sh: ShellModel, toks: Seq<Tree>)
    requires
        is_invocation_tokens(inv, sh, toks),
    ensures
        is_vis_tokens(sh.vis, toks.skip(1).take(vis_token_len(sh.vis))),
{
}

/// Every entry kept for the synthesized derive attribute is unmarked.
proof fn lemma_std_entries_unmarked(es: Seq<EntryModel>)
    ensures
        forall|i: int|
            0 <= i < std_entries(es).len() ==> !(#[trigger] std_entries(es)[i]).marked,
    decreases es.len(),
{
    if es.len() > 0 {
        lemma_std_entries_unmarked(es.drop_last());
        let front = std_entries(es.drop_last());
        if !es.last().marked {
            assert(std_entries(es) == front.push(es.last()));
            assert forall|i: int|
                0 <= i < std_entries(es).len() implies !(#[trigger] std_entries(es)[i]).marked by {
                if i < front.len() {
                    assert(std_entries(es)[i] == front[i]);
                } else {
                    assert(std_entries(es)[i] == es.last());
                }
            }
        }
    }
}

/// Every pass-through attribute block is something other than a
/// `derive(...)` attribute.
proof fn lemma_other_blocks_not_derive(blocks: Seq<Seq<Tree>>)
    ensures
        forall|i: int|
            0 <= i < other_blocks(blocks).len() ==> !is_derive_block(
                #[trigger] other_blocks(blocks)[i],
            ),
    decreases blocks.len(),
{
    if blocks.len() > 0 {
        lemma_other_blocks_not_derive(blocks.drop_last());
        let front = other_blocks(blocks.drop_last());
        if !is_derive_block(blocks.last()) {
            assert(other_blocks(blocks) == front.push(blocks.last()));
            assert forall|i: int|
                0 <= i < other_blocks(blocks).len() implies !is_derive_block(
                #[trigger] other_blocks(blocks)[i],
            ) by {
                if i < front.len() {
                    assert(other_blocks(blocks)[i] == front[i]);
                } else {
                    assert(other_blocks(blocks)[i] == blocks.last());
                }
            }
        }
    }
}

/// What every successful expansion looks like: only unmarked entries in
/// the synthesized derive list, no `derive(...)` among the pass-through
/// attributes, and a nonempty body.
pub open spec fn wf_expansion(m: ExpModel) -> bool {
    &&& forall|i: int|
        0 <= i < m.std_derives.len() ==> !(#[trigger] m.std_derives[i]).marked
    &&& forall|i: int|
        0 <= i < m.other_attrs.len() ==> !is_derive_block(#[trigger] m.other_attrs[i])
    &&& m.shell.body.len() >= 1
}

/// A successful expansion is well formed.
pub proof fn lemma_expansion_wf(s: Seq<Tree>, m: ExpModel)
    requires
        expand_spec(s) == Ok::<ExpModel, ExpandError>(m),
    ensures
        wf_expansion(m),
{
    lemma_std_entries_unmarked(input_entries(s));
    lemma_other_blocks_not_derive(attr_blocks(s));
}

/// Stripping attributes from an emitted attribute list followed by
/// anything else recovers exactly those blocks, and leaves the tail.
proof fn lemma_attr_list_strip(bs: Seq<Seq<Tree>>, apart: Seq<Tree>, tail: Seq<Tree>)
    requires
        is_attr_list_tokens(bs, apart),
    ensures
        attr_blocks(apart + tail) == bs + attr_blocks(tail),
        rest_after_attrs(apart + tail) == rest_after_attrs(tail),
    decreases bs.len(),
{
    if bs.len() == 0 {
        assert(apart + tail =~= tail);
        assert(bs + attr_blocks(tail) =~= attr_blocks(tail));
    } else {
        let w = apart + tail;
        assert(is_attr_block_tokens(bs[0], apart.take(2)));
        assert(apart.take(2)[0] == apart[0]);
        assert(apart.take(2)[1] == apart[1]);
        assert(w[0] == apart[0]);
        assert(w[1] == apart[1]);
        assert(is_attr_start(w));
        assert(group_inner(w[1]) == bs[0]);
        assert(w.skip(2) =~= apart.skip(2) + tail);
        lemma_attr_list_strip(bs.skip(1), apart.skip(2), tail);
        assert(attr_blocks(w) == seq![bs[0]] + attr_blocks(w.skip(2)));
        assert(seq![bs[0]] + (bs.skip(1) + attr_blocks(tail)) =~= bs + attr_blocks(tail));
        assert(rest_after_attrs(w) == rest_after_attrs(w.skip(2)));
    }
}

/// An emitted shell classifies back to exactly the shell it came from.
proof fn lemma_shell_classify(sh: ShellModel, out: Seq<Tree>)
    requires
        is_shell_tokens(sh, out),
        sh.body.len() >= 1,
    ensures
        classify_spec(out) == Some(sh),
{
    reveal_strlit("pub");
    reveal_strlit("enum");
    reveal_strlit("struct");
    reveal_strlit("trait");
    assert("pub"@.len() == 3);
    assert("enum"@.len() == 4);
    assert("struct"@.len() == 6);
    assert("trait"@.len() == 5);
    let k = vis_token_len(sh.vis);
    assert(is_ident(out[k], kw_text(sh.kw)));
    match sh.vis {
        VisModel::Inherited => {
            assert(!is_ident(out[0], "pub"@));
            assert(vis_token_count(out) == 0);
        },
        VisModel::Pub => {
            assert(is_vis_tokens(sh.vis, out.take(1)));
            assert(out.take(1)[0] == out[0]);
            assert(is_ident(out[0], "pub"@));
            assert(out[1] matches Tree::Ident(_));
            assert(vis_token_count(out) == 1);
        },
        VisModel::Restricted(ts) => {
            assert(is_vis_tokens(sh.vis, out.take(2)));
            assert(out.take(2)[0] == out[0]);
            assert(out.take(2)[1] == out[1]);
            assert(is_ident(out[0], "pub"@));
            assert(out[1] matches Tree::Group(crate::token::Delim::Paren, _));
            assert(vis_token_count(out) == 2);
            assert(vis_model_of(out) == VisModel::Restricted(group_inner(out[1])));
            assert(group_inner(out[1]) == ts);
        },
    }
    assert(vis_token_count(out) == k);
    assert(vis_model_of(out) == sh.vis);
    match sh.kw {
        Kw::Enum => {
            assert(keyword_of(out[k]) == Some(Kw::Enum));
        },
        Kw::Struct => {
            assert(!is_ident(out[k], "enum"@));
            assert(keyword_of(out[k]) == Some(Kw::Struct));
        },
        Kw::Trait => {
            assert(!is_ident(out[k], "enum"@));
            assert(!is_ident(out[k], "struct"@));
            assert(keyword_of(out[k]) == Some(Kw::Trait));
        },
    }
    assert(out.len() > k + 1);
    assert(classify_spec(out) is Some);
    assert(classify_spec(out)->0 =~= sh);
    assert(classify_spec(out) == Some(sh));
}

/// An emitted entry list of unmarked entries parses back to exactly those
/// entries.
proof fn lemma_entry_list_parse(es: Seq<EntryModel>, out: Seq<Tree>)
    requires
        is_entry_list_tokens(es, out),
        forall|i: int| 0 <= i < es.len() ==> !(#[trigger] es[i]).marked,
    ensures
        parse_entries(out) == Some(es),
    decreases es.len(),
{
    if es.len() == 0 {
        assert(parse_entries(out) == Some(Seq::<EntryModel>::empty()));
        assert(Seq::<EntryModel>::empty() =~= es);
    } else {
        let e = es[0];
        let n = entry_token_len(e);
        let etok = if es.len() == 1 {
            out
        } else {
            out.take(n)
        };
        assert(is_entry_tokens(e, etok));
        assert(etok[0] == out[0]);
        if n == 2 {
            assert(etok[1] == out[1]);
        }
        assert(out[0] matches Tree::Ident(_));
        assert(!is_punct(out[0], ','));
        if es.len() == 1 {
            assert(out.len() == n);
            match e.args {
                None => {
                    assert(crate::derive::entry_end(out) == 1);
                },
                Some(a) => {
                    assert(!is_punct(out[1], '!'));
                    assert(crate::derive::entry_end(out) == 2);
                },
            }
            assert(crate::derive::entry_end(out) == n);
            assert(crate::derive::head_entry_ok(out));
            assert(crate::derive::head_entry(out) =~= e);
            assert(out.skip(n).len() == 0);
            assert(parse_entries(out.skip(n)) == Some(Seq::<EntryModel>::empty()));
            assert(parse_entries(out) == Some(
                seq![crate::derive::head_entry(out)] + Seq::<EntryModel>::empty(),
            ));
            assert(seq![crate::derive::head_entry(out)] + Seq::<EntryModel>::empty() =~= es);
        } else {
            assert(out.len() >= n + 2);
            assert(is_punct(out[n], ','));
            match e.args {
                None => {
                    assert(n == 1);
                    assert(!is_punct(out[1], '!'));
                    assert(crate::derive::entry_end(out) == 1);
                },
                Some(a) => {
                    assert(n == 2);
                    assert(!is_punct(out[1], '!'));
                    assert(crate::derive::entry_end(out) == 2);
                },
            }
            assert(crate::derive::head_entry_ok(out));
            assert(crate::derive::head_entry(out) =~= e);
            assert(out.skip(n)[0] == out[n]);
            assert(is_punct(out.skip(n)[0], ','));
            assert(out.skip(n).skip(1) =~= out.skip(n + 1));
            assert forall|i: int| 0 <= i < es.skip(1).len() implies !(#[trigger] es.skip(1)[i]).marked by {
                assert(es.skip(1)[i] == es[i + 1]);
            }
            lemma_entry_list_parse(es.skip(1), out.skip(n + 1));
            assert(parse_entries(out.skip(n)) == parse_entries(out.skip(n).skip(1)));
            assert(parse_entries(out.skip(n)) == Some(es.skip(1)));
            assert(parse_entries(out) == Some(seq![crate::derive::head_entry(out)] + es.skip(1)));
            assert(seq![crate::derive::head_entry(out)] + es.skip(1) =~= es);
        }
    }
}

/// A nonempty emitted entry list occupies at least one token.
proof fn lemma_entry_list_tokens_nonempty(es: Seq<EntryModel>, out: Seq<Tree>)
    requires
        is_entry_list_tokens(es, out),
        es.len() >= 1,
    ensures
        out.len() >= 1,
{
}

/// Partitioning a lone derive block followed by non-derive blocks keeps
/// exactly that derive list and exactly those other blocks.
proof fn lemma_partition_single_derive(db: Seq<Tree>, others: Seq<Seq<Tree>>)
    requires
        is_derive_block(db),
        forall|i: int| 0 <= i < others.len() ==> !is_derive_block(#[trigger] others[i]),
    ensures
        derive_lists(seq![db] + others) == seq![group_inner(db[1])],
        other_blocks(seq![db] + others) == others,
    decreases others.len(),
{
    let w = seq![db] + others;
    if others.len() == 0 {
        assert(w =~= seq![db]);
        assert(w.len() == 1);
        assert(w.drop_last() =~= Seq::<Seq<Tree>>::empty());
        assert(derive_lists(w.drop_last()) =~= Seq::<Seq<Tree>>::empty());
        assert(other_blocks(w.drop_last()) =~= Seq::<Seq<Tree>>::empty());
        assert(w.last() == db);
        assert(derive_lists(w) =~= seq![group_inner(db[1])]);
        assert(other_blocks(w) =~= others);
    } else {
        assert forall|i: int|
            0 <= i < others.drop_last().len() implies !is_derive_block(
            #[trigger] others.drop_last()[i],
        ) by {
            assert(others.drop_last()[i] == others[i]);
        }
        lemma_partition_single_derive(db, others.drop_last());
        assert(w.drop_last() =~= seq![db] + others.drop_last());
        assert(w.last() == others.last());
        assert(!is_derive_block(w.last()));
        assert(derive_lists(w) == derive_lists(w.drop_last()));
        assert(other_blocks(w) == other_blocks(w.drop_last()).push(others.last()));
        assert(others.drop_last().push(others.last()) =~= others);
    }
}

/// Partitioning blocks none of which is a derive block yields no derive
/// list and all the blocks on the other side.
proof fn lemma_partition_no_derive(others: Seq<Seq<Tree>>)
    requires
        forall|i: int| 0 <= i < others.len() ==> !is_derive_block(#[trigger] others[i]),
    ensures
        derive_lists(others) == Seq::<Seq<Tree>>::empty(),
        other_blocks(others) == others,
    decreases others.len(),
{
    if others.len() == 0 {
    } else {
        assert forall|i: int|
            0 <= i < others.drop_last().len() implies !is_derive_block(
            #[trigger] others.drop_last()[i],
        ) by {
            assert(others.drop_last()[i] == others[i]);
        }
        lemma_partition_no_derive(others.drop_last());
        assert(!is_derive_block(others.last()));
        assert(other_blocks(others) == others.drop_last().push(others.last()));
        assert(others.drop_last().push(others.last()) =~= others);
    }
}

/// Classifying entries that are all unmarked keeps them all as standard
/// entries and dispatches nothing.
proof fn lemma_unmarked_classify(es: Seq<EntryModel>)
    requires
        forall|i: int| 0 <= i < es.len() ==> !(#[trigger] es[i]).marked,
    ensures
        std_entries(es) == es,
        macro_entries(es) == Seq::<MacroModel>::empty(),
    decreases es.len(),
{
    if es.len() == 0 {
        assert(std_entries(es) =~= es);
    } else {
        assert forall|i: int|
            0 <= i < es.drop_last().len() implies !(#[trigger] es.drop_last()[i]).marked by {
            assert(es.drop_last()[i] == es[i]);
        }
        lemma_unmarked_classify(es.drop_last());
        assert(!es.last().marked);
        assert(std_entries(es) == es.drop_last().push(es.last()));
        assert(es.drop_last().push(es.last()) =~= es);
    }
}

/// Idempotence of pass-through attributes: re-expanding the item emitted
/// for an expansion that dispatched nothing gives back that very
/// expansion — the standard derives merged into the one synthesized list
/// in original order, duplicates preserved, every other attribute and the
/// body verbatim.
#[verifier::rlimit(100)]
pub proof fn lemma_passthrough_idempotent(m: ExpModel, out: Seq<Tree>)
    requires
        wf_expansion(m),
        m.macro_derives.len() == 0,
        is_emitted_item_tokens(m, out),
    ensures
        expand_spec(out) == Ok::<ExpModel, ExpandError>(m),
{
    let i = derive_attr_len(m.std_derives);
    let j = i + 2 * m.other_attrs.len();
    let dpart = out.take(i);
    let apart = out.subrange(i, j);
    let spart = out.skip(j);
    assert(apart + spart =~= out.skip(i));
    assert(out =~= dpart + (apart + spart));
    assert(is_shell_tokens(m.shell, spart));
    let k = vis_token_len(m.shell.vis);
    match m.shell.vis {
        VisModel::Inherited => {
            assert(is_ident(spart[0], kw_text(m.shell.kw)));
        },
        VisModel::Pub => {
            assert(is_vis_tokens(m.shell.vis, spart.take(1)));
            assert(spart.take(1)[0] == spart[0]);
            assert(spart[0] matches Tree::Ident(_));
        },
        VisModel::Restricted(_) => {
            assert(is_vis_tokens(m.shell.vis, spart.take(2)));
            assert(spart.take(2)[0] == spart[0]);
            assert(spart[0] matches Tree::Ident(_));
        },
    }
    assert(!is_punct(spart[0], '#'));
    assert(!is_attr_start(spart));
    assert(attr_blocks(spart) == Seq::<Seq<Tree>>::empty());
    assert(rest_after_attrs(spart) == spart);
    lemma_shell_classify(m.shell, spart);
    let entries: Seq<EntryModel> = m.std_derives;
    if m.std_derives.len() == 0 {
        assert(dpart.len() == 0);
        assert(out =~= apart + spart);
        lemma_attr_list_strip(m.other_attrs, apart, spart);
        assert(attr_blocks(out) == m.other_attrs + attr_blocks(spart));
        assert(m.other_attrs + Seq::<Seq<Tree>>::empty() =~= m.other_attrs);
        assert(attr_blocks(out) == m.other_attrs);
        assert(rest_after_attrs(out) == spart);
        lemma_partition_no_derive(m.other_attrs);
        assert(parse_entry_lists(Seq::<Seq<Tree>>::empty()) == Some(Seq::<EntryModel>::empty()));
        assert(entries =~= Seq::<EntryModel>::empty());
        assert(parse_entry_lists(derive_lists(attr_blocks(out))) == Some(entries));
    } else {
        assert(is_derive_attr_tokens(m.std_derives, dpart));
        let db = group_inner(dpart[1]);
        assert(is_attr_block_tokens(db, dpart));
        assert(dpart.take(2) =~= dpart);
        assert((seq![db])[0] == db);
        assert((seq![db]).skip(1) =~= Seq::<Seq<Tree>>::empty());
        assert(dpart.skip(2) =~= Seq::<Tree>::empty());
        assert(is_attr_list_tokens((seq![db]).skip(1), dpart.skip(2)));
        assert(is_attr_list_tokens(seq![db], dpart));
        lemma_attr_list_strip(seq![db], dpart, apart + spart);
        lemma_attr_list_strip(m.other_attrs, apart, spart);
        assert(attr_blocks(apart + spart) == m.other_attrs + attr_blocks(spart));
        assert(attr_blocks(out) == seq![db] + attr_blocks(apart + spart));
        assert(m.other_attrs + Seq::<Seq<Tree>>::empty() =~= m.other_attrs);
        assert(attr_blocks(out) == seq![db] + m.other_attrs);
        assert(rest_after_attrs(out) == rest_after_attrs(apart + spart));
        assert(rest_after_attrs(out) == spart);
        assert(db.len() == 2);
        assert(is_ident(db[0], "derive"@));
        let inner = group_inner(db[1]);
        assert(is_entry_list_tokens(m.std_derives, inner));
        lemma_entry_list_tokens_nonempty(m.std_derives, inner);
        assert(is_derive_block(db));
        lemma_partition_single_derive(db, m.other_attrs);
        assert(derive_lists(attr_blocks(out)) == seq![inner]);
        assert(other_blocks(attr_blocks(out)) == m.other_attrs);
        lemma_entry_list_parse(m.std_derives, inner);
        assert((seq![inner])[0] == inner);
        assert((seq![inner]).skip(1) =~= Seq::<Seq<Tree>>::empty());
        assert(parse_entry_lists((seq![inner]).skip(1)) == Some(Seq::<EntryModel>::empty()));
        assert(parse_entry_lists(seq![inner]) == Some(entries + Seq::<EntryModel>::empty()));
        assert(entries + Seq::<EntryModel>::empty() =~= entries);
        assert(parse_entry_lists(derive_lists(attr_blocks(out))) == Some(entries));
    }
    if m.std_derives.len() == 0 {
        lemma_partition_no_derive(m.other_attrs);
        assert(other_blocks(attr_blocks(out)) == m.other_attrs);
    }
    lemma_unmarked_classify(entries);
    assert(std_entries(entries) == m.std_derives);
    assert(macro_entries(entries) =~= m.macro_derives);
    assert(classify_spec(rest_after_attrs(out)) == Some(m.shell));
    assert(expand_spec(out) is Ok);
    assert(expand_spec(out)->Ok_0 =~= m);
    assert(expand_spec(out) == Ok::<ExpModel, ExpandError>(m));
}


} // verus!
