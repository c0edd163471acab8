//! The derive classifier: parsing the contents of `derive(...)` attributes
//! into entries, and bucketing each entry as standard or macro-backed.

use vstd::prelude::*;

use crate::token::Delim;
use crate::token::Tree;
use crate::token::group_inner;
use crate::token::is_group;
use crate::token::is_punct;
use crate::token::tree_is_group;
use crate::token::tree_is_punct;

verus! {

/// One entry of a flattened derive list: a name, its optional argument
/// tokens, and whether the name carried the trailing `!` marker that asks
/// for macro dispatch.
#[derive(Debug, PartialEq, Eq)]
pub struct DeriveEntry {
    pub name: String,
    pub args: Option<Vec<Tree>>,
    pub marked: bool,
}

/// The mathematical value of a [`DeriveEntry`].
#[verifier::ext_equal]
pub struct EntryModel {
    pub name: Seq<char>,
    pub args: Option<Seq<Tree>>,
    pub marked: bool,
}

impl View for DeriveEntry {
    type V = EntryModel;

    open spec fn view(&self) -> EntryModel {
        EntryModel {
            name: self.name@,
            args: match self.args {
                Some(a) => Some(a@),
                None => None,
            },
            marked: self.marked,
        }
    }
}

/// One macro invocation to dispatch: the entry's name and its argument
/// tokens, normalized to the empty sequence when the entry had none.
#[derive(Debug, PartialEq, Eq)]
pub struct MacroEntry {
    pub name: String,
    pub args: Vec<Tree>,
}

/// The mathematical value of a [`MacroEntry`].
#[verifier::ext_equal]
pub struct MacroModel {
    pub name: Seq<char>,
    pub args: Seq<Tree>,
}

impl View for MacroEntry {
    type V = MacroModel;

    open spec fn view(&self) -> MacroModel {
        MacroModel { name: self.name@, args: self.args@ }
    }
}

/// The views of a sequence of parsed entries.
pub open spec fn entry_views(v: Seq<DeriveEntry>) -> Seq<EntryModel> {
    v.map_values(|e: DeriveEntry| e@)
}

/// The views of a sequence of macro invocations.
pub open spec fn macro_views(v: Seq<MacroEntry>) -> Seq<MacroModel> {
    v.map_values(|e: MacroEntry| e@)
}

/// How many tokens the entry at the head of `s` occupies: the name, the
/// optional `!` marker, and the optional parenthesized argument group.
pub open spec fn entry_end(s: Seq<Tree>) -> int {
    let i: int = if s.len() >= 2 && is_punct(s[1], '!') {
        2
    } else {
        1
    };
    if s.len() > i && is_group(s[i], Delim::Paren) {
        i + 1
    } else {
        i
    }
}

/// Whether the head of `s` spells one derive entry: a name, the optional
/// marker and argument group, followed by a comma or the end of the list.
pub open spec fn head_entry_ok(s: Seq<Tree>) -> bool {
    &&& s[0] matches Tree::Ident(_)
    &&& (s.len() == entry_end(s) || is_punct(s[entry_end(s)], ','))
}

/// The entry spelled at the head of `s`, meaningful when [`head_entry_ok`].
pub open spec fn head_entry(s: Seq<Tree>) -> EntryModel {
    let marked = s.len() >= 2 && is_punct(s[1], '!');
    let i: int = if marked {
        2
    } else {
        1
    };
    let has_args = s.len() > i && is_group(s[i], Delim::Paren);
    EntryModel {
        name: match s[0] {
            Tree::Ident(n) => n@,
            _ => Seq::empty(),
        },
        args: if has_args {
            Some(group_inner(s[i]))
        } else {
            None
        },
        marked,
    }
}

/// Parses one derive list into its entries, left to right.  Separators are
/// skipped as no-ops, so consecutive or trailing commas are tolerated; a
/// token sequence that spells no entry form at all is rejected.
pub open spec fn parse_entries(s: Seq<Tree>) -> Option<Seq<EntryModel>>
    decreases s.len(),
{
    if s.len() == 0 {
        Some(Seq::empty())
    } else if is_punct(s[0], ',') {
        parse_entries(s.skip(1))
    } else if head_entry_ok(s) && 1 <= entry_end(s) <= s.len() {
        match parse_entries(s.skip(entry_end(s))) {
            Some(rest) => Some(seq![head_entry(s)] + rest),
            None => None,
        }
    } else {
        None
    }
}

/// Parses several derive lists in order and concatenates their entries; an
/// entry never spans two lists.
pub open spec fn parse_entry_lists(lists: Seq<Seq<Tree>>) -> Option<Seq<EntryModel>>
    decreases lists.len(),
{
    if lists.len() == 0 {
        Some(Seq::empty())
    } else {
        match (parse_entries(lists[0]), parse_entry_lists(lists.skip(1))) {
            (Some(e), Some(rest)) => Some(e + rest),
            _ => None,
        }
    }
}

/// The unmarked entries of `es`, in order, arguments preserved.
pub open spec fn std_entries(es: Seq<EntryModel>) -> Seq<EntryModel>
    decreases es.len(),
{
    if es.len() == 0 {
        Seq::empty()
    } else {
        let front = std_entries(es.drop_last());
        if es.last().marked {
            front
        } else {
            front.push(es.last())
        }
    }
}

/// A marked entry's argument tokens, with an absent argument list read as
/// empty parentheses.
pub open spec fn normalized_args(args: Option<Seq<Tree>>) -> Seq<Tree> {
    match args {
        Some(a) => a,
        None => Seq::empty(),
    }
}

/// The marked entries of `es`, in order, as normalized macro invocations.
pub open spec fn macro_entries(es: Seq<EntryModel>) -> Seq<MacroModel>
    decreases es.len(),
{
    if es.len() == 0 {
        Seq::empty()
    } else {
        let front = macro_entries(es.drop_last());
        if es.last().marked {
            front.push(MacroModel { name: es.last().name, args: normalized_args(es.last().args) })
        } else {
            front
        }
    }
}

/// Consumes the contents of one `derive(...)` attribute and parses them
/// into entries, or reports `None` on a malformed list.
pub fn parse_entry_list(list: Vec<Tree>) -> (r: Option<Vec<DeriveEntry>>)
    ensures
        match r {
            Some(v) => parse_entries(list@) == Some(entry_views(v@)),
            None => parse_entries(list@) is None,
        },
{
    let ghost s0 = list@;
    let mut t = list;
    let mut acc: Vec<DeriveEntry> = Vec::new();
    proof {
        assert(entry_views(acc@) =~= Seq::<EntryModel>::empty());
        assert(entry_views(acc@) + parse_entries(t@)->0 =~= parse_entries(t@)->0);
    }
    while t.len() > 0
        invariant
            s0 == list@,
            parse_entries(s0) is Some <==> parse_entries(t@) is Some,
            parse_entries(t@) is Some ==> parse_entries(s0)->0 == entry_views(acc@)
                + parse_entries(t@)->0,
        decreases t@.len(),
    {
        let ghost before = t@;
        if tree_is_punct(&t[0], ',') {
            let _c = t.remove(0);
            proof {
                assert(t@ =~= before.skip(1));
                assert(parse_entries(before) == parse_entries(t@));
            }
            continue ;
        }
        let head_is_ident = match &t[0] {
            Tree::Ident(_) => true,
            _ => false,
        };
        if !head_is_ident {
            proof {
                assert(!head_entry_ok(before));
                assert(parse_entries(before) is None);
                assert(parse_entries(s0) is None);
            }
            return None;
        }
        let tok = t.remove(0);
        let name: String = match tok {
            Tree::Ident(s) => s,
            _ => unreached(),
        };
        proof {
            assert(t@ =~= before.skip(1));
            assert(before.skip(1).len() == before.len() - 1);
        }
        let marked = t.len() >= 1 && tree_is_punct(&t[0], '!');
        proof {
            if t@.len() >= 1 {
                assert(before.skip(1)[0] == before[1]);
            }
            assert(marked == (before.len() >= 2 && is_punct(before[1], '!')));
        }
        if marked {
            let _bang = t.remove(0);
            proof {
                assert(t@ =~= before.skip(2));
            }
        }
        let ghost i: int = if marked {
            2
        } else {
            1
        };
        proof {
            assert(t@ =~= before.skip(i));
            if t@.len() >= 1 {
                assert(before.skip(i)[0] == before[i]);
            }
        }
        let has_args = t.len() >= 1 && tree_is_group(&t[0], Delim::Paren);
        proof {
            assert(has_args == (before.len() > i && is_group(before[i], Delim::Paren)));
            assert(entry_end(before) == if has_args {
                i + 1
            } else {
                i
            });
        }
        let args: Option<Vec<Tree>> = if has_args {
            let g = t.remove(0);
            match g {
                Tree::Group(_, inner) => Some(inner),
                _ => unreached(),
            }
        } else {
            None
        };
        let ghost end = entry_end(before);
        proof {
            assert(t@ =~= before.skip(end));
            if t@.len() >= 1 {
                assert(before.skip(end)[0] == before[end]);
            }
        }
        if t.len() > 0 && !tree_is_punct(&t[0], ',') {
            proof {
                assert(!head_entry_ok(before));
                assert(parse_entries(before) is None);
                assert(parse_entries(s0) is None);
            }
            return None;
        }
        let e = DeriveEntry { name, args, marked };
        proof {
            assert(head_entry_ok(before));
            assert(e@ == head_entry(before));
            assert(parse_entries(before) is Some <==> parse_entries(t@) is Some);
            if parse_entries(t@) is Some {
                let r = parse_entries(t@)->0;
                assert(parse_entries(before)->0 == seq![e@] + r);
                assert(entry_views(acc@.push(e)) =~= entry_views(acc@).push(e@));
                assert(entry_views(acc@) + (seq![e@] + r) =~= entry_views(acc@.push(e)) + r);
            }
        }
        acc.push(e);
    }
    proof {
        assert(parse_entries(t@) == Some(Seq::<EntryModel>::empty()));
        assert(parse_entries(s0) is Some);
        assert(entry_views(acc@) + Seq::<EntryModel>::empty() =~= entry_views(acc@));
        assert(parse_entries(s0) == Some(entry_views(acc@)));
    }
    Some(acc)
}

/// Consumes a parsed entry list and buckets it: the unmarked entries keep
/// their shape for the synthesized derive attribute, the marked entries
/// become normalized macro invocations, each bucket in source order.
pub fn classify_entries(entries: Vec<DeriveEntry>) -> (r: (Vec<DeriveEntry>, Vec<MacroEntry>))
    ensures
        entry_views(r.0@) == std_entries(entry_views(entries@)),
        macro_views(r.1@) == macro_entries(entry_views(entries@)),
{
    let ghost all = entry_views(entries@);
    let mut rest = entries;
    let mut stds: Vec<DeriveEntry> = Vec::new();
    let mut macros: Vec<MacroEntry> = Vec::new();
    let ghost mut done: Seq<EntryModel> = Seq::empty();
    proof {
        assert(all =~= done + entry_views(rest@));
        assert(entry_views(stds@) =~= std_entries(done));
        assert(macro_views(macros@) =~= macro_entries(done));
    }
    while rest.len() > 0
        invariant
            all == done + entry_views(rest@),
            entry_views(stds@) == std_entries(done),
            macro_views(macros@) == macro_entries(done),
        decreases rest@.len(),
    {
        let ghost before = rest@;
        let e = rest.remove(0);
        proof {
            assert(rest@ =~= before.skip(1));
            assert(entry_views(before)[0] == e@);
            assert(entry_views(before) =~= seq![e@] + entry_views(rest@));
            assert(done.push(e@) + entry_views(rest@) =~= done + entry_views(before));
            assert((done.push(e@)).drop_last() =~= done);
            assert((done.push(e@)).last() == e@);
        }
        if e.marked {
            let args: Vec<Tree> = match e.args {
                Some(a) => a,
                None => Vec::new(),
            };
            let m = MacroEntry { name: e.name, args };
            proof {
                assert(m@ == MacroModel { name: e@.name, args: normalized_args(e@.args) });
                assert(macro_views(macros@.push(m)) =~= macro_views(macros@).push(m@));
                assert(macro_entries(done.push(e@)) == macro_entries(done).push(m@));
            }
            macros.push(m);
        } else {
            proof {
                assert(entry_views(stds@.push(e)) =~= entry_views(stds@).push(e@));
                assert(std_entries(done.push(e@)) == std_entries(done).push(e@));
            }
            stds.push(e);
        }
        proof {
            done = done.push(e@);
        }
    }
    proof {
        assert(entry_views(rest@) =~= Seq::<EntryModel>::empty());
        assert(done =~= all);
    }
    (stds, macros)
}

} // verus!
