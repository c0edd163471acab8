//! Rendering tokens back to text, in a canonical spacing: sibling tokens
//! are separated by single spaces, group delimiters sit tight against
//! their contents, and a restricted visibility renders as `pub(...)`.

use vstd::prelude::*;

use crate::item::Vis;
use crate::item::VisModel;
use crate::token::Delim;
use crate::token::Tree;

verus! {

/// The opening character of a delimiter.
pub open spec fn delim_open(d: Delim) -> char {
    match d {
        Delim::Paren => '(',
        Delim::Bracket => '[',
        Delim::Brace => '{',
    }
}

/// The closing character of a delimiter.
pub open spec fn delim_close(d: Delim) -> char {
    match d {
        Delim::Paren => ')',
        Delim::Bracket => ']',
        Delim::Brace => '}',
    }
}

/// The text of one token tree: a group renders as its opening delimiter,
/// its contents, and its closing delimiter, with nothing in between.
pub open spec fn tree_text(t: Tree) -> Seq<char>
    decreases t,
{
    match t {
        Tree::Ident(s) => s@,
        Tree::Punct(c) => seq![c],
        Tree::Literal(s) => s@,
        Tree::Group(d, ts) => seq![delim_open(d)] + trees_text(ts@) + seq![delim_close(d)],
    }
}

/// The text of a token sequence: the trees' texts joined by single spaces.
pub open spec fn trees_text(s: Seq<Tree>) -> Seq<char>
    decreases s,
{
    if s.len() == 0 {
        Seq::empty()
    } else if s.len() == 1 {
        tree_text(s[0])
    } else {
        tree_text(s[0]) + seq![' '] + trees_text(s.skip(1))
    }
}

/// The text of a visibility qualifier: nothing, `pub`, or `pub(...)`.
pub open spec fn vis_text_spec(v: VisModel) -> Seq<char> {
    match v {
        VisModel::Inherited => Seq::empty(),
        VisModel::Pub => "pub"@,
        VisModel::Restricted(ts) => "pub("@ + trees_text(ts) + ")"@,
    }
}

/// Appending one more tree extends the joined text by a space and the
/// tree's own text.
proof fn lemma_trees_text_push(s: Seq<Tree>, x: Tree)
    requires
        s.len() >= 1,
    ensures
        trees_text(s.push(x)) == trees_text(s) + seq![' '] + tree_text(x),
    decreases s.len(),
{
    let joined = s.push(x);
    if s.len() == 1 {
        assert(joined.skip(1) =~= seq![x]);
        assert(trees_text(seq![x]) == tree_text(x));
        assert(joined[0] == s[0]);
        assert(trees_text(joined) == tree_text(s[0]) + seq![' '] + tree_text(x));
    } else {
        lemma_trees_text_push(s.skip(1), x);
        assert(joined.skip(1) =~= s.skip(1).push(x));
        assert(joined[0] == s[0]);
        assert(tree_text(s[0]) + seq![' '] + (trees_text(s.skip(1)) + seq![' '] + tree_text(x))
            =~= (tree_text(s[0]) + seq![' '] + trees_text(s.skip(1))) + seq![' '] + tree_text(x));
    }
}

/// Relies on `String::push`: it appends the given character to the end of
/// the string.
#[verifier::external_body]
fn push_char(out: &mut String, c: char)
    ensures
        final(out)@ == old(out)@.push(c),
{
    out.push(c);
}

/// The opening character of a delimiter.
fn open_char(d: &Delim) -> (c: char)
    ensures
        c == delim_open(*d),
{
    match d {
        Delim::Paren => '(',
        Delim::Bracket => '[',
        Delim::Brace => '{',
    }
}

/// The closing character of a delimiter.
fn close_char(d: &Delim) -> (c: char)
    ensures
        c == delim_close(*d),
{
    match d {
        Delim::Paren => ')',
        Delim::Bracket => ']',
        Delim::Brace => '}',
    }
}

/// Appends the text of one tree to `out`.
fn render_tree(t: &Tree, out: &mut String)
    ensures
        final(out)@ == old(out)@ + tree_text(*t),
    decreases *t,
{
    match t {
        Tree::Ident(s) => {
            out.append(s.as_str());
        },
        Tree::Punct(c) => {
            push_char(out, *c);
            proof {
                assert(old(out)@.push(*c) =~= old(out)@ + seq![*c]);
            }
        },
        Tree::Literal(s) => {
            out.append(s.as_str());
        },
        Tree::Group(d, ts) => {
            let o = open_char(d);
            push_char(out, o);
            let ghost mid1 = out@;
            render_trees(ts, out);
            let ghost mid2 = out@;
            let cc = close_char(d);
            push_char(out, cc);
            proof {
                assert(mid1 =~= old(out)@ + seq![delim_open(*d)]);
                assert(mid2 =~= mid1 + trees_text(ts@));
                assert(out@ =~= mid2.push(delim_close(*d)));
                assert(out@ =~= old(out)@ + (seq![delim_open(*d)] + trees_text(ts@) + seq![
                    delim_close(*d),
                ]));
            }
        },
    }
}

/// Appends the space-joined text of the trees to `out`.
fn render_trees(ts: &Vec<Tree>, out: &mut String)
    ensures
        final(out)@ == old(out)@ + trees_text(ts@),
    decreases ts@,
{
    let ghost orig = out@;
    let mut i: usize = 0;
    proof {
        assert(orig + trees_text(ts@.take(0)) =~= orig);
        assert(trees_text(ts@.take(0)) =~= Seq::<char>::empty());
    }
    while i < ts.len()
        invariant
            orig == old(out)@,
            i <= ts.len(),
            i == 0 ==> out@ == orig,
            i >= 1 ==> out@ == orig + trees_text(ts@.take(i as int)),
        decreases ts@.len() - i,
    {
        let ghost pre = out@;
        if i > 0 {
            push_char(out, ' ');
        }
        let ghost mid = out@;
        render_tree(&ts[i], out);
        proof {
            let tv = ts@.take(i as int);
            assert(ts@.take(i + 1).drop_last() =~= tv);
            assert(ts@.take(i + 1).last() == ts@[i as int]);
            if i == 0 {
                assert(ts@.take(1) =~= seq![ts@[0]]);
                assert(trees_text(seq![ts@[0]]) == tree_text(ts@[0]));
                assert(out@ =~= orig + trees_text(ts@.take(1)));
            } else {
                assert(tv.len() >= 1);
                assert(tv.push(ts@[i as int]) =~= ts@.take(i + 1));
                lemma_trees_text_push(tv, ts@[i as int]);
                assert(out@ =~= (orig + trees_text(tv)) + seq![' '] + tree_text(ts@[i as int]));
                assert(out@ =~= orig + (trees_text(tv) + seq![' '] + tree_text(ts@[i as int])));
            }
        }
        i = i + 1;
    }
    proof {
        assert(ts@.take(ts@.len() as int) =~= ts@);
    }
}

/// Renders a token sequence to text, the trees joined by single spaces.
pub fn tokens_text(ts: &Vec<Tree>) -> (r: String)
    ensures
        r@ == trees_text(ts@),
{
    let mut out = String::new();
    render_trees(ts, &mut out);
    proof {
        assert(Seq::<char>::empty() + trees_text(ts@) =~= trees_text(ts@));
    }
    out
}

/// Renders a visibility qualifier the way it is spelled in source: an
/// absent one renders as the empty string.
pub fn vis_text(v: &Vis) -> (r: String)
    ensures
        r@ == vis_text_spec(v@),
{
    match v {
        Vis::Inherited => {
            let r = String::new();
            r
        },
        Vis::Pub => {
            let mut r = String::new();
            r.append("pub");
            proof {
                assert(Seq::<char>::empty() + "pub"@ =~= "pub"@);
            }
            r
        },
        Vis::Restricted(ts) => {
            let mut r = String::new();
            r.append("pub(");
            let ghost mid = r@;
            render_trees(ts, &mut r);
            push_char(&mut r, ')');
            proof {
                reveal_strlit(")");
                assert(")"@ =~= seq![')']);
                assert(mid =~= Seq::<char>::empty() + "pub("@);
                assert(r@ =~= "pub("@ + trees_text(ts@) + ")"@);
            }
            r
        },
    }
}

} // verus!
