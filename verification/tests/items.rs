use macro_attr_2018::Delim;
use macro_attr_2018::Kw;
use macro_attr_2018::Tree;
use macro_attr_2018::Vis;
use macro_attr_2018::emitted_item;
use macro_attr_2018::expand;

fn ident(s: &str) -> Tree {
    Tree::Ident(s.to_string())
}

fn punct(c: char) -> Tree {
    Tree::Punct(c)
}

fn group(d: Delim, ts: Vec<Tree>) -> Tree {
    Tree::Group(d, ts)
}

#[test]
fn test_items() {
    // An item with no attributes at all comes through unchanged, and
    // nothing is dispatched.
    let dummy_enum = || vec![ident("enum"), ident("DummyEnum"), group(Delim::Brace, vec![ident("V")])];
    let e = expand(dummy_enum()).unwrap();
    assert!(e.std_derives.is_empty());
    assert!(e.other_attrs.is_empty());
    assert!(e.macro_derives.is_empty());
    assert_eq!(e.shell.vis, Vis::Inherited);
    assert_eq!(e.shell.kw, Kw::Enum);
    assert_eq!(emitted_item(e), dummy_enum());

    let dummy_struct = || vec![ident("struct"), ident("DummyStruct"), punct(';')];
    let e = expand(dummy_struct()).unwrap();
    assert!(e.std_derives.is_empty());
    assert!(e.other_attrs.is_empty());
    assert!(e.macro_derives.is_empty());
    assert_eq!(e.shell.kw, Kw::Struct);
    assert_eq!(emitted_item(e), dummy_struct());
}
