use macro_attr_2018::Delim;
use macro_attr_2018::Tree;
use macro_attr_2018::Vis;
use macro_attr_2018::emitted_item;
use macro_attr_2018::expand;

fn ident(s: &str) -> Tree {
    Tree::Ident(s.to_string())
}

fn punct(c: char) -> Tree {
    Tree::Punct(c)
}

fn group(d: Delim, ts: Vec<Tree>) -> Tree {
    Tree::Group(d, ts)
}

fn derive_names(names: &[&str]) -> Vec<Tree> {
    let mut entries = Vec::new();
    for (i, n) in names.iter().enumerate() {
        if i > 0 {
            entries.push(punct(','));
        }
        entries.push(ident(n));
    }
    vec![ident("derive"), group(Delim::Paren, entries)]
}

#[test]
fn test_passthru_derive() {
    // `#[derive(Clone, Hash, PartialEq, Eq, PartialOrd, Ord, Debug,
    // Default, Copy)] pub struct Dummy(u32);` passes through: one
    // synthesized derive attribute listing all nine, in order, and no
    // dispatch.
    let names = ["Clone", "Hash", "PartialEq", "Eq", "PartialOrd", "Ord", "Debug", "Default",
        "Copy"];
    let input = || {
        vec![
            punct('#'),
            group(Delim::Bracket, derive_names(&names)),
            ident("pub"),
            ident("struct"),
            ident("Dummy"),
            group(Delim::Paren, vec![ident("u32")]),
            punct(';'),
        ]
    };
    let e = expand(input()).unwrap();
    assert_eq!(e.std_derives.len(), 9);
    for (d, n) in e.std_derives.iter().zip(names.iter()) {
        assert_eq!(&d.name, n);
        assert!(d.args.is_none());
        assert!(!d.marked);
    }
    assert!(e.other_attrs.is_empty());
    assert!(e.macro_derives.is_empty());
    assert_eq!(e.shell.vis, Vis::Pub);
    // Emitting and re-expanding changes nothing further.
    let emitted = emitted_item(e);
    assert_eq!(emitted, input());
    let e2 = expand(emitted).unwrap();
    assert_eq!(e2, expand(input()).unwrap());
}
