use macro_attr_2018::Delim;
use macro_attr_2018::Tree;
use macro_attr_2018::expand;

fn ident(s: &str) -> Tree {
    Tree::Ident(s.to_string())
}

fn punct(c: char) -> Tree {
    Tree::Punct(c)
}

fn group(d: Delim, ts: Vec<Tree>) -> Tree {
    Tree::Group(d, ts)
}

/// What a variant-iterating derive macro does with the dispatched item:
/// collect the variant names out of the enum body it receives.
fn collect_variants(body: &[Tree]) -> Vec<String> {
    let mut names = Vec::new();
    if let Some(Tree::Group(Delim::Brace, inner)) = body.get(1) {
        for t in inner {
            if let Tree::Ident(n) = t {
                names.push(n.clone());
            }
        }
    }
    names
}

#[test]
fn test_enum_iterator() {
    let input = vec![
        punct('#'),
        group(
            Delim::Bracket,
            vec![
                ident("derive"),
                group(
                    Delim::Paren,
                    vec![
                        ident("Debug"),
                        punct(','),
                        ident("PartialEq"),
                        punct(','),
                        ident("EnumIterator"),
                        punct('!'),
                    ],
                ),
            ],
        ),
        ident("enum"),
        ident("Get"),
        group(
            Delim::Brace,
            vec![
                ident("Up"),
                punct(','),
                ident("Down"),
                punct(','),
                ident("AllAround"),
            ],
        ),
    ];
    let e = expand(input).unwrap();
    assert_eq!(e.macro_derives.len(), 1);
    assert_eq!(e.macro_derives[0].name, "EnumIterator");
    assert!(e.macro_derives[0].args.is_empty());
    let names = collect_variants(&e.shell.body);
    let variants: Vec<usize> = (0..names.len()).collect();
    let vs: Vec<_> = names.iter().map(|n| n.as_str()).zip(variants).collect();
    assert_eq!(&*vs, &[("Up", 0), ("Down", 1), ("AllAround", 2)]);
}
