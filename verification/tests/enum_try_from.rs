use macro_attr_2018::Delim;
use macro_attr_2018::Tree;
use macro_attr_2018::expand;

fn ident(s: &str) -> Tree {
    Tree::Ident(s.to_string())
}

fn punct(c: char) -> Tree {
    Tree::Punct(c)
}

fn group(d: Delim, ts: Vec<Tree>) -> Tree {
    Tree::Group(d, ts)
}

/// What a `TryFrom!`-style derive macro does with the dispatched item:
/// map a primitive value to the variant with that position, or hand the
/// value back when no variant matches.
fn try_from_variant(body: &[Tree], src: u8) -> Result<String, u8> {
    let mut names = Vec::new();
    if let Some(Tree::Group(Delim::Brace, inner)) = body.get(1) {
        for t in inner {
            if let Tree::Ident(n) = t {
                names.push(n.clone());
            }
        }
    }
    match names.get(src as usize) {
        Some(n) => Ok(n.clone()),
        None => Err(src),
    }
}

#[test]
fn test_try_from() {
    let input = vec![
        punct('#'),
        group(
            Delim::Bracket,
            vec![
                ident("derive"),
                group(
                    Delim::Paren,
                    vec![
                        ident("Debug"),
                        punct(','),
                        ident("PartialEq"),
                        punct(','),
                        ident("TryFrom"),
                        punct('!'),
                        group(Delim::Paren, vec![ident("u8")]),
                    ],
                ),
            ],
        ),
        ident("enum"),
        ident("Get"),
        group(
            Delim::Brace,
            vec![
                ident("Up"),
                punct(','),
                ident("Down"),
                punct(','),
                ident("AllAround"),
            ],
        ),
    ];
    let e = expand(input).unwrap();
    assert_eq!(e.macro_derives.len(), 1);
    assert_eq!(e.macro_derives[0].name, "TryFrom");
    assert_eq!(e.macro_derives[0].args, vec![ident("u8")]);
    assert_eq!(try_from_variant(&e.shell.body, 0u8), Ok("Up".to_string()));
    assert_eq!(try_from_variant(&e.shell.body, 1u8), Ok("Down".to_string()));
    assert_eq!(try_from_variant(&e.shell.body, 2u8), Ok("AllAround".to_string()));
    assert_eq!(try_from_variant(&e.shell.body, 3u8), Err(3u8));
}
