use macro_attr_2018::Delim;
use macro_attr_2018::ExpandError;
use macro_attr_2018::ItemShell;
use macro_attr_2018::Kw;
use macro_attr_2018::Tree;
use macro_attr_2018::Vis;
use macro_attr_2018::emitted_item;
use macro_attr_2018::expand;
use macro_attr_2018::invocation_tokens;
use macro_attr_2018::tokens_text;
use macro_attr_2018::vis_text;

fn ident(s: &str) -> Tree {
    Tree::Ident(s.to_string())
}

fn punct(c: char) -> Tree {
    Tree::Punct(c)
}

fn literal(s: &str) -> Tree {
    Tree::Literal(s.to_string())
}

fn group(d: Delim, ts: Vec<Tree>) -> Tree {
    Tree::Group(d, ts)
}

fn attr(ts: Vec<Tree>) -> Vec<Tree> {
    vec![punct('#'), group(Delim::Bracket, ts)]
}

/// `#[derive(Copy, Name!(42), Clone, Other!)] struct Foo;` emits
/// `#[derive(Copy, Clone)] struct Foo;` and then dispatches `Name` with
/// `(42)` and `Other` with `()`, in that order.
#[test]
fn test_mixed_derives_scenario() {
    let input = || {
        let mut t = attr(vec![
            ident("derive"),
            group(
                Delim::Paren,
                vec![
                    ident("Copy"),
                    punct(','),
                    ident("Name"),
                    punct('!'),
                    group(Delim::Paren, vec![literal("42")]),
                    punct(','),
                    ident("Clone"),
                    punct(','),
                    ident("Other"),
                    punct('!'),
                ],
            ),
        ]);
        t.push(ident("struct"));
        t.push(ident("Foo"));
        t.push(punct(';'));
        t
    };
    let e = expand(input()).unwrap();
    assert_eq!(e.macro_derives.len(), 2);
    assert_eq!(e.macro_derives[0].name, "Name");
    assert_eq!(e.macro_derives[0].args, vec![literal("42")]);
    assert_eq!(e.macro_derives[1].name, "Other");
    assert_eq!(e.macro_derives[1].args, vec![]);
    let expected_emit = {
        let mut t = attr(vec![
            ident("derive"),
            group(Delim::Paren, vec![ident("Copy"), punct(','), ident("Clone")]),
        ]);
        t.push(ident("struct"));
        t.push(ident("Foo"));
        t.push(punct(';'));
        t
    };
    assert_eq!(emitted_item(e), expected_emit);
    // What the first invocation receives: `(42) struct Foo;`.
    let e = expand(input()).unwrap();
    let shell = e.shell;
    let inv = e.macro_derives.into_iter().next().unwrap();
    let toks = invocation_tokens(inv, shell);
    assert_eq!(
        toks,
        vec![group(Delim::Paren, vec![literal("42")]), ident("struct"), ident("Foo"), punct(';')]
    );
}

/// Marked entries keep their order even when split across several
/// `derive(...)` attributes interleaved with other attributes, and the
/// standard entries are merged into one list in original order.
#[test]
fn test_split_derive_attributes() {
    let mut input = attr(vec![
        ident("derive"),
        group(Delim::Paren, vec![ident("Copy"), punct(','), ident("First"), punct('!')]),
    ]);
    input.extend(attr(vec![ident("repr"), group(Delim::Paren, vec![ident("u16")])]));
    input.extend(attr(vec![
        ident("derive"),
        group(Delim::Paren, vec![ident("Second"), punct('!'), punct(','), ident("Clone")]),
    ]));
    input.push(ident("enum"));
    input.push(ident("E"));
    input.push(group(Delim::Brace, vec![ident("A")]));
    let e = expand(input).unwrap();
    assert_eq!(e.macro_derives.len(), 2);
    assert_eq!(e.macro_derives[0].name, "First");
    assert_eq!(e.macro_derives[1].name, "Second");
    let std_names: Vec<&str> = e.std_derives.iter().map(|d| d.name.as_str()).collect();
    assert_eq!(std_names, vec!["Copy", "Clone"]);
    assert_eq!(
        e.other_attrs,
        vec![vec![ident("repr"), group(Delim::Paren, vec![ident("u16")])]]
    );
}

/// Consecutive and trailing separators between derive entries are
/// skipped as no-ops.
#[test]
fn test_separator_tolerance() {
    let mut input = attr(vec![
        ident("derive"),
        group(
            Delim::Paren,
            vec![
                ident("A"),
                punct(','),
                punct(','),
                ident("B"),
                punct('!'),
                punct(','),
            ],
        ),
    ]);
    input.push(ident("struct"));
    input.push(ident("S"));
    input.push(punct(';'));
    let e = expand(input).unwrap();
    let std_names: Vec<&str> = e.std_derives.iter().map(|d| d.name.as_str()).collect();
    assert_eq!(std_names, vec!["A"]);
    assert_eq!(e.macro_derives.len(), 1);
    assert_eq!(e.macro_derives[0].name, "B");
}

/// An empty `derive()` is no derive list: it passes through verbatim like
/// any other attribute.
#[test]
fn test_empty_derive_passes_through() {
    let mut input = attr(vec![ident("derive"), group(Delim::Paren, vec![])]);
    input.push(ident("struct"));
    input.push(ident("S"));
    input.push(punct(';'));
    let e = expand(input).unwrap();
    assert!(e.std_derives.is_empty());
    assert!(e.macro_derives.is_empty());
    assert_eq!(e.other_attrs, vec![vec![ident("derive"), group(Delim::Paren, vec![])]]);
}

/// Inputs that spell no recognized item form are rejected.
#[test]
fn test_unrecognized_item() {
    // An unsupported keyword.
    let r = expand(vec![ident("fn"), ident("f"), group(Delim::Paren, vec![])]);
    assert_eq!(r.unwrap_err(), ExpandError::UnrecognizedItem);
    // A keyword with nothing after it.
    let r = expand(vec![ident("struct")]);
    assert_eq!(r.unwrap_err(), ExpandError::UnrecognizedItem);
    // Nothing at all.
    let r = expand(vec![]);
    assert_eq!(r.unwrap_err(), ExpandError::UnrecognizedItem);
    // A stray token where the item should begin.
    let r = expand(vec![punct(';'), ident("struct"), ident("S"), punct(';')]);
    assert_eq!(r.unwrap_err(), ExpandError::UnrecognizedItem);
}

/// Derive lists whose contents spell no entry form are rejected.
#[test]
fn test_malformed_derive() {
    let build = |entries: Vec<Tree>| {
        let mut t = attr(vec![ident("derive"), group(Delim::Paren, entries)]);
        t.push(ident("struct"));
        t.push(ident("S"));
        t.push(punct(';'));
        t
    };
    // A literal is no derive entry.
    let r = expand(build(vec![literal("42")]));
    assert_eq!(r.unwrap_err(), ExpandError::MalformedDerive);
    // A doubled marker is not accepted.
    let r = expand(build(vec![ident("Name"), punct('!'), punct('!')]));
    assert_eq!(r.unwrap_err(), ExpandError::MalformedDerive);
    // Two entries need a separator.
    let r = expand(build(vec![ident("A"), ident("B")]));
    assert_eq!(r.unwrap_err(), ExpandError::MalformedDerive);
}

/// A marked entry without parentheses is dispatched with the empty
/// argument tuple; with parentheses, the tokens inside come through
/// unmodified.
#[test]
fn test_argument_normalization() {
    let mut input = attr(vec![
        ident("derive"),
        group(
            Delim::Paren,
            vec![
                ident("NoArgs"),
                punct('!'),
                punct(','),
                ident("WithArgs"),
                punct('!'),
                group(Delim::Paren, vec![ident("a"), punct(','), literal("7")]),
            ],
        ),
    ]);
    input.push(ident("trait"));
    input.push(ident("T"));
    input.push(group(Delim::Brace, vec![]));
    let e = expand(input).unwrap();
    assert_eq!(e.shell.kw, Kw::Trait);
    assert_eq!(e.macro_derives.len(), 2);
    assert_eq!(e.macro_derives[0].args, vec![]);
    assert_eq!(e.macro_derives[1].args, vec![ident("a"), punct(','), literal("7")]);
}

/// Duplicate entries, standard or macro-backed, are legal: each one is
/// kept, and each marked one is dispatched independently.
#[test]
fn test_duplicate_entries() {
    let mut input = attr(vec![
        ident("derive"),
        group(
            Delim::Paren,
            vec![
                ident("Clone"),
                punct(','),
                ident("Clone"),
                punct(','),
                ident("Dup"),
                punct('!'),
                punct(','),
                ident("Dup"),
                punct('!'),
            ],
        ),
    ]);
    input.push(ident("struct"));
    input.push(ident("S"));
    input.push(punct(';'));
    let e = expand(input).unwrap();
    let std_names: Vec<&str> = e.std_derives.iter().map(|d| d.name.as_str()).collect();
    assert_eq!(std_names, vec!["Clone", "Clone"]);
    let macro_names: Vec<&str> = e.macro_derives.iter().map(|m| m.name.as_str()).collect();
    assert_eq!(macro_names, vec!["Dup", "Dup"]);
}

/// The canonical text rendering, and the visibility rendering the
/// original spells with `stringify!`.
#[test]
fn test_text_rendering() {
    let toks = vec![
        ident("struct"),
        ident("Foo"),
        group(Delim::Brace, vec![ident("x"), punct(':'), ident("u32")]),
    ];
    assert_eq!(tokens_text(&toks), "struct Foo {x : u32}");
    assert_eq!(vis_text(&Vis::Inherited), "");
    assert_eq!(vis_text(&Vis::Pub), "pub");
    assert_eq!(vis_text(&Vis::Restricted(vec![ident("crate")])), "pub(crate)");
    assert_eq!(
        vis_text(&Vis::Restricted(vec![ident("in"), ident("crate")])),
        "pub(in crate)"
    );
}

/// The tokens handed to an invocation carry the restricted visibility
/// verbatim.
#[test]
fn test_invocation_carries_visibility() {
    let shell = ItemShell {
        vis: Vis::Restricted(vec![ident("crate")]),
        kw: Kw::Enum,
        body: vec![ident("E"), group(Delim::Brace, vec![])],
    };
    let inv = macro_attr_2018::MacroEntry { name: "M".to_string(), args: vec![] };
    let toks = invocation_tokens(inv, shell);
    assert_eq!(
        toks,
        vec![
            group(Delim::Paren, vec![]),
            ident("pub"),
            group(Delim::Paren, vec![ident("crate")]),
            ident("enum"),
            ident("E"),
            group(Delim::Brace, vec![]),
        ]
    );
}
