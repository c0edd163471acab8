use macro_attr_2018::Delim;
use macro_attr_2018::Tree;
use macro_attr_2018::expand;
use macro_attr_2018::vis_text;

fn ident(s: &str) -> Tree {
    Tree::Ident(s.to_string())
}

fn punct(c: char) -> Tree {
    Tree::Punct(c)
}

fn group(d: Delim, ts: Vec<Tree>) -> Tree {
    Tree::Group(d, ts)
}

/// `#[derive(<marker_name>!)] <vis tokens> <kind> <name> {}`, expanded, with
/// the visibility the dispatched invocation receives rendered back to text.
fn dispatched_vis(marker_name: &str, vis: Vec<Tree>, kind: &str, name: &str) -> String {
    let mut input = vec![
        punct('#'),
        group(
            Delim::Bracket,
            vec![
                ident("derive"),
                group(Delim::Paren, vec![ident(marker_name), punct('!')]),
            ],
        ),
    ];
    input.extend(vis);
    input.push(ident(kind));
    input.push(ident(name));
    input.push(group(Delim::Brace, vec![]));
    let e = expand(input).unwrap();
    assert_eq!(e.macro_derives.len(), 1);
    assert_eq!(e.macro_derives[0].name, marker_name);
    vis_text(&e.shell.vis)
}

fn no_vis() -> Vec<Tree> {
    vec![]
}

fn pub_vis() -> Vec<Tree> {
    vec![ident("pub")]
}

fn crate_vis() -> Vec<Tree> {
    vec![ident("pub"), group(Delim::Paren, vec![ident("crate")])]
}

#[test]
fn test_vis() {
    assert_eq!("", dispatched_vis("UseVis", no_vis(), "enum", "PrivE"));
    assert_eq!("pub", dispatched_vis("UseVis", pub_vis(), "enum", "PubE"));
    assert_eq!("pub(crate)", dispatched_vis("UseVis", crate_vis(), "enum", "CrateE"));
    assert_eq!("", dispatched_vis("UseVis", no_vis(), "struct", "PrivS"));
    assert_eq!("pub", dispatched_vis("UseVis", pub_vis(), "struct", "PubS"));
    assert_eq!("pub(crate)", dispatched_vis("UseVis", crate_vis(), "struct", "CrateS"));
}

#[test]
fn test_vis_tt() {
    assert_eq!("", dispatched_vis("UseVisTT", no_vis(), "enum", "PrivETT"));
    assert_eq!("pub", dispatched_vis("UseVisTT", pub_vis(), "enum", "PubETT"));
    assert_eq!("pub(crate)", dispatched_vis("UseVisTT", crate_vis(), "enum", "CrateETT"));
    assert_eq!("", dispatched_vis("UseVisTT", no_vis(), "struct", "PrivSTT"));
    assert_eq!("pub", dispatched_vis("UseVisTT", pub_vis(), "struct", "PubSTT"));
    assert_eq!("pub(crate)", dispatched_vis("UseVisTT", crate_vis(), "struct", "CrateSTT"));
}

#[test]
fn test_nested_vis() {
    assert_eq!("", dispatched_vis("UseVis", no_vis(), "enum", "NestedPrivE"));
    assert_eq!("pub", dispatched_vis("UseVis", pub_vis(), "enum", "NestedPubE"));
    assert_eq!("pub(crate)", dispatched_vis("UseVis", crate_vis(), "enum", "NestedCrateE"));
    assert_eq!("", dispatched_vis("UseVis", no_vis(), "struct", "NestedPrivS"));
    assert_eq!("pub", dispatched_vis("UseVis", pub_vis(), "struct", "NestedPubS"));
    assert_eq!("pub(crate)", dispatched_vis("UseVis", crate_vis(), "struct", "NestedCrateS"));
}

#[test]
fn test_nested_vis_tt() {
    assert_eq!("", dispatched_vis("UseVisTT", no_vis(), "enum", "NestedPrivTTE"));
    assert_eq!("pub", dispatched_vis("UseVisTT", pub_vis(), "enum", "NestedPubTTE"));
    assert_eq!("pub(crate)", dispatched_vis("UseVisTT", crate_vis(), "enum", "NestedCrateTTE"));
    assert_eq!("", dispatched_vis("UseVisTT", no_vis(), "struct", "NestedPrivTTS"));
    assert_eq!("pub", dispatched_vis("UseVisTT", pub_vis(), "struct", "NestedPubTTS"));
    assert_eq!("pub(crate)", dispatched_vis("UseVisTT", crate_vis(), "struct", "NestedCrateTTS"));
}
