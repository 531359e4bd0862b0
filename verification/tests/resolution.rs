//! Out-of-line module resolution: the file convention, explicit source
//! tags, missing fragments, and the cycle guard.
use amphi::ast::{Item, ItemMod, Tag};
use amphi::resolve::{resolve_mod, Fragment, Resolution, ResolveError};

fn tag(name: &str, arg: &str) -> Tag {
    Tag {
        name: name.to_string(),
        arg: arg.to_string(),
    }
}

fn module(name: &str, tags: Vec<Tag>, content: Option<Vec<Item>>) -> ItemMod {
    ItemMod {
        tags,
        name: name.to_string(),
        content,
    }
}

fn root_with(items: Vec<Item>) -> ItemMod {
    module("root", vec![], Some(items))
}

fn frag(path: &str, items: Option<Vec<Item>>) -> Fragment {
    Fragment {
        path: path.to_string(),
        items,
    }
}

fn typedef(name: &str) -> Item {
    Item::TypeDef(vec![], name.to_string())
}

/// An out-of-line module `sub` under base path `src/root` first asks for
/// `src/root/sub.rs` and `src/root/sub/mod.rs`.
#[test]
fn convention_paths_are_requested() {
    let root = root_with(vec![Item::Mod(module("sub", vec![], None))]);
    let base = "src".to_string();
    let out = resolve_mod(&root, &base, &vec![]);
    assert_eq!(
        out,
        Ok(Resolution::Need(vec![
            "src/root/sub.rs".to_string(),
            "src/root/sub/mod.rs".to_string(),
        ]))
    );
}

/// The direct file wins when it exists.
#[test]
fn direct_file_resolves() {
    let root = root_with(vec![Item::Mod(module("sub", vec![], None))]);
    let frags = vec![frag("src/root/sub.rs", Some(vec![typedef("FromFile")]))];
    let out = resolve_mod(&root, &"src".to_string(), &frags);
    let expected = root_with(vec![Item::Mod(module(
        "sub",
        vec![],
        Some(vec![typedef("FromFile")]),
    ))]);
    assert_eq!(out, Ok(Resolution::Done(expected)));
}

/// When the direct file is absent, the index file under the module's
/// directory is used instead.
#[test]
fn index_file_is_the_fallback() {
    let root = root_with(vec![Item::Mod(module("sub", vec![], None))]);
    let frags = vec![
        frag("src/root/sub.rs", None),
        frag("src/root/sub/mod.rs", Some(vec![typedef("FromIndex")])),
    ];
    let out = resolve_mod(&root, &"src".to_string(), &frags);
    let expected = root_with(vec![Item::Mod(module(
        "sub",
        vec![],
        Some(vec![typedef("FromIndex")]),
    ))]);
    assert_eq!(out, Ok(Resolution::Done(expected)));
}

/// When neither candidate exists, generation fails with a resolution error
/// naming `sub`.
#[test]
fn missing_fragment_is_fatal() {
    let root = root_with(vec![Item::Mod(module("sub", vec![], None))]);
    let frags = vec![
        frag("src/root/sub.rs", None),
        frag("src/root/sub/mod.rs", None),
    ];
    let out = resolve_mod(&root, &"src".to_string(), &frags);
    assert_eq!(out, Err(ResolveError::Missing("sub".to_string())));
}

/// A module with an empty body is treated like a bodiless one: an
/// intentionally empty stand-in is never accepted as final.
#[test]
fn empty_body_is_resolved_like_a_bodiless_module() {
    let root = root_with(vec![Item::Mod(module("sub", vec![], Some(vec![])))]);
    let frags = vec![frag("src/root/sub.rs", Some(vec![typedef("Filled")]))];
    let out = resolve_mod(&root, &"src".to_string(), &frags);
    let expected = root_with(vec![Item::Mod(module(
        "sub",
        vec![],
        Some(vec![typedef("Filled")]),
    ))]);
    assert_eq!(out, Ok(Resolution::Done(expected)));
}

/// An explicit source tag overrides the convention and is consumed by the
/// splice.
#[test]
fn explicit_source_tag_resolves_and_is_consumed() {
    let tagged = module(
        "sub",
        vec![tag("non_inline_module", "elsewhere/code.rs")],
        None,
    );
    let root = root_with(vec![Item::Mod(tagged)]);
    let frags = vec![frag("elsewhere/code.rs", Some(vec![typedef("Explicit")]))];
    let out = resolve_mod(&root, &"src".to_string(), &frags);
    let expected = root_with(vec![Item::Mod(module(
        "sub",
        vec![],
        Some(vec![typedef("Explicit")]),
    ))]);
    assert_eq!(out, Ok(Resolution::Done(expected)));
}

/// Nested out-of-line modules resolve transitively, under the accumulated
/// module path.
#[test]
fn nested_out_of_line_modules_resolve_transitively() {
    let root = root_with(vec![Item::Mod(module("sub", vec![], None))]);
    let frags = vec![
        frag(
            "src/root/sub.rs",
            Some(vec![Item::Mod(module("deep", vec![], None))]),
        ),
        frag("src/root/sub/deep.rs", Some(vec![typedef("Deepest")])),
    ];
    let out = resolve_mod(&root, &"src".to_string(), &frags);
    let expected = root_with(vec![Item::Mod(module(
        "sub",
        vec![],
        Some(vec![Item::Mod(module(
            "deep",
            vec![],
            Some(vec![typedef("Deepest")]),
        ))]),
    ))]);
    assert_eq!(out, Ok(Resolution::Done(expected)));
}

/// A fragment that reaches itself again along one resolution chain is a
/// fatal cycle error, not unbounded recursion.
#[test]
fn self_referential_chain_is_a_cycle_error() {
    let tagged = module("sub", vec![tag("non_inline_module", "loop.rs")], None);
    let root = root_with(vec![Item::Mod(tagged)]);
    let inner = module("sub2", vec![tag("non_inline_module", "loop.rs")], None);
    let frags = vec![frag("loop.rs", Some(vec![Item::Mod(inner)]))];
    let out = resolve_mod(&root, &"src".to_string(), &frags);
    assert_eq!(out, Err(ResolveError::Cycle("sub2".to_string())));
}

/// An already-inline tree resolves to itself.
#[test]
fn inline_tree_is_already_resolved() {
    let root = root_with(vec![typedef("Plain")]);
    let out = resolve_mod(&root, &"src".to_string(), &vec![]);
    assert_eq!(out, Ok(Resolution::Done(root_with(vec![typedef("Plain")]))));
}
