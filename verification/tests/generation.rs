//! The generation pipeline: variant duplication, filtering, self-reference
//! rewriting, and suspension erasure.
use amphi::ast::{Expr, Item, ItemMod, Sig, Stmt, Tag, UseTree};
use amphi::parse::Mode;
use amphi::Version;

fn tag(name: &str, arg: &str) -> Tag {
    Tag {
        name: name.to_string(),
        arg: arg.to_string(),
    }
}

fn plain_fn(name: &str, tags: Vec<Tag>, suspend: bool, body: Vec<Stmt>) -> Item {
    Item::Fn(Sig {
        tags,
        vis: String::new(),
        name: name.to_string(),
        suspend,
        rest: String::new(),
        body: Some(body),
    })
}

fn expr_stmt(e: Expr) -> Stmt {
    Stmt::Expr(e, true)
}

fn call(callee: &str) -> Expr {
    Expr::Call(vec![], callee.to_string(), vec![])
}

fn root_mod(name: &str, items: Vec<Item>) -> ItemMod {
    ItemMod {
        tags: vec![],
        name: name.to_string(),
        content: Some(items),
    }
}

#[test]
fn version_identifiers() {
    assert_eq!(Version::Sync.as_str(), "blocking");
    assert_eq!(Version::Async.as_str(), "asynchronous");
    assert_eq!(Version::Sync.other().as_str(), "asynchronous");
    assert_eq!(Version::Async.other().as_str(), "blocking");
}

/// Source module `root` holds `f` tagged for the blocking variant only and
/// `g`, untagged, whose body suspends on `h()`. The blocking output keeps
/// `f` tag-free and gives `g` the body `h()` without the asynchronous
/// marker; the asynchronous output omits `f` and keeps `g` untouched.
#[test]
fn tagged_and_suspending_callables_split() {
    let f = plain_fn("f", vec![tag("amphi", "blocking")], false, vec![]);
    let g = plain_fn(
        "g",
        vec![],
        true,
        vec![expr_stmt(Expr::Suspend(vec![], Box::new(call("h"))))],
    );
    let root = root_mod("root", vec![f, g]);

    let out = amphi::amphi(&root, Mode::Both);

    let expected_async = root_mod(
        "asynchronous",
        vec![plain_fn(
            "g",
            vec![],
            true,
            vec![expr_stmt(Expr::Suspend(vec![], Box::new(call("h"))))],
        )],
    );
    let expected_blocking = root_mod(
        "blocking",
        vec![
            plain_fn("f", vec![], false, vec![]),
            plain_fn("g", vec![], false, vec![expr_stmt(call("h"))]),
        ],
    );
    assert_eq!(out.asynchronous, Some(expected_async));
    assert_eq!(out.blocking, Some(expected_blocking));
}

#[test]
fn mode_restricts_the_outputs() {
    let root = root_mod("root", vec![]);
    let only_sync = amphi::amphi(&root, Mode::SyncOnly);
    assert!(only_sync.asynchronous.is_none());
    assert!(only_sync.blocking.is_some());
    let only_async = amphi::amphi(&root, Mode::AsyncOnly);
    assert!(only_async.asynchronous.is_some());
    assert!(only_async.blocking.is_none());
}

/// An unqualified import rooted at the module's own name resolves to each
/// copy's variant identifier; a qualified import stays as written.
#[test]
fn self_reference_rewrite_scope() {
    let self_import = Item::Use(
        vec![],
        false,
        UseTree::Path(
            "root".to_string(),
            Box::new(UseTree::Name("Thing".to_string())),
        ),
    );
    let external_import = Item::Use(
        vec![],
        true,
        UseTree::Path(
            "root".to_string(),
            Box::new(UseTree::Name("Thing".to_string())),
        ),
    );
    let root = root_mod("root", vec![self_import, external_import]);

    let out = amphi::amphi(&root, Mode::Both);

    let rewritten = |variant: &str| {
        vec![
            Item::Use(
                vec![],
                false,
                UseTree::Path(
                    variant.to_string(),
                    Box::new(UseTree::Name("Thing".to_string())),
                ),
            ),
            Item::Use(
                vec![],
                true,
                UseTree::Path(
                    "root".to_string(),
                    Box::new(UseTree::Name("Thing".to_string())),
                ),
            ),
        ]
    };
    assert_eq!(
        out.asynchronous.unwrap().content.unwrap(),
        rewritten("asynchronous")
    );
    assert_eq!(out.blocking.unwrap().content.unwrap(), rewritten("blocking"));
}

/// Grouped and renamed import entries are rewritten too.
#[test]
fn self_reference_rewrite_in_groups_and_renames() {
    let grouped = Item::Use(
        vec![],
        false,
        UseTree::Group(vec![
            UseTree::Name("root".to_string()),
            UseTree::Rename("root".to_string(), "alias".to_string()),
            UseTree::Name("other".to_string()),
        ]),
    );
    let root = root_mod("root", vec![grouped]);
    let out = amphi::amphi(&root, Mode::SyncOnly);
    let expected = Item::Use(
        vec![],
        false,
        UseTree::Group(vec![
            UseTree::Name("blocking".to_string()),
            UseTree::Rename("blocking".to_string(), "alias".to_string()),
            UseTree::Name("other".to_string()),
        ]),
    );
    assert_eq!(out.blocking.unwrap().content.unwrap(), vec![expected]);
}

/// A suspension block with one tail expression is elided to that
/// expression; with a semicolon, or with two statements, it becomes a
/// plain block in order.
#[test]
fn suspension_block_erasure_shapes() {
    let single_tail = plain_fn(
        "one",
        vec![],
        true,
        vec![expr_stmt(Expr::SuspendBlock(
            vec![],
            vec![Stmt::Expr(call("a"), false)],
        ))],
    );
    let single_semi = plain_fn(
        "semi",
        vec![],
        true,
        vec![expr_stmt(Expr::SuspendBlock(vec![], vec![expr_stmt(call("a"))]))],
    );
    let double = plain_fn(
        "two",
        vec![],
        true,
        vec![expr_stmt(Expr::SuspendBlock(
            vec![],
            vec![expr_stmt(call("a")), expr_stmt(call("b"))],
        ))],
    );
    let root = root_mod("root", vec![single_tail, single_semi, double]);
    let out = amphi::amphi(&root, Mode::SyncOnly);
    let expected = vec![
        plain_fn("one", vec![], false, vec![expr_stmt(call("a"))]),
        plain_fn(
            "semi",
            vec![],
            false,
            vec![expr_stmt(Expr::Block(vec![], vec![expr_stmt(call("a"))]))],
        ),
        plain_fn(
            "two",
            vec![],
            false,
            vec![expr_stmt(Expr::Block(
                vec![],
                vec![expr_stmt(call("a")), expr_stmt(call("b"))],
            ))],
        ),
    ];
    assert_eq!(out.blocking.unwrap().content.unwrap(), expected);
}

/// Nested suspension expressions unwrap completely.
#[test]
fn nested_suspension_expressions_erase() {
    let nested = plain_fn(
        "n",
        vec![],
        true,
        vec![Stmt::Let(
            vec![],
            "x".to_string(),
            Expr::Suspend(
                vec![],
                Box::new(Expr::Suspend(vec![], Box::new(call("inner")))),
            ),
        )],
    );
    let root = root_mod("root", vec![nested]);
    let out = amphi::amphi(&root, Mode::SyncOnly);
    let expected = vec![plain_fn(
        "n",
        vec![],
        false,
        vec![Stmt::Let(vec![], "x".to_string(), call("inner"))],
    )];
    assert_eq!(out.blocking.unwrap().content.unwrap(), expected);
}

/// Tag filtering reaches statements, expressions and interface methods.
#[test]
fn statement_and_method_filtering() {
    let body = vec![
        Stmt::Let(
            vec![tag("amphi", "asynchronous")],
            "a".to_string(),
            call("mk"),
        ),
        Stmt::Expr(
            Expr::Name(vec![tag("amphi", "blocking")], "kept".to_string()),
            true,
        ),
    ];
    let tr = Item::Trait(
        vec![],
        "Port".to_string(),
        vec![
            Sig {
                tags: vec![tag("amphi", "asynchronous")],
                vis: String::new(),
                name: "only_async".to_string(),
                suspend: true,
                rest: String::new(),
                body: None,
            },
            Sig {
                tags: vec![],
                vis: String::new(),
                name: "shared".to_string(),
                suspend: true,
                rest: String::new(),
                body: None,
            },
        ],
    );
    let root = root_mod("root", vec![plain_fn("f", vec![], false, body), tr]);
    let out = amphi::amphi(&root, Mode::SyncOnly);
    let expected = vec![
        plain_fn(
            "f",
            vec![],
            false,
            vec![
                Stmt::Empty,
                Stmt::Expr(Expr::Name(vec![], "kept".to_string()), true),
            ],
        ),
        Item::Trait(
            vec![],
            "Port".to_string(),
            vec![Sig {
                tags: vec![],
                vis: String::new(),
                name: "shared".to_string(),
                suspend: false,
                rest: String::new(),
                body: None,
            }],
        ),
    ];
    assert_eq!(out.blocking.unwrap().content.unwrap(), expected);
}

/// Filtering recurses into nested modules: tag scoping is structural.
#[test]
fn nested_module_filtering() {
    let inner = Item::Mod(ItemMod {
        tags: vec![],
        name: "inner".to_string(),
        content: Some(vec![
            Item::TypeDef(vec![tag("amphi", "asynchronous")], "OnlyAsync".to_string()),
            Item::TypeDef(vec![tag("amphi", "blocking")], "OnlySync".to_string()),
        ]),
    });
    let root = root_mod("root", vec![inner]);
    let out = amphi::amphi(&root, Mode::Both);
    let async_inner = Item::Mod(ItemMod {
        tags: vec![],
        name: "inner".to_string(),
        content: Some(vec![Item::TypeDef(vec![], "OnlyAsync".to_string())]),
    });
    let sync_inner = Item::Mod(ItemMod {
        tags: vec![],
        name: "inner".to_string(),
        content: Some(vec![Item::TypeDef(vec![], "OnlySync".to_string())]),
    });
    assert_eq!(
        out.asynchronous.unwrap().content.unwrap(),
        vec![async_inner]
    );
    assert_eq!(out.blocking.unwrap().content.unwrap(), vec![sync_inner]);
}

/// The paired-test adapter: the blocking sibling is desuspended, marked as
/// a test entry and renamed with the disambiguating suffix; the
/// asynchronous sibling keeps its suspension syntax.
#[test]
fn paired_test_siblings() {
    let input = plain_fn(
        "works",
        vec![tag("other_attr", "x")],
        true,
        vec![expr_stmt(Expr::Suspend(vec![], Box::new(call("do_thing"))))],
    );
    let pair = amphi::test(&"amphi".to_string(), &input);
    let expected_blocking = Item::Fn(Sig {
        tags: vec![tag("test", "")],
        vis: String::new(),
        name: "works_sync_version".to_string(),
        suspend: false,
        rest: String::new(),
        body: Some(vec![expr_stmt(call("do_thing"))]),
    });
    assert_eq!(pair.blocking, expected_blocking);
    assert_eq!(pair.asynchronous, input);
}

/// The paired-test adapter keeps an existing test tag on the blocking
/// sibling and drops every other tag.
#[test]
fn paired_test_retains_test_tags() {
    let input = plain_fn(
        "checked",
        vec![tag("ignore_me", ""), tag("test", "")],
        false,
        vec![],
    );
    let pair = amphi::test(&"amphi".to_string(), &input);
    let expected_blocking = Item::Fn(Sig {
        tags: vec![tag("test", ""), tag("test", "")],
        vis: String::new(),
        name: "checked_sync_version".to_string(),
        suspend: false,
        rest: String::new(),
        body: Some(vec![]),
    });
    assert_eq!(pair.blocking, expected_blocking);
}

/// Applying the eraser to already-desuspended input is a no-op.
#[test]
fn erasure_is_idempotent() {
    let suspended = root_mod(
        "root",
        vec![plain_fn(
            "g",
            vec![],
            true,
            vec![expr_stmt(Expr::Suspend(vec![], Box::new(call("h"))))],
        )],
    );
    let removal = amphi::erase::AsyncAwaitRemoval;
    let once = removal.remove_async_await(amphi::dup::copy_item_mod(&suspended));
    let twice = removal.remove_async_await(amphi::dup::copy_item_mod(&once));
    assert_eq!(once, twice);
}

/// One conversion pass drops the other variant's declarations and strips
/// this variant's tags, without renaming the module.
#[test]
fn conversion_filters_one_copy() {
    let conversion = amphi::visit::AmphiConversion::new(Version::Sync, "root".to_string());
    assert!(conversion.version == Version::Sync);
    let m = root_mod(
        "anything",
        vec![
            Item::TypeDef(vec![tag("amphi", "blocking")], "Keep".to_string()),
            Item::TypeDef(vec![tag("amphi", "asynchronous")], "Gone".to_string()),
        ],
    );
    let out = conversion.convert(m);
    assert_eq!(out.name, "anything".to_string());
    assert_eq!(
        out.content.unwrap(),
        vec![Item::TypeDef(vec![], "Keep".to_string())]
    );
}

/// The declaration-removal and tag-cleanup passes, called on their own.
#[test]
fn removal_and_cleanup_primitives() {
    let mut m = root_mod(
        "root",
        vec![
            Item::TypeDef(vec![tag("amphi", "asynchronous")], "A".to_string()),
            Item::TypeDef(vec![tag("amphi", "blocking")], "B".to_string()),
        ],
    );
    amphi::visit::mod_remove_items(&mut m, &"asynchronous".to_string());
    assert_eq!(m.content.as_ref().unwrap().len(), 1);
    amphi::visit::mod_remove_attr(&mut m, &"blocking".to_string());
    assert_eq!(
        m.content.unwrap(),
        vec![Item::TypeDef(vec![], "B".to_string())]
    );
}

/// A body-level import written against the scope name resolves to each
/// sibling's variant: the caller-specified scope drives the rewrite inside
/// callable tests.
#[test]
fn paired_test_rewrites_body_imports() {
    let body_import = Stmt::Use(
        vec![],
        false,
        UseTree::Path(
            "self".to_string(),
            Box::new(UseTree::Path(
                "amphi".to_string(),
                Box::new(UseTree::Name("async_fn".to_string())),
            )),
        ),
    );
    let input = plain_fn(
        "smoke",
        vec![],
        true,
        vec![
            body_import,
            expr_stmt(Expr::Suspend(vec![], Box::new(call("async_fn")))),
        ],
    );
    let pair = amphi::test(&"amphi".to_string(), &input);
    let rewritten = |variant: &str| {
        Stmt::Use(
            vec![],
            false,
            UseTree::Path(
                "self".to_string(),
                Box::new(UseTree::Path(
                    variant.to_string(),
                    Box::new(UseTree::Name("async_fn".to_string())),
                )),
            ),
        )
    };
    let expected_blocking = Item::Fn(Sig {
        tags: vec![tag("test", "")],
        vis: String::new(),
        name: "smoke_sync_version".to_string(),
        suspend: false,
        rest: String::new(),
        body: Some(vec![rewritten("blocking"), expr_stmt(call("async_fn"))]),
    });
    let expected_async = plain_fn(
        "smoke",
        vec![],
        true,
        vec![
            rewritten("asynchronous"),
            expr_stmt(Expr::Suspend(vec![], Box::new(call("async_fn")))),
        ],
    );
    assert_eq!(pair.blocking, expected_blocking);
    assert_eq!(pair.asynchronous, expected_async);
}

/// The signature detail the transformation does not read — qualifiers and
/// the part after the name — rides through both copies unchanged.
#[test]
fn unread_signature_detail_is_preserved() {
    let f = Item::Fn(Sig {
        tags: vec![],
        vis: "pub".to_string(),
        name: "my_fn".to_string(),
        suspend: true,
        rest: "() -> bool".to_string(),
        body: Some(vec![Stmt::Expr(Expr::Name(vec![], "true".to_string()), false)]),
    });
    let root = root_mod("root", vec![f]);
    let out = amphi::amphi(&root, Mode::Both);
    let expect = |suspend: bool| {
        vec![Item::Fn(Sig {
            tags: vec![],
            vis: "pub".to_string(),
            name: "my_fn".to_string(),
            suspend,
            rest: "() -> bool".to_string(),
            body: Some(vec![Stmt::Expr(Expr::Name(vec![], "true".to_string()), false)]),
        })]
    };
    assert_eq!(out.asynchronous.unwrap().content.unwrap(), expect(true));
    assert_eq!(out.blocking.unwrap().content.unwrap(), expect(false));
}

/// The root module cannot be dropped, so both of its own variant tags are
/// cleaned from each copy.
#[test]
fn root_tags_are_cleaned_both_ways() {
    let root = ItemMod {
        tags: vec![tag("amphi", "blocking"), tag("amphi", "asynchronous")],
        name: "root".to_string(),
        content: Some(vec![]),
    };
    let out = amphi::amphi(&root, Mode::Both);
    assert!(out.asynchronous.unwrap().tags.is_empty());
    assert!(out.blocking.unwrap().tags.is_empty());
}
