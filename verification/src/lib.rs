//! A source generator that splits one "as-if-asynchronous" syntax tree into
//! two specialized variants: a blocking one and a suspension-capable one.
//!
//! The tree is modelled by the types in [`ast`], with deep copies in
//! [`dup`] and tag primitives in [`attr`]. The variant filter and
//! self-reference rewriter live in [`visit`], the suspension-syntax eraser
//! in [`erase`], the out-of-line module resolver in [`resolve`], and the
//! invocation-option parser in [`parse`]; [`laws`] states and proves what
//! holds of the whole pipeline.
use vstd::prelude::*;

pub mod ast;
pub mod attr;
pub mod dup;
pub mod erase;
pub mod laws;
pub mod parse;
pub mod resolve;
pub mod visit;

verus! {

/// One of the two generated output flavors.
#[derive(Copy, Clone, PartialEq, Eq, Structural, Debug)]
pub enum Version {
    Sync,
    Async,
}

impl Version {
    /// The identifier that names this variant's output module, as a sequence
    /// of characters.
    pub open spec fn spec_str(self) -> Seq<char> {
        match self {
            Version::Sync => "blocking"@,
            Version::Async => "asynchronous"@,
        }
    }

    /// The other variant: the one whose tagged nodes this variant's copy drops.
    pub open spec fn spec_other(self) -> Version {
        match self {
            Version::Sync => Version::Async,
            Version::Async => Version::Sync,
        }
    }

    /// The identifier used to rename the duplicated root module and to
    /// rewrite self-referencing import paths.
    pub fn as_str(&self) -> (s: &'static str)
        ensures
            s@ == self.spec_str(),
    {
        match self {
            Version::Sync => "blocking",
            Version::Async => "asynchronous",
        }
    }

    /// The variant whose tags cause removal in this variant's copy.
    pub fn other(&self) -> (v: Version)
        ensures
            v == self.spec_other(),
    {
        match self {
            Version::Sync => Version::Async,
            Version::Async => Version::Sync,
        }
    }
}

// ------------------------------------------------------------------
// The generation pipeline.
// ------------------------------------------------------------------

/// A renamed copy of the root module: what the duplicator hands each
/// variant's filter.
pub open spec fn rename_spec(m: crate::ast::ItemModV, name: Seq<char>) -> crate::ast::ItemModV {
    crate::ast::ItemModV { tags: m.tags, name, content: m.content }
}

/// Both outputs of one generation run, in emission order: the
/// suspension-capable copy first, then the blocking one. A variant absent
/// from the mode is absent here.
pub struct Generation {
    pub asynchronous: Option<crate::ast::ItemMod>,
    pub blocking: Option<crate::ast::ItemMod>,
}

pub open spec fn option_mod_view(o: Option<crate::ast::ItemMod>) -> Option<crate::ast::ItemModV> {
    match o {
        Option::Some(m) => Option::Some(crate::ast::item_mod_view(m)),
        Option::None => Option::None,
    }
}

/// What one generation run produces from the resolved root module: the
/// suspension-capable copy is the filtered rename to the asynchronous
/// variant; the blocking copy is the filtered rename to the blocking
/// variant with suspension syntax erased.
pub open spec fn amphi_spec(m: crate::ast::ItemModV, mode: crate::parse::Mode) -> (
    Option<crate::ast::ItemModV>,
    Option<crate::ast::ItemModV>,
) {
    let root = m.name;
    let asynchronous = crate::visit::convert_spec(
        rename_spec(m, Version::Async.spec_str()),
        root,
        Version::Async.spec_str(),
        Version::Sync.spec_str(),
    );
    let blocking = crate::erase::desuspend_item_mod(
        crate::visit::convert_spec(
            rename_spec(m, Version::Sync.spec_str()),
            root,
            Version::Sync.spec_str(),
            Version::Async.spec_str(),
        ),
    );
    (
        if mode == crate::parse::Mode::SyncOnly {
            Option::None
        } else {
            Option::Some(asynchronous)
        },
        if mode == crate::parse::Mode::AsyncOnly {
            Option::None
        } else {
            Option::Some(blocking)
        },
    )
}

/// Splits one annotated root module into its variant copies, subject to the
/// mode. Out-of-line modules must have been resolved first (see
/// [`resolve::resolve_mod`]); the copies are deep and independent.
pub fn amphi(root: &crate::ast::ItemMod, mode: crate::parse::Mode) -> (r: Generation)
    ensures
        option_mod_view(r.asynchronous) == amphi_spec(crate::ast::item_mod_view(*root), mode).0,
        option_mod_view(r.blocking) == amphi_spec(crate::ast::item_mod_view(*root), mode).1,
{
    let asynchronous = if mode == crate::parse::Mode::SyncOnly {
        Option::None
    } else {
        let mut copy = crate::dup::copy_item_mod(root);
        copy.name = Version::Async.as_str().to_owned();
        let conversion = crate::visit::AmphiConversion::new(Version::Async, root.name.clone());
        Option::Some(conversion.convert(copy))
    };
    let blocking = if mode == crate::parse::Mode::AsyncOnly {
        Option::None
    } else {
        let mut copy = crate::dup::copy_item_mod(root);
        copy.name = Version::Sync.as_str().to_owned();
        let conversion = crate::visit::AmphiConversion::new(Version::Sync, root.name.clone());
        let filtered = conversion.convert(copy);
        let removal = crate::erase::AsyncAwaitRemoval;
        Option::Some(removal.remove_async_await(filtered))
    };
    Generation { asynchronous, blocking }
}

// ------------------------------------------------------------------
// The paired-test adapter.
// ------------------------------------------------------------------

/// The tag list reduced to its test-entry tags.
pub open spec fn retain_test_tags(tags: Seq<crate::ast::TagV>) -> Seq<crate::ast::TagV>
    decreases tags,
{
    if tags.len() == 0 {
        Seq::<crate::ast::TagV>::empty()
    } else {
        let rest = retain_test_tags(tags.subrange(0, tags.len() - 1));
        let last = tags[tags.len() - 1];
        if last.name == "test"@ {
            rest.push(last)
        } else {
            rest
        }
    }
}

/// The tag marking a test entry.
pub open spec fn test_tag_spec() -> crate::ast::TagV {
    crate::ast::TagV { name: "test"@, arg: Seq::<char>::empty() }
}

/// The blocking sibling of a paired test: filtered for the blocking
/// variant, desuspended, marked as a test entry, and — when it is a
/// callable — reduced to its test tags and renamed with the
/// disambiguating suffix, so the two siblings never collide.
pub open spec fn sync_test_spec(input: crate::ast::ItemV, scope: Seq<char>) -> crate::ast::ItemV {
    let filtered = crate::erase::desuspend_item(
        crate::visit::visit_item(
            input,
            scope,
            Version::Sync.spec_str(),
            Version::Async.spec_str(),
        ),
    );
    match filtered {
        crate::ast::ItemV::Fn(sig) => crate::ast::ItemV::Fn(
            crate::ast::SigV {
                tags: seq![test_tag_spec()] + retain_test_tags(sig.tags),
                vis: sig.vis,
                name: sig.name + "_sync_version"@,
                suspend: sig.suspend,
                rest: sig.rest,
                body: sig.body,
            },
        ),
        _ => filtered,
    }
}

/// The suspension-capable sibling: filtered for the asynchronous variant,
/// suspension syntax intact.
pub open spec fn async_test_spec(input: crate::ast::ItemV, scope: Seq<char>) -> crate::ast::ItemV {
    crate::visit::visit_item(input, scope, Version::Async.spec_str(), Version::Sync.spec_str())
}

/// Both siblings of one paired test, in emission order: the blocking test
/// first, then the suspension-capable one.
pub struct TestPair {
    pub blocking: crate::ast::Item,
    pub asynchronous: crate::ast::Item,
}

fn retain_test_tags_exec(tags: &Vec<crate::ast::Tag>) -> (r: Vec<crate::ast::Tag>)
    ensures
        crate::ast::tags_view(r@) == retain_test_tags(crate::ast::tags_view(tags@)),
{
    let test_name = "test".to_owned();
    let mut out: Vec<crate::ast::Tag> = Vec::new();
    let mut i: usize = 0;
    while i < tags.len()
        invariant
            i <= tags.len(),
            test_name@ == "test"@,
            crate::ast::tags_view(out@) == retain_test_tags(
                crate::ast::tags_view(tags@.subrange(0, i as int)),
            ),
        decreases tags@.len() - i,
    {
        let hit = tags[i].name == test_name;
        proof {
            crate::ast::lemma_tags_view_push(tags@.subrange(0, i as int), tags@[i as int]);
            assert(tags@.subrange(0, i as int).push(tags@[i as int]) =~= tags@.subrange(
                0,
                (i + 1) as int,
            ));
            let sv = crate::ast::tags_view(tags@.subrange(0, i as int));
            let xv = crate::ast::tag_view(tags@[i as int]);
            assert(sv.push(xv).subrange(0, sv.push(xv).len() - 1) =~= sv);
            assert(sv.push(xv)[sv.push(xv).len() - 1] == xv);
        }
        if hit {
            let kept = crate::dup::copy_tag(&tags[i]);
            proof {
                crate::ast::lemma_tags_view_push(out@, kept);
            }
            out.push(kept);
        }
        i += 1;
    }
    proof {
        assert(tags@.subrange(0, tags@.len() as int) =~= tags@);
    }
    out
}

/// Builds both siblings of one paired test from a single test declaration
/// written against the given scope name.
pub fn test(scope: &String, input: &crate::ast::Item) -> (r: TestPair)
    ensures
        crate::ast::item_view(r.blocking) == sync_test_spec(crate::ast::item_view(*input), scope@),
        crate::ast::item_view(r.asynchronous) == async_test_spec(
            crate::ast::item_view(*input),
            scope@,
        ),
{
    let sync_conversion = crate::visit::AmphiConversion::new(Version::Sync, scope.clone());
    let filtered = sync_conversion.convert_item(input);
    let removal = crate::erase::AsyncAwaitRemoval;
    let desuspended = removal.remove_async_await_item(&filtered);
    let blocking = match desuspended {
        crate::ast::Item::Fn(sig) => {
            let mut tags: Vec<crate::ast::Tag> = Vec::new();
            tags.push(crate::ast::Tag { name: "test".to_owned(), arg: String::new() });
            proof {
                reveal_with_fuel(crate::ast::tags_view, 2);
                assert(tags@.subrange(0, 0) =~= Seq::<crate::ast::Tag>::empty());
                assert(crate::ast::tags_view(tags@) =~= seq![test_tag_spec()]);
            }
            let retained = retain_test_tags_exec(&sig.tags);
            let mut j: usize = 0;
            while j < retained.len()
                invariant
                    j <= retained.len(),
                    crate::ast::tags_view(tags@) == seq![test_tag_spec()]
                        + crate::ast::tags_view(retained@.subrange(0, j as int)),
                decreases retained@.len() - j,
            {
                let t = crate::dup::copy_tag(&retained[j]);
                proof {
                    crate::ast::lemma_tags_view_push(tags@, t);
                    crate::ast::lemma_tags_view_push(
                        retained@.subrange(0, j as int),
                        retained@[j as int],
                    );
                    assert(retained@.subrange(0, j as int).push(retained@[j as int])
                        =~= retained@.subrange(0, (j + 1) as int));
                    assert(seq![test_tag_spec()] + crate::ast::tags_view(
                        retained@.subrange(0, (j + 1) as int),
                    ) =~= (seq![test_tag_spec()] + crate::ast::tags_view(
                        retained@.subrange(0, j as int),
                    )).push(crate::ast::tag_view(retained@[j as int])));
                }
                tags.push(t);
                j += 1;
            }
            proof {
                assert(retained@.subrange(0, retained@.len() as int) =~= retained@);
            }
            crate::ast::Item::Fn(
                crate::ast::Sig {
                    tags,
                    vis: sig.vis.clone(),
                    name: sig.name.clone().concat("_sync_version"),
                    suspend: sig.suspend,
                    rest: sig.rest.clone(),
                    body: match &sig.body {
                        Option::Some(b) => Option::Some(crate::dup::copy_stmts(b)),
                        Option::None => Option::None,
                    },
                },
            )
        },
        other => other,
    };
    let async_conversion = crate::visit::AmphiConversion::new(Version::Async, scope.clone());
    let asynchronous = async_conversion.convert_item(input);
    TestPair { blocking, asynchronous }
}

} // verus!
