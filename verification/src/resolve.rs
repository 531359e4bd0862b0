//! Out-of-line module resolution.
//!
//! A module without a body (or with an empty one) is resolved from an
//! external fragment: either the file named by its source tag, or, by
//! convention, `<dir>/<name>.rs` and then `<dir>/<name>/mod.rs` under the
//! accumulated module path. The caller performs the file reads: it hands
//! parsed fragments in, and is asked — through [`Resolution::Need`] — for
//! the paths still unknown. Resolution recurses into spliced fragments; a
//! fragment revisited along one resolution chain is a fatal cycle error.
use vstd::prelude::*;

use crate::ast::{
    item_all_inline, item_mod_all_inline, item_mod_view, item_view, items_all_inline, items_view,
    lemma_items_view_push, tags_view, Item, ItemMod, ItemModV, ItemV, Tag,
};
use crate::attr::{first_named, pop_attribute, source_family, spec_source_family};
use crate::dup::{copy_item, copy_tags};

verus! {

// ------------------------------------------------------------------
// Fragments: the caller's answers to file lookups.
// ------------------------------------------------------------------

/// One answer about an external source fragment: the file's path, and its
/// parsed declarations — or `None` when the file does not exist.
#[derive(Debug)]
pub struct Fragment {
    pub path: String,
    pub items: Option<Vec<Item>>,
}

/// Mathematical twin of [`Fragment`].
pub struct FragmentV {
    pub path: Seq<char>,
    pub items: Option<Seq<ItemV>>,
}

pub open spec fn fragment_view(f: Fragment) -> FragmentV {
    FragmentV {
        path: f.path@,
        items: match f.items {
            Option::Some(v) => Option::Some(items_view(v@)),
            Option::None => Option::None,
        },
    }
}

pub open spec fn fragments_view(s: Seq<Fragment>) -> Seq<FragmentV>
    decreases s,
{
    if s.len() == 0 {
        Seq::<FragmentV>::empty()
    } else {
        fragments_view(s.subrange(0, s.len() - 1)).push(fragment_view(s[s.len() - 1]))
    }
}

pub proof fn lemma_fragments_view(s: Seq<Fragment>)
    ensures
        fragments_view(s).len() == s.len(),
        forall|i: int|
            0 <= i < s.len() ==> #[trigger] fragments_view(s)[i] == fragment_view(s[i]),
    decreases s,
{
    if s.len() > 0 {
        let pre = s.subrange(0, s.len() - 1);
        lemma_fragments_view(pre);
        assert forall|i: int|
            0 <= i < s.len() implies #[trigger] fragments_view(s)[i] == fragment_view(s[i]) by {
            if i < s.len() - 1 {
                assert(pre[i] == s[i]);
            }
        }
    }
}

pub open spec fn strings_view(s: Seq<String>) -> Seq<Seq<char>>
    decreases s,
{
    if s.len() == 0 {
        Seq::<Seq<char>>::empty()
    } else {
        strings_view(s.subrange(0, s.len() - 1)).push(s[s.len() - 1]@)
    }
}

// ------------------------------------------------------------------
// Path composition: the file resolution convention.
// ------------------------------------------------------------------

/// The directory a module's own out-of-line children resolve under.
pub open spec fn child_dir(dir: Seq<char>, name: Seq<char>) -> Seq<char> {
    dir + "/"@ + name
}

/// The first candidate: a direct file named after the module.
pub open spec fn direct_path(dir: Seq<char>, name: Seq<char>) -> Seq<char> {
    dir + "/"@ + name + ".rs"@
}

/// The second candidate: the index file of a directory named after the
/// module.
pub open spec fn index_path(dir: Seq<char>, name: Seq<char>) -> Seq<char> {
    dir + "/"@ + name + "/mod.rs"@
}

fn child_dir_exec(dir: &String, name: &String) -> (r: String)
    ensures
        r@ == child_dir(dir@, name@),
{
    dir.clone().concat("/").concat(name.as_str())
}

fn direct_path_exec(dir: &String, name: &String) -> (r: String)
    ensures
        r@ == direct_path(dir@, name@),
{
    dir.clone().concat("/").concat(name.as_str()).concat(".rs")
}

fn index_path_exec(dir: &String, name: &String) -> (r: String)
    ensures
        r@ == index_path(dir@, name@),
{
    dir.clone().concat("/").concat(name.as_str()).concat("/mod.rs")
}

// ------------------------------------------------------------------
// Outcomes.
// ------------------------------------------------------------------

/// A fatal resolution failure.
#[derive(Debug, PartialEq)]
pub enum ResolveError {
    /// No fragment exists for this module: the error names the module.
    Missing(String),
    /// A fragment was revisited along one resolution chain: the error names
    /// the module whose resolution closed the cycle.
    Cycle(String),
}

/// Mathematical twin of [`ResolveError`].
pub enum ResolveErrorV {
    Missing(Seq<char>),
    Cycle(Seq<char>),
}

pub open spec fn resolve_error_view(e: ResolveError) -> ResolveErrorV {
    match e {
        ResolveError::Missing(name) => ResolveErrorV::Missing(name@),
        ResolveError::Cycle(name) => ResolveErrorV::Cycle(name@),
    }
}

/// What one resolution call produced.
#[derive(Debug, PartialEq)]
pub enum Resolution {
    /// Every module is now inline: the resolved tree.
    Done(ItemMod),
    /// These file paths must be answered (as [`Fragment`]s) first.
    Need(Vec<String>),
}

/// The outcome of resolving one part of the tree, in the mathematical
/// world.
pub enum ROutV<T> {
    Resolved(T),
    Pending(Seq<Seq<char>>),
    Failed(ResolveErrorV),
}

pub open spec fn result_view(r: Result<Resolution, ResolveError>) -> ROutV<ItemModV> {
    match r {
        Result::Ok(Resolution::Done(t)) => ROutV::Resolved(item_mod_view(t)),
        Result::Ok(Resolution::Need(ps)) => ROutV::Pending(strings_view(ps@)),
        Result::Err(e) => ROutV::Failed(resolve_error_view(e)),
    }
}

// ------------------------------------------------------------------
// What resolution means.
// ------------------------------------------------------------------

/// Whether the module must be resolved from an external fragment: its body
/// is absent, or present and empty (an empty body is never accepted as
/// final).
pub open spec fn needs_resolution(m: ItemModV) -> bool {
    match m.content {
        Option::None => true,
        Option::Some(items) => items.len() == 0,
    }
}

/// The first index holding the given path, or the list's length.
pub open spec fn find_frag(frags: Seq<FragmentV>, path: Seq<char>) -> int
    decreases frags,
{
    if frags.len() == 0 {
        0
    } else if frags[0].path == path {
        0
    } else {
        1 + find_frag(frags.subrange(1, frags.len() as int), path)
    }
}

pub proof fn lemma_find_frag_bounds(frags: Seq<FragmentV>, path: Seq<char>)
    ensures
        0 <= find_frag(frags, path) <= frags.len(),
    decreases frags,
{
    if frags.len() > 0 && frags[0].path != path {
        lemma_find_frag_bounds(frags.subrange(1, frags.len() as int), path);
    }
}

/// Resolving one fragment lookup for module `name` at path `p`: splice and
/// recurse on a hit, ask for the path when it is unknown, report a cycle
/// when the fragment was already used on this chain.
///
/// `avail` holds the fragments not yet used on this resolution chain;
/// `known` holds all of them.
pub open spec fn resolve_from(
    name: Seq<char>,
    tags: Seq<crate::ast::TagV>,
    p: Seq<char>,
    dir: Seq<char>,
    avail: Seq<FragmentV>,
    known: Seq<FragmentV>,
) -> ROutV<ItemModV>
    decreases avail.len(), 0int, tags,
    via resolve_from_dec
{
    let j = find_frag(avail, p);
    if j < avail.len() {
        match avail[j].items {
            Option::None => ROutV::Failed(ResolveErrorV::Missing(name)),
            Option::Some(fitems) => {
                let avail2 = avail.subrange(0, j) + avail.subrange(j + 1, avail.len() as int);
                match resolve_items_spec(fitems, child_dir(dir, name), avail2, known) {
                    ROutV::Resolved(ritems) => ROutV::Resolved(
                        ItemModV { tags, name, content: Option::Some(ritems) },
                    ),
                    ROutV::Pending(ps) => ROutV::Pending(ps),
                    ROutV::Failed(e) => ROutV::Failed(e),
                }
            },
        }
    } else if find_frag(known, p) < known.len() {
        ROutV::Failed(ResolveErrorV::Cycle(name))
    } else {
        ROutV::Pending(seq![p])
    }
}

#[via_fn]
proof fn resolve_from_dec(
    name: Seq<char>,
    tags: Seq<crate::ast::TagV>,
    p: Seq<char>,
    dir: Seq<char>,
    avail: Seq<FragmentV>,
    known: Seq<FragmentV>,
) {
    lemma_find_frag_bounds(avail, p);
}

/// Resolving one module: an inline module recurses into its body; a
/// bodiless or empty one is resolved from its source tag's path, or from
/// the direct file and then the index file under the accumulated path.
pub open spec fn resolve_mod_spec(
    m: ItemModV,
    dir: Seq<char>,
    avail: Seq<FragmentV>,
    known: Seq<FragmentV>,
) -> ROutV<ItemModV>
    decreases avail.len(), 1int, m,
{
    if !needs_resolution(m) {
        match m.content {
            Option::Some(items) => match resolve_items_spec(
                items,
                child_dir(dir, m.name),
                avail,
                known,
            ) {
                ROutV::Resolved(ritems) => ROutV::Resolved(
                    ItemModV { tags: m.tags, name: m.name, content: Option::Some(ritems) },
                ),
                ROutV::Pending(ps) => ROutV::Pending(ps),
                ROutV::Failed(e) => ROutV::Failed(e),
            },
            Option::None => ROutV::Failed(ResolveErrorV::Missing(m.name)),  // unreachable: a bodiless module needs resolution
        }
    } else {
        let srcidx = first_named(m.tags, spec_source_family());
        if srcidx < m.tags.len() {
            // The explicit source tag names the file; the tag is consumed.
            let p = m.tags[srcidx].arg;
            let tags2 = m.tags.subrange(0, srcidx) + m.tags.subrange(
                srcidx + 1,
                m.tags.len() as int,
            );
            resolve_from(m.name, tags2, p, dir, avail, known)
        } else {
            let p1 = direct_path(dir, m.name);
            let p2 = index_path(dir, m.name);
            let j1 = find_frag(avail, p1);
            if j1 < avail.len() && avail[j1].items is None {
                // The direct file does not exist: fall back to the index
                // file.
                resolve_from(m.name, m.tags, p2, dir, avail, known)
            } else if j1 < avail.len() || find_frag(known, p1) < known.len() {
                resolve_from(m.name, m.tags, p1, dir, avail, known)
            } else {
                ROutV::Pending(seq![p1, p2])
            }
        }
    }
}

pub open spec fn resolve_item_spec(
    it: ItemV,
    dir: Seq<char>,
    avail: Seq<FragmentV>,
    known: Seq<FragmentV>,
) -> ROutV<ItemV>
    decreases avail.len(), 1int, it,
{
    match it {
        ItemV::Mod(m) => match resolve_mod_spec(m, dir, avail, known) {
            ROutV::Resolved(rm) => ROutV::Resolved(ItemV::Mod(rm)),
            ROutV::Pending(ps) => ROutV::Pending(ps),
            ROutV::Failed(e) => ROutV::Failed(e),
        },
        _ => ROutV::Resolved(it),
    }
}

/// Resolving a declaration list: the first failure or unanswered lookup, in
/// declaration order, decides the outcome.
pub open spec fn resolve_items_spec(
    s: Seq<ItemV>,
    dir: Seq<char>,
    avail: Seq<FragmentV>,
    known: Seq<FragmentV>,
) -> ROutV<Seq<ItemV>>
    decreases avail.len(), 1int, s,
{
    if s.len() == 0 {
        ROutV::Resolved(Seq::<ItemV>::empty())
    } else {
        match resolve_items_spec(s.subrange(0, s.len() - 1), dir, avail, known) {
            ROutV::Resolved(ritems) => match resolve_item_spec(s[s.len() - 1], dir, avail, known) {
                ROutV::Resolved(x) => ROutV::Resolved(ritems.push(x)),
                ROutV::Pending(ps) => ROutV::Pending(ps),
                ROutV::Failed(e) => ROutV::Failed(e),
            },
            ROutV::Pending(ps) => ROutV::Pending(ps),
            ROutV::Failed(e) => ROutV::Failed(e),
        }
    }
}


// ------------------------------------------------------------------
// Lemmas about lookups and resolved trees.
// ------------------------------------------------------------------

proof fn lemma_find_frag_found(frags: Seq<FragmentV>, path: Seq<char>, i: int)
    requires
        0 <= i < frags.len(),
        forall|j: int| 0 <= j < i ==> (#[trigger] frags[j]).path != path,
        frags[i].path == path,
    ensures
        find_frag(frags, path) == i,
    decreases frags,
{
    if i > 0 {
        let rest = frags.subrange(1, frags.len() as int);
        assert forall|j: int| 0 <= j < i - 1 implies (#[trigger] rest[j]).path != path by {
            assert(rest[j] == frags[j + 1]);
        }
        assert(rest[i - 1] == frags[i]);
        lemma_find_frag_found(rest, path, i - 1);
    }
}

proof fn lemma_find_frag_absent(frags: Seq<FragmentV>, path: Seq<char>)
    requires
        forall|j: int| 0 <= j < frags.len() ==> (#[trigger] frags[j]).path != path,
    ensures
        find_frag(frags, path) == frags.len(),
    decreases frags,
{
    if frags.len() > 0 {
        let rest = frags.subrange(1, frags.len() as int);
        assert forall|j: int| 0 <= j < rest.len() implies (#[trigger] rest[j]).path != path by {
            assert(rest[j] == frags[j + 1]);
        }
        lemma_find_frag_absent(rest, path);
    }
}

/// A failing or unanswered prefix decides the outcome of the whole list.
proof fn lemma_resolve_items_prefix(
    s: Seq<ItemV>,
    dir: Seq<char>,
    avail: Seq<FragmentV>,
    known: Seq<FragmentV>,
    k: int,
)
    requires
        0 <= k <= s.len(),
        !(resolve_items_spec(s.subrange(0, k), dir, avail, known) is Resolved),
    ensures
        resolve_items_spec(s, dir, avail, known) == resolve_items_spec(
            s.subrange(0, k),
            dir,
            avail,
            known,
        ),
    decreases s.len() - k,
{
    if k < s.len() {
        let pre = s.subrange(0, s.len() - 1);
        if k < s.len() - 1 {
            assert(pre.subrange(0, k) =~= s.subrange(0, k));
            lemma_resolve_items_prefix(pre, dir, avail, known, k);
        } else {
            assert(s.subrange(0, k) =~= pre);
        }
    } else {
        assert(s.subrange(0, k) =~= s);
    }
}

// ------------------------------------------------------------------
// Executable resolution.
// ------------------------------------------------------------------

/// The outcome of resolving one part of the tree.
enum RRes<T> {
    Resolved(T),
    Pending(Vec<String>),
    Failed(ResolveError),
}

spec fn rres_mod_view(r: RRes<ItemMod>) -> ROutV<ItemModV> {
    match r {
        RRes::Resolved(t) => ROutV::Resolved(item_mod_view(t)),
        RRes::Pending(ps) => ROutV::Pending(strings_view(ps@)),
        RRes::Failed(e) => ROutV::Failed(resolve_error_view(e)),
    }
}

spec fn rres_item_view(r: RRes<Item>) -> ROutV<ItemV> {
    match r {
        RRes::Resolved(t) => ROutV::Resolved(item_view(t)),
        RRes::Pending(ps) => ROutV::Pending(strings_view(ps@)),
        RRes::Failed(e) => ROutV::Failed(resolve_error_view(e)),
    }
}

spec fn rres_items_view(r: RRes<Vec<Item>>) -> ROutV<Seq<ItemV>> {
    match r {
        RRes::Resolved(t) => ROutV::Resolved(items_view(t@)),
        RRes::Pending(ps) => ROutV::Pending(strings_view(ps@)),
        RRes::Failed(e) => ROutV::Failed(resolve_error_view(e)),
    }
}

fn copy_fragment(f: &Fragment) -> (r: Fragment)
    ensures
        fragment_view(r) == fragment_view(*f),
{
    Fragment {
        path: f.path.clone(),
        items: match &f.items {
            Option::Some(v) => Option::Some(crate::dup::copy_items(v)),
            Option::None => Option::None,
        },
    }
}

/// An independent copy of the fragment list with entry `j` taken out: the
/// per-chain consumption that guards against cycles.
fn copy_frags_except(avail: &Vec<Fragment>, j: usize) -> (r: Vec<Fragment>)
    requires
        j < avail@.len(),
    ensures
        r@.len() == avail@.len() - 1,
        fragments_view(r@) == fragments_view(avail@).subrange(0, j as int) + fragments_view(
            avail@,
        ).subrange(j as int + 1, avail@.len() as int),
{
    let mut out: Vec<Fragment> = Vec::new();
    let mut i: usize = 0;
    proof {
        lemma_fragments_view(avail@);
    }
    while i < avail.len()
        invariant
            i <= avail.len(),
            j < avail@.len(),
            fragments_view(avail@).len() == avail@.len(),
            forall|k: int|
                0 <= k < avail@.len() ==> #[trigger] fragments_view(avail@)[k] == fragment_view(
                    avail@[k],
                ),
            out@.len() == if i <= j {
                i as int
            } else {
                i - 1
            },
            fragments_view(out@) =~= if i <= j {
                fragments_view(avail@).subrange(0, i as int)
            } else {
                fragments_view(avail@).subrange(0, j as int) + fragments_view(avail@).subrange(
                    j as int + 1,
                    i as int,
                )
            },
        decreases avail@.len() - i,
    {
        if i != j {
            let x = copy_fragment(&avail[i]);
            proof {
                let pre = out@;
                assert(fragments_view(pre.push(x)).subrange(0, pre.push(x).len() as int - 1)
                    =~= fragments_view(pre.push(x)).subrange(0, pre.len() as int));
                assert(pre.push(x).subrange(0, pre.len() as int) =~= pre);
                assert(fragments_view(pre.push(x)) =~= fragments_view(pre).push(fragment_view(x)));
            }
            out.push(x);
        }
        i += 1;
        proof {
            if i <= j {
                assert(fragments_view(out@) =~= fragments_view(avail@).subrange(0, i as int));
            } else {
                assert(fragments_view(out@) =~= fragments_view(avail@).subrange(0, j as int)
                    + fragments_view(avail@).subrange(j as int + 1, i as int));
            }
        }
    }
    out
}

fn find_frag_exec(frags: &Vec<Fragment>, path: &String) -> (j: usize)
    ensures
        j <= frags@.len(),
        j as int == find_frag(fragments_view(frags@), path@),
{
    proof {
        lemma_fragments_view(frags@);
    }
    let ghost fv = fragments_view(frags@);
    let mut i: usize = 0;
    while i < frags.len()
        invariant
            i <= frags.len(),
            fv == fragments_view(frags@),
            fv.len() == frags@.len(),
            forall|k: int|
                0 <= k < frags@.len() ==> #[trigger] fv[k] == fragment_view(frags@[k]),
            forall|k: int| 0 <= k < i ==> (#[trigger] fv[k]).path != path@,
        decreases frags@.len() - i,
    {
        if frags[i].path == *path {
            proof {
                lemma_find_frag_found(fv, path@, i as int);
            }
            return i;
        }
        i += 1;
    }
    proof {
        lemma_find_frag_absent(fv, path@);
    }
    i
}

fn resolve_from_exec(
    name: &String,
    tags: Vec<Tag>,
    p: &String,
    dir: &String,
    avail: &Vec<Fragment>,
    known: &Vec<Fragment>,
) -> (r: RRes<ItemMod>)
    ensures
        rres_mod_view(r) == resolve_from(
            name@,
            tags_view(tags@),
            p@,
            dir@,
            fragments_view(avail@),
            fragments_view(known@),
        ),
    decreases avail@.len(), 0int, tags@,
{
    let j = find_frag_exec(avail, p);
    proof {
        lemma_fragments_view(avail@);
    }
    if j < avail.len() {
        match &avail[j].items {
            Option::None => RRes::Failed(ResolveError::Missing(name.clone())),
            Option::Some(fitems) => {
                let avail2 = copy_frags_except(avail, j);
                let sub_dir = child_dir_exec(dir, name);
                let sub = resolve_items_exec(fitems, &sub_dir, &avail2, known);
                match sub {
                    RRes::Resolved(ritems) => RRes::Resolved(
                        ItemMod { tags, name: name.clone(), content: Option::Some(ritems) },
                    ),
                    RRes::Pending(ps) => RRes::Pending(ps),
                    RRes::Failed(e) => RRes::Failed(e),
                }
            },
        }
    } else {
        let k = find_frag_exec(known, p);
        proof {
            lemma_fragments_view(known@);
        }
        if k < known.len() {
            RRes::Failed(ResolveError::Cycle(name.clone()))
        } else {
            let mut ps: Vec<String> = Vec::new();
            ps.push(p.clone());
            proof {
                reveal_with_fuel(strings_view, 2);
                assert(ps@.subrange(0, 0) =~= Seq::<String>::empty());
                assert(strings_view(ps@) =~= seq![p@]);
            }
            RRes::Pending(ps)
        }
    }
}

fn resolve_mod_exec(m: &ItemMod, dir: &String, avail: &Vec<Fragment>, known: &Vec<Fragment>) -> (r:
    RRes<ItemMod>)
    ensures
        rres_mod_view(r) == resolve_mod_spec(
            item_mod_view(*m),
            dir@,
            fragments_view(avail@),
            fragments_view(known@),
        ),
    decreases avail@.len(), 1int, *m,
{
    let needs = match &m.content {
        Option::Some(v) => v.len() == 0,
        Option::None => true,
    };
    if !needs {
        match &m.content {
            Option::Some(items) => {
                let sub_dir = child_dir_exec(dir, &m.name);
                let sub = resolve_items_exec(items, &sub_dir, avail, known);
                match sub {
                    RRes::Resolved(ritems) => RRes::Resolved(
                        ItemMod {
                            tags: copy_tags(&m.tags),
                            name: m.name.clone(),
                            content: Option::Some(ritems),
                        },
                    ),
                    RRes::Pending(ps) => RRes::Pending(ps),
                    RRes::Failed(e) => RRes::Failed(e),
                }
            },
            Option::None => RRes::Failed(ResolveError::Missing(m.name.clone())),
        }
    } else {
        proof {
            crate::ast::lemma_tags_view(m.tags@);
        }
        let srcfam = source_family();
        let mut tags2 = copy_tags(&m.tags);
        proof {
            crate::attr::lemma_first_named_bounds(tags_view(m.tags@), spec_source_family());
        }
        let src = pop_attribute(&mut tags2, &srcfam);
        match src {
            Option::Some(p) => resolve_from_exec(&m.name, tags2, &p, dir, avail, known),
            Option::None => {
                let p1 = direct_path_exec(dir, &m.name);
                let p2 = index_path_exec(dir, &m.name);
                let j1 = find_frag_exec(avail, &p1);
                proof {
                    lemma_fragments_view(avail@);
                    lemma_fragments_view(known@);
                }
                let absent1 = j1 < avail.len() && (match &avail[j1].items {
                    Option::Some(_) => false,
                    Option::None => true,
                });
                if absent1 {
                    resolve_from_exec(&m.name, copy_tags(&m.tags), &p2, dir, avail, known)
                } else if j1 < avail.len() {
                    resolve_from_exec(&m.name, copy_tags(&m.tags), &p1, dir, avail, known)
                } else {
                    let k1 = find_frag_exec(known, &p1);
                    if k1 < known.len() {
                        resolve_from_exec(&m.name, copy_tags(&m.tags), &p1, dir, avail, known)
                    } else {
                        let mut ps: Vec<String> = Vec::new();
                        ps.push(p1);
                        ps.push(p2);
                        proof {
                            reveal_with_fuel(strings_view, 3);
                            assert(ps@.subrange(0, 1).subrange(0, 0) =~= Seq::<String>::empty());
                            assert(ps@.subrange(0, ps@.len() as int - 1) =~= ps@.subrange(0, 1));
                            assert(strings_view(ps@) =~= seq![
                                direct_path(dir@, m.name@),
                                index_path(dir@, m.name@),
                            ]);
                        }
                        RRes::Pending(ps)
                    }
                }
            },
        }
    }
}

fn resolve_item_exec(it: &Item, dir: &String, avail: &Vec<Fragment>, known: &Vec<Fragment>) -> (r:
    RRes<Item>)
    ensures
        rres_item_view(r) == resolve_item_spec(
            item_view(*it),
            dir@,
            fragments_view(avail@),
            fragments_view(known@),
        ),
    decreases avail@.len(), 1int, *it,
{
    match it {
        Item::Mod(m) => {
            let sub = resolve_mod_exec(m, dir, avail, known);
            match sub {
                RRes::Resolved(rm) => RRes::Resolved(Item::Mod(rm)),
                RRes::Pending(ps) => RRes::Pending(ps),
                RRes::Failed(e) => RRes::Failed(e),
            }
        },
        _ => RRes::Resolved(copy_item(it)),
    }
}

fn resolve_items_exec(v: &Vec<Item>, dir: &String, avail: &Vec<Fragment>, known: &Vec<Fragment>) -> (r:
    RRes<Vec<Item>>)
    ensures
        rres_items_view(r) == resolve_items_spec(
            items_view(v@),
            dir@,
            fragments_view(avail@),
            fragments_view(known@),
        ),
    decreases avail@.len(), 1int, v@,
{
    let ghost dv = dir@;
    let ghost av = fragments_view(avail@);
    let ghost kv = fragments_view(known@);
    let mut out: Vec<Item> = Vec::new();
    let mut i: usize = 0;
    while i < v.len()
        invariant
            i <= v.len(),
            dv == dir@,
            av == fragments_view(avail@),
            kv == fragments_view(known@),
            resolve_items_spec(items_view(v@.subrange(0, i as int)), dv, av, kv) == ROutV::<
                Seq<ItemV>,
            >::Resolved(items_view(out@)),
        decreases v@.len() - i,
    {
        let step = resolve_item_exec(&v[i], dir, avail, known);
        proof {
            lemma_items_view_push(v@.subrange(0, i as int), v@[i as int]);
            assert(v@.subrange(0, i as int).push(v@[i as int]) =~= v@.subrange(0, (i + 1) as int));
            let sv = items_view(v@.subrange(0, i as int));
            let xv = item_view(v@[i as int]);
            assert(sv.push(xv).subrange(0, sv.push(xv).len() - 1) =~= sv);
            assert(sv.push(xv)[sv.push(xv).len() - 1] == xv);
        }
        match step {
            RRes::Resolved(x) => {
                proof {
                    lemma_items_view_push(out@, x);
                }
                out.push(x);
            },
            RRes::Pending(ps) => {
                proof {
                    crate::ast::lemma_items_view(v@);
                    crate::ast::lemma_items_view(v@.subrange(0, (i + 1) as int));
                    assert(items_view(v@).subrange(0, (i + 1) as int) =~= items_view(
                        v@.subrange(0, (i + 1) as int),
                    ));
                    lemma_resolve_items_prefix(items_view(v@), dv, av, kv, (i + 1) as int);
                }
                return RRes::Pending(ps);
            },
            RRes::Failed(e) => {
                proof {
                    crate::ast::lemma_items_view(v@);
                    crate::ast::lemma_items_view(v@.subrange(0, (i + 1) as int));
                    assert(items_view(v@).subrange(0, (i + 1) as int) =~= items_view(
                        v@.subrange(0, (i + 1) as int),
                    ));
                    lemma_resolve_items_prefix(items_view(v@), dv, av, kv, (i + 1) as int);
                }
                return RRes::Failed(e);
            },
        }
        i += 1;
    }
    proof {
        assert(v@.subrange(0, v@.len() as int) =~= v@);
    }
    RRes::Resolved(out)
}

// ------------------------------------------------------------------
// The resolution invariant: a resolved tree is wholly inline.
// ------------------------------------------------------------------

proof fn lemma_resolve_from_inline(
    name: Seq<char>,
    tags: Seq<crate::ast::TagV>,
    p: Seq<char>,
    dir: Seq<char>,
    avail: Seq<FragmentV>,
    known: Seq<FragmentV>,
)
    ensures
        resolve_from(name, tags, p, dir, avail, known) matches ROutV::Resolved(t)
            ==> item_mod_all_inline(t),
    decreases avail.len(), 0int, tags,
{
    lemma_find_frag_bounds(avail, p);
    let j = find_frag(avail, p);
    if j < avail.len() {
        match avail[j].items {
            Option::Some(fitems) => {
                let avail2 = avail.subrange(0, j) + avail.subrange(j + 1, avail.len() as int);
                lemma_resolve_items_inline(fitems, child_dir(dir, name), avail2, known);
            },
            Option::None => {},
        }
    }
}

proof fn lemma_resolve_mod_inline(
    m: ItemModV,
    dir: Seq<char>,
    avail: Seq<FragmentV>,
    known: Seq<FragmentV>,
)
    ensures
        resolve_mod_spec(m, dir, avail, known) matches ROutV::Resolved(t)
            ==> item_mod_all_inline(t),
    decreases avail.len(), 1int, m,
{
    if !needs_resolution(m) {
        match m.content {
            Option::Some(items) => {
                lemma_resolve_items_inline(items, child_dir(dir, m.name), avail, known);
            },
            Option::None => {},
        }
    } else {
        let srcidx = first_named(m.tags, spec_source_family());
        if srcidx < m.tags.len() {
            let p = m.tags[srcidx].arg;
            let tags2 = m.tags.subrange(0, srcidx) + m.tags.subrange(
                srcidx + 1,
                m.tags.len() as int,
            );
            lemma_resolve_from_inline(m.name, tags2, p, dir, avail, known);
        } else {
            let p1 = direct_path(dir, m.name);
            let p2 = index_path(dir, m.name);
            lemma_find_frag_bounds(avail, p1);
            let j1 = find_frag(avail, p1);
            if j1 < avail.len() && avail[j1].items is None {
                lemma_resolve_from_inline(m.name, m.tags, p2, dir, avail, known);
            } else if j1 < avail.len() || find_frag(known, p1) < known.len() {
                lemma_resolve_from_inline(m.name, m.tags, p1, dir, avail, known);
            }
        }
    }
}

proof fn lemma_resolve_item_inline(
    it: ItemV,
    dir: Seq<char>,
    avail: Seq<FragmentV>,
    known: Seq<FragmentV>,
)
    ensures
        resolve_item_spec(it, dir, avail, known) matches ROutV::Resolved(x) ==> item_all_inline(x),
    decreases avail.len(), 1int, it,
{
    match it {
        ItemV::Mod(m) => {
            lemma_resolve_mod_inline(m, dir, avail, known);
        },
        _ => {},
    }
}

proof fn lemma_resolve_items_inline(
    s: Seq<ItemV>,
    dir: Seq<char>,
    avail: Seq<FragmentV>,
    known: Seq<FragmentV>,
)
    ensures
        resolve_items_spec(s, dir, avail, known) matches ROutV::Resolved(xs) ==> items_all_inline(
            xs,
        ),
    decreases avail.len(), 1int, s,
{
    if s.len() > 0 {
        let pre = s.subrange(0, s.len() - 1);
        lemma_resolve_items_inline(pre, dir, avail, known);
        lemma_resolve_item_inline(s[s.len() - 1], dir, avail, known);
        match resolve_items_spec(pre, dir, avail, known) {
            ROutV::Resolved(ritems) => {
                match resolve_item_spec(s[s.len() - 1], dir, avail, known) {
                    ROutV::Resolved(x) => {
                        let full = ritems.push(x);
                        assert(full.subrange(0, full.len() - 1) =~= ritems);
                        assert(full[full.len() - 1] == x);
                    },
                    _ => {},
                }
            },
            _ => {},
        }
    }
}

/// Resolves every out-of-line module under `m`, the root module, whose own
/// file would live in `base`. Fragments answer the file lookups; when one
/// is not yet answered, the needed paths come back as
/// [`Resolution::Need`]. On success every module in the returned tree is
/// inline.
pub fn resolve_mod(m: &ItemMod, base: &String, frags: &Vec<Fragment>) -> (r: Result<
    Resolution,
    ResolveError,
>)
    ensures
        result_view(r) == resolve_mod_spec(
            item_mod_view(*m),
            base@,
            fragments_view(frags@),
            fragments_view(frags@),
        ),
        r matches Result::Ok(Resolution::Done(t)) ==> item_mod_all_inline(item_mod_view(t)),
{
    let rr = resolve_mod_exec(m, base, frags, frags);
    proof {
        lemma_resolve_mod_inline(
            item_mod_view(*m),
            base@,
            fragments_view(frags@),
            fragments_view(frags@),
        );
    }
    match rr {
        RRes::Resolved(t) => Result::Ok(Resolution::Done(t)),
        RRes::Pending(ps) => Result::Ok(Resolution::Need(ps)),
        RRes::Failed(e) => Result::Err(e),
    }
}

} // verus!
