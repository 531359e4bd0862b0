//! The variant filter and self-reference rewriter.
//!
//! One copy of the annotated tree is walked per variant. Import paths whose
//! leading segments equal the root module's name are rewritten to the copy's
//! variant identifier; declarations, statements and expressions tagged for
//! the other variant are removed; tags naming this variant are stripped from
//! the survivors.
use vstd::prelude::*;

use crate::ast::{
    expr_view, exprs_view, item_mod_view, item_view, items_view, sig_view, sigs_view, stmt_view,
    stmts_view, tags_view, use_tree_view, use_trees_view, Expr, ExprV, Item, ItemMod,
    ItemModV, ItemV, Sig, SigV, Stmt, StmtV, Tag, TagV, UseTree, UseTreeV,
};
use crate::attr::{
    find_attribute, has_tag, remove_matched_attribute, spec_variant_family, strip_tags,
    variant_family,
};
use crate::dup::{copy_sig, copy_tags, copy_use_tree};
use crate::Version;

verus! {

// ------------------------------------------------------------------
// Self-reference rewriting.
// ------------------------------------------------------------------

/// The import path with every segment or entry equal to the root module's
/// name replaced by the variant's identifier.
pub open spec fn rewrite_use_tree(t: UseTreeV, root: Seq<char>, vname: Seq<char>) -> UseTreeV
    decreases t,
{
    match t {
        UseTreeV::Name(s) => UseTreeV::Name(
            if s == root {
                vname
            } else {
                s
            },
        ),
        UseTreeV::Rename(s, alias) => UseTreeV::Rename(
            if s == root {
                vname
            } else {
                s
            },
            alias,
        ),
        UseTreeV::Path(s, rest) => UseTreeV::Path(
            if s == root {
                vname
            } else {
                s
            },
            Box::new(rewrite_use_tree(*rest, root, vname)),
        ),
        UseTreeV::Group(trees) => UseTreeV::Group(rewrite_use_trees(trees, root, vname)),
    }
}

pub open spec fn rewrite_use_trees(s: Seq<UseTreeV>, root: Seq<char>, vname: Seq<char>) -> Seq<
    UseTreeV,
>
    decreases s,
{
    if s.len() == 0 {
        Seq::<UseTreeV>::empty()
    } else {
        rewrite_use_trees(s.subrange(0, s.len() - 1), root, vname).push(
            rewrite_use_tree(s[s.len() - 1], root, vname),
        )
    }
}

// ------------------------------------------------------------------
// The expression and statement pass: erase nodes tagged for the other
// variant, strip tags naming this variant, rewrite self-references.
// ------------------------------------------------------------------

/// The filtered form of one expression: erased to the unit expression when
/// tagged for the other variant, otherwise kept with the tag naming this
/// variant stripped and its children filtered; imports inside nested
/// blocks are rewritten against the root name.
pub open spec fn visit_expr(e: ExprV, root: Seq<char>, pres: Seq<char>, rem: Seq<char>) -> ExprV
    decreases e,
{
    match e {
        ExprV::Unit => ExprV::Unit,
        ExprV::Name(tags, s) => if has_tag(tags, spec_variant_family(), rem) {
            ExprV::Unit
        } else {
            ExprV::Name(strip_tags(tags, spec_variant_family(), pres), s)
        },
        ExprV::Call(tags, callee, args) => if has_tag(tags, spec_variant_family(), rem) {
            ExprV::Unit
        } else {
            ExprV::Call(
                strip_tags(tags, spec_variant_family(), pres),
                callee,
                visit_exprs(args, root, pres, rem),
            )
        },
        ExprV::Suspend(tags, base) => if has_tag(tags, spec_variant_family(), rem) {
            ExprV::Unit
        } else {
            ExprV::Suspend(
                strip_tags(tags, spec_variant_family(), pres),
                Box::new(visit_expr(*base, root, pres, rem)),
            )
        },
        ExprV::SuspendBlock(tags, stmts) => if has_tag(tags, spec_variant_family(), rem) {
            ExprV::Unit
        } else {
            ExprV::SuspendBlock(
                strip_tags(tags, spec_variant_family(), pres),
                visit_stmts(stmts, root, pres, rem),
            )
        },
        ExprV::Block(tags, stmts) => if has_tag(tags, spec_variant_family(), rem) {
            ExprV::Unit
        } else {
            ExprV::Block(
                strip_tags(tags, spec_variant_family(), pres),
                visit_stmts(stmts, root, pres, rem),
            )
        },
    }
}

pub open spec fn visit_exprs(s: Seq<ExprV>, root: Seq<char>, pres: Seq<char>, rem: Seq<char>) -> Seq<
    ExprV,
>
    decreases s,
{
    if s.len() == 0 {
        Seq::<ExprV>::empty()
    } else {
        visit_exprs(s.subrange(0, s.len() - 1), root, pres, rem).push(
            visit_expr(s[s.len() - 1], root, pres, rem),
        )
    }
}

/// The filtered form of one statement: a binding or body-level import
/// tagged for the other variant becomes the empty statement; a surviving
/// unqualified import has its self-references rewritten.
pub open spec fn visit_stmt(st: StmtV, root: Seq<char>, pres: Seq<char>, rem: Seq<char>) -> StmtV
    decreases st,
{
    match st {
        StmtV::Empty => StmtV::Empty,
        StmtV::Let(tags, name, e) => if has_tag(tags, spec_variant_family(), rem) {
            StmtV::Empty
        } else {
            StmtV::Let(
                strip_tags(tags, spec_variant_family(), pres),
                name,
                visit_expr(e, root, pres, rem),
            )
        },
        StmtV::Expr(e, semi) => StmtV::Expr(visit_expr(e, root, pres, rem), semi),
        StmtV::Use(tags, qualified, tree) => if has_tag(tags, spec_variant_family(), rem) {
            StmtV::Empty
        } else {
            StmtV::Use(
                strip_tags(tags, spec_variant_family(), pres),
                qualified,
                if qualified {
                    tree
                } else {
                    rewrite_use_tree(tree, root, pres)
                },
            )
        },
    }
}

pub open spec fn visit_stmts(s: Seq<StmtV>, root: Seq<char>, pres: Seq<char>, rem: Seq<char>) -> Seq<
    StmtV,
>
    decreases s,
{
    if s.len() == 0 {
        Seq::<StmtV>::empty()
    } else {
        visit_stmts(s.subrange(0, s.len() - 1), root, pres, rem).push(
            visit_stmt(s[s.len() - 1], root, pres, rem),
        )
    }
}

/// The statement pass applied to a callable's body; the callable's own tags
/// are the item passes' business, not this one's.
pub open spec fn visit_sig(sig: SigV, root: Seq<char>, pres: Seq<char>, rem: Seq<char>) -> SigV
    decreases sig,
{
    SigV {
        tags: sig.tags,
        vis: sig.vis,
        name: sig.name,
        suspend: sig.suspend,
        rest: sig.rest,
        body: match sig.body {
            Option::Some(b) => Option::Some(visit_stmts(b, root, pres, rem)),
            Option::None => Option::None,
        },
    }
}

pub open spec fn visit_sigs(s: Seq<SigV>, root: Seq<char>, pres: Seq<char>, rem: Seq<char>) -> Seq<
    SigV,
>
    decreases s,
{
    if s.len() == 0 {
        Seq::<SigV>::empty()
    } else {
        visit_sigs(s.subrange(0, s.len() - 1), root, pres, rem).push(
            visit_sig(s[s.len() - 1], root, pres, rem),
        )
    }
}

/// The expression, statement and import pass over one declaration. Import
/// paths without an external-namespace qualifier are rewritten; everything
/// else keeps its shape.
pub open spec fn visit_item(it: ItemV, root: Seq<char>, pres: Seq<char>, rem: Seq<char>) -> ItemV
    decreases it,
{
    match it {
        ItemV::Mod(m) => ItemV::Mod(visit_item_mod(m, root, pres, rem)),
        ItemV::Use(tags, qualified, tree) => ItemV::Use(
            tags,
            qualified,
            if qualified {
                tree
            } else {
                rewrite_use_tree(tree, root, pres)
            },
        ),
        ItemV::Fn(sig) => ItemV::Fn(visit_sig(sig, root, pres, rem)),
        ItemV::TypeDef(tags, name) => ItemV::TypeDef(tags, name),
        ItemV::Trait(tags, name, sigs) => ItemV::Trait(
            tags,
            name,
            visit_sigs(sigs, root, pres, rem),
        ),
        ItemV::Impl(tags, name, sigs) => ItemV::Impl(
            tags,
            name,
            visit_sigs(sigs, root, pres, rem),
        ),
    }
}

pub open spec fn visit_items(s: Seq<ItemV>, root: Seq<char>, pres: Seq<char>, rem: Seq<char>) -> Seq<
    ItemV,
>
    decreases s,
{
    if s.len() == 0 {
        Seq::<ItemV>::empty()
    } else {
        visit_items(s.subrange(0, s.len() - 1), root, pres, rem).push(
            visit_item(s[s.len() - 1], root, pres, rem),
        )
    }
}

pub open spec fn visit_item_mod(m: ItemModV, root: Seq<char>, pres: Seq<char>, rem: Seq<char>) -> ItemModV
    decreases m,
{
    ItemModV {
        tags: m.tags,
        name: m.name,
        content: match m.content {
            Option::Some(items) => Option::Some(visit_items(items, root, pres, rem)),
            Option::None => Option::None,
        },
    }
}

// ------------------------------------------------------------------
// Declaration removal: drop every declaration tagged for the other variant.
// ------------------------------------------------------------------

/// The tags a declaration carries.
pub open spec fn item_tags(it: ItemV) -> Seq<TagV> {
    match it {
        ItemV::Mod(m) => m.tags,
        ItemV::Use(tags, _, _) => tags,
        ItemV::Fn(sig) => sig.tags,
        ItemV::TypeDef(tags, _) => tags,
        ItemV::Trait(tags, _, _) => tags,
        ItemV::Impl(tags, _, _) => tags,
    }
}

/// Method signatures tagged for the other variant are dropped.
pub open spec fn remove_sigs(s: Seq<SigV>, rem: Seq<char>) -> Seq<SigV>
    decreases s,
{
    if s.len() == 0 {
        Seq::<SigV>::empty()
    } else {
        let rest = remove_sigs(s.subrange(0, s.len() - 1), rem);
        let last = s[s.len() - 1];
        if has_tag(last.tags, spec_variant_family(), rem) {
            rest
        } else {
            rest.push(last)
        }
    }
}

/// The declaration with every nested declaration tagged for the other
/// variant removed; the declaration's own tags are its parent's business.
pub open spec fn remove_item_inner(it: ItemV, rem: Seq<char>) -> ItemV
    decreases it,
{
    match it {
        ItemV::Mod(m) => ItemV::Mod(remove_items_mod(m, rem)),
        ItemV::Trait(tags, name, sigs) => ItemV::Trait(tags, name, remove_sigs(sigs, rem)),
        ItemV::Impl(tags, name, sigs) => ItemV::Impl(tags, name, remove_sigs(sigs, rem)),
        _ => it,
    }
}

pub open spec fn remove_items(s: Seq<ItemV>, rem: Seq<char>) -> Seq<ItemV>
    decreases s,
{
    if s.len() == 0 {
        Seq::<ItemV>::empty()
    } else {
        let rest = remove_items(s.subrange(0, s.len() - 1), rem);
        let last = s[s.len() - 1];
        if has_tag(item_tags(last), spec_variant_family(), rem) {
            rest
        } else {
            rest.push(remove_item_inner(last, rem))
        }
    }
}

/// The module with every declaration tagged for the other variant removed,
/// recursively through nested modules.
pub open spec fn remove_items_mod(m: ItemModV, rem: Seq<char>) -> ItemModV
    decreases m,
{
    ItemModV {
        tags: m.tags,
        name: m.name,
        content: match m.content {
            Option::Some(items) => Option::Some(remove_items(items, rem)),
            Option::None => Option::None,
        },
    }
}

// ------------------------------------------------------------------
// Tag cleanup: strip the surviving variant's tags from retained
// declarations.
// ------------------------------------------------------------------

pub open spec fn strip_sig(sig: SigV, pres: Seq<char>) -> SigV {
    SigV {
        tags: strip_tags(sig.tags, spec_variant_family(), pres),
        vis: sig.vis,
        name: sig.name,
        suspend: sig.suspend,
        rest: sig.rest,
        body: sig.body,
    }
}

pub open spec fn strip_sigs(s: Seq<SigV>, pres: Seq<char>) -> Seq<SigV>
    decreases s,
{
    if s.len() == 0 {
        Seq::<SigV>::empty()
    } else {
        strip_sigs(s.subrange(0, s.len() - 1), pres).push(strip_sig(s[s.len() - 1], pres))
    }
}

/// The declaration with this variant's tags stripped from it and from every
/// nested declaration.
pub open spec fn strip_item(it: ItemV, pres: Seq<char>) -> ItemV
    decreases it,
{
    match it {
        ItemV::Mod(m) => ItemV::Mod(
            ItemModV {
                tags: strip_tags(m.tags, spec_variant_family(), pres),
                name: m.name,
                content: match m.content {
                    Option::Some(items) => Option::Some(strip_items(items, pres)),
                    Option::None => Option::None,
                },
            },
        ),
        ItemV::Use(tags, qualified, tree) => ItemV::Use(
            strip_tags(tags, spec_variant_family(), pres),
            qualified,
            tree,
        ),
        ItemV::Fn(sig) => ItemV::Fn(strip_sig(sig, pres)),
        ItemV::TypeDef(tags, name) => ItemV::TypeDef(
            strip_tags(tags, spec_variant_family(), pres),
            name,
        ),
        ItemV::Trait(tags, name, sigs) => ItemV::Trait(
            strip_tags(tags, spec_variant_family(), pres),
            name,
            strip_sigs(sigs, pres),
        ),
        ItemV::Impl(tags, name, sigs) => ItemV::Impl(
            strip_tags(tags, spec_variant_family(), pres),
            name,
            strip_sigs(sigs, pres),
        ),
    }
}

pub open spec fn strip_items(s: Seq<ItemV>, pres: Seq<char>) -> Seq<ItemV>
    decreases s,
{
    if s.len() == 0 {
        Seq::<ItemV>::empty()
    } else {
        strip_items(s.subrange(0, s.len() - 1), pres).push(strip_item(s[s.len() - 1], pres))
    }
}

/// The module with this variant's tags stripped from every declaration in
/// it, recursively; the module's own tags are its parent's business.
pub open spec fn strip_items_mod(m: ItemModV, pres: Seq<char>) -> ItemModV
    decreases m,
{
    ItemModV {
        tags: m.tags,
        name: m.name,
        content: match m.content {
            Option::Some(items) => Option::Some(strip_items(items, pres)),
            Option::None => Option::None,
        },
    }
}

// ------------------------------------------------------------------
// The whole conversion of one variant copy.
// ------------------------------------------------------------------

/// What converting one copy means: clean both variant tags from the root
/// itself (the root cannot be dropped), run the expression, statement and
/// import pass, remove declarations tagged for the other variant, then
/// strip this variant's tags from the survivors.
pub open spec fn convert_spec(m: ItemModV, root: Seq<char>, pres: Seq<char>, rem: Seq<char>) -> ItemModV {
    let cleaned = ItemModV {
        tags: strip_tags(
            strip_tags(m.tags, spec_variant_family(), pres),
            spec_variant_family(),
            rem,
        ),
        name: m.name,
        content: m.content,
    };
    strip_items_mod(remove_items_mod(visit_item_mod(cleaned, root, pres, rem), rem), pres)
}


// ------------------------------------------------------------------
// Executable conversion.
// ------------------------------------------------------------------

/// Walks one variant copy: fills in the self-reference rewrite and the
/// variant filter for that copy's variant.
pub struct AmphiConversion {
    /// The variant this copy is for.
    pub version: Version,
    /// The root module's original name: the token rewritten in
    /// self-referencing import paths.
    pub mod_name: String,
}

impl AmphiConversion {
    /// The identifier of this copy's variant.
    pub open spec fn spec_pres(self) -> Seq<char> {
        self.version.spec_str()
    }

    /// The identifier of the other variant, whose tagged nodes are dropped.
    pub open spec fn spec_rem(self) -> Seq<char> {
        self.version.spec_other().spec_str()
    }

    pub fn new(version: Version, mod_name: String) -> (r: AmphiConversion)
        ensures
            r.version == version,
            r.mod_name == mod_name,
    {
        AmphiConversion { version, mod_name }
    }

    fn preserve_name(&self) -> (r: String)
        ensures
            r@ == self.spec_pres(),
    {
        self.version.as_str().to_owned()
    }

    fn remove_name(&self) -> (r: String)
        ensures
            r@ == self.spec_rem(),
    {
        self.version.other().as_str().to_owned()
    }

    /// Whether a node's tags scope it to the other variant.
    fn erased(&self, tags: &Vec<Tag>) -> (r: bool)
        ensures
            r == has_tag(tags_view(tags@), spec_variant_family(), self.spec_rem()),
    {
        let rem = self.remove_name();
        find_attribute(tags, &rem)
    }

    /// The node's tags with this variant's own tag stripped.
    fn strip_own(&self, tags: &Vec<Tag>) -> (r: Vec<Tag>)
        ensures
            tags_view(r@) == strip_tags(tags_view(tags@), spec_variant_family(), self.spec_pres()),
    {
        let mut out = copy_tags(tags);
        let fam = variant_family();
        let pres = self.preserve_name();
        let _ = remove_matched_attribute(&mut out, &fam, &pres);
        out
    }

    /// One identifier of an import path, rewritten when it equals the root
    /// module's name.
    fn rename_ident(&self, s: &String) -> (r: String)
        ensures
            r@ == if s@ == self.mod_name@ {
                self.spec_pres()
            } else {
                s@
            },
    {
        if *s == self.mod_name {
            self.version.as_str().to_owned()
        } else {
            s.clone()
        }
    }

    /// Rewrites self-referencing segments of one import path.
    fn replace_use_tree(&self, t: &UseTree) -> (r: UseTree)
        ensures
            use_tree_view(r) == rewrite_use_tree(
                use_tree_view(*t),
                self.mod_name@,
                self.spec_pres(),
            ),
        decreases *t,
    {
        match t {
            UseTree::Name(s) => UseTree::Name(self.rename_ident(s)),
            UseTree::Rename(s, alias) => UseTree::Rename(self.rename_ident(s), alias.clone()),
            UseTree::Path(s, rest) => UseTree::Path(
                self.rename_ident(s),
                Box::new(self.replace_use_tree(&**rest)),
            ),
            UseTree::Group(trees) => UseTree::Group(self.replace_use_trees(trees)),
        }
    }

    fn replace_use_trees(&self, v: &Vec<UseTree>) -> (r: Vec<UseTree>)
        ensures
            use_trees_view(r@) == rewrite_use_trees(
                use_trees_view(v@),
                self.mod_name@,
                self.spec_pres(),
            ),
        decreases v@,
    {
        let mut out: Vec<UseTree> = Vec::new();
        let mut i: usize = 0;
        while i < v.len()
            invariant
                i <= v.len(),
                use_trees_view(out@) == rewrite_use_trees(
                    use_trees_view(v@.subrange(0, i as int)),
                    self.mod_name@,
                    self.spec_pres(),
                ),
            decreases v@.len() - i,
        {
            let x = self.replace_use_tree(&v[i]);
            proof {
                crate::ast::lemma_use_trees_view_push(v@.subrange(0, i as int), v@[i as int]);
                assert(v@.subrange(0, i as int).push(v@[i as int]) =~= v@.subrange(
                    0,
                    (i + 1) as int,
                ));
                let sv = use_trees_view(v@.subrange(0, i as int));
                let xv = use_tree_view(v@[i as int]);
                assert(sv.push(xv).subrange(0, sv.push(xv).len() - 1) =~= sv);
                assert(sv.push(xv)[sv.push(xv).len() - 1] == xv);
                crate::ast::lemma_use_trees_view_push(out@, x);
            }
            out.push(x);
            i += 1;
        }
        proof {
            assert(v@.subrange(0, v@.len() as int) =~= v@);
        }
        out
    }

    /// The filter applied to one expression.
    fn tailor_expr(&self, e: &Expr) -> (r: Expr)
        ensures
            expr_view(r) == visit_expr(
                expr_view(*e),
                self.mod_name@,
                self.spec_pres(),
                self.spec_rem(),
            ),
        decreases *e,
    {
        match e {
            Expr::Unit => Expr::Unit,
            Expr::Name(tags, s) => {
                if self.erased(tags) {
                    Expr::Unit
                } else {
                    Expr::Name(self.strip_own(tags), s.clone())
                }
            },
            Expr::Call(tags, callee, args) => {
                if self.erased(tags) {
                    Expr::Unit
                } else {
                    Expr::Call(self.strip_own(tags), callee.clone(), self.tailor_exprs(args))
                }
            },
            Expr::Suspend(tags, base) => {
                if self.erased(tags) {
                    Expr::Unit
                } else {
                    Expr::Suspend(self.strip_own(tags), Box::new(self.tailor_expr(&**base)))
                }
            },
            Expr::SuspendBlock(tags, stmts) => {
                if self.erased(tags) {
                    Expr::Unit
                } else {
                    Expr::SuspendBlock(self.strip_own(tags), self.tailor_stmts(stmts))
                }
            },
            Expr::Block(tags, stmts) => {
                if self.erased(tags) {
                    Expr::Unit
                } else {
                    Expr::Block(self.strip_own(tags), self.tailor_stmts(stmts))
                }
            },
        }
    }

    fn tailor_exprs(&self, v: &Vec<Expr>) -> (r: Vec<Expr>)
        ensures
            exprs_view(r@) == visit_exprs(
                exprs_view(v@),
                self.mod_name@,
                self.spec_pres(),
                self.spec_rem(),
            ),
        decreases v@,
    {
        let mut out: Vec<Expr> = Vec::new();
        let mut i: usize = 0;
        while i < v.len()
            invariant
                i <= v.len(),
                exprs_view(out@) == visit_exprs(
                    exprs_view(v@.subrange(0, i as int)),
                    self.mod_name@,
                    self.spec_pres(),
                    self.spec_rem(),
                ),
            decreases v@.len() - i,
        {
            let x = self.tailor_expr(&v[i]);
            proof {
                crate::ast::lemma_exprs_view_push(v@.subrange(0, i as int), v@[i as int]);
                assert(v@.subrange(0, i as int).push(v@[i as int]) =~= v@.subrange(
                    0,
                    (i + 1) as int,
                ));
                let sv = exprs_view(v@.subrange(0, i as int));
                let xv = expr_view(v@[i as int]);
                assert(sv.push(xv).subrange(0, sv.push(xv).len() - 1) =~= sv);
                assert(sv.push(xv)[sv.push(xv).len() - 1] == xv);
                crate::ast::lemma_exprs_view_push(out@, x);
            }
            out.push(x);
            i += 1;
        }
        proof {
            assert(v@.subrange(0, v@.len() as int) =~= v@);
        }
        out
    }

    /// The filter applied to one statement.
    fn tailor_stmt(&self, st: &Stmt) -> (r: Stmt)
        ensures
            stmt_view(r) == visit_stmt(
                stmt_view(*st),
                self.mod_name@,
                self.spec_pres(),
                self.spec_rem(),
            ),
        decreases *st,
    {
        match st {
            Stmt::Empty => Stmt::Empty,
            Stmt::Let(tags, name, e) => {
                if self.erased(tags) {
                    Stmt::Empty
                } else {
                    Stmt::Let(self.strip_own(tags), name.clone(), self.tailor_expr(e))
                }
            },
            Stmt::Expr(e, semi) => Stmt::Expr(self.tailor_expr(e), *semi),
            Stmt::Use(tags, qualified, tree) => {
                if self.erased(tags) {
                    Stmt::Empty
                } else {
                    Stmt::Use(
                        self.strip_own(tags),
                        *qualified,
                        if *qualified {
                            copy_use_tree(tree)
                        } else {
                            self.replace_use_tree(tree)
                        },
                    )
                }
            },
        }
    }

    fn tailor_stmts(&self, v: &Vec<Stmt>) -> (r: Vec<Stmt>)
        ensures
            stmts_view(r@) == visit_stmts(
                stmts_view(v@),
                self.mod_name@,
                self.spec_pres(),
                self.spec_rem(),
            ),
        decreases v@,
    {
        let mut out: Vec<Stmt> = Vec::new();
        let mut i: usize = 0;
        while i < v.len()
            invariant
                i <= v.len(),
                stmts_view(out@) == visit_stmts(
                    stmts_view(v@.subrange(0, i as int)),
                    self.mod_name@,
                    self.spec_pres(),
                    self.spec_rem(),
                ),
            decreases v@.len() - i,
        {
            let x = self.tailor_stmt(&v[i]);
            proof {
                crate::ast::lemma_stmts_view_push(v@.subrange(0, i as int), v@[i as int]);
                assert(v@.subrange(0, i as int).push(v@[i as int]) =~= v@.subrange(
                    0,
                    (i + 1) as int,
                ));
                let sv = stmts_view(v@.subrange(0, i as int));
                let xv = stmt_view(v@[i as int]);
                assert(sv.push(xv).subrange(0, sv.push(xv).len() - 1) =~= sv);
                assert(sv.push(xv)[sv.push(xv).len() - 1] == xv);
                crate::ast::lemma_stmts_view_push(out@, x);
            }
            out.push(x);
            i += 1;
        }
        proof {
            assert(v@.subrange(0, v@.len() as int) =~= v@);
        }
        out
    }

    fn tailor_sig(&self, sig: &Sig) -> (r: Sig)
        ensures
            sig_view(r) == visit_sig(
                sig_view(*sig),
                self.mod_name@,
                self.spec_pres(),
                self.spec_rem(),
            ),
        decreases *sig,
    {
        Sig {
            tags: copy_tags(&sig.tags),
            vis: sig.vis.clone(),
            name: sig.name.clone(),
            suspend: sig.suspend,
            rest: sig.rest.clone(),
            body: match &sig.body {
                Option::Some(b) => Option::Some(self.tailor_stmts(b)),
                Option::None => Option::None,
            },
        }
    }

    fn tailor_sigs(&self, v: &Vec<Sig>) -> (r: Vec<Sig>)
        ensures
            sigs_view(r@) == visit_sigs(
                sigs_view(v@),
                self.mod_name@,
                self.spec_pres(),
                self.spec_rem(),
            ),
        decreases v@,
    {
        let mut out: Vec<Sig> = Vec::new();
        let mut i: usize = 0;
        while i < v.len()
            invariant
                i <= v.len(),
                sigs_view(out@) == visit_sigs(
                    sigs_view(v@.subrange(0, i as int)),
                    self.mod_name@,
                    self.spec_pres(),
                    self.spec_rem(),
                ),
            decreases v@.len() - i,
        {
            let x = self.tailor_sig(&v[i]);
            proof {
                crate::ast::lemma_sigs_view_push(v@.subrange(0, i as int), v@[i as int]);
                assert(v@.subrange(0, i as int).push(v@[i as int]) =~= v@.subrange(
                    0,
                    (i + 1) as int,
                ));
                let sv = sigs_view(v@.subrange(0, i as int));
                let xv = sig_view(v@[i as int]);
                assert(sv.push(xv).subrange(0, sv.push(xv).len() - 1) =~= sv);
                assert(sv.push(xv)[sv.push(xv).len() - 1] == xv);
                crate::ast::lemma_sigs_view_push(out@, x);
            }
            out.push(x);
            i += 1;
        }
        proof {
            assert(v@.subrange(0, v@.len() as int) =~= v@);
        }
        out
    }

    /// The expression, statement and import pass over one declaration.
    fn tailor_item(&self, it: &Item) -> (r: Item)
        ensures
            item_view(r) == visit_item(
                item_view(*it),
                self.mod_name@,
                self.spec_pres(),
                self.spec_rem(),
            ),
        decreases *it,
    {
        match it {
            Item::Mod(m) => Item::Mod(self.tailor_item_mod(m)),
            Item::Use(tags, qualified, tree) => Item::Use(
                copy_tags(tags),
                *qualified,
                if *qualified {
                    copy_use_tree(tree)
                } else {
                    self.replace_use_tree(tree)
                },
            ),
            Item::Fn(sig) => Item::Fn(self.tailor_sig(sig)),
            Item::TypeDef(tags, name) => Item::TypeDef(copy_tags(tags), name.clone()),
            Item::Trait(tags, name, sigs) => Item::Trait(
                copy_tags(tags),
                name.clone(),
                self.tailor_sigs(sigs),
            ),
            Item::Impl(tags, name, sigs) => Item::Impl(
                copy_tags(tags),
                name.clone(),
                self.tailor_sigs(sigs),
            ),
        }
    }

    fn tailor_items(&self, v: &Vec<Item>) -> (r: Vec<Item>)
        ensures
            items_view(r@) == visit_items(
                items_view(v@),
                self.mod_name@,
                self.spec_pres(),
                self.spec_rem(),
            ),
        decreases v@,
    {
        let mut out: Vec<Item> = Vec::new();
        let mut i: usize = 0;
        while i < v.len()
            invariant
                i <= v.len(),
                items_view(out@) == visit_items(
                    items_view(v@.subrange(0, i as int)),
                    self.mod_name@,
                    self.spec_pres(),
                    self.spec_rem(),
                ),
            decreases v@.len() - i,
        {
            let x = self.tailor_item(&v[i]);
            proof {
                crate::ast::lemma_items_view_push(v@.subrange(0, i as int), v@[i as int]);
                assert(v@.subrange(0, i as int).push(v@[i as int]) =~= v@.subrange(
                    0,
                    (i + 1) as int,
                ));
                let sv = items_view(v@.subrange(0, i as int));
                let xv = item_view(v@[i as int]);
                assert(sv.push(xv).subrange(0, sv.push(xv).len() - 1) =~= sv);
                assert(sv.push(xv)[sv.push(xv).len() - 1] == xv);
                crate::ast::lemma_items_view_push(out@, x);
            }
            out.push(x);
            i += 1;
        }
        proof {
            assert(v@.subrange(0, v@.len() as int) =~= v@);
        }
        out
    }

    fn tailor_item_mod(&self, m: &ItemMod) -> (r: ItemMod)
        ensures
            item_mod_view(r) == visit_item_mod(
                item_mod_view(*m),
                self.mod_name@,
                self.spec_pres(),
                self.spec_rem(),
            ),
        decreases *m,
    {
        ItemMod {
            tags: copy_tags(&m.tags),
            name: m.name.clone(),
            content: match &m.content {
                Option::Some(items) => Option::Some(self.tailor_items(items)),
                Option::None => Option::None,
            },
        }
    }

    /// The expression, statement and import pass applied to one free
    /// declaration, as the paired-test adapter uses it.
    pub fn convert_item(&self, it: &Item) -> (r: Item)
        ensures
            item_view(r) == visit_item(
                item_view(*it),
                self.mod_name@,
                self.spec_pres(),
                self.spec_rem(),
            ),
    {
        self.tailor_item(it)
    }

    /// Converts one variant copy: rewrites self-references and keeps only
    /// the code that conforms to this copy's variant, tag metadata stripped.
    pub fn convert(&self, m: ItemMod) -> (r: ItemMod)
        ensures
            item_mod_view(r) == convert_spec(
                item_mod_view(m),
                self.mod_name@,
                self.spec_pres(),
                self.spec_rem(),
            ),
    {
        let mut root = m;
        let fam = variant_family();
        let pres = self.preserve_name();
        let rem = self.remove_name();
        let _ = remove_matched_attribute(&mut root.tags, &fam, &pres);
        let _ = remove_matched_attribute(&mut root.tags, &fam, &rem);
        let mut out = self.tailor_item_mod(&root);
        mod_remove_items(&mut out, &rem);
        mod_remove_attr(&mut out, &pres);
        out
    }
}

/// The tags of one declaration, read in place.
fn item_tags_ref<'a>(it: &'a Item) -> (r: &'a Vec<Tag>)
    ensures
        tags_view(r@) == item_tags(item_view(*it)),
{
    match it {
        Item::Mod(m) => &m.tags,
        Item::Use(tags, _, _) => tags,
        Item::Fn(sig) => &sig.tags,
        Item::TypeDef(tags, _) => tags,
        Item::Trait(tags, _, _) => tags,
        Item::Impl(tags, _, _) => tags,
    }
}

fn remove_sigs_vec(v: &Vec<Sig>, remove: &String) -> (r: Vec<Sig>)
    ensures
        sigs_view(r@) == remove_sigs(sigs_view(v@), remove@),
    decreases v@,
{
    let mut out: Vec<Sig> = Vec::new();
    let mut i: usize = 0;
    while i < v.len()
        invariant
            i <= v.len(),
            sigs_view(out@) == remove_sigs(sigs_view(v@.subrange(0, i as int)), remove@),
        decreases v@.len() - i,
    {
        let drop_it = find_attribute(&v[i].tags, remove);
        proof {
            crate::ast::lemma_sigs_view_push(v@.subrange(0, i as int), v@[i as int]);
            assert(v@.subrange(0, i as int).push(v@[i as int]) =~= v@.subrange(0, (i + 1) as int));
            let sv = sigs_view(v@.subrange(0, i as int));
            let xv = sig_view(v@[i as int]);
            assert(sv.push(xv).subrange(0, sv.push(xv).len() - 1) =~= sv);
            assert(sv.push(xv)[sv.push(xv).len() - 1] == xv);
        }
        if !drop_it {
            let kept = copy_sig(&v[i]);
            proof {
                crate::ast::lemma_sigs_view_push(out@, kept);
            }
            out.push(kept);
        }
        i += 1;
    }
    proof {
        assert(v@.subrange(0, v@.len() as int) =~= v@);
    }
    out
}

/// The declaration with nested declarations tagged `remove` dropped.
fn remove_item_inner_exec(it: &Item, remove: &String) -> (r: Item)
    ensures
        item_view(r) == remove_item_inner(item_view(*it), remove@),
    decreases *it,
{
    match it {
        Item::Mod(m) => Item::Mod(
            ItemMod {
                tags: copy_tags(&m.tags),
                name: m.name.clone(),
                content: match &m.content {
                    Option::Some(items) => Option::Some(remove_items_vec(items, remove)),
                    Option::None => Option::None,
                },
            },
        ),
        Item::Trait(tags, name, sigs) => Item::Trait(
            copy_tags(tags),
            name.clone(),
            remove_sigs_vec(sigs, remove),
        ),
        Item::Impl(tags, name, sigs) => Item::Impl(
            copy_tags(tags),
            name.clone(),
            remove_sigs_vec(sigs, remove),
        ),
        _ => crate::dup::copy_item(it),
    }
}

fn remove_items_vec(v: &Vec<Item>, remove: &String) -> (r: Vec<Item>)
    ensures
        items_view(r@) == remove_items(items_view(v@), remove@),
    decreases v@,
{
    let mut out: Vec<Item> = Vec::new();
    let mut i: usize = 0;
    while i < v.len()
        invariant
            i <= v.len(),
            items_view(out@) == remove_items(items_view(v@.subrange(0, i as int)), remove@),
        decreases v@.len() - i,
    {
        let drop_it = find_attribute(item_tags_ref(&v[i]), remove);
        proof {
            crate::ast::lemma_items_view_push(v@.subrange(0, i as int), v@[i as int]);
            assert(v@.subrange(0, i as int).push(v@[i as int]) =~= v@.subrange(0, (i + 1) as int));
            let sv = items_view(v@.subrange(0, i as int));
            let xv = item_view(v@[i as int]);
            assert(sv.push(xv).subrange(0, sv.push(xv).len() - 1) =~= sv);
            assert(sv.push(xv)[sv.push(xv).len() - 1] == xv);
        }
        if !drop_it {
            let kept = remove_item_inner_exec(&v[i], remove);
            proof {
                crate::ast::lemma_items_view_push(out@, kept);
            }
            out.push(kept);
        }
        i += 1;
    }
    proof {
        assert(v@.subrange(0, v@.len() as int) =~= v@);
    }
    out
}

/// Removes every declaration tagged for the variant named `remove`,
/// recursively through nested modules, interfaces and implementation
/// blocks.
pub fn mod_remove_items(item_mod: &mut ItemMod, remove: &String)
    ensures
        item_mod_view(*final(item_mod)) == remove_items_mod(item_mod_view(*old(item_mod)), remove@),
{
    let new_content = match &item_mod.content {
        Option::Some(items) => Option::Some(remove_items_vec(items, remove)),
        Option::None => Option::None,
    };
    item_mod.content = new_content;
}

fn strip_sig_exec(sig: &Sig, preserve: &String) -> (r: Sig)
    ensures
        sig_view(r) == strip_sig(sig_view(*sig), preserve@),
{
    let fam = variant_family();
    let mut tags = copy_tags(&sig.tags);
    let _ = remove_matched_attribute(&mut tags, &fam, preserve);
    Sig {
        tags,
        vis: sig.vis.clone(),
        name: sig.name.clone(),
        suspend: sig.suspend,
        rest: sig.rest.clone(),
        body: match &sig.body {
            Option::Some(b) => Option::Some(crate::dup::copy_stmts(b)),
            Option::None => Option::None,
        },
    }
}

fn strip_sigs_vec(v: &Vec<Sig>, preserve: &String) -> (r: Vec<Sig>)
    ensures
        sigs_view(r@) == strip_sigs(sigs_view(v@), preserve@),
{
    let mut out: Vec<Sig> = Vec::new();
    let mut i: usize = 0;
    while i < v.len()
        invariant
            i <= v.len(),
            sigs_view(out@) == strip_sigs(sigs_view(v@.subrange(0, i as int)), preserve@),
        decreases v@.len() - i,
    {
        let x = strip_sig_exec(&v[i], preserve);
        proof {
            crate::ast::lemma_sigs_view_push(v@.subrange(0, i as int), v@[i as int]);
            assert(v@.subrange(0, i as int).push(v@[i as int]) =~= v@.subrange(0, (i + 1) as int));
            let sv = sigs_view(v@.subrange(0, i as int));
            let xv = sig_view(v@[i as int]);
            assert(sv.push(xv).subrange(0, sv.push(xv).len() - 1) =~= sv);
            assert(sv.push(xv)[sv.push(xv).len() - 1] == xv);
            crate::ast::lemma_sigs_view_push(out@, x);
        }
        out.push(x);
        i += 1;
    }
    proof {
        assert(v@.subrange(0, v@.len() as int) =~= v@);
    }
    out
}

/// The declaration with this variant's tags stripped from it and from every
/// nested declaration.
fn strip_item_exec(it: &Item, preserve: &String) -> (r: Item)
    ensures
        item_view(r) == strip_item(item_view(*it), preserve@),
    decreases *it,
{
    let fam = variant_family();
    match it {
        Item::Mod(m) => {
            let mut tags = copy_tags(&m.tags);
            let _ = remove_matched_attribute(&mut tags, &fam, preserve);
            Item::Mod(
                ItemMod {
                    tags,
                    name: m.name.clone(),
                    content: match &m.content {
                        Option::Some(items) => Option::Some(strip_items_vec(items, preserve)),
                        Option::None => Option::None,
                    },
                },
            )
        },
        Item::Use(tags, qualified, tree) => {
            let mut tags2 = copy_tags(tags);
            let _ = remove_matched_attribute(&mut tags2, &fam, preserve);
            Item::Use(tags2, *qualified, copy_use_tree(tree))
        },
        Item::Fn(sig) => Item::Fn(strip_sig_exec(sig, preserve)),
        Item::TypeDef(tags, name) => {
            let mut tags2 = copy_tags(tags);
            let _ = remove_matched_attribute(&mut tags2, &fam, preserve);
            Item::TypeDef(tags2, name.clone())
        },
        Item::Trait(tags, name, sigs) => {
            let mut tags2 = copy_tags(tags);
            let _ = remove_matched_attribute(&mut tags2, &fam, preserve);
            Item::Trait(tags2, name.clone(), strip_sigs_vec(sigs, preserve))
        },
        Item::Impl(tags, name, sigs) => {
            let mut tags2 = copy_tags(tags);
            let _ = remove_matched_attribute(&mut tags2, &fam, preserve);
            Item::Impl(tags2, name.clone(), strip_sigs_vec(sigs, preserve))
        },
    }
}

fn strip_items_vec(v: &Vec<Item>, preserve: &String) -> (r: Vec<Item>)
    ensures
        items_view(r@) == strip_items(items_view(v@), preserve@),
    decreases v@,
{
    let mut out: Vec<Item> = Vec::new();
    let mut i: usize = 0;
    while i < v.len()
        invariant
            i <= v.len(),
            items_view(out@) == strip_items(items_view(v@.subrange(0, i as int)), preserve@),
        decreases v@.len() - i,
    {
        let x = strip_item_exec(&v[i], preserve);
        proof {
            crate::ast::lemma_items_view_push(v@.subrange(0, i as int), v@[i as int]);
            assert(v@.subrange(0, i as int).push(v@[i as int]) =~= v@.subrange(0, (i + 1) as int));
            let sv = items_view(v@.subrange(0, i as int));
            let xv = item_view(v@[i as int]);
            assert(sv.push(xv).subrange(0, sv.push(xv).len() - 1) =~= sv);
            assert(sv.push(xv)[sv.push(xv).len() - 1] == xv);
            crate::ast::lemma_items_view_push(out@, x);
        }
        out.push(x);
        i += 1;
    }
    proof {
        assert(v@.subrange(0, v@.len() as int) =~= v@);
    }
    out
}

/// Strips the tag naming the surviving variant from every declaration in
/// the module, recursively: the cleanup that leaves survivors tag-free.
pub fn mod_remove_attr(item_mod: &mut ItemMod, preserve: &String)
    ensures
        item_mod_view(*final(item_mod)) == strip_items_mod(
            item_mod_view(*old(item_mod)),
            preserve@,
        ),
{
    let new_content = match &item_mod.content {
        Option::Some(items) => Option::Some(strip_items_vec(items, preserve)),
        Option::None => Option::None,
    };
    item_mod.content = new_content;
}

} // verus!
