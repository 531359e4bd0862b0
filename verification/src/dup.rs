//! The tree duplicator: deep, independent copies of syntax trees.
//!
//! Each copy function returns a tree whose mathematical twin equals the
//! twin of its input; the variant copies therefore share no state while
//! agreeing on every observable part.
use vstd::prelude::*;

use crate::ast::{
    expr_view, exprs_view, item_mod_view, item_view, items_view, lemma_exprs_view_push,
    lemma_items_view_push, lemma_sigs_view_push, lemma_stmts_view_push, lemma_tags_view_push,
    lemma_use_trees_view_push, sig_view, sigs_view, stmt_view, stmts_view, tag_view, tags_view,
    use_tree_view, use_trees_view, Expr, Item, ItemMod, Sig, Stmt, Tag, UseTree,
};

verus! {

pub fn copy_tag(t: &Tag) -> (r: Tag)
    ensures
        tag_view(r) == tag_view(*t),
{
    Tag { name: t.name.clone(), arg: t.arg.clone() }
}

pub fn copy_tags(v: &Vec<Tag>) -> (r: Vec<Tag>)
    ensures
        tags_view(r@) == tags_view(v@),
    decreases v@,
{
    let mut out: Vec<Tag> = Vec::new();
    let mut i: usize = 0;
    while i < v.len()
        invariant
            i <= v.len(),
            tags_view(out@) == tags_view(v@.subrange(0, i as int)),
        decreases v@.len() - i,
    {
        let x = copy_tag(&v[i]);
        proof {
            lemma_tags_view_push(out@, x);
            lemma_tags_view_push(v@.subrange(0, i as int), v@[i as int]);
            assert(v@.subrange(0, i as int).push(v@[i as int]) =~= v@.subrange(
                0,
                (i + 1) as int,
            ));
        }
        out.push(x);
        i += 1;
    }
    proof {
        assert(v@.subrange(0, v@.len() as int) =~= v@);
    }
    out
}

pub fn copy_use_trees(v: &Vec<UseTree>) -> (r: Vec<UseTree>)
    ensures
        use_trees_view(r@) == use_trees_view(v@),
    decreases v@,
{
    let mut out: Vec<UseTree> = Vec::new();
    let mut i: usize = 0;
    while i < v.len()
        invariant
            i <= v.len(),
            use_trees_view(out@) == use_trees_view(v@.subrange(0, i as int)),
        decreases v@.len() - i,
    {
        let x = copy_use_tree(&v[i]);
        proof {
            lemma_use_trees_view_push(out@, x);
            lemma_use_trees_view_push(v@.subrange(0, i as int), v@[i as int]);
            assert(v@.subrange(0, i as int).push(v@[i as int]) =~= v@.subrange(
                0,
                (i + 1) as int,
            ));
        }
        out.push(x);
        i += 1;
    }
    proof {
        assert(v@.subrange(0, v@.len() as int) =~= v@);
    }
    out
}

pub fn copy_exprs(v: &Vec<Expr>) -> (r: Vec<Expr>)
    ensures
        exprs_view(r@) == exprs_view(v@),
    decreases v@,
{
    let mut out: Vec<Expr> = Vec::new();
    let mut i: usize = 0;
    while i < v.len()
        invariant
            i <= v.len(),
            exprs_view(out@) == exprs_view(v@.subrange(0, i as int)),
        decreases v@.len() - i,
    {
        let x = copy_expr(&v[i]);
        proof {
            lemma_exprs_view_push(out@, x);
            lemma_exprs_view_push(v@.subrange(0, i as int), v@[i as int]);
            assert(v@.subrange(0, i as int).push(v@[i as int]) =~= v@.subrange(
                0,
                (i + 1) as int,
            ));
        }
        out.push(x);
        i += 1;
    }
    proof {
        assert(v@.subrange(0, v@.len() as int) =~= v@);
    }
    out
}

pub fn copy_stmts(v: &Vec<Stmt>) -> (r: Vec<Stmt>)
    ensures
        stmts_view(r@) == stmts_view(v@),
    decreases v@,
{
    let mut out: Vec<Stmt> = Vec::new();
    let mut i: usize = 0;
    while i < v.len()
        invariant
            i <= v.len(),
            stmts_view(out@) == stmts_view(v@.subrange(0, i as int)),
        decreases v@.len() - i,
    {
        let x = copy_stmt(&v[i]);
        proof {
            lemma_stmts_view_push(out@, x);
            lemma_stmts_view_push(v@.subrange(0, i as int), v@[i as int]);
            assert(v@.subrange(0, i as int).push(v@[i as int]) =~= v@.subrange(
                0,
                (i + 1) as int,
            ));
        }
        out.push(x);
        i += 1;
    }
    proof {
        assert(v@.subrange(0, v@.len() as int) =~= v@);
    }
    out
}

pub fn copy_sigs(v: &Vec<Sig>) -> (r: Vec<Sig>)
    ensures
        sigs_view(r@) == sigs_view(v@),
    decreases v@,
{
    let mut out: Vec<Sig> = Vec::new();
    let mut i: usize = 0;
    while i < v.len()
        invariant
            i <= v.len(),
            sigs_view(out@) == sigs_view(v@.subrange(0, i as int)),
        decreases v@.len() - i,
    {
        let x = copy_sig(&v[i]);
        proof {
            lemma_sigs_view_push(out@, x);
            lemma_sigs_view_push(v@.subrange(0, i as int), v@[i as int]);
            assert(v@.subrange(0, i as int).push(v@[i as int]) =~= v@.subrange(
                0,
                (i + 1) as int,
            ));
        }
        out.push(x);
        i += 1;
    }
    proof {
        assert(v@.subrange(0, v@.len() as int) =~= v@);
    }
    out
}

pub fn copy_items(v: &Vec<Item>) -> (r: Vec<Item>)
    ensures
        items_view(r@) == items_view(v@),
    decreases v@,
{
    let mut out: Vec<Item> = Vec::new();
    let mut i: usize = 0;
    while i < v.len()
        invariant
            i <= v.len(),
            items_view(out@) == items_view(v@.subrange(0, i as int)),
        decreases v@.len() - i,
    {
        let x = copy_item(&v[i]);
        proof {
            lemma_items_view_push(out@, x);
            lemma_items_view_push(v@.subrange(0, i as int), v@[i as int]);
            assert(v@.subrange(0, i as int).push(v@[i as int]) =~= v@.subrange(
                0,
                (i + 1) as int,
            ));
        }
        out.push(x);
        i += 1;
    }
    proof {
        assert(v@.subrange(0, v@.len() as int) =~= v@);
    }
    out
}

pub fn copy_use_tree(t: &UseTree) -> (r: UseTree)
    ensures
        use_tree_view(r) == use_tree_view(*t),
    decreases *t,
{
    match t {
        UseTree::Name(s) => UseTree::Name(s.clone()),
        UseTree::Rename(s, a) => UseTree::Rename(s.clone(), a.clone()),
        UseTree::Path(s, rest) => UseTree::Path(s.clone(), Box::new(copy_use_tree(&**rest))),
        UseTree::Group(trees) => UseTree::Group(copy_use_trees(trees)),
    }
}

pub fn copy_expr(e: &Expr) -> (r: Expr)
    ensures
        expr_view(r) == expr_view(*e),
    decreases *e,
{
    match e {
        Expr::Unit => Expr::Unit,
        Expr::Name(tags, s) => Expr::Name(copy_tags(tags), s.clone()),
        Expr::Call(tags, callee, args) => Expr::Call(
            copy_tags(tags),
            callee.clone(),
            copy_exprs(args),
        ),
        Expr::Suspend(tags, base) => Expr::Suspend(copy_tags(tags), Box::new(copy_expr(&**base))),
        Expr::SuspendBlock(tags, stmts) => Expr::SuspendBlock(copy_tags(tags), copy_stmts(stmts)),
        Expr::Block(tags, stmts) => Expr::Block(copy_tags(tags), copy_stmts(stmts)),
    }
}

pub fn copy_stmt(st: &Stmt) -> (r: Stmt)
    ensures
        stmt_view(r) == stmt_view(*st),
    decreases *st,
{
    match st {
        Stmt::Empty => Stmt::Empty,
        Stmt::Let(tags, name, e) => Stmt::Let(copy_tags(tags), name.clone(), copy_expr(e)),
        Stmt::Expr(e, semi) => Stmt::Expr(copy_expr(e), *semi),
        Stmt::Use(tags, qualified, tree) => Stmt::Use(
            copy_tags(tags),
            *qualified,
            copy_use_tree(tree),
        ),
    }
}

pub fn copy_sig(sig: &Sig) -> (r: Sig)
    ensures
        sig_view(r) == sig_view(*sig),
    decreases *sig,
{
    Sig {
        tags: copy_tags(&sig.tags),
        vis: sig.vis.clone(),
        name: sig.name.clone(),
        suspend: sig.suspend,
        rest: sig.rest.clone(),
        body: match &sig.body {
            Option::Some(b) => Option::Some(copy_stmts(b)),
            Option::None => Option::None,
        },
    }
}

pub fn copy_item(it: &Item) -> (r: Item)
    ensures
        item_view(r) == item_view(*it),
    decreases *it,
{
    match it {
        Item::Mod(m) => Item::Mod(copy_item_mod(m)),
        Item::Use(tags, qualified, tree) => Item::Use(
            copy_tags(tags),
            *qualified,
            copy_use_tree(tree),
        ),
        Item::Fn(sig) => Item::Fn(copy_sig(sig)),
        Item::TypeDef(tags, name) => Item::TypeDef(copy_tags(tags), name.clone()),
        Item::Trait(tags, name, sigs) => Item::Trait(copy_tags(tags), name.clone(), copy_sigs(sigs)),
        Item::Impl(tags, name, sigs) => Item::Impl(copy_tags(tags), name.clone(), copy_sigs(sigs)),
    }
}

pub fn copy_item_mod(m: &ItemMod) -> (r: ItemMod)
    ensures
        item_mod_view(r) == item_mod_view(*m),
    decreases *m,
{
    ItemMod {
        tags: copy_tags(&m.tags),
        name: m.name.clone(),
        content: match &m.content {
            Option::Some(items) => Option::Some(copy_items(items)),
            Option::None => Option::None,
        },
    }
}

} // verus!
