//! The suspension-syntax eraser.
//!
//! Runs only on the blocking copy, after filtering: every callable loses its
//! asynchronous marker, every suspension expression is replaced by its
//! operand, and every suspension block becomes a plain block — or, when it
//! holds exactly one expression statement, that expression itself.
use vstd::prelude::*;

use crate::ast::{
    expr_view, exprs_view, item_mod_view, item_view, items_view, lemma_stmts_view, sig_view,
    sigs_view, stmt_view, stmts_view, Expr, ExprV, Item, ItemMod, ItemModV, ItemV, Sig, SigV, Stmt,
    StmtV,
};
use crate::dup::{copy_expr, copy_tags};

verus! {

// ------------------------------------------------------------------
// What erasure means.
// ------------------------------------------------------------------

/// The synchronous form of one expression: suspension wrappers discarded,
/// suspension blocks turned into plain blocks, a suspension block holding
/// exactly one tail expression elided to that expression.
pub open spec fn desuspend_expr(e: ExprV) -> ExprV
    decreases e,
{
    match e {
        ExprV::Unit => ExprV::Unit,
        ExprV::Name(tags, s) => ExprV::Name(tags, s),
        ExprV::Call(tags, callee, args) => ExprV::Call(tags, callee, desuspend_exprs(args)),
        ExprV::Suspend(_, base) => desuspend_expr(*base),
        ExprV::SuspendBlock(tags, stmts) => {
            let ds = desuspend_stmts(stmts);
            if ds.len() == 1 {
                match ds[0] {
                    StmtV::Expr(inner, false) => inner,
                    _ => ExprV::Block(tags, ds),
                }
            } else {
                ExprV::Block(tags, ds)
            }
        },
        ExprV::Block(tags, stmts) => ExprV::Block(tags, desuspend_stmts(stmts)),
    }
}

pub open spec fn desuspend_exprs(s: Seq<ExprV>) -> Seq<ExprV>
    decreases s,
{
    if s.len() == 0 {
        Seq::<ExprV>::empty()
    } else {
        desuspend_exprs(s.subrange(0, s.len() - 1)).push(desuspend_expr(s[s.len() - 1]))
    }
}

pub open spec fn desuspend_stmt(st: StmtV) -> StmtV
    decreases st,
{
    match st {
        StmtV::Empty => StmtV::Empty,
        StmtV::Let(tags, name, e) => StmtV::Let(tags, name, desuspend_expr(e)),
        StmtV::Expr(e, semi) => StmtV::Expr(desuspend_expr(e), semi),
        StmtV::Use(tags, qualified, tree) => StmtV::Use(tags, qualified, tree),
    }
}

pub open spec fn desuspend_stmts(s: Seq<StmtV>) -> Seq<StmtV>
    decreases s,
{
    if s.len() == 0 {
        Seq::<StmtV>::empty()
    } else {
        desuspend_stmts(s.subrange(0, s.len() - 1)).push(desuspend_stmt(s[s.len() - 1]))
    }
}

/// The callable without its asynchronous marker, its body desuspended; this
/// is unconditional, independent of tags.
pub open spec fn desuspend_sig(sig: SigV) -> SigV
    decreases sig,
{
    SigV {
        tags: sig.tags,
        vis: sig.vis,
        name: sig.name,
        suspend: false,
        rest: sig.rest,
        body: match sig.body {
            Option::Some(b) => Option::Some(desuspend_stmts(b)),
            Option::None => Option::None,
        },
    }
}

pub open spec fn desuspend_sigs(s: Seq<SigV>) -> Seq<SigV>
    decreases s,
{
    if s.len() == 0 {
        Seq::<SigV>::empty()
    } else {
        desuspend_sigs(s.subrange(0, s.len() - 1)).push(desuspend_sig(s[s.len() - 1]))
    }
}

pub open spec fn desuspend_item(it: ItemV) -> ItemV
    decreases it,
{
    match it {
        ItemV::Mod(m) => ItemV::Mod(desuspend_item_mod(m)),
        ItemV::Use(tags, qualified, tree) => ItemV::Use(tags, qualified, tree),
        ItemV::Fn(sig) => ItemV::Fn(desuspend_sig(sig)),
        ItemV::TypeDef(tags, name) => ItemV::TypeDef(tags, name),
        ItemV::Trait(tags, name, sigs) => ItemV::Trait(tags, name, desuspend_sigs(sigs)),
        ItemV::Impl(tags, name, sigs) => ItemV::Impl(tags, name, desuspend_sigs(sigs)),
    }
}

pub open spec fn desuspend_items(s: Seq<ItemV>) -> Seq<ItemV>
    decreases s,
{
    if s.len() == 0 {
        Seq::<ItemV>::empty()
    } else {
        desuspend_items(s.subrange(0, s.len() - 1)).push(desuspend_item(s[s.len() - 1]))
    }
}

pub open spec fn desuspend_item_mod(m: ItemModV) -> ItemModV
    decreases m,
{
    ItemModV {
        tags: m.tags,
        name: m.name,
        content: match m.content {
            Option::Some(items) => Option::Some(desuspend_items(items)),
            Option::None => Option::None,
        },
    }
}

// ------------------------------------------------------------------
// Executable erasure.
// ------------------------------------------------------------------

fn erase_expr(e: &Expr) -> (r: Expr)
    ensures
        expr_view(r) == desuspend_expr(expr_view(*e)),
    decreases *e,
{
    match e {
        Expr::Unit => Expr::Unit,
        Expr::Name(tags, s) => Expr::Name(copy_tags(tags), s.clone()),
        Expr::Call(tags, callee, args) => Expr::Call(
            copy_tags(tags),
            callee.clone(),
            erase_exprs(args),
        ),
        Expr::Suspend(_, base) => erase_expr(&**base),
        Expr::SuspendBlock(tags, stmts) => {
            let ds = erase_stmts(stmts);
            proof {
                lemma_stmts_view(ds@);
            }
            if ds.len() == 1 {
                let elide = match &ds[0] {
                    Stmt::Expr(_, semi) => !*semi,
                    _ => false,
                };
                if elide {
                    match &ds[0] {
                        Stmt::Expr(inner, _) => copy_expr(inner),
                        // unreachable: `elide` holds only for an expression
                        // statement
                        _ => Expr::Unit,
                    }
                } else {
                    Expr::Block(copy_tags(tags), ds)
                }
            } else {
                Expr::Block(copy_tags(tags), ds)
            }
        },
        Expr::Block(tags, stmts) => Expr::Block(copy_tags(tags), erase_stmts(stmts)),
    }
}

fn erase_exprs(v: &Vec<Expr>) -> (r: Vec<Expr>)
    ensures
        exprs_view(r@) == desuspend_exprs(exprs_view(v@)),
    decreases v@,
{
    let mut out: Vec<Expr> = Vec::new();
    let mut i: usize = 0;
    while i < v.len()
        invariant
            i <= v.len(),
            exprs_view(out@) == desuspend_exprs(exprs_view(v@.subrange(0, i as int))),
        decreases v@.len() - i,
    {
        let x = erase_expr(&v[i]);
        proof {
            crate::ast::lemma_exprs_view_push(v@.subrange(0, i as int), v@[i as int]);
            assert(v@.subrange(0, i as int).push(v@[i as int]) =~= v@.subrange(0, (i + 1) as int));
            let sv = exprs_view(v@.subrange(0, i as int));
            let xv = expr_view(v@[i as int]);
            assert(sv.push(xv).subrange(0, sv.push(xv).len() - 1) =~= sv);
            assert(sv.push(xv)[sv.push(xv).len() - 1] == xv);
            crate::ast::lemma_exprs_view_push(out@, x);
        }
        out.push(x);
        i += 1;
    }
    proof {
        assert(v@.subrange(0, v@.len() as int) =~= v@);
    }
    out
}

fn erase_stmt(st: &Stmt) -> (r: Stmt)
    ensures
        stmt_view(r) == desuspend_stmt(stmt_view(*st)),
    decreases *st,
{
    match st {
        Stmt::Empty => Stmt::Empty,
        Stmt::Let(tags, name, e) => Stmt::Let(copy_tags(tags), name.clone(), erase_expr(e)),
        Stmt::Expr(e, semi) => Stmt::Expr(erase_expr(e), *semi),
        Stmt::Use(tags, qualified, tree) => Stmt::Use(
            copy_tags(tags),
            *qualified,
            crate::dup::copy_use_tree(tree),
        ),
    }
}

fn erase_stmts(v: &Vec<Stmt>) -> (r: Vec<Stmt>)
    ensures
        stmts_view(r@) == desuspend_stmts(stmts_view(v@)),
    decreases v@,
{
    let mut out: Vec<Stmt> = Vec::new();
    let mut i: usize = 0;
    while i < v.len()
        invariant
            i <= v.len(),
            stmts_view(out@) == desuspend_stmts(stmts_view(v@.subrange(0, i as int))),
        decreases v@.len() - i,
    {
        let x = erase_stmt(&v[i]);
        proof {
            crate::ast::lemma_stmts_view_push(v@.subrange(0, i as int), v@[i as int]);
            assert(v@.subrange(0, i as int).push(v@[i as int]) =~= v@.subrange(0, (i + 1) as int));
            let sv = stmts_view(v@.subrange(0, i as int));
            let xv = stmt_view(v@[i as int]);
            assert(sv.push(xv).subrange(0, sv.push(xv).len() - 1) =~= sv);
            assert(sv.push(xv)[sv.push(xv).len() - 1] == xv);
            crate::ast::lemma_stmts_view_push(out@, x);
        }
        out.push(x);
        i += 1;
    }
    proof {
        assert(v@.subrange(0, v@.len() as int) =~= v@);
    }
    out
}

fn erase_sig(sig: &Sig) -> (r: Sig)
    ensures
        sig_view(r) == desuspend_sig(sig_view(*sig)),
    decreases *sig,
{
    Sig {
        tags: copy_tags(&sig.tags),
        vis: sig.vis.clone(),
        name: sig.name.clone(),
        suspend: false,
        rest: sig.rest.clone(),
        body: match &sig.body {
            Option::Some(b) => Option::Some(erase_stmts(b)),
            Option::None => Option::None,
        },
    }
}

fn erase_sigs(v: &Vec<Sig>) -> (r: Vec<Sig>)
    ensures
        sigs_view(r@) == desuspend_sigs(sigs_view(v@)),
    decreases v@,
{
    let mut out: Vec<Sig> = Vec::new();
    let mut i: usize = 0;
    while i < v.len()
        invariant
            i <= v.len(),
            sigs_view(out@) == desuspend_sigs(sigs_view(v@.subrange(0, i as int))),
        decreases v@.len() - i,
    {
        let x = erase_sig(&v[i]);
        proof {
            crate::ast::lemma_sigs_view_push(v@.subrange(0, i as int), v@[i as int]);
            assert(v@.subrange(0, i as int).push(v@[i as int]) =~= v@.subrange(0, (i + 1) as int));
            let sv = sigs_view(v@.subrange(0, i as int));
            let xv = sig_view(v@[i as int]);
            assert(sv.push(xv).subrange(0, sv.push(xv).len() - 1) =~= sv);
            assert(sv.push(xv)[sv.push(xv).len() - 1] == xv);
            crate::ast::lemma_sigs_view_push(out@, x);
        }
        out.push(x);
        i += 1;
    }
    proof {
        assert(v@.subrange(0, v@.len() as int) =~= v@);
    }
    out
}

fn erase_item(it: &Item) -> (r: Item)
    ensures
        item_view(r) == desuspend_item(item_view(*it)),
    decreases *it,
{
    match it {
        Item::Mod(m) => Item::Mod(
            ItemMod {
                tags: copy_tags(&m.tags),
                name: m.name.clone(),
                content: match &m.content {
                    Option::Some(items) => Option::Some(erase_items(items)),
                    Option::None => Option::None,
                },
            },
        ),
        Item::Use(tags, qualified, tree) => Item::Use(
            copy_tags(tags),
            *qualified,
            crate::dup::copy_use_tree(tree),
        ),
        Item::Fn(sig) => Item::Fn(erase_sig(sig)),
        Item::TypeDef(tags, name) => Item::TypeDef(copy_tags(tags), name.clone()),
        Item::Trait(tags, name, sigs) => Item::Trait(
            copy_tags(tags),
            name.clone(),
            erase_sigs(sigs),
        ),
        Item::Impl(tags, name, sigs) => Item::Impl(copy_tags(tags), name.clone(), erase_sigs(sigs)),
    }
}

fn erase_items(v: &Vec<Item>) -> (r: Vec<Item>)
    ensures
        items_view(r@) == desuspend_items(items_view(v@)),
    decreases v@,
{
    let mut out: Vec<Item> = Vec::new();
    let mut i: usize = 0;
    while i < v.len()
        invariant
            i <= v.len(),
            items_view(out@) == desuspend_items(items_view(v@.subrange(0, i as int))),
        decreases v@.len() - i,
    {
        let x = erase_item(&v[i]);
        proof {
            crate::ast::lemma_items_view_push(v@.subrange(0, i as int), v@[i as int]);
            assert(v@.subrange(0, i as int).push(v@[i as int]) =~= v@.subrange(0, (i + 1) as int));
            let sv = items_view(v@.subrange(0, i as int));
            let xv = item_view(v@[i as int]);
            assert(sv.push(xv).subrange(0, sv.push(xv).len() - 1) =~= sv);
            assert(sv.push(xv)[sv.push(xv).len() - 1] == xv);
            crate::ast::lemma_items_view_push(out@, x);
        }
        out.push(x);
        i += 1;
    }
    proof {
        assert(v@.subrange(0, v@.len() as int) =~= v@);
    }
    out
}

/// Removes suspension syntax from a filtered blocking copy.
pub struct AsyncAwaitRemoval;

impl AsyncAwaitRemoval {
    /// The blocking form of the module: no asynchronous markers, no
    /// suspension expressions, no suspension blocks.
    /// The blocking form of one declaration, as the paired-test adapter
    /// uses it.
    pub fn remove_async_await_item(&self, it: &Item) -> (r: Item)
        ensures
            item_view(r) == desuspend_item(item_view(*it)),
    {
        erase_item(it)
    }

    pub fn remove_async_await(&self, m: ItemMod) -> (r: ItemMod)
        ensures
            item_mod_view(r) == desuspend_item_mod(item_mod_view(m)),
    {
        ItemMod {
            tags: copy_tags(&m.tags),
            name: m.name.clone(),
            content: match &m.content {
                Option::Some(items) => Option::Some(erase_items(items)),
                Option::None => Option::None,
            },
        }
    }
}

} // verus!
