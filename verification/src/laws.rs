//! Laws of the generation pipeline, stated and proved over the
//! mathematical twins of the syntax tree.
use vstd::prelude::*;

use crate::ast::{ExprV, ItemModV, ItemV, SigV, StmtV, TagV, UseTreeV};
use crate::attr::{
    has_tag, lemma_strip_tags_clean, lemma_strip_tags_other, spec_variant_family, strip_tags,
};
use crate::erase::{
    desuspend_expr, desuspend_exprs, desuspend_item, desuspend_item_mod, desuspend_items,
    desuspend_sig, desuspend_sigs, desuspend_stmt, desuspend_stmts,
};
use crate::visit::{
    convert_spec, item_tags, remove_item_inner, remove_items, remove_items_mod, remove_sigs,
    rewrite_use_tree, strip_item, strip_items, strip_sig, strip_sigs, visit_expr, visit_exprs,
    visit_item, visit_item_mod, visit_items, visit_sig, visit_sigs, visit_stmt, visit_stmts,
};

verus! {

// ------------------------------------------------------------------
// Freedom from one variant tag, at every depth.
// ------------------------------------------------------------------

/// No tag of the variant family with this argument in the list.
pub open spec fn tags_free_of(tags: Seq<TagV>, arg: Seq<char>) -> bool {
    !has_tag(tags, spec_variant_family(), arg)
}

pub open spec fn expr_free_of(e: ExprV, arg: Seq<char>) -> bool
    decreases e,
{
    match e {
        ExprV::Unit => true,
        ExprV::Name(tags, _) => tags_free_of(tags, arg),
        ExprV::Call(tags, _, args) => tags_free_of(tags, arg) && exprs_free_of(args, arg),
        ExprV::Suspend(tags, base) => tags_free_of(tags, arg) && expr_free_of(*base, arg),
        ExprV::SuspendBlock(tags, stmts) => tags_free_of(tags, arg) && stmts_free_of(stmts, arg),
        ExprV::Block(tags, stmts) => tags_free_of(tags, arg) && stmts_free_of(stmts, arg),
    }
}

pub open spec fn exprs_free_of(s: Seq<ExprV>, arg: Seq<char>) -> bool
    decreases s,
{
    if s.len() == 0 {
        true
    } else {
        exprs_free_of(s.subrange(0, s.len() - 1), arg) && expr_free_of(s[s.len() - 1], arg)
    }
}

pub open spec fn stmt_free_of(st: StmtV, arg: Seq<char>) -> bool
    decreases st,
{
    match st {
        StmtV::Empty => true,
        StmtV::Let(tags, _, e) => tags_free_of(tags, arg) && expr_free_of(e, arg),
        StmtV::Expr(e, _) => expr_free_of(e, arg),
        StmtV::Use(tags, _, _) => tags_free_of(tags, arg),
    }
}

pub open spec fn stmts_free_of(s: Seq<StmtV>, arg: Seq<char>) -> bool
    decreases s,
{
    if s.len() == 0 {
        true
    } else {
        stmts_free_of(s.subrange(0, s.len() - 1), arg) && stmt_free_of(s[s.len() - 1], arg)
    }
}

pub open spec fn sig_free_of(sig: SigV, arg: Seq<char>) -> bool {
    &&& tags_free_of(sig.tags, arg)
    &&& match sig.body {
        Option::Some(b) => stmts_free_of(b, arg),
        Option::None => true,
    }
}

pub open spec fn sigs_free_of(s: Seq<SigV>, arg: Seq<char>) -> bool
    decreases s,
{
    if s.len() == 0 {
        true
    } else {
        sigs_free_of(s.subrange(0, s.len() - 1), arg) && sig_free_of(s[s.len() - 1], arg)
    }
}

pub open spec fn item_free_of(it: ItemV, arg: Seq<char>) -> bool
    decreases it,
{
    match it {
        ItemV::Mod(m) => mod_free_of(m, arg),
        ItemV::Use(tags, _, _) => tags_free_of(tags, arg),
        ItemV::Fn(sig) => sig_free_of(sig, arg),
        ItemV::TypeDef(tags, _) => tags_free_of(tags, arg),
        ItemV::Trait(tags, _, sigs) => tags_free_of(tags, arg) && sigs_free_of(sigs, arg),
        ItemV::Impl(tags, _, sigs) => tags_free_of(tags, arg) && sigs_free_of(sigs, arg),
    }
}

pub open spec fn items_free_of(s: Seq<ItemV>, arg: Seq<char>) -> bool
    decreases s,
{
    if s.len() == 0 {
        true
    } else {
        items_free_of(s.subrange(0, s.len() - 1), arg) && item_free_of(s[s.len() - 1], arg)
    }
}

/// No tag of the variant family with this argument on any node of the
/// module tree.
pub open spec fn mod_free_of(m: ItemModV, arg: Seq<char>) -> bool
    decreases m,
{
    &&& tags_free_of(m.tags, arg)
    &&& match m.content {
        Option::Some(items) => items_free_of(items, arg),
        Option::None => true,
    }
}

// The same freedom at the expression and statement level only: what the
// expression pass establishes before the declaration passes finish the
// cleanup.

pub open spec fn sig_body_free_of(sig: SigV, arg: Seq<char>) -> bool {
    match sig.body {
        Option::Some(b) => stmts_free_of(b, arg),
        Option::None => true,
    }
}

pub open spec fn sigs_body_free_of(s: Seq<SigV>, arg: Seq<char>) -> bool
    decreases s,
{
    if s.len() == 0 {
        true
    } else {
        sigs_body_free_of(s.subrange(0, s.len() - 1), arg) && sig_body_free_of(
            s[s.len() - 1],
            arg,
        )
    }
}

pub open spec fn item_body_free_of(it: ItemV, arg: Seq<char>) -> bool
    decreases it,
{
    match it {
        ItemV::Mod(m) => mod_body_free_of(m, arg),
        ItemV::Use(_, _, _) => true,
        ItemV::Fn(sig) => sig_body_free_of(sig, arg),
        ItemV::TypeDef(_, _) => true,
        ItemV::Trait(_, _, sigs) => sigs_body_free_of(sigs, arg),
        ItemV::Impl(_, _, sigs) => sigs_body_free_of(sigs, arg),
    }
}

pub open spec fn items_body_free_of(s: Seq<ItemV>, arg: Seq<char>) -> bool
    decreases s,
{
    if s.len() == 0 {
        true
    } else {
        items_body_free_of(s.subrange(0, s.len() - 1), arg) && item_body_free_of(
            s[s.len() - 1],
            arg,
        )
    }
}

pub open spec fn mod_body_free_of(m: ItemModV, arg: Seq<char>) -> bool
    decreases m,
{
    match m.content {
        Option::Some(items) => items_body_free_of(items, arg),
        Option::None => true,
    }
}

// ------------------------------------------------------------------
// The expression pass scrubs this variant's tags from every expression
// and statement.
// ------------------------------------------------------------------

proof fn lemma_visit_expr_free(e: ExprV, root: Seq<char>, pres: Seq<char>, rem: Seq<char>)
    ensures
        expr_free_of(visit_expr(e, root, pres, rem), pres),
    decreases e,
{
    match e {
        ExprV::Unit => {},
        ExprV::Name(tags, _) => {
            lemma_strip_tags_clean(tags, spec_variant_family(), pres);
        },
        ExprV::Call(tags, _, args) => {
            lemma_strip_tags_clean(tags, spec_variant_family(), pres);
            lemma_visit_exprs_free(args, root, pres, rem);
        },
        ExprV::Suspend(tags, base) => {
            lemma_strip_tags_clean(tags, spec_variant_family(), pres);
            lemma_visit_expr_free(*base, root, pres, rem);
        },
        ExprV::SuspendBlock(tags, stmts) => {
            lemma_strip_tags_clean(tags, spec_variant_family(), pres);
            lemma_visit_stmts_free(stmts, root, pres, rem);
        },
        ExprV::Block(tags, stmts) => {
            lemma_strip_tags_clean(tags, spec_variant_family(), pres);
            lemma_visit_stmts_free(stmts, root, pres, rem);
        },
    }
}

proof fn lemma_visit_exprs_free(s: Seq<ExprV>, root: Seq<char>, pres: Seq<char>, rem: Seq<char>)
    ensures
        exprs_free_of(visit_exprs(s, root, pres, rem), pres),
    decreases s,
{
    if s.len() > 0 {
        let pre = s.subrange(0, s.len() - 1);
        lemma_visit_exprs_free(pre, root, pres, rem);
        lemma_visit_expr_free(s[s.len() - 1], root, pres, rem);
        let rest = visit_exprs(pre, root, pres, rem);
        let x = visit_expr(s[s.len() - 1], root, pres, rem);
        assert(rest.push(x).subrange(0, rest.push(x).len() - 1) =~= rest);
        assert(rest.push(x)[rest.push(x).len() - 1] == x);
    }
}

proof fn lemma_visit_stmt_free(st: StmtV, root: Seq<char>, pres: Seq<char>, rem: Seq<char>)
    ensures
        stmt_free_of(visit_stmt(st, root, pres, rem), pres),
    decreases st,
{
    match st {
        StmtV::Empty => {},
        StmtV::Let(tags, _, e) => {
            lemma_strip_tags_clean(tags, spec_variant_family(), pres);
            lemma_visit_expr_free(e, root, pres, rem);
        },
        StmtV::Expr(e, _) => {
            lemma_visit_expr_free(e, root, pres, rem);
        },
        StmtV::Use(tags, _, _) => {
            lemma_strip_tags_clean(tags, spec_variant_family(), pres);
        },
    }
}

proof fn lemma_visit_stmts_free(s: Seq<StmtV>, root: Seq<char>, pres: Seq<char>, rem: Seq<char>)
    ensures
        stmts_free_of(visit_stmts(s, root, pres, rem), pres),
    decreases s,
{
    if s.len() > 0 {
        let pre = s.subrange(0, s.len() - 1);
        lemma_visit_stmts_free(pre, root, pres, rem);
        lemma_visit_stmt_free(s[s.len() - 1], root, pres, rem);
        let rest = visit_stmts(pre, root, pres, rem);
        let x = visit_stmt(s[s.len() - 1], root, pres, rem);
        assert(rest.push(x).subrange(0, rest.push(x).len() - 1) =~= rest);
        assert(rest.push(x)[rest.push(x).len() - 1] == x);
    }
}

proof fn lemma_visit_sigs_body_free(s: Seq<SigV>, root: Seq<char>, pres: Seq<char>, rem: Seq<char>)
    ensures
        sigs_body_free_of(visit_sigs(s, root, pres, rem), pres),
    decreases s,
{
    if s.len() > 0 {
        let pre = s.subrange(0, s.len() - 1);
        lemma_visit_sigs_body_free(pre, root, pres, rem);
        let last = s[s.len() - 1];
        match last.body {
            Option::Some(b) => {
                lemma_visit_stmts_free(b, root, pres, rem);
            },
            Option::None => {},
        }
        let rest = visit_sigs(pre, root, pres, rem);
        let x = visit_sig(last, root, pres, rem);
        assert(rest.push(x).subrange(0, rest.push(x).len() - 1) =~= rest);
        assert(rest.push(x)[rest.push(x).len() - 1] == x);
    }
}

proof fn lemma_visit_item_body_free(it: ItemV, root: Seq<char>, pres: Seq<char>, rem: Seq<char>)
    ensures
        item_body_free_of(visit_item(it, root, pres, rem), pres),
    decreases it,
{
    match it {
        ItemV::Mod(m) => {
            lemma_visit_mod_body_free(m, root, pres, rem);
        },
        ItemV::Fn(sig) => {
            match sig.body {
                Option::Some(b) => {
                    lemma_visit_stmts_free(b, root, pres, rem);
                },
                Option::None => {},
            }
        },
        ItemV::Trait(_, _, sigs) => {
            lemma_visit_sigs_body_free(sigs, root, pres, rem);
        },
        ItemV::Impl(_, _, sigs) => {
            lemma_visit_sigs_body_free(sigs, root, pres, rem);
        },
        _ => {},
    }
}

proof fn lemma_visit_items_body_free(s: Seq<ItemV>, root: Seq<char>, pres: Seq<char>, rem: Seq<char>)
    ensures
        items_body_free_of(visit_items(s, root, pres, rem), pres),
    decreases s,
{
    if s.len() > 0 {
        let pre = s.subrange(0, s.len() - 1);
        lemma_visit_items_body_free(pre, root, pres, rem);
        lemma_visit_item_body_free(s[s.len() - 1], root, pres, rem);
        let rest = visit_items(pre, root, pres, rem);
        let x = visit_item(s[s.len() - 1], root, pres, rem);
        assert(rest.push(x).subrange(0, rest.push(x).len() - 1) =~= rest);
        assert(rest.push(x)[rest.push(x).len() - 1] == x);
    }
}

proof fn lemma_visit_mod_body_free(m: ItemModV, root: Seq<char>, pres: Seq<char>, rem: Seq<char>)
    ensures
        mod_body_free_of(visit_item_mod(m, root, pres, rem), pres),
    decreases m,
{
    match m.content {
        Option::Some(items) => {
            lemma_visit_items_body_free(items, root, pres, rem);
        },
        Option::None => {},
    }
}

// ------------------------------------------------------------------
// The declaration-removal pass keeps that freedom.
// ------------------------------------------------------------------

proof fn lemma_remove_sigs_body_free(s: Seq<SigV>, rem: Seq<char>, pres: Seq<char>)
    requires
        sigs_body_free_of(s, pres),
    ensures
        sigs_body_free_of(remove_sigs(s, rem), pres),
    decreases s,
{
    if s.len() > 0 {
        let pre = s.subrange(0, s.len() - 1);
        lemma_remove_sigs_body_free(pre, rem, pres);
        let last = s[s.len() - 1];
        if !has_tag(last.tags, spec_variant_family(), rem) {
            let rest = remove_sigs(pre, rem);
            assert(rest.push(last).subrange(0, rest.push(last).len() - 1) =~= rest);
            assert(rest.push(last)[rest.push(last).len() - 1] == last);
        }
    }
}

proof fn lemma_remove_item_inner_body_free(it: ItemV, rem: Seq<char>, pres: Seq<char>)
    requires
        item_body_free_of(it, pres),
    ensures
        item_body_free_of(remove_item_inner(it, rem), pres),
    decreases it,
{
    match it {
        ItemV::Mod(m) => {
            match m.content {
                Option::Some(items) => {
                    lemma_remove_items_body_free(items, rem, pres);
                },
                Option::None => {},
            }
        },
        ItemV::Trait(_, _, sigs) => {
            lemma_remove_sigs_body_free(sigs, rem, pres);
        },
        ItemV::Impl(_, _, sigs) => {
            lemma_remove_sigs_body_free(sigs, rem, pres);
        },
        _ => {},
    }
}

proof fn lemma_remove_items_body_free(s: Seq<ItemV>, rem: Seq<char>, pres: Seq<char>)
    requires
        items_body_free_of(s, pres),
    ensures
        items_body_free_of(remove_items(s, rem), pres),
    decreases s,
{
    if s.len() > 0 {
        let pre = s.subrange(0, s.len() - 1);
        lemma_remove_items_body_free(pre, rem, pres);
        let last = s[s.len() - 1];
        if !has_tag(item_tags(last), spec_variant_family(), rem) {
            lemma_remove_item_inner_body_free(last, rem, pres);
            let rest = remove_items(pre, rem);
            let x = remove_item_inner(last, rem);
            assert(rest.push(x).subrange(0, rest.push(x).len() - 1) =~= rest);
            assert(rest.push(x)[rest.push(x).len() - 1] == x);
        }
    }
}

// ------------------------------------------------------------------
// The cleanup pass then scrubs the declarations themselves.
// ------------------------------------------------------------------

proof fn lemma_strip_sigs_free(s: Seq<SigV>, pres: Seq<char>)
    requires
        sigs_body_free_of(s, pres),
    ensures
        sigs_free_of(strip_sigs(s, pres), pres),
    decreases s,
{
    if s.len() > 0 {
        let pre = s.subrange(0, s.len() - 1);
        lemma_strip_sigs_free(pre, pres);
        let last = s[s.len() - 1];
        lemma_strip_tags_clean(last.tags, spec_variant_family(), pres);
        let rest = strip_sigs(pre, pres);
        let x = strip_sig(last, pres);
        assert(rest.push(x).subrange(0, rest.push(x).len() - 1) =~= rest);
        assert(rest.push(x)[rest.push(x).len() - 1] == x);
    }
}

proof fn lemma_strip_item_free(it: ItemV, pres: Seq<char>)
    requires
        item_body_free_of(it, pres),
    ensures
        item_free_of(strip_item(it, pres), pres),
    decreases it,
{
    match it {
        ItemV::Mod(m) => {
            lemma_strip_tags_clean(m.tags, spec_variant_family(), pres);
            match m.content {
                Option::Some(items) => {
                    lemma_strip_items_free(items, pres);
                },
                Option::None => {},
            }
        },
        ItemV::Use(tags, _, _) => {
            lemma_strip_tags_clean(tags, spec_variant_family(), pres);
        },
        ItemV::Fn(sig) => {
            lemma_strip_tags_clean(sig.tags, spec_variant_family(), pres);
        },
        ItemV::TypeDef(tags, _) => {
            lemma_strip_tags_clean(tags, spec_variant_family(), pres);
        },
        ItemV::Trait(tags, _, sigs) => {
            lemma_strip_tags_clean(tags, spec_variant_family(), pres);
            lemma_strip_sigs_free(sigs, pres);
        },
        ItemV::Impl(tags, _, sigs) => {
            lemma_strip_tags_clean(tags, spec_variant_family(), pres);
            lemma_strip_sigs_free(sigs, pres);
        },
    }
}

proof fn lemma_strip_items_free(s: Seq<ItemV>, pres: Seq<char>)
    requires
        items_body_free_of(s, pres),
    ensures
        items_free_of(strip_items(s, pres), pres),
    decreases s,
{
    if s.len() > 0 {
        let pre = s.subrange(0, s.len() - 1);
        lemma_strip_items_free(pre, pres);
        lemma_strip_item_free(s[s.len() - 1], pres);
        let rest = strip_items(pre, pres);
        let x = strip_item(s[s.len() - 1], pres);
        assert(rest.push(x).subrange(0, rest.push(x).len() - 1) =~= rest);
        assert(rest.push(x)[rest.push(x).len() - 1] == x);
    }
}

/// Idempotent cleanup: no tag of the surviving variant's own family
/// remains attached to any node of a converted copy.
pub proof fn lemma_idempotent_cleanup(m: ItemModV, root: Seq<char>, pres: Seq<char>, rem: Seq<char>)
    ensures
        mod_free_of(convert_spec(m, root, pres, rem), pres),
{
    let cleaned = ItemModV {
        tags: strip_tags(
            strip_tags(m.tags, spec_variant_family(), pres),
            spec_variant_family(),
            rem,
        ),
        name: m.name,
        content: m.content,
    };
    if pres == rem {
        lemma_strip_tags_clean(
            strip_tags(m.tags, spec_variant_family(), pres),
            spec_variant_family(),
            rem,
        );
    } else {
        lemma_strip_tags_clean(m.tags, spec_variant_family(), pres);
        lemma_strip_tags_other(
            strip_tags(m.tags, spec_variant_family(), pres),
            spec_variant_family(),
            rem,
            spec_variant_family(),
            pres,
        );
    }
    let visited = visit_item_mod(cleaned, root, pres, rem);
    lemma_visit_mod_body_free(cleaned, root, pres, rem);
    let removed = remove_items_mod(visited, rem);
    match visited.content {
        Option::Some(items) => {
            lemma_remove_items_body_free(items, rem, pres);
        },
        Option::None => {},
    }
    match removed.content {
        Option::Some(items) => {
            lemma_strip_items_free(items, pres);
        },
        Option::None => {},
    }
}


// ------------------------------------------------------------------
// Suspension erasure: total, shape-exact, and idempotent.
// ------------------------------------------------------------------

proof fn lemma_desuspend_expr_total(e: ExprV)
    ensures
        crate::ast::expr_no_suspension(desuspend_expr(e)),
    decreases e,
{
    match e {
        ExprV::Unit => {},
        ExprV::Name(_, _) => {},
        ExprV::Call(_, _, args) => {
            lemma_desuspend_exprs_total(args);
        },
        ExprV::Suspend(_, base) => {
            lemma_desuspend_expr_total(*base);
        },
        ExprV::SuspendBlock(_, stmts) => {
            lemma_desuspend_stmts_total(stmts);
            let ds = desuspend_stmts(stmts);
            if ds.len() == 1 {
                assert(crate::ast::stmts_no_suspension(ds) == (crate::ast::stmts_no_suspension(
                    ds.subrange(0, 0),
                ) && crate::ast::stmt_no_suspension(ds[0])));
                assert(crate::ast::stmt_no_suspension(ds[0]));
            }
        },
        ExprV::Block(_, stmts) => {
            lemma_desuspend_stmts_total(stmts);
        },
    }
}

proof fn lemma_desuspend_exprs_total(s: Seq<ExprV>)
    ensures
        crate::ast::exprs_no_suspension(desuspend_exprs(s)),
    decreases s,
{
    if s.len() > 0 {
        let pre = s.subrange(0, s.len() - 1);
        lemma_desuspend_exprs_total(pre);
        lemma_desuspend_expr_total(s[s.len() - 1]);
        let rest = desuspend_exprs(pre);
        let x = desuspend_expr(s[s.len() - 1]);
        assert(rest.push(x).subrange(0, rest.push(x).len() - 1) =~= rest);
        assert(rest.push(x)[rest.push(x).len() - 1] == x);
    }
}

proof fn lemma_desuspend_stmt_total(st: StmtV)
    ensures
        crate::ast::stmt_no_suspension(desuspend_stmt(st)),
    decreases st,
{
    match st {
        StmtV::Empty => {},
        StmtV::Let(_, _, e) => {
            lemma_desuspend_expr_total(e);
        },
        StmtV::Expr(e, _) => {
            lemma_desuspend_expr_total(e);
        },
        StmtV::Use(_, _, _) => {},
    }
}

proof fn lemma_desuspend_stmts_total(s: Seq<StmtV>)
    ensures
        crate::ast::stmts_no_suspension(desuspend_stmts(s)),
    decreases s,
{
    if s.len() > 0 {
        let pre = s.subrange(0, s.len() - 1);
        lemma_desuspend_stmts_total(pre);
        lemma_desuspend_stmt_total(s[s.len() - 1]);
        let rest = desuspend_stmts(pre);
        let x = desuspend_stmt(s[s.len() - 1]);
        assert(rest.push(x).subrange(0, rest.push(x).len() - 1) =~= rest);
        assert(rest.push(x)[rest.push(x).len() - 1] == x);
    }
}

proof fn lemma_desuspend_sigs_total(s: Seq<SigV>)
    ensures
        crate::ast::sigs_no_suspension(desuspend_sigs(s)),
    decreases s,
{
    if s.len() > 0 {
        let pre = s.subrange(0, s.len() - 1);
        lemma_desuspend_sigs_total(pre);
        let last = s[s.len() - 1];
        match last.body {
            Option::Some(b) => {
                lemma_desuspend_stmts_total(b);
            },
            Option::None => {},
        }
        let rest = desuspend_sigs(pre);
        let x = desuspend_sig(last);
        assert(rest.push(x).subrange(0, rest.push(x).len() - 1) =~= rest);
        assert(rest.push(x)[rest.push(x).len() - 1] == x);
    }
}

proof fn lemma_desuspend_item_total(it: ItemV)
    ensures
        crate::ast::item_no_suspension(desuspend_item(it)),
    decreases it,
{
    match it {
        ItemV::Mod(m) => {
            lemma_desuspend_mod_total(m);
        },
        ItemV::Fn(sig) => {
            match sig.body {
                Option::Some(b) => {
                    lemma_desuspend_stmts_total(b);
                },
                Option::None => {},
            }
        },
        ItemV::Trait(_, _, sigs) => {
            lemma_desuspend_sigs_total(sigs);
        },
        ItemV::Impl(_, _, sigs) => {
            lemma_desuspend_sigs_total(sigs);
        },
        _ => {},
    }
}

proof fn lemma_desuspend_items_total(s: Seq<ItemV>)
    ensures
        crate::ast::items_no_suspension(desuspend_items(s)),
    decreases s,
{
    if s.len() > 0 {
        let pre = s.subrange(0, s.len() - 1);
        lemma_desuspend_items_total(pre);
        lemma_desuspend_item_total(s[s.len() - 1]);
        let rest = desuspend_items(pre);
        let x = desuspend_item(s[s.len() - 1]);
        assert(rest.push(x).subrange(0, rest.push(x).len() - 1) =~= rest);
        assert(rest.push(x)[rest.push(x).len() - 1] == x);
    }
}

proof fn lemma_desuspend_mod_total(m: ItemModV)
    ensures
        crate::ast::item_mod_no_suspension(desuspend_item_mod(m)),
    decreases m,
{
    match m.content {
        Option::Some(items) => {
            lemma_desuspend_items_total(items);
        },
        Option::None => {},
    }
}

/// Suspension erasure totality: no callable in the blocking output keeps
/// an asynchronous marker, and no suspension expression or block survives,
/// at any depth.
pub proof fn lemma_suspension_erasure_total(m: ItemModV)
    ensures
        crate::ast::item_mod_no_suspension(desuspend_item_mod(m)),
{
    lemma_desuspend_mod_total(m);
}

proof fn lemma_desuspend_expr_fixed(e: ExprV)
    requires
        crate::ast::expr_no_suspension(e),
    ensures
        desuspend_expr(e) == e,
    decreases e,
{
    match e {
        ExprV::Call(_, _, args) => {
            lemma_desuspend_exprs_fixed(args);
        },
        ExprV::Block(_, stmts) => {
            lemma_desuspend_stmts_fixed(stmts);
        },
        _ => {},
    }
}

proof fn lemma_desuspend_exprs_fixed(s: Seq<ExprV>)
    requires
        crate::ast::exprs_no_suspension(s),
    ensures
        desuspend_exprs(s) == s,
    decreases s,
{
    if s.len() > 0 {
        let pre = s.subrange(0, s.len() - 1);
        lemma_desuspend_exprs_fixed(pre);
        lemma_desuspend_expr_fixed(s[s.len() - 1]);
        assert(pre.push(s[s.len() - 1]) =~= s);
    }
}

proof fn lemma_desuspend_stmt_fixed(st: StmtV)
    requires
        crate::ast::stmt_no_suspension(st),
    ensures
        desuspend_stmt(st) == st,
    decreases st,
{
    match st {
        StmtV::Let(_, _, e) => {
            lemma_desuspend_expr_fixed(e);
        },
        StmtV::Expr(e, _) => {
            lemma_desuspend_expr_fixed(e);
        },
        StmtV::Use(_, _, _) => {},
        StmtV::Empty => {},
    }
}

proof fn lemma_desuspend_stmts_fixed(s: Seq<StmtV>)
    requires
        crate::ast::stmts_no_suspension(s),
    ensures
        desuspend_stmts(s) == s,
    decreases s,
{
    if s.len() > 0 {
        let pre = s.subrange(0, s.len() - 1);
        lemma_desuspend_stmts_fixed(pre);
        lemma_desuspend_stmt_fixed(s[s.len() - 1]);
        assert(pre.push(s[s.len() - 1]) =~= s);
    }
}

proof fn lemma_desuspend_sigs_fixed(s: Seq<SigV>)
    requires
        crate::ast::sigs_no_suspension(s),
    ensures
        desuspend_sigs(s) == s,
    decreases s,
{
    if s.len() > 0 {
        let pre = s.subrange(0, s.len() - 1);
        lemma_desuspend_sigs_fixed(pre);
        let last = s[s.len() - 1];
        match last.body {
            Option::Some(b) => {
                lemma_desuspend_stmts_fixed(b);
            },
            Option::None => {},
        }
        assert(pre.push(last) =~= s);
    }
}

proof fn lemma_desuspend_item_fixed(it: ItemV)
    requires
        crate::ast::item_no_suspension(it),
    ensures
        desuspend_item(it) == it,
    decreases it,
{
    match it {
        ItemV::Mod(m) => {
            lemma_desuspend_mod_fixed(m);
        },
        ItemV::Fn(sig) => {
            match sig.body {
                Option::Some(b) => {
                    lemma_desuspend_stmts_fixed(b);
                },
                Option::None => {},
            }
        },
        ItemV::Trait(_, _, sigs) => {
            lemma_desuspend_sigs_fixed(sigs);
        },
        ItemV::Impl(_, _, sigs) => {
            lemma_desuspend_sigs_fixed(sigs);
        },
        _ => {},
    }
}

proof fn lemma_desuspend_items_fixed(s: Seq<ItemV>)
    requires
        crate::ast::items_no_suspension(s),
    ensures
        desuspend_items(s) == s,
    decreases s,
{
    if s.len() > 0 {
        let pre = s.subrange(0, s.len() - 1);
        lemma_desuspend_items_fixed(pre);
        lemma_desuspend_item_fixed(s[s.len() - 1]);
        assert(pre.push(s[s.len() - 1]) =~= s);
    }
}

proof fn lemma_desuspend_mod_fixed(m: ItemModV)
    requires
        crate::ast::item_mod_no_suspension(m),
    ensures
        desuspend_item_mod(m) == m,
    decreases m,
{
    match m.content {
        Option::Some(items) => {
            lemma_desuspend_items_fixed(items);
        },
        Option::None => {},
    }
}

/// The eraser is idempotent: applied to already-desuspended input it is a
/// no-op.
pub proof fn lemma_desuspend_idempotent(m: ItemModV)
    ensures
        desuspend_item_mod(desuspend_item_mod(m)) == desuspend_item_mod(m),
{
    lemma_desuspend_mod_total(m);
    lemma_desuspend_mod_fixed(desuspend_item_mod(m));
}

/// A suspension expression's blocking form is exactly its operand, once
/// the operand itself is synchronous.
pub proof fn lemma_erase_suspension_expr(tags: Seq<TagV>, e: ExprV)
    ensures
        desuspend_expr(ExprV::Suspend(tags, Box::new(e))) == desuspend_expr(e),
        crate::ast::expr_no_suspension(e) ==> desuspend_expr(
            ExprV::Suspend(tags, Box::new(e)),
        ) == e,
{
    if crate::ast::expr_no_suspension(e) {
        lemma_desuspend_expr_fixed(e);
    }
}

/// A suspension block holding exactly one synchronous tail expression is
/// elided to that expression; any other synchronous statement sequence
/// becomes a plain block with the same statements in order.
pub proof fn lemma_erase_suspension_block(tags: Seq<TagV>, s: Seq<StmtV>)
    requires
        crate::ast::stmts_no_suspension(s),
    ensures
        s.len() == 1 && s[0] is Expr && !s[0]->Expr_1 ==> desuspend_expr(
            ExprV::SuspendBlock(tags, s),
        ) == s[0]->Expr_0,
        s.len() == 1 && (!(s[0] is Expr) || s[0]->Expr_1) ==> desuspend_expr(
            ExprV::SuspendBlock(tags, s),
        ) == ExprV::Block(tags, s),
        s.len() != 1 ==> desuspend_expr(ExprV::SuspendBlock(tags, s)) == ExprV::Block(tags, s),
{
    lemma_desuspend_stmts_fixed(s);
}


// ------------------------------------------------------------------
// No-tag invariance: on a tree without variant tags the conversion is
// nothing but the self-reference rewrite.
// ------------------------------------------------------------------

/// The self-reference rewrite alone: import paths rewritten — at the
/// declaration level and inside callable bodies — and everything else
/// untouched.
pub open spec fn rewrite_only_expr(e: ExprV, root: Seq<char>, vname: Seq<char>) -> ExprV
    decreases e,
{
    match e {
        ExprV::Unit => ExprV::Unit,
        ExprV::Name(tags, s) => ExprV::Name(tags, s),
        ExprV::Call(tags, callee, args) => ExprV::Call(
            tags,
            callee,
            rewrite_only_exprs(args, root, vname),
        ),
        ExprV::Suspend(tags, base) => ExprV::Suspend(
            tags,
            Box::new(rewrite_only_expr(*base, root, vname)),
        ),
        ExprV::SuspendBlock(tags, stmts) => ExprV::SuspendBlock(
            tags,
            rewrite_only_stmts(stmts, root, vname),
        ),
        ExprV::Block(tags, stmts) => ExprV::Block(tags, rewrite_only_stmts(stmts, root, vname)),
    }
}

pub open spec fn rewrite_only_exprs(s: Seq<ExprV>, root: Seq<char>, vname: Seq<char>) -> Seq<ExprV>
    decreases s,
{
    if s.len() == 0 {
        Seq::<ExprV>::empty()
    } else {
        rewrite_only_exprs(s.subrange(0, s.len() - 1), root, vname).push(
            rewrite_only_expr(s[s.len() - 1], root, vname),
        )
    }
}

pub open spec fn rewrite_only_stmt(st: StmtV, root: Seq<char>, vname: Seq<char>) -> StmtV
    decreases st,
{
    match st {
        StmtV::Empty => StmtV::Empty,
        StmtV::Let(tags, name, e) => StmtV::Let(tags, name, rewrite_only_expr(e, root, vname)),
        StmtV::Expr(e, semi) => StmtV::Expr(rewrite_only_expr(e, root, vname), semi),
        StmtV::Use(tags, qualified, tree) => StmtV::Use(
            tags,
            qualified,
            if qualified {
                tree
            } else {
                rewrite_use_tree(tree, root, vname)
            },
        ),
    }
}

pub open spec fn rewrite_only_stmts(s: Seq<StmtV>, root: Seq<char>, vname: Seq<char>) -> Seq<StmtV>
    decreases s,
{
    if s.len() == 0 {
        Seq::<StmtV>::empty()
    } else {
        rewrite_only_stmts(s.subrange(0, s.len() - 1), root, vname).push(
            rewrite_only_stmt(s[s.len() - 1], root, vname),
        )
    }
}

pub open spec fn rewrite_only_sig(sig: SigV, root: Seq<char>, vname: Seq<char>) -> SigV
    decreases sig,
{
    SigV {
        tags: sig.tags,
        vis: sig.vis,
        name: sig.name,
        suspend: sig.suspend,
        rest: sig.rest,
        body: match sig.body {
            Option::Some(b) => Option::Some(rewrite_only_stmts(b, root, vname)),
            Option::None => Option::None,
        },
    }
}

pub open spec fn rewrite_only_sigs(s: Seq<SigV>, root: Seq<char>, vname: Seq<char>) -> Seq<SigV>
    decreases s,
{
    if s.len() == 0 {
        Seq::<SigV>::empty()
    } else {
        rewrite_only_sigs(s.subrange(0, s.len() - 1), root, vname).push(
            rewrite_only_sig(s[s.len() - 1], root, vname),
        )
    }
}

pub open spec fn rewrite_only_item(it: ItemV, root: Seq<char>, vname: Seq<char>) -> ItemV
    decreases it,
{
    match it {
        ItemV::Mod(m) => ItemV::Mod(rewrite_only_mod(m, root, vname)),
        ItemV::Use(tags, qualified, tree) => ItemV::Use(
            tags,
            qualified,
            if qualified {
                tree
            } else {
                rewrite_use_tree(tree, root, vname)
            },
        ),
        ItemV::Fn(sig) => ItemV::Fn(rewrite_only_sig(sig, root, vname)),
        ItemV::TypeDef(tags, name) => ItemV::TypeDef(tags, name),
        ItemV::Trait(tags, name, sigs) => ItemV::Trait(
            tags,
            name,
            rewrite_only_sigs(sigs, root, vname),
        ),
        ItemV::Impl(tags, name, sigs) => ItemV::Impl(
            tags,
            name,
            rewrite_only_sigs(sigs, root, vname),
        ),
    }
}

pub open spec fn rewrite_only_items(s: Seq<ItemV>, root: Seq<char>, vname: Seq<char>) -> Seq<ItemV>
    decreases s,
{
    if s.len() == 0 {
        Seq::<ItemV>::empty()
    } else {
        rewrite_only_items(s.subrange(0, s.len() - 1), root, vname).push(
            rewrite_only_item(s[s.len() - 1], root, vname),
        )
    }
}

pub open spec fn rewrite_only_mod(m: ItemModV, root: Seq<char>, vname: Seq<char>) -> ItemModV
    decreases m,
{
    ItemModV {
        tags: m.tags,
        name: m.name,
        content: match m.content {
            Option::Some(items) => Option::Some(rewrite_only_items(items, root, vname)),
            Option::None => Option::None,
        },
    }
}

/// Stripping a tag that is not there changes nothing.
proof fn lemma_strip_tags_id(tags: Seq<TagV>, family: Seq<char>, arg: Seq<char>)
    requires
        !has_tag(tags, family, arg),
    ensures
        strip_tags(tags, family, arg) == tags,
    decreases tags,
{
    if tags.len() > 0 {
        let pre = tags.subrange(0, tags.len() - 1);
        lemma_strip_tags_id(pre, family, arg);
        assert(pre.push(tags[tags.len() - 1]) =~= tags);
    }
}

proof fn lemma_visit_expr_untagged(e: ExprV, root: Seq<char>, pres: Seq<char>, rem: Seq<char>)
    requires
        expr_free_of(e, pres),
        expr_free_of(e, rem),
    ensures
        visit_expr(e, root, pres, rem) == rewrite_only_expr(e, root, pres),
    decreases e,
{
    match e {
        ExprV::Unit => {},
        ExprV::Name(tags, _) => {
            lemma_strip_tags_id(tags, spec_variant_family(), pres);
        },
        ExprV::Call(tags, _, args) => {
            lemma_strip_tags_id(tags, spec_variant_family(), pres);
            lemma_visit_exprs_untagged(args, root, pres, rem);
        },
        ExprV::Suspend(tags, base) => {
            lemma_strip_tags_id(tags, spec_variant_family(), pres);
            lemma_visit_expr_untagged(*base, root, pres, rem);
        },
        ExprV::SuspendBlock(tags, stmts) => {
            lemma_strip_tags_id(tags, spec_variant_family(), pres);
            lemma_visit_stmts_untagged(stmts, root, pres, rem);
        },
        ExprV::Block(tags, stmts) => {
            lemma_strip_tags_id(tags, spec_variant_family(), pres);
            lemma_visit_stmts_untagged(stmts, root, pres, rem);
        },
    }
}

proof fn lemma_visit_exprs_untagged(s: Seq<ExprV>, root: Seq<char>, pres: Seq<char>, rem: Seq<char>)
    requires
        exprs_free_of(s, pres),
        exprs_free_of(s, rem),
    ensures
        visit_exprs(s, root, pres, rem) == rewrite_only_exprs(s, root, pres),
    decreases s,
{
    if s.len() > 0 {
        let pre = s.subrange(0, s.len() - 1);
        lemma_visit_exprs_untagged(pre, root, pres, rem);
        lemma_visit_expr_untagged(s[s.len() - 1], root, pres, rem);
    }
}

proof fn lemma_visit_stmt_untagged(st: StmtV, root: Seq<char>, pres: Seq<char>, rem: Seq<char>)
    requires
        stmt_free_of(st, pres),
        stmt_free_of(st, rem),
    ensures
        visit_stmt(st, root, pres, rem) == rewrite_only_stmt(st, root, pres),
    decreases st,
{
    match st {
        StmtV::Empty => {},
        StmtV::Let(tags, _, e) => {
            lemma_strip_tags_id(tags, spec_variant_family(), pres);
            lemma_visit_expr_untagged(e, root, pres, rem);
        },
        StmtV::Expr(e, _) => {
            lemma_visit_expr_untagged(e, root, pres, rem);
        },
        StmtV::Use(tags, _, _) => {
            lemma_strip_tags_id(tags, spec_variant_family(), pres);
        },
    }
}

proof fn lemma_visit_stmts_untagged(s: Seq<StmtV>, root: Seq<char>, pres: Seq<char>, rem: Seq<char>)
    requires
        stmts_free_of(s, pres),
        stmts_free_of(s, rem),
    ensures
        visit_stmts(s, root, pres, rem) == rewrite_only_stmts(s, root, pres),
    decreases s,
{
    if s.len() > 0 {
        let pre = s.subrange(0, s.len() - 1);
        lemma_visit_stmts_untagged(pre, root, pres, rem);
        lemma_visit_stmt_untagged(s[s.len() - 1], root, pres, rem);
    }
}

proof fn lemma_visit_sigs_untagged(s: Seq<SigV>, root: Seq<char>, pres: Seq<char>, rem: Seq<char>)
    requires
        sigs_free_of(s, pres),
        sigs_free_of(s, rem),
    ensures
        visit_sigs(s, root, pres, rem) == rewrite_only_sigs(s, root, pres),
    decreases s,
{
    if s.len() > 0 {
        let pre = s.subrange(0, s.len() - 1);
        lemma_visit_sigs_untagged(pre, root, pres, rem);
        let last = s[s.len() - 1];
        match last.body {
            Option::Some(b) => {
                lemma_visit_stmts_untagged(b, root, pres, rem);
            },
            Option::None => {},
        }
    }
}

proof fn lemma_visit_item_untagged(it: ItemV, root: Seq<char>, pres: Seq<char>, rem: Seq<char>)
    requires
        item_free_of(it, pres),
        item_free_of(it, rem),
    ensures
        visit_item(it, root, pres, rem) == rewrite_only_item(it, root, pres),
    decreases it,
{
    match it {
        ItemV::Mod(m) => {
            lemma_visit_mod_untagged(m, root, pres, rem);
        },
        ItemV::Fn(sig) => {
            match sig.body {
                Option::Some(b) => {
                    lemma_visit_stmts_untagged(b, root, pres, rem);
                },
                Option::None => {},
            }
        },
        ItemV::Trait(_, _, sigs) => {
            lemma_visit_sigs_untagged(sigs, root, pres, rem);
        },
        ItemV::Impl(_, _, sigs) => {
            lemma_visit_sigs_untagged(sigs, root, pres, rem);
        },
        _ => {},
    }
}

proof fn lemma_visit_items_untagged(s: Seq<ItemV>, root: Seq<char>, pres: Seq<char>, rem: Seq<char>)
    requires
        items_free_of(s, pres),
        items_free_of(s, rem),
    ensures
        visit_items(s, root, pres, rem) == rewrite_only_items(s, root, pres),
    decreases s,
{
    if s.len() > 0 {
        let pre = s.subrange(0, s.len() - 1);
        lemma_visit_items_untagged(pre, root, pres, rem);
        lemma_visit_item_untagged(s[s.len() - 1], root, pres, rem);
    }
}

proof fn lemma_visit_mod_untagged(m: ItemModV, root: Seq<char>, pres: Seq<char>, rem: Seq<char>)
    requires
        mod_free_of(m, pres),
        mod_free_of(m, rem),
    ensures
        visit_item_mod(m, root, pres, rem) == rewrite_only_mod(m, root, pres),
    decreases m,
{
    match m.content {
        Option::Some(items) => {
            lemma_visit_items_untagged(items, root, pres, rem);
        },
        Option::None => {},
    }
}

// The rewrite alone moves no tags, so freedom from a tag survives it.

proof fn lemma_rewrite_only_expr_free(e: ExprV, root: Seq<char>, vname: Seq<char>, arg: Seq<char>)
    requires
        expr_free_of(e, arg),
    ensures
        expr_free_of(rewrite_only_expr(e, root, vname), arg),
    decreases e,
{
    match e {
        ExprV::Call(_, _, args) => {
            lemma_rewrite_only_exprs_free(args, root, vname, arg);
        },
        ExprV::Suspend(_, base) => {
            lemma_rewrite_only_expr_free(*base, root, vname, arg);
        },
        ExprV::SuspendBlock(_, stmts) => {
            lemma_rewrite_only_stmts_free(stmts, root, vname, arg);
        },
        ExprV::Block(_, stmts) => {
            lemma_rewrite_only_stmts_free(stmts, root, vname, arg);
        },
        _ => {},
    }
}

proof fn lemma_rewrite_only_exprs_free(
    s: Seq<ExprV>,
    root: Seq<char>,
    vname: Seq<char>,
    arg: Seq<char>,
)
    requires
        exprs_free_of(s, arg),
    ensures
        exprs_free_of(rewrite_only_exprs(s, root, vname), arg),
    decreases s,
{
    if s.len() > 0 {
        let pre = s.subrange(0, s.len() - 1);
        lemma_rewrite_only_exprs_free(pre, root, vname, arg);
        lemma_rewrite_only_expr_free(s[s.len() - 1], root, vname, arg);
        let rest = rewrite_only_exprs(pre, root, vname);
        let x = rewrite_only_expr(s[s.len() - 1], root, vname);
        assert(rest.push(x).subrange(0, rest.push(x).len() - 1) =~= rest);
        assert(rest.push(x)[rest.push(x).len() - 1] == x);
    }
}

proof fn lemma_rewrite_only_stmt_free(st: StmtV, root: Seq<char>, vname: Seq<char>, arg: Seq<char>)
    requires
        stmt_free_of(st, arg),
    ensures
        stmt_free_of(rewrite_only_stmt(st, root, vname), arg),
    decreases st,
{
    match st {
        StmtV::Let(_, _, e) => {
            lemma_rewrite_only_expr_free(e, root, vname, arg);
        },
        StmtV::Expr(e, _) => {
            lemma_rewrite_only_expr_free(e, root, vname, arg);
        },
        _ => {},
    }
}

proof fn lemma_rewrite_only_stmts_free(
    s: Seq<StmtV>,
    root: Seq<char>,
    vname: Seq<char>,
    arg: Seq<char>,
)
    requires
        stmts_free_of(s, arg),
    ensures
        stmts_free_of(rewrite_only_stmts(s, root, vname), arg),
    decreases s,
{
    if s.len() > 0 {
        let pre = s.subrange(0, s.len() - 1);
        lemma_rewrite_only_stmts_free(pre, root, vname, arg);
        lemma_rewrite_only_stmt_free(s[s.len() - 1], root, vname, arg);
        let rest = rewrite_only_stmts(pre, root, vname);
        let x = rewrite_only_stmt(s[s.len() - 1], root, vname);
        assert(rest.push(x).subrange(0, rest.push(x).len() - 1) =~= rest);
        assert(rest.push(x)[rest.push(x).len() - 1] == x);
    }
}

proof fn lemma_rewrite_only_sigs_free(
    s: Seq<SigV>,
    root: Seq<char>,
    vname: Seq<char>,
    arg: Seq<char>,
)
    requires
        sigs_free_of(s, arg),
    ensures
        sigs_free_of(rewrite_only_sigs(s, root, vname), arg),
    decreases s,
{
    if s.len() > 0 {
        let pre = s.subrange(0, s.len() - 1);
        lemma_rewrite_only_sigs_free(pre, root, vname, arg);
        let last = s[s.len() - 1];
        match last.body {
            Option::Some(b) => {
                lemma_rewrite_only_stmts_free(b, root, vname, arg);
            },
            Option::None => {},
        }
        let rest = rewrite_only_sigs(pre, root, vname);
        let x = rewrite_only_sig(last, root, vname);
        assert(rest.push(x).subrange(0, rest.push(x).len() - 1) =~= rest);
        assert(rest.push(x)[rest.push(x).len() - 1] == x);
    }
}

proof fn lemma_rewrite_only_item_free(it: ItemV, root: Seq<char>, vname: Seq<char>, arg: Seq<char>)
    requires
        item_free_of(it, arg),
    ensures
        item_free_of(rewrite_only_item(it, root, vname), arg),
        item_tags(rewrite_only_item(it, root, vname)) == item_tags(it),
    decreases it,
{
    match it {
        ItemV::Mod(m) => {
            lemma_rewrite_only_mod_free(m, root, vname, arg);
        },
        ItemV::Fn(sig) => {
            match sig.body {
                Option::Some(b) => {
                    lemma_rewrite_only_stmts_free(b, root, vname, arg);
                },
                Option::None => {},
            }
        },
        ItemV::Trait(_, _, sigs) => {
            lemma_rewrite_only_sigs_free(sigs, root, vname, arg);
        },
        ItemV::Impl(_, _, sigs) => {
            lemma_rewrite_only_sigs_free(sigs, root, vname, arg);
        },
        _ => {},
    }
}

proof fn lemma_rewrite_only_items_free(
    s: Seq<ItemV>,
    root: Seq<char>,
    vname: Seq<char>,
    arg: Seq<char>,
)
    requires
        items_free_of(s, arg),
    ensures
        items_free_of(rewrite_only_items(s, root, vname), arg),
    decreases s,
{
    if s.len() > 0 {
        let pre = s.subrange(0, s.len() - 1);
        lemma_rewrite_only_items_free(pre, root, vname, arg);
        lemma_rewrite_only_item_free(s[s.len() - 1], root, vname, arg);
        let rest = rewrite_only_items(pre, root, vname);
        let x = rewrite_only_item(s[s.len() - 1], root, vname);
        assert(rest.push(x).subrange(0, rest.push(x).len() - 1) =~= rest);
        assert(rest.push(x)[rest.push(x).len() - 1] == x);
    }
}

proof fn lemma_rewrite_only_mod_free(m: ItemModV, root: Seq<char>, vname: Seq<char>, arg: Seq<char>)
    requires
        mod_free_of(m, arg),
    ensures
        mod_free_of(rewrite_only_mod(m, root, vname), arg),
    decreases m,
{
    match m.content {
        Option::Some(items) => {
            lemma_rewrite_only_items_free(items, root, vname, arg);
        },
        Option::None => {},
    }
}

// On a tree without the other variant's tags, declaration removal is the
// identity; without this variant's tags, the cleanup is too.

proof fn lemma_remove_sigs_id(s: Seq<SigV>, rem: Seq<char>)
    requires
        sigs_free_of(s, rem),
    ensures
        remove_sigs(s, rem) == s,
    decreases s,
{
    if s.len() > 0 {
        let pre = s.subrange(0, s.len() - 1);
        lemma_remove_sigs_id(pre, rem);
        assert(pre.push(s[s.len() - 1]) =~= s);
    }
}

proof fn lemma_remove_item_inner_id(it: ItemV, rem: Seq<char>)
    requires
        item_free_of(it, rem),
    ensures
        remove_item_inner(it, rem) == it,
    decreases it,
{
    match it {
        ItemV::Mod(m) => {
            match m.content {
                Option::Some(items) => {
                    lemma_remove_items_id(items, rem);
                },
                Option::None => {},
            }
        },
        ItemV::Trait(_, _, sigs) => {
            lemma_remove_sigs_id(sigs, rem);
        },
        ItemV::Impl(_, _, sigs) => {
            lemma_remove_sigs_id(sigs, rem);
        },
        _ => {},
    }
}

proof fn lemma_remove_items_id(s: Seq<ItemV>, rem: Seq<char>)
    requires
        items_free_of(s, rem),
    ensures
        remove_items(s, rem) == s,
    decreases s,
{
    if s.len() > 0 {
        let pre = s.subrange(0, s.len() - 1);
        lemma_remove_items_id(pre, rem);
        lemma_item_free_item_tags(s[s.len() - 1], rem);
        lemma_remove_item_inner_id(s[s.len() - 1], rem);
        assert(pre.push(s[s.len() - 1]) =~= s);
    }
}

proof fn lemma_item_free_item_tags(it: ItemV, arg: Seq<char>)
    requires
        item_free_of(it, arg),
    ensures
        tags_free_of(item_tags(it), arg),
{
}

proof fn lemma_strip_sigs_id(s: Seq<SigV>, pres: Seq<char>)
    requires
        sigs_free_of(s, pres),
    ensures
        strip_sigs(s, pres) == s,
    decreases s,
{
    if s.len() > 0 {
        let pre = s.subrange(0, s.len() - 1);
        lemma_strip_sigs_id(pre, pres);
        lemma_strip_tags_id(s[s.len() - 1].tags, spec_variant_family(), pres);
        assert(pre.push(s[s.len() - 1]) =~= s);
    }
}

proof fn lemma_strip_item_id(it: ItemV, pres: Seq<char>)
    requires
        item_free_of(it, pres),
    ensures
        strip_item(it, pres) == it,
    decreases it,
{
    match it {
        ItemV::Mod(m) => {
            lemma_strip_tags_id(m.tags, spec_variant_family(), pres);
            match m.content {
                Option::Some(items) => {
                    lemma_strip_items_id(items, pres);
                },
                Option::None => {},
            }
        },
        ItemV::Use(tags, _, _) => {
            lemma_strip_tags_id(tags, spec_variant_family(), pres);
        },
        ItemV::Fn(sig) => {
            lemma_strip_tags_id(sig.tags, spec_variant_family(), pres);
        },
        ItemV::TypeDef(tags, _) => {
            lemma_strip_tags_id(tags, spec_variant_family(), pres);
        },
        ItemV::Trait(tags, _, sigs) => {
            lemma_strip_tags_id(tags, spec_variant_family(), pres);
            lemma_strip_sigs_id(sigs, pres);
        },
        ItemV::Impl(tags, _, sigs) => {
            lemma_strip_tags_id(tags, spec_variant_family(), pres);
            lemma_strip_sigs_id(sigs, pres);
        },
    }
}

proof fn lemma_strip_items_id(s: Seq<ItemV>, pres: Seq<char>)
    requires
        items_free_of(s, pres),
    ensures
        strip_items(s, pres) == s,
    decreases s,
{
    if s.len() > 0 {
        let pre = s.subrange(0, s.len() - 1);
        lemma_strip_items_id(pre, pres);
        lemma_strip_item_id(s[s.len() - 1], pres);
        assert(pre.push(s[s.len() - 1]) =~= s);
    }
}

/// No-tag invariance: on a module tree carrying no tag of either variant,
/// converting a copy is exactly the self-reference rewrite — so the two
/// variant copies of such a tree are structurally identical except for
/// that rewrite.
pub proof fn lemma_no_tag_invariance(m: ItemModV, root: Seq<char>, pres: Seq<char>, rem: Seq<char>)
    requires
        mod_free_of(m, pres),
        mod_free_of(m, rem),
    ensures
        convert_spec(m, root, pres, rem) == rewrite_only_mod(m, root, pres),
{
    lemma_strip_tags_id(m.tags, spec_variant_family(), pres);
    lemma_strip_tags_id(m.tags, spec_variant_family(), rem);
    let cleaned = ItemModV {
        tags: strip_tags(
            strip_tags(m.tags, spec_variant_family(), pres),
            spec_variant_family(),
            rem,
        ),
        name: m.name,
        content: m.content,
    };
    assert(cleaned == m);
    lemma_visit_mod_untagged(m, root, pres, rem);
    let visited = rewrite_only_mod(m, root, pres);
    lemma_rewrite_only_mod_free(m, root, pres, rem);
    lemma_rewrite_only_mod_free(m, root, pres, pres);
    match visited.content {
        Option::Some(items) => {
            lemma_remove_items_id(items, rem);
            lemma_strip_items_id(items, pres);
        },
        Option::None => {},
    }
}

// ------------------------------------------------------------------
// Exclusive retention: a declaration tagged for one variant alone stays,
// tag-free, in that variant's copy and is omitted from the other's.
// ------------------------------------------------------------------

/// The copy whose variant the declaration is tagged for retains it, and
/// the cleanup leaves it free of that tag.
pub proof fn lemma_exclusive_retention_kept(x: ItemV, pres: Seq<char>, rem: Seq<char>)
    requires
        has_tag(item_tags(x), spec_variant_family(), pres),
        !has_tag(item_tags(x), spec_variant_family(), rem),
    ensures
        remove_items(seq![x], rem) == seq![remove_item_inner(x, rem)],
        strip_items(seq![remove_item_inner(x, rem)], pres) == seq![
            strip_item(remove_item_inner(x, rem), pres),
        ],
        tags_free_of(item_tags(strip_item(remove_item_inner(x, rem), pres)), pres),
{
    reveal_with_fuel(remove_items, 2);
    reveal_with_fuel(strip_items, 2);
    let s = seq![x];
    assert(s.subrange(0, 0) =~= Seq::<ItemV>::empty());
    assert(s[0] == x);
    assert(Seq::<ItemV>::empty().push(remove_item_inner(x, rem)) =~= seq![
        remove_item_inner(x, rem),
    ]);
    let y = remove_item_inner(x, rem);
    let t = seq![y];
    assert(t.subrange(0, 0) =~= Seq::<ItemV>::empty());
    assert(t[0] == y);
    assert(Seq::<ItemV>::empty().push(strip_item(y, pres)) =~= seq![strip_item(y, pres)]);
    assert(item_tags(y) == item_tags(x)) by {
        match x {
            ItemV::Mod(_) => {},
            _ => {},
        }
    }
    lemma_strip_tags_clean(item_tags(y), spec_variant_family(), pres);
    assert(item_tags(strip_item(y, pres)) == strip_tags(
        item_tags(y),
        spec_variant_family(),
        pres,
    )) by {
        match y {
            ItemV::Mod(_) => {},
            _ => {},
        }
    }
}

/// The other variant's copy omits the declaration entirely.
pub proof fn lemma_exclusive_retention_dropped(x: ItemV, rem: Seq<char>)
    requires
        has_tag(item_tags(x), spec_variant_family(), rem),
    ensures
        remove_items(seq![x], rem) == Seq::<ItemV>::empty(),
{
    reveal_with_fuel(remove_items, 2);
    let s = seq![x];
    assert(s.subrange(0, 0) =~= Seq::<ItemV>::empty());
    assert(s[0] == x);
}

// ------------------------------------------------------------------
// Self-reference rewrite scope.
// ------------------------------------------------------------------

/// An import with an external-namespace qualifier is unchanged in both
/// copies.
pub proof fn lemma_rewrite_scope_qualified(
    tags: Seq<TagV>,
    tree: UseTreeV,
    root: Seq<char>,
    pres: Seq<char>,
    rem: Seq<char>,
)
    ensures
        visit_item(ItemV::Use(tags, true, tree), root, pres, rem) == ItemV::Use(tags, true, tree),
{
}

/// In an unqualified import, only a leading segment equal to the root
/// module's name is replaced — by this copy's variant identifier — and the
/// rest of the path is rewritten recursively.
pub proof fn lemma_rewrite_scope_head(
    tags: Seq<TagV>,
    seg: Seq<char>,
    rest: UseTreeV,
    root: Seq<char>,
    pres: Seq<char>,
    rem: Seq<char>,
)
    ensures
        visit_item(
            ItemV::Use(tags, false, UseTreeV::Path(seg, Box::new(rest))),
            root,
            pres,
            rem,
        ) == ItemV::Use(
            tags,
            false,
            UseTreeV::Path(
                if seg == root {
                    pres
                } else {
                    seg
                },
                Box::new(rewrite_use_tree(rest, root, pres)),
            ),
        ),
{
}


// ------------------------------------------------------------------
// The eraser never adds tags, so the cleanup survives it; the laws then
// hold of the whole generation run.
// ------------------------------------------------------------------

proof fn lemma_desuspend_expr_keeps_free(e: ExprV, arg: Seq<char>)
    requires
        expr_free_of(e, arg),
    ensures
        expr_free_of(desuspend_expr(e), arg),
    decreases e,
{
    match e {
        ExprV::Unit => {},
        ExprV::Name(_, _) => {},
        ExprV::Call(_, _, args) => {
            lemma_desuspend_exprs_keep_free(args, arg);
        },
        ExprV::Suspend(_, base) => {
            lemma_desuspend_expr_keeps_free(*base, arg);
        },
        ExprV::SuspendBlock(_, stmts) => {
            lemma_desuspend_stmts_keep_free(stmts, arg);
            let ds = desuspend_stmts(stmts);
            if ds.len() == 1 {
                assert(stmts_free_of(ds, arg) == (stmts_free_of(ds.subrange(0, 0), arg)
                    && stmt_free_of(ds[0], arg)));
                assert(stmt_free_of(ds[0], arg));
            }
        },
        ExprV::Block(_, stmts) => {
            lemma_desuspend_stmts_keep_free(stmts, arg);
        },
    }
}

proof fn lemma_desuspend_exprs_keep_free(s: Seq<ExprV>, arg: Seq<char>)
    requires
        exprs_free_of(s, arg),
    ensures
        exprs_free_of(desuspend_exprs(s), arg),
    decreases s,
{
    if s.len() > 0 {
        let pre = s.subrange(0, s.len() - 1);
        lemma_desuspend_exprs_keep_free(pre, arg);
        lemma_desuspend_expr_keeps_free(s[s.len() - 1], arg);
        let rest = desuspend_exprs(pre);
        let x = desuspend_expr(s[s.len() - 1]);
        assert(rest.push(x).subrange(0, rest.push(x).len() - 1) =~= rest);
        assert(rest.push(x)[rest.push(x).len() - 1] == x);
    }
}

proof fn lemma_desuspend_stmt_keeps_free(st: StmtV, arg: Seq<char>)
    requires
        stmt_free_of(st, arg),
    ensures
        stmt_free_of(desuspend_stmt(st), arg),
    decreases st,
{
    match st {
        StmtV::Empty => {},
        StmtV::Let(_, _, e) => {
            lemma_desuspend_expr_keeps_free(e, arg);
        },
        StmtV::Expr(e, _) => {
            lemma_desuspend_expr_keeps_free(e, arg);
        },
        StmtV::Use(_, _, _) => {},
    }
}

proof fn lemma_desuspend_stmts_keep_free(s: Seq<StmtV>, arg: Seq<char>)
    requires
        stmts_free_of(s, arg),
    ensures
        stmts_free_of(desuspend_stmts(s), arg),
    decreases s,
{
    if s.len() > 0 {
        let pre = s.subrange(0, s.len() - 1);
        lemma_desuspend_stmts_keep_free(pre, arg);
        lemma_desuspend_stmt_keeps_free(s[s.len() - 1], arg);
        let rest = desuspend_stmts(pre);
        let x = desuspend_stmt(s[s.len() - 1]);
        assert(rest.push(x).subrange(0, rest.push(x).len() - 1) =~= rest);
        assert(rest.push(x)[rest.push(x).len() - 1] == x);
    }
}

proof fn lemma_desuspend_sigs_keep_free(s: Seq<SigV>, arg: Seq<char>)
    requires
        sigs_free_of(s, arg),
    ensures
        sigs_free_of(desuspend_sigs(s), arg),
    decreases s,
{
    if s.len() > 0 {
        let pre = s.subrange(0, s.len() - 1);
        lemma_desuspend_sigs_keep_free(pre, arg);
        let last = s[s.len() - 1];
        match last.body {
            Option::Some(b) => {
                lemma_desuspend_stmts_keep_free(b, arg);
            },
            Option::None => {},
        }
        let rest = desuspend_sigs(pre);
        let x = desuspend_sig(last);
        assert(rest.push(x).subrange(0, rest.push(x).len() - 1) =~= rest);
        assert(rest.push(x)[rest.push(x).len() - 1] == x);
    }
}

proof fn lemma_desuspend_item_keeps_free(it: ItemV, arg: Seq<char>)
    requires
        item_free_of(it, arg),
    ensures
        item_free_of(desuspend_item(it), arg),
    decreases it,
{
    match it {
        ItemV::Mod(m) => {
            lemma_desuspend_mod_keeps_free(m, arg);
        },
        ItemV::Fn(sig) => {
            match sig.body {
                Option::Some(b) => {
                    lemma_desuspend_stmts_keep_free(b, arg);
                },
                Option::None => {},
            }
        },
        ItemV::Trait(_, _, sigs) => {
            lemma_desuspend_sigs_keep_free(sigs, arg);
        },
        ItemV::Impl(_, _, sigs) => {
            lemma_desuspend_sigs_keep_free(sigs, arg);
        },
        _ => {},
    }
}

proof fn lemma_desuspend_items_keep_free(s: Seq<ItemV>, arg: Seq<char>)
    requires
        items_free_of(s, arg),
    ensures
        items_free_of(desuspend_items(s), arg),
    decreases s,
{
    if s.len() > 0 {
        let pre = s.subrange(0, s.len() - 1);
        lemma_desuspend_items_keep_free(pre, arg);
        lemma_desuspend_item_keeps_free(s[s.len() - 1], arg);
        let rest = desuspend_items(pre);
        let x = desuspend_item(s[s.len() - 1]);
        assert(rest.push(x).subrange(0, rest.push(x).len() - 1) =~= rest);
        assert(rest.push(x)[rest.push(x).len() - 1] == x);
    }
}

proof fn lemma_desuspend_mod_keeps_free(m: ItemModV, arg: Seq<char>)
    requires
        mod_free_of(m, arg),
    ensures
        mod_free_of(desuspend_item_mod(m), arg),
    decreases m,
{
    match m.content {
        Option::Some(items) => {
            lemma_desuspend_items_keep_free(items, arg);
        },
        Option::None => {},
    }
}

/// Cleanup holds of the emitted trees: neither output of a generation run
/// keeps a variant tag of either family, on any node.
pub proof fn lemma_generation_cleanup(m: ItemModV, mode: crate::parse::Mode)
    ensures
        crate::amphi_spec(m, mode).0 matches Option::Some(a) ==> mod_free_of(
            a,
            crate::Version::Async.spec_str(),
        ) && mod_free_of(a, crate::Version::Sync.spec_str()),
        crate::amphi_spec(m, mode).1 matches Option::Some(b) ==> mod_free_of(
            b,
            crate::Version::Sync.spec_str(),
        ) && mod_free_of(b, crate::Version::Async.spec_str()),
{
    let root = m.name;
    lemma_no_variant_tag_survives(
        crate::rename_spec(m, crate::Version::Async.spec_str()),
        root,
        crate::Version::Async.spec_str(),
        crate::Version::Sync.spec_str(),
    );
    lemma_no_variant_tag_survives(
        crate::rename_spec(m, crate::Version::Sync.spec_str()),
        root,
        crate::Version::Sync.spec_str(),
        crate::Version::Async.spec_str(),
    );
    let sync_converted = convert_spec(
        crate::rename_spec(m, crate::Version::Sync.spec_str()),
        root,
        crate::Version::Sync.spec_str(),
        crate::Version::Async.spec_str(),
    );
    lemma_desuspend_mod_keeps_free(sync_converted, crate::Version::Sync.spec_str());
    lemma_desuspend_mod_keeps_free(sync_converted, crate::Version::Async.spec_str());
}

/// Erasure totality holds of the emitted blocking tree: the blocking
/// output of a generation run holds no suspension construct at any depth.
pub proof fn lemma_generation_blocking_synchronous(m: ItemModV, mode: crate::parse::Mode)
    ensures
        crate::amphi_spec(m, mode).1 matches Option::Some(b)
            ==> crate::ast::item_mod_no_suspension(b),
{
    let root = m.name;
    lemma_suspension_erasure_total(
        convert_spec(
            crate::rename_spec(m, crate::Version::Sync.spec_str()),
            root,
            crate::Version::Sync.spec_str(),
            crate::Version::Async.spec_str(),
        ),
    );
}


/// The paired-test adapter's two siblings never collide: the blocking
/// sibling's identifier carries the disambiguating suffix and is therefore
/// strictly longer than the asynchronous sibling's.
pub proof fn lemma_paired_test_names_differ(input: ItemV, scope: Seq<char>)
    ensures
        crate::sync_test_spec(input, scope) matches ItemV::Fn(blocking_sig) ==> (
        crate::async_test_spec(input, scope) matches ItemV::Fn(async_sig)
            ==> blocking_sig.name != async_sig.name),
{
    reveal_strlit("_sync_version");
    match input {
        ItemV::Fn(s0) => {
            assert("_sync_version"@.len() == 13);
            let pres = crate::Version::Sync.spec_str();
            let rem = crate::Version::Async.spec_str();
            let sig1 = visit_sig(s0, scope, pres, rem);
            assert(visit_item(input, scope, pres, rem) == ItemV::Fn(sig1));
            let sig2 = desuspend_sig(sig1);
            assert(desuspend_item(ItemV::Fn(sig1)) == ItemV::Fn(sig2));
            assert(sig2.name == s0.name);
            match crate::sync_test_spec(input, scope) {
                ItemV::Fn(blocking_sig) => {
                    assert(blocking_sig.name == s0.name + "_sync_version"@);
                    assert(blocking_sig.name.len() == s0.name.len() + 13);
                },
                _ => {},
            }
            match crate::async_test_spec(input, scope) {
                ItemV::Fn(async_sig) => {
                    assert(async_sig.name == s0.name);
                },
                _ => {},
            }
        },
        ItemV::Mod(_) => {},
        ItemV::Use(_, _, _) => {},
        ItemV::TypeDef(_, _) => {},
        ItemV::Trait(_, _, _) => {},
        ItemV::Impl(_, _, _) => {},
    }
}


// ------------------------------------------------------------------
// The laws at single-declaration granularity.
// ------------------------------------------------------------------

/// Declaration removal treats a list elementwise: concatenation
/// distributes through it.
proof fn lemma_remove_items_concat(a: Seq<ItemV>, b: Seq<ItemV>, rem: Seq<char>)
    ensures
        remove_items(a + b, rem) == remove_items(a, rem) + remove_items(b, rem),
    decreases b,
{
    if b.len() == 0 {
        assert(a + b =~= a);
        assert(remove_items(a, rem) + remove_items(b, rem) =~= remove_items(a, rem));
    } else {
        let bpre = b.subrange(0, b.len() - 1);
        lemma_remove_items_concat(a, bpre, rem);
        assert((a + b).subrange(0, (a + b).len() - 1) =~= a + bpre);
        assert((a + b)[(a + b).len() - 1] == b[b.len() - 1]);
        let last = b[b.len() - 1];
        if has_tag(item_tags(last), spec_variant_family(), rem) {
            assert(remove_items(a, rem) + remove_items(b, rem) =~= remove_items(a, rem)
                + remove_items(bpre, rem));
        } else {
            assert(remove_items(a, rem) + remove_items(b, rem) =~= (remove_items(a, rem)
                + remove_items(bpre, rem)).push(remove_item_inner(last, rem)));
        }
    }
}

/// So does the tag cleanup.
proof fn lemma_strip_items_concat(a: Seq<ItemV>, b: Seq<ItemV>, pres: Seq<char>)
    ensures
        strip_items(a + b, pres) == strip_items(a, pres) + strip_items(b, pres),
    decreases b,
{
    if b.len() == 0 {
        assert(a + b =~= a);
        assert(strip_items(a, pres) + strip_items(b, pres) =~= strip_items(a, pres));
    } else {
        let bpre = b.subrange(0, b.len() - 1);
        lemma_strip_items_concat(a, bpre, pres);
        assert((a + b).subrange(0, (a + b).len() - 1) =~= a + bpre);
        assert((a + b)[(a + b).len() - 1] == b[b.len() - 1]);
        assert(strip_items(a, pres) + strip_items(b, pres) =~= (strip_items(a, pres)
            + strip_items(bpre, pres)).push(strip_item(b[b.len() - 1], pres)));
    }
}

/// Exclusive retention, in place: wherever it stands in a declaration
/// list, a declaration tagged for this variant alone survives between its
/// neighbours' survivors, carries no tag of this variant afterwards, and —
/// when its subtree holds no other-variant tag — is otherwise unchanged by
/// the removal pass.
pub proof fn lemma_exclusive_retention_in_list(
    a: Seq<ItemV>,
    x: ItemV,
    b: Seq<ItemV>,
    pres: Seq<char>,
    rem: Seq<char>,
)
    requires
        has_tag(item_tags(x), spec_variant_family(), pres),
        !has_tag(item_tags(x), spec_variant_family(), rem),
    ensures
        strip_items(remove_items(a + seq![x] + b, rem), pres) == strip_items(
            remove_items(a, rem),
            pres,
        ) + seq![strip_item(remove_item_inner(x, rem), pres)] + strip_items(
            remove_items(b, rem),
            pres,
        ),
        tags_free_of(item_tags(strip_item(remove_item_inner(x, rem), pres)), pres),
        item_free_of(x, rem) ==> remove_item_inner(x, rem) == x,
{
    lemma_exclusive_retention_kept(x, pres, rem);
    assert((a + seq![x]) + b =~= a + seq![x] + b);
    lemma_remove_items_concat(a + seq![x], b, rem);
    lemma_remove_items_concat(a, seq![x], rem);
    let y = remove_item_inner(x, rem);
    let ra = remove_items(a, rem);
    let rb = remove_items(b, rem);
    assert((ra + seq![y]) + rb =~= ra + seq![y] + rb);
    assert(remove_items(a + seq![x] + b, rem) == ra + seq![y] + rb);
    lemma_strip_items_concat(ra + seq![y], rb, pres);
    lemma_strip_items_concat(ra, seq![y], pres);
    assert((strip_items(ra, pres) + seq![strip_item(y, pres)]) + strip_items(rb, pres)
        =~= strip_items(ra, pres) + seq![strip_item(y, pres)] + strip_items(rb, pres));
    if item_free_of(x, rem) {
        lemma_remove_item_inner_id(x, rem);
    }
}

/// No-tag invariance, per declaration: a declaration whose subtree carries
/// no tag of either variant passes through the three passes a retained
/// declaration undergoes as exactly its self-reference rewrite — so its
/// form in the two copies differs only by that rewrite.
pub proof fn lemma_untagged_declaration(
    it: ItemV,
    root: Seq<char>,
    pres: Seq<char>,
    rem: Seq<char>,
)
    requires
        item_free_of(it, pres),
        item_free_of(it, rem),
    ensures
        strip_item(remove_item_inner(visit_item(it, root, pres, rem), rem), pres)
            == rewrite_only_item(it, root, pres),
{
    lemma_visit_item_untagged(it, root, pres, rem);
    lemma_rewrite_only_item_free(it, root, pres, rem);
    lemma_rewrite_only_item_free(it, root, pres, pres);
    lemma_remove_item_inner_id(rewrite_only_item(it, root, pres), rem);
    lemma_strip_item_id(rewrite_only_item(it, root, pres), pres);
}


// ------------------------------------------------------------------
// The other variant's tags do not survive either: a node carrying one is
// erased outright, and no pass introduces tags.
// ------------------------------------------------------------------

proof fn lemma_visit_expr_scrubs(e: ExprV, root: Seq<char>, pres: Seq<char>, rem: Seq<char>)
    ensures
        expr_free_of(visit_expr(e, root, pres, rem), rem),
    decreases e,
{
    match e {
        ExprV::Unit => {},
        ExprV::Name(tags, _) => {
            crate::attr::lemma_strip_tags_monotone(
                tags,
                spec_variant_family(),
                pres,
                spec_variant_family(),
                rem,
            );
        },
        ExprV::Call(tags, _, args) => {
            crate::attr::lemma_strip_tags_monotone(
                tags,
                spec_variant_family(),
                pres,
                spec_variant_family(),
                rem,
            );
            lemma_visit_exprs_scrub(args, root, pres, rem);
        },
        ExprV::Suspend(tags, base) => {
            crate::attr::lemma_strip_tags_monotone(
                tags,
                spec_variant_family(),
                pres,
                spec_variant_family(),
                rem,
            );
            lemma_visit_expr_scrubs(*base, root, pres, rem);
        },
        ExprV::SuspendBlock(tags, stmts) => {
            crate::attr::lemma_strip_tags_monotone(
                tags,
                spec_variant_family(),
                pres,
                spec_variant_family(),
                rem,
            );
            lemma_visit_stmts_scrub(stmts, root, pres, rem);
        },
        ExprV::Block(tags, stmts) => {
            crate::attr::lemma_strip_tags_monotone(
                tags,
                spec_variant_family(),
                pres,
                spec_variant_family(),
                rem,
            );
            lemma_visit_stmts_scrub(stmts, root, pres, rem);
        },
    }
}

proof fn lemma_visit_exprs_scrub(s: Seq<ExprV>, root: Seq<char>, pres: Seq<char>, rem: Seq<char>)
    ensures
        exprs_free_of(visit_exprs(s, root, pres, rem), rem),
    decreases s,
{
    if s.len() > 0 {
        let pre = s.subrange(0, s.len() - 1);
        lemma_visit_exprs_scrub(pre, root, pres, rem);
        lemma_visit_expr_scrubs(s[s.len() - 1], root, pres, rem);
        let rest = visit_exprs(pre, root, pres, rem);
        let x = visit_expr(s[s.len() - 1], root, pres, rem);
        assert(rest.push(x).subrange(0, rest.push(x).len() - 1) =~= rest);
        assert(rest.push(x)[rest.push(x).len() - 1] == x);
    }
}

proof fn lemma_visit_stmt_scrubs(st: StmtV, root: Seq<char>, pres: Seq<char>, rem: Seq<char>)
    ensures
        stmt_free_of(visit_stmt(st, root, pres, rem), rem),
    decreases st,
{
    match st {
        StmtV::Empty => {},
        StmtV::Let(tags, _, e) => {
            crate::attr::lemma_strip_tags_monotone(
                tags,
                spec_variant_family(),
                pres,
                spec_variant_family(),
                rem,
            );
            lemma_visit_expr_scrubs(e, root, pres, rem);
        },
        StmtV::Expr(e, _) => {
            lemma_visit_expr_scrubs(e, root, pres, rem);
        },
        StmtV::Use(tags, _, _) => {
            crate::attr::lemma_strip_tags_monotone(
                tags,
                spec_variant_family(),
                pres,
                spec_variant_family(),
                rem,
            );
        },
    }
}

proof fn lemma_visit_stmts_scrub(s: Seq<StmtV>, root: Seq<char>, pres: Seq<char>, rem: Seq<char>)
    ensures
        stmts_free_of(visit_stmts(s, root, pres, rem), rem),
    decreases s,
{
    if s.len() > 0 {
        let pre = s.subrange(0, s.len() - 1);
        lemma_visit_stmts_scrub(pre, root, pres, rem);
        lemma_visit_stmt_scrubs(s[s.len() - 1], root, pres, rem);
        let rest = visit_stmts(pre, root, pres, rem);
        let x = visit_stmt(s[s.len() - 1], root, pres, rem);
        assert(rest.push(x).subrange(0, rest.push(x).len() - 1) =~= rest);
        assert(rest.push(x)[rest.push(x).len() - 1] == x);
    }
}

proof fn lemma_visit_sigs_body_scrub(s: Seq<SigV>, root: Seq<char>, pres: Seq<char>, rem: Seq<char>)
    ensures
        sigs_body_free_of(visit_sigs(s, root, pres, rem), rem),
    decreases s,
{
    if s.len() > 0 {
        let pre = s.subrange(0, s.len() - 1);
        lemma_visit_sigs_body_scrub(pre, root, pres, rem);
        let last = s[s.len() - 1];
        match last.body {
            Option::Some(b) => {
                lemma_visit_stmts_scrub(b, root, pres, rem);
            },
            Option::None => {},
        }
        let rest = visit_sigs(pre, root, pres, rem);
        let x = visit_sig(last, root, pres, rem);
        assert(rest.push(x).subrange(0, rest.push(x).len() - 1) =~= rest);
        assert(rest.push(x)[rest.push(x).len() - 1] == x);
    }
}

proof fn lemma_visit_item_body_scrub(it: ItemV, root: Seq<char>, pres: Seq<char>, rem: Seq<char>)
    ensures
        item_body_free_of(visit_item(it, root, pres, rem), rem),
    decreases it,
{
    match it {
        ItemV::Mod(m) => {
            lemma_visit_mod_body_scrub(m, root, pres, rem);
        },
        ItemV::Fn(sig) => {
            match sig.body {
                Option::Some(b) => {
                    lemma_visit_stmts_scrub(b, root, pres, rem);
                },
                Option::None => {},
            }
        },
        ItemV::Trait(_, _, sigs) => {
            lemma_visit_sigs_body_scrub(sigs, root, pres, rem);
        },
        ItemV::Impl(_, _, sigs) => {
            lemma_visit_sigs_body_scrub(sigs, root, pres, rem);
        },
        _ => {},
    }
}

proof fn lemma_visit_items_body_scrub(s: Seq<ItemV>, root: Seq<char>, pres: Seq<char>, rem: Seq<char>)
    ensures
        items_body_free_of(visit_items(s, root, pres, rem), rem),
    decreases s,
{
    if s.len() > 0 {
        let pre = s.subrange(0, s.len() - 1);
        lemma_visit_items_body_scrub(pre, root, pres, rem);
        lemma_visit_item_body_scrub(s[s.len() - 1], root, pres, rem);
        let rest = visit_items(pre, root, pres, rem);
        let x = visit_item(s[s.len() - 1], root, pres, rem);
        assert(rest.push(x).subrange(0, rest.push(x).len() - 1) =~= rest);
        assert(rest.push(x)[rest.push(x).len() - 1] == x);
    }
}

proof fn lemma_visit_mod_body_scrub(m: ItemModV, root: Seq<char>, pres: Seq<char>, rem: Seq<char>)
    ensures
        mod_body_free_of(visit_item_mod(m, root, pres, rem), rem),
    decreases m,
{
    match m.content {
        Option::Some(items) => {
            lemma_visit_items_body_scrub(items, root, pres, rem);
        },
        Option::None => {},
    }
}

proof fn lemma_remove_sigs_scrub(s: Seq<SigV>, rem: Seq<char>)
    requires
        sigs_body_free_of(s, rem),
    ensures
        sigs_free_of(remove_sigs(s, rem), rem),
    decreases s,
{
    if s.len() > 0 {
        let pre = s.subrange(0, s.len() - 1);
        lemma_remove_sigs_scrub(pre, rem);
        let last = s[s.len() - 1];
        if !has_tag(last.tags, spec_variant_family(), rem) {
            let rest = remove_sigs(pre, rem);
            assert(rest.push(last).subrange(0, rest.push(last).len() - 1) =~= rest);
            assert(rest.push(last)[rest.push(last).len() - 1] == last);
        }
    }
}

proof fn lemma_remove_item_inner_scrub(it: ItemV, rem: Seq<char>)
    requires
        item_body_free_of(it, rem),
        !has_tag(item_tags(it), spec_variant_family(), rem),
    ensures
        item_free_of(remove_item_inner(it, rem), rem),
    decreases it,
{
    match it {
        ItemV::Mod(m) => {
            match m.content {
                Option::Some(items) => {
                    lemma_remove_items_scrub(items, rem);
                },
                Option::None => {},
            }
        },
        ItemV::Trait(_, _, sigs) => {
            lemma_remove_sigs_scrub(sigs, rem);
        },
        ItemV::Impl(_, _, sigs) => {
            lemma_remove_sigs_scrub(sigs, rem);
        },
        _ => {},
    }
}

proof fn lemma_remove_items_scrub(s: Seq<ItemV>, rem: Seq<char>)
    requires
        items_body_free_of(s, rem),
    ensures
        items_free_of(remove_items(s, rem), rem),
    decreases s,
{
    if s.len() > 0 {
        let pre = s.subrange(0, s.len() - 1);
        lemma_remove_items_scrub(pre, rem);
        let last = s[s.len() - 1];
        if !has_tag(item_tags(last), spec_variant_family(), rem) {
            lemma_remove_item_inner_scrub(last, rem);
            let rest = remove_items(pre, rem);
            let x = remove_item_inner(last, rem);
            assert(rest.push(x).subrange(0, rest.push(x).len() - 1) =~= rest);
            assert(rest.push(x)[rest.push(x).len() - 1] == x);
        }
    }
}

proof fn lemma_strip_sigs_keep_free(s: Seq<SigV>, pres: Seq<char>, arg: Seq<char>)
    requires
        sigs_free_of(s, arg),
    ensures
        sigs_free_of(strip_sigs(s, pres), arg),
    decreases s,
{
    if s.len() > 0 {
        let pre = s.subrange(0, s.len() - 1);
        lemma_strip_sigs_keep_free(pre, pres, arg);
        let last = s[s.len() - 1];
        crate::attr::lemma_strip_tags_monotone(
            last.tags,
            spec_variant_family(),
            pres,
            spec_variant_family(),
            arg,
        );
        let rest = strip_sigs(pre, pres);
        let x = strip_sig(last, pres);
        assert(rest.push(x).subrange(0, rest.push(x).len() - 1) =~= rest);
        assert(rest.push(x)[rest.push(x).len() - 1] == x);
    }
}

proof fn lemma_strip_item_keeps_free(it: ItemV, pres: Seq<char>, arg: Seq<char>)
    requires
        item_free_of(it, arg),
    ensures
        item_free_of(strip_item(it, pres), arg),
    decreases it,
{
    match it {
        ItemV::Mod(m) => {
            crate::attr::lemma_strip_tags_monotone(
                m.tags,
                spec_variant_family(),
                pres,
                spec_variant_family(),
                arg,
            );
            match m.content {
                Option::Some(items) => {
                    lemma_strip_items_keep_free(items, pres, arg);
                },
                Option::None => {},
            }
        },
        ItemV::Use(tags, _, _) => {
            crate::attr::lemma_strip_tags_monotone(
                tags,
                spec_variant_family(),
                pres,
                spec_variant_family(),
                arg,
            );
        },
        ItemV::Fn(sig) => {
            crate::attr::lemma_strip_tags_monotone(
                sig.tags,
                spec_variant_family(),
                pres,
                spec_variant_family(),
                arg,
            );
        },
        ItemV::TypeDef(tags, _) => {
            crate::attr::lemma_strip_tags_monotone(
                tags,
                spec_variant_family(),
                pres,
                spec_variant_family(),
                arg,
            );
        },
        ItemV::Trait(tags, _, sigs) => {
            crate::attr::lemma_strip_tags_monotone(
                tags,
                spec_variant_family(),
                pres,
                spec_variant_family(),
                arg,
            );
            lemma_strip_sigs_keep_free(sigs, pres, arg);
        },
        ItemV::Impl(tags, _, sigs) => {
            crate::attr::lemma_strip_tags_monotone(
                tags,
                spec_variant_family(),
                pres,
                spec_variant_family(),
                arg,
            );
            lemma_strip_sigs_keep_free(sigs, pres, arg);
        },
    }
}

proof fn lemma_strip_items_keep_free(s: Seq<ItemV>, pres: Seq<char>, arg: Seq<char>)
    requires
        items_free_of(s, arg),
    ensures
        items_free_of(strip_items(s, pres), arg),
    decreases s,
{
    if s.len() > 0 {
        let pre = s.subrange(0, s.len() - 1);
        lemma_strip_items_keep_free(pre, pres, arg);
        lemma_strip_item_keeps_free(s[s.len() - 1], pres, arg);
        let rest = strip_items(pre, pres);
        let x = strip_item(s[s.len() - 1], pres);
        assert(rest.push(x).subrange(0, rest.push(x).len() - 1) =~= rest);
        assert(rest.push(x)[rest.push(x).len() - 1] == x);
    }
}

/// The stronger cleanup: a converted copy holds no tag of either variant,
/// on any node — this variant's tags are stripped, and every node carrying
/// the other variant's tag is removed outright.
pub proof fn lemma_no_variant_tag_survives(
    m: ItemModV,
    root: Seq<char>,
    pres: Seq<char>,
    rem: Seq<char>,
)
    ensures
        mod_free_of(convert_spec(m, root, pres, rem), pres),
        mod_free_of(convert_spec(m, root, pres, rem), rem),
{
    lemma_idempotent_cleanup(m, root, pres, rem);
    let cleaned = ItemModV {
        tags: strip_tags(
            strip_tags(m.tags, spec_variant_family(), pres),
            spec_variant_family(),
            rem,
        ),
        name: m.name,
        content: m.content,
    };
    lemma_strip_tags_clean(
        strip_tags(m.tags, spec_variant_family(), pres),
        spec_variant_family(),
        rem,
    );
    let visited = visit_item_mod(cleaned, root, pres, rem);
    lemma_visit_mod_body_scrub(cleaned, root, pres, rem);
    let removed = remove_items_mod(visited, rem);
    match visited.content {
        Option::Some(items) => {
            lemma_remove_items_scrub(items, rem);
        },
        Option::None => {},
    }
    match removed.content {
        Option::Some(items) => {
            lemma_strip_items_keep_free(items, pres, rem);
        },
        Option::None => {},
    }
}

} // verus!
