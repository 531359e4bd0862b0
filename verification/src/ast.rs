//! The syntax tree that the generator transforms.
//!
//! Each executable type has a mathematical twin (suffix `V`) built from `Seq`
//! and `char`; the twin of a node is produced by the `*_view` functions, and
//! every contract in this crate speaks of those twins.
use vstd::prelude::*;

verus! {

/// Metadata attached to a tree node: a family name and one argument token.
///
/// Two families matter to the generator: variant tags (family
/// `amphi`, argument one of the two variant identifiers) and source tags
/// (family `non_inline_module`, argument a relative file path).
#[derive(Debug, PartialEq)]
pub struct Tag {
    pub name: String,
    pub arg: String,
}

/// Mathematical twin of [`Tag`].
pub struct TagV {
    pub name: Seq<char>,
    pub arg: Seq<char>,
}

/// The path of an import declaration.
#[derive(Debug, PartialEq)]
pub enum UseTree {
    /// A single imported identifier.
    Name(String),
    /// An identifier imported under another name: the identifier, the alias.
    Rename(String, String),
    /// A leading path segment followed by the rest of the path.
    Path(String, Box<UseTree>),
    /// A braced group of imports.
    Group(Vec<UseTree>),
}

/// Mathematical twin of [`UseTree`].
pub enum UseTreeV {
    Name(Seq<char>),
    Rename(Seq<char>, Seq<char>),
    Path(Seq<char>, Box<UseTreeV>),
    Group(Seq<UseTreeV>),
}

/// An expression. Every variant except [`Expr::Unit`] carries tags.
#[derive(Debug, PartialEq)]
pub enum Expr {
    /// The empty unit expression; also the form an erased expression takes.
    Unit,
    /// A leaf expression naming a value: a literal, a path, a variable.
    Name(Vec<Tag>, String),
    /// A call: the callee's name and the argument expressions.
    Call(Vec<Tag>, String, Vec<Expr>),
    /// A suspension expression wrapping its operand (the "await" form).
    Suspend(Vec<Tag>, Box<Expr>),
    /// A suspension block wrapping a statement sequence.
    SuspendBlock(Vec<Tag>, Vec<Stmt>),
    /// A plain block.
    Block(Vec<Tag>, Vec<Stmt>),
}

/// Mathematical twin of [`Expr`].
pub enum ExprV {
    Unit,
    Name(Seq<TagV>, Seq<char>),
    Call(Seq<TagV>, Seq<char>, Seq<ExprV>),
    Suspend(Seq<TagV>, Box<ExprV>),
    SuspendBlock(Seq<TagV>, Seq<StmtV>),
    Block(Seq<TagV>, Seq<StmtV>),
}

/// A statement.
#[derive(Debug, PartialEq)]
pub enum Stmt {
    /// The empty statement; also the form an erased binding takes.
    Empty,
    /// A binding statement: tags, the bound name, the initializer.
    Let(Vec<Tag>, String, Expr),
    /// An expression statement; the final field records whether it carries
    /// a trailing semicolon (a tail expression does not).
    Expr(Expr, bool),
    /// An import inside a callable body: tags, whether the path carries an
    /// external-namespace qualifier, and the path.
    Use(Vec<Tag>, bool, UseTree),
}

/// Mathematical twin of [`Stmt`].
pub enum StmtV {
    Empty,
    Let(Seq<TagV>, Seq<char>, ExprV),
    Expr(ExprV, bool),
    Use(Seq<TagV>, bool, UseTreeV),
}

/// A callable: a free callable, an interface method (body optional), or an
/// implementation method. A member beyond the callable model travels with
/// an empty name and its printed form in `rest`.
#[derive(Debug, PartialEq)]
pub struct Sig {
    pub tags: Vec<Tag>,
    /// The printed qualifiers standing before the marker: visibility,
    /// constness. The transformation carries them through unread.
    pub vis: String,
    pub name: String,
    /// Whether the callable carries the asynchronous marker.
    pub suspend: bool,
    /// The printed remainder after the name: generic parameters, inputs,
    /// return type, bounds. The transformation carries it through unread.
    pub rest: String,
    /// The body; `None` for a bodiless interface method signature.
    pub body: Option<Vec<Stmt>>,
}

/// Mathematical twin of [`Sig`].
pub struct SigV {
    pub tags: Seq<TagV>,
    pub vis: Seq<char>,
    pub name: Seq<char>,
    pub suspend: bool,
    pub rest: Seq<char>,
    pub body: Option<Seq<StmtV>>,
}

/// A declaration.
#[derive(Debug, PartialEq)]
pub enum Item {
    /// A nested module.
    Mod(ItemMod),
    /// An import: tags, whether the path carries an external-namespace
    /// qualifier (a leading path separator), and the path.
    Use(Vec<Tag>, bool, UseTree),
    /// A free callable.
    Fn(Sig),
    /// A type definition — or any other declaration kind beyond the model —
    /// as tags and the declaration's printed form, carried through unread.
    TypeDef(Vec<Tag>, String),
    /// An interface definition: tags, name, method signatures.
    Trait(Vec<Tag>, String, Vec<Sig>),
    /// An implementation block: tags, the printed header (the implemented
    /// name, or `Interface for Name`), and the methods.
    Impl(Vec<Tag>, String, Vec<Sig>),
}

/// Mathematical twin of [`Item`].
pub enum ItemV {
    Mod(ItemModV),
    Use(Seq<TagV>, bool, UseTreeV),
    Fn(SigV),
    TypeDef(Seq<TagV>, Seq<char>),
    Trait(Seq<TagV>, Seq<char>, Seq<SigV>),
    Impl(Seq<TagV>, Seq<char>, Seq<SigV>),
}

/// A module declaration: inline when it has a body, out-of-line when the body
/// is absent.
#[derive(Debug, PartialEq)]
pub struct ItemMod {
    pub tags: Vec<Tag>,
    pub name: String,
    /// `Some` body for an inline module; `None` for an out-of-line one.
    pub content: Option<Vec<Item>>,
}

/// Mathematical twin of [`ItemMod`].
pub struct ItemModV {
    pub tags: Seq<TagV>,
    pub name: Seq<char>,
    pub content: Option<Seq<ItemV>>,
}

// ------------------------------------------------------------------
// Views: from the executable tree to its mathematical twin.
// ------------------------------------------------------------------

pub open spec fn tag_view(t: Tag) -> TagV {
    TagV { name: t.name@, arg: t.arg@ }
}

pub open spec fn tags_view(s: Seq<Tag>) -> Seq<TagV>
    decreases s,
{
    if s.len() == 0 {
        Seq::<TagV>::empty()
    } else {
        tags_view(s.subrange(0, s.len() - 1)).push(tag_view(s[s.len() - 1]))
    }
}

pub open spec fn use_tree_view(t: UseTree) -> UseTreeV
    decreases t,
{
    match t {
        UseTree::Name(s) => UseTreeV::Name(s@),
        UseTree::Rename(s, r) => UseTreeV::Rename(s@, r@),
        UseTree::Path(s, rest) => UseTreeV::Path(s@, Box::new(use_tree_view(*rest))),
        UseTree::Group(trees) => UseTreeV::Group(use_trees_view(trees@)),
    }
}

pub open spec fn use_trees_view(s: Seq<UseTree>) -> Seq<UseTreeV>
    decreases s,
{
    if s.len() == 0 {
        Seq::<UseTreeV>::empty()
    } else {
        use_trees_view(s.subrange(0, s.len() - 1)).push(use_tree_view(s[s.len() - 1]))
    }
}

pub open spec fn expr_view(e: Expr) -> ExprV
    decreases e,
{
    match e {
        Expr::Unit => ExprV::Unit,
        Expr::Name(tags, s) => ExprV::Name(tags_view(tags@), s@),
        Expr::Call(tags, callee, args) => ExprV::Call(
            tags_view(tags@),
            callee@,
            exprs_view(args@),
        ),
        Expr::Suspend(tags, base) => ExprV::Suspend(
            tags_view(tags@),
            Box::new(expr_view(*base)),
        ),
        Expr::SuspendBlock(tags, stmts) => ExprV::SuspendBlock(
            tags_view(tags@),
            stmts_view(stmts@),
        ),
        Expr::Block(tags, stmts) => ExprV::Block(tags_view(tags@), stmts_view(stmts@)),
    }
}

pub open spec fn exprs_view(s: Seq<Expr>) -> Seq<ExprV>
    decreases s,
{
    if s.len() == 0 {
        Seq::<ExprV>::empty()
    } else {
        exprs_view(s.subrange(0, s.len() - 1)).push(expr_view(s[s.len() - 1]))
    }
}

pub open spec fn stmt_view(st: Stmt) -> StmtV
    decreases st,
{
    match st {
        Stmt::Empty => StmtV::Empty,
        Stmt::Let(tags, name, e) => StmtV::Let(tags_view(tags@), name@, expr_view(e)),
        Stmt::Expr(e, semi) => StmtV::Expr(expr_view(e), semi),
        Stmt::Use(tags, qualified, tree) => StmtV::Use(
            tags_view(tags@),
            qualified,
            use_tree_view(tree),
        ),
    }
}

pub open spec fn stmts_view(s: Seq<Stmt>) -> Seq<StmtV>
    decreases s,
{
    if s.len() == 0 {
        Seq::<StmtV>::empty()
    } else {
        stmts_view(s.subrange(0, s.len() - 1)).push(stmt_view(s[s.len() - 1]))
    }
}

pub open spec fn sig_view(sig: Sig) -> SigV
    decreases sig,
{
    SigV {
        tags: tags_view(sig.tags@),
        vis: sig.vis@,
        name: sig.name@,
        suspend: sig.suspend,
        rest: sig.rest@,
        body: match sig.body {
            Option::Some(stmts) => Option::Some(stmts_view(stmts@)),
            Option::None => Option::None,
        },
    }
}

pub open spec fn sigs_view(s: Seq<Sig>) -> Seq<SigV>
    decreases s,
{
    if s.len() == 0 {
        Seq::<SigV>::empty()
    } else {
        sigs_view(s.subrange(0, s.len() - 1)).push(sig_view(s[s.len() - 1]))
    }
}

pub open spec fn item_view(it: Item) -> ItemV
    decreases it,
{
    match it {
        Item::Mod(m) => ItemV::Mod(item_mod_view(m)),
        Item::Use(tags, qualified, tree) => ItemV::Use(
            tags_view(tags@),
            qualified,
            use_tree_view(tree),
        ),
        Item::Fn(sig) => ItemV::Fn(sig_view(sig)),
        Item::TypeDef(tags, name) => ItemV::TypeDef(tags_view(tags@), name@),
        Item::Trait(tags, name, sigs) => ItemV::Trait(tags_view(tags@), name@, sigs_view(sigs@)),
        Item::Impl(tags, name, sigs) => ItemV::Impl(tags_view(tags@), name@, sigs_view(sigs@)),
    }
}

pub open spec fn items_view(s: Seq<Item>) -> Seq<ItemV>
    decreases s,
{
    if s.len() == 0 {
        Seq::<ItemV>::empty()
    } else {
        items_view(s.subrange(0, s.len() - 1)).push(item_view(s[s.len() - 1]))
    }
}

pub open spec fn item_mod_view(m: ItemMod) -> ItemModV
    decreases m,
{
    ItemModV {
        tags: tags_view(m.tags@),
        name: m.name@,
        content: match m.content {
            Option::Some(items) => Option::Some(items_view(items@)),
            Option::None => Option::None,
        },
    }
}


// ------------------------------------------------------------------
// Pointwise characterization of the sequence views.
// ------------------------------------------------------------------

pub proof fn lemma_tags_view(s: Seq<Tag>)
    ensures
        tags_view(s).len() == s.len(),
        forall|i: int| 0 <= i < s.len() ==> #[trigger] tags_view(s)[i] == tag_view(s[i]),
    decreases s,
{
    if s.len() > 0 {
        let pre = s.subrange(0, s.len() - 1);
        lemma_tags_view(pre);
        assert forall|i: int| 0 <= i < s.len() implies #[trigger] tags_view(s)[i] == tag_view(
            s[i],
        ) by {
            if i < s.len() - 1 {
                assert(pre[i] == s[i]);
            }
        }
    }
}

pub proof fn lemma_tags_view_push(s: Seq<Tag>, x: Tag)
    ensures
        tags_view(s.push(x)) == tags_view(s).push(tag_view(x)),
{
    assert(s.push(x).subrange(0, s.push(x).len() - 1) =~= s);
    assert(s.push(x)[s.push(x).len() - 1] == x);
}


pub proof fn lemma_use_trees_view_push(s: Seq<UseTree>, x: UseTree)
    ensures
        use_trees_view(s.push(x)) == use_trees_view(s).push(use_tree_view(x)),
{
    assert(s.push(x).subrange(0, s.push(x).len() - 1) =~= s);
    assert(s.push(x)[s.push(x).len() - 1] == x);
}


pub proof fn lemma_exprs_view_push(s: Seq<Expr>, x: Expr)
    ensures
        exprs_view(s.push(x)) == exprs_view(s).push(expr_view(x)),
{
    assert(s.push(x).subrange(0, s.push(x).len() - 1) =~= s);
    assert(s.push(x)[s.push(x).len() - 1] == x);
}

pub proof fn lemma_stmts_view(s: Seq<Stmt>)
    ensures
        stmts_view(s).len() == s.len(),
        forall|i: int| 0 <= i < s.len() ==> #[trigger] stmts_view(s)[i] == stmt_view(s[i]),
    decreases s,
{
    if s.len() > 0 {
        let pre = s.subrange(0, s.len() - 1);
        lemma_stmts_view(pre);
        assert forall|i: int| 0 <= i < s.len() implies #[trigger] stmts_view(s)[i] == stmt_view(
            s[i],
        ) by {
            if i < s.len() - 1 {
                assert(pre[i] == s[i]);
            }
        }
    }
}

pub proof fn lemma_stmts_view_push(s: Seq<Stmt>, x: Stmt)
    ensures
        stmts_view(s.push(x)) == stmts_view(s).push(stmt_view(x)),
{
    assert(s.push(x).subrange(0, s.push(x).len() - 1) =~= s);
    assert(s.push(x)[s.push(x).len() - 1] == x);
}


pub proof fn lemma_sigs_view_push(s: Seq<Sig>, x: Sig)
    ensures
        sigs_view(s.push(x)) == sigs_view(s).push(sig_view(x)),
{
    assert(s.push(x).subrange(0, s.push(x).len() - 1) =~= s);
    assert(s.push(x)[s.push(x).len() - 1] == x);
}

pub proof fn lemma_items_view(s: Seq<Item>)
    ensures
        items_view(s).len() == s.len(),
        forall|i: int| 0 <= i < s.len() ==> #[trigger] items_view(s)[i] == item_view(s[i]),
    decreases s,
{
    if s.len() > 0 {
        let pre = s.subrange(0, s.len() - 1);
        lemma_items_view(pre);
        assert forall|i: int| 0 <= i < s.len() implies #[trigger] items_view(s)[i] == item_view(
            s[i],
        ) by {
            if i < s.len() - 1 {
                assert(pre[i] == s[i]);
            }
        }
    }
}

pub proof fn lemma_items_view_push(s: Seq<Item>, x: Item)
    ensures
        items_view(s.push(x)) == items_view(s).push(item_view(x)),
{
    assert(s.push(x).subrange(0, s.push(x).len() - 1) =~= s);
    assert(s.push(x)[s.push(x).len() - 1] == x);
}


// ------------------------------------------------------------------
// Structural predicates on the mathematical tree.
// ------------------------------------------------------------------

/// Whether every module in this declaration, at any depth, has a body.
pub open spec fn item_all_inline(it: ItemV) -> bool
    decreases it,
{
    match it {
        ItemV::Mod(m) => item_mod_all_inline(m),
        _ => true,
    }
}

pub open spec fn items_all_inline(s: Seq<ItemV>) -> bool
    decreases s,
{
    if s.len() == 0 {
        true
    } else {
        items_all_inline(s.subrange(0, s.len() - 1)) && item_all_inline(s[s.len() - 1])
    }
}

/// After out-of-line resolution, every module in the output tree is inline:
/// this predicate states that invariant.
pub open spec fn item_mod_all_inline(m: ItemModV) -> bool
    decreases m,
{
    match m.content {
        Option::Some(items) => items_all_inline(items),
        Option::None => false,
    }
}

/// Whether an expression is free of suspension constructs at any depth.
pub open spec fn expr_no_suspension(e: ExprV) -> bool
    decreases e,
{
    match e {
        ExprV::Unit => true,
        ExprV::Name(_, _) => true,
        ExprV::Call(_, _, args) => exprs_no_suspension(args),
        ExprV::Suspend(_, _) => false,
        ExprV::SuspendBlock(_, _) => false,
        ExprV::Block(_, stmts) => stmts_no_suspension(stmts),
    }
}

pub open spec fn exprs_no_suspension(s: Seq<ExprV>) -> bool
    decreases s,
{
    if s.len() == 0 {
        true
    } else {
        exprs_no_suspension(s.subrange(0, s.len() - 1)) && expr_no_suspension(s[s.len() - 1])
    }
}

pub open spec fn stmt_no_suspension(st: StmtV) -> bool
    decreases st,
{
    match st {
        StmtV::Empty => true,
        StmtV::Let(_, _, e) => expr_no_suspension(e),
        StmtV::Expr(e, _) => expr_no_suspension(e),
        StmtV::Use(_, _, _) => true,
    }
}

pub open spec fn stmts_no_suspension(s: Seq<StmtV>) -> bool
    decreases s,
{
    if s.len() == 0 {
        true
    } else {
        stmts_no_suspension(s.subrange(0, s.len() - 1)) && stmt_no_suspension(s[s.len() - 1])
    }
}

/// A callable without the asynchronous marker, whose body is also free of
/// suspension constructs.
pub open spec fn sig_no_suspension(sig: SigV) -> bool
    decreases sig,
{
    &&& !sig.suspend
    &&& match sig.body {
        Option::Some(b) => stmts_no_suspension(b),
        Option::None => true,
    }
}

pub open spec fn sigs_no_suspension(s: Seq<SigV>) -> bool
    decreases s,
{
    if s.len() == 0 {
        true
    } else {
        sigs_no_suspension(s.subrange(0, s.len() - 1)) && sig_no_suspension(s[s.len() - 1])
    }
}

pub open spec fn item_no_suspension(it: ItemV) -> bool
    decreases it,
{
    match it {
        ItemV::Mod(m) => item_mod_no_suspension(m),
        ItemV::Use(_, _, _) => true,
        ItemV::Fn(sig) => sig_no_suspension(sig),
        ItemV::TypeDef(_, _) => true,
        ItemV::Trait(_, _, sigs) => sigs_no_suspension(sigs),
        ItemV::Impl(_, _, sigs) => sigs_no_suspension(sigs),
    }
}

pub open spec fn items_no_suspension(s: Seq<ItemV>) -> bool
    decreases s,
{
    if s.len() == 0 {
        true
    } else {
        items_no_suspension(s.subrange(0, s.len() - 1)) && item_no_suspension(s[s.len() - 1])
    }
}

/// Whether a module tree holds no suspension construct: what the blocking
/// output must satisfy.
pub open spec fn item_mod_no_suspension(m: ItemModV) -> bool
    decreases m,
{
    match m.content {
        Option::Some(items) => items_no_suspension(items),
        Option::None => true,
    }
}

} // verus!
