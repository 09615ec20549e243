//! The resolver's model of one parsed source file, and the trusted adapter
//! that produces it from source text through the `syn` parser.
//!
//! The resolver never reads `syn`'s own tree: the adapter reduces a parsed
//! file to the declarations the walk consumes — `use` declarations as an
//! [`ImportTree`], and sub-module declarations, inline or external.  The
//! reduction keeps every declaration, wherever it stands: declarations nested
//! inside other items — function and method bodies, initializer expressions,
//! blocks inside expressions — are spliced in at the enclosing level, since
//! only module declarations extend the ancestor chain.  All logic past this
//! point is verified against the reduced model.

use vstd::prelude::*;

use syn::spanned::Spanned;

verus! {

/// An inclusive start/end (line, column) pair marking where a declaration
/// appears in its file.  Lines are 1-based, columns 0-based.
#[derive(Debug, Clone, Copy, PartialEq, Eq, Structural)]
pub struct SourceSpan {
    pub start_line: usize,
    pub start_col: usize,
    pub end_line: usize,
    pub end_col: usize,
}

/// One syntactic import tree, as it stands inside a `use` declaration.
#[derive(Debug, PartialEq, Eq)]
pub enum ImportTree {
    /// A path segment followed by the rest of the tree: `x::rest`.
    Path { segment: String, rest: Box<ImportTree> },
    /// A plain leaf name: `x`.
    Name { name: String },
    /// An aliased leaf name: `x as y`.
    Rename { name: String, alias: String },
    /// A wildcard leaf: `*`.
    Glob,
    /// A braced group of subtrees: `{a, b::c}`.
    Group { items: Vec<ImportTree> },
}

/// One declaration the resolver reads, at any nesting.
#[derive(Debug, PartialEq, Eq)]
pub enum SyntaxItem {
    /// A `use` declaration and where it stands in the file.
    Use { tree: ImportTree, span: SourceSpan },
    /// An inline sub-module declaration with its body: `mod x { ... }`.
    ModInline { name: String, items: Vec<SyntaxItem>, span: SourceSpan },
    /// An external sub-module declaration: `mod x;`.
    ModExternal { name: String, span: SourceSpan },
}

/// One parsed source file, reduced to the declarations the resolver reads.
#[derive(Debug, PartialEq, Eq)]
pub struct FileSyntax {
    pub items: Vec<SyntaxItem>,
}

#[verifier::external_type_specification]
#[verifier::external_body]
pub struct ExSynItem(syn::Item);

#[verifier::external_type_specification]
#[verifier::external_body]
pub struct ExSynItemMod(syn::ItemMod);

#[verifier::external_type_specification]
#[verifier::external_body]
pub struct ExSynUseTree(syn::UseTree);

#[verifier::external_type_specification]
#[verifier::external_body]
pub struct ExSynItemEnum(syn::ItemEnum);

#[verifier::external_type_specification]
#[verifier::external_body]
pub struct ExSynImplItem(syn::ImplItem);

#[verifier::external_type_specification]
#[verifier::external_body]
pub struct ExSynTraitItem(syn::TraitItem);

#[verifier::external_type_specification]
#[verifier::external_body]
pub struct ExSynBlock(syn::Block);

#[verifier::external_type_specification]
#[verifier::external_body]
pub struct ExSynStmt(syn::Stmt);

#[verifier::external_type_specification]
#[verifier::external_body]
pub struct ExSynExpr(syn::Expr);

#[verifier::external_type_specification]
#[verifier::external_body]
pub struct ExSynExprIf(syn::ExprIf);

#[verifier::external_type_specification]
#[verifier::external_body]
pub struct ExSynExprMatch(syn::ExprMatch);

#[verifier::external_type_specification]
#[verifier::external_body]
pub struct ExSpan(proc_macro2::Span);

/// What parsing a source text yields: `Some` holds the file's declarations
/// reduced to the resolver's model, `None` stands for a syntax error.  The
/// result is a function of the text alone; it is named here rather than
/// written out.
pub uninterp spec fn parse_of(content: Seq<char>) -> Option<FileSyntax>;

/// Relies on `syn::parse_file`: parses the text as a complete Rust source
/// file, deterministically, returning `Err` exactly on text that is not
/// syntactically valid Rust.  The spans the adapter records come from
/// `proc-macro2`'s fallback lexer, which measures lines and columns from the
/// parsed text itself; under a procedural-macro host the compiler's spans
/// would apply instead, a context this library is never run in.
#[verifier::external_body]
pub(crate) fn parse_source(content: &str) -> (r: Option<FileSyntax>)
    ensures
        r == parse_of(content@),
{
    match syn::parse_file(content) {
        Ok(f) => Some(FileSyntax { items: f.items.iter().flat_map(convert_item).collect() }),
        Err(_) => None,
    }
}

/// Joins two runs of collected declarations, in order.
fn append_items(first: Vec<SyntaxItem>, second: Vec<SyntaxItem>) -> (r: Vec<SyntaxItem>)
    ensures
        r@ == first@ + second@,
{
    let mut out = first;
    let mut tail = second;
    out.append(&mut tail);
    out
}

/// Relies on `syn::Item`: keeps a `use` declaration and a `mod` declaration
/// as they stand, and descends into every other item's bodies — function
/// blocks, impl and trait members, initializer and discriminant expressions —
/// for the declarations nested there.  Part of the parse adapter under
/// `parse_source`.
#[verifier::external_body]
fn convert_item(item: &syn::Item) -> Vec<SyntaxItem> {
    match item {
        syn::Item::Use(u) => vec![
            SyntaxItem::Use { tree: convert_use_tree(&u.tree), span: convert_span(u.span()) },
        ],
        syn::Item::Mod(m) => vec![convert_mod(m)],
        syn::Item::Fn(f) => nested_in_block(&f.block),
        syn::Item::Impl(i) => i.items.iter().flat_map(nested_in_impl_item).collect(),
        syn::Item::Trait(t) => t.items.iter().flat_map(nested_in_trait_item).collect(),
        syn::Item::Const(c) => nested_in_expr(&c.expr),
        syn::Item::Static(s) => nested_in_expr(&s.expr),
        syn::Item::Enum(e) => nested_in_variants(e),
        _ => Vec::new(),
    }
}

/// Relies on `syn::ItemMod`: a module with a body is an inline declaration,
/// one without is external.  Part of the parse adapter under `parse_source`.
#[verifier::external_body]
fn convert_mod(m: &syn::ItemMod) -> SyntaxItem {
    match &m.content {
        Some((_, sub)) => SyntaxItem::ModInline {
            name: m.ident.to_string(),
            items: sub.iter().flat_map(convert_item).collect(),
            span: convert_span(m.span()),
        },
        None => SyntaxItem::ModExternal { name: m.ident.to_string(), span: convert_span(m.span()) },
    }
}

/// Relies on `syn::ItemEnum`: a variant's discriminant expression can hold
/// nested declarations.  Part of the parse adapter under `parse_source`.
#[verifier::external_body]
fn nested_in_variants(e: &syn::ItemEnum) -> Vec<SyntaxItem> {
    e.variants.iter().flat_map(
        |v| match &v.discriminant {
            Some((_, d)) => nested_in_expr(d),
            None => Vec::new(),
        },
    ).collect()
}

/// Relies on `syn::ImplItem`: an associated function's body and an associated
/// constant's expression can hold nested declarations.  Part of the parse
/// adapter under `parse_source`.
#[verifier::external_body]
fn nested_in_impl_item(it: &syn::ImplItem) -> Vec<SyntaxItem> {
    match it {
        syn::ImplItem::Const(c) => nested_in_expr(&c.expr),
        syn::ImplItem::Fn(f) => nested_in_block(&f.block),
        _ => Vec::new(),
    }
}

/// Relies on `syn::TraitItem`: a provided method body and a constant's
/// default expression can hold nested declarations.  Part of the parse
/// adapter under `parse_source`.
#[verifier::external_body]
fn nested_in_trait_item(it: &syn::TraitItem) -> Vec<SyntaxItem> {
    match it {
        syn::TraitItem::Const(c) => c.default.as_ref().map_or(
            Vec::new(),
            |(_, d)| nested_in_expr(d),
        ),
        syn::TraitItem::Fn(f) => f.default.as_ref().map_or(Vec::new(), |b| nested_in_block(b)),
        _ => Vec::new(),
    }
}

/// Relies on `syn::Block`: the declarations of its statements, in order.
/// Part of the parse adapter under `parse_source`.
#[verifier::external_body]
fn nested_in_block(b: &syn::Block) -> Vec<SyntaxItem> {
    b.stmts.iter().flat_map(nested_in_stmt).collect()
}

/// Relies on `syn::Stmt`: an item statement is converted whole, a binding's
/// initializer and an expression statement are searched; a macro's tokens
/// stay opaque.  Part of the parse adapter under `parse_source`.
#[verifier::external_body]
fn nested_in_stmt(s: &syn::Stmt) -> Vec<SyntaxItem> {
    match s {
        syn::Stmt::Item(i) => convert_item(i),
        syn::Stmt::Expr(e, _) => nested_in_expr(e),
        syn::Stmt::Local(l) => match &l.init {
            Some(init) => append_items(
                nested_in_expr(&init.expr),
                init.diverge.as_ref().map_or(Vec::new(), |(_, d)| nested_in_expr(d)),
            ),
            None => Vec::new(),
        },
        syn::Stmt::Macro(_) => Vec::new(),
    }
}

/// Relies on `syn::Expr`: the plain block-bearing forms, searched through
/// their blocks; every other form is handed on.  Part of the parse adapter
/// under `parse_source`.
#[verifier::external_body]
fn nested_in_expr(e: &syn::Expr) -> Vec<SyntaxItem> {
    match e {
        syn::Expr::Async(x) => nested_in_block(&x.block),
        syn::Expr::Block(x) => nested_in_block(&x.block),
        syn::Expr::Const(x) => nested_in_block(&x.block),
        syn::Expr::TryBlock(x) => nested_in_block(&x.block),
        syn::Expr::Unsafe(x) => nested_in_block(&x.block),
        syn::Expr::Loop(x) => nested_in_block(&x.body),
        _ => nested_in_branch_expr(e),
    }
}

/// Relies on `syn::Expr`: the branching and looping forms, their conditions
/// and bodies searched in order.  Part of the parse adapter under
/// `parse_source`.
#[verifier::external_body]
fn nested_in_branch_expr(e: &syn::Expr) -> Vec<SyntaxItem> {
    match e {
        syn::Expr::ForLoop(x) => append_items(nested_in_expr(&x.expr), nested_in_block(&x.body)),
        syn::Expr::While(x) => append_items(nested_in_expr(&x.cond), nested_in_block(&x.body)),
        syn::Expr::Closure(x) => nested_in_expr(&x.body),
        syn::Expr::If(x) => nested_in_if(x),
        syn::Expr::Match(x) => nested_in_match(x),
        _ => nested_in_pair_expr(e),
    }
}

/// Relies on `syn::ExprIf`: condition, then-branch and else-branch searched
/// in order.  Part of the parse adapter under `parse_source`.
#[verifier::external_body]
fn nested_in_if(x: &syn::ExprIf) -> Vec<SyntaxItem> {
    let mut out = nested_in_expr(&x.cond);
    out.extend(nested_in_block(&x.then_branch));
    if let Some((_, e)) = &x.else_branch {
        out.extend(nested_in_expr(e));
    }
    out
}

/// Relies on `syn::ExprMatch`: scrutinee, then every arm's guard and body, in
/// order.  Part of the parse adapter under `parse_source`.
#[verifier::external_body]
fn nested_in_match(x: &syn::ExprMatch) -> Vec<SyntaxItem> {
    let mut out = nested_in_expr(&x.expr);
    for arm in &x.arms {
        if let Some((_, g)) = &arm.guard {
            out.extend(nested_in_expr(g));
        }
        out.extend(nested_in_expr(&arm.body));
    }
    out
}

/// Relies on `syn::Expr`: the two-operand forms, searched left to right.
/// Part of the parse adapter under `parse_source`.
#[verifier::external_body]
fn nested_in_pair_expr(e: &syn::Expr) -> Vec<SyntaxItem> {
    match e {
        syn::Expr::Assign(x) => append_items(nested_in_expr(&x.left), nested_in_expr(&x.right)),
        syn::Expr::Binary(x) => append_items(nested_in_expr(&x.left), nested_in_expr(&x.right)),
        syn::Expr::Index(x) => append_items(nested_in_expr(&x.expr), nested_in_expr(&x.index)),
        syn::Expr::Repeat(x) => append_items(nested_in_expr(&x.expr), nested_in_expr(&x.len)),
        _ => nested_in_call_expr(e),
    }
}

/// Relies on `syn::Expr`: the call and list forms, callee before arguments,
/// elements in order.  Part of the parse adapter under `parse_source`.
#[verifier::external_body]
fn nested_in_call_expr(e: &syn::Expr) -> Vec<SyntaxItem> {
    match e {
        syn::Expr::Call(x) => append_items(
            nested_in_expr(&x.func),
            x.args.iter().flat_map(nested_in_expr).collect(),
        ),
        syn::Expr::MethodCall(x) => append_items(
            nested_in_expr(&x.receiver),
            x.args.iter().flat_map(nested_in_expr).collect(),
        ),
        syn::Expr::Array(x) => x.elems.iter().flat_map(nested_in_expr).collect(),
        syn::Expr::Tuple(x) => x.elems.iter().flat_map(nested_in_expr).collect(),
        _ => nested_in_spread_expr(e),
    }
}

/// Relies on `syn::Expr`: struct literals and ranges, their field values and
/// bounds searched in order.  Part of the parse adapter under `parse_source`.
#[verifier::external_body]
fn nested_in_spread_expr(e: &syn::Expr) -> Vec<SyntaxItem> {
    match e {
        syn::Expr::Struct(x) => append_items(
            x.fields.iter().flat_map(|f| nested_in_expr(&f.expr)).collect(),
            x.rest.iter().flat_map(|r| nested_in_expr(r)).collect(),
        ),
        syn::Expr::Range(x) => append_items(
            x.start.iter().flat_map(|b| nested_in_expr(b)).collect(),
            x.end.iter().flat_map(|b| nested_in_expr(b)).collect(),
        ),
        _ => nested_in_operand_expr(e),
    }
}

/// Relies on `syn::Expr`: the forms carrying one sub-expression.  Part of the
/// parse adapter under `parse_source`.
#[verifier::external_body]
fn nested_in_operand_expr(e: &syn::Expr) -> Vec<SyntaxItem> {
    match e {
        syn::Expr::Await(x) => nested_in_expr(&x.base),
        syn::Expr::Cast(x) => nested_in_expr(&x.expr),
        syn::Expr::Field(x) => nested_in_expr(&x.base),
        syn::Expr::Group(x) => nested_in_expr(&x.expr),
        syn::Expr::Let(x) => nested_in_expr(&x.expr),
        syn::Expr::Paren(x) => nested_in_expr(&x.expr),
        syn::Expr::RawAddr(x) => nested_in_expr(&x.expr),
        syn::Expr::Reference(x) => nested_in_expr(&x.expr),
        syn::Expr::Try(x) => nested_in_expr(&x.expr),
        syn::Expr::Unary(x) => nested_in_expr(&x.expr),
        _ => nested_in_jump_expr(e),
    }
}

/// Relies on `syn::Expr`: the jump forms, whose carried value is optional;
/// the leaf forms — literals, paths, opaque macro tokens — hold no
/// declaration.  Part of the parse adapter under `parse_source`.
#[verifier::external_body]
fn nested_in_jump_expr(e: &syn::Expr) -> Vec<SyntaxItem> {
    match e {
        syn::Expr::Break(x) => nested_in_opt_expr(&x.expr),
        syn::Expr::Return(x) => nested_in_opt_expr(&x.expr),
        syn::Expr::Yield(x) => nested_in_opt_expr(&x.expr),
        _ => Vec::new(),
    }
}

/// Relies on `syn::Expr`: an optional sub-expression, searched where present.
/// Part of the parse adapter under `parse_source`.
#[verifier::external_body]
fn nested_in_opt_expr(e: &Option<Box<syn::Expr>>) -> Vec<SyntaxItem> {
    match e {
        Some(b) => nested_in_expr(b),
        None => Vec::new(),
    }
}

/// Relies on `syn::UseTree`: mirrors its five forms one for one into the
/// resolver's import tree.  Part of the parse adapter under `parse_source`.
#[verifier::external_body]
fn convert_use_tree(tree: &syn::UseTree) -> ImportTree {
    match tree {
        syn::UseTree::Path(p) => ImportTree::Path {
            segment: p.ident.to_string(),
            rest: Box::new(convert_use_tree(&p.tree)),
        },
        syn::UseTree::Name(n) => ImportTree::Name { name: n.ident.to_string() },
        syn::UseTree::Rename(r) => ImportTree::Rename {
            name: r.ident.to_string(),
            alias: r.rename.to_string(),
        },
        syn::UseTree::Glob(_) => ImportTree::Glob,
        syn::UseTree::Group(g) => ImportTree::Group {
            items: g.items.iter().map(convert_use_tree).collect(),
        },
    }
}

/// Relies on `proc_macro2::Span::start` and `Span::end`: the 1-based line and
/// 0-based column where the spanned declaration starts and ends, measured
/// from the parsed text by the fallback lexer.
#[verifier::external_body]
fn convert_span(span: proc_macro2::Span) -> SourceSpan {
    let s = span.start();
    let e = span.end();
    SourceSpan { start_line: s.line, start_col: s.column, end_line: e.line, end_col: e.column }
}

} // verus!
