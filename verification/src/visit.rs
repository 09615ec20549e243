//! The single-pass visitor over one parsed file: it collects every `use`
//! declaration, flattened against the live ancestor chain, and every
//! sub-module declaration, telling inline bodies from external files.

use vstd::prelude::*;

use crate::flatten::{
    first_targets, flatten_spec, flatten_use_tree, get_module_spec, targets_of, Leaf,
    NormalizedUseStatement,
};
use crate::names::{join_with, str_eq, ModuleName};
use crate::syntax::{FileSyntax, SourceSpan, SyntaxItem};

verus! {

/// One `use` declaration with where it stands in its file and the flattened
/// records it desugars to.
#[derive(Debug)]
pub struct UseStatementDetail {
    pub items: Vec<NormalizedUseStatement>,
    pub span: SourceSpan,
}

/// One use statement of the scanned package: the module it appears in, the
/// set of modules it refers to, and the declaration's detail.
#[derive(Debug)]
pub struct UseStatement {
    /// Where the use statement appears.
    pub source_module: ModuleName,
    /// List of referenced modules, without repetition, in first-occurrence
    /// order.  Several targets represent `use crate::{log, foo::{bar, baz}};`.
    pub target_modules: Vec<ModuleName>,
    /// Where in the source file the use statement is.
    pub statement: UseStatementDetail,
}

/// The view of one collected use statement.
pub ghost struct UseRecord {
    pub source_module: Seq<char>,
    pub target_modules: Set<Seq<char>>,
    pub items: Seq<Leaf>,
    pub span: SourceSpan,
}

impl View for UseStatement {
    type V = UseRecord;

    open spec fn view(&self) -> UseRecord {
        UseRecord {
            source_module: self.source_module@,
            target_modules: self.target_modules.deep_view().to_set(),
            items: self.statement.items.deep_view(),
            span: self.statement.span,
        }
    }
}

impl DeepView for UseStatement {
    type V = UseRecord;

    open spec fn deep_view(&self) -> UseRecord {
        self.view()
    }
}

/// One sub-module declaration found while scanning a file.
#[derive(Debug)]
pub enum ModStatement {
    /// `mod x;` — the body lives in another file.
    External { name: String, span: SourceSpan },
    /// `mod x { ... }` — the body is in the same file.
    Inline { name: String, span: SourceSpan },
}

/// The view of one sub-module declaration.
pub ghost struct ModRecord {
    pub name: Seq<char>,
    pub external: bool,
    pub span: SourceSpan,
}

impl View for ModStatement {
    type V = ModRecord;

    open spec fn view(&self) -> ModRecord {
        match self {
            ModStatement::External { name, span } => ModRecord {
                name: name@,
                external: true,
                span: *span,
            },
            ModStatement::Inline { name, span } => ModRecord {
                name: name@,
                external: false,
                span: *span,
            },
        }
    }
}

impl DeepView for ModStatement {
    type V = ModRecord;

    open spec fn deep_view(&self) -> ModRecord {
        self.view()
    }
}

/// One collected statement's target list is its records' modules in
/// first-occurrence order, without repetition.
pub open spec fn targets_well_formed(s: UseStatement) -> bool {
    &&& s.target_modules.deep_view() == first_targets(s.statement.items.deep_view(), 0, Seq::empty())
    &&& forall|a: int, b: int|
        0 <= a < b < s.target_modules.deep_view().len() ==> s.target_modules.deep_view()[a]
            != s.target_modules.deep_view()[b]
}

/// Whether a module name list already carries `t`.
fn contains_module(v: &Vec<ModuleName>, t: &ModuleName) -> (r: bool)
    ensures
        r == v.deep_view().contains(t@),
{
    let mut i: usize = 0;
    while i < v.len()
        invariant
            i <= v.len(),
            forall|k: int| 0 <= k < i ==> v.deep_view()[k] != t@,
        decreases v.len() - i,
    {
        if str_eq(v[i].0.as_str(), t.0.as_str()) {
            proof {
                assert(v.deep_view()[i as int] == t@);
            }
            return true;
        }
        i = i + 1;
    }
    false
}

/// The distinct modules the flattened records of one declaration refer to, in
/// first-occurrence order, without repetition.
fn collect_targets(items: &Vec<NormalizedUseStatement>) -> (r: Vec<ModuleName>)
    ensures
        r.deep_view().to_set() == targets_of(items.deep_view()),
        r.deep_view() == first_targets(items.deep_view(), 0, Seq::empty()),
        forall|a: int, b: int|
            0 <= a < b < r.deep_view().len() ==> r.deep_view()[a] != r.deep_view()[b],
{
    let mut r: Vec<ModuleName> = Vec::new();
    let mut i: usize = 0;
    proof {
        assert(r.deep_view() =~= Seq::<Seq<char>>::empty());
        assert(Seq::<Seq<char>>::empty() + first_targets(items.deep_view(), 0, Seq::empty())
            =~= first_targets(items.deep_view(), 0, Seq::empty()));
    }
    while i < items.len()
        invariant
            i <= items.len(),
            forall|t: Seq<char>| #[trigger]
                r.deep_view().contains(t) <==> exists|k: int|
                    0 <= k < i && get_module_spec(items.deep_view()[k]) == t,
            forall|a: int, b: int|
                0 <= a < b < r.deep_view().len() ==> r.deep_view()[a] != r.deep_view()[b],
            first_targets(items.deep_view(), 0, Seq::empty()) == r.deep_view() + first_targets(
                items.deep_view(),
                i as int,
                r.deep_view(),
            ),
        decreases items.len() - i,
    {
        let m = items[i].get_module();
        let ghost prev = r.deep_view();
        if !contains_module(&r, &m) {
            r.push(m);
            proof {
                assert(r.deep_view() =~= prev.push(get_module_spec(items.deep_view()[i as int])));
                assert(prev + (seq![get_module_spec(items.deep_view()[i as int])] + first_targets(
                    items.deep_view(),
                    i + 1,
                    r.deep_view(),
                )) =~= r.deep_view() + first_targets(items.deep_view(), i + 1, r.deep_view()));
                assert forall|t: Seq<char>| #[trigger] r.deep_view().contains(t) implies exists|
                    k: int,
                |
                    0 <= k < i + 1 && get_module_spec(items.deep_view()[k]) == t by {
                    if t == get_module_spec(items.deep_view()[i as int]) {
                        assert(get_module_spec(items.deep_view()[i as int]) == t);
                    } else {
                        let j = choose|j: int| 0 <= j < prev.len() && prev[j] == t;
                        assert(prev.contains(t));
                    }
                }
                assert forall|t: Seq<char>|
                    (exists|k: int|
                        0 <= k < i + 1 && get_module_spec(items.deep_view()[k])
                            == t) implies #[trigger] r.deep_view().contains(t) by {
                    let k = choose|k: int|
                        0 <= k < i + 1 && get_module_spec(items.deep_view()[k]) == t;
                    if k < i {
                        assert(prev.contains(t));
                        let j = choose|j: int| 0 <= j < prev.len() && prev[j] == t;
                        assert(r.deep_view()[j] == t);
                    } else {
                        assert(r.deep_view()[prev.len() as int] == t);
                    }
                }
            }
        } else {
            proof {
                assert forall|t: Seq<char>|
                    (exists|k: int|
                        0 <= k < i + 1 && get_module_spec(items.deep_view()[k])
                            == t) implies #[trigger] r.deep_view().contains(t) by {
                    let k = choose|k: int|
                        0 <= k < i + 1 && get_module_spec(items.deep_view()[k]) == t;
                    if k == i {
                        assert(r.deep_view().contains(m@));
                    }
                }
            }
        }
        i = i + 1;
    }
    proof {
        assert(r.deep_view().to_set() =~= targets_of(items.deep_view()));
        assert(first_targets(items.deep_view(), items.deep_view().len() as int, r.deep_view())
            =~= Seq::<Seq<char>>::empty());
        assert(r.deep_view() + Seq::<Seq<char>>::empty() =~= r.deep_view());
    }
    r
}

/// The record one `use` declaration contributes: its leaves are flattened
/// against the ancestor chain with an empty running prefix, its declaring
/// module is the package root followed by the ancestor chain.
pub open spec fn use_record(
    anc: Seq<Seq<char>>,
    tree: crate::syntax::ImportTree,
    span: SourceSpan,
) -> UseRecord {
    let leaves = flatten_spec(anc, Seq::empty(), tree);
    UseRecord {
        source_module: join_with(seq!["crate"@] + anc, "::"@),
        target_modules: targets_of(leaves),
        items: leaves,
        span: span,
    }
}

/// The use records one item contributes, with `anc` the ancestor chain at the
/// item's declaration site.
pub open spec fn collect_uses_item(item: SyntaxItem, anc: Seq<Seq<char>>) -> Seq<UseRecord>
    decreases item, 0int,
{
    match item {
        SyntaxItem::Use { tree, span } => seq![use_record(anc, tree, span)],
        SyntaxItem::ModInline { name, items: sub, span: _ } => collect_uses_from(
            sub@,
            0,
            anc.push(name@),
        ),
        SyntaxItem::ModExternal { name: _, span: _ } => Seq::empty(),
    }
}

/// The use records of the items from position `i` on, in declaration order,
/// depth first.
pub open spec fn collect_uses_from(items: Seq<SyntaxItem>, i: int, anc: Seq<Seq<char>>) -> Seq<
    UseRecord,
>
    decreases items, items.len() - i,
{
    if i < 0 || i >= items.len() {
        Seq::empty()
    } else {
        collect_uses_item(items[i], anc) + collect_uses_from(items, i + 1, anc)
    }
}

/// The sub-module declarations one item contributes: an inline module stands
/// before the declarations of its own body.
pub open spec fn collect_mods_item(item: SyntaxItem) -> Seq<ModRecord>
    decreases item, 0int,
{
    match item {
        SyntaxItem::Use { tree: _, span: _ } => Seq::empty(),
        SyntaxItem::ModInline { name, items: sub, span } => seq![
            ModRecord { name: name@, external: false, span },
        ] + collect_mods_from(sub@, 0),
        SyntaxItem::ModExternal { name, span } => seq![
            ModRecord { name: name@, external: true, span },
        ],
    }
}

/// The sub-module declarations of the items from position `i` on.
pub open spec fn collect_mods_from(items: Seq<SyntaxItem>, i: int) -> Seq<ModRecord>
    decreases items, items.len() - i,
{
    if i < 0 || i >= items.len() {
        Seq::empty()
    } else {
        collect_mods_item(items[i]) + collect_mods_from(items, i + 1)
    }
}

/// Collects what one item contributes.
fn collect_item(item: &SyntaxItem, ancestors: &Vec<String>) -> (r: (
    Vec<UseStatement>,
    Vec<ModStatement>,
))
    ensures
        r.0.deep_view() == collect_uses_item(*item, ancestors.deep_view()),
        r.1.deep_view() == collect_mods_item(*item),
        forall|k: int| 0 <= k < r.0@.len() ==> targets_well_formed(#[trigger] r.0@[k]),
    decreases *item, 0int,
{
    match item {
        SyntaxItem::Use { tree, span } => {
            let empty_prefix: Vec<String> = Vec::new();
            proof {
                assert(empty_prefix.deep_view() =~= Seq::<Seq<char>>::empty());
            }
            let leaves = flatten_use_tree(ancestors, &empty_prefix, tree);
            let targets = collect_targets(&leaves);
            let rooted = crate::flatten::crate_rooted(ancestors);
            let source = ModuleName(crate::names::join_segments(&rooted, "::"));
            let mut us: Vec<UseStatement> = Vec::new();
            us.push(
                UseStatement {
                    source_module: source,
                    target_modules: targets,
                    statement: UseStatementDetail { items: leaves, span: *span },
                },
            );
            let ms: Vec<ModStatement> = Vec::new();
            proof {
                assert(us.deep_view() =~= collect_uses_item(*item, ancestors.deep_view()));
                assert(ms.deep_view() =~= collect_mods_item(*item));
            }
            (us, ms)
        },
        SyntaxItem::ModInline { name, items: sub, span } => {
            let mut anc2 = crate::flatten::clone_segments(ancestors);
            anc2.push(name.clone());
            proof {
                assert(anc2.deep_view() =~= ancestors.deep_view().push(name@));
            }
            let (su, mut sm) = collect_from(sub, 0, &anc2);
            let mut ms: Vec<ModStatement> = Vec::new();
            ms.push(ModStatement::Inline { name: name.clone(), span: *span });
            let ghost head = ms.deep_view();
            ms.append(&mut sm);
            proof {
                assert(head =~= seq![
                    ModRecord { name: name@, external: false, span: *span },
                ]);
                assert(ms.deep_view() =~= head + collect_mods_from(sub@, 0));
            }
            (su, ms)
        },
        SyntaxItem::ModExternal { name, span } => {
            let us: Vec<UseStatement> = Vec::new();
            let mut ms: Vec<ModStatement> = Vec::new();
            ms.push(ModStatement::External { name: name.clone(), span: *span });
            proof {
                assert(us.deep_view() =~= collect_uses_item(*item, ancestors.deep_view()));
                assert(ms.deep_view() =~= collect_mods_item(*item));
            }
            (us, ms)
        },
    }
}

/// Collects what the items from position `i` on contribute.
fn collect_from(items: &Vec<SyntaxItem>, i: usize, ancestors: &Vec<String>) -> (r: (
    Vec<UseStatement>,
    Vec<ModStatement>,
))
    ensures
        r.0.deep_view() == collect_uses_from(items@, i as int, ancestors.deep_view()),
        r.1.deep_view() == collect_mods_from(items@, i as int),
        forall|k: int| 0 <= k < r.0@.len() ==> targets_well_formed(#[trigger] r.0@[k]),
    decreases items@, items@.len() - i,
{
    if i >= items.len() {
        let us: Vec<UseStatement> = Vec::new();
        let ms: Vec<ModStatement> = Vec::new();
        proof {
            assert(us.deep_view() =~= Seq::<UseRecord>::empty());
            assert(ms.deep_view() =~= Seq::<ModRecord>::empty());
        }
        (us, ms)
    } else {
        let (mut head_uses, mut head_mods) = collect_item(&items[i], ancestors);
        let (mut tail_uses, mut tail_mods) = collect_from(items, i + 1, ancestors);
        let ghost hu = head_uses.deep_view();
        let ghost hm = head_mods.deep_view();
        head_uses.append(&mut tail_uses);
        head_mods.append(&mut tail_mods);
        proof {
            assert(head_uses.deep_view() =~= hu + collect_uses_from(
                items@,
                i + 1,
                ancestors.deep_view(),
            ));
            assert(head_mods.deep_view() =~= hm + collect_mods_from(items@, i + 1));
        }
        (head_uses, head_mods)
    }
}

/// Whether one item holds no use declaration, inline module bodies included.
pub open spec fn item_has_no_use(item: SyntaxItem) -> bool
    decreases item, 0int,
{
    match item {
        SyntaxItem::Use { tree: _, span: _ } => false,
        SyntaxItem::ModInline { name: _, items: sub, span: _ } => items_have_no_use(sub@, 0),
        SyntaxItem::ModExternal { name: _, span: _ } => true,
    }
}

/// Whether the items from position `i` on hold no use declaration.
pub open spec fn items_have_no_use(items: Seq<SyntaxItem>, i: int) -> bool
    decreases items, items.len() - i,
{
    i < 0 || i >= items.len() || (item_has_no_use(items[i]) && items_have_no_use(items, i + 1))
}

/// An item without use declarations contributes no use records.
pub proof fn lemma_no_uses_no_records_item(item: SyntaxItem, anc: Seq<Seq<char>>)
    requires
        item_has_no_use(item),
    ensures
        collect_uses_item(item, anc) == Seq::<UseRecord>::empty(),
    decreases item, 0int,
{
    match item {
        SyntaxItem::ModInline { name, items: sub, span: _ } => {
            lemma_no_uses_no_records(sub@, 0, anc.push(name@));
        },
        _ => {},
    }
}

/// A file without use declarations contributes no use records: its index
/// entry is empty, whatever the ancestor chain.
pub proof fn lemma_no_uses_no_records(items: Seq<SyntaxItem>, i: int, anc: Seq<Seq<char>>)
    requires
        items_have_no_use(items, i),
    ensures
        collect_uses_from(items, i, anc) == Seq::<UseRecord>::empty(),
    decreases items, items.len() - i,
{
    if 0 <= i < items.len() {
        lemma_no_uses_no_records_item(items[i], anc);
        lemma_no_uses_no_records(items, i + 1, anc);
        assert(collect_uses_item(items[i], anc) + collect_uses_from(items, i + 1, anc)
            =~= Seq::<UseRecord>::empty());
    }
}

/// Runs the single-pass visitor over one parsed file, with `ancestors` the
/// module chain the file itself stands under: every `use` declaration is
/// flattened against the chain live at its declaration site, and every
/// sub-module declaration is reported, inline bodies already handled in
/// place.
pub fn visit_file_syntax(file: &FileSyntax, ancestors: &Vec<String>) -> (r: (
    Vec<UseStatement>,
    Vec<ModStatement>,
))
    ensures
        r.0.deep_view() == collect_uses_from(file.items@, 0, ancestors.deep_view()),
        r.1.deep_view() == collect_mods_from(file.items@, 0),
        forall|k: int| 0 <= k < r.0@.len() ==> targets_well_formed(#[trigger] r.0@[k]),
{
    collect_from(&file.items, 0, ancestors)
}

} // verus!
