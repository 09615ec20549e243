//! The import tree flattener: one possibly nested `use` declaration becomes a
//! flat list of single-target import records, with the current-module and
//! parent-module markers resolved against the declaring module's ancestor
//! chain.

use vstd::prelude::*;

use crate::names::{
    is_item_like, join_segments, join_with, should_remove_prefix, str_eq, ModuleName,
};
use crate::syntax::ImportTree;

verus! {

/// The kind of one flattened import record.
pub ghost enum LeafKind {
    /// A plain import, carrying the imported name.
    Simple { name: Seq<char> },
    /// An aliased import, carrying the imported name and its alias.
    Alias { name: Seq<char>, alias: Seq<char> },
    /// A wildcard import.
    Wildcard,
}

/// One fully-flattened, single-target import record: the module imported
/// from, and what of it is imported.
pub ghost struct Leaf {
    pub module_name: Seq<char>,
    pub kind: LeafKind,
}

/// The kind of a single, separate use statement.
#[derive(Debug)]
pub enum UseStatementType {
    /// `use crate::log::Bar;`
    Simple(String),
    /// `use crate::log::Bar as Baz;`
    Alias(String, String),
    /// `use crate::log::*;`
    WildCard,
}

impl View for UseStatementType {
    type V = LeafKind;

    open spec fn view(&self) -> LeafKind {
        match self {
            UseStatementType::Simple(name) => LeafKind::Simple { name: name@ },
            UseStatementType::Alias(name, alias) => LeafKind::Alias {
                name: name@,
                alias: alias@,
            },
            UseStatementType::WildCard => LeafKind::Wildcard,
        }
    }
}

impl DeepView for UseStatementType {
    type V = LeafKind;

    open spec fn deep_view(&self) -> LeafKind {
        self.view()
    }
}

impl Clone for UseStatementType {
    fn clone(&self) -> (r: Self)
        ensures
            r@ == self@,
    {
        match self {
            UseStatementType::Simple(name) => UseStatementType::Simple(name.clone()),
            UseStatementType::Alias(name, alias) => UseStatementType::Alias(
                name.clone(),
                alias.clone(),
            ),
            UseStatementType::WildCard => UseStatementType::WildCard,
        }
    }
}

impl PartialEq for UseStatementType {
    fn eq(&self, other: &Self) -> (r: bool) {
        match self {
            UseStatementType::Simple(a) => match other {
                UseStatementType::Simple(b) => *a == *b,
                UseStatementType::Alias(_, _) => false,
                UseStatementType::WildCard => false,
            },
            UseStatementType::Alias(a, b) => match other {
                UseStatementType::Simple(_) => false,
                UseStatementType::Alias(c, d) => *a == *c && *b == *d,
                UseStatementType::WildCard => false,
            },
            UseStatementType::WildCard => match other {
                UseStatementType::Simple(_) => false,
                UseStatementType::Alias(_, _) => false,
                UseStatementType::WildCard => true,
            },
        }
    }
}

impl Eq for UseStatementType {}

impl vstd::std_specs::cmp::PartialEqSpecImpl for UseStatementType {
    open spec fn obeys_eq_spec() -> bool {
        true
    }

    open spec fn eq_spec(&self, other: &Self) -> bool {
        self@ == other@
    }
}

/// A single, separate use statement: the module imported from and the kind of
/// import, after flattening.
#[derive(Debug)]
pub struct NormalizedUseStatement {
    pub module_name: ModuleName,
    pub statement_type: UseStatementType,
}

impl View for NormalizedUseStatement {
    type V = Leaf;

    open spec fn view(&self) -> Leaf {
        Leaf { module_name: self.module_name@, kind: self.statement_type@ }
    }
}

impl DeepView for NormalizedUseStatement {
    type V = Leaf;

    open spec fn deep_view(&self) -> Leaf {
        self.view()
    }
}

impl Clone for NormalizedUseStatement {
    fn clone(&self) -> (r: Self)
        ensures
            r@ == self@,
    {
        NormalizedUseStatement {
            module_name: self.module_name.clone(),
            statement_type: self.statement_type.clone(),
        }
    }
}

impl PartialEq for NormalizedUseStatement {
    fn eq(&self, other: &Self) -> (r: bool) {
        self.module_name == other.module_name && self.statement_type == other.statement_type
    }
}

impl Eq for NormalizedUseStatement {}

impl vstd::std_specs::cmp::PartialEqSpecImpl for NormalizedUseStatement {
    open spec fn obeys_eq_spec() -> bool {
        true
    }

    open spec fn eq_spec(&self, other: &Self) -> bool {
        self@ == other@
    }
}

/// The module path a leaf name resolves to: the prefix alone when the name
/// denotes an item (the trailing segment collapses), the prefix extended by
/// the name when it denotes a further sub-module.
pub open spec fn leaf_module(prefix: Seq<Seq<char>>, name: Seq<char>) -> Seq<char> {
    if is_item_like(name) {
        join_with(prefix, "::"@)
    } else {
        join_with(prefix.push(name), "::"@)
    }
}

/// The bare import identifier a plain leaf name desugars to: the name itself
/// when it denotes an item, the current-module keyword when the name was
/// folded into the module path.  An aliased leaf keeps its original name.
pub open spec fn leaf_name(name: Seq<char>) -> Seq<char> {
    if is_item_like(name) {
        name
    } else {
        "self"@
    }
}

/// The module a flattened record refers to.  For a plain import the record's
/// path is extended by the imported name when that name denotes a further
/// sub-module rather than an item; an aliased record's path and a wildcard
/// record's path are already fully resolved and stand as they are.
pub open spec fn get_module_spec(l: Leaf) -> Seq<char> {
    match l.kind {
        LeafKind::Simple { name } => if is_item_like(name) {
            l.module_name
        } else {
            l.module_name + "::"@ + name
        },
        LeafKind::Alias { name: _, alias: _ } => l.module_name,
        LeafKind::Wildcard => l.module_name,
    }
}

impl NormalizedUseStatement {
    /// The module this single import refers to.
    pub fn get_module(&self) -> (r: ModuleName)
        ensures
            r@ == get_module_spec(self@),
    {
        match &self.statement_type {
            UseStatementType::Simple(name) => {
                if should_remove_prefix(name.as_str()) {
                    self.module_name.clone()
                } else {
                    let mut text = self.module_name.0.clone();
                    text.append("::");
                    text.append(name.as_str());
                    ModuleName(text)
                }
            },
            UseStatementType::Alias(_name, _alias) => self.module_name.clone(),
            UseStatementType::WildCard => self.module_name.clone(),
        }
    }
}

/// The set of modules a list of flattened records refers to.
pub open spec fn targets_of(leaves: Seq<Leaf>) -> Set<Seq<char>> {
    Set::new(|t: Seq<char>| exists|i: int| 0 <= i < leaves.len() && get_module_spec(leaves[i]) == t)
}

/// The modules the records from position `i` on refer to, in first-occurrence
/// order, without repetition; `seen` carries the modules already listed.
pub open spec fn first_targets(leaves: Seq<Leaf>, i: int, seen: Seq<Seq<char>>) -> Seq<Seq<char>>
    decreases leaves.len() - i,
{
    if i < 0 || i >= leaves.len() {
        Seq::empty()
    } else {
        let m = get_module_spec(leaves[i]);
        if seen.contains(m) {
            first_targets(leaves, i + 1, seen)
        } else {
            seq![m] + first_targets(leaves, i + 1, seen.push(m))
        }
    }
}

/// The running prefix after one path segment: the current-module marker
/// resets it to the package-rooted ancestor chain, the parent-module marker
/// does the same but drops the last ancestor, and any other segment is
/// appended literally.
pub open spec fn child_prefix(
    ancestors: Seq<Seq<char>>,
    prefix: Seq<Seq<char>>,
    segment: Seq<char>,
) -> Seq<Seq<char>> {
    if segment == "self"@ {
        seq!["crate"@] + ancestors
    } else if segment == "super"@ {
        (seq!["crate"@] + ancestors).drop_last()
    } else {
        prefix.push(segment)
    }
}

/// The flat list of import records one import tree denotes, left to right,
/// given the declaring module's ancestor chain and the running prefix.
pub open spec fn flatten_spec(
    ancestors: Seq<Seq<char>>,
    prefix: Seq<Seq<char>>,
    tree: ImportTree,
) -> Seq<Leaf>
    decreases tree, 0int,
{
    match tree {
        ImportTree::Path { segment, rest } => flatten_spec(
            ancestors,
            child_prefix(ancestors, prefix, segment@),
            *rest,
        ),
        ImportTree::Name { name } => seq![
            Leaf {
                module_name: leaf_module(prefix, name@),
                kind: LeafKind::Simple { name: leaf_name(name@) },
            },
        ],
        ImportTree::Rename { name, alias } => seq![
            Leaf {
                module_name: leaf_module(prefix, name@),
                kind: LeafKind::Alias { name: name@, alias: alias@ },
            },
        ],
        ImportTree::Glob => seq![
            Leaf { module_name: join_with(prefix, "::"@), kind: LeafKind::Wildcard },
        ],
        ImportTree::Group { items } => flatten_group_spec(ancestors, prefix, items@, 0),
    }
}

/// The concatenated records of the group members from position `i` on.
pub open spec fn flatten_group_spec(
    ancestors: Seq<Seq<char>>,
    prefix: Seq<Seq<char>>,
    items: Seq<ImportTree>,
    i: int,
) -> Seq<Leaf>
    decreases items, items.len() - i,
{
    if i < 0 || i >= items.len() {
        Seq::empty()
    } else {
        flatten_spec(ancestors, prefix, items[i]) + flatten_group_spec(
            ancestors,
            prefix,
            items,
            i + 1,
        )
    }
}

/// Clones a chain of path segments.
pub fn clone_segments(v: &Vec<String>) -> (r: Vec<String>)
    ensures
        r@ == v@,
{
    let r = v.clone();
    proof {
        assert(r@ =~= v@);
    }
    r
}

/// The package-rooted form of an ancestor chain: the root segment followed by
/// the ancestors.
pub(crate) fn crate_rooted(ancestors: &Vec<String>) -> (r: Vec<String>)
    ensures
        r.deep_view() == seq!["crate"@] + ancestors.deep_view(),
{
    let mut r: Vec<String> = Vec::new();
    r.push("crate".to_owned());
    let mut i: usize = 0;
    while i < ancestors.len()
        invariant
            i <= ancestors.len(),
            r.deep_view() == seq!["crate"@] + ancestors.deep_view().take(i as int),
        decreases ancestors.len() - i,
    {
        let ghost prev = r.deep_view();
        r.push(ancestors[i].clone());
        proof {
            assert(r.deep_view() =~= prev.push(ancestors.deep_view()[i as int]));
            assert(r.deep_view() =~= seq!["crate"@] + ancestors.deep_view().take(i + 1));
        }
        i = i + 1;
    }
    proof {
        assert(ancestors.deep_view().take(ancestors.len() as int) =~= ancestors.deep_view());
    }
    r
}

/// The module path one leaf name resolves to against a prefix, per the
/// trailing-segment heuristic.
fn resolved_module(prefix: &Vec<String>, name: &String) -> (r: ModuleName)
    ensures
        r@ == leaf_module(prefix.deep_view(), name@),
{
    if should_remove_prefix(name.as_str()) {
        ModuleName(join_segments(prefix, "::"))
    } else {
        let mut segs = clone_segments(prefix);
        segs.push(name.clone());
        proof {
            assert(segs.deep_view() =~= prefix.deep_view().push(name@));
        }
        ModuleName(join_segments(&segs, "::"))
    }
}

/// The module path and bare identifier one plain leaf name desugars to.
fn desugar_leaf(prefix: &Vec<String>, name: &String) -> (r: (ModuleName, String))
    ensures
        r.0@ == leaf_module(prefix.deep_view(), name@),
        r.1@ == leaf_name(name@),
{
    let module = resolved_module(prefix, name);
    if should_remove_prefix(name.as_str()) {
        (module, name.clone())
    } else {
        (module, "self".to_owned())
    }
}

/// Flattens one import tree into its list of import records, resolving the
/// current-module and parent-module markers against `ancestors` and building
/// every target module path on top of `prefix`.
pub fn flatten_use_tree(
    ancestors: &Vec<String>,
    prefix: &Vec<String>,
    tree: &ImportTree,
) -> (r: Vec<NormalizedUseStatement>)
    ensures
        r.deep_view() == flatten_spec(ancestors.deep_view(), prefix.deep_view(), *tree),
    decreases *tree,
{
    match tree {
        ImportTree::Path { segment, rest } => {
            let new_prefix: Vec<String> = if str_eq(segment.as_str(), "self") {
                crate_rooted(ancestors)
            } else if str_eq(segment.as_str(), "super") {
                let mut np = crate_rooted(ancestors);
                np.pop();
                proof {
                    assert(np.deep_view() =~= (seq!["crate"@]
                        + ancestors.deep_view()).drop_last());
                }
                np
            } else {
                let mut np = clone_segments(prefix);
                np.push(segment.clone());
                proof {
                    assert(np.deep_view() =~= prefix.deep_view().push(segment@));
                }
                np
            };
            proof {
                assert(new_prefix.deep_view() == child_prefix(
                    ancestors.deep_view(),
                    prefix.deep_view(),
                    segment@,
                ));
            }
            flatten_use_tree(ancestors, &new_prefix, rest)
        },
        ImportTree::Name { name } => {
            let (module_name, ident) = desugar_leaf(prefix, name);
            let mut out: Vec<NormalizedUseStatement> = Vec::new();
            out.push(
                NormalizedUseStatement {
                    module_name,
                    statement_type: UseStatementType::Simple(ident),
                },
            );
            proof {
                assert(out.deep_view() =~= flatten_spec(
                    ancestors.deep_view(),
                    prefix.deep_view(),
                    *tree,
                ));
            }
            out
        },
        ImportTree::Rename { name, alias } => {
            let module_name = resolved_module(prefix, name);
            let mut out: Vec<NormalizedUseStatement> = Vec::new();
            out.push(
                NormalizedUseStatement {
                    module_name,
                    statement_type: UseStatementType::Alias(name.clone(), alias.clone()),
                },
            );
            proof {
                assert(out.deep_view() =~= flatten_spec(
                    ancestors.deep_view(),
                    prefix.deep_view(),
                    *tree,
                ));
            }
            out
        },
        ImportTree::Glob => {
            let mut out: Vec<NormalizedUseStatement> = Vec::new();
            out.push(
                NormalizedUseStatement {
                    module_name: ModuleName(join_segments(prefix, "::")),
                    statement_type: UseStatementType::WildCard,
                },
            );
            proof {
                assert(out.deep_view() =~= flatten_spec(
                    ancestors.deep_view(),
                    prefix.deep_view(),
                    *tree,
                ));
            }
            out
        },
        ImportTree::Group { items } => flatten_group(ancestors, prefix, items, 0),
    }
}

/// Flattens the group members from position `i` on, concatenating their
/// records left to right.
fn flatten_group(
    ancestors: &Vec<String>,
    prefix: &Vec<String>,
    items: &Vec<ImportTree>,
    i: usize,
) -> (r: Vec<NormalizedUseStatement>)
    ensures
        r.deep_view() == flatten_group_spec(
            ancestors.deep_view(),
            prefix.deep_view(),
            items@,
            i as int,
        ),
    decreases items@, items@.len() - i,
{
    if i >= items.len() {
        let r: Vec<NormalizedUseStatement> = Vec::new();
        proof {
            assert(r.deep_view() =~= Seq::<Leaf>::empty());
        }
        r
    } else {
        let mut first = flatten_use_tree(ancestors, prefix, &items[i]);
        let mut rest = flatten_group(ancestors, prefix, items, i + 1);
        let ghost first_dv = first.deep_view();
        let ghost rest_dv = rest.deep_view();
        first.append(&mut rest);
        proof {
            assert(first.deep_view() =~= first_dv + rest_dv);
        }
        first
    }
}

/// Flattening a grouped declaration concatenates the members' records left to
/// right, in source order: the group's list is exactly the member lists laid
/// end to end.
pub proof fn lemma_flatten_group_concat(
    ancestors: Seq<Seq<char>>,
    prefix: Seq<Seq<char>>,
    items: Seq<ImportTree>,
    i: int,
)
    requires
        0 <= i <= items.len(),
    ensures
        flatten_group_spec(ancestors, prefix, items, i) == items.skip(i).map_values(
            |t: ImportTree| flatten_spec(ancestors, prefix, t),
        ).flatten(),
    decreases items.len() - i,
{
    let f = |t: ImportTree| flatten_spec(ancestors, prefix, t);
    if i == items.len() {
        assert(items.skip(i).map_values(f) =~= Seq::<Seq<Leaf>>::empty());
    } else {
        lemma_flatten_group_concat(ancestors, prefix, items, i + 1);
        let mapped = items.skip(i).map_values(f);
        assert(mapped.first() == f(items[i]));
        assert(mapped.drop_first() =~= items.skip(i + 1).map_values(f));
    }
}

/// A grouped declaration's records are its members' records concatenated, and
/// every member contributes with the same ancestor chain and running prefix.
pub proof fn lemma_flatten_group(ancestors: Seq<Seq<char>>, prefix: Seq<Seq<char>>, items: Vec<
    ImportTree,
>)
    ensures
        flatten_spec(ancestors, prefix, ImportTree::Group { items }) == items@.map_values(
            |t: ImportTree| flatten_spec(ancestors, prefix, t),
        ).flatten(),
{
    lemma_flatten_group_concat(ancestors, prefix, items@, 0);
    assert(items@.skip(0) =~= items@);
}

/// An aliased declaration flattens to exactly one record of kind alias,
/// carrying the original name and the alias: the target module is the running
/// prefix alone when the imported name denotes an item, and the prefix
/// extended by the name when it denotes a sub-module.
pub proof fn lemma_flatten_alias(ancestors: Seq<Seq<char>>, prefix: Seq<Seq<char>>, tree: ImportTree)
    ensures
        tree matches ImportTree::Rename { name, alias } ==> flatten_spec(ancestors, prefix, tree)
            =~= seq![
            Leaf {
                module_name: leaf_module(prefix, name@),
                kind: LeafKind::Alias { name: name@, alias: alias@ },
            },
        ],
        tree matches ImportTree::Rename { name, alias } ==> (if is_item_like(name@) {
            leaf_module(prefix, name@) == join_with(prefix, "::"@)
        } else {
            leaf_module(prefix, name@) == join_with(prefix.push(name@), "::"@)
        }),
{
}

/// A wildcard declaration flattens to exactly one record, of kind wildcard,
/// whose target module is the full running prefix with no trailing-segment
/// trimming; it is never expanded further.
pub proof fn lemma_flatten_wildcard(
    ancestors: Seq<Seq<char>>,
    prefix: Seq<Seq<char>>,
    tree: ImportTree,
)
    ensures
        tree matches ImportTree::Glob ==> flatten_spec(ancestors, prefix, tree) =~= seq![
            Leaf { module_name: join_with(prefix, "::"@), kind: LeafKind::Wildcard },
        ],
        tree matches ImportTree::Glob ==> flatten_spec(ancestors, prefix, tree).len() == 1,
{
}

/// The current-module marker resets the running prefix to the package root
/// followed by the whole ancestor chain; the parent-module marker does the
/// same but drops the last ancestor.  Whatever prefix stood before the marker
/// is discarded.
pub proof fn lemma_marker_resolution(
    ancestors: Seq<Seq<char>>,
    prefix: Seq<Seq<char>>,
    tree: ImportTree,
)
    ensures
        tree matches ImportTree::Path { segment, rest } ==> (segment@ == "self"@ ==> flatten_spec(
            ancestors,
            prefix,
            tree,
        ) == flatten_spec(ancestors, seq!["crate"@] + ancestors, *rest)),
        tree matches ImportTree::Path { segment, rest } ==> (segment@ == "super"@
            ==> flatten_spec(ancestors, prefix, tree) == flatten_spec(
            ancestors,
            (seq!["crate"@] + ancestors).drop_last(),
            *rest,
        )),
        ancestors.len() > 0 ==> (seq!["crate"@] + ancestors).drop_last() == seq!["crate"@]
            + ancestors.drop_last(),
{
    reveal_strlit("self");
    reveal_strlit("super");
    assert("self"@.len() == 4);
    assert("super"@.len() == 5);
    if ancestors.len() > 0 {
        assert((seq!["crate"@] + ancestors).drop_last() =~= seq!["crate"@]
            + ancestors.drop_last());
    }
}

} // verus!
