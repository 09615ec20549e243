//! The dependency graph builder: every module's use statements, wherever
//! their file stands in the index, are folded into one mapping from declaring
//! module to the set of modules it imports from.
//!
//! The graph is specified pointwise over the finished index, so it cannot
//! depend on the order files are iterated in; self-dependencies and cycles
//! are preserved, never rejected.

use vstd::prelude::*;

use crate::flatten::{Leaf, NormalizedUseStatement};
use crate::names::{str_eq, ModuleName};
use crate::visit::{UseRecord, UseStatement};
use crate::walker::UseStatementMap;

verus! {

/// The dependencies of every module that declares at least one use
/// statement: module path to the set of module paths it imports from.
#[derive(Debug)]
pub struct ModuleDependencies {
    pub entries: Vec<(ModuleName, Vec<ModuleName>)>,
}

/// The mapping a list of keyed target lists stands for; a later pair wins.
pub open spec fn deps_to_map(s: Seq<(ModuleName, Vec<ModuleName>)>) -> Map<Seq<char>, Set<Seq<char>>>
    decreases s.len(),
{
    if s.len() == 0 {
        Map::empty()
    } else {
        deps_to_map(s.drop_last()).insert(s.last().0@, s.last().1.deep_view().to_set())
    }
}

/// A pair whose key no later pair repeats gives the mapping's value at that
/// key.
proof fn lemma_deps_lookup(s: Seq<(ModuleName, Vec<ModuleName>)>, i: int, key: Seq<char>)
    requires
        0 <= i < s.len(),
        s[i].0@ == key,
        forall|k: int| i < k < s.len() ==> s[k].0@ != key,
    ensures
        deps_to_map(s).contains_key(key),
        deps_to_map(s)[key] == s[i].1.deep_view().to_set(),
    decreases s.len(),
{
    if i < s.len() - 1 {
        lemma_deps_lookup(s.drop_last(), i, key);
    }
}

/// A key no pair carries is not in the mapping.
proof fn lemma_deps_absent(s: Seq<(ModuleName, Vec<ModuleName>)>, key: Seq<char>)
    requires
        forall|k: int| 0 <= k < s.len() ==> s[k].0@ != key,
    ensures
        !deps_to_map(s).contains_key(key),
    decreases s.len(),
{
    if s.len() > 0 {
        lemma_deps_absent(s.drop_last(), key);
    }
}

/// Replacing the target list at one position, all keys distinct, replaces
/// that key's set and nothing else.
proof fn lemma_deps_update(
    s: Seq<(ModuleName, Vec<ModuleName>)>,
    s2: Seq<(ModuleName, Vec<ModuleName>)>,
    i: int,
)
    requires
        0 <= i < s.len(),
        s2 == s.update(i, s2[i]),
        s2[i].0@ == s[i].0@,
        forall|a: int, b: int| 0 <= a < b < s.len() ==> s[a].0@ != s[b].0@,
    ensures
        deps_to_map(s2) =~= deps_to_map(s).insert(s[i].0@, s2[i].1.deep_view().to_set()),
    decreases s.len(),
{
    if i == s.len() - 1 {
        assert(s2.drop_last() =~= s.drop_last());
    } else {
        assert(s2.drop_last() =~= s.drop_last().update(i, s2[i]));
        lemma_deps_update(s.drop_last(), s2.drop_last(), i);
        assert(s2.last() == s.last());
    }
}

impl View for ModuleDependencies {
    type V = Map<Seq<char>, Set<Seq<char>>>;

    open spec fn view(&self) -> Map<Seq<char>, Set<Seq<char>>> {
        deps_to_map(self.entries@)
    }
}

/// The modules a list of flattened records names as its import sources.
pub open spec fn modules_set(leaves: Seq<Leaf>) -> Set<Seq<char>> {
    Set::new(|t: Seq<char>| exists|j: int| 0 <= j < leaves.len() && leaves[j].module_name == t)
}

/// The value at `key`, an empty set where the mapping has none.
pub open spec fn value_or_empty(m: Map<Seq<char>, Set<Seq<char>>>, key: Seq<char>) -> Set<
    Seq<char>,
> {
    if m.contains_key(key) {
        m[key]
    } else {
        Set::empty()
    }
}

impl ModuleDependencies {
    /// No two entries carry the same module path.
    pub open spec fn wf(&self) -> bool {
        forall|i: int, j: int|
            0 <= i < j < self.entries@.len() ==> self.entries@[i].0@ != self.entries@[j].0@
    }

    /// An empty graph.
    pub fn new() -> (r: ModuleDependencies)
        ensures
            r@ == Map::<Seq<char>, Set<Seq<char>>>::empty(),
            r.wf(),
            r.entries@.len() == 0,
    {
        ModuleDependencies { entries: Vec::new() }
    }

    /// The dependency set recorded for `key`, if any.
    pub fn get(&self, key: &ModuleName) -> (r: Option<&Vec<ModuleName>>)
        ensures
            match r {
                Some(targets) => self@.contains_key(key@) && targets.deep_view().to_set()
                    == self@[key@],
                None => !self@.contains_key(key@),
            },
    {
        let mut i: usize = self.entries.len();
        while i > 0
            invariant
                i <= self.entries.len(),
                forall|k: int| i <= k < self.entries@.len() ==> self.entries@[k].0@ != key@,
            decreases i,
        {
            i = i - 1;
            if str_eq(self.entries[i].0 .0.as_str(), key.0.as_str()) {
                proof {
                    lemma_deps_lookup(self.entries@, i as int, key@);
                }
                return Some(&self.entries[i].1);
            }
        }
        proof {
            lemma_deps_absent(self.entries@, key@);
        }
        None
    }

    /// Folds one declaration into the graph: the entry for `src` is created
    /// empty if absent, and the modules its records name are added to the
    /// entry's set.
    fn extend_entry(&mut self, src: &ModuleName, items: &Vec<NormalizedUseStatement>)
        requires
            old(self).wf(),
        ensures
            final(self).wf(),
            final(self)@ =~= old(self)@.insert(
                src@,
                value_or_empty(old(self)@, src@).union(modules_set(items.deep_view())),
            ),
    {
        let mut k: usize = 0;
        let mut found: bool = false;
        while k < self.entries.len() && !found
            invariant
                k <= self.entries@.len(),
                !found ==> forall|a: int| 0 <= a < k ==> self.entries@[a].0@ != src@,
                found ==> k < self.entries@.len() && self.entries@[k as int].0@ == src@,
            decreases self.entries@.len() - k + (if found { 0int } else { 1int }),
        {
            if str_eq(self.entries[k].0 .0.as_str(), src.0.as_str()) {
                found = true;
            } else {
                k = k + 1;
            }
        }
        let ghost pre = self.entries@;
        if !found {
            let fresh: Vec<ModuleName> = Vec::new();
            proof {
                assert(fresh.deep_view().to_set() =~= Set::<Seq<char>>::empty());
            }
            self.entries.push((src.clone(), fresh));
            proof {
                assert(self.entries@.drop_last() =~= pre);
                lemma_deps_absent(pre, src@);
            }
        } else {
            proof {
                lemma_deps_lookup(pre, k as int, src@);
            }
        }
        // From here on the entry for `src` stands at position `k` and its set
        // is the value the graph had for `src`, empty where it had none.
        proof {
            assert(self.entries@[k as int].0@ == src@);
            assert(self.entries@[k as int].1.deep_view().to_set() == value_or_empty(
                old(self)@,
                src@,
            ));
            assert(forall|a: int, b: int|
                0 <= a < b < self.entries@.len() ==> self.entries@[a].0@ != self.entries@[b].0@);
            assert(deps_to_map(self.entries@) =~= old(self)@.insert(
                src@,
                value_or_empty(old(self)@, src@),
            ));
        }
        let ghost mid = self.entries@;
        let mut targets: Vec<ModuleName> = clone_modules(&self.entries[k].1);
        let mut j: usize = 0;
        while j < items.len()
            invariant
                j <= items@.len(),
                forall|t: Seq<char>| #[trigger]
                    targets.deep_view().contains(t) <==> mid[k as int].1.deep_view().contains(t)
                        || exists|q: int|
                        0 <= q < j && items.deep_view()[q].module_name == t,
            decreases items@.len() - j,
        {
            let m = items[j].module_name.clone();
            let ghost prev = targets.deep_view();
            if !contains_module_name(&targets, &m) {
                targets.push(m);
                proof {
                    assert(targets.deep_view() =~= prev.push(
                        items.deep_view()[j as int].module_name,
                    ));
                    assert forall|t: Seq<char>| #[trigger]
                        targets.deep_view().contains(t) implies (mid[k as int].1.deep_view()
                        .contains(t) || exists|q: int|
                        0 <= q < j + 1 && items.deep_view()[q].module_name == t) by {
                        if t != items.deep_view()[j as int].module_name {
                            assert(prev.contains(t));
                        }
                    }
                    assert forall|t: Seq<char>|
                        (mid[k as int].1.deep_view().contains(t) || exists|q: int|
                            0 <= q < j + 1 && items.deep_view()[q].module_name
                                == t) implies #[trigger] targets.deep_view().contains(t) by {
                        if mid[k as int].1.deep_view().contains(t) || exists|q: int|
                            0 <= q < j && items.deep_view()[q].module_name == t {
                            assert(prev.contains(t));
                            let w = choose|w: int| 0 <= w < prev.len() && prev[w] == t;
                            assert(targets.deep_view()[w] == t);
                        } else {
                            assert(targets.deep_view()[prev.len() as int] == t);
                        }
                    }
                }
            } else {
                proof {
                    assert forall|t: Seq<char>|
                        (mid[k as int].1.deep_view().contains(t) || exists|q: int|
                            0 <= q < j + 1 && items.deep_view()[q].module_name
                                == t) implies #[trigger] targets.deep_view().contains(t) by {
                        if !(mid[k as int].1.deep_view().contains(t) || exists|q: int|
                            0 <= q < j && items.deep_view()[q].module_name == t) {
                            assert(targets.deep_view().contains(m@));
                        }
                    }
                }
            }
            j = j + 1;
        }
        let key_again = self.entries[k].0.clone();
        let ghost new_targets = targets.deep_view();
        self.entries.set(k, (key_again, targets));
        proof {
            assert(self.entries@ =~= mid.update(k as int, self.entries@[k as int]));
            lemma_deps_update(mid, self.entries@, k as int);
            assert(new_targets.to_set() =~= value_or_empty(old(self)@, src@).union(
                modules_set(items.deep_view()),
            ));
            assert(final(self)@ =~= old(self)@.insert(
                src@,
                value_or_empty(old(self)@, src@).union(modules_set(items.deep_view())),
            ));
        }
    }
}

/// Clones a list of module names.
fn clone_modules(v: &Vec<ModuleName>) -> (r: Vec<ModuleName>)
    ensures
        r.deep_view() == v.deep_view(),
{
    let mut r: Vec<ModuleName> = Vec::new();
    let mut i: usize = 0;
    while i < v.len()
        invariant
            i <= v@.len(),
            r.deep_view() == v.deep_view().take(i as int),
        decreases v@.len() - i,
    {
        let ghost prev = r.deep_view();
        r.push(v[i].clone());
        proof {
            assert(r.deep_view() =~= prev.push(v.deep_view()[i as int]));
            assert(r.deep_view() =~= v.deep_view().take(i + 1));
        }
        i = i + 1;
    }
    proof {
        assert(v.deep_view().take(v@.len() as int) =~= v.deep_view());
    }
    r
}

/// Whether some record of the index declares a use statement in module
/// `src`.
pub open spec fn source_declared(index: Map<Seq<char>, Seq<UseRecord>>, src: Seq<char>) -> bool {
    exists|f: Seq<char>, i: int|
        #![auto]
        index.contains_key(f) && 0 <= i < index[f].len() && index[f][i].source_module == src
}

/// The modules that the use statements declared in module `src` import from,
/// over the whole index.
pub open spec fn dependency_set(index: Map<Seq<char>, Seq<UseRecord>>, src: Seq<char>) -> Set<
    Seq<char>,
> {
    Set::new(
        |t: Seq<char>|
            exists|f: Seq<char>, i: int, j: int|
                #![auto]
                index.contains_key(f) && 0 <= i < index[f].len() && index[f][i].source_module
                    == src && 0 <= j < index[f][i].items.len() && index[f][i].items[j].module_name
                    == t,
    )
}

/// The dependency graph of a finished index: every module that declares at
/// least one use statement maps to the set of modules it imports from.  The
/// graph is a function of the index mapping alone — pointwise, with no
/// reference to any file order — so shuffling the iteration order over files
/// cannot change it; and nothing here rejects a cycle or a self-dependency.
pub open spec fn graph_spec(index: Map<Seq<char>, Seq<UseRecord>>) -> Map<Seq<char>, Set<Seq<char>>> {
    Map::new(
        |src: Seq<char>| source_declared(index, src),
        |src: Seq<char>| dependency_set(index, src),
    )
}

/// Building the dependency graph is order-independent: two indexes that agree
/// as mappings — whatever order their files were walked or stored in — give
/// the same graph.
pub proof fn lemma_graph_order_independent(a: UseStatementMap, b: UseStatementMap)
    requires
        a@ == b@,
    ensures
        graph_spec(a@) == graph_spec(b@),
{
}

/// Shuffling the iteration order over files changes nothing: two indexes
/// whose entry lists are permutations of one another stand for the same
/// mapping, and so give the same dependency graph.
pub proof fn lemma_index_permutation_same_graph(a: UseStatementMap, b: UseStatementMap)
    requires
        a.wf(),
        b.wf(),
        a.entries@.to_multiset() == b.entries@.to_multiset(),
    ensures
        a@ == b@,
        graph_spec(a@) == graph_spec(b@),
{
    a.entries@.to_multiset_ensures();
    b.entries@.to_multiset_ensures();
    assert forall|p: Seq<char>| #[trigger] a@.contains_key(p) implies b@.contains_key(p) && a@[p]
        == b@[p] by {
        lemma_permuted_key_agrees(a, b, p);
    }
    assert forall|p: Seq<char>| #[trigger] b@.contains_key(p) implies a@.contains_key(p) by {
        lemma_permuted_key_agrees(b, a, p);
    }
    assert(a@ =~= b@);
}

/// A key of one index is carried by a permutation of it, with the same value.
proof fn lemma_permuted_key_agrees(a: UseStatementMap, b: UseStatementMap, p: Seq<char>)
    requires
        a.wf(),
        b.wf(),
        a.entries@.to_multiset() == b.entries@.to_multiset(),
        a@.contains_key(p),
    ensures
        b@.contains_key(p),
        a@[p] == b@[p],
{
    a.entries@.to_multiset_ensures();
    b.entries@.to_multiset_ensures();
    crate::walker::lemma_records_key_index(a.entries@, p);
    let k = choose|k: int| 0 <= k < a.entries@.len() && a.entries@[k].0@ == p;
    crate::walker::lemma_records_value(a.entries@, k, p);
    assert(a.entries@.contains(a.entries@[k]));
    assert(a.entries@.to_multiset().count(a.entries@[k]) > 0);
    assert(b.entries@.to_multiset().count(a.entries@[k]) > 0);
    assert(b.entries@.contains(a.entries@[k]));
    let j = choose|j: int| 0 <= j < b.entries@.len() && b.entries@[j] == a.entries@[k];
    crate::walker::lemma_records_value(b.entries@, j, p);
}

/// A package with zero import declarations reachable from the entry point
/// gives an index whose record lists are all empty, and such an index gives
/// an empty dependency graph.
pub proof fn lemma_empty_imports_empty_graph(index: Map<Seq<char>, Seq<UseRecord>>)
    requires
        forall|f: Seq<char>| #[trigger] index.contains_key(f) ==> index[f].len() == 0,
    ensures
        graph_spec(index) =~= Map::<Seq<char>, Set<Seq<char>>>::empty(),
{
    assert forall|src: Seq<char>| !source_declared(index, src) by {
        if source_declared(index, src) {
            let (f, i): (Seq<char>, int) = choose|f: Seq<char>, i: int|
                #![auto]
                index.contains_key(f) && 0 <= i < index[f].len() && index[f][i].source_module
                    == src;
            assert(index[f].len() == 0);
        }
    }
}

/// Whether a use statement before position (`e`, `s`) — statement `g` of
/// entry `f` counts when `f < e`, or `f == e` and `g < s` — declares module
/// `src` as its source.
pub open spec fn seen_source(
    entries: Seq<(crate::names::File, Vec<UseStatement>)>,
    e: int,
    s: int,
    src: Seq<char>,
) -> bool {
    exists|f: int, g: int|
        #![auto]
        0 <= f < entries.len() && 0 <= g < entries[f].1.deep_view().len() && (f < e || (f == e && g
            < s)) && entries[f].1.deep_view()[g].source_module == src
}

/// The modules the use statements of `src` before position (`e`, `s`) import
/// from.
pub open spec fn seen_deps(
    entries: Seq<(crate::names::File, Vec<UseStatement>)>,
    e: int,
    s: int,
    src: Seq<char>,
) -> Set<Seq<char>> {
    Set::new(
        |t: Seq<char>|
            exists|f: int, g: int, j: int|
                #![auto]
                0 <= f < entries.len() && 0 <= g < entries[f].1.deep_view().len() && (f < e || (f
                    == e && g < s)) && entries[f].1.deep_view()[g].source_module == src && 0 <= j
                    < entries[f].1.deep_view()[g].items.len() && entries[f].1.deep_view()[g].items[j].module_name
                    == t,
    )
}

/// Lists the dependencies of the modules inside the scanned package,
/// including circular ones, based on the use statements: for every use
/// statement of every file, the modules its records import from join the
/// entry of the module that declared it.
#[verifier::loop_isolation(false)]
pub fn list_dependencies(use_statements: &UseStatementMap) -> (r: ModuleDependencies)
    requires
        use_statements.wf(),
    ensures
        r@ == graph_spec(use_statements@),
        r.wf(),
{
    let ghost entries = use_statements.entries@;
    let mut r = ModuleDependencies::new();
    let mut e: usize = 0;
    proof {
        assert(forall|src: Seq<char>|
            #![auto]
            r@.contains_key(src) <==> seen_source(entries, 0, 0, src));
    }
    while e < use_statements.entries.len()
        invariant
            e <= entries.len(),
            r.wf(),
            forall|src: Seq<char>|
                #![auto]
                r@.contains_key(src) <==> seen_source(entries, e as int, 0, src),
            forall|src: Seq<char>| #[trigger]
                r@.contains_key(src) ==> r@[src] == seen_deps(entries, e as int, 0, src),
        decreases entries.len() - e,
    {
        let statements = &use_statements.entries[e].1;
        let ghost stmts = statements.deep_view();
        let mut s: usize = 0;
        while s < statements.len()
            invariant
                s <= stmts.len(),
                r.wf(),
                forall|src: Seq<char>|
                    #![auto]
                    r@.contains_key(src) <==> seen_source(entries, e as int, s as int, src),
                forall|src: Seq<char>| #[trigger]
                    r@.contains_key(src) ==> r@[src] == seen_deps(entries, e as int, s as int, src),
            decreases stmts.len() - s,
        {
            let stmt = &statements[s];
            let ghost src0 = stmt.source_module@;
            let ghost items_dv = stmt.statement.items.deep_view();
            let ghost before = r@;
            r.extend_entry(&stmt.source_module, &stmt.statement.items);
            proof {
                assert(entries[e as int].1.deep_view()[s as int] == stmt.deep_view());
                assert(stmt.deep_view().source_module == src0);
                assert(stmt.deep_view().items == items_dv);
                // Which sources stand in the graph after this statement.
                assert forall|src: Seq<char>|
                    #![auto]
                    r@.contains_key(src) <==> seen_source(
                        entries,
                        e as int,
                        s + 1,
                        src,
                    ) by {
                    if src == src0 {
                        assert(seen_source(entries, e as int, s + 1, src));
                    } else {
                        assert(r@.contains_key(src) <==> before.contains_key(src));
                        if seen_source(entries, e as int, s + 1, src) {
                            let (f, g): (int, int) = choose|f: int, g: int|
                                #![auto]
                                0 <= f < entries.len() && 0 <= g
                                    < entries[f].1.deep_view().len() && (f < e as int || (f
                                    == e as int && g < s + 1)) && entries[f].1.deep_view()[g].source_module
                                    == src;
                            assert(!(f == e as int && g == s as int));
                            assert(seen_source(entries, e as int, s as int, src));
                        }
                        if seen_source(entries, e as int, s as int, src) {
                            assert(seen_source(entries, e as int, s + 1, src));
                        }
                    }
                }
                // What each source's dependency set is after this statement.
                assert forall|src: Seq<char>| #[trigger] r@.contains_key(src) implies r@[src]
                    == seen_deps(entries, e as int, s + 1, src) by {
                    if src == src0 {
                        assert(seen_deps(entries, e as int, s + 1, src0) =~= value_or_empty(
                            before,
                            src0,
                        ).union(modules_set(items_dv))) by {
                            assert forall|t: Seq<char>|
                                seen_deps(entries, e as int, s + 1, src0).contains(
                                    t,
                                ) implies value_or_empty(before, src0).union(
                                modules_set(items_dv),
                            ).contains(t) by {
                                let (f, g, j): (int, int, int) = choose|f: int, g: int, j: int|
                                    #![auto]
                                    0 <= f < entries.len() && 0 <= g
                                        < entries[f].1.deep_view().len() && (f < e as int || (f
                                        == e as int && g < s + 1))
                                        && entries[f].1.deep_view()[g].source_module == src0 && 0
                                        <= j < entries[f].1.deep_view()[g].items.len()
                                        && entries[f].1.deep_view()[g].items[j].module_name == t;
                                if f == e as int && g == s as int {
                                    assert(modules_set(items_dv).contains(t));
                                } else {
                                    assert(seen_deps(entries, e as int, s as int, src0).contains(
                                        t,
                                    ));
                                    assert(before.contains_key(src0));
                                    assert(value_or_empty(before, src0).contains(t));
                                }
                            }
                            assert forall|t: Seq<char>|
                                value_or_empty(before, src0).union(modules_set(items_dv)).contains(
                                    t,
                                ) implies seen_deps(entries, e as int, s + 1, src0).contains(
                                t,
                            ) by {
                                if value_or_empty(before, src0).contains(t) {
                                    assert(before.contains_key(src0));
                                    assert(seen_deps(entries, e as int, s as int, src0).contains(
                                        t,
                                    ));
                                } else {
                                    assert(modules_set(items_dv).contains(t));
                                    let j = choose|j: int|
                                        0 <= j < items_dv.len() && items_dv[j].module_name == t;
                                    assert(entries[e as int].1.deep_view()[s as int].items[j].module_name
                                        == t);
                                }
                            }
                        }
                    } else {
                        assert(before.contains_key(src));
                        assert(r@[src] == before[src]);
                        assert(seen_deps(entries, e as int, s + 1, src) =~= seen_deps(
                            entries,
                            e as int,
                            s as int,
                            src,
                        )) by {
                            assert forall|t: Seq<char>|
                                seen_deps(entries, e as int, s + 1, src).contains(
                                    t,
                                ) implies seen_deps(entries, e as int, s as int, src).contains(
                                t,
                            ) by {
                                let (f, g, j): (int, int, int) = choose|f: int, g: int, j: int|
                                    #![auto]
                                    0 <= f < entries.len() && 0 <= g
                                        < entries[f].1.deep_view().len() && (f < e as int || (f
                                        == e as int && g < s + 1))
                                        && entries[f].1.deep_view()[g].source_module == src && 0
                                        <= j < entries[f].1.deep_view()[g].items.len()
                                        && entries[f].1.deep_view()[g].items[j].module_name == t;
                                assert(!(f == e as int && g == s as int));
                            }
                        }
                    }
                }
            }
            s = s + 1;
        }
        proof {
            // Past the entry's last statement is the same as before the next
            // entry's first.
            assert forall|src: Seq<char>|
                #![auto]
                seen_source(entries, e as int, stmts.len() as int, src) <==> seen_source(
                    entries,
                    e + 1,
                    0,
                    src,
                ) by {}
            assert forall|src: Seq<char>| #[trigger]
                r@.contains_key(src) implies r@[src] == seen_deps(entries, e + 1, 0, src) by {
                assert(seen_deps(entries, e as int, stmts.len() as int, src) =~= seen_deps(
                    entries,
                    e + 1,
                    0,
                    src,
                ));
            }
        }
        e = e + 1;
    }
    proof {
        let index = use_statements@;
        assert forall|src: Seq<char>|
            #![auto]
            seen_source(entries, entries.len() as int, 0, src) <==> source_declared(
                index,
                src,
            ) by {
            if seen_source(entries, entries.len() as int, 0, src) {
                let (f, g): (int, int) = choose|f: int, g: int|
                    #![auto]
                    0 <= f < entries.len() && 0 <= g < entries[f].1.deep_view().len() && (f
                        < entries.len() as int || (f == entries.len() as int && g < 0))
                        && entries[f].1.deep_view()[g].source_module == src;
                crate::walker::lemma_records_value(entries, f, entries[f].0@);
                assert(index[entries[f].0@][g].source_module == src);
            }
            if source_declared(index, src) {
                let (f, i): (Seq<char>, int) = choose|f: Seq<char>, i: int|
                    #![auto]
                    index.contains_key(f) && 0 <= i < index[f].len() && index[f][i].source_module
                        == src;
                crate::walker::lemma_records_key_index(entries, f);
                let k = choose|k: int| 0 <= k < entries.len() && entries[k].0@ == f;
                crate::walker::lemma_records_value(entries, k, f);
                assert(entries[k].1.deep_view()[i].source_module == src);
            }
        }
        assert forall|src: Seq<char>| #[trigger] r@.contains_key(src) implies r@[src]
            == dependency_set(index, src) by {
            assert(seen_deps(entries, entries.len() as int, 0, src) =~= dependency_set(
                index,
                src,
            )) by {
                assert forall|t: Seq<char>|
                    seen_deps(entries, entries.len() as int, 0, src).contains(
                        t,
                    ) implies dependency_set(index, src).contains(t) by {
                    let (f, g, j): (int, int, int) = choose|f: int, g: int, j: int|
                        #![auto]
                        0 <= f < entries.len() && 0 <= g < entries[f].1.deep_view().len() && (f
                            < entries.len() as int || (f == entries.len() as int && g < 0))
                            && entries[f].1.deep_view()[g].source_module == src && 0 <= j
                            < entries[f].1.deep_view()[g].items.len()
                            && entries[f].1.deep_view()[g].items[j].module_name == t;
                    crate::walker::lemma_records_value(entries, f, entries[f].0@);
                    assert(index[entries[f].0@][g].items[j].module_name == t);
                }
                assert forall|t: Seq<char>|
                    dependency_set(index, src).contains(t) implies seen_deps(
                    entries,
                    entries.len() as int,
                    0,
                    src,
                ).contains(t) by {
                    let (f, i, j): (Seq<char>, int, int) = choose|f: Seq<char>, i: int, j: int|
                        #![auto]
                        index.contains_key(f) && 0 <= i < index[f].len()
                            && index[f][i].source_module == src && 0 <= j < index[f][i].items.len()
                            && index[f][i].items[j].module_name == t;
                    crate::walker::lemma_records_key_index(entries, f);
                    let k = choose|k: int| 0 <= k < entries.len() && entries[k].0@ == f;
                    crate::walker::lemma_records_value(entries, k, f);
                    assert(entries[k].1.deep_view()[i].items[j].module_name == t);
                }
            }
        }
        assert(r@ =~= graph_spec(index));
    }
    r
}

/// Whether a module name list already carries `t`.
fn contains_module_name(v: &Vec<ModuleName>, t: &ModuleName) -> (r: bool)
    ensures
        r == v.deep_view().contains(t@),
{
    let mut i: usize = 0;
    while i < v.len()
        invariant
            i <= v@.len(),
            forall|a: int| 0 <= a < i ==> v.deep_view()[a] != t@,
        decreases v@.len() - i,
    {
        if str_eq(v[i].0.as_str(), t.0.as_str()) {
            proof {
                assert(v.deep_view()[i as int] == t@);
            }
            return true;
        }
        i = i + 1;
    }
    false
}

} // verus!
