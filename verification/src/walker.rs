//! The file/module walker: starting from the package's entry file it follows
//! every declared-but-not-yet-visited external sub-module to its file on
//! disk, parses each reachable file once, and gathers every file's use
//! statements into one index.
//!
//! The package's files are handed in as an in-memory tree of path/text pairs,
//! so the walk itself is pure: whatever reads the disk builds the tree first
//! and the walker is checked against every tree it could be given.

use vstd::prelude::*;

use crate::flatten::clone_segments;
use crate::names::{join_with, str_eq, File, ModuleName};
use crate::syntax::{parse_of, parse_source, FileSyntax};
use crate::visit::{
    collect_mods_from, collect_uses_from, visit_file_syntax, ModRecord, ModStatement, UseRecord,
    UseStatement,
};

verus! {

/// A package snapshot: every file the walk may touch, as its path relative to
/// the package root and its text.  A later entry for the same path stands for
/// the earlier one.
#[derive(Debug)]
pub struct SourceTree {
    files: Vec<(String, String)>,
}

/// The mapping a list of path/text pairs stands for; a later pair wins.
pub open spec fn entries_to_map(s: Seq<(String, String)>) -> Map<Seq<char>, Seq<char>>
    decreases s.len(),
{
    if s.len() == 0 {
        Map::empty()
    } else {
        entries_to_map(s.drop_last()).insert(s.last().0@, s.last().1@)
    }
}

/// The domain of the mapping a list of pairs stands for is finite.
pub proof fn lemma_entries_map_finite(s: Seq<(String, String)>)
    ensures
        entries_to_map(s).dom().finite(),
    decreases s.len(),
{
    if s.len() > 0 {
        lemma_entries_map_finite(s.drop_last());
    }
}

/// A pair whose path no later pair repeats gives the mapping's value at that
/// path.
proof fn lemma_entries_lookup(s: Seq<(String, String)>, i: int, path: Seq<char>)
    requires
        0 <= i < s.len(),
        s[i].0@ == path,
        forall|k: int| i < k < s.len() ==> s[k].0@ != path,
    ensures
        entries_to_map(s).contains_key(path),
        entries_to_map(s)[path] == s[i].1@,
    decreases s.len(),
{
    if i < s.len() - 1 {
        lemma_entries_lookup(s.drop_last(), i, path);
    }
}

/// A path no pair carries is not in the mapping.
proof fn lemma_entries_absent(s: Seq<(String, String)>, path: Seq<char>)
    requires
        forall|k: int| 0 <= k < s.len() ==> s[k].0@ != path,
    ensures
        !entries_to_map(s).contains_key(path),
    decreases s.len(),
{
    if s.len() > 0 {
        lemma_entries_absent(s.drop_last(), path);
    }
}

impl View for SourceTree {
    type V = Map<Seq<char>, Seq<char>>;

    closed spec fn view(&self) -> Map<Seq<char>, Seq<char>> {
        entries_to_map(self.files@)
    }
}

impl SourceTree {
    /// An empty package snapshot.
    pub fn new() -> (r: SourceTree)
        ensures
            r@ == Map::<Seq<char>, Seq<char>>::empty(),
    {
        SourceTree { files: Vec::new() }
    }

    /// Records one file's text under its path relative to the package root.
    pub fn insert(&mut self, path: String, content: String)
        ensures
            final(self)@ == old(self)@.insert(path@, content@),
    {
        let ghost prev = self.files@;
        self.files.push((path, content));
        proof {
            assert(self.files@.drop_last() =~= prev);
        }
    }

    /// The text recorded under `path`, if any.
    pub fn lookup(&self, path: &str) -> (r: Option<&String>)
        ensures
            match r {
                Some(content) => self@.contains_key(path@) && content@ == self@[path@],
                None => !self@.contains_key(path@),
            },
    {
        let mut i: usize = self.files.len();
        while i > 0
            invariant
                i <= self.files.len(),
                forall|k: int| i <= k < self.files@.len() ==> self.files@[k].0@ != path@,
            decreases i,
        {
            i = i - 1;
            if str_eq(self.files[i].0.as_str(), path) {
                proof {
                    lemma_entries_lookup(self.files@, i as int, path@);
                }
                return Some(&self.files[i].1);
            }
        }
        proof {
            lemma_entries_absent(self.files@, path@);
        }
        None
    }

    /// Whether any file is recorded under `path`.
    pub fn contains(&self, path: &str) -> (r: bool)
        ensures
            r == self@.contains_key(path@),
    {
        self.lookup(path).is_some()
    }
}

/// A snapshot records finitely many paths: its mapping's domain is finite.
pub proof fn lemma_source_tree_finite(t: &SourceTree)
    ensures
        t@.dom().finite(),
{
    lemma_entries_map_finite(t.files@);
}

/// What can go wrong while resolving a package's imports.  Every failure is
/// final: the walk aborts and returns the error instead of a partial index.
#[derive(Debug)]
pub enum ListUseStatementError {
    /// A queued file is missing from the package snapshot.
    FileNotFound,
    /// A file's text is not syntactically valid source.
    FileNotParsable,
    /// A file's text could not be read when the snapshot was taken.
    FileNotReadable,
    /// The root directory carries no package manifest.
    PathIsNotACrate,
    /// A referenced module is not part of the package.
    ModuleDoesNotExist(String),
    /// No conventional entry file exists under the package root.
    CrateEntrypointNotFound,
    /// A declared sub-module has neither a same-name file nor a directory
    /// with an index file; carries the module's name.
    SourceFileForModuleNotFound(String),
}

/// The view of one walk failure.
pub ghost enum ErrorKind {
    FileNotFound,
    FileNotParsable,
    FileNotReadable,
    PathIsNotACrate,
    ModuleDoesNotExist { name: Seq<char> },
    CrateEntrypointNotFound,
    SourceFileForModuleNotFound { name: Seq<char> },
}

impl View for ListUseStatementError {
    type V = ErrorKind;

    open spec fn view(&self) -> ErrorKind {
        match self {
            ListUseStatementError::FileNotFound => ErrorKind::FileNotFound,
            ListUseStatementError::FileNotParsable => ErrorKind::FileNotParsable,
            ListUseStatementError::FileNotReadable => ErrorKind::FileNotReadable,
            ListUseStatementError::PathIsNotACrate => ErrorKind::PathIsNotACrate,
            ListUseStatementError::ModuleDoesNotExist(name) => ErrorKind::ModuleDoesNotExist {
                name: name@,
            },
            ListUseStatementError::CrateEntrypointNotFound => ErrorKind::CrateEntrypointNotFound,
            ListUseStatementError::SourceFileForModuleNotFound(
                name,
            ) => ErrorKind::SourceFileForModuleNotFound { name: name@ },
        }
    }
}

impl ListUseStatementError {
    /// A short description of the failure, with its context.
    pub fn describe(&self) -> (r: String)
        ensures
            self@ is FileNotFound ==> r@ == "file not found"@,
            self@ is FileNotParsable ==> r@ == "file not parsable"@,
            self@ is FileNotReadable ==> r@ == "file not readable"@,
            self@ is PathIsNotACrate ==> r@ == "path is not a crate"@,
            self@ is CrateEntrypointNotFound ==> r@ == "crate entrypoint not found"@,
            self@ matches ErrorKind::ModuleDoesNotExist { name } ==> r@
                == "linked module does not exist: "@ + name,
            self@ matches ErrorKind::SourceFileForModuleNotFound { name } ==> r@
                == "Could not find source file for module "@ + name,
    {
        match self {
            ListUseStatementError::FileNotFound => "file not found".to_owned(),
            ListUseStatementError::FileNotParsable => "file not parsable".to_owned(),
            ListUseStatementError::FileNotReadable => "file not readable".to_owned(),
            ListUseStatementError::PathIsNotACrate => "path is not a crate".to_owned(),
            ListUseStatementError::ModuleDoesNotExist(name) => {
                let mut text = "linked module does not exist: ".to_owned();
                text.append(name.as_str());
                text
            },
            ListUseStatementError::CrateEntrypointNotFound => "crate entrypoint not found"
                .to_owned(),
            ListUseStatementError::SourceFileForModuleNotFound(name) => {
                let mut text = "Could not find source file for module ".to_owned();
                text.append(name.as_str());
                text
            },
        }
    }
}

/// Where the package's entry file is: the conventional binary-target file if
/// it exists, else the conventional library-target file, provided the root
/// carries a package manifest at all.
pub open spec fn entrypoint_spec(tree: Map<Seq<char>, Seq<char>>) -> Result<Seq<char>, ErrorKind> {
    if !tree.contains_key("Cargo.toml"@) {
        Err(ErrorKind::PathIsNotACrate)
    } else if tree.contains_key("src/main.rs"@) {
        Ok("src/main.rs"@)
    } else if tree.contains_key("src/lib.rs"@) {
        Ok("src/lib.rs"@)
    } else {
        Err(ErrorKind::CrateEntrypointNotFound)
    }
}

/// Locates the package's entry file among the conventional candidates.
pub fn get_crate_entrypoint(tree: &SourceTree) -> (r: Result<String, ListUseStatementError>)
    ensures
        match r {
            Ok(p) => entrypoint_spec(tree@) == Ok::<Seq<char>, ErrorKind>(p@),
            Err(e) => entrypoint_spec(tree@) == Err::<Seq<char>, ErrorKind>(e@),
        },
{
    if !tree.contains("Cargo.toml") {
        return Err(ListUseStatementError::PathIsNotACrate);
    }
    if tree.contains("src/main.rs") {
        return Ok("src/main.rs".to_owned());
    }
    if tree.contains("src/lib.rs") {
        return Ok("src/lib.rs".to_owned());
    }
    Err(ListUseStatementError::CrateEntrypointNotFound)
}

/// The path of a same-name source file for module `name` under the source
/// directory and the ancestor chain.
pub open spec fn mod_file_candidate(anc: Seq<Seq<char>>, name: Seq<char>) -> Seq<char> {
    join_with(seq!["src"@] + anc, "/"@) + "/"@ + name + ".rs"@
}

/// The path of a same-name directory's index file for module `name`.
pub open spec fn mod_dir_candidate(anc: Seq<Seq<char>>, name: Seq<char>) -> Seq<char> {
    join_with(seq!["src"@] + anc, "/"@) + "/"@ + name + "/mod.rs"@
}

/// Which file a declared external sub-module resolves to: the same-name file
/// if the snapshot has it, else the same-name directory's index file, else a
/// failure carrying the module's name.
pub open spec fn resolve_mod_spec(
    tree: Map<Seq<char>, Seq<char>>,
    anc: Seq<Seq<char>>,
    name: Seq<char>,
) -> Result<Seq<char>, ErrorKind> {
    if tree.contains_key(mod_file_candidate(anc, name)) {
        Ok(mod_file_candidate(anc, name))
    } else if tree.contains_key(mod_dir_candidate(anc, name)) {
        Ok(mod_dir_candidate(anc, name))
    } else {
        Err(ErrorKind::SourceFileForModuleNotFound { name })
    }
}

/// The source directory extended by the ancestor chain, joined as a path.
fn src_base(ancestors: &Vec<String>) -> (r: String)
    ensures
        r@ == join_with(seq!["src"@] + ancestors.deep_view(), "/"@),
{
    let mut segs: Vec<String> = Vec::new();
    segs.push("src".to_owned());
    let mut i: usize = 0;
    while i < ancestors.len()
        invariant
            i <= ancestors.len(),
            segs.deep_view() == seq!["src"@] + ancestors.deep_view().take(i as int),
        decreases ancestors.len() - i,
    {
        let ghost prev = segs.deep_view();
        segs.push(ancestors[i].clone());
        proof {
            assert(segs.deep_view() =~= prev.push(ancestors.deep_view()[i as int]));
            assert(segs.deep_view() =~= seq!["src"@] + ancestors.deep_view().take(i + 1));
        }
        i = i + 1;
    }
    proof {
        assert(ancestors.deep_view().take(ancestors.len() as int) =~= ancestors.deep_view());
    }
    crate::names::join_segments(&segs, "/")
}

/// Resolves a declared external sub-module to its file: a same-name file with
/// the source extension, else a same-name directory's index file.
pub fn mod_to_path(tree: &SourceTree, ancestors: &Vec<String>, name: &String) -> (r: Result<
    String,
    ListUseStatementError,
>)
    ensures
        match r {
            Ok(p) => resolve_mod_spec(tree@, ancestors.deep_view(), name@) == Ok::<
                Seq<char>,
                ErrorKind,
            >(p@),
            Err(e) => resolve_mod_spec(tree@, ancestors.deep_view(), name@) == Err::<
                Seq<char>,
                ErrorKind,
            >(e@),
        },
{
    let base = src_base(ancestors);
    let mut file_module = base.clone();
    file_module.append("/");
    file_module.append(name.as_str());
    file_module.append(".rs");
    proof {
        assert(file_module@ =~= mod_file_candidate(ancestors.deep_view(), name@));
    }
    if tree.contains(file_module.as_str()) {
        return Ok(file_module);
    }
    let mut folder_module = base;
    folder_module.append("/");
    folder_module.append(name.as_str());
    folder_module.append("/mod.rs");
    proof {
        assert(folder_module@ =~= mod_dir_candidate(ancestors.deep_view(), name@));
    }
    if tree.contains(folder_module.as_str()) {
        return Ok(folder_module);
    }
    Err(ListUseStatementError::SourceFileForModuleNotFound(name.clone()))
}

/// The index of every reachable file's use statements, keyed by the file's
/// path relative to the package root.  Built once per walk; a later entry for
/// the same path stands for the earlier one, though the walk never writes a
/// path twice.
#[derive(Debug)]
pub struct UseStatementMap {
    pub entries: Vec<(File, Vec<UseStatement>)>,
}

/// The mapping a list of keyed record lists stands for; a later pair wins.
pub open spec fn records_to_map(s: Seq<(File, Vec<UseStatement>)>) -> Map<
    Seq<char>,
    Seq<UseRecord>,
>
    decreases s.len(),
{
    if s.len() == 0 {
        Map::empty()
    } else {
        records_to_map(s.drop_last()).insert(s.last().0@, s.last().1.deep_view())
    }
}

/// A pair whose key no later pair repeats gives the index's value at that
/// key.
proof fn lemma_records_lookup(s: Seq<(File, Vec<UseStatement>)>, i: int, path: Seq<char>)
    requires
        0 <= i < s.len(),
        s[i].0@ == path,
        forall|k: int| i < k < s.len() ==> s[k].0@ != path,
    ensures
        records_to_map(s).contains_key(path),
        records_to_map(s)[path] == s[i].1.deep_view(),
    decreases s.len(),
{
    if i < s.len() - 1 {
        lemma_records_lookup(s.drop_last(), i, path);
    }
}

/// A key of the index is carried by one of the pairs.
pub(crate) proof fn lemma_records_key_index(s: Seq<(File, Vec<UseStatement>)>, path: Seq<char>)
    requires
        records_to_map(s).contains_key(path),
    ensures
        exists|k: int| 0 <= k < s.len() && s[k].0@ == path,
    decreases s.len(),
{
    if s.len() > 0 {
        if s.last().0@ == path {
            assert(s[s.len() - 1].0@ == path);
        } else {
            lemma_records_key_index(s.drop_last(), path);
            let k = choose|k: int| 0 <= k < s.drop_last().len() && s.drop_last()[k].0@ == path;
            assert(s[k].0@ == path);
        }
    }
}

/// A pair whose key no later pair repeats gives the index's value at that
/// key; exported form of the lookup lemma.
pub(crate) proof fn lemma_records_value(s: Seq<(File, Vec<UseStatement>)>, i: int, path: Seq<char>)
    requires
        0 <= i < s.len(),
        s[i].0@ == path,
        forall|k: int| i < k < s.len() ==> s[k].0@ != path,
    ensures
        records_to_map(s).contains_key(path),
        records_to_map(s)[path] == s[i].1.deep_view(),
{
    lemma_records_lookup(s, i, path);
}

/// A key no pair carries is not in the index.
proof fn lemma_records_absent(s: Seq<(File, Vec<UseStatement>)>, path: Seq<char>)
    requires
        forall|k: int| 0 <= k < s.len() ==> s[k].0@ != path,
    ensures
        !records_to_map(s).contains_key(path),
    decreases s.len(),
{
    if s.len() > 0 {
        lemma_records_absent(s.drop_last(), path);
    }
}

impl View for UseStatementMap {
    type V = Map<Seq<char>, Seq<UseRecord>>;

    open spec fn view(&self) -> Map<Seq<char>, Seq<UseRecord>> {
        records_to_map(self.entries@)
    }
}

impl UseStatementMap {
    /// No two entries carry the same file path.
    pub open spec fn wf(&self) -> bool {
        forall|i: int, j: int|
            0 <= i < j < self.entries@.len() ==> self.entries@[i].0@ != self.entries@[j].0@
    }

    /// Every stored statement's target list is without repetition, in
    /// first-occurrence order.
    pub open spec fn statements_wf(&self) -> bool {
        forall|k: int, s: int|
            #![auto]
            0 <= k < self.entries@.len() && 0 <= s < self.entries@[k].1@.len()
                ==> crate::visit::targets_well_formed(self.entries@[k].1@[s])
    }

    /// An empty index.
    pub fn new() -> (r: UseStatementMap)
        ensures
            r@ == Map::<Seq<char>, Seq<UseRecord>>::empty(),
            r.entries@.len() == 0,
    {
        UseStatementMap { entries: Vec::new() }
    }

    /// Records one file's use statements under its path.
    pub fn insert(&mut self, path: File, statements: Vec<UseStatement>)
        ensures
            final(self)@ == old(self)@.insert(path@, statements.deep_view()),
            final(self).entries@ == old(self).entries@.push((path, statements)),
    {
        let ghost prev = self.entries@;
        self.entries.push((path, statements));
        proof {
            assert(self.entries@.drop_last() =~= prev);
        }
    }

    /// The use statements recorded under `path`, if any.
    pub fn get(&self, path: &File) -> (r: Option<&Vec<UseStatement>>)
        ensures
            match r {
                Some(statements) => self@.contains_key(path@) && statements.deep_view()
                    == self@[path@],
                None => !self@.contains_key(path@),
            },
    {
        let mut i: usize = self.entries.len();
        while i > 0
            invariant
                i <= self.entries.len(),
                forall|k: int| i <= k < self.entries@.len() ==> self.entries@[k].0@ != path@,
            decreases i,
        {
            i = i - 1;
            if str_eq(self.entries[i].0 .0.as_str(), path.0.as_str()) {
                proof {
                    lemma_records_lookup(self.entries@, i as int, path@);
                }
                return Some(&self.entries[i].1);
            }
        }
        proof {
            lemma_records_absent(self.entries@, path@);
        }
        None
    }
}

/// The work-queue entries the external sub-modules among `mods[i..]` resolve
/// to, each the resolved file path paired with the ancestor chain extended by
/// the declared module's name; or the first resolution failure, walking left
/// to right.
pub open spec fn resolve_mods_spec(
    tree: Map<Seq<char>, Seq<char>>,
    anc: Seq<Seq<char>>,
    mods: Seq<ModRecord>,
    i: int,
) -> Result<Seq<(Seq<char>, Seq<Seq<char>>)>, ErrorKind>
    decreases mods.len() - i,
{
    if i < 0 || i >= mods.len() {
        Ok(Seq::empty())
    } else if !mods[i].external {
        resolve_mods_spec(tree, anc, mods, i + 1)
    } else {
        match resolve_mod_spec(tree, anc, mods[i].name) {
            Err(e) => Err(e),
            Ok(p) => match resolve_mods_spec(tree, anc, mods, i + 1) {
                Err(e) => Err(e),
                Ok(tail) => Ok(seq![(p, anc.push(mods[i].name))] + tail),
            },
        }
    }
}

/// One step short of the whole walk: what the walk returns from a given
/// state — tree to scan, queue of files still to visit with their ancestor
/// chains, files already visited, index built so far.  The front file is
/// skipped when already visited; otherwise it is parsed, its use statements
/// join the index, and its external sub-modules join the back of the queue.
pub open spec fn walk_from(
    tree: Map<Seq<char>, Seq<char>>,
    queue: Seq<(Seq<char>, Seq<Seq<char>>)>,
    visited: Set<Seq<char>>,
    acc: Map<Seq<char>, Seq<UseRecord>>,
) -> Result<Map<Seq<char>, Seq<UseRecord>>, ErrorKind>
    decreases tree.dom().difference(visited).len(), queue.len(),
        when tree.dom().finite() && visited.finite()
        via walk_from_decreases
{
    if queue.len() == 0 {
        Ok(acc)
    } else if visited.contains(queue[0].0) {
        walk_from(tree, queue.drop_first(), visited, acc)
    } else if !tree.contains_key(queue[0].0) {
        Err(ErrorKind::FileNotFound)
    } else {
        match parse_of(tree[queue[0].0]) {
            None => Err(ErrorKind::FileNotParsable),
            Some(fs) => match resolve_mods_spec(
                tree,
                queue[0].1,
                collect_mods_from(fs.items@, 0),
                0,
            ) {
                Err(e) => Err(e),
                Ok(new_files) => walk_from(
                    tree,
                    queue.drop_first() + new_files,
                    visited.insert(queue[0].0),
                    acc.insert(queue[0].0, collect_uses_from(fs.items@, 0, queue[0].1)),
                ),
            },
        }
    }
}

#[via_fn]
proof fn walk_from_decreases(
    tree: Map<Seq<char>, Seq<char>>,
    queue: Seq<(Seq<char>, Seq<Seq<char>>)>,
    visited: Set<Seq<char>>,
    acc: Map<Seq<char>, Seq<UseRecord>>,
) {
    if queue.len() > 0 {
        let path = queue[0].0;
        if !visited.contains(path) && tree.dom().contains(path) {
            tree.dom().lemma_set_insert_diff_decreases(visited, path);
        }
    }
}

/// The whole walk over one package snapshot: the index of every reachable
/// file's use statements, or the first failure.
pub open spec fn walk_spec(tree: Map<Seq<char>, Seq<char>>) -> Result<
    Map<Seq<char>, Seq<UseRecord>>,
    ErrorKind,
> {
    match entrypoint_spec(tree) {
        Err(e) => Err(e),
        Ok(entry) => walk_from(
            tree,
            seq![(entry, Seq::<Seq<char>>::empty())],
            Set::empty(),
            Map::empty(),
        ),
    }
}

/// The views of a work queue's path and ancestor-chain pairs.
pub open spec fn queue_view(q: Seq<(String, Vec<String>)>) -> Seq<(Seq<char>, Seq<Seq<char>>)> {
    Seq::new(q.len(), |k: int| (q[k].0@, q[k].1.deep_view()))
}

/// Whether a path list already carries `s`.
fn contains_string(v: &Vec<String>, s: &str) -> (r: bool)
    ensures
        r == v.deep_view().contains(s@),
{
    let mut i: usize = 0;
    while i < v.len()
        invariant
            i <= v.len(),
            forall|k: int| 0 <= k < i ==> v.deep_view()[k] != s@,
        decreases v.len() - i,
    {
        if str_eq(v[i].as_str(), s) {
            proof {
                assert(v.deep_view()[i as int] == s@);
            }
            return true;
        }
        i = i + 1;
    }
    false
}

/// Parses one source text and runs the visitor over it, with `ancestors` the
/// module chain the text stands under: the collected use statements and
/// sub-module declarations, or nothing where the text does not parse.
pub fn analyze_source(content: &str, ancestors: &Vec<String>) -> (r: Option<
    (Vec<UseStatement>, Vec<ModStatement>),
>)
    ensures
        r is Some <==> parse_of(content@) is Some,
        r matches Some(pair) ==> {
            let fs = parse_of(content@)->Some_0;
            &&& pair.0.deep_view() == collect_uses_from(fs.items@, 0, ancestors.deep_view())
            &&& pair.1.deep_view() == collect_mods_from(fs.items@, 0)
            &&& forall|k: int|
                0 <= k < pair.0@.len() ==> crate::visit::targets_well_formed(#[trigger] pair.0@[k])
        },
{
    match parse_source(content) {
        None => None,
        Some(fs) => Some(visit_file_syntax(&fs, ancestors)),
    }
}

/// Lists all the use statements of the package, by file, walking the module
/// tree breadth first from the entry file.  Every reachable file is parsed
/// exactly once; a file declared twice is not revisited; the first failure
/// aborts the walk.
#[verifier::loop_isolation(false)]
pub fn list_use_statements(tree: &SourceTree) -> (r: Result<
    UseStatementMap,
    ListUseStatementError,
>)
    ensures
        match r {
            Ok(m) => walk_spec(tree@) == Ok::<Map<Seq<char>, Seq<UseRecord>>, ErrorKind>(m@)
                && m.wf() && m.statements_wf(),
            Err(e) => walk_spec(tree@) == Err::<Map<Seq<char>, Seq<UseRecord>>, ErrorKind>(e@),
        },
{
    proof {
        lemma_entries_map_finite(tree.files@);
    }
    let entry_point = match get_crate_entrypoint(tree) {
        Ok(p) => p,
        Err(e) => {
            return Err(e);
        },
    };
    let ghost init_q: Seq<(Seq<char>, Seq<Seq<char>>)> = seq![
        (entry_point@, Seq::<Seq<char>>::empty()),
    ];
    let mut queue: Vec<(String, Vec<String>)> = Vec::new();
    let empty_chain: Vec<String> = Vec::new();
    proof {
        assert(empty_chain.deep_view() =~= Seq::<Seq<char>>::empty());
    }
    queue.push((entry_point, empty_chain));
    proof {
        assert(queue_view(queue@).skip(0) =~= init_q);
        assert(walk_spec(tree@) == walk_from(tree@, init_q, Set::empty(), Map::empty()));
    }
    let mut head: usize = 0;
    let mut visited: Vec<String> = Vec::new();
    let mut result = UseStatementMap::new();
    proof {
        assert(visited.deep_view().to_set() =~= Set::<Seq<char>>::empty());
    }
    while head < queue.len()
        invariant
            head <= queue.len(),
            tree@.dom().finite(),
            forall|a: int, b: int|
                0 <= a < b < visited.deep_view().len() ==> visited.deep_view()[a]
                    != visited.deep_view()[b],
            result.entries@.len() == visited@.len(),
            forall|k: int|
                0 <= k < visited@.len() ==> result.entries@[k].0@ == visited.deep_view()[k],
            result.statements_wf(),
            walk_from(
                tree@,
                queue_view(queue@).skip(head as int),
                visited.deep_view().to_set(),
                result@,
            ) == walk_from(tree@, init_q, Set::empty(), Map::empty()),
            walk_spec(tree@) == walk_from(tree@, init_q, Set::empty(), Map::empty()),
        decreases tree@.dom().difference(visited.deep_view().to_set()).len(), queue.len() - head,
    {
        proof {
            vstd::seq_lib::seq_to_set_is_finite(visited.deep_view());
        }
        let ghost old_suffix = queue_view(queue@).skip(head as int);
        let path: String = queue[head].0.clone();
        let anc: Vec<String> = clone_segments(&queue[head].1);
        proof {
            assert(old_suffix[0] == (path@, anc.deep_view())) by {
                assert(anc.deep_view() =~= queue@[head as int].1.deep_view());
            }
        }
        if contains_string(&visited, path.as_str()) {
            proof {
                assert(visited.deep_view().to_set().contains(path@));
                assert(old_suffix.drop_first() =~= queue_view(queue@).skip(head + 1));
            }
            head = head + 1;
            continue ;
        }
        proof {
            assert(!visited.deep_view().to_set().contains(path@));
        }
        let content = match tree.lookup(path.as_str()) {
            Some(c) => c,
            None => {
                proof {
                    assert(walk_from(tree@, old_suffix, visited.deep_view().to_set(), result@)
                        == Err::<Map<Seq<char>, Seq<UseRecord>>, ErrorKind>(
                        ErrorKind::FileNotFound,
                    ));
                }
                return Err(ListUseStatementError::FileNotFound);
            },
        };
        let fs: FileSyntax = match parse_source(content.as_str()) {
            Some(f) => f,
            None => {
                proof {
                    assert(parse_of(tree@[old_suffix[0].0]) is None);
                    assert(walk_from(tree@, old_suffix, visited.deep_view().to_set(), result@)
                        == Err::<Map<Seq<char>, Seq<UseRecord>>, ErrorKind>(
                        ErrorKind::FileNotParsable,
                    ));
                }
                return Err(ListUseStatementError::FileNotParsable);
            },
        };
        proof {
            assert(parse_of(tree@[old_suffix[0].0]) == Some(fs));
        }
        let (uses, mods) = visit_file_syntax(&fs, &anc);
        let ghost mods_dv = mods.deep_view();
        let mut new_files: Vec<(String, Vec<String>)> = Vec::new();
        let mut idx: usize = 0;
        proof {
            assert(queue_view(new_files@) =~= Seq::<(Seq<char>, Seq<Seq<char>>)>::empty());
            match resolve_mods_spec(tree@, anc.deep_view(), mods_dv, 0) {
                Ok(tail) => {
                    assert(queue_view(new_files@) + tail =~= tail);
                },
                Err(_) => {},
            }
        }
        while idx < mods.len()
            invariant
                idx <= mods.len(),
                mods_dv == mods.deep_view(),
                resolve_mods_spec(tree@, anc.deep_view(), mods_dv, 0) == match resolve_mods_spec(
                    tree@,
                    anc.deep_view(),
                    mods_dv,
                    idx as int,
                ) {
                    Ok(tail) => Ok::<Seq<(Seq<char>, Seq<Seq<char>>)>, ErrorKind>(
                        queue_view(new_files@) + tail,
                    ),
                    Err(e) => Err::<Seq<(Seq<char>, Seq<Seq<char>>)>, ErrorKind>(e),
                },
            decreases mods.len() - idx,
        {
            match &mods[idx] {
                ModStatement::Inline { name: _, span: _ } => {},
                ModStatement::External { name, span: _ } => {
                    let resolved = match mod_to_path(tree, &anc, name) {
                        Ok(p) => p,
                        Err(e) => {
                            proof {
                                assert(mods_dv[idx as int].external);
                                assert(mods_dv[idx as int].name == name@);
                                assert(resolve_mods_spec(
                                    tree@,
                                    anc.deep_view(),
                                    mods_dv,
                                    idx as int,
                                ) == Err::<Seq<(Seq<char>, Seq<Seq<char>>)>, ErrorKind>(e@));
                                assert(resolve_mods_spec(tree@, anc.deep_view(), mods_dv, 0)
                                    == Err::<Seq<(Seq<char>, Seq<Seq<char>>)>, ErrorKind>(e@));
                                assert(mods_dv == collect_mods_from(fs.items@, 0));
                                assert(walk_from(
                                    tree@,
                                    old_suffix,
                                    visited.deep_view().to_set(),
                                    result@,
                                ) == Err::<Map<Seq<char>, Seq<UseRecord>>, ErrorKind>(e@));
                            }
                            return Err(e);
                        },
                    };
                    let mut anc2 = clone_segments(&anc);
                    anc2.push(name.clone());
                    let ghost prev_qv = queue_view(new_files@);
                    new_files.push((resolved, anc2));
                    proof {
                        assert(queue_view(new_files@) =~= prev_qv + seq![
                            (
                                new_files@.last().0@,
                                anc.deep_view().push(mods_dv[idx as int].name),
                            ),
                        ]) by {
                            assert(anc2.deep_view() =~= anc.deep_view().push(name@));
                        }
                        assert forall|tail: Seq<(Seq<char>, Seq<Seq<char>>)>|
                            prev_qv + (seq![
                                (
                                    new_files@.last().0@,
                                    anc.deep_view().push(mods_dv[idx as int].name),
                                ),
                            ] + tail) == queue_view(new_files@) + tail by {
                            assert(prev_qv + (seq![
                                (
                                    new_files@.last().0@,
                                    anc.deep_view().push(mods_dv[idx as int].name),
                                ),
                            ] + tail) =~= queue_view(new_files@) + tail);
                        }
                    }
                },
            }
            idx = idx + 1;
        }
        let ghost resolved_entries = queue_view(new_files@);
        let ghost prev_acc = result@;
        let ghost prev_visited = visited.deep_view();
        queue.append(&mut new_files);
        result.insert(File(path.clone()), uses);
        visited.push(path);
        proof {
            assert(visited.deep_view() =~= prev_visited.push(visited@.last()@));
            assert(visited.deep_view().to_set() =~= prev_visited.to_set().insert(
                visited@.last()@,
            )) by {
                prev_visited.lemma_push_to_set_commute(visited@.last()@);
            }
            assert(queue_view(queue@).skip(head + 1) =~= old_suffix.drop_first()
                + resolved_entries);
            assert(walk_from(tree@, old_suffix, prev_visited.to_set(), prev_acc) == walk_from(
                tree@,
                old_suffix.drop_first() + resolved_entries,
                prev_visited.to_set().insert(old_suffix[0].0),
                prev_acc.insert(
                    old_suffix[0].0,
                    collect_uses_from(parse_of(tree@[old_suffix[0].0])->Some_0.items@, 0, old_suffix[0].1),
                ),
            ));
            assert(walk_from(
                tree@,
                queue_view(queue@).skip(head + 1),
                visited.deep_view().to_set(),
                result@,
            ) == walk_from(tree@, init_q, Set::empty(), Map::empty()));
            tree@.dom().lemma_set_insert_diff_decreases(prev_visited.to_set(), path@);
        }
        head = head + 1;
    }
    proof {
        vstd::seq_lib::seq_to_set_is_finite(visited.deep_view());
        assert(queue_view(queue@).skip(head as int) =~= Seq::<(Seq<char>, Seq<Seq<char>>)>::empty());
        assert(walk_from(
            tree@,
            queue_view(queue@).skip(head as int),
            visited.deep_view().to_set(),
            result@,
        ) == Ok::<Map<Seq<char>, Seq<UseRecord>>, ErrorKind>(result@));
        assert(walk_spec(tree@) == Ok::<Map<Seq<char>, Seq<UseRecord>>, ErrorKind>(result@));
        assert forall|i: int, j: int|
            0 <= i < j < result.entries@.len() implies result.entries@[i].0@
            != result.entries@[j].0@ by {
            assert(result.entries@[i].0@ == visited.deep_view()[i]);
            assert(result.entries@[j].0@ == visited.deep_view()[j]);
        }
        assert(result.wf());
    }
    Ok(result)
}

/// Re-declaring the same file a second time does not make the walk visit it
/// again: a front queue entry whose file is already visited is skipped whole,
/// and the index gains nothing from it.
pub proof fn lemma_walk_skips_visited(
    tree: Map<Seq<char>, Seq<char>>,
    queue: Seq<(Seq<char>, Seq<Seq<char>>)>,
    visited: Set<Seq<char>>,
    acc: Map<Seq<char>, Seq<UseRecord>>,
)
    requires
        tree.dom().finite(),
        visited.finite(),
        queue.len() > 0,
        visited.contains(queue[0].0),
    ensures
        walk_from(tree, queue, visited, acc) == walk_from(tree, queue.drop_first(), visited, acc),
{
}

/// A package-manifest root without any conventional entry file fails with the
/// entry-file error: no crash, and no empty-but-successful index.
pub proof fn lemma_missing_entry_is_error(tree: Map<Seq<char>, Seq<char>>)
    requires
        tree.contains_key("Cargo.toml"@),
        !tree.contains_key("src/main.rs"@),
        !tree.contains_key("src/lib.rs"@),
    ensures
        walk_spec(tree) == Err::<Map<Seq<char>, Seq<UseRecord>>, ErrorKind>(
            ErrorKind::CrateEntrypointNotFound,
        ),
{
}

/// Whether `records` is what scanning file `f` of the package yields: the
/// file is part of the snapshot, its text parses, and the records are the
/// parse's collected use records under some ancestor chain.
pub open spec fn entry_from_parse(
    tree: Map<Seq<char>, Seq<char>>,
    f: Seq<char>,
    records: Seq<UseRecord>,
) -> bool {
    &&& tree.contains_key(f)
    &&& parse_of(tree[f]) is Some
    &&& exists|anc: Seq<Seq<char>>|
        records == collect_uses_from(parse_of(tree[f])->Some_0.items@, 0, anc)
}

/// Every entry of the index a successful walk returns, beyond what the
/// accumulator already held, comes from its own file's parse.
proof fn lemma_walk_entries(
    tree: Map<Seq<char>, Seq<char>>,
    queue: Seq<(Seq<char>, Seq<Seq<char>>)>,
    visited: Set<Seq<char>>,
    acc: Map<Seq<char>, Seq<UseRecord>>,
)
    requires
        tree.dom().finite(),
        visited.finite(),
        forall|f: Seq<char>| #[trigger] acc.contains_key(f) ==> entry_from_parse(tree, f, acc[f]),
    ensures
        walk_from(tree, queue, visited, acc) matches Ok(m) ==> forall|f: Seq<char>| #[trigger]
            m.contains_key(f) ==> entry_from_parse(tree, f, m[f]),
    decreases tree.dom().difference(visited).len(), queue.len(),
{
    if queue.len() == 0 {
    } else if visited.contains(queue[0].0) {
        lemma_walk_entries(tree, queue.drop_first(), visited, acc);
    } else if !tree.contains_key(queue[0].0) {
    } else {
        match parse_of(tree[queue[0].0]) {
            None => {},
            Some(fs) => {
                match resolve_mods_spec(tree, queue[0].1, collect_mods_from(fs.items@, 0), 0) {
                    Err(_) => {},
                    Ok(new_files) => {
                        let records = collect_uses_from(fs.items@, 0, queue[0].1);
                        let acc2 = acc.insert(queue[0].0, records);
                        assert(entry_from_parse(tree, queue[0].0, records)) by {
                            assert(records == collect_uses_from(
                                parse_of(tree[queue[0].0])->Some_0.items@,
                                0,
                                queue[0].1,
                            ));
                        }
                        assert(forall|f: Seq<char>| #[trigger]
                            acc2.contains_key(f) ==> entry_from_parse(tree, f, acc2[f]));
                        tree.dom().lemma_set_insert_diff_decreases(visited, queue[0].0);
                        lemma_walk_entries(
                            tree,
                            queue.drop_first() + new_files,
                            visited.insert(queue[0].0),
                            acc2,
                        );
                    },
                }
            },
        }
    }
}

/// Every entry of a successful walk's index is the collected use records of
/// its own file's parse: the index's keys are exactly the files the walk
/// reached.
pub proof fn lemma_index_entries_from_parse(
    tree: Map<Seq<char>, Seq<char>>,
    m: Map<Seq<char>, Seq<UseRecord>>,
)
    requires
        tree.dom().finite(),
        walk_spec(tree) == Ok::<Map<Seq<char>, Seq<UseRecord>>, ErrorKind>(m),
    ensures
        forall|f: Seq<char>| #[trigger] m.contains_key(f) ==> entry_from_parse(tree, f, m[f]),
{
    match entrypoint_spec(tree) {
        Err(_) => {
            assert(walk_spec(tree) is Err);
        },
        Ok(entry) => {
            lemma_walk_entries(
                tree,
                seq![(entry, Seq::<Seq<char>>::empty())],
                Set::empty(),
                Map::empty(),
            );
            let r = walk_from(
                tree,
                seq![(entry, Seq::<Seq<char>>::empty())],
                Set::empty(),
                Map::empty(),
            );
            assert(r == Ok::<Map<Seq<char>, Seq<UseRecord>>, ErrorKind>(m));
            assert forall|f: Seq<char>| #[trigger] m.contains_key(f) implies entry_from_parse(
                tree,
                f,
                m[f],
            ) by {
                assert(r->Ok_0 == m);
                assert(r->Ok_0.contains_key(f));
            }
        },
    }
}

/// A package with zero use declarations in the files reachable from its entry
/// point yields an index whose entries are all empty record lists — each
/// reached file still gets its own, empty, entry.  The reachable files are
/// exactly the index's keys.
pub proof fn lemma_no_uses_empty_index(
    tree: Map<Seq<char>, Seq<char>>,
    m: Map<Seq<char>, Seq<UseRecord>>,
)
    requires
        tree.dom().finite(),
        walk_spec(tree) == Ok::<Map<Seq<char>, Seq<UseRecord>>, ErrorKind>(m),
        forall|f: Seq<char>| #[trigger]
            m.contains_key(f) ==> (parse_of(tree[f]) matches Some(fs)
                ==> crate::visit::items_have_no_use(fs.items@, 0)),
    ensures
        forall|f: Seq<char>| #[trigger] m.contains_key(f) ==> m[f] == Seq::<UseRecord>::empty(),
{
    lemma_index_entries_from_parse(tree, m);
    assert forall|f: Seq<char>| #[trigger] m.contains_key(f) implies m[f]
        == Seq::<UseRecord>::empty() by {
        assert(entry_from_parse(tree, f, m[f]));
        let items = parse_of(tree[f])->Some_0.items@;
        let anc = choose|anc: Seq<Seq<char>>| m[f] == collect_uses_from(items, 0, anc);
        crate::visit::lemma_no_uses_no_records(items, 0, anc);
    }
}

} // verus!
