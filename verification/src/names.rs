//! Module identifiers and the item-vs-module naming heuristic.

use vstd::prelude::*;
use vstd::string::*;

verus! {

/// Whether `c` is an upper-case character, by the Unicode derived property
/// that `char::is_uppercase` decides.  The property is a function of the
/// character alone; it is named here rather than written out.
pub uninterp spec fn is_upper(c: char) -> bool;

/// Relies on `char::is_uppercase`: the Unicode `Uppercase` property of the
/// character, a pure function of the character alone.
#[verifier::external_body]
pub fn char_is_uppercase(c: char) -> (r: bool)
    ensures
        r == is_upper(c),
{
    c.is_uppercase()
}

/// Compares two string slices character by character.
pub fn str_eq(a: &str, b: &str) -> (r: bool)
    ensures
        r == (a@ == b@),
{
    let alen = a.unicode_len();
    let blen = b.unicode_len();
    if alen != blen {
        return false;
    }
    let mut i: usize = 0;
    while i < alen
        invariant
            alen == a@.len(),
            blen == b@.len(),
            alen == blen,
            i <= alen,
            forall|k: int| 0 <= k < i ==> a@[k] == b@[k],
        decreases alen - i,
    {
        if a.get_char(i) != b.get_char(i) {
            return false;
        }
        i = i + 1;
    }
    proof {
        assert(a@ =~= b@);
    }
    true
}

/// The naming heuristic that tells an imported item from an imported
/// sub-module: the reserved current-module keyword, or a leading upper-case
/// character, marks an item.  The grammar itself does not distinguish the
/// two, so a module whose name starts with an upper-case letter is
/// misclassified; this is a documented limit of the heuristic.
pub open spec fn is_item_like(name: Seq<char>) -> bool {
    name == "self"@ || (name.len() > 0 && is_upper(name[0]))
}

/// Whether the trailing segment `import_name` denotes an item rather than a
/// sub-module, so that the module path collapses to the prefix without it.
pub fn should_remove_prefix(import_name: &str) -> (r: bool)
    ensures
        r == is_item_like(import_name@),
{
    if str_eq(import_name, "self") {
        true
    } else {
        let n = import_name.unicode_len();
        if n == 0 {
            false
        } else {
            char_is_uppercase(import_name.get_char(0))
        }
    }
}

/// An absolute, segmented module path such as `crate::a::b`, kept as its
/// joined textual form.  Two module names are equal iff their texts are.
#[derive(Debug)]
pub struct ModuleName(pub String);

impl View for ModuleName {
    type V = Seq<char>;

    open spec fn view(&self) -> Seq<char> {
        self.0@
    }
}

impl DeepView for ModuleName {
    type V = Seq<char>;

    open spec fn deep_view(&self) -> Seq<char> {
        self.0@
    }
}

impl Clone for ModuleName {
    fn clone(&self) -> (r: Self)
        ensures
            r@ == self@,
    {
        ModuleName(self.0.clone())
    }
}

impl PartialEq for ModuleName {
    fn eq(&self, other: &Self) -> (r: bool) {
        self.0 == other.0
    }
}

impl Eq for ModuleName {}

impl vstd::std_specs::cmp::PartialEqSpecImpl for ModuleName {
    open spec fn obeys_eq_spec() -> bool {
        true
    }

    open spec fn eq_spec(&self, other: &Self) -> bool {
        self@ == other@
    }
}

impl From<String> for ModuleName {
    fn from(value: String) -> (r: Self)
        ensures
            r@ == value@,
    {
        ModuleName(value)
    }
}

impl vstd::std_specs::convert::FromSpecImpl<String> for ModuleName {
    open spec fn obeys_from_spec() -> bool {
        true
    }

    open spec fn from_spec(value: String) -> Self {
        ModuleName(value)
    }
}

impl ModuleName {
    /// The textual form of the module path.
    pub fn as_text(&self) -> (r: &String)
        ensures
            r@ == self@,
    {
        &self.0
    }
}

/// A source file's path relative to the package root, the key that partitions
/// import records by file of origin.
#[derive(Debug)]
pub struct File(pub String);

impl View for File {
    type V = Seq<char>;

    open spec fn view(&self) -> Seq<char> {
        self.0@
    }
}

impl DeepView for File {
    type V = Seq<char>;

    open spec fn deep_view(&self) -> Seq<char> {
        self.0@
    }
}

impl Clone for File {
    fn clone(&self) -> (r: Self)
        ensures
            r@ == self@,
    {
        File(self.0.clone())
    }
}

impl PartialEq for File {
    fn eq(&self, other: &Self) -> (r: bool) {
        self.0 == other.0
    }
}

impl Eq for File {}

impl vstd::std_specs::cmp::PartialEqSpecImpl for File {
    open spec fn obeys_eq_spec() -> bool {
        true
    }

    open spec fn eq_spec(&self, other: &Self) -> bool {
        self@ == other@
    }
}

/// The segments of `segs` joined with the separator `sep`:
/// empty for no segments, otherwise the segments with `sep` between each
/// neighbouring pair.
pub open spec fn join_with(segs: Seq<Seq<char>>, sep: Seq<char>) -> Seq<char>
    decreases segs.len(),
{
    if segs.len() == 0 {
        Seq::empty()
    } else if segs.len() == 1 {
        segs[0]
    } else {
        segs[0] + sep + join_with(segs.skip(1), sep)
    }
}

/// Appending one more segment appends one separator and the segment.
pub proof fn lemma_join_with_push(segs: Seq<Seq<char>>, sep: Seq<char>, last: Seq<char>)
    requires
        segs.len() >= 1,
    ensures
        join_with(segs.push(last), sep) == join_with(segs, sep) + sep + last,
    decreases segs.len(),
{
    let pushed = segs.push(last);
    if segs.len() == 1 {
        assert(pushed.skip(1) =~= seq![last]);
        assert(join_with(pushed.skip(1), sep) == last);
        assert(join_with(segs, sep) == segs[0]);
    } else {
        lemma_join_with_push(segs.skip(1), sep, last);
        assert(pushed.skip(1) =~= segs.skip(1).push(last));
        assert(join_with(segs, sep) + sep + last == segs[0] + sep + (join_with(
            segs.skip(1),
            sep,
        ) + sep + last)) by {
            assert((segs[0] + sep + join_with(segs.skip(1), sep)) + sep + last =~= segs[0] + sep + (
            join_with(segs.skip(1), sep) + sep + last));
        }
    }
}

/// Joins the segments of `segs` with the separator `sep`.
pub fn join_segments(segs: &Vec<String>, sep: &str) -> (r: String)
    ensures
        r@ == join_with(segs.deep_view(), sep@),
{
    if segs.len() == 0 {
        let r = String::new();
        return r;
    }
    let mut r: String = segs[0].clone();
    let mut i: usize = 1;
    while i < segs.len()
        invariant
            1 <= i <= segs.len(),
            r@ == join_with(segs.deep_view().take(i as int), sep@),
        decreases segs.len() - i,
    {
        r.append(sep);
        r.append(segs[i].as_str());
        proof {
            let prefix = segs.deep_view().take(i as int);
            lemma_join_with_push(prefix, sep@, segs.deep_view()[i as int]);
            assert(prefix.push(segs.deep_view()[i as int]) =~= segs.deep_view().take(i + 1));
        }
        i = i + 1;
    }
    proof {
        assert(segs.deep_view().take(segs.len() as int) =~= segs.deep_view());
    }
    r
}

} // verus!
