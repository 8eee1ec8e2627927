//! The bundle, its applications and relations, and the library's errors.

use vstd::prelude::*;

verus! {

/// One deployable unit of a bundle.
#[derive(Debug)]
pub struct Application {
    /// Reference to a pre-built charm, if any.
    pub charm: Option<String>,
    /// Where the charm's source lives: a path relative to the bundle file when
    /// it starts with `.`, else a name under the charm source directory.
    pub source: Option<String>,
    /// Resource name to upstream source, keys unique.
    pub resources: Vec<(String, String)>,
}

/// A declarative manifest: named applications and the relations between them.
#[derive(Debug)]
pub struct Bundle {
    /// Applications keyed by name, names unique.
    pub applications: Vec<(String, Application)>,
    /// Each relation lists its endpoints, `app` or `app:interface`.
    pub relations: Vec<Vec<String>>,
}

/// Every way an operation on a bundle can fail.
#[derive(Debug, PartialEq, Eq)]
pub enum BundleError {
    /// `prune` was asked for without `serial`.
    PruneRequiresSerial,
    /// A requested application is not in the bundle.
    UnknownApplication(String),
    /// An application has neither a charm reference nor a source locator.
    NoCharmOrSource(String),
    /// An external command exited unsuccessfully; holds a description.
    CommandFailed(String),
    /// A file or directory could not be created, read or written.
    Io(String),
}

/// The character views of a sequence of strings.
pub open spec fn views(v: Seq<String>) -> Seq<Seq<char>> {
    v.map_values(|s: String| s@)
}

/// The names of keyed entries, in order.
pub open spec fn key_views<T>(v: Seq<(String, T)>) -> Seq<Seq<char>> {
    v.map_values(|p: (String, T)| p.0@)
}

/// Keys appear at most once.
pub open spec fn keys_unique<T>(v: Seq<(String, T)>) -> bool {
    key_views(v).no_duplicates()
}

impl Bundle {
    /// The bundle's application names are unique.
    pub open spec fn well_formed(&self) -> bool {
        keys_unique(self.applications@)
    }
}

/// Copies a list of strings.
pub fn copy_strings(v: &Vec<String>) -> (r: Vec<String>)
    ensures
        r@ == v@,
{
    let mut r: Vec<String> = Vec::new();
    let mut i: usize = 0;
    while i < v.len()
        invariant
            i <= v@.len(),
            r@ == v@.take(i as int),
        decreases v@.len() - i,
    {
        r.push(v[i].clone());
        i = i + 1;
        assert(r@ =~= v@.take(i as int));
    }
    assert(v@.take(v@.len() as int) =~= v@);
    r
}

/// Copies a keyed list of strings.
pub fn copy_entries(v: &Vec<(String, String)>) -> (r: Vec<(String, String)>)
    ensures
        r@ == v@,
{
    let mut r: Vec<(String, String)> = Vec::new();
    let mut i: usize = 0;
    while i < v.len()
        invariant
            i <= v@.len(),
            r@ == v@.take(i as int),
        decreases v@.len() - i,
    {
        let k = v[i].0.clone();
        let x = v[i].1.clone();
        r.push((k, x));
        i = i + 1;
        assert(r@ =~= v@.take(i as int));
    }
    assert(v@.take(v@.len() as int) =~= v@);
    r
}

/// Keeps an optional string.
pub fn copy_opt(o: &Option<String>) -> (r: Option<String>)
    ensures
        r == *o,
{
    match o {
        Some(s) => Some(s.clone()),
        None => None,
    }
}

/// A string holding the given text.
pub fn text_of(s: &str) -> (r: String)
    ensures
        r@ == s@,
{
    s.to_owned()
}

/// Whether `n` is among `v`.
pub fn contains_name(v: &Vec<String>, n: &String) -> (r: bool)
    ensures
        r == views(v@).contains(n@),
{
    let mut i: usize = 0;
    while i < v.len()
        invariant
            i <= v@.len(),
            forall|j: int| 0 <= j < i ==> v@[j]@ != n@,
        decreases v@.len() - i,
    {
        if v[i] == *n {
            assert(views(v@)[i as int] == n@);
            return true;
        }
        i = i + 1;
    }
    assert(!views(v@).contains(n@)) by {
        if views(v@).contains(n@) {
            let k = choose|k: int| 0 <= k < views(v@).len() && views(v@)[k] == n@;
            assert(v@[k]@ == n@);
        }
    }
    false
}

} // verus!
