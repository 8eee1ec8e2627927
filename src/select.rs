//! Choosing the applications an operation works on, and the relations that
//! remain valid among them.

use vstd::prelude::*;
use crate::model::{views, key_views, contains_name, copy_strings, Application, BundleError};
use crate::text::{endpoint_app, endpoint_names};

verus! {

/// The names among `ns` that `req` asks for, in the order of `ns`.
pub open spec fn picked(ns: Seq<Seq<char>>, req: Seq<Seq<char>>) -> Seq<Seq<char>>
    decreases ns.len(),
{
    if ns.len() == 0 {
        Seq::empty()
    } else {
        let rest = picked(ns.drop_last(), req);
        if req.contains(ns.last()) {
            rest.push(ns.last())
        } else {
            rest
        }
    }
}

/// The selection: every name when nothing is requested, else the requested ones.
pub open spec fn selection(ns: Seq<Seq<char>>, req: Seq<Seq<char>>) -> Seq<Seq<char>> {
    if req.len() == 0 {
        ns
    } else {
        picked(ns, req)
    }
}

/// Index of the first requested name that is not among `ns`.
pub open spec fn first_missing(ns: Seq<Seq<char>>, req: Seq<Seq<char>>, k: int) -> bool {
    &&& 0 <= k < req.len()
    &&& !ns.contains(req[k])
    &&& forall|j: int| 0 <= j < k ==> ns.contains(req[j])
}

/// Some requested name is not among `ns`.
pub open spec fn any_missing(ns: Seq<Seq<char>>, req: Seq<Seq<char>>) -> bool {
    exists|k: int| 0 <= k < req.len() && !ns.contains(req[k])
}

/// The picked names are those both listed and requested.
proof fn lemma_picked(ns: Seq<Seq<char>>, req: Seq<Seq<char>>)
    ensures
        forall|x: Seq<char>|
            #[trigger] picked(ns, req).contains(x) <==> (ns.contains(x) && req.contains(x)),
    decreases ns.len(),
{
    if ns.len() > 0 {
        lemma_picked(ns.drop_last(), req);
        let rest = picked(ns.drop_last(), req);
        assert forall|x: Seq<char>| #[trigger] picked(ns, req).contains(x) <==> (ns.contains(x)
            && req.contains(x)) by {
            if picked(ns, req).contains(x) {
                let w = choose|w: int| 0 <= w < picked(ns, req).len() && picked(ns, req)[w] == x;
                if w < rest.len() {
                    assert(rest[w] == x);
                    assert(rest.contains(x));
                    let v = choose|v: int| 0 <= v < ns.drop_last().len() && ns.drop_last()[v] == x;
                    assert(ns[v] == x);
                } else {
                    assert(ns[ns.len() - 1] == x);
                }
            }
            if ns.contains(x) && req.contains(x) {
                let v = choose|v: int| 0 <= v < ns.len() && ns[v] == x;
                if v < ns.len() - 1 {
                    assert(ns.drop_last()[v] == x);
                    assert(ns.drop_last().contains(x));
                    assert(rest.contains(x));
                    let w = choose|w: int| 0 <= w < rest.len() && rest[w] == x;
                    assert(picked(ns, req)[w] == x);
                } else {
                    assert(picked(ns, req)[rest.len() as int] == x);
                }
            }
        }
    }
}

/// A non-empty request selects exactly the requested names that the bundle
/// has; an empty one selects every name.
pub proof fn lemma_selection_exact(ns: Seq<Seq<char>>, req: Seq<Seq<char>>)
    ensures
        req.len() == 0 ==> selection(ns, req) == ns,
        forall|x: Seq<char>|
            #![trigger selection(ns, req).contains(x)]
            req.len() > 0 ==> (selection(ns, req).contains(x) <==> (ns.contains(x) && req.contains(x))),
{
    lemma_picked(ns, req);
}

/// A relation survives when each endpoint's application is selected.
pub open spec fn survives(rel: Seq<String>, sel: Seq<Seq<char>>) -> bool {
    forall|i: int| 0 <= i < rel.len() ==> sel.contains(endpoint_app(#[trigger] rel[i]@))
}

/// The relations among `rels` that survive, in order.
pub open spec fn surviving(rels: Seq<Seq<String>>, sel: Seq<Seq<char>>) -> Seq<Seq<String>>
    decreases rels.len(),
{
    if rels.len() == 0 {
        Seq::empty()
    } else {
        let rest = surviving(rels.drop_last(), sel);
        if survives(rels.last(), sel) {
            rest.push(rels.last())
        } else {
            rest
        }
    }
}

/// The names of the applications to work on. With no request, every
/// application of the bundle; otherwise those requested, in bundle order. A
/// requested name the bundle lacks is an error naming the first such request.
pub fn app_subset(apps: &Vec<(String, Application)>, requested: &Vec<String>) -> (r: Result<
    Vec<String>,
    BundleError,
>)
    ensures
        r is Ok <==> !(requested@.len() > 0 && any_missing(key_views(apps@), views(requested@))),
        r is Ok ==> views(r->Ok_0@) == selection(key_views(apps@), views(requested@)),
        r is Err ==> (r->Err_0 is UnknownApplication && exists|k: int|
            first_missing(key_views(apps@), views(requested@), k)
                && (r->Err_0->UnknownApplication_0)@ == requested@[k]@),
{
    let ghost ns = key_views(apps@);
    let ghost req = views(requested@);
    let mut names: Vec<String> = Vec::new();
    let mut i: usize = 0;
    while i < apps.len()
        invariant
            i <= apps@.len(),
            ns == key_views(apps@),
            names@.len() == i,
            forall|j: int| 0 <= j < i ==> (#[trigger] names@[j])@ == ns[j],
        decreases apps@.len() - i,
    {
        let n = apps[i].0.clone();
        assert(n@ == ns[i as int]);
        names.push(n);
        i = i + 1;
    }
    assert(views(names@) =~= ns);
    if requested.len() == 0 {
        return Ok(names);
    }
    let mut k: usize = 0;
    while k < requested.len()
        invariant
            k <= requested@.len(),
            views(names@) == ns,
            ns == key_views(apps@),
            req == views(requested@),
            forall|j: int| 0 <= j < k ==> ns.contains(req[j]),
        decreases requested@.len() - k,
    {
        if !contains_name(&names, &requested[k]) {
            let missing = requested[k].clone();
            assert(req[k as int] == requested@[k as int]@);
            assert(first_missing(ns, req, k as int));
            assert(any_missing(ns, req));
            return Err(BundleError::UnknownApplication(missing));
        }
        k = k + 1;
    }
    assert(!any_missing(ns, req));
    let mut out: Vec<String> = Vec::new();
    let mut i: usize = 0;
    while i < names.len()
        invariant
            i <= names@.len(),
            views(names@) == ns,
            ns == key_views(apps@),
            req == views(requested@),
            views(out@) == picked(ns.take(i as int), req),
        decreases names@.len() - i,
    {
        assert(ns.take(i as int + 1).drop_last() =~= ns.take(i as int));
        if contains_name(requested, &names[i]) {
            out.push(names[i].clone());
        }
        i = i + 1;
        assert(views(out@) =~= picked(ns.take(i as int), req));
    }
    assert(ns.take(names@.len() as int) =~= ns);
    Ok(out)
}

/// Whether every endpoint of `rel` belongs to a selected application.
pub fn relation_survives(rel: &Vec<String>, selected: &Vec<String>) -> (r: bool)
    ensures
        r == survives(rel@, views(selected@)),
{
    let mut i: usize = 0;
    while i < rel.len()
        invariant
            i <= rel@.len(),
            forall|j: int| 0 <= j < i ==> views(selected@).contains(endpoint_app(#[trigger] rel@[j]@)),
        decreases rel@.len() - i,
    {
        let mut found = false;
        let mut k: usize = 0;
        while k < selected.len()
            invariant
                k <= selected@.len(),
                i < rel@.len(),
                !found ==> forall|j: int| 0 <= j < k ==> selected@[j]@ != endpoint_app(rel@[i as int]@),
                found ==> views(selected@).contains(endpoint_app(rel@[i as int]@)),
            decreases selected@.len() - k,
        {
            if !found && endpoint_names(&rel[i], &selected[k]) {
                assert(views(selected@)[k as int] == endpoint_app(rel@[i as int]@));
                found = true;
            }
            k = k + 1;
        }
        if !found {
            assert(!views(selected@).contains(endpoint_app(rel@[i as int]@))) by {
                if views(selected@).contains(endpoint_app(rel@[i as int]@)) {
                    let m = choose|m: int| 0 <= m < views(selected@).len()
                        && views(selected@)[m] == endpoint_app(rel@[i as int]@);
                    assert(selected@[m]@ == endpoint_app(rel@[i as int]@));
                }
            }
            return false;
        }
        i = i + 1;
    }
    true
}

/// The relations all of whose endpoints belong to selected applications, in
/// order; the others are dropped, which is never an error.
pub fn filter_relations(rels: &Vec<Vec<String>>, selected: &Vec<String>) -> (r: Vec<Vec<String>>)
    ensures
        r@.map_values(|v: Vec<String>| v@) == surviving(
            rels@.map_values(|v: Vec<String>| v@),
            views(selected@),
        ),
{
    let ghost rs = rels@.map_values(|v: Vec<String>| v@);
    let mut out: Vec<Vec<String>> = Vec::new();
    let mut i: usize = 0;
    while i < rels.len()
        invariant
            i <= rels@.len(),
            rs == rels@.map_values(|v: Vec<String>| v@),
            out@.map_values(|v: Vec<String>| v@) == surviving(rs.take(i as int), views(selected@)),
        decreases rels@.len() - i,
    {
        assert(rs.take(i as int + 1).drop_last() =~= rs.take(i as int));
        assert(rs.take(i as int + 1).last() == rels@[i as int]@);
        if relation_survives(&rels[i], selected) {
            out.push(copy_strings(&rels[i]));
        }
        i = i + 1;
        assert(out@.map_values(|v: Vec<String>| v@) =~= surviving(rs.take(i as int), views(selected@)));
    }
    assert(rs.take(rels@.len() as int) =~= rs);
    out
}

} // verus!
