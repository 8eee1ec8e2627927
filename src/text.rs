//! Character-level rules on names and source locators.

use vstd::prelude::*;
use vstd::std_specs::iter::IteratorSpec;

verus! {

broadcast use vstd::string::axiom_spec_iter, vstd::string::next_postcondition;

/// The application part of a relation endpoint: everything before the first
/// `:` (the interface suffix), or the whole endpoint when it has none.
pub open spec fn endpoint_app(e: Seq<char>) -> Seq<char>
    decreases e.len(),
{
    if e.len() == 0 || e[0] == ':' {
        Seq::empty()
    } else {
        seq![e[0]] + endpoint_app(e.drop_first())
    }
}

/// A source locator that starts with `.` is a path relative to the bundle file.
pub open spec fn is_relative_spec(s: Seq<char>) -> bool {
    s.len() > 0 && s[0] == '.'
}

/// Whether a source locator is relative to the bundle file's directory.
pub fn is_relative(s: &String) -> (r: bool)
    ensures
        r == is_relative_spec(s@),
{
    let mut it = s.as_str().chars();
    match it.next() {
        Some(c) => c == '.',
        None => false,
    }
}

/// Whether the endpoint `e` of a relation names the application `name`.
pub fn endpoint_names(e: &String, name: &String) -> (r: bool)
    ensures
        r == (endpoint_app(e@) == name@),
{
    let mut ie = e.as_str().chars();
    let mut iname = name.as_str().chars();
    let ghost mut i: int = 0;
    loop
        invariant
            ie.obeys_prophetic_iter_laws(),
            iname.obeys_prophetic_iter_laws(),
            0 <= i <= e@.len(),
            i <= name@.len(),
            ie.remaining() == e@.skip(i),
            iname.remaining() == name@.skip(i),
            (endpoint_app(e@) == name@) == (endpoint_app(e@.skip(i)) == name@.skip(i)),
        decreases e@.len() - i,
    {
        match ie.next() {
            None => {
                let ghost rn = name@.skip(i);
                assert(endpoint_app(e@.skip(i)) =~= Seq::<char>::empty());
                return match iname.next() {
                    None => {
                        assert(rn =~= Seq::<char>::empty());
                        true
                    },
                    Some(_) => false,
                };
            },
            Some(c) => {
                if c == ':' {
                    let ghost rn = name@.skip(i);
                    assert(endpoint_app(e@.skip(i)) =~= Seq::<char>::empty());
                    return match iname.next() {
                        None => {
                            assert(rn =~= Seq::<char>::empty());
                            true
                        },
                        Some(_) => false,
                    };
                }
                match iname.next() {
                    None => {
                        return false;
                    },
                    Some(d) => {
                        let ghost re = e@.skip(i);
                        let ghost rn = name@.skip(i);
                        if d != c {
                            assert(endpoint_app(re)[0] != rn[0]);
                            return false;
                        }
                        proof {
                            assert(re.drop_first() =~= e@.skip(i + 1));
                            assert(rn.drop_first() =~= name@.skip(i + 1));
                            let x = endpoint_app(re.drop_first());
                            let y = rn.drop_first();
                            assert(rn =~= seq![c] + y);
                            if seq![c] + x == seq![c] + y {
                                assert(x =~= (seq![c] + x).drop_first());
                                assert(y =~= (seq![c] + y).drop_first());
                            }
                            i = i + 1;
                        }
                    },
                }
            },
        }
    }
}

} // verus!
