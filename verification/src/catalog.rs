//! Catalog entries, the run configuration, and the allow-list filter
//! the coordinator applies before dispatching jobs.

use vstd::prelude::*;

verus! {

/// One catalog entry: a grammar name and where to fetch it from.
pub struct CatalogEntry {
    pub name: String,
    pub source_locator: String,
}

/// What one run is given, immutable for its duration. The two
/// directories carry their own trailing separator.
pub struct RunConfiguration {
    pub output_dir: String,
    pub source_dir: String,
    pub registry_path: String,
    pub pool_size: usize,
    pub allow_list: Vec<String>,
}

/// The names of an allow list.
pub open spec fn allow_names(av: Seq<String>) -> Seq<Seq<char>> {
    Seq::new(
        av.len(),
        |i: int|
            if 0 <= i < av.len() {
                av[i]@
            } else {
                Seq::empty()
            },
    )
}

/// Whether a name is on the allow list.
pub open spec fn allowed(name: Seq<char>, allow: Seq<Seq<char>>) -> bool {
    exists|i: int| 0 <= i < allow.len() && allow[i] == name
}

/// The entries kept by a non-empty allow list, in catalog order.
pub open spec fn filtered(s: Seq<CatalogEntry>, allow: Seq<Seq<char>>) -> Seq<CatalogEntry>
    decreases s.len(),
{
    if s.len() == 0 {
        Seq::empty()
    } else {
        let rest = filtered(s.drop_first(), allow);
        if allowed(s[0].name@, allow) {
            seq![s[0]] + rest
        } else {
            rest
        }
    }
}

/// The entries a run dispatches: all of them where the allow list is
/// empty, those the list names otherwise.
pub open spec fn selected(s: Seq<CatalogEntry>, allow: Seq<Seq<char>>) -> Seq<CatalogEntry> {
    if allow.len() == 0 {
        s
    } else {
        filtered(s, allow)
    }
}

fn name_allowed(name: &String, allow: &Vec<String>) -> (b: bool)
    ensures
        b == allowed(name@, allow_names(allow@)),
{
    let mut i: usize = 0;
    let n = allow.len();
    while i < n
        invariant
            n == allow.len(),
            i <= n,
            forall|j: int| 0 <= j < i ==> allow_names(allow@)[j] != name@,
        decreases n - i,
    {
        if allow[i] == *name {
            proof {
                assert(allow_names(allow@)[i as int] == name@);
            }
            return true;
        }
        i += 1;
    }
    false
}

/// Keep the entries the allow list names; an empty list keeps them all.
#[verifier::loop_isolation(false)]
pub fn filter_entries(entries: Vec<CatalogEntry>, allow: &Vec<String>) -> (r: Vec<CatalogEntry>)
    ensures
        r@ == selected(entries@, allow_names(allow@)),
{
    if allow.len() == 0 {
        return entries;
    }
    let ghost all = entries@;
    let ghost names = allow_names(allow@);
    let mut kept: Vec<CatalogEntry> = Vec::new();
    let mut i: usize = 0;
    let n = entries.len();
    proof {
        assert(all.skip(0) =~= all);
    }
    while i < n
        invariant
            i <= n,
            n == entries.len(),
            entries@ == all,
            filtered(all, names) =~= kept@ + filtered(all.skip(i as int), names),
        decreases n - i,
    {
        proof {
            assert(all.skip(i as int)[0] == all[i as int]);
            assert(all.skip(i as int).drop_first() =~= all.skip(i as int + 1));
        }
        let ghost before = kept@;
        if name_allowed(&entries[i].name, allow) {
            let e = CatalogEntry {
                name: entries[i].name.clone(),
                source_locator: entries[i].source_locator.clone(),
            };
            proof {
                assert(e == all[i as int]);
            }
            kept.push(e);
            proof {
                assert(filtered(all, names) =~= kept@ + filtered(all.skip(i as int + 1), names));
            }
        }
        i += 1;
    }
    proof {
        assert(all.skip(n as int) =~= Seq::<CatalogEntry>::empty());
        assert(kept@ + filtered(all.skip(n as int), names) =~= kept@);
    }
    kept
}

} // verus!
