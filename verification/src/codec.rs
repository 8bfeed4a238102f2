//! Reading metadata descriptors and registry documents out of JSON
//! trees, rendering the registry back to a tree, and the whole merge:
//! from the registry text on disk and one descriptor's text to the new
//! registry text.

use vstd::prelude::*;
use vstd::string::StringExecFns;
use crate::json::{JsonModel, JsonValue, json_of, json_text_of, parse_json, render_json};
use crate::registry::{
    EntryModel, GrammarDecl, GrammarSpec, MetadataDescriptor, RegistryDocument, distinct_names,
    merged_entries,
};

verus! {

/// The first value bound to `k` in an object's pair list, if any.
pub open spec fn pairs_get(ps: Seq<(Seq<char>, JsonModel)>, k: Seq<char>) -> Option<JsonModel>
    decreases ps.len(),
{
    if ps.len() == 0 {
        None
    } else if ps[0].0 == k {
        Some(ps[0].1)
    } else {
        pairs_get(ps.drop_first(), k)
    }
}

/// Key lookup on a model tree: `None` unless the tree is an object
/// binding `k`.
pub open spec fn model_get(m: JsonModel, k: Seq<char>) -> Option<JsonModel> {
    match m {
        JsonModel::Object(ps) => pairs_get(ps, k),
        _ => None,
    }
}

/// Key lookup on a JSON tree, by the first matching pair.
#[verifier::loop_isolation(false)]
pub fn object_get<'a>(v: &'a JsonValue, key: &String) -> (r: Option<&'a JsonValue>)
    ensures
        match r {
            Some(w) => model_get(v.model(), key@) == Some(w.model()),
            None => model_get(v.model(), key@) is None,
        },
{
    match v {
        JsonValue::Object(o) => {
            let ghost ps = v.model()->Object_0;
            let mut i: usize = 0;
            let n = o.len();
            proof {
                assert(ps.skip(0) =~= ps);
            }
            while i < n
                invariant
                    n == o.len(),
                    i <= n,
                    ps == v.model()->Object_0,
                    ps.len() == n,
                    forall|j: int| 0 <= j < n ==> ps[j] == (o[j].0@, o[j].1.model()),
                    pairs_get(ps, key@) == pairs_get(ps.skip(i as int), key@),
                decreases n - i,
            {
                if o[i].0 == *key {
                    proof {
                        assert(ps.skip(i as int)[0] == ps[i as int]);
                    }
                    return Some(&o[i].1);
                }
                proof {
                    assert(ps.skip(i as int)[0] == ps[i as int]);
                    assert(ps.skip(i as int).drop_first() =~= ps.skip(i as int + 1));
                }
                i += 1;
            }
            proof {
                assert(ps.skip(n as int) =~= Seq::<(Seq<char>, JsonModel)>::empty());
            }
            None
        },
        _ => None,
    }
}

/// The extension a grammar object declares: its first file type, or
/// empty where the list is absent, empty, or not a list of text.
pub open spec fn ext_of_model(g: JsonModel) -> Seq<char> {
    match model_get(g, "file-types"@) {
        Some(JsonModel::Array(fts)) => if fts.len() > 0 {
            match fts[0] {
                JsonModel::Text(t) => t,
                _ => Seq::empty(),
            }
        } else {
            Seq::empty()
        },
        _ => Seq::empty(),
    }
}

/// The declaration a grammar object makes: its name, where one is
/// declared as text, with its extension.
pub open spec fn decl_of_model(g: JsonModel) -> Option<GrammarSpec> {
    match model_get(g, "name"@) {
        Some(JsonModel::Text(n)) => Some(GrammarSpec { name: n, extension: ext_of_model(g) }),
        _ => None,
    }
}

/// The declarations of a `grammars` list, in order, elements without a
/// text name skipped.
pub open spec fn decls_of_elems(gs: Seq<JsonModel>) -> Seq<GrammarSpec>
    decreases gs.len(),
{
    if gs.len() == 0 {
        Seq::empty()
    } else {
        match decl_of_model(gs[0]) {
            Some(d) => seq![d] + decls_of_elems(gs.drop_first()),
            None => decls_of_elems(gs.drop_first()),
        }
    }
}

/// All declarations of a metadata descriptor tree: those of its
/// `grammars` list, or none where that list is absent or not a list.
pub open spec fn grammar_decls_of(m: JsonModel) -> Seq<GrammarSpec> {
    match model_get(m, "grammars"@) {
        Some(JsonModel::Array(gs)) => decls_of_elems(gs),
        _ => Seq::empty(),
    }
}

fn grammar_extension(g: &JsonValue) -> (e: String)
    ensures
        e@ == ext_of_model(g.model()),
{
    let k = String::from_str("file-types");
    match object_get(g, &k) {
        Some(w) => match w {
            JsonValue::Array(fts) => {
                if fts.len() > 0 {
                    proof {
                        assert(w.model()->Array_0[0] == fts[0].model());
                    }
                    match &fts[0] {
                        JsonValue::Text(t) => t.clone(),
                        _ => String::new(),
                    }
                } else {
                    String::new()
                }
            },
            _ => String::new(),
        },
        None => String::new(),
    }
}

fn grammar_decl(g: &JsonValue) -> (r: Option<GrammarDecl>)
    ensures
        match r {
            Some(d) => decl_of_model(g.model()) == Some(d@),
            None => decl_of_model(g.model()) is None,
        },
{
    let k = String::from_str("name");
    match object_get(g, &k) {
        Some(w) => match w {
            JsonValue::Text(n) => {
                let name = n.clone();
                let extension = grammar_extension(g);
                Some(GrammarDecl { name, extension })
            },
            _ => None,
        },
        None => None,
    }
}

/// Read a metadata descriptor out of a parsed tree. A tree that is not
/// an object, or has no `grammars` list, declares nothing.
#[verifier::loop_isolation(false)]
pub fn read_metadata(v: &JsonValue) -> (md: MetadataDescriptor)
    ensures
        md@ == grammar_decls_of(v.model()),
{
    let mut grammars: Vec<GrammarDecl> = Vec::new();
    let k = String::from_str("grammars");
    match object_get(v, &k) {
        Some(w) => match w {
            JsonValue::Array(gs) => {
                let ghost ps = w.model()->Array_0;
                let ghost target = decls_of_elems(ps);
                let mut i: usize = 0;
                let n = gs.len();
                proof {
                    assert(ps.skip(0) =~= ps);
                }
                while i < n
                    invariant
                        i <= n,
                        target =~= decl_seq(grammars@) + decls_of_elems(ps.skip(i as int)),
                    decreases n - i,
                {
                    proof {
                        assert(ps.skip(i as int)[0] == ps[i as int]);
                        assert(ps[i as int] == gs[i as int].model());
                        assert(ps.skip(i as int).drop_first() =~= ps.skip(i as int + 1));
                    }
                    let ghost before = decl_seq(grammars@);
                    match grammar_decl(&gs[i]) {
                        Some(d) => {
                            grammars.push(d);
                            proof {
                                assert(decl_seq(grammars@) =~= before.push(d@));
                                assert(target =~= decl_seq(grammars@) + decls_of_elems(
                                    ps.skip(i as int + 1),
                                ));
                            }
                        },
                        None => {},
                    }
                    i += 1;
                }
                proof {
                    assert(ps.skip(n as int) =~= Seq::<JsonModel>::empty());
                    assert(decl_seq(grammars@) + decls_of_elems(ps.skip(n as int)) =~= decl_seq(
                        grammars@,
                    ));
                }
            },
            _ => {},
        },
        None => {},
    }
    let md = MetadataDescriptor { grammars };
    proof {
        assert(md@ =~= decl_seq(md.grammars@));
    }
    md
}

/// The declarations of a vector of read declarations.
pub open spec fn decl_seq(gv: Seq<GrammarDecl>) -> Seq<GrammarSpec> {
    Seq::new(
        gv.len(),
        |i: int|
            if 0 <= i < gv.len() {
                gv[i]@
            } else {
                GrammarSpec { name: Seq::empty(), extension: Seq::empty() }
            },
    )
}

/// The entries a registry tree holds: the pairs of its
/// `known_languages` object, each value kept whole. A tree without a
/// `known_languages` object holds none. `None` only where a name is
/// bound twice; no tree this crate's parser returns does that.
pub open spec fn registry_entries_of(m: JsonModel) -> Option<Seq<(Seq<char>, EntryModel)>> {
    match model_get(m, "known_languages"@) {
        Some(JsonModel::Object(ps)) => if distinct_names(ps) {
            Some(ps)
        } else {
            None
        },
        _ => Some(Seq::empty()),
    }
}

#[verifier::loop_isolation(false)]
fn names_distinct(ps: &Vec<(String, JsonValue)>) -> (r: bool)
    ensures
        r == (forall|a: int, b: int| 0 <= a < b < ps@.len() ==> ps@[a].0@ != ps@[b].0@),
{
    let n = ps.len();
    let mut i: usize = 0;
    while i < n
        invariant
            n == ps.len(),
            i <= n,
            forall|a: int, b: int| 0 <= a < b < i ==> ps@[a].0@ != ps@[b].0@,
        decreases n - i,
    {
        let mut j: usize = 0;
        while j < i
            invariant
                j <= i,
                forall|a: int| 0 <= a < j ==> ps@[a].0@ != ps@[i as int].0@,
            decreases i - j,
        {
            if ps[j].0 == ps[i].0 {
                return false;
            }
            j += 1;
        }
        i += 1;
    }
    true
}

/// Read a registry document out of a parsed tree: the pairs of its
/// `known_languages` object, each value carried whole, so that a later
/// write puts back exactly what was read. A tree without such an
/// object reads as the empty document; a duplicate name reads as
/// `None`.
#[verifier::loop_isolation(false)]
pub fn read_registry(v: JsonValue) -> (r: Option<RegistryDocument>)
    ensures
        match r {
            Some(d) => d.wf() && registry_entries_of(v.model()) == Some(d.entry_seq()),
            None => registry_entries_of(v.model()) is None,
        },
{
    let ghost vm = v.model();
    let k = String::from_str("known_languages");
    match v {
        JsonValue::Object(mut o) => {
            let ghost om = o@;
            let ghost pm = vm->Object_0;
            let mut i: usize = 0;
            let n = o.len();
            proof {
                assert(pm.skip(0) =~= pm);
            }
            while i < n
                invariant
                    n == o.len(),
                    o@ == om,
                    i <= n,
                    pm.len() == n,
                    forall|j: int| 0 <= j < n ==> pm[j] == (o[j].0@, o[j].1.model()),
                    pairs_get(pm, k@) == pairs_get(pm.skip(i as int), k@),
                decreases n - i,
            {
                if o[i].0 == k {
                    proof {
                        assert(pm.skip(i as int)[0] == pm[i as int]);
                        assert(pairs_get(pm, k@) == Some(pm[i as int].1));
                    }
                    let pair = o.remove(i);
                    let ghost wm = pair.1.model();
                    proof {
                        assert(pair == om[i as int]);
                        assert(wm == pm[i as int].1);
                    }
                    match pair.1 {
                        JsonValue::Object(ps) => {
                            if names_distinct(&ps) {
                                let d = RegistryDocument { entries: ps };
                                proof {
                                    assert(d.entry_seq() =~= wm->Object_0);
                                    assert(distinct_names(d.entry_seq()));
                                    assert(registry_entries_of(vm) == Some(d.entry_seq()));
                                }
                                return Some(d);
                            } else {
                                proof {
                                    let eps = wm->Object_0;
                                    let (a, b) = choose|a: int, b: int|
                                        0 <= a < b < ps@.len() && ps@[a].0@ == ps@[b].0@;
                                    assert(eps[a].0 == eps[b].0);
                                    assert(!distinct_names(eps));
                                }
                                return None;
                            }
                        },
                        _ => {
                            return Some(RegistryDocument::new());
                        },
                    }
                }
                proof {
                    assert(pm.skip(i as int)[0] == pm[i as int]);
                    assert(pm.skip(i as int).drop_first() =~= pm.skip(i as int + 1));
                }
                i += 1;
            }
            proof {
                assert(pm.skip(n as int) =~= Seq::<(Seq<char>, JsonModel)>::empty());
            }
            Some(RegistryDocument::new())
        },
        _ => Some(RegistryDocument::new()),
    }
}

/// The registry tree for an entry sequence: one top-level
/// `known_languages` object holding exactly those pairs, in order.
pub open spec fn registry_model_tree(es: Seq<(Seq<char>, EntryModel)>) -> JsonModel {
    JsonModel::Object(seq![("known_languages"@, JsonModel::Object(es))])
}

/// Render a registry document as a JSON tree: its entries, each carried
/// whole, under one `known_languages` key.
pub fn registry_tree(d: RegistryDocument) -> (t: JsonValue)
    ensures
        t.model() == registry_model_tree(d.entry_seq()),
{
    let ghost es = d.entry_seq();
    let kl = String::from_str("known_languages");
    let inner = JsonValue::Object(d.entries);
    proof {
        assert(inner.model()->Object_0 =~= es);
        assert(inner.model() == JsonModel::Object(es));
    }
    let mut top: Vec<(String, JsonValue)> = Vec::new();
    top.push((kl, inner));
    let t = JsonValue::Object(top);
    proof {
        reveal_with_fuel(JsonValue::model, 3);
        assert(t.model()->Object_0 =~= registry_model_tree(es)->Object_0);
        assert(t.model() == registry_model_tree(es));
    }
    t
}

/// Why one merge call changed nothing: the descriptor or the registry
/// on disk is not JSON, or the registry binds one name twice (no JSON
/// text parsed by this crate yields that; the arm stands as a guard).
#[derive(PartialEq, Eq, Structural, Clone, Copy, Debug)]
pub enum MergeError {
    MetadataSyntax,
    RegistrySyntax,
    RegistryDuplicate,
}

impl MergeError {
    /// A line for the log.
    pub fn describe(&self) -> (m: &'static str)
        ensures
            m@ == match self {
                MergeError::MetadataSyntax => "metadata descriptor is not valid JSON"@,
                MergeError::RegistrySyntax => "registry document is not valid JSON"@,
                MergeError::RegistryDuplicate => "registry document binds a name twice"@,
            },
    {
        match self {
            MergeError::MetadataSyntax => "metadata descriptor is not valid JSON",
            MergeError::RegistrySyntax => "registry document is not valid JSON",
            MergeError::RegistryDuplicate => "registry document binds a name twice",
        }
    }
}

/// The base entries a merge starts from: none where no registry text
/// exists yet, those it holds otherwise.
pub open spec fn spec_base_entries(existing: Option<Seq<char>>) -> Result<
    Seq<(Seq<char>, EntryModel)>,
    MergeError,
> {
    match existing {
        None => Ok(Seq::empty()),
        Some(t) => match json_of(t) {
            None => Err(MergeError::RegistrySyntax),
            Some(m) => match registry_entries_of(m) {
                Some(es) => Ok(es),
                None => Err(MergeError::RegistryDuplicate),
            },
        },
    }
}

/// The text one merge writes, or the error that leaves the registry
/// unchanged.
pub open spec fn spec_merge_text(
    existing: Option<Seq<char>>,
    metadata: Seq<char>,
    artifact: Seq<char>,
) -> Result<Seq<char>, MergeError> {
    match json_of(metadata) {
        None => Err(MergeError::MetadataSyntax),
        Some(mm) => match spec_base_entries(existing) {
            Err(e) => Err(e),
            Ok(es) => Ok(
                json_text_of(
                    registry_model_tree(merged_entries(es, grammar_decls_of(mm), artifact)),
                ),
            ),
        },
    }
}

/// One whole merge, as the merger runs it under its lock: read the
/// registry text (or start empty where none exists), read the
/// descriptor, upsert one entry per declared grammar, all recording
/// `artifact_path`, and render the new registry text.
pub fn merge_registry_text(
    existing: Option<&str>,
    metadata_text: &str,
    artifact_path: &str,
) -> (r: Result<String, MergeError>)
    ensures
        match r {
            Ok(t) => spec_merge_text(
                match existing {
                    Some(s) => Some(s@),
                    None => None,
                },
                metadata_text@,
                artifact_path@,
            ) == Ok::<Seq<char>, MergeError>(t@),
            Err(e) => spec_merge_text(
                match existing {
                    Some(s) => Some(s@),
                    None => None,
                },
                metadata_text@,
                artifact_path@,
            ) == Err::<Seq<char>, MergeError>(e),
        },
{
    let md_tree = match parse_json(metadata_text) {
        Some(v) => v,
        None => {
            return Err(MergeError::MetadataSyntax);
        },
    };
    let md = read_metadata(&md_tree);
    let mut doc = match existing {
        None => RegistryDocument::new(),
        Some(t) => match parse_json(t) {
            None => {
                return Err(MergeError::RegistrySyntax);
            },
            Some(v) => match read_registry(v) {
                Some(d) => d,
                None => {
                    return Err(MergeError::RegistryDuplicate);
                },
            },
        },
    };
    let artifact = artifact_path.to_owned();
    doc.merge(&md, &artifact);
    let tree = registry_tree(doc);
    Ok(render_json(&tree))
}

} // verus!
