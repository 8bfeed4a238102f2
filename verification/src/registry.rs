//! The shared registry document and its merge: a mapping from grammar
//! name to the JSON tree recorded for it. The merge binds each declared
//! grammar to a `{path, extension}` tree and carries every other entry
//! unchanged; its result is stated both over the entry sequence and
//! over the map it denotes.

use vstd::prelude::*;
use crate::json::{JsonModel, JsonValue};
use vstd::string::StringExecFns;

verus! {

/// One grammar declaration as the merge sees it: a name and the
/// extension chosen for it (first declared file type, or empty).
pub struct GrammarSpec {
    pub name: Seq<char>,
    pub extension: Seq<char>,
}

/// What the registry records for one name: its whole JSON tree. The
/// merge writes trees of the shape `entry_tree` gives; trees already in
/// the document, of whatever shape, are carried unchanged.
pub type EntryModel = JsonModel;

/// The tree the merge records for one declared grammar: its artifact
/// path and its extension.
pub open spec fn entry_tree(path: Seq<char>, extension: Seq<char>) -> JsonModel {
    JsonModel::Object(
        seq![("path"@, JsonModel::Text(path)), ("extension"@, JsonModel::Text(extension))],
    )
}

/// Whether some entry of the sequence binds the name `n`.
pub open spec fn has_name(es: Seq<(Seq<char>, EntryModel)>, n: Seq<char>) -> bool {
    exists|i: int| 0 <= i < es.len() && es[i].0 == n
}

/// The index at which `n` is bound; meaningful only under
/// `distinct_names`, where the index is unique.
pub open spec fn name_index(es: Seq<(Seq<char>, EntryModel)>, n: Seq<char>) -> int {
    choose|i: int| 0 <= i < es.len() && es[i].0 == n
}

/// No name is bound twice.
pub open spec fn distinct_names(es: Seq<(Seq<char>, EntryModel)>) -> bool {
    forall|i: int, j: int| 0 <= i < j < es.len() ==> es[i].0 != es[j].0
}

/// Upserting one entry: replace the binding in place where the name is
/// already bound, append it otherwise.
pub open spec fn upsert_entries(
    es: Seq<(Seq<char>, EntryModel)>,
    n: Seq<char>,
    e: EntryModel,
) -> Seq<(Seq<char>, EntryModel)> {
    if has_name(es, n) {
        es.update(name_index(es, n), (n, e))
    } else {
        es.push((n, e))
    }
}

/// The entry sequence after merging a batch of declarations, first to
/// last, all recording the same artifact path.
pub open spec fn merged_entries(
    es: Seq<(Seq<char>, EntryModel)>,
    gs: Seq<GrammarSpec>,
    path: Seq<char>,
) -> Seq<(Seq<char>, EntryModel)>
    decreases gs.len(),
{
    if gs.len() == 0 {
        es
    } else {
        merged_entries(
            upsert_entries(es, gs[0].name, entry_tree(path, gs[0].extension)),
            gs.drop_first(),
            path,
        )
    }
}

/// The map an entry sequence denotes; later bindings win.
pub open spec fn assoc_map(es: Seq<(Seq<char>, EntryModel)>) -> Map<Seq<char>, EntryModel>
    decreases es.len(),
{
    if es.len() == 0 {
        Map::empty()
    } else {
        assoc_map(es.drop_last()).insert(es.last().0, es.last().1)
    }
}

/// The map after merging a batch of declarations, first to last.
pub open spec fn merged(
    m: Map<Seq<char>, EntryModel>,
    gs: Seq<GrammarSpec>,
    path: Seq<char>,
) -> Map<Seq<char>, EntryModel>
    decreases gs.len(),
{
    if gs.len() == 0 {
        m
    } else {
        merged(m.insert(gs[0].name, entry_tree(path, gs[0].extension)), gs.drop_first(), path)
    }
}

/// The extension that a batch finally declares for `n`: that of the
/// last declaration named `n`, or `None` where no declaration is.
pub open spec fn decl_ext(gs: Seq<GrammarSpec>, n: Seq<char>) -> Option<Seq<char>>
    decreases gs.len(),
{
    if gs.len() == 0 {
        None
    } else {
        let rest = decl_ext(gs.drop_first(), n);
        if rest is Some {
            rest
        } else if gs[0].name == n {
            Some(gs[0].extension)
        } else {
            None
        }
    }
}

/// A name is bound in the map an entry sequence denotes exactly where
/// some entry records it.
pub proof fn lemma_assoc_map_domain(es: Seq<(Seq<char>, EntryModel)>)
    ensures
        forall|n: Seq<char>| #[trigger] assoc_map(es).dom().contains(n) <==> has_name(es, n),
    decreases es.len(),
{
    if es.len() > 0 {
        lemma_assoc_map_domain(es.drop_last());
        assert(assoc_map(es) == assoc_map(es.drop_last()).insert(es.last().0, es.last().1));
        assert forall|n: Seq<char>| #[trigger] assoc_map(es).dom().contains(n) <==> has_name(
            es,
            n,
        ) by {
            if assoc_map(es).dom().contains(n) {
                if n == es.last().0 {
                    assert(es[es.len() - 1].0 == n);
                } else {
                    assert(assoc_map(es.drop_last()).dom().contains(n));
                    assert(has_name(es.drop_last(), n));
                    let i = choose|i: int|
                        0 <= i < es.drop_last().len() && es.drop_last()[i].0 == n;
                    assert(es[i] == es.drop_last()[i]);
                }
            }
            if has_name(es, n) {
                let i = choose|i: int| 0 <= i < es.len() && es[i].0 == n;
                if i < es.len() - 1 {
                    assert(es.drop_last()[i] == es[i]);
                    assert(has_name(es.drop_last(), n));
                    assert(assoc_map(es.drop_last()).dom().contains(n));
                } else {
                    assert(n == es.last().0);
                }
            }
        }
    }
}

proof fn lemma_assoc_map_update(es: Seq<(Seq<char>, EntryModel)>, i: int, e: EntryModel)
    requires
        distinct_names(es),
        0 <= i < es.len(),
    ensures
        assoc_map(es.update(i, (es[i].0, e))) == assoc_map(es).insert(es[i].0, e),
    decreases es.len(),
{
    let es2 = es.update(i, (es[i].0, e));
    if i == es.len() - 1 {
        assert(es2.drop_last() =~= es.drop_last());
    } else {
        assert(es2.drop_last() =~= es.drop_last().update(i, (es[i].0, e)));
        assert(es.drop_last()[i] == es[i]);
        lemma_assoc_map_update(es.drop_last(), i, e);
        // the final inserts bind different names, so they commute
        assert(es.last().0 != es[i].0);
        assert(assoc_map(es2) =~= assoc_map(es).insert(es[i].0, e));
    }
}

proof fn lemma_upsert(es: Seq<(Seq<char>, EntryModel)>, n: Seq<char>, e: EntryModel)
    requires
        distinct_names(es),
    ensures
        distinct_names(upsert_entries(es, n, e)),
        assoc_map(upsert_entries(es, n, e)) == assoc_map(es).insert(n, e),
{
    if has_name(es, n) {
        let i = name_index(es, n);
        assert(0 <= i < es.len() && es[i].0 == n);
        lemma_assoc_map_update(es, i, e);
    } else {
        let es2 = es.push((n, e));
        assert(es2.drop_last() =~= es);
        assert forall|i: int, j: int| 0 <= i < j < es2.len() implies es2[i].0 != es2[j].0 by {
            if j == es2.len() - 1 {
                assert(!(es[i].0 == n));
            }
        }
    }
}

/// The sequence-level merge denotes the map-level merge: merging a
/// batch into well-formed entries keeps them well-formed, and the map
/// they denote is `merged` of the map they denoted.
pub proof fn lemma_merged_entries(
    es: Seq<(Seq<char>, EntryModel)>,
    gs: Seq<GrammarSpec>,
    path: Seq<char>,
)
    requires
        distinct_names(es),
    ensures
        distinct_names(merged_entries(es, gs, path)),
        assoc_map(merged_entries(es, gs, path)) == merged(assoc_map(es), gs, path),
    decreases gs.len(),
{
    if gs.len() > 0 {
        lemma_upsert(es, gs[0].name, entry_tree(path, gs[0].extension));
        lemma_merged_entries(
            upsert_entries(es, gs[0].name, entry_tree(path, gs[0].extension)),
            gs.drop_first(),
            path,
        );
    }
}

/// Where `merged` binds each name: a name is bound after the merge iff
/// it was bound before or the batch declares it, and its entry is the
/// batch's where the batch declares it, the old one otherwise.
pub proof fn lemma_merged_pointwise(
    m: Map<Seq<char>, EntryModel>,
    gs: Seq<GrammarSpec>,
    path: Seq<char>,
)
    ensures
        forall|n: Seq<char>|
            #[trigger] merged(m, gs, path).dom().contains(n) <==> (m.dom().contains(n)
                || decl_ext(gs, n) is Some),
        forall|n: Seq<char>|
            #[trigger] merged(m, gs, path).dom().contains(n) ==> merged(m, gs, path)[n] == (
            match decl_ext(gs, n) {
                Some(e) => entry_tree(path, e),
                None => m[n],
            }),
    decreases gs.len(),
{
    if gs.len() > 0 {
        let m1 = m.insert(gs[0].name, entry_tree(path, gs[0].extension));
        let rest = gs.drop_first();
        lemma_merged_pointwise(m1, rest, path);
        assert(merged(m, gs, path) == merged(m1, rest, path));
        assert forall|n: Seq<char>|
            #[trigger] merged(m, gs, path).dom().contains(n) <==> (m.dom().contains(n)
                || decl_ext(gs, n) is Some) by {
            assert(merged(m1, rest, path).dom().contains(n) <==> (m1.dom().contains(n)
                || decl_ext(rest, n) is Some));
        }
        assert forall|n: Seq<char>|
            #[trigger] merged(m, gs, path).dom().contains(n) implies merged(m, gs, path)[n] == (
        match decl_ext(gs, n) {
            Some(e) => entry_tree(path, e),
            None => m[n],
        }) by {
            assert(merged(m1, rest, path).dom().contains(n));
            assert(merged(m1, rest, path)[n] == (match decl_ext(rest, n) {
                Some(e) => entry_tree(path, e),
                None => m1[n],
            }));
        }
    }
}

/// A descriptor with no grammar entries merges to a no-op: the
/// registry map is left exactly as it was.
pub proof fn lemma_empty_merge_no_op(m: Map<Seq<char>, EntryModel>, path: Seq<char>)
    ensures
        merged(m, Seq::empty(), path) == m,
{
}

/// Merging the same batch twice leaves the map exactly as one merge
/// does: the second run rebinds every declared name to the entry it
/// already has.
pub proof fn lemma_merge_idempotent(
    m: Map<Seq<char>, EntryModel>,
    gs: Seq<GrammarSpec>,
    path: Seq<char>,
)
    ensures
        merged(merged(m, gs, path), gs, path) == merged(m, gs, path),
{
    let once = merged(m, gs, path);
    lemma_merged_pointwise(m, gs, path);
    lemma_merged_pointwise(once, gs, path);
    assert(merged(once, gs, path) =~= once);
}

/// Two batches that declare no common name merge to the same map in
/// either order: the serialization order of two jobs with distinct
/// grammar names does not matter.
pub proof fn lemma_merge_order_independent(
    m: Map<Seq<char>, EntryModel>,
    gs1: Seq<GrammarSpec>,
    path1: Seq<char>,
    gs2: Seq<GrammarSpec>,
    path2: Seq<char>,
)
    requires
        forall|n: Seq<char>|
            !(#[trigger] decl_ext(gs1, n) is Some && #[trigger] decl_ext(gs2, n) is Some),
    ensures
        merged(merged(m, gs1, path1), gs2, path2) == merged(merged(m, gs2, path2), gs1, path1),
{
    lemma_merged_pointwise(m, gs1, path1);
    lemma_merged_pointwise(m, gs2, path2);
    lemma_merged_pointwise(merged(m, gs1, path1), gs2, path2);
    lemma_merged_pointwise(merged(m, gs2, path2), gs1, path1);
    assert(merged(merged(m, gs1, path1), gs2, path2) =~= merged(
        merged(m, gs2, path2),
        gs1,
        path1,
    ));
}

/// One job's successful merge, with an artifact path and a batch of
/// declarations.
pub struct MergeBatch {
    pub grammars: Seq<GrammarSpec>,
    pub artifact: Seq<char>,
}

/// The map after a whole run's merges, first to last.
pub open spec fn merged_all(
    m: Map<Seq<char>, EntryModel>,
    bs: Seq<MergeBatch>,
) -> Map<Seq<char>, EntryModel>
    decreases bs.len(),
{
    if bs.len() == 0 {
        m
    } else {
        merged_all(merged(m, bs[0].grammars, bs[0].artifact), bs.drop_first())
    }
}

/// No update is lost: when the batches of a run declare pairwise
/// distinct names, every declared name is bound in the final map, to
/// the entry of the one batch that declared it.
pub proof fn lemma_no_lost_updates(
    m: Map<Seq<char>, EntryModel>,
    bs: Seq<MergeBatch>,
)
    requires
        forall|i: int, j: int, n: Seq<char>|
            0 <= i < bs.len() && 0 <= j < bs.len() && i != j ==> !(#[trigger] decl_ext(
                bs[i].grammars,
                n,
            ) is Some && #[trigger] decl_ext(bs[j].grammars, n) is Some),
    ensures
        forall|i: int, n: Seq<char>|
            0 <= i < bs.len() && #[trigger] decl_ext(bs[i].grammars, n) is Some ==> {
                &&& merged_all(m, bs).dom().contains(n)
                &&& merged_all(m, bs)[n] == entry_tree(bs[i].artifact, decl_ext(bs[i].grammars, n)->Some_0)
            },
    decreases bs.len(),
{
    if bs.len() > 0 {
        let m1 = merged(m, bs[0].grammars, bs[0].artifact);
        lemma_merged_pointwise(m, bs[0].grammars, bs[0].artifact);
        assert forall|i: int, j: int, n: Seq<char>|
            0 <= i < bs.drop_first().len() && 0 <= j < bs.drop_first().len() && i != j implies !(
        #[trigger] decl_ext(bs.drop_first()[i].grammars, n) is Some && #[trigger] decl_ext(
            bs.drop_first()[j].grammars,
            n,
        ) is Some) by {
            assert(bs.drop_first()[i] == bs[i + 1]);
            assert(bs.drop_first()[j] == bs[j + 1]);
        }
        lemma_no_lost_updates(m1, bs.drop_first());
        assert forall|i: int, n: Seq<char>|
            0 <= i < bs.len() && #[trigger] decl_ext(bs[i].grammars, n) is Some implies {
            &&& merged_all(m, bs).dom().contains(n)
            &&& merged_all(m, bs)[n] == entry_tree(bs[i].artifact, decl_ext(bs[i].grammars, n)->Some_0)
        } by {
            if i == 0 {
                // no later batch declares n, so every later merge keeps it
                lemma_merges_preserve_foreign(m1, bs.drop_first(), n);
                assert(m1.dom().contains(n));
            } else {
                assert(bs.drop_first()[i - 1] == bs[i]);
            }
        }
    }
}

/// No two batches of a run declare the same name.
pub open spec fn batches_disjoint(bs: Seq<MergeBatch>) -> bool {
    forall|i: int, j: int, n: Seq<char>|
        0 <= i < bs.len() && 0 <= j < bs.len() && i != j ==> !(#[trigger] decl_ext(
            bs[i].grammars,
            n,
        ) is Some && #[trigger] decl_ext(bs[j].grammars, n) is Some)
}

/// The entry a run's batches record for `n`: that of the first batch
/// declaring it. Under `batches_disjoint` at most one batch does, so
/// this does not depend on the order of the batches.
pub open spec fn batches_entry(bs: Seq<MergeBatch>, n: Seq<char>) -> Option<EntryModel>
    decreases bs.len(),
{
    if bs.len() == 0 {
        None
    } else {
        match decl_ext(bs[0].grammars, n) {
            Some(e) => Some(entry_tree(bs[0].artifact, e)),
            None => batches_entry(bs.drop_first(), n),
        }
    }
}

/// Where a whole run's merges bind each name: an undeclared name keeps
/// its old binding, a declared one gets its batch's entry — whatever
/// order the batches merged in.
pub proof fn lemma_merged_all_pointwise(m: Map<Seq<char>, EntryModel>, bs: Seq<MergeBatch>)
    requires
        batches_disjoint(bs),
    ensures
        forall|n: Seq<char>|
            #[trigger] merged_all(m, bs).dom().contains(n) <==> (m.dom().contains(n)
                || batches_entry(bs, n) is Some),
        forall|n: Seq<char>|
            #[trigger] merged_all(m, bs).dom().contains(n) ==> merged_all(m, bs)[n] == (
            match batches_entry(bs, n) {
                Some(e) => e,
                None => m[n],
            }),
    decreases bs.len(),
{
    if bs.len() > 0 {
        let m1 = merged(m, bs[0].grammars, bs[0].artifact);
        let rest = bs.drop_first();
        lemma_merged_pointwise(m, bs[0].grammars, bs[0].artifact);
        assert forall|i: int, j: int, n: Seq<char>|
            0 <= i < rest.len() && 0 <= j < rest.len() && i != j implies !(#[trigger] decl_ext(
            rest[i].grammars,
            n,
        ) is Some && #[trigger] decl_ext(rest[j].grammars, n) is Some) by {
            assert(rest[i] == bs[i + 1]);
            assert(rest[j] == bs[j + 1]);
        }
        lemma_merged_all_pointwise(m1, rest);
        assert forall|n: Seq<char>|
            #[trigger] merged_all(m, bs).dom().contains(n) <==> (m.dom().contains(n)
                || batches_entry(bs, n) is Some) by {
            assert(merged_all(m, bs) == merged_all(m1, rest));
            assert(merged_all(m1, rest).dom().contains(n) <==> (m1.dom().contains(n)
                || batches_entry(rest, n) is Some));
            assert(m1.dom().contains(n) <==> (m.dom().contains(n) || decl_ext(
                bs[0].grammars,
                n,
            ) is Some));
        }
        assert forall|n: Seq<char>|
            #[trigger] merged_all(m, bs).dom().contains(n) implies merged_all(m, bs)[n] == (
        match batches_entry(bs, n) {
            Some(e) => e,
            None => m[n],
        }) by {
            assert(merged_all(m, bs) == merged_all(m1, rest));
            assert(merged_all(m1, rest).dom().contains(n));
            if decl_ext(bs[0].grammars, n) is Some {
                // the first batch declares n; by disjointness no later
                // batch does, so the binding it wrote stays
                assert forall|j: int|
                    0 <= j < rest.len() implies !(#[trigger] decl_ext(
                    rest[j].grammars,
                    n,
                ) is Some) by {
                    assert(rest[j] == bs[j + 1]);
                    assert(!(decl_ext(bs[0].grammars, n) is Some && decl_ext(
                        bs[j + 1].grammars,
                        n,
                    ) is Some));
                }
                lemma_batches_entry_none(rest, n);
                assert(m1.dom().contains(n));
                assert(m1[n] == entry_tree(bs[0].artifact, decl_ext(bs[0].grammars, n)->Some_0));
                assert(merged_all(m1, rest)[n] == m1[n]);
            } else {
                assert(merged_all(m1, rest)[n] == (match batches_entry(rest, n) {
                    Some(e) => e,
                    None => m1[n],
                }));
                if batches_entry(rest, n) is None {
                    assert(m1.dom().contains(n));
                    assert(m1[n] == m[n]);
                }
            }
        }
    }
}

proof fn lemma_batches_entry_none(bs: Seq<MergeBatch>, n: Seq<char>)
    requires
        forall|j: int| 0 <= j < bs.len() ==> !(#[trigger] decl_ext(bs[j].grammars, n) is Some),
    ensures
        batches_entry(bs, n) is None,
    decreases bs.len(),
{
    if bs.len() > 0 {
        assert(!(decl_ext(bs[0].grammars, n) is Some));
        assert forall|j: int|
            0 <= j < bs.drop_first().len() implies !(#[trigger] decl_ext(
            bs.drop_first()[j].grammars,
            n,
        ) is Some) by {
            assert(bs.drop_first()[j] == bs[j + 1]);
        }
        lemma_batches_entry_none(bs.drop_first(), n);
    }
}

/// The run's final map does not depend on merge order: two runs whose
/// batches record the same entry for every name — the same set of
/// successful jobs, however their merges interleaved — leave the same
/// registry map, from any starting map. A run with one worker and a
/// run with many are two such orders.
pub proof fn lemma_run_order_independent(
    m: Map<Seq<char>, EntryModel>,
    bs1: Seq<MergeBatch>,
    bs2: Seq<MergeBatch>,
)
    requires
        batches_disjoint(bs1),
        batches_disjoint(bs2),
        forall|n: Seq<char>| #[trigger] batches_entry(bs1, n) == batches_entry(bs2, n),
    ensures
        merged_all(m, bs1) == merged_all(m, bs2),
{
    lemma_merged_all_pointwise(m, bs1);
    lemma_merged_all_pointwise(m, bs2);
    assert(merged_all(m, bs1) =~= merged_all(m, bs2));
}

/// Merges of batches that do not declare `n` do not move `n`'s binding.
proof fn lemma_merges_preserve_foreign(
    m: Map<Seq<char>, EntryModel>,
    bs: Seq<MergeBatch>,
    n: Seq<char>,
)
    requires
        forall|j: int| 0 <= j < bs.len() ==> !(#[trigger] decl_ext(bs[j].grammars, n) is Some),
    ensures
        merged_all(m, bs).dom().contains(n) <==> m.dom().contains(n),
        m.dom().contains(n) ==> merged_all(m, bs)[n] == m[n],
    decreases bs.len(),
{
    if bs.len() > 0 {
        let m1 = merged(m, bs[0].grammars, bs[0].artifact);
        lemma_merged_pointwise(m, bs[0].grammars, bs[0].artifact);
        assert(decl_ext(bs[0].grammars, n) is None);
        assert forall|j: int|
            0 <= j < bs.drop_first().len() implies !(#[trigger] decl_ext(
            bs.drop_first()[j].grammars,
            n,
        ) is Some) by {
            assert(bs.drop_first()[j] == bs[j + 1]);
        }
        lemma_merges_preserve_foreign(m1, bs.drop_first(), n);
    }
}

/// One grammar declaration read from a metadata descriptor.
pub struct GrammarDecl {
    pub name: String,
    pub extension: String,
}

impl View for GrammarDecl {
    type V = GrammarSpec;

    open spec fn view(&self) -> GrammarSpec {
        GrammarSpec { name: self.name@, extension: self.extension@ }
    }
}

/// A metadata descriptor: the grammars one fetched tree declares.
pub struct MetadataDescriptor {
    pub grammars: Vec<GrammarDecl>,
}

impl View for MetadataDescriptor {
    type V = Seq<GrammarSpec>;

    open spec fn view(&self) -> Seq<GrammarSpec> {
        Seq::new(
            self.grammars@.len(),
            |i: int|
                if 0 <= i < self.grammars@.len() {
                    self.grammars[i]@
                } else {
                    GrammarSpec { name: Seq::empty(), extension: Seq::empty() }
                },
        )
    }
}

/// The registry document held as a sequence of named entries, no name
/// bound twice. An entry's value is its whole JSON tree: entries the
/// merge does not touch are carried exactly as they were read.
pub struct RegistryDocument {
    pub entries: Vec<(String, JsonValue)>,
}

/// The tree recorded for one declared grammar, as a value.
fn make_entry(path: String, extension: String) -> (e: JsonValue)
    ensures
        e.model() == entry_tree(path@, extension@),
{
    let kp = String::from_str("path");
    let ke = String::from_str("extension");
    let mut pairs: Vec<(String, JsonValue)> = Vec::new();
    pairs.push((kp, JsonValue::Text(path)));
    pairs.push((ke, JsonValue::Text(extension)));
    let e = JsonValue::Object(pairs);
    proof {
        reveal_with_fuel(JsonValue::model, 3);
        assert(e.model()->Object_0 =~= entry_tree(path@, extension@)->Object_0);
        assert(e.model() == entry_tree(path@, extension@));
    }
    e
}

impl RegistryDocument {
    /// The entries as a sequence over character sequences.
    pub open spec fn entry_seq(self) -> Seq<(Seq<char>, EntryModel)> {
        Seq::new(
            self.entries@.len(),
            |i: int|
                if 0 <= i < self.entries@.len() {
                    (self.entries[i].0@, self.entries[i].1.model())
                } else {
                    (Seq::empty(), JsonModel::Null)
                },
        )
    }

    /// Well-formed: no name bound twice.
    pub open spec fn wf(self) -> bool {
        distinct_names(self.entry_seq())
    }

    /// The mapping the document denotes.
    pub open spec fn as_map(self) -> Map<Seq<char>, EntryModel> {
        assoc_map(self.entry_seq())
    }

    /// The empty document.
    pub fn new() -> (d: Self)
        ensures
            d.wf(),
            d.entry_seq() == Seq::<(Seq<char>, EntryModel)>::empty(),
            d.as_map() == Map::<Seq<char>, EntryModel>::empty(),
    {
        let d = RegistryDocument { entries: Vec::new() };
        proof {
            assert(d.entry_seq() =~= Seq::<(Seq<char>, EntryModel)>::empty());
        }
        d
    }

    /// Bind `name` to its recorded `{path, extension}` tree, replacing
    /// its entry in place where one exists and appending one otherwise.
    #[verifier::loop_isolation(false)]
    pub fn upsert(&mut self, name: String, path: String, extension: String)
        requires
            old(self).wf(),
        ensures
            final(self).wf(),
            final(self).entry_seq() == upsert_entries(
                old(self).entry_seq(),
                name@,
                entry_tree(path@, extension@),
            ),
            final(self).as_map() == old(self).as_map().insert(
                name@,
                entry_tree(path@, extension@),
            ),
    {
        let ghost es = self.entry_seq();
        proof {
            lemma_upsert(es, name@, entry_tree(path@, extension@));
        }
        let entry = make_entry(path, extension);
        let mut i: usize = 0;
        let n = self.entries.len();
        while i < n
            invariant
                *self == *old(self),
                n == self.entries.len(),
                i <= n,
                es == self.entry_seq(),
                forall|j: int| 0 <= j < i ==> es[j].0 != name@,
            decreases n - i,
        {
            if self.entries[i].0 == name {
                proof {
                    assert(es[i as int].0 == name@);
                    assert(has_name(es, name@));
                    let k = name_index(es, name@);
                    assert(0 <= k < es.len() && es[k].0 == name@);
                    assert(distinct_names(es));
                    if k < i as int {
                        assert(es[k].0 != es[i as int].0);
                    } else if k > i as int {
                        assert(es[i as int].0 != es[k].0);
                    }
                    assert(k == i as int);
                }
                self.entries[i] = (name, entry);
                proof {
                    assert(self.entry_seq() =~= es.update(
                        i as int,
                        (name@, entry_tree(path@, extension@)),
                    ));
                }
                return ;
            }
            i += 1;
        }
        proof {
            assert(!has_name(es, name@));
        }
        self.entries.push((name, entry));
        proof {
            assert(self.entry_seq() =~= es.push((name@, entry_tree(path@, extension@))));
        }
    }

    /// Merge one descriptor: upsert one entry per declared grammar, in
    /// declaration order, all recording `artifact_path`.
    #[verifier::loop_isolation(false)]
    pub fn merge(&mut self, md: &MetadataDescriptor, artifact_path: &String)
        requires
            old(self).wf(),
        ensures
            final(self).wf(),
            final(self).entry_seq() == merged_entries(old(self).entry_seq(), md@, artifact_path@),
            final(self).as_map() == merged(old(self).as_map(), md@, artifact_path@),
    {
        let ghost es0 = self.entry_seq();
        let ghost gs = md@;
        proof {
            lemma_merged_entries(es0, gs, artifact_path@);
            assert(gs.skip(0) =~= gs);
        }
        let mut i: usize = 0;
        let n = md.grammars.len();
        while i < n
            invariant
                self.wf(),
                n == md.grammars.len(),
                gs == md@,
                i <= n,
                distinct_names(es0),
                merged_entries(es0, gs, artifact_path@) == merged_entries(
                    self.entry_seq(),
                    gs.skip(i as int),
                    artifact_path@,
                ),
            decreases n - i,
        {
            let g = &md.grammars[i];
            let ghost before = self.entry_seq();
            self.upsert(g.name.clone(), artifact_path.clone(), g.extension.clone());
            proof {
                assert(gs.skip(i as int)[0] == gs[i as int]);
                assert(gs[i as int] == g@);
                assert(gs.skip(i as int).drop_first() =~= gs.skip(i as int + 1));
                assert(merged_entries(before, gs.skip(i as int), artifact_path@)
                    == merged_entries(self.entry_seq(), gs.skip(i as int + 1), artifact_path@));
            }
            i += 1;
        }
        proof {
            assert(gs.skip(n as int) =~= Seq::<GrammarSpec>::empty());
        }
    }
}

} // verus!

