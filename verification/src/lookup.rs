//! Grouping raw lookup records into per-headword results: records that
//! share a headword and reading form one group, duplicate definitions
//! (same dictionary and content) are kept once, and each group carries the
//! ruby-text split of its headword.

use vstd::prelude::*;

use crate::api::ApiForm;
use crate::furigana::{calculate_furigana, furigana_parts, parts_model, prefix_len_ok, suffix_len_ok};
use crate::transformer::{clone_tags, str_equal};

verus! {

/// One raw record from dictionary storage, as plain values: the definition
/// content stands here as its serialized text.
pub struct LookupEntry {
    pub headword: String,
    pub reading: String,
    pub dictionary_name: String,
    pub tags: Vec<String>,
    pub content: String,
}

/// One definition within a grouped result.
pub struct ApiDefinition {
    pub dictionary_name: String,
    pub tags: Vec<String>,
    pub content: String,
}

/// All definitions of one headword and reading, with its ruby-text split.
pub struct ApiGroupedResult {
    pub headword: String,
    pub reading: String,
    pub furigana: Vec<(String, String)>,
    pub definitions: Vec<ApiDefinition>,
    pub forms: Vec<ApiForm>,
}

/// Whether a definition of this dictionary and content is already listed.
pub open spec fn def_listed(defs: Seq<ApiDefinition>, dict: Seq<char>, content: Seq<char>) -> bool {
    exists|i: int|
        0 <= i < defs.len() && defs[i].dictionary_name@ == dict && defs[i].content@ == content
}

/// Whether some group carries this headword and reading.
pub open spec fn group_listed(gs: Seq<ApiGroupedResult>, hw: Seq<char>, rd: Seq<char>) -> bool {
    exists|k: int| 0 <= k < gs.len() && gs[k].headword@ == hw && gs[k].reading@ == rd
}

/// Whether a definition matches some entry of this headword and reading.
pub open spec fn def_from_entries(
    entries: Seq<LookupEntry>,
    hw: Seq<char>,
    rd: Seq<char>,
    d: ApiDefinition,
) -> bool {
    exists|e: int|
        0 <= e < entries.len() && entries[e].headword@ == hw && entries[e].reading@ == rd
            && entries[e].dictionary_name@ == d.dictionary_name@ && entries[e].tags.deep_view()
            == d.tags.deep_view() && entries[e].content@ == d.content@
}

/// The entry's own definition stands in the group of its key.
pub open spec fn entry_def_grouped(gs: Seq<ApiGroupedResult>, entry: LookupEntry) -> bool {
    exists|k: int|
        0 <= k < gs.len() && gs[k].headword@ == entry.headword@ && gs[k].reading@ == entry.reading@
            && def_listed(gs[k].definitions@, entry.dictionary_name@, entry.content@)
}

/// A grouped result is well-formed for its entries: its key comes from an
/// entry, its definitions are pairwise distinct, each definition comes from
/// an entry of its key, its single form is its key, and its ruby split is
/// the furigana split of its key.
pub open spec fn group_wf(entries: Seq<LookupEntry>, g: ApiGroupedResult) -> bool {
    &&& g.headword@.len() > 0
    &&& exists|e: int|
        0 <= e < entries.len() && entries[e].headword@ == g.headword@ && entries[e].reading@
            == g.reading@
    &&& forall|i: int, j: int|
        0 <= i < j < g.definitions@.len() ==> !(g.definitions@[i].dictionary_name@
            == g.definitions@[j].dictionary_name@ && g.definitions@[i].content@
            == g.definitions@[j].content@)
    &&& forall|i: int|
        0 <= i < g.definitions@.len() ==> def_from_entries(
            entries,
            g.headword@,
            g.reading@,
            #[trigger] g.definitions@[i],
        )
    &&& g.forms@.len() == 1
    &&& g.forms@[0].headword@ == g.headword@
    &&& g.forms@[0].reading@ == g.reading@
    &&& ((g.reading@.len() == 0 || g.headword@ == g.reading@) ==> g.furigana@.len() == 1
        && g.furigana@[0].0@ == g.headword@ && g.furigana@[0].1@ == Seq::<char>::empty())
    &&& (!(g.reading@.len() == 0 || g.headword@ == g.reading@) ==> exists|cp: int, cs: int|
        prefix_len_ok(g.headword@, g.reading@, cp) && suffix_len_ok(g.headword@, g.reading@, cp, cs)
            && parts_model(g.furigana@) == #[trigger] furigana_parts(
            g.headword@,
            g.reading@,
            cp,
            cs,
        ))
}

/// The index of the group with this headword and reading; the length of
/// `results` when there is none.
fn find_group(results: &Vec<ApiGroupedResult>, hw: &String, rd: &String) -> (r: usize)
    ensures
        r <= results@.len(),
        r < results@.len() ==> results@[r as int].headword@ == hw@ && results@[r as int].reading@
            == rd@,
        r == results@.len() ==> forall|j: int|
            0 <= j < results@.len() ==> !((#[trigger] results@[j]).headword@ == hw@
                && results@[j].reading@ == rd@),
{
    let mut k: usize = 0;
    while k < results.len()
        invariant
            k <= results@.len(),
            forall|j: int|
                0 <= j < k ==> !((#[trigger] results@[j]).headword@ == hw@ && results@[j].reading@
                    == rd@),
        decreases results@.len() - k,
    {
        if str_equal(&results[k].headword, hw) && str_equal(&results[k].reading, rd) {
            return k;
        }
        k = k + 1;
    }
    results.len()
}

/// Whether a definition of this dictionary and content is listed.
fn has_def(defs: &Vec<ApiDefinition>, dict: &String, content: &String) -> (r: bool)
    ensures
        r == def_listed(defs@, dict@, content@),
{
    let mut d: usize = 0;
    while d < defs.len()
        invariant
            d <= defs@.len(),
            forall|i: int|
                0 <= i < d ==> !((#[trigger] defs@[i]).dictionary_name@ == dict@
                    && defs@[i].content@ == content@),
        decreases defs@.len() - d,
    {
        if str_equal(&defs[d].dictionary_name, dict) && str_equal(&defs[d].content, content) {
            return true;
        }
        d = d + 1;
    }
    false
}

/// Groups raw lookup records by headword and reading. Records with an
/// empty headword are dropped; every other record's key appears exactly
/// once; a group holds one definition per distinct dictionary-and-content
/// pair among its records.
pub fn group_lookup_results(entries: &Vec<LookupEntry>) -> (results: Vec<ApiGroupedResult>)
    ensures
        forall|j: int, k: int|
            0 <= j < k < results@.len() ==> !(results@[j].headword@ == results@[k].headword@
                && results@[j].reading@ == results@[k].reading@),
        forall|e: int|
            0 <= e < entries@.len() && (#[trigger] entries@[e]).headword@.len() > 0
                ==> group_listed(results@, entries@[e].headword@, entries@[e].reading@),
        forall|e: int|
            0 <= e < entries@.len() && (#[trigger] entries@[e]).headword@.len() > 0
                ==> entry_def_grouped(results@, entries@[e]),
        forall|k: int| 0 <= k < results@.len() ==> group_wf(entries@, #[trigger] results@[k]),
{
    let mut results: Vec<ApiGroupedResult> = Vec::new();
    let mut e: usize = 0;
    while e < entries.len()
        invariant
            e <= entries@.len(),
            forall|j: int, k: int|
                0 <= j < k < results@.len() ==> !(results@[j].headword@ == results@[k].headword@
                    && results@[j].reading@ == results@[k].reading@),
            forall|x: int|
                0 <= x < e && (#[trigger] entries@[x]).headword@.len() > 0 ==> group_listed(
                    results@,
                    entries@[x].headword@,
                    entries@[x].reading@,
                ),
            forall|x: int|
                0 <= x < e && (#[trigger] entries@[x]).headword@.len() > 0 ==> entry_def_grouped(
                    results@,
                    entries@[x],
                ),
            forall|k: int| 0 <= k < results@.len() ==> group_wf(entries@, #[trigger] results@[k]),
        decreases entries@.len() - e,
    {
        let entry = &entries[e];
        if entry.headword.as_str().is_empty() {
            e = e + 1;
            continue;
        }
        let found = find_group(&results, &entry.headword, &entry.reading);
        let def = ApiDefinition {
            dictionary_name: entry.dictionary_name.clone(),
            tags: clone_tags(&entry.tags),
            content: entry.content.clone(),
        };
        if found < results.len() {
            let ghost old_results = results@;
            let mut grp = results.remove(found);
            let ghost old_grp = grp;
            // Keep the definition only when no equal one is listed.
            let dup = has_def(&grp.definitions, &def.dictionary_name, &def.content);
            if !dup {
                proof {
                    assert(def.dictionary_name@ == entry.dictionary_name@ && def.tags.deep_view()
                        == entry.tags.deep_view() && def.content@ == entry.content@);
                    assert(group_wf(entries@, old_grp));
                }
                grp.definitions.push(def);
                proof {
                    let gd = grp.definitions@;
                    assert(gd.drop_last() =~= old_grp.definitions@);
                    assert(gd.last() == gd[gd.len() - 1]);
                    assert(def_from_entries(
                        entries@,
                        grp.headword@,
                        grp.reading@,
                        gd[gd.len() - 1],
                    )) by {
                        assert(entries@[e as int].headword@ == grp.headword@);
                    }
                    assert(group_wf(entries@, grp));
                }
            }
            results.insert(found, grp);
            proof {
                assert(results@.len() == old_results.len());
                assert(forall|j: int|
                    0 <= j < results@.len() && j != found ==> results@[j] == old_results[j]);
                assert(results@[found as int].headword@ == old_results[found as int].headword@
                    && results@[found as int].reading@ == old_results[found as int].reading@);
                assert(results@[found as int].headword@ == entries@[e as int].headword@);
                assert(group_listed(results@, entries@[e as int].headword@, entries@[e as int].reading@));
                assert(forall|x: int|
                    0 <= x < entries@.len() && group_listed(
                        old_results,
                        entries@[x].headword@,
                        entries@[x].reading@,
                    ) ==> group_listed(results@, entries@[x].headword@, entries@[x].reading@));
                assert(old_grp == old_results[found as int]);
                assert(results@[found as int] == grp);
                assert(def.dictionary_name@ == entries@[e as int].dictionary_name@ && def.content@
                    == entries@[e as int].content@);
                if dup {
                    assert(grp.definitions@ == old_grp.definitions@);
                    assert(def_listed(grp.definitions@, def.dictionary_name@, def.content@));
                } else {
                    assert(grp.definitions@[grp.definitions@.len() - 1] == def);
                    assert(def_listed(grp.definitions@, def.dictionary_name@, def.content@));
                }
                assert(entry_def_grouped(results@, entries@[e as int]));
                assert forall|x: int|
                    0 <= x < entries@.len() && entry_def_grouped(
                        old_results,
                        entries@[x],
                    ) implies entry_def_grouped(results@, entries@[x]) by {
                    let k = choose|k: int|
                        0 <= k < old_results.len() && old_results[k].headword@
                            == entries@[x].headword@ && old_results[k].reading@
                            == entries@[x].reading@ && def_listed(
                            old_results[k].definitions@,
                            entries@[x].dictionary_name@,
                            entries@[x].content@,
                        );
                    if k == found as int {
                        let di = choose|i: int|
                            0 <= i < old_results[k].definitions@.len()
                                && old_results[k].definitions@[i].dictionary_name@
                                == entries@[x].dictionary_name@
                                && old_results[k].definitions@[i].content@ == entries@[x].content@;
                        if !dup {
                            assert(grp.definitions@.drop_last() =~= old_grp.definitions@);
                            assert(grp.definitions@[di] == old_grp.definitions@[di]);
                        }
                        assert(def_listed(
                            results@[k].definitions@,
                            entries@[x].dictionary_name@,
                            entries@[x].content@,
                        ));
                    } else {
                        assert(results@[k] == old_results[k]);
                    }
                }
            }
        } else {
            let furigana = calculate_furigana(entry.headword.as_str(), entry.reading.as_str());
            let mut forms: Vec<ApiForm> = Vec::new();
            forms.push(
                ApiForm { headword: entry.headword.clone(), reading: entry.reading.clone() },
            );
            let mut definitions: Vec<ApiDefinition> = Vec::new();
            definitions.push(def);
            let grp = ApiGroupedResult {
                headword: entry.headword.clone(),
                reading: entry.reading.clone(),
                furigana,
                definitions,
                forms,
            };
            proof {
                assert(grp.definitions@.len() == 1);
                assert(def_from_entries(
                    entries@,
                    grp.headword@,
                    grp.reading@,
                    grp.definitions@[0],
                ));
                assert(group_wf(entries@, grp));
            }
            let ghost old_results = results@;
            results.push(grp);
            proof {
                assert(forall|j: int|
                    0 <= j < old_results.len() ==> results@[j] == old_results[j]);
                assert(results@[old_results.len() as int] == grp);
                assert(grp.headword@ == entries@[e as int].headword@ && grp.reading@
                    == entries@[e as int].reading@);
                assert(group_listed(results@, entries@[e as int].headword@, entries@[e as int].reading@));
                assert(forall|x: int|
                    0 <= x < entries@.len() && group_listed(
                        old_results,
                        entries@[x].headword@,
                        entries@[x].reading@,
                    ) ==> group_listed(results@, entries@[x].headword@, entries@[x].reading@));
                assert(grp.definitions@[0].dictionary_name@ == entries@[e as int].dictionary_name@
                    && grp.definitions@[0].content@ == entries@[e as int].content@);
                assert(def_listed(
                    results@[old_results.len() as int].definitions@,
                    entries@[e as int].dictionary_name@,
                    entries@[e as int].content@,
                ));
                assert(entry_def_grouped(results@, entries@[e as int]));
                assert forall|x: int|
                    0 <= x < entries@.len() && entry_def_grouped(
                        old_results,
                        entries@[x],
                    ) implies entry_def_grouped(results@, entries@[x]) by {
                    let k = choose|k: int|
                        0 <= k < old_results.len() && old_results[k].headword@
                            == entries@[x].headword@ && old_results[k].reading@
                            == entries@[x].reading@ && def_listed(
                            old_results[k].definitions@,
                            entries@[x].dictionary_name@,
                            entries@[x].content@,
                        );
                    assert(results@[k] == old_results[k]);
                }
            }
        }
        e = e + 1;
    }
    results
}

} // verus!
