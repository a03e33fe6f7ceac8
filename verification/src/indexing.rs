//! The steps of building an index: entering one output into the tables, and
//! keeping count of the outputs that nothing has accounted for yet.

use crate::coverage::{reached_within, remaining_within};
use crate::error::ManifestError;
use crate::graph::{
    accounts_for, bundle_list, entry_listing, has_record, imports_of, is_preload_of,
    is_source_map, occurrences, preload_roots, repeated, yields,
};
use crate::manifest::{import_paths, texts, Import, Manifest, Output};
use crate::tables::{copy_paths, list_at, list_under, listed_under};
use crate::text::str_ends_with;
use crate::walk::collect_preloads;
use vstd::hash_map::StringHashMap;
use vstd::hash_set::StringHashSet;
use vstd::prelude::*;

verus! {

/// Enters one entry output into the tables: the output, its style bundle and
/// the outputs among its preloads under its entry point, and its preloads
/// under its own path. Everything it accounts for is struck from
/// `remaining`.
pub(crate) fn index_entry(
    manifest: &Manifest,
    output_path: &String,
    record: &Output,
    entry_point: &String,
    input_to_outputs: &mut StringHashMap<Vec<String>>,
    output_to_preloads: &mut StringHashMap<Vec<String>>,
    remaining: &mut StringHashSet,
) -> (result: Result<(), ManifestError>)
    requires
        manifest.wf(),
        manifest@.contains_key(output_path@),
        record@ == manifest@[output_path@],
        record@.entry_point == Some(entry_point@),
    ensures
        match result {
            Ok(_) => {
                &&& record@.css_bundle matches Some(bundle) ==> manifest@.contains_key(bundle)
                &&& final(input_to_outputs)@.dom() == old(input_to_outputs)@.dom().insert(
                    entry_point@,
                )
                &&& forall|other: Seq<char>|
                    other != entry_point@ && old(input_to_outputs)@.contains_key(other)
                        ==> #[trigger] final(input_to_outputs)@[other] == old(
                        input_to_outputs,
                    )@[other]
                &&& listed_under(final(input_to_outputs)@, entry_point@) == listed_under(
                    old(input_to_outputs)@,
                    entry_point@,
                ).union(Set::new(|path: Seq<char>| yields(manifest@, output_path@, path)))
                &&& list_at(final(input_to_outputs)@, entry_point@) == list_at(
                    old(input_to_outputs)@,
                    entry_point@,
                ) + entry_listing(
                    manifest@,
                    output_path@,
                    texts(final(output_to_preloads)@[output_path@]@),
                )
                &&& final(output_to_preloads)@.dom() == old(output_to_preloads)@.dom().insert(
                    output_path@,
                )
                &&& forall|other: Seq<char>|
                    other != output_path@ && old(output_to_preloads)@.contains_key(other)
                        ==> #[trigger] final(output_to_preloads)@[other] == old(
                        output_to_preloads,
                    )@[other]
                &&& texts(final(output_to_preloads)@[output_path@]@).no_duplicates()
                &&& texts(final(output_to_preloads)@[output_path@]@).to_set() == Set::new(
                    |path: Seq<char>| is_preload_of(manifest@, output_path@, path),
                )
                &&& final(remaining)@ == old(remaining)@.difference(
                    Set::new(|path: Seq<char>| accounts_for(manifest@, output_path@, path)),
                )
            },
            Err(ManifestError::CssBundleNotFound(bundle)) => {
                &&& record@.css_bundle == Some(bundle@)
                &&& !manifest@.contains_key(bundle@)
            },
            Err(_) => false,
        },
{
    let ghost listed_before = listed_under(input_to_outputs@, entry_point@);
    let ghost list_before = list_at(input_to_outputs@, entry_point@);
    let ghost tables_before = (input_to_outputs@, output_to_preloads@);
    let ghost remaining_before = remaining@;
    let mut outputs = match input_to_outputs.get(entry_point.as_str()) {
        Some(found) => copy_paths(found),
        None => Vec::new(),
    };
    proof {
        assert(texts(outputs@) =~= list_before);
        assert(texts(outputs@).to_set() =~= listed_before);
        texts(outputs@).lemma_push_to_set_commute(output_path@);
    }
    let ghost shorter = outputs@;
    outputs.push(output_path.clone());
    remaining.remove(output_path.as_str());
    let ghost own = Set::new(
        |path: Seq<char>| path == output_path@ || record@.css_bundle == Some(path),
    );
    proof {
        assert(texts(outputs@) =~= texts(shorter).push(output_path@));
        assert(texts(outputs@).to_set() == listed_before.insert(output_path@));
    }
    let none: Vec<Import> = Vec::new();
    let bundled: &Vec<Import> = match &record.css_bundle {
        Some(bundle) => {
            match manifest.get(bundle.as_str()) {
                Some(bundle_record) => {
                    let ghost shorter = outputs@;
                    proof {
                        texts(outputs@).lemma_push_to_set_commute(bundle@);
                    }
                    outputs.push(bundle.clone());
                    remaining.remove(bundle.as_str());
                    proof {
                        assert(texts(outputs@) =~= texts(shorter).push(bundle@));
                        assert(texts(outputs@) =~= list_before + seq![output_path@] + bundle_list(
                            record@.css_bundle,
                        ));
                        assert(texts(outputs@).to_set() =~= listed_before.union(own));
                        assert(remaining@ =~= remaining_before.difference(own));
                        assert(import_paths(bundle_record.imports@) == imports_of(
                            manifest@,
                            bundle@,
                        ));
                    }
                    &bundle_record.imports
                },
                None => {
                    return Err(ManifestError::CssBundleNotFound(bundle.clone()));
                },
            }
        },
        None => {
            proof {
                assert(import_paths(none@) =~= Seq::<Seq<char>>::empty());
                assert(texts(outputs@) =~= list_before + seq![output_path@] + bundle_list(
                    record@.css_bundle,
                ));
                assert(texts(outputs@).to_set() =~= listed_before.union(own));
                assert(remaining@ =~= remaining_before.difference(own));
            }
            &none
        },
    };
    let ghost roots = import_paths(bundled@) + import_paths(record.imports@);
    let ghost direct = texts(outputs@);
    let ghost remaining_direct = remaining@;
    proof {
        assert(roots == preload_roots(manifest@, manifest@[output_path@]));
        assert(direct == list_before + seq![output_path@] + bundle_list(record@.css_bundle));
        assert(direct.to_set() == listed_before.union(own));
        assert(remaining@ == remaining_before.difference(own));
    }
    let preloads = collect_preloads(manifest, bundled, &record.imports, &mut outputs, remaining);
    proof {
        let walked = texts(preloads@);
        let kept = walked.filter(has_record(manifest@));
        let produced = Set::new(|path: Seq<char>| yields(manifest@, output_path@, path));
        vstd::seq_lib::seq_to_set_distributes_over_add(direct, kept);
        assert forall|path: Seq<char>| kept.to_set().contains(path) <==> walked.contains(path)
            && manifest@.contains_key(path) by {
            if kept.contains(path) {
                walked.lemma_filter_contains_rev(has_record(manifest@), path);
            }
            if walked.contains(path) && manifest@.contains_key(path) {
                let i = choose|i: int| 0 <= i < walked.len() && walked[i] == path;
                walked.lemma_filter_contains(has_record(manifest@), i);
            }
        }
        assert(texts(outputs@).to_set() == direct.to_set().union(kept.to_set()));
        assert forall|path: Seq<char>| #[trigger]
            produced.contains(path) <==> own.contains(path) || kept.to_set().contains(path) by {
            assert(kept.to_set().contains(path) <==> walked.contains(path)
                && manifest@.contains_key(path));
        }
        assert(texts(outputs@).to_set() =~= listed_before.union(produced));
        assert(remaining@ =~= remaining_before.difference(
            Set::new(|path: Seq<char>| accounts_for(manifest@, output_path@, path)),
        ));
        assert(walked.to_set() =~= Set::new(
            |path: Seq<char>| is_preload_of(manifest@, output_path@, path),
        ));
        assert(texts(outputs@) =~= list_before + entry_listing(manifest@, output_path@, walked));
    }
    input_to_outputs.insert(entry_point.clone(), outputs);
    output_to_preloads.insert(output_path.clone(), preloads);
    proof {
        assert(input_to_outputs@.dom() =~= tables_before.0.dom().insert(entry_point@));
        assert(output_to_preloads@.dom() =~= tables_before.1.dom().insert(output_path@));
    }
    Ok(())
}

/// Enters one static output into the table, under each of its sources, and
/// strikes it from `remaining` if it has a source.
pub(crate) fn index_static(
    output_path: &String,
    record: &Output,
    static_paths: &mut StringHashMap<Vec<String>>,
    remaining: &mut StringHashSet,
)
    ensures
        final(static_paths)@.dom() == old(static_paths)@.dom().union(record@.inputs.to_set()),
        forall|input: Seq<char>|
            old(static_paths)@.contains_key(input) && !record@.inputs.contains(input)
                ==> #[trigger] final(static_paths)@[input] == old(static_paths)@[input],
        forall|input: Seq<char>|
            record@.inputs.contains(input) ==> #[trigger] listed_under(
                final(static_paths)@,
                input,
            ) == listed_under(old(static_paths)@, input).insert(output_path@),
        forall|input: Seq<char>| #[trigger]
            list_at(final(static_paths)@, input) == list_at(old(static_paths)@, input)
                + repeated(output_path@, occurrences(record@.inputs, input)),
        final(remaining)@ == if record@.inputs.len() > 0 {
            old(remaining)@.remove(output_path@)
        } else {
            old(remaining)@
        },
{
    let ghost before = static_paths@;
    let ghost remaining_before = remaining@;
    let ghost sources = record@.inputs;
    let mut i: usize = 0;
    proof {
        assert(sources.take(0).to_set() =~= Set::<Seq<char>>::empty());
        assert(static_paths@.dom() =~= before.dom().union(sources.take(0).to_set()));
        assert forall|input: Seq<char>| #[trigger]
            list_at(static_paths@, input) == list_at(before, input) + repeated(
                output_path@,
                occurrences(sources.take(0), input),
            ) by {
            assert(list_at(before, input) + repeated(output_path@, 0) =~= list_at(before, input));
        }
    }
    while i < record.inputs.len()
        invariant
            i <= record.inputs@.len(),
            sources == record@.inputs,
            sources.len() == record.inputs@.len(),
            static_paths@.dom() == before.dom().union(sources.take(i as int).to_set()),
            forall|input: Seq<char>|
                before.contains_key(input) && !sources.take(i as int).contains(input)
                    ==> #[trigger] static_paths@[input] == before[input],
            forall|input: Seq<char>|
                sources.take(i as int).contains(input) ==> #[trigger] listed_under(
                    static_paths@,
                    input,
                ) == listed_under(before, input).insert(output_path@),
            forall|input: Seq<char>| #[trigger]
                list_at(static_paths@, input) == list_at(before, input) + repeated(
                    output_path@,
                    occurrences(sources.take(i as int), input),
                ),
            remaining@ == if i > 0 {
                remaining_before.remove(output_path@)
            } else {
                remaining_before
            },
        decreases record.inputs@.len() - i,
    {
        let ghost earlier = static_paths@;
        let ghost taken = sources.take(i as int);
        let source = &record.inputs[i].0;
        remaining.remove(output_path.as_str());
        list_under(static_paths, source, output_path.clone());
        proof {
            let next = sources.take(i + 1);
            assert(next =~= taken.push(source@));
            taken.lemma_push_to_set_commute(source@);
            assert forall|input: Seq<char>| #[trigger]
                list_at(static_paths@, input) == list_at(before, input) + repeated(
                    output_path@,
                    occurrences(next, input),
                ) by {
                lemma_one_more_source(taken, source@, input, output_path@);
                if input != source@ {
                    if earlier.contains_key(input) {
                        assert(static_paths@.dom().contains(input));
                        assert(static_paths@[input] == earlier[input]);
                    } else {
                        assert(!static_paths@.dom().contains(input));
                    }
                    assert(list_at(static_paths@, input) == list_at(earlier, input));
                } else {
                    assert(list_at(static_paths@, input) =~= list_at(before, input) + repeated(
                        output_path@,
                        occurrences(next, input),
                    ));
                }
            }
            assert(static_paths@.dom() =~= before.dom().union(next.to_set()));
            assert(remaining@ =~= remaining_before.remove(output_path@));
            assert forall|input: Seq<char>|
                before.contains_key(input) && !next.contains(
                    input,
                ) implies #[trigger] static_paths@[input]
                == before[input] by {
                assert(next.to_set().contains(source@));
                assert(!taken.contains(input)) by {
                    if taken.contains(input) {
                        assert(taken.to_set().contains(input));
                        assert(next.to_set().contains(input));
                    }
                }
                assert(earlier[input] == before[input]);
            }
            assert forall|input: Seq<char>| next.contains(input) implies #[trigger] listed_under(
                static_paths@,
                input,
            ) == listed_under(before, input).insert(output_path@) by {
                assert(next.to_set().contains(input));
                let wanted = listed_under(before, input).insert(output_path@);
                if input == source@ {
                    assert(listed_under(static_paths@, input) == listed_under(
                        earlier,
                        input,
                    ).insert(output_path@));
                    if taken.contains(input) {
                        assert(listed_under(earlier, input) == wanted);
                        assert(wanted.insert(output_path@) =~= wanted);
                    } else {
                        assert(!taken.to_set().contains(input));
                        if before.contains_key(input) {
                            assert(earlier.dom().contains(input));
                            assert(earlier[input] == before[input]);
                        } else {
                            assert(!earlier.dom().contains(input));
                        }
                        assert(listed_under(earlier, input) == listed_under(before, input));
                    }
                } else {
                    assert(taken.to_set().contains(input));
                    assert(taken.contains(input));
                    assert(earlier.dom().contains(input));
                    assert(static_paths@.dom().contains(input));
                    assert(static_paths@[input] == earlier[input]);
                    assert(listed_under(static_paths@, input) == listed_under(earlier, input));
                }
            }
        }
        i = i + 1;
    }
    proof {
        assert(sources.take(i as int) =~= sources);
    }
}

/// One more source makes one more occurrence if it is the source counted,
/// and none otherwise.
proof fn lemma_one_more_source(
    taken: Seq<Seq<char>>,
    source: Seq<char>,
    input: Seq<char>,
    output: Seq<char>,
)
    ensures
        occurrences(taken.push(source), input) == if source == input {
            occurrences(taken, input) + 1
        } else {
            occurrences(taken, input)
        },
        repeated(output, occurrences(taken, input) + 1) == repeated(
            output,
            occurrences(taken, input),
        ).push(output),
{
    assert(taken.push(source).drop_last() =~= taken);
    assert(repeated(output, occurrences(taken, input) + 1) =~= repeated(
        output,
        occurrences(taken, input),
    ).push(output));
}

/// The outputs of the manifest that are no source maps.
pub(crate) fn outputs_to_reach(manifest: &Manifest) -> (remaining: StringHashSet)
    requires
        manifest.wf(),
    ensures
        remaining_within(manifest@, Set::empty(), remaining@),
{
    let mut remaining = StringHashSet::new();
    let mut i: usize = 0;
    proof {
        assert(remaining@ =~= Set::new(
            |path: Seq<char>| manifest.paths().take(0).contains(path) && !is_source_map(path),
        ));
    }
    while i < manifest.len()
        invariant
            i <= manifest.paths().len(),
            remaining@ == Set::new(
                |path: Seq<char>|
                    manifest.paths().take(i as int).contains(path) && !is_source_map(path),
            ),
        decreases manifest.paths().len() - i,
    {
        let path = manifest.path_at(i);
        let ghost taken = manifest.paths().take(i as int);
        proof {
            assert(manifest.paths().take(i + 1) =~= taken.push(path@));
            assert forall|other: Seq<char>|
                taken.push(path@).contains(other) <==> taken.contains(other) || other == path@ by {
                vstd::seq_lib::lemma_seq_contains_after_push(taken, path@, other);
            }
        }
        if !str_ends_with(path.as_str(), ".map") {
            remaining.insert(path.clone());
        }
        i = i + 1;
        proof {
            assert(remaining@ =~= Set::new(
                |other: Seq<char>|
                    manifest.paths().take(i as int).contains(other) && !is_source_map(other),
            ));
        }
    }
    proof {
        manifest.lemma_paths();
        assert(manifest.paths().take(i as int) =~= manifest.paths());
        assert(remaining@ =~= Set::new(
            |path: Seq<char>|
                manifest@.contains_key(path) && !is_source_map(path) && !reached_within(
                    manifest@,
                    Set::empty(),
                    path,
                ),
        ));
    }
    remaining
}

/// The predicate that holds of the members of `remaining`.
pub(crate) open spec fn held_by(remaining: Set<Seq<char>>) -> spec_fn(Seq<char>) -> bool {
    |path: Seq<char>| remaining.contains(path)
}

/// Filters that agree on every path of a list keep the same paths of it.
pub(crate) proof fn lemma_filters_agree(
    paths: Seq<Seq<char>>,
    first: spec_fn(Seq<char>) -> bool,
    second: spec_fn(Seq<char>) -> bool,
)
    requires
        forall|i: int| 0 <= i < paths.len() ==> first(#[trigger] paths[i]) == second(paths[i]),
    ensures
        paths.filter(first) == paths.filter(second),
    decreases paths.len(),
{
    reveal(Seq::filter);
    if paths.len() > 0 {
        let rest = paths.drop_last();
        assert forall|i: int| 0 <= i < rest.len() implies first(#[trigger] rest[i]) == second(
            rest[i],
        ) by {
            assert(rest[i] == paths[i]);
        }
        lemma_filters_agree(rest, first, second);
        assert(paths[paths.len() - 1] == paths.last());
    }
}

/// The paths of the manifest that are still in `remaining`, in the
/// manifest's order.
pub(crate) fn paths_left(manifest: &Manifest, remaining: &StringHashSet) -> (left: Vec<String>)
    requires
        manifest.wf(),
        forall|path: Seq<char>| remaining@.contains(path) ==> manifest@.contains_key(path),
    ensures
        texts(left@).no_duplicates(),
        texts(left@).to_set() == remaining@,
        texts(left@) == manifest.paths().filter(held_by(remaining@)),
{
    let mut left: Vec<String> = Vec::new();
    let mut i: usize = 0;
    proof {
        manifest.lemma_paths();
        assert(texts(left@).to_set() =~= remaining@.intersect(manifest.paths().take(0).to_set()));
        reveal(Seq::filter);
        assert(texts(left@) =~= manifest.paths().take(0).filter(held_by(remaining@)));
    }
    while i < manifest.len()
        invariant
            i <= manifest.paths().len(),
            manifest.paths().no_duplicates(),
            texts(left@).no_duplicates(),
            texts(left@).to_set() == remaining@.intersect(
                manifest.paths().take(i as int).to_set(),
            ),
            texts(left@) == manifest.paths().take(i as int).filter(held_by(remaining@)),
        decreases manifest.paths().len() - i,
    {
        let path = manifest.path_at(i);
        let ghost taken = manifest.paths().take(i as int);
        let ghost shorter = left@;
        proof {
            assert(manifest.paths().take(i + 1) =~= taken.push(path@));
            taken.lemma_push_to_set_commute(path@);
            taken.lemma_filter_push(path@, held_by(remaining@));
            assert(!taken.contains(path@)) by {
                if taken.contains(path@) {
                    let j = choose|j: int| 0 <= j < taken.len() && taken[j] == path@;
                    assert(manifest.paths()[j] == manifest.paths()[i as int]);
                }
            }
        }
        if remaining.contains(path.as_str()) {
            left.push(path.clone());
            proof {
                assert(texts(left@) =~= texts(shorter).push(path@));
                texts(shorter).lemma_push_to_set_commute(path@);
                assert(!texts(shorter).to_set().contains(path@));
                assert forall|a: int, b: int|
                    0 <= a < texts(left@).len() && 0 <= b < texts(left@).len() && a
                        != b implies texts(left@)[a] != texts(left@)[b] by {
                    if a < shorter.len() {
                        assert(texts(shorter).contains(texts(shorter)[a]));
                    }
                    if b < shorter.len() {
                        assert(texts(shorter).contains(texts(shorter)[b]));
                    }
                }
            }
        }
        i = i + 1;
        proof {
            assert(texts(left@).to_set() =~= remaining@.intersect(
                manifest.paths().take(i as int).to_set(),
            ));
        }
    }
    proof {
        assert(manifest.paths().take(i as int) =~= manifest.paths());
        assert(texts(left@).to_set() =~= remaining@);
    }
    left
}

/// A copy of every path of the manifest.
pub(crate) fn all_paths(manifest: &Manifest) -> (paths: Vec<String>)
    requires
        manifest.wf(),
    ensures
        texts(paths@).to_set() == manifest@.dom(),
{
    let mut paths: Vec<String> = Vec::new();
    let mut i: usize = 0;
    while i < manifest.len()
        invariant
            i <= manifest.paths().len(),
            texts(paths@) == manifest.paths().take(i as int),
        decreases manifest.paths().len() - i,
    {
        let ghost shorter = paths@;
        let path = manifest.path_at(i).clone();
        paths.push(path);
        i = i + 1;
        proof {
            assert(texts(paths@) =~= texts(shorter).push(path@));
            assert(manifest.paths().take(i as int) =~= manifest.paths().take(i - 1).push(path@));
        }
    }
    proof {
        manifest.lemma_paths();
        assert(manifest.paths().take(i as int) =~= manifest.paths());
        assert(texts(paths@).to_set() =~= manifest@.dom());
    }
    paths
}

} // verus!
