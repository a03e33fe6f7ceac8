//! What the tables hold while the index is being built: after any number of
//! outputs, exactly what those outputs call for.

use crate::graph::{
    accounts_for, entry_listing, is_entry, is_entry_for, is_entry_point, is_missing_bundle,
    is_orphan, is_output_of, is_preload_of, is_reached, is_source_map, is_static,
    is_static_input, is_static_path_of, names_bundle, occurrences, outputs_listing, produces,
    repeated, statics_listing, yields,
};
use crate::manifest::{texts, ManifestView};
use crate::tables::{list_at, listed_under, lists};
use vstd::prelude::*;

verus! {

/// Whether an output among `done` was built from the entry point `input`.
pub(crate) open spec fn entry_point_within(
    manifest: ManifestView,
    done: Set<Seq<char>>,
    input: Seq<char>,
) -> bool {
    exists|output: Seq<char>|
        done.contains(output) && #[trigger] is_entry_for(manifest, output, input)
}

/// Whether an output among `done` lists `path` for the entry point `input`.
pub(crate) open spec fn output_within(
    manifest: ManifestView,
    done: Set<Seq<char>>,
    input: Seq<char>,
    path: Seq<char>,
) -> bool {
    exists|output: Seq<char>|
        done.contains(output) && #[trigger] produces(manifest, output, input, path)
}

/// Whether `path` is a static output among `done` that was made from `input`.
pub(crate) open spec fn static_within(
    manifest: ManifestView,
    done: Set<Seq<char>>,
    input: Seq<char>,
    path: Seq<char>,
) -> bool {
    done.contains(path) && is_static_path_of(manifest, input, path)
}

/// Whether a static output among `done` was made from `input`.
pub(crate) open spec fn static_input_within(
    manifest: ManifestView,
    done: Set<Seq<char>>,
    input: Seq<char>,
) -> bool {
    exists|path: Seq<char>| #[trigger] static_within(manifest, done, input, path)
}

/// Whether an output among `done` accounts for `path`.
pub(crate) open spec fn reached_within(
    manifest: ManifestView,
    done: Set<Seq<char>>,
    path: Seq<char>,
) -> bool {
    exists|output: Seq<char>|
        done.contains(output) && #[trigger] accounts_for(manifest, output, path)
}

/// Whether every style bundle named by an output among `done` is an output.
pub(crate) open spec fn bundles_found(manifest: ManifestView, done: Set<Seq<char>>) -> bool {
    forall|output: Seq<char>, bundle: Seq<char>|
        done.contains(output) && #[trigger] names_bundle(manifest, output, bundle)
            ==> manifest.contains_key(bundle)
}

/// Whether the outputs of the manifest that no source map names and that no
/// output among `done` accounts for are exactly `remaining`.
pub(crate) open spec fn remaining_within(
    manifest: ManifestView,
    done: Set<Seq<char>>,
    remaining: Set<Seq<char>>,
) -> bool {
    remaining == Set::new(
        |path: Seq<char>|
            manifest.contains_key(path) && !is_source_map(path) && !reached_within(
                manifest,
                done,
                path,
            ),
    )
}

/// Whether the table of outputs by entry point holds what the outputs among
/// `done` call for.
pub(crate) open spec fn outputs_cover(
    manifest: ManifestView,
    done: Set<Seq<char>>,
    table: Map<Seq<char>, Vec<String>>,
) -> bool {
    &&& table.dom() == Set::new(|input: Seq<char>| entry_point_within(manifest, done, input))
    &&& forall|input: Seq<char>| #[trigger]
        table.contains_key(input) ==> listed_under(table, input) == Set::new(
            |path: Seq<char>| output_within(manifest, done, input, path),
        )
}

/// Whether the table of preloads by entry output holds what the outputs
/// among `done` call for.
pub(crate) open spec fn preloads_cover(
    manifest: ManifestView,
    done: Set<Seq<char>>,
    table: Map<Seq<char>, Vec<String>>,
) -> bool {
    &&& table.dom() == Set::new(
        |output: Seq<char>| done.contains(output) && is_entry(manifest, output),
    )
    &&& forall|output: Seq<char>| #[trigger]
        table.contains_key(output) ==> {
            &&& texts(table[output]@).no_duplicates()
            &&& texts(table[output]@).to_set() == Set::new(
                |path: Seq<char>| is_preload_of(manifest, output, path),
            )
        }
}

/// Whether the table of static outputs by source holds what the outputs
/// among `done` call for.
pub(crate) open spec fn statics_cover(
    manifest: ManifestView,
    done: Set<Seq<char>>,
    table: Map<Seq<char>, Vec<String>>,
) -> bool {
    &&& table.dom() == Set::new(|input: Seq<char>| static_input_within(manifest, done, input))
    &&& forall|input: Seq<char>| #[trigger]
        table.contains_key(input) ==> listed_under(table, input) == Set::new(
            |path: Seq<char>| static_within(manifest, done, input, path),
        )
}

pub(crate) proof fn lemma_entry_outputs(
    manifest: ManifestView,
    done: Set<Seq<char>>,
    output: Seq<char>,
    input: Seq<char>,
    before: Map<Seq<char>, Vec<String>>,
    after: Map<Seq<char>, Vec<String>>,
)
    requires
        outputs_cover(manifest, done, before),
        is_entry_for(manifest, output, input),
        after.dom() == before.dom().insert(input),
        forall|other: Seq<char>|
            other != input && before.contains_key(other) ==> #[trigger] after[other]
                == before[other],
        listed_under(after, input) == listed_under(before, input).union(
            Set::new(|path: Seq<char>| yields(manifest, output, path)),
        ),
    ensures
        outputs_cover(manifest, done.insert(output), after),
{
    let more = done.insert(output);
    assert forall|other: Seq<char>|
        entry_point_within(manifest, more, other) <==> entry_point_within(manifest, done, other)
            || other == input by {
        if entry_point_within(manifest, more, other) {
            let by = choose|by: Seq<char>|
                more.contains(by) && #[trigger] is_entry_for(manifest, by, other);
            if by != output {
                assert(done.contains(by));
            }
        }
        if entry_point_within(manifest, done, other) {
            let by = choose|by: Seq<char>|
                done.contains(by) && #[trigger] is_entry_for(manifest, by, other);
            assert(more.contains(by));
        }
        if other == input {
            assert(more.contains(output) && is_entry_for(manifest, output, other));
        }
    }
    assert(after.dom() =~= Set::new(
        |other: Seq<char>| entry_point_within(manifest, more, other),
    ));
    assert forall|other: Seq<char>| #[trigger] after.contains_key(other) implies listed_under(
        after,
        other,
    ) == Set::new(|path: Seq<char>| output_within(manifest, more, other, path)) by {
        assert forall|path: Seq<char>|
            output_within(manifest, more, other, path) <==> output_within(
                manifest,
                done,
                other,
                path,
            ) || (other == input && yields(manifest, output, path)) by {
            if output_within(manifest, more, other, path) {
                let by = choose|by: Seq<char>|
                    more.contains(by) && #[trigger] produces(manifest, by, other, path);
                if by != output {
                    assert(done.contains(by));
                }
            }
            if output_within(manifest, done, other, path) {
                let by = choose|by: Seq<char>|
                    done.contains(by) && #[trigger] produces(manifest, by, other, path);
                assert(more.contains(by));
            }
            if other == input && yields(manifest, output, path) {
                assert(more.contains(output) && produces(manifest, output, other, path));
            }
        }
        if before.contains_key(other) {
            assert(before.dom().contains(other));
        } else {
            assert(!before.dom().contains(other));
            assert(!entry_point_within(manifest, done, other));
            assert forall|path: Seq<char>| !output_within(manifest, done, other, path) by {
                if output_within(manifest, done, other, path) {
                    let by = choose|by: Seq<char>|
                        done.contains(by) && #[trigger] produces(manifest, by, other, path);
                    assert(is_entry_for(manifest, by, other));
                }
            }
        }
        if other != input {
            assert(before.dom().contains(other));
            assert(after[other] == before[other]);
        }
        assert(listed_under(after, other) =~= Set::new(
            |path: Seq<char>| output_within(manifest, more, other, path),
        ));
    }
}

pub(crate) proof fn lemma_entry_preloads(
    manifest: ManifestView,
    done: Set<Seq<char>>,
    output: Seq<char>,
    before: Map<Seq<char>, Vec<String>>,
    after: Map<Seq<char>, Vec<String>>,
)
    requires
        preloads_cover(manifest, done, before),
        is_entry(manifest, output),
        after.dom() == before.dom().insert(output),
        forall|other: Seq<char>|
            other != output && before.contains_key(other) ==> #[trigger] after[other]
                == before[other],
        texts(after[output]@).no_duplicates(),
        texts(after[output]@).to_set() == Set::new(
            |path: Seq<char>| is_preload_of(manifest, output, path),
        ),
    ensures
        preloads_cover(manifest, done.insert(output), after),
{
    let more = done.insert(output);
    assert(after.dom() =~= Set::new(
        |other: Seq<char>| more.contains(other) && is_entry(manifest, other),
    ));
    assert forall|other: Seq<char>| #[trigger] after.contains_key(other) implies {
        &&& texts(after[other]@).no_duplicates()
        &&& texts(after[other]@).to_set() == Set::new(
            |path: Seq<char>| is_preload_of(manifest, other, path),
        )
    } by {
        if other != output {
            assert(before.dom().contains(other));
            assert(after[other] == before[other]);
        }
    }
}

pub(crate) proof fn lemma_entry_leaves_statics(
    manifest: ManifestView,
    done: Set<Seq<char>>,
    output: Seq<char>,
    table: Map<Seq<char>, Vec<String>>,
)
    requires
        statics_cover(manifest, done, table),
        is_entry(manifest, output),
    ensures
        statics_cover(manifest, done.insert(output), table),
{
    let more = done.insert(output);
    assert forall|input: Seq<char>, path: Seq<char>|
        static_within(manifest, more, input, path) <==> static_within(
            manifest,
            done,
            input,
            path,
        ) by {}
    assert forall|input: Seq<char>|
        static_input_within(manifest, more, input) <==> static_input_within(
            manifest,
            done,
            input,
        ) by {
        if static_input_within(manifest, more, input) {
            let path = choose|path: Seq<char>|
                #[trigger] static_within(manifest, more, input, path);
            assert(static_within(manifest, done, input, path));
        }
        if static_input_within(manifest, done, input) {
            let path = choose|path: Seq<char>|
                #[trigger] static_within(manifest, done, input, path);
            assert(static_within(manifest, more, input, path));
        }
    }
    assert(table.dom() =~= Set::new(
        |input: Seq<char>| static_input_within(manifest, more, input),
    ));
    assert forall|input: Seq<char>| #[trigger] table.contains_key(input) implies listed_under(
        table,
        input,
    ) == Set::new(|path: Seq<char>| static_within(manifest, more, input, path)) by {
        assert(listed_under(table, input) =~= Set::new(
            |path: Seq<char>| static_within(manifest, more, input, path),
        ));
    }
}

pub(crate) proof fn lemma_remaining_after(
    manifest: ManifestView,
    done: Set<Seq<char>>,
    output: Seq<char>,
    before: Set<Seq<char>>,
    after: Set<Seq<char>>,
)
    requires
        remaining_within(manifest, done, before),
        after == before.difference(
            Set::new(|path: Seq<char>| accounts_for(manifest, output, path)),
        ),
    ensures
        remaining_within(manifest, done.insert(output), after),
{
    let more = done.insert(output);
    assert forall|path: Seq<char>|
        reached_within(manifest, more, path) <==> reached_within(manifest, done, path)
            || accounts_for(manifest, output, path) by {
        if reached_within(manifest, more, path) {
            let by = choose|by: Seq<char>|
                more.contains(by) && #[trigger] accounts_for(manifest, by, path);
            if by != output {
                assert(done.contains(by));
            }
        }
        if reached_within(manifest, done, path) {
            let by = choose|by: Seq<char>|
                done.contains(by) && #[trigger] accounts_for(manifest, by, path);
            assert(more.contains(by));
        }
        if accounts_for(manifest, output, path) {
            assert(more.contains(output));
        }
    }
    assert(after =~= Set::new(
        |path: Seq<char>|
            manifest.contains_key(path) && !is_source_map(path) && !reached_within(
                manifest,
                more,
                path,
            ),
    ));
}

pub(crate) proof fn lemma_static_leaves_entries(
    manifest: ManifestView,
    done: Set<Seq<char>>,
    output: Seq<char>,
    outputs: Map<Seq<char>, Vec<String>>,
    preloads: Map<Seq<char>, Vec<String>>,
)
    requires
        outputs_cover(manifest, done, outputs),
        preloads_cover(manifest, done, preloads),
        bundles_found(manifest, done),
        is_static(manifest, output),
    ensures
        outputs_cover(manifest, done.insert(output), outputs),
        preloads_cover(manifest, done.insert(output), preloads),
        bundles_found(manifest, done.insert(output)),
{
    let more = done.insert(output);
    assert forall|input: Seq<char>|
        entry_point_within(manifest, more, input) <==> entry_point_within(
            manifest,
            done,
            input,
        ) by {
        if entry_point_within(manifest, more, input) {
            let by = choose|by: Seq<char>|
                more.contains(by) && #[trigger] is_entry_for(manifest, by, input);
            assert(done.contains(by));
        }
        if entry_point_within(manifest, done, input) {
            let by = choose|by: Seq<char>|
                done.contains(by) && #[trigger] is_entry_for(manifest, by, input);
            assert(more.contains(by));
        }
    }
    assert(outputs.dom() =~= Set::new(
        |input: Seq<char>| entry_point_within(manifest, more, input),
    ));
    assert forall|input: Seq<char>| #[trigger] outputs.contains_key(input) implies listed_under(
        outputs,
        input,
    ) == Set::new(|path: Seq<char>| output_within(manifest, more, input, path)) by {
        assert forall|path: Seq<char>|
            output_within(manifest, more, input, path) <==> output_within(
                manifest,
                done,
                input,
                path,
            ) by {
            if output_within(manifest, more, input, path) {
                let by = choose|by: Seq<char>|
                    more.contains(by) && #[trigger] produces(manifest, by, input, path);
                assert(done.contains(by));
            }
            if output_within(manifest, done, input, path) {
                let by = choose|by: Seq<char>|
                    done.contains(by) && #[trigger] produces(manifest, by, input, path);
                assert(more.contains(by));
            }
        }
        assert(listed_under(outputs, input) =~= Set::new(
            |path: Seq<char>| output_within(manifest, more, input, path),
        ));
    }
    assert(preloads.dom() =~= Set::new(
        |other: Seq<char>| more.contains(other) && is_entry(manifest, other),
    ));
}

pub(crate) proof fn lemma_static_listed(
    manifest: ManifestView,
    done: Set<Seq<char>>,
    output: Seq<char>,
    before: Map<Seq<char>, Vec<String>>,
    after: Map<Seq<char>, Vec<String>>,
)
    requires
        statics_cover(manifest, done, before),
        is_static(manifest, output),
        after.dom() == before.dom().union(manifest[output].inputs.to_set()),
        forall|input: Seq<char>|
            before.contains_key(input) && !manifest[output].inputs.contains(input)
                ==> #[trigger] after[input] == before[input],
        forall|input: Seq<char>|
            manifest[output].inputs.contains(input) ==> #[trigger] listed_under(after, input)
                == listed_under(before, input).insert(output),
    ensures
        statics_cover(manifest, done.insert(output), after),
{
    let more = done.insert(output);
    let sources = manifest[output].inputs;
    assert forall|input: Seq<char>, path: Seq<char>|
        static_within(manifest, more, input, path) <==> static_within(
            manifest,
            done,
            input,
            path,
        ) || (path == output && sources.contains(input)) by {}
    assert forall|input: Seq<char>|
        static_input_within(manifest, more, input) <==> static_input_within(
            manifest,
            done,
            input,
        ) || sources.contains(input) by {
        if static_input_within(manifest, more, input) {
            let path = choose|path: Seq<char>|
                #[trigger] static_within(manifest, more, input, path);
            if path != output {
                assert(static_within(manifest, done, input, path));
            }
        }
        if static_input_within(manifest, done, input) {
            let path = choose|path: Seq<char>|
                #[trigger] static_within(manifest, done, input, path);
            assert(static_within(manifest, more, input, path));
        }
        if sources.contains(input) {
            assert(static_within(manifest, more, input, output));
        }
    }
    assert(after.dom() =~= Set::new(
        |input: Seq<char>| static_input_within(manifest, more, input),
    ));
    assert forall|input: Seq<char>| #[trigger] after.contains_key(input) implies listed_under(
        after,
        input,
    ) == Set::new(|path: Seq<char>| static_within(manifest, more, input, path)) by {
        if before.contains_key(input) {
            assert(before.dom().contains(input));
        } else {
            assert(!before.dom().contains(input));
            assert(!static_input_within(manifest, done, input));
            assert forall|path: Seq<char>| !static_within(manifest, done, input, path) by {}
        }
        if !sources.contains(input) {
            assert(!sources.to_set().contains(input));
            assert(before.dom().contains(input));
            assert(after[input] == before[input]);
        }
        assert(listed_under(after, input) =~= Set::new(
            |path: Seq<char>| static_within(manifest, more, input, path),
        ));
    }
}

pub(crate) proof fn lemma_all_done(
    manifest: ManifestView,
    outputs: Map<Seq<char>, Vec<String>>,
    preloads: Map<Seq<char>, Vec<String>>,
    statics: Map<Seq<char>, Vec<String>>,
    remaining: Set<Seq<char>>,
)
    requires
        outputs_cover(manifest, manifest.dom(), outputs),
        preloads_cover(manifest, manifest.dom(), preloads),
        statics_cover(manifest, manifest.dom(), statics),
        remaining_within(manifest, manifest.dom(), remaining),
        bundles_found(manifest, manifest.dom()),
    ensures
        lists(outputs).dom() == Set::new(|input: Seq<char>| is_entry_point(manifest, input)),
        forall|input: Seq<char>| #[trigger]
            lists(outputs).contains_key(input) ==> lists(outputs)[input].to_set() == Set::new(
                |path: Seq<char>| is_output_of(manifest, input, path),
            ),
        lists(preloads).dom() == Set::new(|output: Seq<char>| is_entry(manifest, output)),
        forall|output: Seq<char>| #[trigger]
            lists(preloads).contains_key(output) ==> {
                &&& lists(preloads)[output].no_duplicates()
                &&& lists(preloads)[output].to_set() == Set::new(
                    |path: Seq<char>| is_preload_of(manifest, output, path),
                )
            },
        lists(statics).dom() == Set::new(|input: Seq<char>| is_static_input(manifest, input)),
        forall|input: Seq<char>| #[trigger]
            lists(statics).contains_key(input) ==> lists(statics)[input].to_set() == Set::new(
                |path: Seq<char>| is_static_path_of(manifest, input, path),
            ),
        remaining == Set::new(|path: Seq<char>| is_orphan(manifest, path)),
        forall|bundle: Seq<char>| !is_missing_bundle(manifest, bundle),
{
    let done = manifest.dom();
    assert forall|input: Seq<char>|
        entry_point_within(manifest, done, input) <==> is_entry_point(manifest, input) by {
        if entry_point_within(manifest, done, input) {
            let by = choose|by: Seq<char>|
                done.contains(by) && #[trigger] is_entry_for(manifest, by, input);
            assert(is_entry_for(manifest, by, input));
        }
        if is_entry_point(manifest, input) {
            let by = choose|by: Seq<char>| is_entry_for(manifest, by, input);
            assert(done.contains(by) && is_entry_for(manifest, by, input));
        }
    }
    assert(lists(outputs).dom() =~= Set::new(
        |input: Seq<char>| is_entry_point(manifest, input),
    ));
    assert forall|input: Seq<char>| #[trigger] lists(outputs).contains_key(input) implies lists(
        outputs,
    )[input].to_set() == Set::new(|path: Seq<char>| is_output_of(manifest, input, path)) by {
        assert(outputs.contains_key(input));
        assert forall|path: Seq<char>|
            output_within(manifest, done, input, path) <==> is_output_of(manifest, input, path) by {
            if output_within(manifest, done, input, path) {
                let by = choose|by: Seq<char>|
                    done.contains(by) && #[trigger] produces(manifest, by, input, path);
                assert(produces(manifest, by, input, path));
            }
            if is_output_of(manifest, input, path) {
                let by = choose|by: Seq<char>| produces(manifest, by, input, path);
                assert(done.contains(by) && produces(manifest, by, input, path));
            }
        }
        assert(listed_under(outputs, input) =~= Set::new(
            |path: Seq<char>| is_output_of(manifest, input, path),
        ));
    }
    assert(lists(preloads).dom() =~= Set::new(|output: Seq<char>| is_entry(manifest, output)));
    assert forall|output: Seq<char>| #[trigger] lists(preloads).contains_key(output) implies {
        &&& lists(preloads)[output].no_duplicates()
        &&& lists(preloads)[output].to_set() == Set::new(
            |path: Seq<char>| is_preload_of(manifest, output, path),
        )
    } by {
        assert(preloads.contains_key(output));
    }
    assert forall|input: Seq<char>|
        static_input_within(manifest, done, input) <==> is_static_input(manifest, input) by {
        if static_input_within(manifest, done, input) {
            let path = choose|path: Seq<char>|
                #[trigger] static_within(manifest, done, input, path);
            assert(is_static_path_of(manifest, input, path));
        }
        if is_static_input(manifest, input) {
            let path = choose|path: Seq<char>| is_static_path_of(manifest, input, path);
            assert(static_within(manifest, done, input, path));
        }
    }
    assert(lists(statics).dom() =~= Set::new(
        |input: Seq<char>| is_static_input(manifest, input),
    ));
    assert forall|input: Seq<char>| #[trigger] lists(statics).contains_key(input) implies lists(
        statics,
    )[input].to_set() == Set::new(|path: Seq<char>| is_static_path_of(manifest, input, path)) by {
        assert(statics.contains_key(input));
        assert(listed_under(statics, input) =~= Set::new(
            |path: Seq<char>| is_static_path_of(manifest, input, path),
        ));
    }
    assert forall|path: Seq<char>|
        reached_within(manifest, done, path) <==> is_reached(manifest, path) by {
        if reached_within(manifest, done, path) {
            let by = choose|by: Seq<char>|
                done.contains(by) && #[trigger] accounts_for(manifest, by, path);
            assert(accounts_for(manifest, by, path));
        }
        if is_reached(manifest, path) {
            let by = choose|by: Seq<char>| accounts_for(manifest, by, path);
            assert(done.contains(by) && accounts_for(manifest, by, path));
        }
    }
    assert(remaining =~= Set::new(|path: Seq<char>| is_orphan(manifest, path)));
    assert forall|bundle: Seq<char>| !is_missing_bundle(manifest, bundle) by {
        if is_missing_bundle(manifest, bundle) {
            let by = choose|by: Seq<char>| names_bundle(manifest, by, bundle);
            assert(done.contains(by) && names_bundle(manifest, by, bundle));
        }
    }
}

/// Whether each list of outputs is what entering the outputs of `order`,
/// one after the other, makes of it.
pub(crate) open spec fn outputs_listed(
    manifest: ManifestView,
    order: Seq<Seq<char>>,
    outputs: Map<Seq<char>, Vec<String>>,
    preloads: Map<Seq<char>, Vec<String>>,
) -> bool {
    forall|input: Seq<char>| #[trigger]
        list_at(outputs, input) == outputs_listing(manifest, lists(preloads), order, input)
}

/// Whether each list of static outputs is what entering the outputs of
/// `order`, one after the other, makes of it.
pub(crate) open spec fn statics_listed(
    manifest: ManifestView,
    order: Seq<Seq<char>>,
    table: Map<Seq<char>, Vec<String>>,
) -> bool {
    forall|input: Seq<char>| #[trigger]
        list_at(table, input) == statics_listing(manifest, order, input)
}

/// The list of an entry point depends on the preloads of the entry outputs
/// of `order` alone.
pub(crate) proof fn lemma_listing_keeps(
    manifest: ManifestView,
    first: Map<Seq<char>, Seq<Seq<char>>>,
    second: Map<Seq<char>, Seq<Seq<char>>>,
    order: Seq<Seq<char>>,
    input: Seq<char>,
)
    requires
        forall|i: int|
            0 <= i < order.len() && is_entry(manifest, #[trigger] order[i]) ==> first[order[i]]
                == second[order[i]],
    ensures
        outputs_listing(manifest, first, order, input) == outputs_listing(
            manifest,
            second,
            order,
            input,
        ),
    decreases order.len(),
{
    if order.len() > 0 {
        let rest = order.drop_last();
        assert forall|i: int| 0 <= i < rest.len() && is_entry(manifest, #[trigger] rest[i])
            implies first[rest[i]] == second[rest[i]] by {
            assert(rest[i] == order[i]);
        }
        lemma_listing_keeps(manifest, first, second, rest, input);
        assert(order[order.len() - 1] == order.last());
    }
}

pub(crate) proof fn lemma_entry_listed(
    manifest: ManifestView,
    order: Seq<Seq<char>>,
    output: Seq<char>,
    entry_point: Seq<char>,
    outputs_before: Map<Seq<char>, Vec<String>>,
    outputs_after: Map<Seq<char>, Vec<String>>,
    preloads_before: Map<Seq<char>, Vec<String>>,
    preloads_after: Map<Seq<char>, Vec<String>>,
)
    requires
        outputs_listed(manifest, order, outputs_before, preloads_before),
        preloads_cover(manifest, order.to_set(), preloads_before),
        !order.contains(output),
        is_entry_for(manifest, output, entry_point),
        outputs_after.dom() == outputs_before.dom().insert(entry_point),
        forall|other: Seq<char>|
            other != entry_point && outputs_before.contains_key(other)
                ==> #[trigger] outputs_after[other] == outputs_before[other],
        list_at(outputs_after, entry_point) == list_at(outputs_before, entry_point)
            + entry_listing(manifest, output, texts(preloads_after[output]@)),
        preloads_after.dom() == preloads_before.dom().insert(output),
        forall|other: Seq<char>|
            other != output && preloads_before.contains_key(other)
                ==> #[trigger] preloads_after[other] == preloads_before[other],
    ensures
        outputs_listed(manifest, order.push(output), outputs_after, preloads_after),
{
    let longer = order.push(output);
    assert(longer.drop_last() =~= order);
    assert(longer.last() == output);
    assert forall|input: Seq<char>| #[trigger]
        list_at(outputs_after, input) == outputs_listing(
            manifest,
            lists(preloads_after),
            longer,
            input,
        ) by {
        assert forall|i: int| 0 <= i < order.len() && is_entry(manifest, #[trigger] order[i])
            implies lists(preloads_before)[order[i]] == lists(preloads_after)[order[i]] by {
            assert(order.contains(order[i]));
            assert(order.to_set().contains(order[i]));
            assert(preloads_before.dom().contains(order[i]));
            assert(preloads_after.dom().contains(order[i]));
            assert(preloads_after[order[i]] == preloads_before[order[i]]);
        }
        lemma_listing_keeps(manifest, lists(preloads_before), lists(preloads_after), order, input);
        assert(list_at(outputs_before, input) == outputs_listing(
            manifest,
            lists(preloads_before),
            order,
            input,
        ));
        assert(preloads_after.dom().contains(output));
        if input == entry_point {
            assert(lists(preloads_after)[output] == texts(preloads_after[output]@));
        } else {
            assert(!is_entry_for(manifest, output, input));
            if outputs_before.contains_key(input) {
                assert(outputs_after.dom().contains(input));
                assert(outputs_after[input] == outputs_before[input]);
            } else {
                assert(!outputs_after.dom().contains(input));
            }
        }
    }
}

pub(crate) proof fn lemma_static_leaves_listing(
    manifest: ManifestView,
    order: Seq<Seq<char>>,
    output: Seq<char>,
    outputs: Map<Seq<char>, Vec<String>>,
    preloads: Map<Seq<char>, Vec<String>>,
)
    requires
        outputs_listed(manifest, order, outputs, preloads),
        is_static(manifest, output),
    ensures
        outputs_listed(manifest, order.push(output), outputs, preloads),
{
    let longer = order.push(output);
    assert(longer.drop_last() =~= order);
    assert(longer.last() == output);
    assert forall|input: Seq<char>| #[trigger]
        list_at(outputs, input) == outputs_listing(manifest, lists(preloads), longer, input) by {
        assert(list_at(outputs, input) == outputs_listing(
            manifest,
            lists(preloads),
            order,
            input,
        ));
        assert(!is_entry_for(manifest, output, input));
    }
}

pub(crate) proof fn lemma_static_listed_in_order(
    manifest: ManifestView,
    order: Seq<Seq<char>>,
    output: Seq<char>,
    before: Map<Seq<char>, Vec<String>>,
    after: Map<Seq<char>, Vec<String>>,
)
    requires
        statics_listed(manifest, order, before),
        is_static(manifest, output),
        forall|input: Seq<char>| #[trigger]
            list_at(after, input) == list_at(before, input) + repeated(
                output,
                occurrences(manifest[output].inputs, input),
            ),
    ensures
        statics_listed(manifest, order.push(output), after),
{
    let longer = order.push(output);
    assert(longer.drop_last() =~= order);
    assert(longer.last() == output);
    assert forall|input: Seq<char>| #[trigger]
        list_at(after, input) == statics_listing(manifest, longer, input) by {
        assert(list_at(before, input) == statics_listing(manifest, order, input));
    }
}

pub(crate) proof fn lemma_entry_leaves_static_listing(
    manifest: ManifestView,
    order: Seq<Seq<char>>,
    output: Seq<char>,
    table: Map<Seq<char>, Vec<String>>,
)
    requires
        statics_listed(manifest, order, table),
        is_entry(manifest, output),
    ensures
        statics_listed(manifest, order.push(output), table),
{
    let longer = order.push(output);
    assert(longer.drop_last() =~= order);
    assert(longer.last() == output);
    assert forall|input: Seq<char>| #[trigger]
        list_at(table, input) == statics_listing(manifest, longer, input) by {
        assert(list_at(table, input) == statics_listing(manifest, order, input));
    }
}

} // verus!
