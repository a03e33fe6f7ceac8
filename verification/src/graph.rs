//! What a manifest says about its outputs: which paths an entry point
//! produces, which it pulls in through imports, and which outputs nothing
//! accounts for.

use crate::manifest::{ManifestView, OutputView};
use vstd::prelude::*;

verus! {

/// The imports of the output at `path`; none if the manifest has no record
/// of it.
pub open spec fn imports_of(manifest: ManifestView, path: Seq<char>) -> Seq<Seq<char>> {
    if manifest.contains_key(path) {
        manifest[path].imports
    } else {
        Seq::empty()
    }
}

/// Whether the output at `from` imports `to`.
pub open spec fn is_import_of(manifest: ManifestView, from: Seq<char>, to: Seq<char>) -> bool {
    imports_of(manifest, from).contains(to)
}

/// Whether `path` lies exactly `steps` imports away from one of `roots`.
pub open spec fn imported_in(
    manifest: ManifestView,
    roots: Seq<Seq<char>>,
    path: Seq<char>,
    steps: nat,
) -> bool
    decreases steps,
{
    if steps == 0 {
        roots.contains(path)
    } else {
        exists|via: Seq<char>|
            imported_in(manifest, roots, via, (steps - 1) as nat) && #[trigger] is_import_of(
                manifest,
                via,
                path,
            )
    }
}

/// Whether `path` is one of `roots` or is imported, directly or through other
/// outputs, by one of them.
pub open spec fn imported(manifest: ManifestView, roots: Seq<Seq<char>>, path: Seq<char>) -> bool {
    exists|steps: nat| imported_in(manifest, roots, path, steps)
}

/// Where the preloads of an entry point start: at the imports of its style
/// bundle, then at its own imports.
pub open spec fn preload_roots(manifest: ManifestView, record: OutputView) -> Seq<Seq<char>> {
    let bundled = match record.css_bundle {
        Some(bundle) => imports_of(manifest, bundle),
        None => Seq::empty(),
    };
    bundled + record.imports
}

/// Whether the output at `output` is the built form of an entry point.
pub open spec fn is_entry(manifest: ManifestView, output: Seq<char>) -> bool {
    manifest.contains_key(output) && manifest[output].entry_point is Some
}

/// Whether the output at `output` is a file copied from its sources, with no
/// entry point of its own.
pub open spec fn is_static(manifest: ManifestView, output: Seq<char>) -> bool {
    manifest.contains_key(output) && manifest[output].entry_point is None
}

/// Whether `path` must be preloaded with the entry output `output`.
pub open spec fn is_preload_of(manifest: ManifestView, output: Seq<char>, path: Seq<char>) -> bool {
    imported(manifest, preload_roots(manifest, manifest[output]), path)
}

/// Whether `path` is listed for the source of the entry output `output`: the
/// output itself, its style bundle, and every output of the manifest among
/// its preloads.
pub open spec fn yields(manifest: ManifestView, output: Seq<char>, path: Seq<char>) -> bool {
    ||| path == output
    ||| manifest[output].css_bundle == Some(path)
    ||| is_preload_of(manifest, output, path) && manifest.contains_key(path)
}

/// Whether the entry output at `output` was built from the entry point
/// `input`.
pub open spec fn is_entry_for(manifest: ManifestView, output: Seq<char>, input: Seq<char>) -> bool {
    is_entry(manifest, output) && manifest[output].entry_point == Some(input)
}

/// The predicate that holds of the outputs of the manifest.
pub open spec fn has_record(manifest: ManifestView) -> spec_fn(Seq<char>) -> bool {
    |path: Seq<char>| manifest.contains_key(path)
}

/// The style bundle alone, or nothing.
pub open spec fn bundle_list(css_bundle: Option<Seq<char>>) -> Seq<Seq<char>> {
    match css_bundle {
        Some(bundle) => seq![bundle],
        None => Seq::empty(),
    }
}

/// What the entry output at `output` adds to the list of its entry point:
/// itself, its style bundle, and those of its preloads that are outputs, in
/// the order of the preloads.
pub open spec fn entry_listing(
    manifest: ManifestView,
    output: Seq<char>,
    preloads: Seq<Seq<char>>,
) -> Seq<Seq<char>> {
    seq![output] + bundle_list(manifest[output].css_bundle) + preloads.filter(
        has_record(manifest),
    )
}

/// The list of the entry point `input` when the outputs are entered in the
/// order `order` and `preloads` holds what is preloaded with each entry
/// output.
pub open spec fn outputs_listing(
    manifest: ManifestView,
    preloads: Map<Seq<char>, Seq<Seq<char>>>,
    order: Seq<Seq<char>>,
    input: Seq<char>,
) -> Seq<Seq<char>>
    decreases order.len(),
{
    if order.len() == 0 {
        Seq::empty()
    } else {
        let earlier = outputs_listing(manifest, preloads, order.drop_last(), input);
        let output = order.last();
        if is_entry_for(manifest, output, input) {
            earlier + entry_listing(manifest, output, preloads[output])
        } else {
            earlier
        }
    }
}

/// How often `input` stands among `sources`.
pub open spec fn occurrences(sources: Seq<Seq<char>>, input: Seq<char>) -> nat
    decreases sources.len(),
{
    if sources.len() == 0 {
        0
    } else if sources.last() == input {
        occurrences(sources.drop_last(), input) + 1
    } else {
        occurrences(sources.drop_last(), input)
    }
}

/// `path`, `times` times over.
pub open spec fn repeated(path: Seq<char>, times: nat) -> Seq<Seq<char>> {
    Seq::new(times, |i: int| path)
}

/// The list of the source `input` when the outputs are entered in the order
/// `order`: each static output as often as `input` stands among its
/// sources.
pub open spec fn statics_listing(
    manifest: ManifestView,
    order: Seq<Seq<char>>,
    input: Seq<char>,
) -> Seq<Seq<char>>
    decreases order.len(),
{
    if order.len() == 0 {
        Seq::empty()
    } else {
        let earlier = statics_listing(manifest, order.drop_last(), input);
        let output = order.last();
        if is_static(manifest, output) {
            earlier + repeated(output, occurrences(manifest[output].inputs, input))
        } else {
            earlier
        }
    }
}

/// A source that stands among distinct sources stands there once.
pub proof fn lemma_distinct_sources_occur_once(sources: Seq<Seq<char>>, input: Seq<char>)
    requires
        sources.no_duplicates(),
    ensures
        occurrences(sources, input) == if sources.contains(input) {
            1nat
        } else {
            0nat
        },
    decreases sources.len(),
{
    if sources.len() > 0 {
        let rest = sources.drop_last();
        lemma_distinct_sources_occur_once(rest, input);
        assert(sources[sources.len() - 1] == sources.last());
        if rest.contains(input) {
            let i = choose|i: int| 0 <= i < rest.len() && rest[i] == input;
            assert(sources[i] == input);
        }
        if sources.contains(input) && sources.last() != input {
            let i = choose|i: int| 0 <= i < sources.len() && sources[i] == input;
            assert(rest[i] == input);
        }
    }
}

/// Whether `input` is an entry point.
pub open spec fn is_entry_point(manifest: ManifestView, input: Seq<char>) -> bool {
    exists|output: Seq<char>| is_entry_for(manifest, output, input)
}

/// Whether the entry output at `output` was built from `input` and lists
/// `path` for it.
pub open spec fn produces(
    manifest: ManifestView,
    output: Seq<char>,
    input: Seq<char>,
    path: Seq<char>,
) -> bool {
    is_entry_for(manifest, output, input) && yields(manifest, output, path)
}

/// Whether `path` is listed among the outputs of the entry point `input`.
pub open spec fn is_output_of(manifest: ManifestView, input: Seq<char>, path: Seq<char>) -> bool {
    exists|output: Seq<char>| produces(manifest, output, input, path)
}

/// Whether the static output at `path` was made from the source `input`.
pub open spec fn is_static_path_of(manifest: ManifestView, input: Seq<char>, path: Seq<char>)
    -> bool {
    is_static(manifest, path) && manifest[path].inputs.contains(input)
}

/// Whether `input` is a source of some static output.
pub open spec fn is_static_input(manifest: ManifestView, input: Seq<char>) -> bool {
    exists|path: Seq<char>| is_static_path_of(manifest, input, path)
}

/// Whether the record at `output` accounts for `path`: an entry output for
/// itself, its style bundle and its preloads; a static output with at least
/// one source for itself.
pub open spec fn accounts_for(manifest: ManifestView, output: Seq<char>, path: Seq<char>) -> bool {
    ||| is_entry(manifest, output) && (path == output || manifest[output].css_bundle == Some(path)
        || is_preload_of(manifest, output, path))
    ||| is_static(manifest, output) && path == output && manifest[output].inputs.len() > 0
}

/// Whether some record of the manifest accounts for `path`.
pub open spec fn is_reached(manifest: ManifestView, path: Seq<char>) -> bool {
    exists|output: Seq<char>| accounts_for(manifest, output, path)
}

/// Whether `path` names a source map.
pub open spec fn is_source_map(path: Seq<char>) -> bool {
    ".map"@.is_suffix_of(path)
}

/// Whether `path` is an output that is no source map and that nothing
/// accounts for.
pub open spec fn is_orphan(manifest: ManifestView, path: Seq<char>) -> bool {
    manifest.contains_key(path) && !is_source_map(path) && !is_reached(manifest, path)
}

/// Whether the entry output at `output` names `bundle` as its style bundle.
pub open spec fn names_bundle(
    manifest: ManifestView,
    output: Seq<char>,
    bundle: Seq<char>,
) -> bool {
    is_entry(manifest, output) && manifest[output].css_bundle == Some(bundle)
}

/// The predicate that holds of the orphans of the manifest.
pub open spec fn orphan_in(manifest: ManifestView) -> spec_fn(Seq<char>) -> bool {
    |path: Seq<char>| is_orphan(manifest, path)
}

/// Whether the entry output at `output` names a style bundle that is no
/// output of the manifest.
pub open spec fn lacks_bundle(manifest: ManifestView, output: Seq<char>) -> bool {
    is_entry(manifest, output) && match manifest[output].css_bundle {
        Some(bundle) => !manifest.contains_key(bundle),
        None => false,
    }
}

/// Whether `bundle` is the missing style bundle that is met first when the
/// outputs are walked in the order `order`.
pub open spec fn is_first_missing_bundle(
    manifest: ManifestView,
    order: Seq<Seq<char>>,
    bundle: Seq<char>,
) -> bool {
    exists|i: int|
        0 <= i < order.len() && lacks_bundle(manifest, #[trigger] order[i])
            && manifest[order[i]].css_bundle == Some(bundle) && forall|j: int|
            0 <= j < i ==> !lacks_bundle(manifest, #[trigger] order[j])
}

/// Whether some entry output names `bundle` as its style bundle although the
/// manifest has no such output.
pub open spec fn is_missing_bundle(manifest: ManifestView, bundle: Seq<char>) -> bool {
    !manifest.contains_key(bundle) && exists|output: Seq<char>|
        names_bundle(manifest, output, bundle)
}

/// A set that holds the roots and, with each of its paths, that path's
/// imports, holds everything imported from the roots.
pub proof fn lemma_closed_set_holds_imported(
    manifest: ManifestView,
    roots: Seq<Seq<char>>,
    closed: Set<Seq<char>>,
    path: Seq<char>,
    steps: nat,
)
    requires
        forall|root: Seq<char>| roots.contains(root) ==> closed.contains(root),
        forall|from: Seq<char>, to: Seq<char>|
            closed.contains(from) && #[trigger] is_import_of(manifest, from, to)
                ==> closed.contains(to),
        imported_in(manifest, roots, path, steps),
    ensures
        closed.contains(path),
    decreases steps,
{
    if steps > 0 {
        let via = choose|via: Seq<char>|
            imported_in(manifest, roots, via, (steps - 1) as nat) && #[trigger] is_import_of(
                manifest,
                via,
                path,
            );
        lemma_closed_set_holds_imported(manifest, roots, closed, via, (steps - 1) as nat);
    }
}

/// An import of something imported from the roots is imported from them too.
pub proof fn lemma_import_of_imported(
    manifest: ManifestView,
    roots: Seq<Seq<char>>,
    via: Seq<char>,
    path: Seq<char>,
)
    requires
        imported(manifest, roots, via),
        is_import_of(manifest, via, path),
    ensures
        imported(manifest, roots, path),
{
    let steps = choose|steps: nat| imported_in(manifest, roots, via, steps);
    assert(imported_in(manifest, roots, via, ((steps + 1) - 1) as nat));
    assert(imported_in(manifest, roots, path, steps + 1));
}

/// Each root is imported from the roots.
pub proof fn lemma_root_is_imported(manifest: ManifestView, roots: Seq<Seq<char>>, root: Seq<char>)
    requires
        roots.contains(root),
    ensures
        imported(manifest, roots, root),
{
    assert(imported_in(manifest, roots, root, 0));
}

} // verus!
