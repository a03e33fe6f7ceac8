//! The index built from a manifest: for each entry point its outputs, for
//! each entry output what to preload with it, and for each source of a
//! static file where that file went.

use crate::coverage::{
    bundles_found, entry_point_within, lemma_all_done, lemma_entry_leaves_static_listing,
    lemma_entry_leaves_statics, lemma_entry_listed, lemma_entry_outputs, lemma_entry_preloads,
    lemma_remaining_after, lemma_static_leaves_entries, lemma_static_leaves_listing,
    lemma_static_listed, lemma_static_listed_in_order, outputs_cover, outputs_listed,
    preloads_cover, remaining_within, static_input_within, static_within, statics_cover,
    statics_listed,
};
use crate::error::ManifestError;
use crate::graph::{
    accounts_for, is_entry, is_entry_for, is_entry_point, is_missing_bundle, is_orphan,
    is_output_of, is_preload_of, is_source_map, is_static, is_static_input, is_static_path_of,
    is_first_missing_bundle, lacks_bundle, names_bundle, orphan_in, outputs_listing, produces,
    statics_listing,
};
use crate::indexing::{
    all_paths, held_by, index_entry, index_static, lemma_filters_agree, outputs_to_reach,
    paths_left,
};
use crate::json::{
    decode_manifest, decoded_manifest, decoded_order, json_document, parse_document,
};
use crate::manifest::{sources_distinct, texts, Manifest, ManifestView};
use crate::tables::{copy_paths, list_at, lists};
use vstd::hash_map::StringHashMap;
use vstd::hash_set::StringHashSet;
use vstd::prelude::*;

verus! {

/// An index as plain values.
pub struct EsbuildMetaFileView {
    /// For each entry point, the outputs listed for it.
    pub input_to_outputs: Map<Seq<char>, Seq<Seq<char>>>,
    /// Every output of the manifest, source maps too.
    pub output_paths: Set<Seq<char>>,
    /// For each entry output, what is preloaded with it.
    pub output_to_preloads: Map<Seq<char>, Seq<Seq<char>>>,
    /// For each source of a static output, where it went.
    pub static_paths: Map<Seq<char>, Seq<Seq<char>>>,
}

impl EsbuildMetaFileView {
    /// The outputs listed for the entry point `input`, if it is one.
    pub open spec fn outputs_for(self, input: Seq<char>) -> Option<Seq<Seq<char>>> {
        if self.input_to_outputs.contains_key(input) {
            Some(self.input_to_outputs[input])
        } else {
            None
        }
    }

    /// What is preloaded with `output`; nothing unless it is an entry output.
    pub open spec fn preloads_for(self, output: Seq<char>) -> Seq<Seq<char>> {
        if self.output_to_preloads.contains_key(output) {
            self.output_to_preloads[output]
        } else {
            Seq::empty()
        }
    }

    /// Where the static file made from `input` went, if there is one.
    pub open spec fn static_paths_for(self, input: Seq<char>) -> Option<Seq<Seq<char>>> {
        if self.static_paths.contains_key(input) {
            Some(self.static_paths[input])
        } else {
            None
        }
    }

    /// Whether `path` stands in one of the lists under `key`.
    pub open spec fn lists_under(self, key: Seq<char>, path: Seq<char>) -> bool {
        ||| self.input_to_outputs.contains_key(key) && self.input_to_outputs[key].contains(path)
        ||| self.output_to_preloads.contains_key(key) && self.output_to_preloads[key].contains(
            path,
        )
        ||| self.static_paths.contains_key(key) && self.static_paths[key].contains(path)
    }

    /// Whether `path` stands in some list of the index.
    pub open spec fn lists(self, path: Seq<char>) -> bool {
        exists|key: Seq<char>| self.lists_under(key, path)
    }

    /// Whether the lists of outputs and of static outputs are those that
    /// come of entering the outputs of the manifest in the order `order`.
    ///
    /// An entry output adds itself, its style bundle and those of its
    /// preloads that are outputs to the list of its entry point; a static
    /// output adds itself to the list of a source as often as the source
    /// stands among its sources.
    pub open spec fn lists_in_order(self, manifest: ManifestView, order: Seq<Seq<char>>) -> bool {
        &&& forall|input: Seq<char>| #[trigger]
            self.input_to_outputs.contains_key(input) ==> self.input_to_outputs[input]
                == outputs_listing(manifest, self.output_to_preloads, order, input)
        &&& forall|input: Seq<char>| #[trigger]
            self.static_paths.contains_key(input) ==> self.static_paths[input]
                == statics_listing(manifest, order, input)
    }

    /// Whether this is the index of `manifest`.
    ///
    /// This says which paths each list holds and that a list of preloads
    /// holds each of them once; [`Self::lists_in_order`] says in which order
    /// and how often the other lists hold theirs.
    pub open spec fn indexes(self, manifest: ManifestView) -> bool {
        &&& self.output_paths == manifest.dom()
        &&& self.input_to_outputs.dom() == Set::new(
            |input: Seq<char>| is_entry_point(manifest, input),
        )
        &&& forall|input: Seq<char>| #[trigger]
            self.input_to_outputs.contains_key(input) ==> self.input_to_outputs[input].to_set()
                == Set::new(|path: Seq<char>| is_output_of(manifest, input, path))
        &&& self.output_to_preloads.dom() == Set::new(
            |output: Seq<char>| is_entry(manifest, output),
        )
        &&& forall|output: Seq<char>| #[trigger]
            self.output_to_preloads.contains_key(output) ==> {
                &&& self.output_to_preloads[output].no_duplicates()
                &&& self.output_to_preloads[output].to_set() == Set::new(
                    |path: Seq<char>| is_preload_of(manifest, output, path),
                )
            }
        &&& self.static_paths.dom() == Set::new(
            |input: Seq<char>| is_static_input(manifest, input),
        )
        &&& forall|input: Seq<char>| #[trigger]
            self.static_paths.contains_key(input) ==> self.static_paths[input].to_set()
                == Set::new(|path: Seq<char>| is_static_path_of(manifest, input, path))
    }
}

/// The lookup tables built from a manifest.
pub struct EsbuildMetaFile {
    input_to_outputs: StringHashMap<Vec<String>>,
    output_paths: Vec<String>,
    output_to_preloads: StringHashMap<Vec<String>>,
    static_paths: StringHashMap<Vec<String>>,
}

impl View for EsbuildMetaFile {
    type V = EsbuildMetaFileView;

    closed spec fn view(&self) -> EsbuildMetaFileView {
        EsbuildMetaFileView {
            input_to_outputs: lists(self.input_to_outputs@),
            output_paths: texts(self.output_paths@).to_set(),
            output_to_preloads: lists(self.output_to_preloads@),
            static_paths: lists(self.static_paths@),
        }
    }
}

/// An index leaves no output out: every output of the manifest that is no
/// source map and no orphan is listed for an entry point, or as a preload of
/// an entry output, or as the static file made from a source.
pub proof fn lemma_index_holds_every_output(
    index: EsbuildMetaFileView,
    manifest: ManifestView,
    path: Seq<char>,
)
    requires
        index.indexes(manifest),
        manifest.contains_key(path),
        !is_source_map(path),
        !is_orphan(manifest, path),
    ensures
        index.lists(path),
{
    let by = choose|by: Seq<char>| accounts_for(manifest, by, path);
    if is_entry(manifest, by) {
        let input = manifest[by].entry_point.unwrap();
        assert(is_entry_for(manifest, by, input));
        assert(is_entry_point(manifest, input));
        assert(index.input_to_outputs.dom().contains(input));
        if path == by || manifest[by].css_bundle == Some(path) {
            assert(produces(manifest, by, input, path));
            assert(is_output_of(manifest, input, path));
            assert(index.input_to_outputs[input].to_set().contains(path));
            assert(index.lists_under(input, path));
        } else {
            assert(is_preload_of(manifest, by, path));
            assert(index.output_to_preloads.dom().contains(by));
            assert(index.output_to_preloads[by].to_set().contains(path));
            assert(index.lists_under(by, path));
        }
    } else {
        assert(is_static(manifest, path) && manifest[path].inputs.len() > 0);
        let source = manifest[path].inputs[0];
        assert(is_static_path_of(manifest, source, path));
        assert(is_static_input(manifest, source));
        assert(index.static_paths.dom().contains(source));
        assert(index.static_paths[source].to_set().contains(path));
        assert(index.lists_under(source, path));
    }
}

/// Whether `result` is what building the index of `manifest` comes to: the
/// index, if every style bundle that an entry output names is an output and
/// nothing is orphaned; else the missing bundle that is met first; else the
/// orphans, each once and in the order of the walk. `order` is the order in
/// which the manifest is walked.
pub open spec fn is_built_from(
    result: Result<EsbuildMetaFile, ManifestError>,
    manifest: ManifestView,
    order: Seq<Seq<char>>,
) -> bool {
    match result {
        Ok(index) => {
            &&& index@.indexes(manifest)
            &&& index@.lists_in_order(manifest, order)
            &&& forall|bundle: Seq<char>| !is_missing_bundle(manifest, bundle)
            &&& forall|path: Seq<char>| !is_orphan(manifest, path)
        },
        Err(ManifestError::CssBundleNotFound(bundle)) => {
            &&& is_missing_bundle(manifest, bundle@)
            &&& is_first_missing_bundle(manifest, order, bundle@)
        },
        Err(ManifestError::UnprocessedOutputs(paths)) => {
            &&& forall|bundle: Seq<char>| !is_missing_bundle(manifest, bundle)
            &&& paths@.len() > 0
            &&& texts(paths@).no_duplicates()
            &&& texts(paths@).to_set() == Set::new(|path: Seq<char>| is_orphan(manifest, path))
            &&& texts(paths@) == order.filter(orphan_in(manifest))
        },
        Err(_) => false,
    }
}

/// Whether `result` is what reading `json` as a manifest and building its
/// index comes to.
pub open spec fn is_read_from(result: Result<EsbuildMetaFile, ManifestError>, json: Seq<char>)
    -> bool {
    match json_document(json) {
        None => result matches Err(ManifestError::InvalidJson(_)),
        Some(document) => match decoded_manifest(document) {
            None => result matches Err(ManifestError::UnexpectedShape),
            Some(manifest) => is_built_from(result, manifest, decoded_order(document)),
        },
    }
}

/// Whether in the manifest that `json` holds, if it holds one, no output
/// names a source twice: a JSON object has each of its keys once.
pub open spec fn has_distinct_sources(json: Seq<char>) -> bool {
    match json_document(json) {
        Some(document) => match decoded_manifest(document) {
            Some(manifest) => sources_distinct(manifest),
            None => true,
        },
        None => true,
    }
}

impl EsbuildMetaFile {
    /// Reads a manifest from JSON and builds its index.
    pub fn from_str(json: &str) -> (result: Result<EsbuildMetaFile, ManifestError>)
        ensures
            is_read_from(result, json@),
            has_distinct_sources(json@),
    {
        match parse_document(json) {
            Err(reason) => Err(ManifestError::InvalidJson(reason)),
            Ok(document) => match decode_manifest(&document) {
                None => Err(ManifestError::UnexpectedShape),
                Some(manifest) => EsbuildMetaFile::from_manifest(&manifest),
            },
        }
    }

    /// Builds the index of `manifest`.
    ///
    /// Fails if an entry point names a style bundle that is no output of the
    /// manifest, and otherwise if some output that is no source map is
    /// neither an entry output, nor the style bundle or a preload of one,
    /// nor a static output with a source. The second error lists exactly
    /// those outputs.
    pub fn from_manifest(manifest: &Manifest) -> (result: Result<EsbuildMetaFile, ManifestError>)
        requires
            manifest.wf(),
        ensures
            is_built_from(result, manifest@, manifest.paths()),
    {
        let mut input_to_outputs: StringHashMap<Vec<String>> = StringHashMap::new();
        let mut output_to_preloads: StringHashMap<Vec<String>> = StringHashMap::new();
        let mut static_paths: StringHashMap<Vec<String>> = StringHashMap::new();
        let mut remaining = outputs_to_reach(manifest);
        let mut i: usize = 0;
        proof {
            manifest.lemma_paths();
            let done = manifest.paths().take(0).to_set();
            assert(done =~= Set::empty());
            assert(input_to_outputs@.dom() =~= Set::new(
                |input: Seq<char>| entry_point_within(manifest@, done, input),
            ));
            assert(output_to_preloads@.dom() =~= Set::new(
                |output: Seq<char>| done.contains(output) && is_entry(manifest@, output),
            ));
            assert forall|input: Seq<char>| !static_input_within(manifest@, done, input) by {
                assert forall|path: Seq<char>| !static_within(manifest@, done, input, path) by {}
            }
            assert(static_paths@.dom() =~= Set::new(
                |input: Seq<char>| static_input_within(manifest@, done, input),
            ));
        }
        while i < manifest.len()
            invariant
                manifest.wf(),
                i <= manifest.paths().len(),
                manifest.paths().no_duplicates(),
                forall|path: Seq<char>|
                    manifest.paths().contains(path) <==> manifest@.contains_key(path),
                outputs_cover(
                    manifest@,
                    manifest.paths().take(i as int).to_set(),
                    input_to_outputs@,
                ),
                preloads_cover(
                    manifest@,
                    manifest.paths().take(i as int).to_set(),
                    output_to_preloads@,
                ),
                statics_cover(manifest@, manifest.paths().take(i as int).to_set(), static_paths@),
                remaining_within(manifest@, manifest.paths().take(i as int).to_set(), remaining@),
                bundles_found(manifest@, manifest.paths().take(i as int).to_set()),
                outputs_listed(
                    manifest@,
                    manifest.paths().take(i as int),
                    input_to_outputs@,
                    output_to_preloads@,
                ),
                statics_listed(manifest@, manifest.paths().take(i as int), static_paths@),
            decreases manifest.paths().len() - i,
        {
            let output_path = manifest.path_at(i);
            let record = manifest.output_at(i);
            let ghost done = manifest.paths().take(i as int).to_set();
            let ghost outputs_before = input_to_outputs@;
            let ghost preloads_before = output_to_preloads@;
            let ghost statics_before = static_paths@;
            let ghost remaining_before = remaining@;
            let ghost taken = manifest.paths().take(i as int);
            proof {
                assert(manifest.paths().take(i + 1) =~= taken.push(output_path@));
                taken.lemma_push_to_set_commute(output_path@);
                assert(!taken.contains(output_path@)) by {
                    if taken.contains(output_path@) {
                        let j = choose|j: int| 0 <= j < taken.len() && taken[j] == output_path@;
                        assert(manifest.paths()[j] == manifest.paths()[i as int]);
                    }
                }
            }
            match &record.entry_point {
                Some(entry_point) => {
                    match index_entry(
                        manifest,
                        output_path,
                        record,
                        entry_point,
                        &mut input_to_outputs,
                        &mut output_to_preloads,
                        &mut remaining,
                    ) {
                        Ok(_) => {
                            proof {
                                lemma_entry_listed(
                                    manifest@,
                                    taken,
                                    output_path@,
                                    entry_point@,
                                    outputs_before,
                                    input_to_outputs@,
                                    preloads_before,
                                    output_to_preloads@,
                                );
                                lemma_entry_leaves_static_listing(
                                    manifest@,
                                    taken,
                                    output_path@,
                                    static_paths@,
                                );
                                lemma_entry_outputs(
                                    manifest@,
                                    done,
                                    output_path@,
                                    entry_point@,
                                    outputs_before,
                                    input_to_outputs@,
                                );
                                lemma_entry_preloads(
                                    manifest@,
                                    done,
                                    output_path@,
                                    preloads_before,
                                    output_to_preloads@,
                                );
                                lemma_entry_leaves_statics(
                                    manifest@,
                                    done,
                                    output_path@,
                                    static_paths@,
                                );
                                lemma_remaining_after(
                                    manifest@,
                                    done,
                                    output_path@,
                                    remaining_before,
                                    remaining@,
                                );
                            }
                        },
                        Err(error) => {
                            proof {
                                if let ManifestError::CssBundleNotFound(bundle) = &error {
                                    let order = manifest.paths();
                                    assert(names_bundle(manifest@, output_path@, bundle@));
                                    assert(order[i as int] == output_path@);
                                    assert(lacks_bundle(manifest@, order[i as int]));
                                    assert forall|j: int| 0 <= j < i implies !lacks_bundle(
                                        manifest@,
                                        #[trigger] order[j],
                                    ) by {
                                        assert(taken[j] == order[j]);
                                        assert(taken.contains(order[j]));
                                        assert(done.contains(order[j]));
                                        if lacks_bundle(manifest@, order[j]) {
                                            let missing = manifest@[order[j]].css_bundle.unwrap();
                                            assert(names_bundle(manifest@, order[j], missing));
                                        }
                                    }
                                }
                            }
                            return Err(error);
                        },
                    }
                },
                None => {
                    index_static(output_path, record, &mut static_paths, &mut remaining);
                    proof {
                        lemma_static_leaves_listing(
                            manifest@,
                            taken,
                            output_path@,
                            input_to_outputs@,
                            output_to_preloads@,
                        );
                        lemma_static_listed_in_order(
                            manifest@,
                            taken,
                            output_path@,
                            statics_before,
                            static_paths@,
                        );
                        lemma_static_leaves_entries(
                            manifest@,
                            done,
                            output_path@,
                            input_to_outputs@,
                            output_to_preloads@,
                        );
                        lemma_static_listed(
                            manifest@,
                            done,
                            output_path@,
                            statics_before,
                            static_paths@,
                        );
                        assert(remaining@ =~= remaining_before.difference(
                            Set::new(
                                |path: Seq<char>| accounts_for(manifest@, output_path@, path),
                            ),
                        ));
                        lemma_remaining_after(
                            manifest@,
                            done,
                            output_path@,
                            remaining_before,
                            remaining@,
                        );
                    }
                },
            }
            i = i + 1;
        }
        proof {
            assert(manifest.paths().take(i as int) =~= manifest.paths());
            assert(manifest.paths().to_set() =~= manifest@.dom());
            lemma_all_done(
                manifest@,
                input_to_outputs@,
                output_to_preloads@,
                static_paths@,
                remaining@,
            );
        }
        let unprocessed = paths_left(manifest, &remaining);
        proof {
            lemma_filters_agree(manifest.paths(), held_by(remaining@), orphan_in(manifest@));
        }
        if unprocessed.len() > 0 {
            return Err(ManifestError::UnprocessedOutputs(unprocessed));
        }
        proof {
            assert forall|path: Seq<char>| !is_orphan(manifest@, path) by {
                if is_orphan(manifest@, path) {
                    assert(texts(unprocessed@).to_set().contains(path));
                }
            }
        }
        let output_paths = all_paths(manifest);
        let index = EsbuildMetaFile {
            input_to_outputs,
            output_paths,
            output_to_preloads,
            static_paths,
        };
        proof {
            let order = manifest.paths();
            assert forall|input: Seq<char>| #[trigger]
                index@.input_to_outputs.contains_key(input) implies index@.input_to_outputs[input]
                == outputs_listing(manifest@, index@.output_to_preloads, order, input) by {
                assert(index@.input_to_outputs[input] == list_at(index.input_to_outputs@, input));
            }
            assert forall|input: Seq<char>| #[trigger]
                index@.static_paths.contains_key(input) implies index@.static_paths[input]
                == statics_listing(manifest@, order, input) by {
                assert(index@.static_paths[input] == list_at(index.static_paths@, input));
            }
        }
        Ok(index)
    }

    /// Where the static file made from `input_path` went.
    pub fn find_static_paths_for_input(&self, input_path: &str) -> (paths: Option<Vec<String>>)
        ensures
            match paths {
                Some(found) => self@.static_paths_for(input_path@) == Some(texts(found@)),
                None => self@.static_paths_for(input_path@).is_none(),
            },
    {
        match self.static_paths.get(input_path) {
            Some(found) => Some(copy_paths(found)),
            None => None,
        }
    }

    /// The outputs listed for the entry point `input_path`.
    pub fn find_outputs_for_input(&self, input_path: &str) -> (paths: Option<Vec<String>>)
        ensures
            match paths {
                Some(found) => self@.outputs_for(input_path@) == Some(texts(found@)),
                None => self@.outputs_for(input_path@).is_none(),
            },
    {
        match self.input_to_outputs.get(input_path) {
            Some(found) => Some(copy_paths(found)),
            None => None,
        }
    }

    /// Every output of the manifest.
    pub fn get_output_paths(&self) -> (paths: StringHashSet)
        ensures
            paths@ == self@.output_paths,
    {
        let mut paths = StringHashSet::new();
        let mut i: usize = 0;
        proof {
            assert(paths@ =~= texts(self.output_paths@).take(0).to_set());
        }
        while i < self.output_paths.len()
            invariant
                i <= self.output_paths@.len(),
                paths@ == texts(self.output_paths@).take(i as int).to_set(),
            decreases self.output_paths@.len() - i,
        {
            let path = self.output_paths[i].clone();
            proof {
                let taken = texts(self.output_paths@).take(i as int);
                assert(texts(self.output_paths@).take(i + 1) =~= taken.push(path@));
                taken.lemma_push_to_set_commute(path@);
            }
            paths.insert(path);
            i = i + 1;
        }
        proof {
            assert(texts(self.output_paths@).take(i as int) =~= texts(self.output_paths@));
        }
        paths
    }

    /// What is preloaded with the output at `output_path`.
    pub fn get_preloads(&self, output_path: &str) -> (paths: Vec<String>)
        ensures
            texts(paths@) == self@.preloads_for(output_path@),
    {
        match self.output_to_preloads.get(output_path) {
            Some(found) => copy_paths(found),
            None => {
                let paths: Vec<String> = Vec::new();
                proof {
                    assert(texts(paths@) =~= Seq::<Seq<char>>::empty());
                }
                paths
            },
        }
    }
}

} // verus!
