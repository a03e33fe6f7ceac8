//! The assets that one page asks for: what it embeds, and what it tells the
//! browser to fetch ahead of need.

use crate::asset::{Asset, AssetKind, AssetView};
use crate::manifest::texts;
use crate::metafile::{EsbuildMetaFile, EsbuildMetaFileView};
use crate::preloadable_asset::{PreloadableAsset, PreloadableAssetView};
use dashmap::DashSet;
use std::sync::Arc;
use vstd::prelude::*;

verus! {

/// The concurrent set of `dashmap`. Nothing of its inside is visible to the
/// verifier.
#[verifier::external_type_specification]
#[verifier::external_body]
#[verifier::reject_recursive_types(K)]
#[verifier::reject_recursive_types(S)]
pub struct ExDashSet<K, S>(DashSet<K, S>);

/// The assets that a set of includes holds.
pub uninterp spec fn included_assets(set: DashSet<Asset>) -> Set<AssetView>;

/// The hints that a set of preloads holds.
pub uninterp spec fn preloaded_assets(set: DashSet<PreloadableAsset>) -> Set<PreloadableAssetView>;

/// `DashSet::new`: a set that holds nothing. Trusted.
#[verifier::external_body]
fn no_includes() -> (set: DashSet<Asset>)
    ensures
        included_assets(set) == Set::<AssetView>::empty(),
{
    DashSet::new()
}

/// `DashSet::new`: a set that holds nothing. Trusted.
#[verifier::external_body]
fn no_preloads() -> (set: DashSet<PreloadableAsset>)
    ensures
        preloaded_assets(set) == Set::<PreloadableAssetView>::empty(),
{
    DashSet::new()
}

/// `DashSet::insert`: afterwards the set holds `asset` besides what it held,
/// and the answer is whether `asset` is new to it.
///
/// Trusted. Assets are equal to the set exactly when their kinds and paths
/// are, which is what the derived `Eq` and `Hash` of [`Asset`] compare.
#[verifier::external_body]
fn insert_asset(set: &mut DashSet<Asset>, asset: Asset) -> (fresh: bool)
    ensures
        included_assets(*final(set)) == included_assets(*old(set)).insert(asset@),
        fresh == !included_assets(*old(set)).contains(asset@),
{
    set.insert(asset)
}

/// `DashSet::insert`: afterwards the set holds `asset` besides what it held,
/// and the answer is whether `asset` is new to it.
///
/// Trusted. Hints are equal to the set exactly when their kinds and paths
/// are, which is what the derived `Eq` and `Hash` of [`PreloadableAsset`]
/// compare.
#[verifier::external_body]
fn insert_hint(set: &mut DashSet<PreloadableAsset>, asset: PreloadableAsset) -> (fresh: bool)
    ensures
        preloaded_assets(*final(set)) == preloaded_assets(*old(set)).insert(asset@),
        fresh == !preloaded_assets(*old(set)).contains(asset@),
{
    set.insert(asset)
}

/// What the listed assets stand for.
pub open spec fn asset_views(assets: Seq<Asset>) -> Seq<AssetView> {
    assets.map_values(|asset: Asset| asset@)
}

/// What the listed hints stand for.
pub open spec fn hint_views(assets: Seq<PreloadableAsset>) -> Seq<PreloadableAssetView> {
    assets.map_values(|asset: PreloadableAsset| asset@)
}

/// `DashSet::iter`, each item copied out: every asset of the set once, in
/// no order that could be named. Trusted.
#[verifier::external_body]
fn listed_includes(set: &DashSet<Asset>) -> (assets: Vec<Asset>)
    ensures
        asset_views(assets@).no_duplicates(),
        asset_views(assets@).to_set() == included_assets(*set),
{
    set.iter().map(|item| item.key().clone()).collect()
}

/// `DashSet::iter`, each item copied out: every hint of the set once, in no
/// order that could be named. Trusted.
#[verifier::external_body]
fn listed_preloads(set: &DashSet<PreloadableAsset>) -> (assets: Vec<PreloadableAsset>)
    ensures
        hint_views(assets@).no_duplicates(),
        hint_views(assets@).to_set() == preloaded_assets(*set),
{
    set.iter().map(|item| item.key().clone()).collect()
}

/// The assets that the listed paths are.
pub open spec fn assets_at(paths: Seq<Seq<char>>) -> Seq<AssetView> {
    paths.map_values(|path: Seq<char>| AssetView::of_path(path))
}

/// The hints for the listed paths.
pub open spec fn hints_at(paths: Seq<Seq<char>>) -> Seq<PreloadableAssetView> {
    paths.map_values(|path: Seq<char>| PreloadableAssetView::of_path(path))
}

/// The hints for everything that is preloaded with `output`.
pub open spec fn hints_for(index: EsbuildMetaFileView, output: Seq<char>) -> Set<
    PreloadableAssetView,
> {
    hints_at(index.preloads_for(output)).to_set()
}

/// Whether registering an input whose outputs are `outputs`, on a page that
/// so far embeds `included`, calls for `hint`: it is the hint for a preload
/// of one of the outputs that the page did not embed before.
pub open spec fn input_calls_for(
    index: EsbuildMetaFileView,
    included: Set<AssetView>,
    outputs: Seq<Seq<char>>,
    hint: PreloadableAssetView,
) -> bool {
    exists|i: int|
        0 <= i < outputs.len() && !included.contains(AssetView::of_path(#[trigger] outputs[i]))
            && hints_for(index, outputs[i]).contains(hint)
}

/// Whether registering a preload whose outputs are `outputs` calls for
/// `hint`: it is the hint for one of the outputs or for one of their
/// preloads.
pub open spec fn preload_calls_for(
    index: EsbuildMetaFileView,
    outputs: Seq<Seq<char>>,
    hint: PreloadableAssetView,
) -> bool {
    exists|i: int|
        0 <= i < outputs.len() && (hint == PreloadableAssetView::of_path(#[trigger] outputs[i])
            || hints_for(index, outputs[i]).contains(hint))
}

/// The assets that a page has asked for so far.
pub struct HttpPreloader {
    pub includes: DashSet<Asset>,
    pub preloads: DashSet<PreloadableAsset>,
    esbuild_metafile: Arc<EsbuildMetaFile>,
}

/// What a collector holds, as plain values.
pub struct HttpPreloaderView {
    /// The assets to embed.
    pub includes: Set<AssetView>,
    /// The hints to give.
    pub preloads: Set<PreloadableAssetView>,
    /// The index that paths are looked up in.
    pub index: EsbuildMetaFileView,
}

impl HttpPreloaderView {
    /// What the collector holds after the input `input_path` was registered:
    /// unchanged if it is no entry point; otherwise its outputs are
    /// included, and the preloads of those outputs that were not included
    /// before are hinted at.
    pub open spec fn with_input(self, input_path: Seq<char>) -> HttpPreloaderView {
        match self.index.outputs_for(input_path) {
            None => self,
            Some(outputs) => HttpPreloaderView {
                includes: self.includes.union(assets_at(outputs).to_set()),
                preloads: self.preloads.union(
                    Set::new(
                        |hint: PreloadableAssetView|
                            input_calls_for(self.index, self.includes, outputs, hint),
                    ),
                ),
                index: self.index,
            },
        }
    }

    /// What the collector holds after the preload `preload_path` was
    /// registered: unchanged if it is no entry point; otherwise its outputs
    /// and all their preloads are hinted at.
    pub open spec fn with_preload(self, preload_path: Seq<char>) -> HttpPreloaderView {
        match self.index.outputs_for(preload_path) {
            None => self,
            Some(outputs) => HttpPreloaderView {
                includes: self.includes,
                preloads: self.preloads.union(
                    Set::new(
                        |hint: PreloadableAssetView| preload_calls_for(self.index, outputs, hint),
                    ),
                ),
                index: self.index,
            },
        }
    }
}

impl View for HttpPreloader {
    type V = HttpPreloaderView;

    closed spec fn view(&self) -> HttpPreloaderView {
        HttpPreloaderView {
            includes: included_assets(self.includes),
            preloads: preloaded_assets(self.preloads),
            index: self.esbuild_metafile@,
        }
    }
}

impl HttpPreloader {
    /// A collector that holds nothing yet and looks paths up in
    /// `esbuild_metafile`.
    pub fn new(esbuild_metafile: Arc<EsbuildMetaFile>) -> (preloader: HttpPreloader)
        ensures
            preloader@.includes == Set::<AssetView>::empty(),
            preloader@.preloads == Set::<PreloadableAssetView>::empty(),
            preloader@.index == esbuild_metafile@,
    {
        HttpPreloader { esbuild_metafile, includes: no_includes(), preloads: no_preloads() }
    }

    /// The assets to embed, each once, in no particular order.
    pub fn included(&self) -> (assets: Vec<Asset>)
        ensures
            asset_views(assets@).no_duplicates(),
            asset_views(assets@).to_set() == self@.includes,
    {
        listed_includes(&self.includes)
    }

    /// The hints to give, each once, in no particular order.
    pub fn preloaded(&self) -> (assets: Vec<PreloadableAsset>)
        ensures
            hint_views(assets@).no_duplicates(),
            hint_views(assets@).to_set() == self@.preloads,
    {
        listed_preloads(&self.preloads)
    }

    /// Registers an asset that the page embeds, by the entry point it was
    /// built from.
    ///
    /// Every output of the entry point is embedded. For each of them that
    /// the page did not embed before, what is preloaded with it is hinted
    /// at. Answers `None`, and changes nothing, if `input_path` is no entry
    /// point.
    pub fn register_input(&mut self, input_path: &str) -> (registered: Option<()>)
        ensures
            final(self)@ == old(self)@.with_input(input_path@),
            registered.is_some() == old(self)@.index.outputs_for(input_path@).is_some(),
    {
        let ghost before = self@;
        match self.esbuild_metafile.find_outputs_for_input(input_path) {
            None => None,
            Some(output_paths) => {
                let ghost outputs = texts(output_paths@);
                let mut i: usize = 0;
                proof {
                    assert(assets_at(outputs.take(0)).to_set() =~= Set::<AssetView>::empty());
                    assert(self@.includes =~= before.includes.union(
                        assets_at(outputs.take(0)).to_set(),
                    ));
                    assert(self@.preloads =~= before.preloads.union(
                        Set::new(
                            |hint: PreloadableAssetView|
                                input_calls_for(
                                    before.index,
                                    before.includes,
                                    outputs.take(0),
                                    hint,
                                ),
                        ),
                    ));
                }
                while i < output_paths.len()
                    invariant
                        i <= output_paths@.len(),
                        outputs == texts(output_paths@),
                        self@.index == before.index,
                        self@.includes == before.includes.union(
                            assets_at(outputs.take(i as int)).to_set(),
                        ),
                        self@.preloads == before.preloads.union(
                            Set::new(
                                |hint: PreloadableAssetView|
                                    input_calls_for(
                                        before.index,
                                        before.includes,
                                        outputs.take(i as int),
                                        hint,
                                    ),
                            ),
                        ),
                    decreases output_paths@.len() - i,
                {
                    let output_path = &output_paths[i];
                    let ghost earlier = self@;
                    let asset = Asset::from_path(output_path.clone());
                    let fresh = insert_asset(&mut self.includes, asset);
                    if fresh {
                        let preloads = self.esbuild_metafile.get_preloads(output_path.as_str());
                        hint_all(&mut self.preloads, &preloads);
                    }
                    proof {
                        lemma_input_step(
                            before.index,
                            before.includes,
                            outputs,
                            i as int,
                        );
                        assert(self@.includes =~= before.includes.union(
                            assets_at(outputs.take(i + 1)).to_set(),
                        ));
                        let added = Set::new(
                            |hint: PreloadableAssetView|
                                input_calls_for(
                                    before.index,
                                    before.includes,
                                    outputs.take(i as int),
                                    hint,
                                ),
                        );
                        let wanted = Set::new(
                            |hint: PreloadableAssetView|
                                input_calls_for(
                                    before.index,
                                    before.includes,
                                    outputs.take(i + 1),
                                    hint,
                                ),
                        );
                        assert(outputs[i as int] == output_path@);
                        assert(earlier.preloads == before.preloads.union(added));
                        if fresh {
                            assert(!earlier.includes.contains(AssetView::of_path(output_path@)));
                            assert(!before.includes.contains(AssetView::of_path(output_path@)));
                            assert(self@.preloads == earlier.preloads.union(
                                hints_for(before.index, output_path@),
                            ));
                            assert(wanted =~= added.union(hints_for(before.index, output_path@)));
                        } else {
                            assert(self@.preloads == earlier.preloads);
                        }
                        if !fresh && !before.includes.contains(AssetView::of_path(output_path@)) {
                            let shown = assets_at(outputs.take(i as int));
                            assert(shown.to_set().contains(AssetView::of_path(output_path@)));
                            let k = choose|k: int|
                                0 <= k < shown.len() && shown[k] == AssetView::of_path(
                                    output_path@,
                                );
                            assert(outputs.take(i as int)[k] == output_path@);
                            assert forall|hint: PreloadableAssetView|
                                hints_for(before.index, output_path@).contains(
                                    hint,
                                ) implies input_calls_for(
                                before.index,
                                before.includes,
                                outputs.take(i as int),
                                hint,
                            ) by {
                                assert(hints_for(before.index, outputs.take(i as int)[k]).contains(
                                    hint,
                                ));
                            }
                            assert(wanted =~= added);
                        }
                        if !fresh && before.includes.contains(AssetView::of_path(output_path@)) {
                            assert(wanted =~= added);
                        }
                        assert(self@.preloads =~= before.preloads.union(
                            Set::new(
                                |hint: PreloadableAssetView|
                                    input_calls_for(
                                        before.index,
                                        before.includes,
                                        outputs.take(i + 1),
                                        hint,
                                    ),
                            ),
                        ));
                    }
                    i = i + 1;
                }
                proof {
                    assert(outputs.take(i as int) =~= outputs);
                }
                Some(())
            },
        }
    }

    /// Registers something that the page wants fetched ahead of need, by
    /// the entry point it was built from.
    ///
    /// Every output of the entry point is hinted at, and so is everything
    /// preloaded with any of them. Answers `None`, and changes nothing, if
    /// `preload_path` is no entry point.
    pub fn register_preload(&mut self, preload_path: &str) -> (registered: Option<()>)
        ensures
            final(self)@ == old(self)@.with_preload(preload_path@),
            registered.is_some() == old(self)@.index.outputs_for(preload_path@).is_some(),
    {
        let ghost before = self@;
        match self.esbuild_metafile.find_outputs_for_input(preload_path) {
            None => None,
            Some(output_paths) => {
                let ghost outputs = texts(output_paths@);
                let mut i: usize = 0;
                proof {
                    assert(self@.preloads =~= before.preloads.union(
                        Set::new(
                            |hint: PreloadableAssetView|
                                preload_calls_for(before.index, outputs.take(0), hint),
                        ),
                    ));
                }
                while i < output_paths.len()
                    invariant
                        i <= output_paths@.len(),
                        outputs == texts(output_paths@),
                        self@.index == before.index,
                        self@.includes == before.includes,
                        self@.preloads == before.preloads.union(
                            Set::new(
                                |hint: PreloadableAssetView|
                                    preload_calls_for(before.index, outputs.take(i as int), hint),
                            ),
                        ),
                    decreases output_paths@.len() - i,
                {
                    let output_path = &output_paths[i];
                    let hint = PreloadableAsset::from_path(output_path.clone());
                    insert_hint(&mut self.preloads, hint);
                    let preloads = self.esbuild_metafile.get_preloads(output_path.as_str());
                    hint_all(&mut self.preloads, &preloads);
                    proof {
                        lemma_preload_step(before.index, outputs, i as int);
                        assert(self@.preloads =~= before.preloads.union(
                            Set::new(
                                |hint: PreloadableAssetView|
                                    preload_calls_for(before.index, outputs.take(i + 1), hint),
                            ),
                        ));
                    }
                    i = i + 1;
                }
                proof {
                    assert(outputs.take(i as int) =~= outputs);
                }
                Some(())
            },
        }
    }
}

/// Adds the hint for each of `paths` to the set.
fn hint_all(set: &mut DashSet<PreloadableAsset>, paths: &Vec<String>)
    ensures
        preloaded_assets(*final(set)) == preloaded_assets(*old(set)).union(
            hints_at(texts(paths@)).to_set(),
        ),
{
    let ghost before = preloaded_assets(*set);
    let mut j: usize = 0;
    proof {
        assert(preloaded_assets(*set) =~= before.union(
            hints_at(texts(paths@).take(0)).to_set(),
        ));
    }
    while j < paths.len()
        invariant
            j <= paths@.len(),
            preloaded_assets(*set) == before.union(
                hints_at(texts(paths@).take(j as int)).to_set(),
            ),
        decreases paths@.len() - j,
    {
        let path = paths[j].clone();
        proof {
            let taken = texts(paths@).take(j as int);
            assert(texts(paths@).take(j + 1) =~= taken.push(path@));
            assert(hints_at(taken.push(path@)) =~= hints_at(taken).push(
                PreloadableAssetView::of_path(path@),
            ));
            hints_at(taken).lemma_push_to_set_commute(PreloadableAssetView::of_path(path@));
        }
        insert_hint(set, PreloadableAsset::from_path(path));
        j = j + 1;
        proof {
            assert(preloaded_assets(*set) =~= before.union(
                hints_at(texts(paths@).take(j as int)).to_set(),
            ));
        }
    }
    proof {
        assert(texts(paths@).take(j as int) =~= texts(paths@));
    }
}

/// What one more output adds to the hints that registering an input calls
/// for: its own, unless the page embedded it before.
proof fn lemma_input_step(
    index: EsbuildMetaFileView,
    included: Set<AssetView>,
    outputs: Seq<Seq<char>>,
    i: int,
)
    requires
        0 <= i < outputs.len(),
    ensures
        assets_at(outputs.take(i + 1)).to_set() == assets_at(outputs.take(i)).to_set().insert(
            AssetView::of_path(outputs[i]),
        ),
        forall|hint: PreloadableAssetView|
            input_calls_for(index, included, outputs.take(i + 1), hint) <==> input_calls_for(
                index,
                included,
                outputs.take(i),
                hint,
            ) || (!included.contains(AssetView::of_path(outputs[i])) && hints_for(
                index,
                outputs[i],
            ).contains(hint)),
{
    let shorter = outputs.take(i);
    let longer = outputs.take(i + 1);
    assert(longer =~= shorter.push(outputs[i]));
    assert(assets_at(longer) =~= assets_at(shorter).push(AssetView::of_path(outputs[i])));
    assets_at(shorter).lemma_push_to_set_commute(AssetView::of_path(outputs[i]));
    assert forall|hint: PreloadableAssetView|
        input_calls_for(index, included, longer, hint) <==> input_calls_for(
            index,
            included,
            shorter,
            hint,
        ) || (!included.contains(AssetView::of_path(outputs[i])) && hints_for(
            index,
            outputs[i],
        ).contains(hint)) by {
        if input_calls_for(index, included, longer, hint) {
            let k = choose|k: int|
                0 <= k < longer.len() && !included.contains(
                    AssetView::of_path(#[trigger] longer[k]),
                ) && hints_for(index, longer[k]).contains(hint);
            if k < i {
                assert(shorter[k] == longer[k]);
            }
        }
        if input_calls_for(index, included, shorter, hint) {
            let k = choose|k: int|
                0 <= k < shorter.len() && !included.contains(
                    AssetView::of_path(#[trigger] shorter[k]),
                ) && hints_for(index, shorter[k]).contains(hint);
            assert(longer[k] == shorter[k]);
        }
        if !included.contains(AssetView::of_path(outputs[i])) && hints_for(
            index,
            outputs[i],
        ).contains(hint) {
            assert(longer[i] == outputs[i]);
        }
    }
}

/// What one more output adds to the hints that registering a preload calls
/// for: the hint for itself, and those for what is preloaded with it.
proof fn lemma_preload_step(index: EsbuildMetaFileView, outputs: Seq<Seq<char>>, i: int)
    requires
        0 <= i < outputs.len(),
    ensures
        forall|hint: PreloadableAssetView|
            preload_calls_for(index, outputs.take(i + 1), hint) <==> preload_calls_for(
                index,
                outputs.take(i),
                hint,
            ) || hint == PreloadableAssetView::of_path(outputs[i]) || hints_for(
                index,
                outputs[i],
            ).contains(hint),
{
    let shorter = outputs.take(i);
    let longer = outputs.take(i + 1);
    assert forall|hint: PreloadableAssetView|
        preload_calls_for(index, longer, hint) <==> preload_calls_for(index, shorter, hint)
            || hint == PreloadableAssetView::of_path(outputs[i]) || hints_for(
            index,
            outputs[i],
        ).contains(hint) by {
        if preload_calls_for(index, longer, hint) {
            let k = choose|k: int|
                0 <= k < longer.len() && (hint == PreloadableAssetView::of_path(
                    #[trigger] longer[k],
                ) || hints_for(index, longer[k]).contains(hint));
            if k < i {
                assert(shorter[k] == longer[k]);
            }
        }
        if preload_calls_for(index, shorter, hint) {
            let k = choose|k: int|
                0 <= k < shorter.len() && (hint == PreloadableAssetView::of_path(
                    #[trigger] shorter[k],
                ) || hints_for(index, shorter[k]).contains(hint));
            assert(longer[k] == shorter[k]);
        }
        if hint == PreloadableAssetView::of_path(outputs[i]) || hints_for(
            index,
            outputs[i],
        ).contains(hint) {
            assert(longer[i] == outputs[i]);
        }
    }
}

/// Registering the same input a second time changes nothing: the page
/// embeds and hints at exactly what it did after the first time.
pub proof fn lemma_register_input_twice(state: HttpPreloaderView, input_path: Seq<char>)
    ensures
        state.with_input(input_path).with_input(input_path) == state.with_input(input_path),
{
    let once = state.with_input(input_path);
    let twice = once.with_input(input_path);
    match state.index.outputs_for(input_path) {
        None => {},
        Some(outputs) => {
            assert forall|hint: PreloadableAssetView|
                !input_calls_for(once.index, once.includes, outputs, hint) by {
                if input_calls_for(once.index, once.includes, outputs, hint) {
                    let i = choose|i: int|
                        0 <= i < outputs.len() && !once.includes.contains(
                            AssetView::of_path(#[trigger] outputs[i]),
                        ) && hints_for(once.index, outputs[i]).contains(hint);
                    assert(assets_at(outputs)[i] == AssetView::of_path(outputs[i]));
                    assert(assets_at(outputs).to_set().contains(AssetView::of_path(outputs[i])));
                }
            }
            assert(twice.includes =~= once.includes);
            assert(twice.preloads =~= once.preloads);
        },
    }
}

/// An input all of whose outputs the page embeds already brings no hints
/// with it: registering it leaves the page as it was, however much is
/// preloaded with those outputs.
pub proof fn lemma_embedded_outputs_bring_no_hints(state: HttpPreloaderView, input_path: Seq<char>)
    requires
        state.index.outputs_for(input_path) matches Some(outputs) && forall|i: int|
            0 <= i < outputs.len() ==> state.includes.contains(
                AssetView::of_path(#[trigger] outputs[i]),
            ),
    ensures
        state.with_input(input_path) == state,
{
    let outputs = state.index.outputs_for(input_path).unwrap();
    let after = state.with_input(input_path);
    assert forall|asset: AssetView| assets_at(outputs).to_set().contains(
        asset,
    ) implies state.includes.contains(asset) by {
        let i = choose|i: int| 0 <= i < assets_at(outputs).len() && assets_at(outputs)[i] == asset;
        assert(asset == AssetView::of_path(outputs[i]));
    }
    assert(after.includes =~= state.includes);
    assert(after.preloads =~= state.preloads);
}

/// A hint is brought by an input only through an output that the page did
/// not embed before, and then it is kept: afterwards the page hints at it,
/// and at everything it hinted at before.
pub proof fn lemma_hints_of_new_outputs_are_kept(
    state: HttpPreloaderView,
    input_path: Seq<char>,
    hint: PreloadableAssetView,
)
    requires
        state.index.outputs_for(input_path) is Some,
    ensures
        state.with_input(input_path).preloads.contains(hint) <==> state.preloads.contains(hint)
            || input_calls_for(
            state.index,
            state.includes,
            state.index.outputs_for(input_path).unwrap(),
            hint,
        ),
{
}

/// What two inputs share is hinted at once: however the hints of a page are
/// listed, each of them once, a hint that either of two registered inputs
/// brought stands in the list exactly one time.
pub proof fn lemma_shared_hint_is_listed_once(
    state: HttpPreloaderView,
    first: Seq<char>,
    second: Seq<char>,
    hint: PreloadableAssetView,
    listed: Seq<PreloadableAssetView>,
)
    requires
        state.with_input(first).preloads.contains(hint) || state.with_input(first).with_input(
            second,
        ).preloads.contains(hint),
        listed.no_duplicates(),
        listed.to_set() == state.with_input(first).with_input(second).preloads,
    ensures
        listed.to_multiset().count(hint) == 1,
{
    let one = state.with_input(first);
    let both = one.with_input(second);
    assert(both.preloads.contains(hint)) by {
        match one.index.outputs_for(second) {
            None => {},
            Some(outputs) => {},
        }
    }
    assert(listed.contains(hint));
    listed.to_multiset_ensures();
    listed.lemma_multiset_has_no_duplicates();
}

/// An output of unknown kind is embedded like any other: after its input
/// was registered the page holds it, though its markup is empty.
pub proof fn lemma_unknown_asset_is_kept(state: HttpPreloaderView, input_path: Seq<char>, i: int)
    requires
        state.index.outputs_for(input_path) matches Some(outputs) && 0 <= i < outputs.len()
            && AssetView::of_path(outputs[i]).kind == AssetKind::Unknown,
    ensures
        ({
            let asset = AssetView::of_path(state.index.outputs_for(input_path).unwrap()[i]);
            &&& state.with_input(input_path).includes.contains(asset)
            &&& forall|address: Seq<char>| asset.markup(address) == Seq::<char>::empty()
        }),
{
    let outputs = state.index.outputs_for(input_path).unwrap();
    assert(assets_at(outputs)[i] == AssetView::of_path(outputs[i]));
    assert(assets_at(outputs).to_set().contains(AssetView::of_path(outputs[i])));
}

} // verus!
