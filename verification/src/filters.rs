//! What a page template calls: two hooks that register what the page needs,
//! and one that writes the markup for all of it.

use crate::asset::{Asset, AssetView};
use crate::http_preloader::{asset_views, hint_views, HttpPreloader, HttpPreloaderView};
use crate::lines::{
    append_lines, by_text, joined, lemma_map_keeps_counts, lemma_same_members_same_counts,
    lemma_sorted_lines_agree, lemma_text_order_is_total, sort_lines,
};
use crate::manifest::texts;
use crate::path_renderer::{root_relative, PathRenderer};
use crate::preloadable_asset::{PreloadableAsset, PreloadableAssetView};
use vstd::prelude::*;
use vstd::relations::sorted_by;
use vstd::string::*;

verus! {

/// The markup of an asset served from the site's root.
pub open spec fn asset_markup() -> spec_fn(AssetView) -> Seq<char> {
    |asset: AssetView| asset.markup(root_relative(asset.path))
}

/// The markup of a hint for an asset served from the site's root.
pub open spec fn hint_markup() -> spec_fn(PreloadableAssetView) -> Seq<char> {
    |hint: PreloadableAssetView| hint.markup(root_relative(hint.path))
}

/// Some list that holds each member of `set` once.
pub open spec fn listing<A>(set: Set<A>) -> Seq<A> {
    choose|order: Seq<A>| order.no_duplicates() && order.to_set() == set
}

/// The lines of markup for a set of assets, sorted.
pub open spec fn asset_lines(includes: Set<AssetView>) -> Seq<Seq<char>> {
    listing(includes).map_values(asset_markup()).sort_by(by_text())
}

/// The lines of markup for a set of hints, sorted.
pub open spec fn hint_lines(preloads: Set<PreloadableAssetView>) -> Seq<Seq<char>> {
    listing(preloads).map_values(hint_markup()).sort_by(by_text())
}

/// The markup for everything a page asked for: the hints first, then the
/// assets, each group sorted by its text and every line closed by a line
/// break.
pub open spec fn rendered_assets(
    preloads: Set<PreloadableAssetView>,
    includes: Set<AssetView>,
) -> Seq<char> {
    joined(hint_lines(preloads)) + joined(asset_lines(includes))
}

/// However the members of a set are listed, their markup sorts into the same
/// lines.
pub proof fn lemma_lines_ignore_order<A>(
    first: Seq<A>,
    second: Seq<A>,
    markup: spec_fn(A) -> Seq<char>,
)
    requires
        first.no_duplicates(),
        second.no_duplicates(),
        first.to_set() == second.to_set(),
    ensures
        first.map_values(markup).sort_by(by_text()) == second.map_values(markup).sort_by(
            by_text(),
        ),
{
    lemma_text_order_is_total();
    lemma_same_members_same_counts(first, second);
    lemma_map_keeps_counts(first, second, markup);
    first.map_values(markup).lemma_sort_by_ensures(by_text());
    second.map_values(markup).lemma_sort_by_ensures(by_text());
    lemma_sorted_lines_agree(
        first.map_values(markup).sort_by(by_text()),
        second.map_values(markup).sort_by(by_text()),
    );
}

/// Pages that embed the same assets and give the same hints are rendered to
/// the same text, whatever was registered to get there and in which order.
pub proof fn lemma_same_members_render_alike(
    first: HttpPreloaderView,
    second: HttpPreloaderView,
)
    requires
        first.includes == second.includes,
        first.preloads == second.preloads,
    ensures
        rendered_assets(first.preloads, first.includes) == rendered_assets(
            second.preloads,
            second.includes,
        ),
{
}

/// Sorting the markup of any list of the members of `set` gives the sorted
/// lines of the set.
proof fn lemma_sorted_markup<A>(
    order: Seq<A>,
    set: Set<A>,
    markup: spec_fn(A) -> Seq<char>,
    sorted: Seq<Seq<char>>,
)
    requires
        order.no_duplicates(),
        order.to_set() == set,
        sorted.to_multiset() == order.map_values(markup).to_multiset(),
        sorted_by(sorted, by_text()),
    ensures
        sorted == listing(set).map_values(markup).sort_by(by_text()),
{
    lemma_text_order_is_total();
    lemma_lines_ignore_order(order, listing(set), markup);
    order.map_values(markup).lemma_sort_by_ensures(by_text());
    lemma_sorted_lines_agree(sorted, order.map_values(markup).sort_by(by_text()));
}

/// The markup of each hint, in the order given.
fn render_hints(hints: &Vec<PreloadableAsset>) -> (lines: Vec<String>)
    ensures
        texts(lines@) == hint_views(hints@).map_values(hint_markup()),
{
    let path_renderer = PathRenderer {  };
    let mut lines: Vec<String> = Vec::new();
    let mut i: usize = 0;
    while i < hints.len()
        invariant
            i <= hints@.len(),
            texts(lines@) == hint_views(hints@).take(i as int).map_values(hint_markup()),
        decreases hints@.len() - i,
    {
        let ghost shorter = lines@;
        let line = hints[i].render(&path_renderer);
        lines.push(line);
        i = i + 1;
        proof {
            let taken = hint_views(hints@).take(i - 1);
            let hint = hints@[i - 1]@;
            assert(line@ == hint_markup()(hint));
            assert(texts(lines@) =~= texts(shorter).push(line@));
            assert(hint_views(hints@).take(i as int) =~= taken.push(hint));
            assert(taken.push(hint).map_values(hint_markup()) =~= taken.map_values(
                hint_markup(),
            ).push(hint_markup()(hint)));
        }
    }
    proof {
        assert(hint_views(hints@).take(i as int) =~= hint_views(hints@));
    }
    lines
}

/// The markup of each asset, in the order given.
fn render_includes(assets: &Vec<Asset>) -> (lines: Vec<String>)
    ensures
        texts(lines@) == asset_views(assets@).map_values(asset_markup()),
{
    let path_renderer = PathRenderer {  };
    let mut lines: Vec<String> = Vec::new();
    let mut i: usize = 0;
    while i < assets.len()
        invariant
            i <= assets@.len(),
            texts(lines@) == asset_views(assets@).take(i as int).map_values(asset_markup()),
        decreases assets@.len() - i,
    {
        let ghost shorter = lines@;
        let line = assets[i].render(&path_renderer);
        lines.push(line);
        i = i + 1;
        proof {
            let taken = asset_views(assets@).take(i - 1);
            let asset = assets@[i - 1]@;
            assert(line@ == asset_markup()(asset));
            assert(texts(lines@) =~= texts(shorter).push(line@));
            assert(asset_views(assets@).take(i as int) =~= taken.push(asset));
            assert(taken.push(asset).map_values(asset_markup()) =~= taken.map_values(
                asset_markup(),
            ).push(asset_markup()(asset)));
        }
    }
    proof {
        assert(asset_views(assets@).take(i as int) =~= asset_views(assets@));
    }
    lines
}

/// Registers the asset built from `input_path` as one that the page embeds,
/// and writes nothing in its place.
///
/// Fails, naming the path, if `input_path` is no entry point.
pub fn asset(input_path: &str, http_preloader: &mut HttpPreloader) -> (written: Result<
    String,
    String,
>)
    ensures
        final(http_preloader)@ == old(http_preloader)@.with_input(input_path@),
        match written {
            Ok(text) => old(http_preloader)@.index.outputs_for(input_path@).is_some() && text@
                == Seq::<char>::empty(),
            Err(message) => old(http_preloader)@.index.outputs_for(input_path@).is_none()
                && message@ == "esbuild input path not found: "@ + input_path@,
        },
{
    match http_preloader.register_input(input_path) {
        Some(_) => Ok(String::new()),
        None => {
            let mut message = "esbuild input path not found: ".to_owned();
            message.append(input_path);
            Err(message)
        },
    }
}

/// Registers what was built from `preload_path` as something to fetch ahead
/// of need, and writes nothing in its place.
///
/// Fails, naming the path, if `preload_path` is no entry point.
pub fn preload(preload_path: &str, http_preloader: &mut HttpPreloader) -> (written: Result<
    String,
    String,
>)
    ensures
        final(http_preloader)@ == old(http_preloader)@.with_preload(preload_path@),
        match written {
            Ok(text) => old(http_preloader)@.index.outputs_for(preload_path@).is_some() && text@
                == Seq::<char>::empty(),
            Err(message) => old(http_preloader)@.index.outputs_for(preload_path@).is_none()
                && message@ == "esbuild preload path not found: "@ + preload_path@,
        },
{
    match http_preloader.register_preload(preload_path) {
        Some(_) => Ok(String::new()),
        None => {
            let mut message = "esbuild preload path not found: ".to_owned();
            message.append(preload_path);
            Err(message)
        },
    }
}

/// The markup for everything the page asked for.
///
/// The lines are sorted, so that the same assets give the same bytes in
/// whatever order they were registered.
pub fn render_assets(http_preloader: &HttpPreloader) -> (markup: String)
    ensures
        markup@ == rendered_assets(http_preloader@.preloads, http_preloader@.includes),
{
    let mut rendered = String::new();
    let hints = http_preloader.preloaded();
    let mut sorted_preloads = render_hints(&hints);
    sort_lines(&mut sorted_preloads);
    proof {
        lemma_sorted_markup(
            hint_views(hints@),
            http_preloader@.preloads,
            hint_markup(),
            texts(sorted_preloads@),
        );
    }
    append_lines(&mut rendered, &sorted_preloads);
    let assets = http_preloader.included();
    let mut sorted_includes = render_includes(&assets);
    sort_lines(&mut sorted_includes);
    proof {
        lemma_sorted_markup(
            asset_views(assets@),
            http_preloader@.includes,
            asset_markup(),
            texts(sorted_includes@),
        );
    }
    append_lines(&mut rendered, &sorted_includes);
    proof {
        assert(rendered@ =~= rendered_assets(
            http_preloader@.preloads,
            http_preloader@.includes,
        ));
    }
    rendered
}

} // verus!
