//! The walk over the import edges of a manifest that gathers what an entry
//! point preloads.

use crate::graph::{
    has_record, imported, imported_in, imports_of, is_import_of,
    lemma_closed_set_holds_imported, lemma_import_of_imported, lemma_root_is_imported,
};
use crate::manifest::{import_paths, texts, Import, Manifest, ManifestView};
use vstd::hash_set::StringHashSet;
use vstd::prelude::*;

verus! {

/// The paths waiting on the stack.
spec fn waiting(stack: Seq<&String>) -> Set<Seq<char>> {
    stack.map_values(|path: &String| path@).to_set()
}

proof fn lemma_waiting_push(stack: Seq<&String>, path: &String)
    ensures
        waiting(stack.push(path)) == waiting(stack).insert(path@),
{
    let line = stack.map_values(|path: &String| path@);
    assert(stack.push(path).map_values(|path: &String| path@) =~= line.push(path@));
    line.lemma_push_to_set_commute(path@);
}

proof fn lemma_waiting_empty(stack: Seq<&String>)
    requires
        stack.len() == 0,
    ensures
        waiting(stack) == Set::<Seq<char>>::empty(),
{
    assert(waiting(stack) =~= Set::<Seq<char>>::empty());
}

proof fn lemma_to_set_from(paths: Seq<Seq<char>>, start: int)
    requires
        0 <= start < paths.len(),
    ensures
        paths.skip(start).to_set() == paths.skip(start + 1).to_set().insert(paths[start]),
{
    let longer = paths.skip(start);
    let shorter = paths.skip(start + 1);
    assert forall|path: Seq<char>| longer.contains(path) implies shorter.contains(path) || path
        == paths[start] by {
        let i = choose|i: int| 0 <= i < longer.len() && longer[i] == path;
        if i > 0 {
            assert(shorter[i - 1] == path);
        }
    }
    assert forall|path: Seq<char>| shorter.contains(path) implies longer.contains(path) by {
        let i = choose|i: int| 0 <= i < shorter.len() && shorter[i] == path;
        assert(longer[i + 1] == path);
    }
    assert(longer[0] == paths[start]);
    assert(longer.to_set() =~= shorter.to_set().insert(paths[start]));
}

/// Work that the outputs not yet seen may still cause: one visit each, and
/// one look at each of their imports.
spec fn pending(paths: Seq<Seq<char>>, manifest: ManifestView, seen: Set<Seq<char>>) -> nat
    decreases paths.len(),
{
    if paths.len() == 0 {
        0
    } else {
        let rest = pending(paths.drop_last(), manifest, seen);
        if seen.contains(paths.last()) {
            rest
        } else {
            rest + imports_of(manifest, paths.last()).len() + 1
        }
    }
}

proof fn lemma_pending_unlisted(
    paths: Seq<Seq<char>>,
    manifest: ManifestView,
    seen: Set<Seq<char>>,
    path: Seq<char>,
)
    requires
        !paths.contains(path),
    ensures
        pending(paths, manifest, seen.insert(path)) == pending(paths, manifest, seen),
    decreases paths.len(),
{
    if paths.len() > 0 {
        assert forall|other: Seq<char>| paths.drop_last().contains(other) implies paths.contains(
            other,
        ) by {
            let i = choose|i: int|
                0 <= i < paths.drop_last().len() && paths.drop_last()[i] == other;
            assert(paths[i] == other);
        }
        assert(paths[paths.len() - 1] == paths.last());
        lemma_pending_unlisted(paths.drop_last(), manifest, seen, path);
    }
}

proof fn lemma_pending_listed(
    paths: Seq<Seq<char>>,
    manifest: ManifestView,
    seen: Set<Seq<char>>,
    path: Seq<char>,
)
    requires
        paths.no_duplicates(),
        paths.contains(path),
        !seen.contains(path),
    ensures
        pending(paths, manifest, seen.insert(path)) + imports_of(manifest, path).len() + 1
            == pending(paths, manifest, seen),
    decreases paths.len(),
{
    let rest = paths.drop_last();
    if paths.last() == path {
        assert(!rest.contains(path)) by {
            if rest.contains(path) {
                let i = choose|i: int| 0 <= i < rest.len() && rest[i] == path;
                assert(paths[i] == paths[paths.len() - 1]);
            }
        }
        lemma_pending_unlisted(rest, manifest, seen, path);
    } else {
        let i = choose|i: int| 0 <= i < paths.len() && paths[i] == path;
        assert(rest[i] == path);
        lemma_pending_listed(rest, manifest, seen, path);
    }
}

/// What the walk keeps true of the paths it has seen and of those that
/// wait: all of them are imported from the roots, every root is among them,
/// and so is every import of a path already seen.
spec fn walk_holds(
    manifest: ManifestView,
    roots: Seq<Seq<char>>,
    seen: Set<Seq<char>>,
    wait: Set<Seq<char>>,
) -> bool {
    &&& forall|path: Seq<char>| #[trigger]
        seen.union(wait).contains(path) ==> imported(manifest, roots, path)
    &&& forall|root: Seq<char>| #[trigger] roots.contains(root) ==> seen.union(wait).contains(root)
    &&& forall|from: Seq<char>, to: Seq<char>|
        seen.contains(from) && #[trigger] is_import_of(manifest, from, to) ==> seen.union(
            wait,
        ).contains(to)
}

proof fn lemma_walk_start(manifest: ManifestView, roots: Seq<Seq<char>>)
    ensures
        walk_holds(manifest, roots, Set::empty(), roots.to_set()),
{
    let seen = Set::<Seq<char>>::empty();
    assert forall|path: Seq<char>| #[trigger]
        seen.union(roots.to_set()).contains(path) implies imported(manifest, roots, path) by {
        lemma_root_is_imported(manifest, roots, path);
    }
}

proof fn lemma_walk_skip(
    manifest: ManifestView,
    roots: Seq<Seq<char>>,
    seen: Set<Seq<char>>,
    wait: Set<Seq<char>>,
    path: Seq<char>,
)
    requires
        walk_holds(manifest, roots, seen, wait.insert(path)),
        seen.contains(path),
    ensures
        walk_holds(manifest, roots, seen, wait),
{
    let before = seen.union(wait.insert(path));
    let after = seen.union(wait);
    assert forall|other: Seq<char>| #[trigger] after.contains(other) implies imported(
        manifest,
        roots,
        other,
    ) by {
        assert(before.contains(other));
    }
    assert forall|root: Seq<char>| #[trigger] roots.contains(root) implies after.contains(root) by {
        assert(before.contains(root));
    }
    assert forall|from: Seq<char>, to: Seq<char>|
        seen.contains(from) && #[trigger] is_import_of(manifest, from, to) implies after.contains(
        to,
    ) by {
        assert(before.contains(to));
    }
}

proof fn lemma_walk_visit(
    manifest: ManifestView,
    roots: Seq<Seq<char>>,
    seen: Set<Seq<char>>,
    wait: Set<Seq<char>>,
    path: Seq<char>,
)
    requires
        walk_holds(manifest, roots, seen, wait.insert(path)),
    ensures
        walk_holds(
            manifest,
            roots,
            seen.insert(path),
            wait.union(imports_of(manifest, path).to_set()),
        ),
{
    let before = seen.union(wait.insert(path));
    let after = seen.insert(path).union(wait.union(imports_of(manifest, path).to_set()));
    assert(before.contains(path));
    assert(imported(manifest, roots, path));
    assert forall|other: Seq<char>| #[trigger] after.contains(other) implies imported(
        manifest,
        roots,
        other,
    ) by {
        if imports_of(manifest, path).to_set().contains(other) {
            assert(is_import_of(manifest, path, other));
            lemma_import_of_imported(manifest, roots, path, other);
        } else {
            assert(before.contains(other));
        }
    }
    assert forall|root: Seq<char>| #[trigger] roots.contains(root) implies after.contains(root) by {
        assert(before.contains(root));
    }
    assert forall|from: Seq<char>, to: Seq<char>|
        seen.insert(path).contains(from) && #[trigger] is_import_of(
            manifest,
            from,
            to,
        ) implies after.contains(to) by {
        if from == path {
            assert(imports_of(manifest, path).to_set().contains(to));
        } else {
            assert(before.contains(to));
        }
    }
}

proof fn lemma_walk_done(manifest: ManifestView, roots: Seq<Seq<char>>, seen: Set<Seq<char>>)
    requires
        walk_holds(manifest, roots, seen, Set::empty()),
    ensures
        forall|path: Seq<char>| seen.contains(path) <==> imported(manifest, roots, path),
{
    let all = seen.union(Set::empty());
    assert forall|path: Seq<char>| imported(manifest, roots, path) implies seen.contains(path) by {
        let steps = choose|steps: nat| imported_in(manifest, roots, path, steps);
        assert forall|root: Seq<char>| roots.contains(root) implies seen.contains(root) by {
            assert(all.contains(root));
        }
        assert forall|from: Seq<char>, to: Seq<char>|
            seen.contains(from) && #[trigger] is_import_of(
                manifest,
                from,
                to,
            ) implies seen.contains(
            to,
        ) by {
            assert(all.contains(to));
        }
        lemma_closed_set_holds_imported(manifest, roots, seen, path, steps);
    }
    assert forall|path: Seq<char>| seen.contains(path) implies imported(manifest, roots, path) by {
        assert(all.contains(path));
    }
}

/// Puts the paths of `imports` on the stack, the first of them on top.
fn push_imports<'a>(stack: &mut Vec<&'a String>, imports: &'a Vec<Import>)
    ensures
        final(stack)@.len() == old(stack)@.len() + imports@.len(),
        waiting(final(stack)@) == waiting(old(stack)@).union(import_paths(imports@).to_set()),
{
    let ghost before = stack@;
    let mut i: usize = imports.len();
    proof {
        assert(import_paths(imports@).skip(i as int).to_set() =~= Set::<Seq<char>>::empty());
        assert(waiting(stack@) =~= waiting(before).union(
            import_paths(imports@).skip(i as int).to_set(),
        ));
    }
    while i > 0
        invariant
            i <= imports@.len(),
            stack@.len() == before.len() + (imports@.len() - i),
            waiting(stack@) == waiting(before).union(
                import_paths(imports@).skip(i as int).to_set(),
            ),
        decreases i,
    {
        i = i - 1;
        let ghost earlier = stack@;
        stack.push(&imports[i].path);
        proof {
            lemma_waiting_push(earlier, &imports[i as int].path);
            lemma_to_set_from(import_paths(imports@), i as int);
            assert(waiting(stack@) =~= waiting(before).union(
                import_paths(imports@).skip(i as int).to_set(),
            ));
        }
    }
    proof {
        assert(import_paths(imports@).skip(0) =~= import_paths(imports@));
    }
}

/// Gathers everything imported from `first` and `second`, directly or through
/// other outputs of the manifest, each path once.
///
/// Each path gathered is struck from `remaining`, and those that are outputs
/// of the manifest are appended to `outputs` in the order in which the walk
/// came to them.
pub fn collect_preloads(
    manifest: &Manifest,
    first: &Vec<Import>,
    second: &Vec<Import>,
    outputs: &mut Vec<String>,
    remaining: &mut StringHashSet,
) -> (preloads: Vec<String>)
    requires
        manifest.wf(),
    ensures
        texts(preloads@).no_duplicates(),
        forall|path: Seq<char>|
            texts(preloads@).contains(path) <==> imported(
                manifest@,
                import_paths(first@) + import_paths(second@),
                path,
            ),
        texts(final(outputs)@) == texts(old(outputs)@) + texts(preloads@).filter(
            has_record(manifest@),
        ),
        final(remaining)@ == old(remaining)@.difference(texts(preloads@).to_set()),
{
    let ghost roots = import_paths(first@) + import_paths(second@);
    let ghost listed = texts(outputs@);
    let ghost unreached = remaining@;
    let ghost kept = has_record(manifest@);
    let mut preloads: Vec<String> = Vec::new();
    let mut seen = StringHashSet::new();
    let mut stack: Vec<&String> = Vec::new();
    proof {
        lemma_waiting_empty(stack@);
    }
    push_imports(&mut stack, second);
    push_imports(&mut stack, first);
    proof {
        manifest.lemma_paths();
        vstd::seq_lib::seq_to_set_distributes_over_add(import_paths(first@), import_paths(second@));
        assert(waiting(stack@) =~= roots.to_set());
        lemma_walk_start(manifest@, roots);
        assert(texts(preloads@) =~= Seq::<Seq<char>>::empty());
        assert(texts(preloads@).to_set() =~= seen@);
        reveal(Seq::filter);
        assert(texts(outputs@) =~= listed + texts(preloads@).filter(kept));
        assert(remaining@ =~= unreached.difference(seen@));
    }
    while stack.len() > 0
        invariant
            manifest.wf(),
            manifest.paths().no_duplicates(),
            forall|path: Seq<char>|
                manifest.paths().contains(path) <==> manifest@.contains_key(path),
            kept == has_record(manifest@),
            roots == import_paths(first@) + import_paths(second@),
            texts(preloads@).no_duplicates(),
            seen@ == texts(preloads@).to_set(),
            walk_holds(manifest@, roots, seen@, waiting(stack@)),
            texts(outputs@) == listed + texts(preloads@).filter(kept),
            remaining@ == unreached.difference(seen@),
        decreases pending(manifest.paths(), manifest@, seen@) + stack@.len(),
    {
        let ghost stack_before = stack@;
        let ghost seen_before = seen@;
        let ghost preloads_before = preloads@;
        let path: &String = stack.pop().unwrap();
        proof {
            assert(stack_before =~= stack@.push(path));
            lemma_waiting_push(stack@, path);
        }
        if !seen.contains(path.as_str()) {
            seen.insert(path.clone());
            remaining.remove(path.as_str());
            preloads.push(path.clone());
            proof {
                lemma_walk_visit(manifest@, roots, seen_before, waiting(stack@), path@);
                assert(texts(preloads@) =~= texts(preloads_before).push(path@));
                texts(preloads_before).lemma_push_to_set_commute(path@);
                texts(preloads_before).lemma_filter_push(path@, kept);
                assert(remaining@ =~= unreached.difference(seen@));
                assert(texts(preloads@).no_duplicates()) by {
                    assert forall|i: int, j: int|
                        0 <= i < texts(preloads@).len() && 0 <= j < texts(preloads@).len() && i
                            != j implies texts(preloads@)[i] != texts(preloads@)[j] by {
                        if i < preloads_before.len() {
                            assert(texts(preloads_before)[i] == texts(preloads@)[i]);
                            assert(texts(preloads_before).contains(texts(preloads@)[i]));
                        }
                        if j < preloads_before.len() {
                            assert(texts(preloads_before)[j] == texts(preloads@)[j]);
                            assert(texts(preloads_before).contains(texts(preloads@)[j]));
                        }
                    }
                }
            }
            match manifest.get(path.as_str()) {
                Some(record) => {
                    let ghost outputs_before = outputs@;
                    outputs.push(path.clone());
                    push_imports(&mut stack, &record.imports);
                    proof {
                        assert(texts(outputs@) =~= texts(outputs_before).push(path@));
                        assert(kept(path@));
                        assert(import_paths(record.imports@) == imports_of(manifest@, path@));
                        lemma_pending_listed(manifest.paths(), manifest@, seen_before, path@);
                    }
                },
                None => {
                    proof {
                        assert(!kept(path@));
                        assert(imports_of(manifest@, path@) =~= Seq::<Seq<char>>::empty());
                        assert(waiting(stack@).union(imports_of(manifest@, path@).to_set())
                            =~= waiting(stack@));
                        lemma_pending_unlisted(manifest.paths(), manifest@, seen_before, path@);
                    }
                },
            }
        } else {
            proof {
                lemma_walk_skip(manifest@, roots, seen@, waiting(stack@), path@);
            }
        }
    }
    proof {
        lemma_waiting_empty(stack@);
        lemma_walk_done(manifest@, roots, seen@);
        assert forall|path: Seq<char>|
            texts(preloads@).contains(path) <==> imported(manifest@, roots, path) by {
            assert(seen@.contains(path) <==> texts(preloads@).contains(path));
        }
    }
    preloads
}

} // verus!
