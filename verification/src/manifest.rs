//! The build manifest as the bundler wrote it: output files, where each came
//! from and what it imports.

use vstd::hash_map::StringHashMap;
use vstd::prelude::*;

verus! {

/// What the manifest records about one source file inside an output. Nothing
/// of it is used.
#[derive(Debug, Clone, Copy, PartialEq, Eq, Structural)]
pub struct InputInOutput {}

/// One import of an output file.
#[derive(Debug)]
pub struct Import {
    pub path: String,
}

/// The record of one output file.
#[derive(Debug)]
pub struct Output {
    pub imports: Vec<Import>,
    pub css_bundle: Option<String>,
    pub entry_point: Option<String>,
    pub inputs: Vec<(String, InputInOutput)>,
}

/// An output record as plain values.
pub struct OutputView {
    /// Paths of the imports, in the manifest's order.
    pub imports: Seq<Seq<char>>,
    /// The style sheet bundled with an entry point.
    pub css_bundle: Option<Seq<char>>,
    /// The source file this output is the entry point of.
    pub entry_point: Option<Seq<char>>,
    /// The source files that went into this output.
    pub inputs: Seq<Seq<char>>,
}

/// A manifest as plain values: each output path with its record.
pub type ManifestView = Map<Seq<char>, OutputView>;

/// The characters of each string of a sequence.
pub open spec fn texts(strings: Seq<String>) -> Seq<Seq<char>> {
    strings.map_values(|text: String| text@)
}

/// The paths of a list of imports.
pub open spec fn import_paths(imports: Seq<Import>) -> Seq<Seq<char>> {
    imports.map_values(|import: Import| import.path@)
}

/// The paths of the sources listed for an output.
pub open spec fn input_paths(inputs: Seq<(String, InputInOutput)>) -> Seq<Seq<char>> {
    inputs.map_values(|input: (String, InputInOutput)| input.0@)
}

/// The characters of an optional string.
pub open spec fn optional_string(text: Option<String>) -> Option<Seq<char>> {
    match text {
        Some(found) => Some(found@),
        None => None,
    }
}

impl View for Output {
    type V = OutputView;

    open spec fn view(&self) -> OutputView {
        OutputView {
            imports: import_paths(self.imports@),
            css_bundle: optional_string(self.css_bundle),
            entry_point: optional_string(self.entry_point),
            inputs: input_paths(self.inputs@),
        }
    }
}

/// Whether no output of the manifest names a source twice.
pub open spec fn sources_distinct(manifest: ManifestView) -> bool {
    forall|path: Seq<char>| #[trigger]
        manifest.contains_key(path) ==> manifest[path].inputs.no_duplicates()
}

/// The outputs of a build, each under its path.
///
/// Records are kept in the order in which their paths first arrived; a record
/// that arrives under a path already present takes the earlier one's place.
pub struct Manifest {
    outputs: Vec<(String, Output)>,
    positions: StringHashMap<usize>,
}

impl Manifest {
    /// The paths of the outputs, in the order in which the manifest is walked.
    pub closed spec fn paths(&self) -> Seq<Seq<char>> {
        self.outputs@.map_values(|entry: (String, Output)| entry.0@)
    }

    /// Every path is found at its own position and nowhere else.
    pub closed spec fn wf(&self) -> bool {
        &&& forall|i: int|
            0 <= i < self.outputs@.len() ==> {
                &&& self.positions@.contains_key(#[trigger] self.outputs@[i].0@)
                &&& self.positions@[self.outputs@[i].0@] == i
            }
        &&& forall|path: Seq<char>| #[trigger]
            self.positions@.contains_key(path) ==> {
                &&& self.positions@[path] < self.outputs@.len()
                &&& self.outputs@[self.positions@[path] as int].0@ == path
            }
    }

    /// A manifest without outputs.
    pub fn new() -> (manifest: Manifest)
        ensures
            manifest.wf(),
            manifest@ == Map::<Seq<char>, OutputView>::empty(),
            manifest.paths() == Seq::<Seq<char>>::empty(),
    {
        let manifest = Manifest { outputs: Vec::new(), positions: StringHashMap::new() };
        assert(manifest@ =~= Map::<Seq<char>, OutputView>::empty());
        assert(manifest.paths() =~= Seq::<Seq<char>>::empty());
        manifest
    }

    /// Puts `output` under `path`, in place of any record already there.
    pub fn insert(&mut self, path: String, output: Output)
        requires
            old(self).wf(),
        ensures
            final(self).wf(),
            final(self)@ == old(self)@.insert(path@, output@),
            final(self).paths() == if old(self)@.contains_key(path@) {
                old(self).paths()
            } else {
                old(self).paths().push(path@)
            },
    {
        let ghost before = *self;
        let found = match self.positions.get(path.as_str()) {
            Some(position) => Some(*position),
            None => None,
        };
        match found {
            Some(position) => {
                self.outputs.set(position, (path, output));
                assert(self.paths() =~= before.paths());
            },
            None => {
                let position = self.outputs.len();
                self.positions.insert(path.clone(), position);
                self.outputs.push((path, output));
                assert(self.paths() =~= before.paths().push(path@));
            },
        }
        assert(self@ =~= before@.insert(path@, output@));
    }

    /// The number of outputs.
    pub fn len(&self) -> (count: usize)
        ensures
            count == self.paths().len(),
    {
        self.outputs.len()
    }

    /// The path of the output at `position`.
    pub fn path_at(&self, position: usize) -> (path: &String)
        requires
            position < self.paths().len(),
        ensures
            path@ == self.paths()[position as int],
    {
        &self.outputs[position].0
    }

    /// The record of the output at `position`.
    pub fn output_at(&self, position: usize) -> (output: &Output)
        requires
            self.wf(),
            position < self.paths().len(),
        ensures
            self@.contains_key(self.paths()[position as int]),
            output@ == self@[self.paths()[position as int]],
    {
        &self.outputs[position].1
    }

    /// The record of the output at `path`, if the manifest has one.
    pub fn get(&self, path: &str) -> (output: Option<&Output>)
        requires
            self.wf(),
        ensures
            match output {
                Some(found) => self@.contains_key(path@) && found@ == self@[path@],
                None => !self@.contains_key(path@),
            },
    {
        match self.positions.get(path) {
            Some(position) => Some(&self.outputs[*position].1),
            None => None,
        }
    }

    /// The paths walked are the paths of the outputs, each once.
    pub proof fn lemma_paths(&self)
        requires
            self.wf(),
        ensures
            self.paths().no_duplicates(),
            forall|path: Seq<char>| self.paths().contains(path) <==> self@.contains_key(path),
    {
        assert forall|path: Seq<char>| self.paths().contains(path) implies self@.contains_key(
            path,
        ) by {
            let i = choose|i: int| 0 <= i < self.paths().len() && self.paths()[i] == path;
            assert(self.outputs@[i].0@ == path);
        }
        assert forall|path: Seq<char>| self@.contains_key(path) implies self.paths().contains(
            path,
        ) by {
            let i = self.positions@[path] as int;
            assert(self.paths()[i] == path);
        }
        assert forall|i: int, j: int|
            0 <= i < self.paths().len() && 0 <= j < self.paths().len() && i
                != j implies self.paths()[i]
            != self.paths()[j] by {
            assert(self.positions@[self.outputs@[i].0@] == i);
            assert(self.positions@[self.outputs@[j].0@] == j);
        }
    }
}

impl View for Manifest {
    type V = ManifestView;

    closed spec fn view(&self) -> ManifestView {
        Map::new(
            |path: Seq<char>| self.positions@.contains_key(path),
            |path: Seq<char>| self.outputs@[self.positions@[path] as int].1@,
        )
    }
}

} // verus!
