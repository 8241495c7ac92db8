//! The build graph: named steps, their instructions, and their import edges.

use vstd::prelude::*;

verus! {

/// One instruction of a step's build script. Every kind but `Import` carries
/// an opaque payload emitted verbatim after the instruction keyword;
/// `Import` names another step of the same graph whose extracted top layer
/// seeds this step's build.
#[derive(Debug, PartialEq, Eq)]
pub enum BuildScript {
    Run { run: String },
    Arg { arg: String },
    WorkDir { workdir: String },
    Env { env: String },
    Label { label: String },
    Expose { expose: String },
    Add { add: String },
    Copy { copy: String },
    Entrypoint { entrypoint: String },
    Volume { volume: String },
    User { user: String },
    Cmd { cmd: String },
    Maintainer { maintainer: String },
    OnBuild { onbuild: String },
    StopSignal { stopsignal: String },
    HealthCheck { healthcheck: String },
    Shell { shell: String },
    Import { import: String },
}

impl BuildScript {
    /// Whether this instruction imports another step's extracted layer.
    pub open spec fn is_import(self) -> bool {
        self matches BuildScript::Import { .. }
    }

    /// The step name an `Import` instruction refers to (empty otherwise).
    pub open spec fn import_target(self) -> Seq<char> {
        match self {
            BuildScript::Import { import } => import@,
            _ => Seq::empty(),
        }
    }
}

/// The import targets named by a script sequence, in declaration order.
pub open spec fn imports_of_scripts(s: Seq<BuildScript>) -> Seq<Seq<char>>
    decreases s.len(),
{
    if s.len() == 0 {
        Seq::empty()
    } else if s.last().is_import() {
        imports_of_scripts(s.drop_last()).push(s.last().import_target())
    } else {
        imports_of_scripts(s.drop_last())
    }
}

/// One build step: a base image, an optional explicit output tag, an ordered
/// instruction list, and step-level build arguments (keys unique).
#[derive(Debug, PartialEq, Eq)]
pub struct Build {
    pub from: String,
    pub image: Option<String>,
    pub scripts: Vec<BuildScript>,
    pub args: Vec<(String, String)>,
}

impl Build {
    /// The names of the steps this step imports, in declaration order.
    pub open spec fn spec_imports(self) -> Seq<Seq<char>> {
        imports_of_scripts(self.scripts@)
    }
}

/// The whole build graph: a mapping from step name to step, kept as a
/// name-keyed association list. Only the import-derived partial order is
/// semantically meaningful.
#[derive(Debug, PartialEq, Eq)]
pub struct Config {
    pub build: Vec<(String, Build)>,
}

impl Config {
    /// Step names are unique keys.
    pub open spec fn wf(self) -> bool {
        wf_graph(self.build@)
    }
}

/// Step names are pairwise distinct.
pub open spec fn wf_graph(g: Seq<(String, Build)>) -> bool {
    forall|i: int, j: int| 0 <= i < j < g.len() ==> g[i].0@ != g[j].0@
}

/// Some step of the graph bears this name.
pub open spec fn has_step(g: Seq<(String, Build)>, name: Seq<char>) -> bool {
    exists|i: int| 0 <= i < g.len() && g[i].0@ == name
}

/// The index of the step bearing this name (unique when the graph is
/// well formed).
pub open spec fn spec_index_of(g: Seq<(String, Build)>, name: Seq<char>) -> int {
    choose|i: int| 0 <= i < g.len() && g[i].0@ == name
}

/// The step bearing this name.
pub open spec fn spec_step_of(g: Seq<(String, Build)>, name: Seq<char>) -> Build {
    g[spec_index_of(g, name)].1
}

/// Finds the step bearing the given name.
pub fn find_step(g: &Vec<(String, Build)>, name: &String) -> (r: Option<usize>)
    ensures
        match r {
            Some(i) => 0 <= i < g@.len() && g@[i as int].0@ == name@,
            None => !has_step(g@, name@),
        },
{
    let mut i: usize = 0;
    while i < g.len()
        invariant
            i <= g@.len(),
            forall|j: int| 0 <= j < i ==> g@[j].0@ != name@,
        decreases g@.len() - i,
    {
        if g[i].0.eq(name) {
            return Some(i);
        }
        i = i + 1;
    }
    None
}

} // verus!
