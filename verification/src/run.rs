//! Run orchestration: planning a whole run from the graph, synthesizing the
//! argument lists for the external image builder, computing the artifact
//! paths of the layer extractor, and the state machine that sequences
//! build and extraction. The library decides; the caller performs the
//! subprocess and filesystem work and reports each outcome back as an event.

use vstd::prelude::*;

use crate::config::{spec_index_of, spec_step_of, Build, Config};
use crate::error::BuildError;
use crate::render::{render_dockerfile, render_step, spec_joined, spec_render_step};
use crate::resolve::{
    all_imports_known, names_cycle, names_unknown_import, resolve, spec_has_dependent,
    valid_name_order,
};
use vstd::string::{StrSliceExecFns, StringExecFns};

verus! {

/// The run-wide toggles and global build arguments, handed through to every
/// build invocation unmodified.
pub struct BuildOptions {
    pub args: Vec<String>,
    pub compress: bool,
    pub force_rm: bool,
    pub pull: bool,
    pub no_cache: bool,
    pub dry_run: bool,
}

/// The output tag of a step: its explicit image name when given, otherwise
/// derived as `layercake_<stepName>`.
pub open spec fn spec_step_tag(name: Seq<char>, image: Option<String>) -> Seq<char> {
    match image {
        Some(t) => t@,
        None => "layercake_"@ + name,
    }
}

/// Computes a step's output tag.
pub fn step_tag(name: &String, image: &Option<String>) -> (r: String)
    ensures
        r@ == spec_step_tag(name@, *image),
{
    match image {
        Some(t) => t.clone(),
        None => {
            let mut r = String::from_str("layercake_");
            r.append(name.as_str());
            r
        },
    }
}

/// The repeated `--build-arg <value>` pairs for the run-wide arguments.
pub open spec fn spec_global_args(args: Seq<String>) -> Seq<Seq<char>>
    decreases args.len(),
{
    if args.len() == 0 {
        Seq::empty()
    } else {
        spec_global_args(args.drop_last()) + seq!["--build-arg"@, args.last()@]
    }
}

/// The repeated `--build-arg <key>=<value>` pairs for a step's arguments.
pub open spec fn spec_step_args(args: Seq<(String, String)>) -> Seq<Seq<char>>
    decreases args.len(),
{
    if args.len() == 0 {
        Seq::empty()
    } else {
        spec_step_args(args.drop_last()) + seq![
            "--build-arg"@,
            args.last().0@ + "="@ + args.last().1@,
        ]
    }
}

/// The whole argument list of one image-build invocation: the build
/// subcommand, the target tag, the instruction file, the run-wide arguments,
/// the toggles that are set, the step's own arguments, and the build context
/// root, in that order.
pub open spec fn spec_build_args(
    tag: Seq<char>,
    file: Seq<char>,
    opts: BuildOptions,
    step_args: Seq<(String, String)>,
    context: Seq<char>,
) -> Seq<Seq<char>> {
    seq!["build"@, "-t"@, tag, "-f"@, file] + spec_global_args(opts.args@) + (if opts.compress {
        seq!["--compress"@]
    } else {
        Seq::empty()
    }) + (if opts.force_rm {
        seq!["--force-rm"@]
    } else {
        Seq::empty()
    }) + (if opts.pull {
        seq!["--pull"@]
    } else {
        Seq::empty()
    }) + (if opts.no_cache {
        seq!["--no-cache"@]
    } else {
        Seq::empty()
    }) + spec_step_args(step_args) + seq![context]
}

/// Synthesizes the argument list of one image-build invocation.
pub fn docker_build_args(
    tag: &String,
    file: &String,
    opts: &BuildOptions,
    step_args: &Vec<(String, String)>,
    context: &String,
) -> (r: Vec<String>)
    ensures
        r.deep_view() == spec_build_args(tag@, file@, *opts, step_args@, context@),
{
    let mut r: Vec<String> = Vec::new();
    r.push(String::from_str("build"));
    r.push(String::from_str("-t"));
    r.push(tag.clone());
    r.push(String::from_str("-f"));
    r.push(file.clone());
    let ghost base = seq!["build"@, "-t"@, tag@, "-f"@, file@];
    proof {
        assert(bridge(r@) =~= base);
    }
    let mut k: usize = 0;
    while k < opts.args.len()
        invariant
            k <= opts.args@.len(),
            bridge(r@) == base + spec_global_args(opts.args@.subrange(0, k as int)),
        decreases opts.args@.len() - k,
    {
        let ghost r_old = r@;
        r.push(String::from_str("--build-arg"));
        r.push(opts.args[k].clone());
        proof {
            let pref1 = opts.args@.subrange(0, k as int + 1);
            assert(pref1.drop_last() =~= opts.args@.subrange(0, k as int));
            assert(pref1.last() == opts.args@[k as int]);
            assert(spec_global_args(pref1) == spec_global_args(
                opts.args@.subrange(0, k as int),
            ) + seq!["--build-arg"@, opts.args@[k as int]@]);
            assert(bridge(r@) =~= bridge(r_old) + seq![
                "--build-arg"@,
                opts.args@[k as int]@,
            ]);
            assert(bridge(r@) =~= base + spec_global_args(pref1));
        }
        k = k + 1;
    }
    proof {
        assert(opts.args@.subrange(0, opts.args@.len() as int) =~= opts.args@);
    }
    let ghost with_globals = base + spec_global_args(opts.args@);
    if opts.compress {
        r.push(String::from_str("--compress"));
    }
    if opts.force_rm {
        r.push(String::from_str("--force-rm"));
    }
    if opts.pull {
        r.push(String::from_str("--pull"));
    }
    if opts.no_cache {
        r.push(String::from_str("--no-cache"));
    }
    let ghost with_flags = with_globals + (if opts.compress {
        seq!["--compress"@]
    } else {
        Seq::<Seq<char>>::empty()
    }) + (if opts.force_rm {
        seq!["--force-rm"@]
    } else {
        Seq::<Seq<char>>::empty()
    }) + (if opts.pull {
        seq!["--pull"@]
    } else {
        Seq::<Seq<char>>::empty()
    }) + (if opts.no_cache {
        seq!["--no-cache"@]
    } else {
        Seq::<Seq<char>>::empty()
    });
    proof {
        assert(bridge(r@) =~= with_flags);
    }
    let mut j: usize = 0;
    while j < step_args.len()
        invariant
            j <= step_args@.len(),
            bridge(r@) == with_flags + spec_step_args(step_args@.subrange(0, j as int)),
        decreases step_args@.len() - j,
    {
        let ghost r_old = r@;
        r.push(String::from_str("--build-arg"));
        let mut pair = step_args[j].0.clone();
        pair.append("=");
        pair.append(step_args[j].1.as_str());
        proof {
            assert(pair@ == step_args@[j as int].0@ + "="@ + step_args@[j as int].1@);
        }
        r.push(pair);
        proof {
            let pref1 = step_args@.subrange(0, j as int + 1);
            assert(pref1.drop_last() =~= step_args@.subrange(0, j as int));
            assert(pref1.last() == step_args@[j as int]);
            assert(spec_step_args(pref1) == spec_step_args(step_args@.subrange(0, j as int))
                + seq![
                "--build-arg"@,
                step_args@[j as int].0@ + "="@ + step_args@[j as int].1@,
            ]);
            assert(bridge(r@) =~= bridge(r_old) + seq![
                "--build-arg"@,
                step_args@[j as int].0@ + "="@ + step_args@[j as int].1@,
            ]);
            assert(bridge(r@) =~= with_flags + spec_step_args(pref1));
        }
        j = j + 1;
    }
    proof {
        assert(step_args@.subrange(0, step_args@.len() as int) =~= step_args@);
    }
    r.push(context.clone());
    proof {
        assert(bridge(r@) =~= spec_build_args(tag@, file@, *opts, step_args@, context@));
        assert(r.deep_view() =~= bridge(r@));
    }
    r
}

/// The views of a vector of strings.
pub open spec fn bridge(v: Seq<String>) -> Seq<Seq<char>> {
    Seq::new(v.len(), |k: int| v[k]@)
}

/// The argument list of one image-export invocation.
pub fn docker_save_args(tag: &String) -> (r: Vec<String>)
    ensures
        r.deep_view() == seq!["save"@, tag@],
{
    let mut r: Vec<String> = Vec::new();
    r.push(String::from_str("save"));
    r.push(tag.clone());
    proof {
        assert(r.deep_view() =~= seq!["save"@, tag@]);
    }
    r
}

/// The metadata file at the root of an unpacked image export.
pub fn repositories_path(step_dir: &str) -> (r: String)
    ensures
        r@ == step_dir@ + "/repositories"@,
{
    let mut r = step_dir.to_owned();
    r.append("/repositories");
    r
}

/// Where the topmost layer's archive lies within the unpacked export: the
/// layer identifier names a subdirectory holding `layer.tar`.
pub fn layer_source_path(step_dir: &str, latest: &str) -> (r: String)
    ensures
        r@ == step_dir@ + "/"@ + latest@ + "/layer.tar"@,
{
    let mut r = step_dir.to_owned();
    r.append("/");
    r.append(latest);
    r.append("/layer.tar");
    r
}

/// The stable, step-name-keyed artifact location a dependent step's `ADD`
/// line refers to.
pub fn layer_artifact_path(workspace: &str, name: &str) -> (r: String)
    ensures
        r@ == workspace@ + "/"@ + name@ + ".tar"@,
{
    let mut r = workspace.to_owned();
    r.append("/");
    r.append(name);
    r.append(".tar");
    r
}

// ---------------------------------------------------------------------------
// The per-run state machine.
// ---------------------------------------------------------------------------

/// One planned step: its name, output tag, rendered instruction lines and
/// text, its own build arguments, and whether its layer must be extracted
/// for later steps.
pub struct StepPlan {
    pub name: String,
    pub tag: String,
    pub lines: Vec<String>,
    pub text: String,
    pub args: Vec<(String, String)>,
    pub needs_layer: bool,
}

/// The views of a list of key-value argument pairs.
pub open spec fn args_view(v: Seq<(String, String)>) -> Seq<(Seq<char>, Seq<char>)> {
    Seq::new(v.len(), |k: int| (v[k].0@, v[k].1@))
}

/// Copies a list of key-value argument pairs.
fn clone_args(v: &Vec<(String, String)>) -> (r: Vec<(String, String)>)
    ensures
        args_view(r@) == args_view(v@),
{
    let mut r: Vec<(String, String)> = Vec::new();
    let mut k: usize = 0;
    while k < v.len()
        invariant
            k <= v@.len(),
            r@.len() == k,
            forall|x: int|
                0 <= x < k ==> (#[trigger] r@[x]).0@ == v@[x].0@ && r@[x].1@ == v@[x].1@,
        decreases v@.len() - k,
    {
        r.push((v[k].0.clone(), v[k].1.clone()));
        k = k + 1;
    }
    proof {
        assert(args_view(r@) =~= args_view(v@));
    }
    r
}

/// Where the current step stands.
#[derive(Clone, Copy, PartialEq, Eq, Structural, Debug)]
pub enum Phase {
    Building,
    Extracting,
}

/// What the caller must do next.
#[derive(Clone, Copy, PartialEq, Eq, Structural, Debug)]
pub enum Action {
    /// Dry run: emit the step's rendered text; no subprocess is invoked.
    PrintDockerfile { index: usize },
    /// Invoke the image builder for the step.
    BuildImage { index: usize },
    /// Export the step's image and persist its topmost layer.
    ExtractLayer { index: usize },
    /// Nothing remains: the run is complete or was aborted.
    Finished,
}

/// What the caller reports back after performing an action.
#[derive(Clone, Copy, PartialEq, Eq, Structural, Debug)]
pub enum BuildEvent {
    /// The dry-run text was emitted.
    Printed,
    /// The image-build subprocess could not be started.
    BuildSpawnFailed,
    /// The image-build subprocess exited with this status.
    BuildExited { code: i32 },
    /// The image-export subprocess could not be started.
    ExtractSpawnFailed,
    /// The layer was extracted and moved; the export subprocess then exited
    /// with this status.
    ExtractExited { code: i32 },
    /// The `repositories` metadata file was absent.
    ExtractMetadataMissing,
    /// The `repositories` metadata file could not be parsed.
    ExtractMetadataUnparsable,
    /// Moving the extracted layer failed.
    ExtractMoveFailed,
}

/// One run in progress: the planned steps in build order and the position of
/// the machine within them.
pub struct Run {
    pub steps: Vec<StepPlan>,
    pub next: usize,
    pub phase: Phase,
    pub dry_run: bool,
    pub failed: bool,
}

impl Run {
    /// The machine never points past the plan, and extraction is only ever
    /// pending for a live step that needs its layer kept.
    pub open spec fn wf(self) -> bool {
        &&& self.next <= self.steps@.len()
        &&& (!self.failed && self.phase is Extracting ==> {
            &&& self.next < self.steps@.len()
            &&& self.steps@[self.next as int].needs_layer
            &&& !self.dry_run
        })
    }

    /// The action the machine asks for in a given state.
    pub open spec fn spec_next_action(self) -> Action {
        if self.failed || self.next >= self.steps@.len() {
            Action::Finished
        } else if self.dry_run {
            Action::PrintDockerfile { index: self.next }
        } else if self.phase is Building {
            Action::BuildImage { index: self.next }
        } else {
            Action::ExtractLayer { index: self.next }
        }
    }

    /// The event kinds that may answer the pending action.
    pub open spec fn expects(self, e: BuildEvent) -> bool {
        match self.spec_next_action() {
            Action::PrintDockerfile { .. } => e is Printed,
            Action::BuildImage { .. } => e is BuildSpawnFailed || e is BuildExited,
            Action::ExtractLayer { .. } => e is ExtractSpawnFailed || e is ExtractExited
                || e is ExtractMetadataMissing || e is ExtractMetadataUnparsable
                || e is ExtractMoveFailed,
            Action::Finished => false,
        }
    }

    /// What one event does to the machine: the state after it, and the error
    /// it surfaces, if any.
    pub open spec fn spec_on_event(self, e: BuildEvent) -> (Run, Result<(), BuildError>) {
        match e {
            BuildEvent::Printed => (
                Run { next: (self.next + 1) as usize, ..self },
                Ok(()),
            ),
            BuildEvent::BuildSpawnFailed => (
                Run { failed: true, ..self },
                Err(BuildError::SpawnFailed),
            ),
            BuildEvent::BuildExited { code } => {
                if code == 0 {
                    if self.steps@[self.next as int].needs_layer {
                        (Run { phase: Phase::Extracting, ..self }, Ok(()))
                    } else {
                        (Run { next: (self.next + 1) as usize, ..self }, Ok(()))
                    }
                } else {
                    (Run { failed: true, ..self }, Err(BuildError::BuildFailed { code }))
                }
            },
            BuildEvent::ExtractSpawnFailed => (
                Run { failed: true, ..self },
                Err(BuildError::SpawnFailed),
            ),
            BuildEvent::ExtractExited { code } => {
                if code == 0 {
                    (
                        Run { next: (self.next + 1) as usize, phase: Phase::Building, ..self },
                        Ok(()),
                    )
                } else {
                    (Run { failed: true, ..self }, Err(BuildError::ExportFailed { code }))
                }
            },
            BuildEvent::ExtractMetadataMissing => (
                Run { failed: true, ..self },
                Err(BuildError::MetadataMissing),
            ),
            BuildEvent::ExtractMetadataUnparsable => (
                Run { failed: true, ..self },
                Err(BuildError::MetadataUnparsable),
            ),
            BuildEvent::ExtractMoveFailed => (
                Run { failed: true, ..self },
                Err(BuildError::LayerMoveFailed),
            ),
        }
    }

    /// Asks what to do next. In a dry run no build and no extraction is ever
    /// requested, and extraction is only ever requested for a step with at
    /// least one dependent.
    pub fn next_action(&self) -> (a: Action)
        requires
            self.wf(),
        ensures
            a == self.spec_next_action(),
            self.dry_run ==> !(a is BuildImage) && !(a is ExtractLayer),
            a matches Action::ExtractLayer { index } ==> index < self.steps@.len()
                && self.steps@[index as int].needs_layer,
            a matches Action::PrintDockerfile { index } ==> index < self.steps@.len(),
            a matches Action::BuildImage { index } ==> index < self.steps@.len(),
    {
        if self.failed || self.next >= self.steps.len() {
            Action::Finished
        } else if self.dry_run {
            Action::PrintDockerfile { index: self.next }
        } else {
            match self.phase {
                Phase::Building => Action::BuildImage { index: self.next },
                Phase::Extracting => Action::ExtractLayer { index: self.next },
            }
        }
    }

    /// Feeds back the outcome of the pending action. A nonzero build exit
    /// surfaces `BuildFailed` with that status, a nonzero export exit
    /// `ExportFailed`; every error leaves the machine failed, so no later
    /// step is ever begun after a failure.
    pub fn on_event(&mut self, e: BuildEvent) -> (r: Result<(), BuildError>)
        requires
            old(self).wf(),
            old(self).expects(e),
        ensures
            (*final(self), r) == old(self).spec_on_event(e),
            final(self).wf(),
            final(self).steps == old(self).steps,
            final(self).dry_run == old(self).dry_run,
            r is Err ==> final(self).failed && final(self).spec_next_action() is Finished
                && final(self).next == old(self).next,
            match e {
                BuildEvent::BuildExited { code } => code != 0 ==> r == Err::<(), BuildError>(
                    BuildError::BuildFailed { code },
                ),
                BuildEvent::ExtractExited { code } => code != 0 ==> r == Err::<(), BuildError>(
                    BuildError::ExportFailed { code },
                ),
                _ => true,
            },
    {
        match e {
            BuildEvent::Printed => {
                let n = self.steps.len();
                proof {
                    assert(self.next < n);
                    assert(self.dry_run);
                    assert(!(self.phase is Extracting));
                }
                self.next = self.next + 1;
                Ok(())
            },
            BuildEvent::BuildSpawnFailed => {
                self.failed = true;
                Err(BuildError::SpawnFailed)
            },
            BuildEvent::BuildExited { code } => {
                if code == 0 {
                    let n = self.steps.len();
                    proof {
                        assert(self.next < n);
                    }
                    if self.steps[self.next].needs_layer {
                        self.phase = Phase::Extracting;
                        Ok(())
                    } else {
                        self.next = self.next + 1;
                        Ok(())
                    }
                } else {
                    self.failed = true;
                    Err(BuildError::BuildFailed { code })
                }
            },
            BuildEvent::ExtractSpawnFailed => {
                self.failed = true;
                Err(BuildError::SpawnFailed)
            },
            BuildEvent::ExtractExited { code } => {
                if code == 0 {
                    let n = self.steps.len();
                    proof {
                        assert(self.next < n);
                    }
                    self.next = self.next + 1;
                    self.phase = Phase::Building;
                    Ok(())
                } else {
                    self.failed = true;
                    Err(BuildError::ExportFailed { code })
                }
            },
            BuildEvent::ExtractMetadataMissing => {
                self.failed = true;
                Err(BuildError::MetadataMissing)
            },
            BuildEvent::ExtractMetadataUnparsable => {
                self.failed = true;
                Err(BuildError::MetadataUnparsable)
            },
            BuildEvent::ExtractMoveFailed => {
                self.failed = true;
                Err(BuildError::LayerMoveFailed)
            },
        }
    }
}

/// Law: a step with at least one dependent always has its layer extracted
/// right after its build succeeds, and a step with no dependents never
/// does: the machine moves straight on to the next step.
pub proof fn lemma_extraction_iff_dependents(r: Run)
    requires
        r.wf(),
        !r.dry_run,
        r.spec_next_action() is BuildImage,
    ensures
        ({
            let (r2, res) = r.spec_on_event(BuildEvent::BuildExited { code: 0 });
            &&& res is Ok
            &&& (r.steps@[r.next as int].needs_layer <==> r2.spec_next_action()
                == Action::ExtractLayer { index: r.next })
            &&& (!r.steps@[r.next as int].needs_layer ==> !(r2.spec_next_action()
                is ExtractLayer))
        }),
{
}

/// Law: in dry-run mode the machine never asks for a build or an
/// extraction, whatever state it is in.
pub proof fn lemma_dry_run_never_spawns(r: Run)
    requires
        r.dry_run,
    ensures
        !(r.spec_next_action() is BuildImage),
        !(r.spec_next_action() is ExtractLayer),
{
}

/// Law: every error halts the run: after an event that surfaces an error,
/// the machine asks for nothing further, so no subsequent step begins.
pub proof fn lemma_failure_halts(r: Run, e: BuildEvent)
    ensures
        ({
            let (r2, res) = r.spec_on_event(e);
            res is Err ==> r2.spec_next_action() is Finished
        }),
{
}

/// The names of the planned steps, in build order.
pub open spec fn plan_names(steps: Seq<StepPlan>) -> Seq<Seq<char>> {
    Seq::new(steps.len(), |k: int| steps[k].name@)
}

/// Plans a whole run: resolves the graph into a build order and renders
/// every step. The planned steps stand in an order in which every step
/// follows each step it imports; each carries its output tag, its rendered
/// instruction lines and text, and whether any later step imports it.
/// Resolution errors are passed through unchanged, before anything is built.
pub fn plan(config: &Config, opts: &BuildOptions, workspace: &str) -> (r: Result<Run, BuildError>)
    requires
        config.wf(),
    ensures
        (r is Ok) == (all_imports_known(config.build@) && exists|ord: Seq<Seq<char>>|
            valid_name_order(config.build@, ord)),
        r matches Ok(run) ==> {
            &&& run.wf()
            &&& run.next == 0
            &&& run.phase is Building
            &&& !run.failed
            &&& run.dry_run == opts.dry_run
            &&& valid_name_order(config.build@, plan_names(run.steps@))
            &&& (forall|k: int|
                0 <= k < run.steps@.len() ==> {
                    let b = spec_step_of(config.build@, (#[trigger] run.steps@[k]).name@);
                    &&& run.steps@[k].tag@ == spec_step_tag(run.steps@[k].name@, b.image)
                    &&& run.steps@[k].lines.deep_view() == spec_render_step(b, workspace@)
                    &&& run.steps@[k].text@ == spec_joined(spec_render_step(b, workspace@))
                    &&& args_view(run.steps@[k].args@) == args_view(b.args@)
                    &&& run.steps@[k].needs_layer == spec_has_dependent(
                        config.build@,
                        run.steps@[k].name@,
                    )
                })
        },
        r matches Err(e) ==> {
            &&& (e is UnknownImportTarget || e is CycleDetected)
            &&& (e is UnknownImportTarget ==> names_unknown_import(config.build@, e))
            &&& (e is CycleDetected ==> {
                &&& all_imports_known(config.build@)
                &&& (forall|ord: Seq<Seq<char>>| !valid_name_order(config.build@, ord))
                &&& names_cycle(config.build@, e)
            })
        },
{
    let ghost gs = config.build@;
    let res = match resolve(config) {
        Ok(res) => res,
        Err(e) => {
            return Err(e);
        },
    };
    let ghost odv = res.order.deep_view();
    proof {
        assert(odv.len() == res.order@.len());
        assert forall|x: int| 0 <= x < res.order@.len() implies odv[x] == res.order@[x]@ by {
            assert(odv[x] =~= res.order@[x]@);
        }
    }
    let mut steps: Vec<StepPlan> = Vec::new();
    let mut k: usize = 0;
    while k < res.order.len()
        invariant
            config.wf(),
            gs == config.build@,
            odv == res.order.deep_view(),
            odv.len() == res.order@.len(),
            forall|x: int| 0 <= x < res.order@.len() ==> odv[x] == res.order@[x]@,
            valid_name_order(gs, odv),
            res.has_dependents@.len() == res.order@.len(),
            forall|x: int|
                0 <= x < res.order@.len() ==> res.has_dependents@[x] == spec_has_dependent(
                    gs,
                    #[trigger] odv[x],
                ),
            k <= res.order@.len(),
            steps@.len() == k,
            forall|x: int| 0 <= x < k ==> (#[trigger] steps@[x]).name@ == odv[x],
            forall|x: int|
                0 <= x < k ==> {
                    let b = spec_step_of(gs, (#[trigger] steps@[x]).name@);
                    &&& steps@[x].tag@ == spec_step_tag(steps@[x].name@, b.image)
                    &&& steps@[x].lines.deep_view() == spec_render_step(b, workspace@)
                    &&& steps@[x].text@ == spec_joined(spec_render_step(b, workspace@))
                    &&& args_view(steps@[x].args@) == args_view(b.args@)
                    &&& steps@[x].needs_layer == spec_has_dependent(gs, steps@[x].name@)
                },
        decreases res.order@.len() - k,
    {
        let name = &res.order[k];
        let i = match crate::config::find_step(&config.build, name) {
            Some(i) => i,
            None => {
                proof {
                    assert(crate::config::has_step(gs, odv[k as int]));
                    assert(false);
                }
                unreached()
            },
        };
        proof {
            assert(spec_index_of(gs, name@) == i as int) by {
                let i0 = spec_index_of(gs, name@);
                assert(0 <= i0 < gs.len() && gs[i0].0@ == name@);
                if i0 != i as int {
                    if i0 < i as int {
                        assert(gs[i0].0@ != gs[i as int].0@);
                    } else {
                        assert(gs[i as int].0@ != gs[i0].0@);
                    }
                }
            }
        }
        let b = &config.build[i].1;
        let tag = step_tag(name, &b.image);
        let lines = render_step(b, workspace);
        let text = render_dockerfile(b, workspace);
        let needs_layer = res.has_dependents[k];
        let args = clone_args(&b.args);
        steps.push(
            StepPlan { name: name.clone(), tag, lines, text, args, needs_layer },
        );
        proof {
            assert(steps@[k as int].name@ == odv[k as int]);
            assert(spec_step_of(gs, steps@[k as int].name@) == gs[i as int].1);
            assert(steps@[k as int].tag@ == spec_step_tag(
                steps@[k as int].name@,
                gs[i as int].1.image,
            ));
            assert(steps@[k as int].lines.deep_view() == spec_render_step(
                gs[i as int].1,
                workspace@,
            ));
            assert(steps@[k as int].text@ == spec_joined(
                spec_render_step(gs[i as int].1, workspace@),
            ));
            assert(args_view(steps@[k as int].args@) == args_view(gs[i as int].1.args@));
            assert(steps@[k as int].needs_layer == spec_has_dependent(
                gs,
                steps@[k as int].name@,
            ));
        }
        k = k + 1;
    }
    proof {
        assert(plan_names(steps@) =~= odv);
    }
    Ok(Run { steps, next: 0, phase: Phase::Building, dry_run: opts.dry_run, failed: false })
}

} // verus!
