use layercake::config::{Build, BuildScript, Config};
use layercake::error::BuildError;
use layercake::render::{render_dockerfile, render_line, render_step};
use layercake::resolve::resolve;
use layercake::run::{
    docker_build_args, docker_save_args, layer_artifact_path, layer_source_path, plan,
    repositories_path, step_tag, Action, BuildEvent, BuildOptions,
};

fn s(x: &str) -> String {
    x.to_string()
}

fn step(from: &str, scripts: Vec<BuildScript>) -> Build {
    Build { from: s(from), image: None, scripts, args: Vec::new() }
}

fn options(dry_run: bool) -> BuildOptions {
    BuildOptions {
        args: Vec::new(),
        compress: false,
        force_rm: false,
        pull: false,
        no_cache: false,
        dry_run,
    }
}

fn two_step_graph() -> Config {
    Config {
        build: vec![
            (s("base"), step("busybox", Vec::new())),
            (s("app"), step("scratch", vec![BuildScript::Import { import: s("base") }])),
        ],
    }
}

#[test]
fn render_is_order_preserving() {
    let b = step(
        "busybox",
        vec![BuildScript::Run { run: s("a") }, BuildScript::Cmd { cmd: s("b") }],
    );
    let lines = render_step(&b, ".layercake-tmp");
    assert_eq!(lines, vec![s("FROM busybox"), s("RUN a"), s("CMD b")]);
}

#[test]
fn render_every_instruction_kind() {
    let ws = "w";
    let cases = vec![
        (BuildScript::Run { run: s("x") }, "RUN x"),
        (BuildScript::Arg { arg: s("x") }, "ARG x"),
        (BuildScript::WorkDir { workdir: s("x") }, "WORKDIR x"),
        (BuildScript::Env { env: s("x") }, "ENV x"),
        (BuildScript::Label { label: s("x") }, "LABEL x"),
        (BuildScript::Expose { expose: s("x") }, "EXPOSE x"),
        (BuildScript::Add { add: s("x") }, "ADD x"),
        (BuildScript::Copy { copy: s("x") }, "COPY x"),
        (BuildScript::Entrypoint { entrypoint: s("x") }, "ENTRYPOINT x"),
        (BuildScript::Volume { volume: s("x") }, "VOLUME x"),
        (BuildScript::User { user: s("x") }, "USER x"),
        (BuildScript::Cmd { cmd: s("x") }, "CMD x"),
        (BuildScript::Maintainer { maintainer: s("x") }, "MAINTAINER x"),
        (BuildScript::OnBuild { onbuild: s("x") }, "ONBUILD x"),
        (BuildScript::StopSignal { stopsignal: s("x") }, "STOPSIGNAL x"),
        (BuildScript::HealthCheck { healthcheck: s("x") }, "HEALTHCHECK x"),
        (BuildScript::Shell { shell: s("x") }, "SHELL x"),
    ];
    for (script, expected) in cases {
        assert_eq!(render_line(&script, ws).as_str(), expected);
    }
}

#[test]
fn import_renders_add_of_artifact_at_root() {
    let line = render_line(&BuildScript::Import { import: s("base") }, ".layercake-tmp");
    assert_eq!(line.as_str(), "ADD .layercake-tmp/base.tar /");
}

#[test]
fn resolver_orders_two_step_graph() {
    let config = two_step_graph();
    let res = resolve(&config).unwrap();
    assert_eq!(res.order, vec![s("base"), s("app")]);
    assert_eq!(res.has_dependents, vec![true, false]);
}

#[test]
fn resolver_reports_cycle() {
    let config = Config {
        build: vec![
            (s("a"), step("busybox", vec![BuildScript::Import { import: s("b") }])),
            (s("b"), step("busybox", vec![BuildScript::Import { import: s("a") }])),
        ],
    };
    match resolve(&config) {
        Err(BuildError::CycleDetected { mut remaining }) => {
            remaining.sort();
            assert_eq!(remaining, vec![s("a"), s("b")]);
        },
        other => panic!("expected a cycle, got {:?}", other.is_ok()),
    }
}

#[test]
fn resolver_reports_unknown_import() {
    let config = Config {
        build: vec![
            (s("app"), step("scratch", vec![BuildScript::Import { import: s("ghost") }])),
        ],
    };
    match resolve(&config) {
        Err(BuildError::UnknownImportTarget { step, import }) => {
            assert_eq!(step, s("app"));
            assert_eq!(import, s("ghost"));
        },
        other => panic!("expected an unknown import, got {:?}", other.is_ok()),
    }
}

#[test]
fn resolver_handles_diamond() {
    let config = Config {
        build: vec![
            (
                s("top"),
                step(
                    "scratch",
                    vec![
                        BuildScript::Import { import: s("left") },
                        BuildScript::Import { import: s("right") },
                    ],
                ),
            ),
            (s("left"), step("x", vec![BuildScript::Import { import: s("root") }])),
            (s("right"), step("x", vec![BuildScript::Import { import: s("root") }])),
            (s("root"), step("busybox", Vec::new())),
        ],
    };
    let res = resolve(&config).unwrap();
    let pos = |name: &str| res.order.iter().position(|n| n == name).unwrap();
    assert!(pos("root") < pos("left"));
    assert!(pos("root") < pos("right"));
    assert!(pos("left") < pos("top"));
    assert!(pos("right") < pos("top"));
    assert_eq!(res.has_dependents[pos("root")], true);
    assert_eq!(res.has_dependents[pos("top")], false);
}

#[test]
fn step_tag_uses_image_or_derives() {
    assert_eq!(step_tag(&s("app"), &Some(s("custom:1"))).as_str(), "custom:1");
    assert_eq!(step_tag(&s("app"), &None).as_str(), "layercake_app");
}

#[test]
fn build_args_exact() {
    let opts = BuildOptions {
        args: vec![s("X=1")],
        compress: true,
        force_rm: false,
        pull: false,
        no_cache: true,
        dry_run: false,
    };
    let step_args = vec![(s("foo"), s("bar"))];
    let argv = docker_build_args(&s("layercake_app"), &s("/tmp/df"), &opts, &step_args, &s("."));
    assert_eq!(
        argv,
        vec![
            s("build"),
            s("-t"),
            s("layercake_app"),
            s("-f"),
            s("/tmp/df"),
            s("--build-arg"),
            s("X=1"),
            s("--compress"),
            s("--no-cache"),
            s("--build-arg"),
            s("foo=bar"),
            s("."),
        ]
    );
}

#[test]
fn save_args_exact() {
    assert_eq!(docker_save_args(&s("layercake_base")), vec![s("save"), s("layercake_base")]);
}

#[test]
fn extractor_paths_exact() {
    assert_eq!(repositories_path(".layercake-tmp/s1").as_str(), ".layercake-tmp/s1/repositories");
    assert_eq!(
        layer_source_path(".layercake-tmp/s1", "abc123").as_str(),
        ".layercake-tmp/s1/abc123/layer.tar"
    );
    assert_eq!(layer_artifact_path(".layercake-tmp", "base").as_str(), ".layercake-tmp/base.tar");
}

#[test]
fn dry_run_emits_exact_text_and_no_subprocess() {
    let config = Config {
        build: vec![
            (
                s("one"),
                step(
                    "busybox",
                    vec![BuildScript::Run { run: s("x") }, BuildScript::Cmd { cmd: s("y") }],
                ),
            ),
        ],
    };
    let mut run = plan(&config, &options(true), ".layercake-tmp").unwrap();
    match run.next_action() {
        Action::PrintDockerfile { index } => {
            assert_eq!(run.steps[index].text.as_str(), "FROM busybox\nRUN x\nCMD y\n");
        },
        _ => panic!("a dry run must only print"),
    }
    run.on_event(BuildEvent::Printed).unwrap();
    assert!(matches!(run.next_action(), Action::Finished));
}

#[test]
fn dockerfile_text_matches_lines() {
    let b = step("busybox", vec![BuildScript::Run { run: s("x") }]);
    assert_eq!(render_dockerfile(&b, "w").as_str(), "FROM busybox\nRUN x\n");
}

#[test]
fn end_to_end_extracts_only_depended_on_steps() {
    let config = two_step_graph();
    let mut run = plan(&config, &options(false), ".layercake-tmp").unwrap();
    assert_eq!(run.steps[0].name, s("base"));
    assert_eq!(run.steps[1].name, s("app"));
    assert_eq!(run.steps[0].needs_layer, true);
    assert_eq!(run.steps[1].needs_layer, false);

    assert!(matches!(run.next_action(), Action::BuildImage { index: 0 }));
    run.on_event(BuildEvent::BuildExited { code: 0 }).unwrap();
    assert!(matches!(run.next_action(), Action::ExtractLayer { index: 0 }));
    run.on_event(BuildEvent::ExtractExited { code: 0 }).unwrap();
    assert!(matches!(run.next_action(), Action::BuildImage { index: 1 }));
    run.on_event(BuildEvent::BuildExited { code: 0 }).unwrap();
    assert!(matches!(run.next_action(), Action::Finished));
}

#[test]
fn app_import_line_references_base_artifact() {
    let config = two_step_graph();
    let run = plan(&config, &options(false), ".layercake-tmp").unwrap();
    assert_eq!(
        run.steps[1].lines,
        vec![s("FROM scratch"), s("ADD .layercake-tmp/base.tar /")]
    );
}

#[test]
fn build_failure_halts_run() {
    let config = two_step_graph();
    let mut run = plan(&config, &options(false), ".layercake-tmp").unwrap();
    assert!(matches!(run.next_action(), Action::BuildImage { index: 0 }));
    let err = run.on_event(BuildEvent::BuildExited { code: 1 }).unwrap_err();
    assert!(matches!(err, BuildError::BuildFailed { code: 1 }));
    assert!(matches!(run.next_action(), Action::Finished));
}

#[test]
fn spawn_failure_halts_run() {
    let config = two_step_graph();
    let mut run = plan(&config, &options(false), ".layercake-tmp").unwrap();
    let err = run.on_event(BuildEvent::BuildSpawnFailed).unwrap_err();
    assert!(matches!(err, BuildError::SpawnFailed));
    assert!(matches!(run.next_action(), Action::Finished));
}

fn run_at_extraction() -> layercake::run::Run {
    let config = two_step_graph();
    let mut run = plan(&config, &options(false), ".layercake-tmp").unwrap();
    run.on_event(BuildEvent::BuildExited { code: 0 }).unwrap();
    assert!(matches!(run.next_action(), Action::ExtractLayer { index: 0 }));
    run
}

#[test]
fn export_failure_halts_run() {
    let mut run = run_at_extraction();
    let err = run.on_event(BuildEvent::ExtractExited { code: 2 }).unwrap_err();
    assert!(matches!(err, BuildError::ExportFailed { code: 2 }));
    assert!(matches!(run.next_action(), Action::Finished));
}

#[test]
fn export_spawn_failure_halts_run() {
    let mut run = run_at_extraction();
    let err = run.on_event(BuildEvent::ExtractSpawnFailed).unwrap_err();
    assert!(matches!(err, BuildError::SpawnFailed));
    assert!(matches!(run.next_action(), Action::Finished));
}

#[test]
fn missing_metadata_halts_run() {
    let mut run = run_at_extraction();
    let err = run.on_event(BuildEvent::ExtractMetadataMissing).unwrap_err();
    assert!(matches!(err, BuildError::MetadataMissing));
    assert!(matches!(run.next_action(), Action::Finished));
}

#[test]
fn unparsable_metadata_halts_run() {
    let mut run = run_at_extraction();
    let err = run.on_event(BuildEvent::ExtractMetadataUnparsable).unwrap_err();
    assert!(matches!(err, BuildError::MetadataUnparsable));
    assert!(matches!(run.next_action(), Action::Finished));
}

#[test]
fn layer_move_failure_halts_run() {
    let mut run = run_at_extraction();
    let err = run.on_event(BuildEvent::ExtractMoveFailed).unwrap_err();
    assert!(matches!(err, BuildError::LayerMoveFailed));
    assert!(matches!(run.next_action(), Action::Finished));
}

#[test]
fn empty_graph_resolves_to_empty_run() {
    let config = Config { build: Vec::new() };
    let res = resolve(&config).unwrap();
    assert!(res.order.is_empty());
    let run = plan(&config, &options(false), "w").unwrap();
    assert!(matches!(run.next_action(), Action::Finished));
}

#[test]
fn self_import_is_a_cycle() {
    let config = Config {
        build: vec![
            (s("a"), step("busybox", vec![BuildScript::Import { import: s("a") }])),
        ],
    };
    match resolve(&config) {
        Err(BuildError::CycleDetected { remaining }) => {
            assert_eq!(remaining, vec![s("a")]);
        },
        other => panic!("expected a cycle, got {:?}", other.is_ok()),
    }
}

#[test]
fn explicit_image_becomes_the_tag() {
    let config = Config {
        build: vec![
            (
                s("foo"),
                Build {
                    from: s("busybox"),
                    image: Some(s("foo_img")),
                    scripts: Vec::new(),
                    args: vec![(s("foo"), s("bar"))],
                },
            ),
        ],
    };
    let run = plan(&config, &options(false), "w").unwrap();
    assert_eq!(run.steps[0].tag, s("foo_img"));
    assert_eq!(run.steps[0].args, vec![(s("foo"), s("bar"))]);
}

#[test]
fn dry_run_walks_every_step_without_building() {
    let config = two_step_graph();
    let mut run = plan(&config, &options(true), ".layercake-tmp").unwrap();
    let mut printed = Vec::new();
    loop {
        match run.next_action() {
            Action::PrintDockerfile { index } => {
                printed.push(run.steps[index].name.clone());
                run.on_event(BuildEvent::Printed).unwrap();
            },
            Action::Finished => break,
            _ => panic!("a dry run must never build or extract"),
        }
    }
    assert_eq!(printed, vec![s("base"), s("app")]);
}
