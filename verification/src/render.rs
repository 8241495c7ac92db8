//! Instruction synthesis: turning a step's instruction list into the text
//! handed to the image builder. Rendering is deterministic and preserves
//! declaration order exactly; an `Import` becomes an unpack-at-root `ADD` of
//! the imported step's extracted layer archive, addressed relative to the
//! build context root.

use vstd::prelude::*;

use crate::config::{Build, BuildScript};
use vstd::string::{StrSliceExecFns, StringExecFns};

verus! {

/// The rendered text of one instruction: the uppercase keyword, a space, and
/// the verbatim payload; an import becomes an `ADD` of the artifact
/// `<workspace>/<name>.tar` unpacked at `/`.
pub open spec fn spec_render_line(s: BuildScript, workspace: Seq<char>) -> Seq<char> {
    match s {
        BuildScript::Run { run } => "RUN "@ + run@,
        BuildScript::Arg { arg } => "ARG "@ + arg@,
        BuildScript::WorkDir { workdir } => "WORKDIR "@ + workdir@,
        BuildScript::Env { env } => "ENV "@ + env@,
        BuildScript::Label { label } => "LABEL "@ + label@,
        BuildScript::Expose { expose } => "EXPOSE "@ + expose@,
        BuildScript::Add { add } => "ADD "@ + add@,
        BuildScript::Copy { copy } => "COPY "@ + copy@,
        BuildScript::Entrypoint { entrypoint } => "ENTRYPOINT "@ + entrypoint@,
        BuildScript::Volume { volume } => "VOLUME "@ + volume@,
        BuildScript::User { user } => "USER "@ + user@,
        BuildScript::Cmd { cmd } => "CMD "@ + cmd@,
        BuildScript::Maintainer { maintainer } => "MAINTAINER "@ + maintainer@,
        BuildScript::OnBuild { onbuild } => "ONBUILD "@ + onbuild@,
        BuildScript::StopSignal { stopsignal } => "STOPSIGNAL "@ + stopsignal@,
        BuildScript::HealthCheck { healthcheck } => "HEALTHCHECK "@ + healthcheck@,
        BuildScript::Shell { shell } => "SHELL "@ + shell@,
        BuildScript::Import { import } => "ADD "@ + workspace + "/"@ + import@ + ".tar /"@,
    }
}

/// The rendered lines of a whole step: the `FROM` line, then one line per
/// instruction, in declaration order.
pub open spec fn spec_render_step(b: Build, workspace: Seq<char>) -> Seq<Seq<char>> {
    Seq::new(
        b.scripts@.len() + 1,
        |k: int|
            if k == 0 {
                "FROM "@ + b.from@
            } else {
                spec_render_line(b.scripts@[k - 1], workspace)
            },
    )
}

/// The lines joined into one text, each line followed by a newline.
pub open spec fn spec_joined(lines: Seq<Seq<char>>) -> Seq<char>
    decreases lines.len(),
{
    if lines.len() == 0 {
        Seq::empty()
    } else {
        spec_joined(lines.drop_last()) + lines.last() + "\n"@
    }
}

/// Renders one instruction.
pub fn render_line(s: &BuildScript, workspace: &str) -> (r: String)
    ensures
        r@ == spec_render_line(*s, workspace@),
{
    match s {
        BuildScript::Run { run } => {
            let mut r = String::from_str("RUN ");
            r.append(run.as_str());
            r
        },
        BuildScript::Arg { arg } => {
            let mut r = String::from_str("ARG ");
            r.append(arg.as_str());
            r
        },
        BuildScript::WorkDir { workdir } => {
            let mut r = String::from_str("WORKDIR ");
            r.append(workdir.as_str());
            r
        },
        BuildScript::Env { env } => {
            let mut r = String::from_str("ENV ");
            r.append(env.as_str());
            r
        },
        BuildScript::Label { label } => {
            let mut r = String::from_str("LABEL ");
            r.append(label.as_str());
            r
        },
        BuildScript::Expose { expose } => {
            let mut r = String::from_str("EXPOSE ");
            r.append(expose.as_str());
            r
        },
        BuildScript::Add { add } => {
            let mut r = String::from_str("ADD ");
            r.append(add.as_str());
            r
        },
        BuildScript::Copy { copy } => {
            let mut r = String::from_str("COPY ");
            r.append(copy.as_str());
            r
        },
        BuildScript::Entrypoint { entrypoint } => {
            let mut r = String::from_str("ENTRYPOINT ");
            r.append(entrypoint.as_str());
            r
        },
        BuildScript::Volume { volume } => {
            let mut r = String::from_str("VOLUME ");
            r.append(volume.as_str());
            r
        },
        BuildScript::User { user } => {
            let mut r = String::from_str("USER ");
            r.append(user.as_str());
            r
        },
        BuildScript::Cmd { cmd } => {
            let mut r = String::from_str("CMD ");
            r.append(cmd.as_str());
            r
        },
        BuildScript::Maintainer { maintainer } => {
            let mut r = String::from_str("MAINTAINER ");
            r.append(maintainer.as_str());
            r
        },
        BuildScript::OnBuild { onbuild } => {
            let mut r = String::from_str("ONBUILD ");
            r.append(onbuild.as_str());
            r
        },
        BuildScript::StopSignal { stopsignal } => {
            let mut r = String::from_str("STOPSIGNAL ");
            r.append(stopsignal.as_str());
            r
        },
        BuildScript::HealthCheck { healthcheck } => {
            let mut r = String::from_str("HEALTHCHECK ");
            r.append(healthcheck.as_str());
            r
        },
        BuildScript::Shell { shell } => {
            let mut r = String::from_str("SHELL ");
            r.append(shell.as_str());
            r
        },
        BuildScript::Import { import } => {
            let mut r = String::from_str("ADD ");
            r.append(workspace);
            r.append("/");
            r.append(import.as_str());
            r.append(".tar /");
            r
        },
    }
}

/// Renders a whole step, line by line, in declaration order.
pub fn render_step(b: &Build, workspace: &str) -> (r: Vec<String>)
    ensures
        r.deep_view() == spec_render_step(*b, workspace@),
{
    let mut r: Vec<String> = Vec::new();
    let mut first = String::from_str("FROM ");
    first.append(b.from.as_str());
    r.push(first);
    let mut k: usize = 0;
    while k < b.scripts.len()
        invariant
            k <= b.scripts@.len(),
            r@.len() == k + 1,
            r@[0]@ == "FROM "@ + b.from@,
            forall|x: int|
                1 <= x < k + 1 ==> (#[trigger] r@[x])@ == spec_render_line(
                    b.scripts@[x - 1],
                    workspace@,
                ),
        decreases b.scripts@.len() - k,
    {
        let line = render_line(&b.scripts[k], workspace);
        r.push(line);
        k = k + 1;
    }
    proof {
        let dv = r.deep_view();
        assert(dv.len() == r@.len());
        assert forall|x: int| 0 <= x < r@.len() implies dv[x] == r@[x]@ by {
            assert(dv[x] =~= r@[x]@);
        }
        assert(dv =~= spec_render_step(*b, workspace@));
    }
    r
}

/// Renders a whole step into one text, each line followed by a newline. This
/// is what a dry run emits and what the image builder is fed.
pub fn render_dockerfile(b: &Build, workspace: &str) -> (r: String)
    ensures
        r@ == spec_joined(spec_render_step(*b, workspace@)),
{
    let lines = render_step(b, workspace);
    let ghost dv = lines.deep_view();
    proof {
        assert(dv.len() == lines@.len());
        assert forall|x: int| 0 <= x < lines@.len() implies dv[x] == lines@[x]@ by {
            assert(dv[x] =~= lines@[x]@);
        }
        assert(dv.subrange(0, 0) =~= Seq::<Seq<char>>::empty());
    }
    let mut r = String::new();
    let mut k: usize = 0;
    while k < lines.len()
        invariant
            dv == lines.deep_view(),
            dv.len() == lines@.len(),
            forall|x: int| 0 <= x < lines@.len() ==> dv[x] == lines@[x]@,
            k <= lines@.len(),
            r@ == spec_joined(dv.subrange(0, k as int)),
        decreases lines@.len() - k,
    {
        r.append(lines[k].as_str());
        r.append("\n");
        proof {
            let pref1 = dv.subrange(0, k as int + 1);
            assert(pref1.drop_last() =~= dv.subrange(0, k as int));
            assert(pref1.last() == dv[k as int]);
        }
        k = k + 1;
    }
    proof {
        assert(dv.subrange(0, lines@.len() as int) =~= dv);
    }
    r
}

} // verus!
