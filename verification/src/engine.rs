//! Container-engine command assembly: the argument lists of the detached
//! `run` that provisions a container and of the interactive `exec` that
//! joins one, the image build recipe, and the parsing of engine output.
//! Issuing the commands is input/output and lives outside the library.

use vstd::prelude::*;
use vstd::string::StrSliceExecFns;
use vstd::string::StringExecFns;

use crate::errors::Error;
use crate::ports::{normalize_port_mapping, normalized_port, port_spec_ok};
use crate::text::{split_on, split_string, trim_spaces, trimmed};

verus! {

/// The fixed image every sandbox container runs.
pub open spec fn image_name() -> Seq<char> {
    "aide-code-sandbox"@
}

/// One folder mapped into the container: its canonical host path and the
/// name it is mounted under in the workspace.
#[derive(Clone, Debug)]
pub struct FolderMount {
    pub host_path: String,
    pub name: String,
}

pub ghost struct FolderMountModel {
    pub host_path: Seq<char>,
    pub name: Seq<char>,
}

impl View for FolderMount {
    type V = FolderMountModel;

    open spec fn view(&self) -> FolderMountModel {
        FolderMountModel { host_path: self.host_path@, name: self.name@ }
    }
}

impl DeepView for FolderMount {
    type V = FolderMountModel;

    open spec fn deep_view(&self) -> FolderMountModel {
        self.view()
    }
}

/// The `-v` pair of every requested folder, in request order.
pub open spec fn mount_args(mounts: Seq<FolderMountModel>) -> Seq<Seq<char>>
    decreases mounts.len(),
{
    if mounts.len() == 0 {
        Seq::empty()
    } else {
        mount_args(mounts.drop_last()) + seq![
            "-v"@,
            mounts.last().host_path + ":/home/aide/workspace/"@ + mounts.last().name,
        ]
    }
}

/// The fixed mounts every container gets: the shared credentials and
/// settings, and the per-container conversation overlay.
pub open spec fn shared_mount_args(root: Seq<char>, container: Seq<char>) -> Seq<Seq<char>> {
    seq![
        "-v"@,
        root + "/.aide:/home/aide/.aide"@,
        "-v"@,
        root + "/containers/"@ + container + "/conversations:/home/aide/.aide/projects"@,
        "-v"@,
        root + "/.aide.json:/home/aide/.aide.json"@,
        "-v"@,
        root + "/.aide.json.backup:/home/aide/.aide.json.backup"@,
        "-v"@,
        root + "/.config:/home/aide/.config"@,
    ]
}

pub open spec fn resource_args(memory: Option<Seq<char>>, cpus: Option<Seq<char>>) -> Seq<
    Seq<char>,
> {
    (match memory {
        Some(m) => seq!["--memory"@, m],
        None => Seq::empty(),
    }) + (match cpus {
        Some(c) => seq!["--cpus"@, c],
        None => Seq::empty(),
    })
}

/// The `-p` pair of every requested port, normalized, in request order.
pub open spec fn port_args(ports: Seq<Seq<char>>) -> Seq<Seq<char>>
    recommends
        forall|i: int| 0 <= i < ports.len() ==> port_spec_ok(#[trigger] ports[i]),
    decreases ports.len(),
{
    if ports.len() == 0 {
        Seq::empty()
    } else {
        port_args(ports.drop_last()) + seq!["-p"@, normalized_port(ports.last())]
    }
}

/// The `-e` pair of every extra environment variable, in request order.
pub open spec fn extra_env_args(env_vars: Seq<Seq<char>>) -> Seq<Seq<char>>
    decreases env_vars.len(),
{
    if env_vars.len() == 0 {
        Seq::empty()
    } else {
        extra_env_args(env_vars.drop_last()) + seq!["-e"@, env_vars.last()]
    }
}

/// The full argument list of the detached `run` that provisions a
/// container.
pub open spec fn run_args(
    container: Seq<char>,
    root: Seq<char>,
    mounts: Seq<FolderMountModel>,
    memory: Option<Seq<char>>,
    cpus: Option<Seq<char>>,
    ports: Seq<Seq<char>>,
    env_vars: Seq<Seq<char>>,
) -> Seq<Seq<char>> {
    seq!["run"@, "-d"@, "--name"@, container] + mount_args(mounts) + shared_mount_args(
        root,
        container,
    ) + resource_args(memory, cpus) + port_args(ports) + seq![
        "-e"@,
        "AIDE_API_KEY"@,
        "-e"@,
        "TERM=xterm-256color"@,
    ] + extra_env_args(env_vars) + seq!["--network"@, "bridge"@, image_name()]
}

/// Assemble the detached `run` command for a container. Fails with
/// [`Error::InvalidPortSpec`] on the first port request that does not
/// normalize; nothing else can fail.
#[verifier::loop_isolation(false)]
pub fn build_run_args(
    container: &String,
    config_root: &String,
    mounts: &Vec<FolderMount>,
    memory: Option<&String>,
    cpus: Option<&String>,
    ports: &Vec<String>,
    env_vars: &Vec<String>,
) -> (r: Result<Vec<String>, Error>)
    ensures
        r is Ok <==> (forall|i: int|
            0 <= i < ports.deep_view().len() ==> port_spec_ok(#[trigger] ports.deep_view()[i])),
        r matches Ok(args) ==> args.deep_view() == run_args(
            container@,
            config_root@,
            mounts.deep_view(),
            match memory {
                Some(m) => Some(m@),
                None => None,
            },
            match cpus {
                Some(c) => Some(c@),
                None => None,
            },
            ports.deep_view(),
            env_vars.deep_view(),
        ),
        r matches Err(e) ==> e matches Error::InvalidPortSpec(p) && (exists|i: int|
            0 <= i < ports.deep_view().len() && (#[trigger] ports.deep_view()[i]) == p@
                && !port_spec_ok(p@) && (forall|j: int|
                0 <= j < i ==> port_spec_ok(#[trigger] ports.deep_view()[j]))),
{
    let mut args: Vec<String> = Vec::new();
    args.push(String::from_str("run"));
    args.push(String::from_str("-d"));
    args.push(String::from_str("--name"));
    args.push(container.clone());
    let ghost base0 = seq!["run"@, "-d"@, "--name"@, container@];
    proof {
        assert(args.deep_view() =~= base0);
    }
    let mut i: usize = 0;
    while i < mounts.len()
        invariant
            i <= mounts@.len(),
            args.deep_view() == base0 + mount_args(mounts.deep_view().subrange(0, i as int)),
        decreases mounts@.len() - i,
    {
        let ghost pre = args.deep_view();
        let mut volume = mounts[i].host_path.clone();
        volume.append(":/home/aide/workspace/");
        volume.append(mounts[i].name.as_str());
        let ghost volume_v = volume@;
        args.push(String::from_str("-v"));
        args.push(volume);
        proof {
            let dv = mounts.deep_view();
            assert(volume_v == dv[i as int].host_path + ":/home/aide/workspace/"@ + dv[
                i as int
            ].name);
            assert(args.deep_view() =~= pre.push("-v"@).push(volume_v));
            assert(dv.subrange(0, i + 1).drop_last() =~= dv.subrange(0, i as int));
            assert(dv.subrange(0, i + 1).last() == dv[i as int]);
            assert(mount_args(dv.subrange(0, i + 1)) == mount_args(dv.subrange(0, i as int))
                + seq!["-v"@, volume_v]);
            assert(args.deep_view() =~= base0 + mount_args(dv.subrange(0, i + 1)));
        }
        i = i + 1;
    }
    proof {
        assert(mounts.deep_view().subrange(0, mounts@.len() as int) =~= mounts.deep_view());
    }
    let ghost base1 = base0 + mount_args(mounts.deep_view());

    let mut shared = config_root.clone();
    shared.append("/.aide:/home/aide/.aide");
    args.push(String::from_str("-v"));
    args.push(shared);
    let mut overlay = config_root.clone();
    overlay.append("/containers/");
    overlay.append(container.as_str());
    overlay.append("/conversations:/home/aide/.aide/projects");
    args.push(String::from_str("-v"));
    args.push(overlay);
    let mut settings = config_root.clone();
    settings.append("/.aide.json:/home/aide/.aide.json");
    args.push(String::from_str("-v"));
    args.push(settings);
    let mut settings_backup = config_root.clone();
    settings_backup.append("/.aide.json.backup:/home/aide/.aide.json.backup");
    args.push(String::from_str("-v"));
    args.push(settings_backup);
    let mut app_config = config_root.clone();
    app_config.append("/.config:/home/aide/.config");
    args.push(String::from_str("-v"));
    args.push(app_config);
    proof {
        assert(args.deep_view() =~= base1 + shared_mount_args(config_root@, container@));
    }
    let ghost base2 = base1 + shared_mount_args(config_root@, container@);

    if let Some(m) = memory {
        args.push(String::from_str("--memory"));
        args.push(m.clone());
    }
    if let Some(c) = cpus {
        args.push(String::from_str("--cpus"));
        args.push(c.clone());
    }
    let ghost memory_v: Option<Seq<char>> = match memory {
        Some(m) => Some(m@),
        None => None,
    };
    let ghost cpus_v: Option<Seq<char>> = match cpus {
        Some(c) => Some(c@),
        None => None,
    };
    proof {
        assert(args.deep_view() =~= base2 + resource_args(memory_v, cpus_v));
    }
    let ghost base3 = base2 + resource_args(memory_v, cpus_v);

    let mut p: usize = 0;
    while p < ports.len()
        invariant
            p <= ports@.len(),
            args.deep_view() == base3 + port_args(ports.deep_view().subrange(0, p as int)),
            forall|j: int| 0 <= j < p ==> port_spec_ok(#[trigger] ports.deep_view()[j]),
        decreases ports@.len() - p,
    {
        proof {
            assert(ports.deep_view()[p as int] == ports@[p as int]@);
        }
        match normalize_port_mapping(ports[p].as_str()) {
            Ok(normalized) => {
                let ghost pre = args.deep_view();
                let ghost norm_v = normalized@;
                args.push(String::from_str("-p"));
                args.push(normalized);
                proof {
                    let dv = ports.deep_view();
                    assert(norm_v == normalized_port(dv[p as int]));
                    assert(args.deep_view() =~= pre.push("-p"@).push(norm_v));
                    assert(dv.subrange(0, p + 1).drop_last() =~= dv.subrange(0, p as int));
                    assert(dv.subrange(0, p + 1).last() == dv[p as int]);
                    assert(port_args(dv.subrange(0, p + 1)) == port_args(dv.subrange(0, p as int))
                        + seq!["-p"@, norm_v]);
                    assert(args.deep_view() =~= base3 + port_args(dv.subrange(0, p + 1)));
                }
            },
            Err(e) => {
                return Err(e);
            },
        }
        p = p + 1;
    }
    proof {
        assert(ports.deep_view().subrange(0, ports@.len() as int) =~= ports.deep_view());
    }
    let ghost base4 = base3 + port_args(ports.deep_view());

    args.push(String::from_str("-e"));
    args.push(String::from_str("AIDE_API_KEY"));
    args.push(String::from_str("-e"));
    args.push(String::from_str("TERM=xterm-256color"));
    proof {
        assert(args.deep_view() =~= base4 + seq![
            "-e"@,
            "AIDE_API_KEY"@,
            "-e"@,
            "TERM=xterm-256color"@,
        ]);
    }
    let ghost base5 = base4 + seq!["-e"@, "AIDE_API_KEY"@, "-e"@, "TERM=xterm-256color"@];

    let mut v: usize = 0;
    while v < env_vars.len()
        invariant
            v <= env_vars@.len(),
            args.deep_view() == base5 + extra_env_args(
                env_vars.deep_view().subrange(0, v as int),
            ),
        decreases env_vars@.len() - v,
    {
        let ghost pre = args.deep_view();
        args.push(String::from_str("-e"));
        args.push(env_vars[v].clone());
        proof {
            let dv = env_vars.deep_view();
            assert(args.deep_view() =~= pre.push("-e"@).push(dv[v as int]));
            assert(dv.subrange(0, v + 1).drop_last() =~= dv.subrange(0, v as int));
            assert(dv.subrange(0, v + 1).last() == dv[v as int]);
            assert(extra_env_args(dv.subrange(0, v + 1)) == extra_env_args(
                dv.subrange(0, v as int),
            ) + seq!["-e"@, dv[v as int]]);
            assert(args.deep_view() =~= base5 + extra_env_args(dv.subrange(0, v + 1)));
        }
        v = v + 1;
    }
    proof {
        assert(env_vars.deep_view().subrange(0, env_vars@.len() as int) =~= env_vars.deep_view());
    }

    args.push(String::from_str("--network"));
    args.push(String::from_str("bridge"));
    args.push(String::from_str("aide-code-sandbox"));
    proof {
        assert(args.deep_view() =~= run_args(
            container@,
            config_root@,
            mounts.deep_view(),
            memory_v,
            cpus_v,
            ports.deep_view(),
            env_vars.deep_view(),
        ));
    }
    Ok(args)
}

/// The argument list of the interactive `exec` that joins a container:
/// continuing the most recent conversation takes precedence over resuming
/// a specific one, and the initial prompt comes last.
pub open spec fn aide_exec_args(
    container: Seq<char>,
    prompt: Option<Seq<char>>,
    skip_permissions: bool,
    continue_session: bool,
    resume: Option<Seq<char>>,
) -> Seq<Seq<char>> {
    let base = seq!["exec"@, "-it"@, container, "aide"@];
    let with_permissions = if skip_permissions {
        base.push("--dangerously-skip-permissions"@)
    } else {
        base
    };
    let with_session = if continue_session {
        with_permissions.push("-c"@)
    } else {
        match resume {
            Some(conversation) => with_permissions.push("-r"@).push(conversation),
            None => with_permissions,
        }
    };
    match prompt {
        Some(text) => with_session.push(text),
        None => with_session,
    }
}

/// Assemble the interactive `exec` command for a container.
pub fn build_aide_exec_args(
    container: &String,
    prompt: Option<&String>,
    skip_permissions: bool,
    continue_session: bool,
    resume: Option<&String>,
) -> (args: Vec<String>)
    ensures
        args.deep_view() == aide_exec_args(
            container@,
            match prompt {
                Some(t) => Some(t@),
                None => None,
            },
            skip_permissions,
            continue_session,
            match resume {
                Some(c) => Some(c@),
                None => None,
            },
        ),
{
    let mut args: Vec<String> = Vec::new();
    args.push(String::from_str("exec"));
    args.push(String::from_str("-it"));
    args.push(container.clone());
    args.push(String::from_str("aide"));
    proof {
        assert(args.deep_view() =~= seq!["exec"@, "-it"@, container@, "aide"@]);
    }
    if skip_permissions {
        args.push(String::from_str("--dangerously-skip-permissions"));
    }
    if continue_session {
        args.push(String::from_str("-c"));
    } else if let Some(conversation) = resume {
        args.push(String::from_str("-r"));
        args.push(conversation.clone());
    }
    if let Some(text) = prompt {
        args.push(text.clone());
    }
    proof {
        assert(args.deep_view() =~= aide_exec_args(
            container@,
            match prompt {
                Some(t) => Some(t@),
                None => None,
            },
            skip_permissions,
            continue_session,
            match resume {
                Some(c) => Some(c@),
                None => None,
            },
        ));
    }
    args
}

/// The non-blank lines of the container listing the engine prints, one
/// container name each.
pub open spec fn container_list(s: Seq<char>) -> Seq<Seq<char>> {
    split_non_blank(split_on(s, '\n'))
}

/// The non-empty lines, in order.
pub open spec fn split_non_blank(lines: Seq<Seq<char>>) -> Seq<Seq<char>>
    decreases lines.len(),
{
    if lines.len() == 0 {
        Seq::empty()
    } else {
        let rest = split_non_blank(lines.drop_last());
        if lines.last().len() > 0 {
            rest.push(lines.last())
        } else {
            rest
        }
    }
}

/// Parse the engine's container listing: its non-blank lines name the
/// containers.
pub fn parse_container_list(s: &str) -> (r: Vec<String>)
    ensures
        r.deep_view() == container_list(s@),
{
    let lines = split_string(s, '\n');
    let mut out: Vec<String> = Vec::new();
    let mut i: usize = 0;
    proof {
        assert(lines.deep_view().subrange(0, 0) =~= Seq::<Seq<char>>::empty());
        assert(out.deep_view() =~= split_non_blank(lines.deep_view().subrange(0, 0)));
    }
    while i < lines.len()
        invariant
            i <= lines@.len(),
            lines.deep_view().len() == lines@.len(),
            lines.deep_view() == split_on(s@, '\n'),
            out.deep_view() == split_non_blank(lines.deep_view().subrange(0, i as int)),
        decreases lines@.len() - i,
    {
        proof {
            let dv = lines.deep_view();
            assert(dv.subrange(0, i + 1).drop_last() =~= dv.subrange(0, i as int));
            assert(dv.subrange(0, i + 1).last() == dv[i as int]);
        }
        let ghost old_out = out.deep_view();
        if !lines[i].as_str().is_empty() {
            let line = lines[i].clone();
            out.push(line);
            proof {
                assert(out.deep_view() =~= old_out.push(lines.deep_view()[i as int]));
            }
        }
        i = i + 1;
    }
    proof {
        assert(lines.deep_view().subrange(0, lines@.len() as int) =~= lines.deep_view());
    }
    out
}

/// Parse the running flag the engine prints for a container: `true`, with
/// surrounding whitespace, means running.
pub fn parse_running_flag(s: &str) -> (r: bool)
    ensures
        r == (trimmed(s@) == "true"@),
{
    let t = trim_spaces(s);
    let expected = String::from_str("true");
    t.eq(&expected)
}

/// The build recipe of the sandbox image: a pinned base system with the
/// toolchains the interactive program needs, run as an unprivileged user
/// with the workspace as its working directory.
pub fn get_dockerfile_content() -> (r: &'static str) {
    "FROM debian:bookworm-slim

ENV HOME=/home/aide
ENV LANG=C.UTF-8
ENV LC_ALL=C.UTF-8
ENV TERM=xterm-256color

# Install system dependencies
RUN apt-get update && apt-get install -y \\
    curl \\
    git \\
    ca-certificates \\
    build-essential \\
    pkg-config \\
    libssl-dev \\
    xz-utils \\
    && rm -rf /var/lib/apt/lists/*

# Create user and directories
RUN useradd -m -s /bin/bash -d /home/aide aide && \\
    mkdir -p /home/aide/workspace /home/aide/.aide /home/aide/.config /home/aide/.local/bin && \\
    touch /home/aide/.aide.json /home/aide/.aide.json.backup && \\
    chown -R aide:aide /home/aide

USER aide
WORKDIR /home/aide

# Set up PATH for all tools
ENV PATH=\"/home/aide/.local/bin:/home/aide/.cargo/bin:/home/aide/.foundry/bin:${PATH}\"
ENV RUSTUP_HOME=/home/aide/.rustup
ENV CARGO_HOME=/home/aide/.cargo
ENV NVM_DIR=/home/aide/.nvm

# Install rustup and Rust (stable toolchain)
RUN curl --proto '=https' --tlsv1.2 -sSf https://sh.rustup.rs | sh -s -- -y --default-toolchain stable

# Install Foundry (forge, cast, anvil)
RUN curl -L https://foundry.paradigm.xyz | bash && \\
    /home/aide/.foundry/bin/foundryup

# Install nvm and latest Node.js
RUN curl -o- https://raw.githubusercontent.com/nvm-sh/nvm/v0.40.1/install.sh | bash && \\
    bash -c \"source $NVM_DIR/nvm.sh && nvm install node\"

# Create symlinks for node/npm/npx to be accessible without sourcing nvm
RUN bash -c \"source $NVM_DIR/nvm.sh && \\
    ln -sf \\$(which node) /home/aide/.local/bin/node && \\
    ln -sf \\$(which npm) /home/aide/.local/bin/npm && \\
    ln -sf \\$(which npx) /home/aide/.local/bin/npx\"

# Install aide-code globally and create symlink
RUN bash -c \"source $NVM_DIR/nvm.sh && npm install -g @aide-dev/aide-code\" && \\
    bash -c \"source $NVM_DIR/nvm.sh && ln -sf \\$(which aide) /home/aide/.local/bin/aide\"

# Setup bashrc for interactive shells
RUN echo 'export PATH=\\\"/home/aide/.local/bin:/home/aide/.cargo/bin:/home/aide/.foundry/bin:\\$PATH\\\"' >> /home/aide/.bashrc && \\
    echo 'export NVM_DIR=\\\"\\$HOME/.nvm\\\"' >> /home/aide/.bashrc && \\
    echo '[ -s \\\"\\$NVM_DIR/nvm.sh\\\" ] && . \\\"\\$NVM_DIR/nvm.sh\\\"' >> /home/aide/.bashrc

# Verify installations
RUN cargo --version && rustc --version && \\
    forge --version && \\
    node --version && npm --version

WORKDIR /home/aide/workspace

CMD [\"tail\", \"-f\", \"/dev/null\"]
"
}

} // verus!
