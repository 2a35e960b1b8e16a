//! Virtualenv discovery.
//!
//! Which tool manages the environment decides where to look. Lockfiles are
//! the strongest signal, since a lockfile proves which tool actually manages
//! the environment; the manifest's tool tables are the tiebreak.

use vstd::prelude::*;

use crate::infra::env::{last_binding, Env};
use crate::infra::fs::FileSystem;
use crate::infra::process::{arg_views, outcome, records, render, CommandError, CommandRunner};
use crate::pyproject::Manifest;

verus! {

/// The tool that manages a project's environment.
#[derive(Debug, Clone, Copy, PartialEq, Eq, Structural)]
pub enum Flavor {
    Poetry,
    Uv,
    Pep621,
}

/// Why no virtualenv was found, with a flavor-appropriate suggestion.
#[derive(Debug)]
pub enum VenvError {
    /// `poetry env info -p` failed and there is no `.venv`.
    Poetry { cause: CommandError },
    /// Neither `$UV_PROJECT_ENVIRONMENT` nor `.venv` exists.
    Uv,
    /// Neither `$VIRTUAL_ENV` nor `.venv` exists.
    Pep621,
}

impl VenvError {
    /// The message shown to the user.
    pub fn message(&self) -> (r: String)
        ensures
            match self {
                VenvError::Poetry { .. } => r@
                    == "could not locate a virtualenv; install the project with `poetry install`"@,
                VenvError::Uv => r@ == "could not locate a virtualenv; run `uv sync` to create one"@,
                VenvError::Pep621 => r@
                    == "could not locate a virtualenv; activate one or create .venv in the project root"@,
            },
    {
        match self {
            VenvError::Poetry { .. } => String::from_str(
                "could not locate a virtualenv; install the project with `poetry install`",
            ),
            VenvError::Uv => String::from_str(
                "could not locate a virtualenv; run `uv sync` to create one",
            ),
            VenvError::Pep621 => String::from_str(
                "could not locate a virtualenv; activate one or create .venv in the project root",
            ),
        }
    }
}

/// The flavor: a single lockfile decides; otherwise a `[tool.poetry]`
/// table means poetry, a `[tool.uv]` table means uv, and anything else is a
/// plain PEP 621 project.
pub open spec fn spec_flavor(uv_lock: bool, poetry_lock: bool, poetry_table: bool, uv_table: bool) -> Flavor {
    if uv_lock && !poetry_lock {
        Flavor::Uv
    } else if !uv_lock && poetry_lock {
        Flavor::Poetry
    } else if poetry_table {
        Flavor::Poetry
    } else if uv_table {
        Flavor::Uv
    } else {
        Flavor::Pep621
    }
}

/// Decide the flavor from which lockfiles exist and the manifest's tool
/// tables.
pub fn detect_flavor(uv_lock: bool, poetry_lock: bool, manifest: &Manifest) -> (r: Flavor)
    ensures
        r == spec_flavor(uv_lock, poetry_lock, manifest.poetry_table(), manifest.uv_table()),
{
    if uv_lock && !poetry_lock {
        Flavor::Uv
    } else if !uv_lock && poetry_lock {
        Flavor::Poetry
    } else if manifest.poetry_hint() {
        Flavor::Poetry
    } else if manifest.uv_hint() {
        Flavor::Uv
    } else {
        Flavor::Pep621
    }
}

/// The virtualenv of a poetry project, given what `poetry env info -p`
/// answered: its output, or else the in-project `.venv` if it exists.
pub fn poetry_choice(answer: Result<String, CommandError>, local_venv: bool) -> (r: Result<
    String,
    VenvError,
>)
    ensures
        match answer {
            Ok(path) => r matches Ok(p) && p@ == path@,
            Err(cause) => if local_venv {
                r matches Ok(p) && p@ == ".venv"@
            } else {
                r == Err::<String, VenvError>(VenvError::Poetry { cause })
            },
        },
{
    match answer {
        Ok(path) => Ok(path),
        Err(cause) => {
            if local_venv {
                Ok(String::from_str(".venv"))
            } else {
                Err(VenvError::Poetry { cause })
            }
        },
    }
}

/// The virtualenv of a uv or PEP 621 project, given the environment
/// variable that names it (`$UV_PROJECT_ENVIRONMENT` or `$VIRTUAL_ENV`):
/// that path if it exists, or else the in-project `.venv` if it exists.
pub fn variable_choice(
    configured: Option<String>,
    configured_exists: bool,
    local_venv: bool,
    flavor: Flavor,
) -> (r: Result<String, VenvError>)
    requires
        flavor != Flavor::Poetry,
    ensures
        match configured {
            Some(path) if configured_exists => r matches Ok(p) && p@ == path@,
            _ => if local_venv {
                r matches Ok(p) && p@ == ".venv"@
            } else if flavor == Flavor::Uv {
                r matches Err(VenvError::Uv)
            } else {
                r matches Err(VenvError::Pep621)
            },
        },
{
    if let Some(path) = configured {
        if configured_exists {
            return Ok(path);
        }
    }
    if local_venv {
        Ok(String::from_str(".venv"))
    } else if flavor == Flavor::Uv {
        Err(VenvError::Uv)
    } else {
        Err(VenvError::Pep621)
    }
}

/// The variable that names a uv or PEP 621 project's environment.
pub open spec fn env_variable(flavor: Flavor) -> Seq<char> {
    if flavor == Flavor::Uv {
        "UV_PROJECT_ENVIRONMENT"@
    } else {
        "VIRTUAL_ENV"@
    }
}

/// The name of the variable that names a uv or PEP 621 project's
/// environment.
pub fn env_variable_name(flavor: Flavor) -> (r: &'static str)
    ensures
        r@ == env_variable(flavor),
{
    proof {
        reveal_strlit("UV_PROJECT_ENVIRONMENT");
        reveal_strlit("VIRTUAL_ENV");
    }
    if flavor == Flavor::Uv {
        "UV_PROJECT_ENVIRONMENT"
    } else {
        "VIRTUAL_ENV"
    }
}

/// The command line that asks poetry for its environment.
pub open spec fn poetry_env_command() -> Seq<char> {
    render("poetry"@, seq!["env"@, "info"@, "-p"@])
}

/// The flavor of a project in `fs` with this manifest.
pub open spec fn project_flavor(fs: FileSystem, manifest: Manifest) -> Flavor {
    spec_flavor(
        fs.has("uv.lock"@),
        fs.has("poetry.lock"@),
        manifest.poetry_table(),
        manifest.uv_table(),
    )
}

/// What virtualenv discovery yields for a project in `fs`, with these
/// command responses and environment, and this manifest.
pub open spec fn venv_outcome(
    fs: FileSystem,
    responses: Seq<(String, crate::infra::process::NullResponse)>,
    env: Env,
    manifest: Manifest,
    r: Result<String, VenvError>,
) -> bool {
    let local = fs.has(".venv"@);
    match project_flavor(fs, manifest) {
        Flavor::Poetry => exists|answer: Result<String, CommandError>|
            #[trigger] outcome(responses, poetry_env_command(), answer) && match answer {
                Ok(path) => r matches Ok(p) && p@ == path@,
                Err(cause) => if local {
                    r matches Ok(p) && p@ == ".venv"@
                } else {
                    r == Err::<String, VenvError>(VenvError::Poetry { cause })
                },
            },
        flavor => match last_binding(env.bindings(), env_variable(flavor)) {
            Some(path) if fs.has(path) => r matches Ok(p) && p@ == path,
            _ => if local {
                r matches Ok(p) && p@ == ".venv"@
            } else if flavor == Flavor::Uv {
                r matches Err(VenvError::Uv)
            } else {
                r matches Err(VenvError::Pep621)
            },
        },
    }
}

/// Locate the project's virtualenv directory. Only a poetry project runs a
/// command, and exactly one: `poetry env info -p`.
pub fn find_venv(fs: &FileSystem, runner: &mut CommandRunner, env: &Env, manifest: &Manifest) -> (r:
    Result<String, VenvError>)
    requires
        old(runner).wf(),
    ensures
        final(runner).wf(),
        final(runner).responses() == old(runner).responses(),
        if project_flavor(*fs, *manifest) == Flavor::Poetry {
            records(old(runner).listener(), final(runner).listener(), poetry_env_command())
        } else {
            final(runner).listener() == old(runner).listener()
        },
        venv_outcome(*fs, old(runner).responses(), *env, *manifest, r),
{
    let uv_lock = fs.path_exists("uv.lock");
    let poetry_lock = fs.path_exists("poetry.lock");
    let flavor = detect_flavor(uv_lock, poetry_lock, manifest);
    let local = fs.path_exists(".venv");
    match flavor {
        Flavor::Poetry => {
            let answer = runner.run("poetry", &["env", "info", "-p"]);
            proof {
                assert(arg_views(seq!["env", "info", "-p"]) =~= seq!["env"@, "info"@, "-p"@]);
            }
            let ghost a = answer;
            let r = poetry_choice(answer, local);
            assert(outcome(old(runner).responses(), poetry_env_command(), a));
            r
        },
        Flavor::Uv | Flavor::Pep621 => {
            let configured = env.var(env_variable_name(flavor));
            let present = match &configured {
                Some(path) => fs.path_exists(path.as_str()),
                None => false,
            };
            variable_choice(configured, present, local, flavor)
        },
    }
}

} // verus!

verus! {

/// A lockfile proves which tool manages the environment: when exactly one
/// exists it decides the flavor, whatever tool tables the manifest has.
pub proof fn law_a_single_lockfile_decides(poetry_table: bool, uv_table: bool)
    ensures
        spec_flavor(true, false, poetry_table, uv_table) == Flavor::Uv,
        spec_flavor(false, true, poetry_table, uv_table) == Flavor::Poetry,
{
}

} // verus!

verus! {

/// Without a deciding lockfile (none, or both) the manifest's tool tables
/// decide: a `[tool.poetry]` table means poetry, else a `[tool.uv]` table
/// means uv, else the project is a plain PEP 621 one.
pub proof fn law_tool_tables_decide_without_a_single_lockfile(both: bool, uv_table: bool)
    ensures
        spec_flavor(both, both, true, uv_table) == Flavor::Poetry,
        spec_flavor(both, both, false, true) == Flavor::Uv,
        spec_flavor(both, both, false, false) == Flavor::Pep621,
{
}

} // verus!
