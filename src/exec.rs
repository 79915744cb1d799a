//! Running a resolved command: locating its toolchain, the compiled-project
//! cache and the decisions taken after each outside step.
use vstd::prelude::*;
use crate::lang::Lang;

verus! {

/// Why running a command failed.
#[derive(Clone, Debug, PartialEq, Eq)]
pub enum RunError {
    /// The executable is not on the search path and cannot be provisioned.
    ExecutableNotFound { binary: String, hint: String },
    /// A process could not be started.
    SpawnFailed { program: String, cause: String },
    /// The compiler exited unsuccessfully; its standard error, byte for byte.
    CompileFailed { stderr: Vec<u8> },
    /// The child ran and exited unsuccessfully (`None`: killed by a signal).
    NonZeroExit { code: Option<i32> },
    /// Waiting for the child failed.
    WaitFailed { reason: String },
    /// A cache directory or a file could not be created or written.
    Io { problem: String },
}

pub open spec fn execution_failed_text(exe: Seq<char>, error: Seq<char>) -> Seq<char> {
    "'"@ + exe + "' failed to execute command\n\nComplete error: "@ + error
}

pub open spec fn exe_not_found_text(exe: Seq<char>, error: Seq<char>) -> Seq<char> {
    "'"@ + exe + "' executable could not be found.\nDo you have it installed and in the PATH?\n\nRun 'run --commands' for more information.\n\nComplete error: "@
        + error
}

/// The message shown when `exe` could not be started.
pub fn execution_failed(exe: &str, error: &str) -> (r: String)
    ensures
        r@ == execution_failed_text(exe@, error@),
{
    let s = String::from_str("'");
    let s = s.concat(exe);
    let s = s.concat("' failed to execute command\n\nComplete error: ");
    s.concat(error)
}

/// The message shown when `exe` is neither on the search path nor provisioned.
pub fn exe_not_found(exe: &str, error: &str) -> (r: String)
    ensures
        r@ == exe_not_found_text(exe@, error@),
{
    let s = String::from_str("'");
    let s = s.concat(exe);
    let s = s.concat(
        "' executable could not be found.\nDo you have it installed and in the PATH?\n\nRun 'run --commands' for more information.\n\nComplete error: ",
    );
    s.concat(error)
}

/// How the executable of a language is to be started.
#[derive(Clone, Debug, PartialEq, Eq)]
pub enum Program {
    /// Found on the search path, at this location.
    OnPath(String),
    /// Started inside a provisioning shell that supplies these packages.
    Provisioned { packages: Vec<&'static str>, binary: &'static str },
}

/// Relies on `which::which`: where the executable named `binary` lies on the
/// search path, or the error's text. What it finds depends on the machine.
#[verifier::external_body]
fn locate(binary: &str) -> (r: Result<String, String>) {
    match which::which(binary) {
        Ok(path) => Ok(path.to_string_lossy().into_owned()),
        Err(e) => Err(e.to_string()),
    }
}

/// Decides how to start `lang`'s executable from the search-path lookup
/// `found` and whether the provisioning shell is available.
pub fn choose_program(lang: Lang, found: Result<String, String>, can_provision: bool) -> (r: Result<Program, RunError>)
    ensures
        found is Ok ==> r == Ok::<Program, RunError>(Program::OnPath(found->Ok_0)),
        found is Err && can_provision ==> r is Ok && r->Ok_0 is Provisioned
            && r->Ok_0->binary@ == lang.binary_of()
            && r->Ok_0->packages@.len() == lang.packages_of().len()
            && forall|i: int| 0 <= i < lang.packages_of().len()
                ==> (#[trigger] r->Ok_0->packages@[i])@ == lang.packages_of()[i],
        found is Err && !can_provision ==> r is Err && r->Err_0 is ExecutableNotFound
            && r->Err_0->binary@ == lang.binary_of()
            && r->Err_0->hint@ == exe_not_found_text(lang.binary_of(), found->Err_0@),
{
    match found {
        Ok(path) => Ok(Program::OnPath(path)),
        Err(e) => {
            if can_provision {
                Ok(Program::Provisioned { packages: lang.nix_packages(), binary: lang.binary() })
            } else {
                let exe = lang.binary();
                let detail = exe_not_found(exe, e.as_str());
                Err(RunError::ExecutableNotFound { binary: String::from_str(exe), hint: detail })
            }
        },
    }
}

impl Lang {
    /// Whether the language's executable is on the search path.
    pub fn installed(&self) -> bool {
        locate(self.binary()).is_ok()
    }

    /// Looks the executable up on the search path and falls back to the
    /// provisioning shell when `can_provision`; fails with the binary's name.
    pub fn program(&self, can_provision: bool) -> (r: Result<Program, RunError>)
        ensures
            r is Err ==> !can_provision && r->Err_0 is ExecutableNotFound
                && r->Err_0->binary@ == self.binary_of(),
            can_provision ==> r is Ok,
    {
        let found = locate(self.binary());
        choose_program(*self, found, can_provision)
    }
}

/// The outcome of a child that has exited.
pub fn exit_outcome(success: bool, code: Option<i32>) -> (r: Result<(), RunError>)
    ensures
        success <==> r is Ok,
        !success ==> r == Err::<(), RunError>(RunError::NonZeroExit { code }),
{
    if success {
        Ok(())
    } else {
        Err(RunError::NonZeroExit { code })
    }
}

/// The lowercase hexadecimal MD5 digest of the UTF-8 encoding of `s`.
pub uninterp spec fn md5_hex_of(s: Seq<char>) -> Seq<char>;

/// Relies on `md5::compute` and the digest's `LowerHex` format: the digest of
/// the body's bytes, written as two lowercase hex digits per byte.
#[verifier::external_body]
fn md5_hex(body: &str) -> (r: String)
    ensures
        r@ == md5_hex_of(body@),
        r@.len() == 32,
{
    format!("{:x}", md5::compute(body))
}

/// The cache directory, relative to the cache root, of a project holding a
/// body of language `lang_name` whose digest is `digest`.
pub open spec fn cache_key_text(lang_name: Seq<char>, digest: Seq<char>) -> Seq<char> {
    "cache/"@ + lang_name + "/"@ + digest
}

/// The cache directory of a `lang` project whose body has digest `digest`.
pub fn cache_key_of_digest(lang: Lang, digest: &str) -> (r: String)
    ensures
        r@ == cache_key_text(lang.name_of(), digest@),
{
    let s = String::from_str("cache/");
    let s = s.concat(lang.as_str());
    let s = s.concat("/");
    s.concat(digest)
}

/// The cache directory of a `lang` project whose body is `body`: the same
/// body always gives the same directory.
pub fn cache_key(lang: Lang, body: &str) -> (r: String)
    ensures
        r@ == cache_key_text(lang.name_of(), md5_hex_of(body@)),
{
    let digest = md5_hex(body);
    cache_key_of_digest(lang, digest.as_str())
}

/// Where the run of a compiled command stands.
#[derive(Clone, Debug, PartialEq, Eq)]
pub enum Stage {
    /// Waiting to learn whether the project directory already exists.
    Probing,
    /// Creating the project directory and running the scaffold command.
    Scaffolding,
    /// Writing the body into the project's main source file.
    Writing,
    /// Running the compiler inside the project directory.
    Compiling,
    /// Running the built program.
    Running,
    Succeeded,
    Failed(RunError),
}

/// The outside work asked for next.
#[derive(Clone, Copy, Debug, PartialEq, Eq)]
pub enum Step {
    Scaffold,
    WriteMain,
    Compile,
    Run,
    Finish,
}

/// What the outside work reported.
#[derive(Clone, Debug, PartialEq, Eq)]
pub enum Event {
    /// Whether the project directory was already there.
    Probed { exists: bool },
    /// The scaffold or write step completed.
    Done,
    /// The compiler exited; its standard error as captured.
    Compiled { success: bool, stderr: Vec<u8> },
    /// The built program exited.
    Exited { success: bool, code: Option<i32> },
    /// The step could not be carried out.
    Broke(RunError),
}

/// Whether `e` is an answer to the work asked for in stage `s`.
pub open spec fn answers(s: Stage, e: Event) -> bool {
    match s {
        Stage::Probing => e is Probed || e is Broke,
        Stage::Scaffolding | Stage::Writing => e is Done || e is Broke,
        Stage::Compiling => e is Compiled || e is Broke,
        Stage::Running => e is Exited || e is Broke,
        _ => false,
    }
}

/// The stage and the work that follow stage `s` once `e` is reported.
pub open spec fn next_of(s: Stage, e: Event) -> (Stage, Step) {
    match e {
        Event::Broke(err) => (Stage::Failed(err), Step::Finish),
        Event::Probed { exists } => if exists {
            (Stage::Compiling, Step::Compile)
        } else {
            (Stage::Scaffolding, Step::Scaffold)
        },
        Event::Done => if s is Scaffolding {
            (Stage::Writing, Step::WriteMain)
        } else {
            (Stage::Compiling, Step::Compile)
        },
        Event::Compiled { success, stderr } => if success {
            (Stage::Running, Step::Run)
        } else {
            (Stage::Failed(RunError::CompileFailed { stderr }), Step::Finish)
        },
        Event::Exited { success, code } => if success {
            (Stage::Succeeded, Step::Finish)
        } else {
            (Stage::Failed(RunError::NonZeroExit { code }), Step::Finish)
        },
    }
}

/// Decides what follows a reported event in the run of a compiled command.
/// A run starts in `Stage::Probing`.
pub fn advance(s: Stage, e: Event) -> (r: (Stage, Step))
    requires
        answers(s, e),
    ensures
        r == next_of(s, e),
{
    match e {
        Event::Broke(err) => (Stage::Failed(err), Step::Finish),
        Event::Probed { exists } => {
            if exists {
                (Stage::Compiling, Step::Compile)
            } else {
                (Stage::Scaffolding, Step::Scaffold)
            }
        },
        Event::Done => {
            if let Stage::Scaffolding = s {
                (Stage::Writing, Step::WriteMain)
            } else {
                (Stage::Compiling, Step::Compile)
            }
        },
        Event::Compiled { success, stderr } => {
            if success {
                (Stage::Running, Step::Run)
            } else {
                (Stage::Failed(RunError::CompileFailed { stderr }), Step::Finish)
            }
        },
        Event::Exited { success, code } => {
            if success {
                (Stage::Succeeded, Step::Finish)
            } else {
                (Stage::Failed(RunError::NonZeroExit { code }), Step::Finish)
            }
        },
    }
}

/// A project already in the cache is compiled at once, without scaffolding
/// or writing; a new one is scaffolded, written and then compiled. Either
/// way the compiler runs.
pub proof fn lemma_cached_project_skips_scaffold()
    ensures
        next_of(Stage::Probing, Event::Probed { exists: true }) == (Stage::Compiling, Step::Compile),
        next_of(Stage::Probing, Event::Probed { exists: false }) == (Stage::Scaffolding, Step::Scaffold),
        next_of(Stage::Scaffolding, Event::Done) == (Stage::Writing, Step::WriteMain),
        next_of(Stage::Writing, Event::Done) == (Stage::Compiling, Step::Compile),
{
}

/// Every failed compile ends the run with the compiler's standard error
/// exactly as it was captured, whatever bytes it holds.
pub proof fn lemma_compile_failure_verbatim(stderr: Vec<u8>)
    ensures
        next_of(Stage::Compiling, Event::Compiled { success: false, stderr })
            == (Stage::Failed(RunError::CompileFailed { stderr }), Step::Finish),
{
}

} // verus!
