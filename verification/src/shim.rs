//! The shim's command line and what each command runs.

use vstd::prelude::*;
use vstd::string::StringExecFns;

use crate::select::{select_version, strings_view, use_candidates, use_query, lowered, UseError};
use crate::text::{chars_eq, chars_of, trim, trim_spec};

verus! {

/// A string with the characters of `s`.
pub fn owned(s: &str) -> (r: String)
    ensures
        r@ == s@,
{
    String::from_str(s)
}


/// Part of the version to trim listed versions to.
#[derive(Clone, Copy, Debug, PartialEq, Eq, Structural)]
pub enum Latest {
    Major,
    Minor,
    Patch,
}

/// The name of `l` on `jabba`'s command line.
pub open spec fn latest_name(l: Latest) -> Seq<char> {
    match l {
        Latest::Major => "major"@,
        Latest::Minor => "minor"@,
        Latest::Patch => "patch"@,
    }
}

impl Latest {
    pub fn as_str(self) -> (s: &'static str)
        ensures
            s@ == latest_name(self),
    {
        match self {
            Latest::Major => "major",
            Latest::Minor => "minor",
            Latest::Patch => "patch",
        }
    }
}

/// Architecture of a remote JDK.
#[derive(Clone, Copy, Debug, PartialEq, Eq, Structural)]
pub enum Arch {
    Amd64,
    _386,
}

/// The name of `a` on `jabba`'s command line.
pub open spec fn arch_name(a: Arch) -> Seq<char> {
    match a {
        Arch::Amd64 => "amd64"@,
        Arch::_386 => "386"@,
    }
}

impl Arch {
    pub fn as_str(self) -> (s: &'static str)
        ensures
            s@ == arch_name(self),
    {
        match self {
            Arch::_386 => "386",
            Arch::Amd64 => "amd64",
        }
    }

    /// The architecture that the shim was built for: `amd64` on a 64-bit target, `386`
    /// on a 32-bit one.
    pub fn current(pointer_width_64: bool) -> (a: Arch)
        ensures
            a == (if pointer_width_64 {
                Arch::Amd64
            } else {
                Arch::_386
            }),
    {
        if pointer_width_64 {
            Arch::Amd64
        } else {
            Arch::_386
        }
    }
}

/// Operating system of a remote JDK.
#[derive(Clone, Copy, Debug, PartialEq, Eq, Structural)]
pub enum Os {
    Darwin,
    Linux,
    Windows,
}

/// The name of `o` on `jabba`'s command line.
pub open spec fn os_name(o: Os) -> Seq<char> {
    match o {
        Os::Darwin => "darwin"@,
        Os::Linux => "linux"@,
        Os::Windows => "windows"@,
    }
}

impl Os {
    pub fn as_str(self) -> (s: &'static str)
        ensures
            s@ == os_name(self),
    {
        match self {
            Os::Darwin => "darwin",
            Os::Linux => "linux",
            Os::Windows => "windows",
        }
    }
}

/// The commands of `jabba` that the shim offers.
#[derive(Debug, PartialEq, Eq)]
#[allow(inconsistent_fields)]
pub enum Command {
    /// Resolve or update an alias; setting `current` has the effect of `use`.
    Alias { name: String, version: Option<String> },
    /// Display the version that the `current` alias names.
    Current,
    /// Download and install a JDK, optionally to a custom destination.
    Install { version: String, output: Option<String> },
    /// Resolve or update a link; `current` cannot be a link name.
    Link { name: String, path: Option<String> },
    /// List installed versions.
    Ls { latest: Option<Latest> },
    /// List configured aliases.
    LsAlias,
    /// List remote versions available for install.
    LsRemote { arch: Arch, latest: Option<Latest>, os: Os },
    /// Delete an alias; `current` cannot be deleted.
    Unalias { name: String },
    /// Uninstall a JDK.
    Uninstall { version: String },
    /// Delete a link.
    Unlink { name: String },
    /// Point the `current` alias at an installed JDK.
    Use { version: String },
    /// Display the path to an installed JDK.
    Which { version: String, home: bool },
}

/// The logging flags of the command line.
#[derive(Debug, Clone, Copy, PartialEq, Eq)]
pub struct Flags {
    pub verbose: u8,
    pub quiet: u8,
}

/// The shim's command line.
#[derive(Debug, PartialEq, Eq)]
pub struct Args {
    pub command: Option<Command>,
    /// How often `-V`/`--version` was given.
    pub version: u8,
    pub flags: Flags,
}

/// The `(version, quiet)` pair that preprocessing leaves: with `-V` given, `version` becomes
/// 2 where `-v` was given too and 1 otherwise, and `quiet` becomes `verbose + 2`; without
/// `-V` both stay.
pub open spec fn preprocessed(version: u8, verbose: u8, quiet: u8) -> (u8, u8) {
    if version > 0 {
        (if verbose > 0 {
            2u8
        } else {
            1u8
        }, (verbose + 2) as u8)
    } else {
        (version, quiet)
    }
}

impl Args {
    /// Normalises the version request: with `-V`, `version` becomes 1, or 2 where `-v` was
    /// given too (`-vV` also shows the shim's own version), and logging is silenced by
    /// setting `quiet` to `verbose + 2`. Without `-V` nothing changes.
    pub fn preprocess(&mut self)
        requires
            old(self).version > 0 ==> old(self).flags.verbose <= 253,
        ensures
            final(self).command == old(self).command,
            final(self).flags.verbose == old(self).flags.verbose,
            (final(self).version, final(self).flags.quiet) == preprocessed(
                old(self).version,
                old(self).flags.verbose,
                old(self).flags.quiet,
            ),
    {
        if self.version > 0 {
            self.version = 1;
            if self.flags.verbose > 0 {
                self.version += 1;
            }
            self.flags.quiet = self.flags.verbose + 2;
        }
    }
}

/// Preprocessing twice leaves what preprocessing once leaves.
pub proof fn lemma_preprocess_idempotent(version: u8, verbose: u8, quiet: u8)
    requires
        version > 0 ==> verbose <= 253,
    ensures
        ({
            let (v1, q1) = preprocessed(version, verbose, quiet);
            preprocessed(v1, verbose, q1) == (v1, q1)
        }),
{
}

/// A version request is kept as such by preprocessing, and asks for the shim's own
/// version exactly when `-v` was given too.
pub proof fn lemma_preprocess_version_request(version: u8, verbose: u8, quiet: u8)
    requires
        version > 0,
        verbose <= 253,
    ensures
        preprocessed(version, verbose, quiet).0 > 0,
        (preprocessed(version, verbose, quiet).0 > 1) == (verbose > 0),
{
}

/// What the shim does for a command line.
#[derive(Debug, PartialEq, Eq)]
pub enum Invocation {
    /// Print `jabba`'s version; with `with_shim`, first the shim's own and the bundled one.
    ShowVersion { with_shim: bool },
    /// Print the help.
    Help,
    /// Carry out the command.
    Dispatch(Command),
}

/// Decides what a (preprocessed) command line asks for: a version request comes first,
/// then a missing command shows the help.
pub fn invocation(args: Args) -> (r: Invocation)
    ensures
        args.version > 0 ==> r == (Invocation::ShowVersion { with_shim: args.version > 1 }),
        args.version == 0 && args.command is None ==> r == Invocation::Help,
        args.version == 0 && args.command is Some ==> r == Invocation::Dispatch(
            args.command->0,
        ),
{
    if args.version > 0 {
        return Invocation::ShowVersion { with_shim: args.version > 1 };
    }
    match args.command {
        None => Invocation::Help,
        Some(c) => Invocation::Dispatch(c),
    }
}

/// Why a command was refused.
#[derive(Debug, Clone, Copy, PartialEq, Eq, Structural)]
pub enum Refusal {
    /// `current` was given as a link name.
    ReservedLinkName,
    /// `current` was given as the alias to delete.
    ReservedUnaliasName,
}

/// One step of running a command through `jabba-noshim`.
#[derive(Debug, PartialEq, Eq)]
pub enum Step {
    /// Run `jabba-noshim` with these arguments, passing its output through.
    Passthrough(Vec<String>),
    /// Run `jabba-noshim` with these arguments, its output logged.
    Run(Vec<String>),
    /// Run `jabba-noshim install ...` behind a progress indicator labelled `progress`; then,
    /// where `set_current` holds a version, make it `current` if `current` is unset.
    Install { args: Vec<String>, progress: String, set_current: Option<String> },
    /// Point `current` at the installed version that `version` selects; `hinted` asks to
    /// mention that `use` is the shorthand for `alias current`.
    Use { version: String, hinted: bool },
    /// Refuse the command.
    Refuse(Refusal),
}

/// What a `Step` holds, as character sequences.
pub enum StepModel {
    Passthrough(Seq<Seq<char>>),
    Run(Seq<Seq<char>>),
    Install { args: Seq<Seq<char>>, progress: Seq<char>, set_current: Option<Seq<char>> },
    Use { version: Seq<char>, hinted: bool },
    Refuse(Refusal),
}

impl View for Step {
    type V = StepModel;

    open spec fn view(&self) -> StepModel {
        match self {
            Step::Passthrough(a) => StepModel::Passthrough(strings_view(a@)),
            Step::Run(a) => StepModel::Run(strings_view(a@)),
            Step::Install { args, progress, set_current } => StepModel::Install {
                args: strings_view(args@),
                progress: progress@,
                set_current: match set_current {
                    Some(v) => Some(v@),
                    None => None,
                },
            },
            Step::Use { version, hinted } => StepModel::Use { version: version@, hinted: *hinted },
            Step::Refuse(r) => StepModel::Refuse(*r),
        }
    }
}

/// Unicode lower-casing as `str::to_lowercase` computes it.
pub uninterp spec fn unicode_lowercase(s: Seq<char>) -> Seq<char>;

/// `str::to_lowercase`. Claims only that the result is a function of the characters of
/// `s`, named `unicode_lowercase`; the Unicode case mapping itself is not stated.
#[verifier::external_body]
fn to_lowercase(s: &str) -> (r: String)
    ensures
        r@ == unicode_lowercase(s@),
{
    s.to_lowercase()
}

/// Whether `s` is exactly `current`.
pub fn is_current(s: &str) -> (r: bool)
    ensures
        r == (s@ == "current"@),
{
    chars_eq(chars_of(s).as_slice(), chars_of("current").as_slice())
}

/// Whether an alias name, trimmed and lower-cased, names the `current` alias.
pub fn names_current_alias(name: &str) -> (r: bool)
    ensures
        r == (unicode_lowercase(trim_spec(name@)) == "current"@),
{
    let trimmed = trim(name);
    let lowered = to_lowercase(trimmed.as_str());
    is_current(lowered.as_str())
}

/// The step for a command, where `alias_names_current` tells whether the alias name of an
/// `alias` command names `current`.
pub open spec fn plan_spec(c: Command, alias_names_current: bool) -> StepModel {
    match c {
        Command::Alias { name, version } => match version {
            None => StepModel::Passthrough(seq!["alias"@, name@]),
            Some(v) => if alias_names_current {
                StepModel::Use { version: v@, hinted: true }
            } else {
                StepModel::Run(seq!["alias"@, name@, v@])
            },
        },
        Command::Current => StepModel::Passthrough(seq!["alias"@, "current"@]),
        Command::Install { version, output } => match output {
            None => StepModel::Install {
                args: seq!["install"@, version@],
                progress: "Downloading"@,
                set_current: Some(version@),
            },
            Some(o) => StepModel::Install {
                args: seq!["install"@, version@, "--output"@, o@],
                progress: "Downloading"@,
                set_current: None,
            },
        },
        Command::Link { name, path } => if trim_spec(name@) == "current"@ {
            StepModel::Refuse(Refusal::ReservedLinkName)
        } else {
            match path {
                None => StepModel::Passthrough(seq!["link"@, name@]),
                Some(p) => StepModel::Run(seq!["link"@, name@, p@]),
            }
        },
        Command::Ls { latest } => match latest {
            None => StepModel::Passthrough(seq!["ls"@]),
            Some(l) => StepModel::Passthrough(seq!["ls"@, "--latest"@, latest_name(l)]),
        },
        Command::LsAlias => StepModel::Passthrough(seq!["ls-alias"@]),
        Command::LsRemote { arch, latest, os } => match latest {
            None => StepModel::Passthrough(
                seq!["ls-remote"@, "--arch"@, arch_name(arch), "--os"@, os_name(os)],
            ),
            Some(l) => StepModel::Passthrough(
                seq![
                    "ls-remote"@,
                    "--arch"@,
                    arch_name(arch),
                    "--os"@,
                    os_name(os),
                    "--latest"@,
                    latest_name(l),
                ],
            ),
        },
        Command::Unalias { name } => if trim_spec(name@) == "current"@ {
            StepModel::Refuse(Refusal::ReservedUnaliasName)
        } else {
            StepModel::Run(seq!["unalias"@, name@])
        },
        Command::Uninstall { version } => StepModel::Run(seq!["uninstall"@, version@]),
        Command::Unlink { name } => StepModel::Run(seq!["unlink"@, name@]),
        Command::Use { version } => StepModel::Use { version: version@, hinted: false },
        Command::Which { version, home } => if home {
            StepModel::Passthrough(seq!["which"@, version@, "--home"@])
        } else {
            StepModel::Passthrough(seq!["which"@, version@])
        },
    }
}


/// Appends `s` to the argument list `v`.
pub fn push_arg(v: &mut Vec<String>, s: String)
    ensures
        strings_view(final(v)@) == strings_view(old(v)@).push(s@),
{
    v.push(s);
    assert(strings_view(v@) =~= strings_view(old(v)@).push(s@));
}



/// A one-element argument list.
fn args1(a: &str) -> (r: Vec<String>)
    ensures
        strings_view(r@) == seq![a@],
{
    let mut r: Vec<String> = Vec::new();
    push_arg(&mut r, owned(a));
    assert(strings_view(r@) =~= seq![a@]);
    r
}

/// `a` and `b` as an argument list.
fn args2(a: &str, b: String) -> (r: Vec<String>)
    ensures
        strings_view(r@) == seq![a@, b@],
{
    let mut r = args1(a);
    push_arg(&mut r, b);
    assert(strings_view(r@) =~= seq![a@, b@]);
    r
}

/// `a`, `b` and `c` as an argument list.
fn args3(a: &str, b: String, c: String) -> (r: Vec<String>)
    ensures
        strings_view(r@) == seq![a@, b@, c@],
{
    let mut r = args2(a, b);
    push_arg(&mut r, c);
    assert(strings_view(r@) =~= seq![a@, b@, c@]);
    r
}

/// Extends an argument list with `s`.
fn with_arg(v: Vec<String>, s: &str) -> (r: Vec<String>)
    ensures
        strings_view(r@) == strings_view(v@).push(s@),
{
    let mut v = v;
    push_arg(&mut v, owned(s));
    v
}

/// The step that carries out `c`, where `alias_names_current` tells whether the alias name
/// of an `alias` command names `current` (see `names_current_alias`).
pub fn plan_command_with(c: Command, alias_names_current: bool) -> (s: Step)
    ensures
        s@ == plan_spec(c, alias_names_current),
{
    let ghost g = c;
    let s = match c {
        Command::Alias { name, version } => match version {
            None => Step::Passthrough(args2("alias", name)),
            Some(v) => if alias_names_current {
                Step::Use { version: v, hinted: true }
            } else {
                Step::Run(args3("alias", name, v))
            },
        },
        Command::Current => Step::Passthrough(args2("alias", owned("current"))),
        Command::Install { version, output } => match output {
            None => {
                let again = version.clone();
                Step::Install {
                    args: args2("install", version),
                    progress: owned("Downloading"),
                    set_current: Some(again),
                }
            },
            Some(o) => {
                let a = with_arg(args2("install", version), "--output");
                let mut a = a;
                push_arg(&mut a, o);
                Step::Install { args: a, progress: owned("Downloading"), set_current: None }
            },
        },
        Command::Link { name, path } => {
            let t = trim(name.as_str());
            if is_current(t.as_str()) {
                Step::Refuse(Refusal::ReservedLinkName)
            } else {
                match path {
                    None => Step::Passthrough(args2("link", name)),
                    Some(p) => Step::Run(args3("link", name, p)),
                }
            }
        },
        Command::Ls { latest } => match latest {
            None => Step::Passthrough(args1("ls")),
            Some(l) => Step::Passthrough(with_arg(args2("ls", owned("--latest")), l.as_str())),
        },
        Command::LsAlias => Step::Passthrough(args1("ls-alias")),
        Command::LsRemote { arch, latest, os } => {
            let a = with_arg(args2("ls-remote", owned("--arch")), arch.as_str());
            let a = with_arg(with_arg(a, "--os"), os.as_str());
            match latest {
                None => Step::Passthrough(a),
                Some(l) => Step::Passthrough(with_arg(with_arg(a, "--latest"), l.as_str())),
            }
        },
        Command::Unalias { name } => {
            let t = trim(name.as_str());
            if is_current(t.as_str()) {
                Step::Refuse(Refusal::ReservedUnaliasName)
            } else {
                Step::Run(args2("unalias", name))
            }
        },
        Command::Uninstall { version } => Step::Run(args2("uninstall", version)),
        Command::Unlink { name } => Step::Run(args2("unlink", name)),
        Command::Use { version } => Step::Use { version, hinted: false },
        Command::Which { version, home } => if home {
            Step::Passthrough(with_arg(args2("which", version), "--home"))
        } else {
            Step::Passthrough(args2("which", version))
        },
    };
    proof {
        match g {
            Command::Install { version, output } => {
                assert(seq!["install"@, version@].push("--output"@).push(output->0@) =~= seq![
                    "install"@,
                    version@,
                    "--output"@,
                    output->0@,
                ]);
            },
            Command::Ls { latest } => {
                assert(seq!["ls"@, "--latest"@].push(latest_name(latest->0)) =~= seq![
                    "ls"@,
                    "--latest"@,
                    latest_name(latest->0),
                ]);
            },
            Command::LsRemote { arch, latest, os } => {
                let base = seq!["ls-remote"@, "--arch"@].push(arch_name(arch)).push("--os"@).push(
                    os_name(os),
                );
                assert(base =~= seq!["ls-remote"@, "--arch"@, arch_name(arch), "--os"@, os_name(os)]);
                assert(base.push("--latest"@).push(latest_name(latest->0)) =~= seq![
                    "ls-remote"@,
                    "--arch"@,
                    arch_name(arch),
                    "--os"@,
                    os_name(os),
                    "--latest"@,
                    latest_name(latest->0),
                ]);
            },
            Command::Which { version, home } => {
                assert(seq!["which"@, version@].push("--home"@) =~= seq![
                    "which"@,
                    version@,
                    "--home"@,
                ]);
            },
            _ => {},
        }
    }
    s
}

/// The step that carries out `c`.
pub fn plan_command(c: Command) -> (s: Step)
    ensures
        s@ == plan_spec(
            c,
            c matches Command::Alias { name, version: Some(_) } && unicode_lowercase(
                trim_spec(name@),
            ) == "current"@,
        ),
{
    let alias_names_current = match &c {
        Command::Alias { name, version: Some(_) } => names_current_alias(name.as_str()),
        _ => false,
    };
    plan_command_with(c, alias_names_current)
}


/// The arguments that point the `current` alias at `version`.
pub open spec fn set_current_args(version: Seq<char>) -> Seq<Seq<char>> {
    seq!["alias"@, "current"@, version]
}

/// After an install without a custom destination: where the `current` alias could be read
/// (`current` holds it, trimmed) and is empty, the arguments that set it to the installed
/// `version`; otherwise nothing more is run.
pub fn after_install(version: &str, current: Option<&str>) -> (r: Option<Vec<String>>)
    ensures
        r is Some <==> (current matches Some(c) && c@.len() == 0),
        r matches Some(a) ==> strings_view(a@) == set_current_args(version@),
{
    match current {
        Some(c) => if c.unicode_len() == 0 {
            Some(args3("alias", owned("current"), owned(version)))
        } else {
            None
        },
        None => None,
    }
}

/// `use`: the arguments that point `current` at the installed version that `version`
/// selects (see `select_version`), or why there is none.
pub fn use_args(version: &str, installed: &Vec<String>) -> (r: Result<Vec<String>, UseError>)
    ensures
        ({
            let c = use_candidates(use_query(version@), lowered(strings_view(installed@)));
            &&& (r is Ok) <==> c.len() == 1
            &&& r matches Ok(a) ==> strings_view(a@) == set_current_args(c[0])
            &&& r matches Err(UseError::NotInstalled { version: v }) ==> c.len() == 0 && v@
                == use_query(version@)
            &&& r matches Err(UseError::Ambiguous { version: v, matched: m }) ==> c.len() > 1
                && v@ == use_query(version@) && strings_view(m@) == c
        }),
{
    match select_version(version, installed) {
        Ok(v) => Ok(args3("alias", owned("current"), v)),
        Err(e) => Err(e),
    }
}


/// Setting the `current` alias does what `use` does: both select among the installed
/// versions with the same requested version (the alias form only adds a hint).
pub proof fn lemma_alias_current_is_use(name: String, version: String, flag: bool)
    ensures
        plan_spec(Command::Alias { name, version: Some(version) }, true) == (StepModel::Use {
            version: version@,
            hinted: true,
        }),
        plan_spec(Command::Use { version }, flag) == (StepModel::Use {
            version: version@,
            hinted: false,
        }),
{
}

/// `current` is reserved: it cannot be a link name nor be unaliased, whatever whitespace
/// surrounds it.
pub proof fn lemma_current_is_reserved(name: String, path: Option<String>, flag: bool)
    requires
        trim_spec(name@) == "current"@,
    ensures
        plan_spec(Command::Link { name, path }, flag) == StepModel::Refuse(
            Refusal::ReservedLinkName,
        ),
        plan_spec(Command::Unalias { name }, flag) == StepModel::Refuse(
            Refusal::ReservedUnaliasName,
        ),
{
}

/// Installing to the managed location sets `current` to the installed version exactly when
/// `current` was read as empty; a custom destination never touches it.
pub proof fn lemma_install_sets_unset_current(version: String, output: Option<String>, flag: bool)
    ensures
        output is None ==> (plan_spec(Command::Install { version, output }, flag) matches
            StepModel::Install { set_current: Some(v), .. } && v == version@),
        output is Some ==> (plan_spec(Command::Install { version, output }, flag) matches
            StepModel::Install { set_current: None, .. }),
{
}


/// The `jabba` name of each trimming level; distinct levels have distinct names.
pub proof fn lemma_latest_names(l: Latest, m: Latest)
    ensures
        l == Latest::Major ==> latest_name(l) == "major"@,
        l == Latest::Minor ==> latest_name(l) == "minor"@,
        l == Latest::Patch ==> latest_name(l) == "patch"@,
        l != m ==> latest_name(l) != latest_name(m),
{
    reveal_strlit("major");
    reveal_strlit("minor");
    reveal_strlit("patch");
    if l != m {
        assert(latest_name(l)[1] != latest_name(m)[1] || latest_name(l)[0] != latest_name(m)[0]);
    }
}

/// The `jabba` name of each architecture and operating system; distinct values have
/// distinct names.
pub proof fn lemma_platform_names(a: Arch, b: Arch, o: Os, p: Os)
    ensures
        a == Arch::Amd64 ==> arch_name(a) == "amd64"@,
        a == Arch::_386 ==> arch_name(a) == "386"@,
        o == Os::Darwin ==> os_name(o) == "darwin"@,
        o == Os::Linux ==> os_name(o) == "linux"@,
        o == Os::Windows ==> os_name(o) == "windows"@,
        a != b ==> arch_name(a) != arch_name(b),
        o != p ==> os_name(o) != os_name(p),
{
    reveal_strlit("amd64");
    reveal_strlit("386");
    reveal_strlit("darwin");
    reveal_strlit("linux");
    reveal_strlit("windows");
    if a != b {
        assert(arch_name(a)[0] != arch_name(b)[0]);
    }
    if o != p {
        assert(os_name(o)[0] != os_name(p)[0]);
    }
}

/// `ls --latest <l>` hands `jabba` exactly the requested level: the arguments are `ls`,
/// `--latest` and the name of `l` (`major`, `minor` or `patch`), so different requests run
/// with different arguments; without a level, `ls` alone.
pub proof fn lemma_ls_passes_requested_level(l: Latest, m: Latest, flag: bool)
    ensures
        plan_spec(Command::Ls { latest: None }, flag) == StepModel::Passthrough(seq!["ls"@]),
        plan_spec(Command::Ls { latest: Some(l) }, flag) matches StepModel::Passthrough(a) && a.len()
            == 3 && a[0] == "ls"@ && a[1] == "--latest"@ && a[2] == latest_name(l),
        l == Latest::Major ==> plan_spec(Command::Ls { latest: Some(l) }, flag) == StepModel::Passthrough(
            seq!["ls"@, "--latest"@, "major"@],
        ),
        l == Latest::Minor ==> plan_spec(Command::Ls { latest: Some(l) }, flag) == StepModel::Passthrough(
            seq!["ls"@, "--latest"@, "minor"@],
        ),
        l == Latest::Patch ==> plan_spec(Command::Ls { latest: Some(l) }, flag) == StepModel::Passthrough(
            seq!["ls"@, "--latest"@, "patch"@],
        ),
        l != m ==> plan_spec(Command::Ls { latest: Some(l) }, flag) != plan_spec(
            Command::Ls { latest: Some(m) },
            flag,
        ),
{
    lemma_latest_names(l, m);
    if l != m {
        let a = seq!["ls"@, "--latest"@, latest_name(l)];
        let b = seq!["ls"@, "--latest"@, latest_name(m)];
        assert(a[2] != b[2]);
    }
}

/// `ls-remote` hands `jabba` exactly the requested architecture, operating system and,
/// where given, trimming level: `ls-remote --arch <a> --os <o> [--latest <l>]`; changing any
/// of them changes the arguments.
pub proof fn lemma_ls_remote_passes_request(
    a: Arch,
    b: Arch,
    o: Os,
    p: Os,
    l: Latest,
    m: Latest,
    flag: bool,
)
    ensures
        plan_spec(Command::LsRemote { arch: a, latest: None, os: o }, flag) == StepModel::Passthrough(
            seq!["ls-remote"@, "--arch"@, arch_name(a), "--os"@, os_name(o)],
        ),
        plan_spec(Command::LsRemote { arch: a, latest: Some(l), os: o }, flag) matches StepModel::Passthrough(
            args,
        ) && args.len() == 7 && args[0] == "ls-remote"@ && args[1] == "--arch"@ && args[2]
            == arch_name(a) && args[3] == "--os"@ && args[4] == os_name(o) && args[5] == "--latest"@
            && args[6] == latest_name(l),
        l == Latest::Minor ==> (plan_spec(Command::LsRemote { arch: a, latest: Some(l), os: o }, flag)
            matches StepModel::Passthrough(args) && args.last() == "minor"@),
        l == Latest::Major ==> (plan_spec(Command::LsRemote { arch: a, latest: Some(l), os: o }, flag)
            matches StepModel::Passthrough(args) && args.last() == "major"@),
        l == Latest::Patch ==> (plan_spec(Command::LsRemote { arch: a, latest: Some(l), os: o }, flag)
            matches StepModel::Passthrough(args) && args.last() == "patch"@),
        (a != b || o != p || l != m) ==> plan_spec(
            Command::LsRemote { arch: a, latest: Some(l), os: o },
            flag,
        ) != plan_spec(Command::LsRemote { arch: b, latest: Some(m), os: p }, flag),
        (a != b || o != p) ==> plan_spec(Command::LsRemote { arch: a, latest: None, os: o }, flag)
            != plan_spec(Command::LsRemote { arch: b, latest: None, os: p }, flag),
{
    lemma_latest_names(l, m);
    lemma_platform_names(a, b, o, p);
    let x = seq![
        "ls-remote"@,
        "--arch"@,
        arch_name(a),
        "--os"@,
        os_name(o),
        "--latest"@,
        latest_name(l),
    ];
    let y = seq![
        "ls-remote"@,
        "--arch"@,
        arch_name(b),
        "--os"@,
        os_name(p),
        "--latest"@,
        latest_name(m),
    ];
    if a != b {
        assert(x[2] != y[2]);
    } else if o != p {
        assert(x[4] != y[4]);
    } else if l != m {
        assert(x[6] != y[6]);
    }
    let x0 = seq!["ls-remote"@, "--arch"@, arch_name(a), "--os"@, os_name(o)];
    let y0 = seq!["ls-remote"@, "--arch"@, arch_name(b), "--os"@, os_name(p)];
    if a != b {
        assert(x0[2] != y0[2]);
    } else if o != p {
        assert(x0[4] != y0[4]);
    }
}


/// Every other command runs the `jabba` subcommand of the same name with the user's
/// arguments, unchanged and in order; only the ones that display something pass `jabba`'s
/// output straight through.
pub proof fn lemma_command_arguments(name: String, version: String, path: String, flag: bool)
    ensures
        plan_spec(Command::Alias { name, version: None }, flag) == StepModel::Passthrough(
            seq!["alias"@, name@],
        ),
        plan_spec(Command::Alias { name, version: Some(version) }, false) == StepModel::Run(
            seq!["alias"@, name@, version@],
        ),
        plan_spec(Command::Current, flag) == StepModel::Passthrough(seq!["alias"@, "current"@]),
        plan_spec(Command::LsAlias, flag) == StepModel::Passthrough(seq!["ls-alias"@]),
        trim_spec(name@) != "current"@ ==> plan_spec(Command::Link { name, path: None }, flag)
            == StepModel::Passthrough(seq!["link"@, name@]),
        trim_spec(name@) != "current"@ ==> plan_spec(
            Command::Link { name, path: Some(path) },
            flag,
        ) == StepModel::Run(seq!["link"@, name@, path@]),
        trim_spec(name@) != "current"@ ==> plan_spec(Command::Unalias { name }, flag)
            == StepModel::Run(seq!["unalias"@, name@]),
        plan_spec(Command::Uninstall { version }, flag) == StepModel::Run(
            seq!["uninstall"@, version@],
        ),
        plan_spec(Command::Unlink { name }, flag) == StepModel::Run(seq!["unlink"@, name@]),
        plan_spec(Command::Which { version, home: true }, flag) == StepModel::Passthrough(
            seq!["which"@, version@, "--home"@],
        ),
        plan_spec(Command::Which { version, home: false }, flag) == StepModel::Passthrough(
            seq!["which"@, version@],
        ),
        plan_spec(Command::Install { version, output: Some(path) }, flag) == (StepModel::Install {
            args: seq!["install"@, version@, "--output"@, path@],
            progress: "Downloading"@,
            set_current: None,
        }),
        plan_spec(Command::Install { version, output: None }, flag) == (StepModel::Install {
            args: seq!["install"@, version@],
            progress: "Downloading"@,
            set_current: Some(version@),
        }),
{
}

} // verus!
