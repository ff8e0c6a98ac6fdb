use jabba_shim::select::UseError;
use jabba_shim::shim::{
    after_install, invocation, names_current_alias, plan_command, plan_command_with, use_args, Arch,
    Args, Command, Flags, Invocation, Latest, Os, Refusal, Step,
};

fn s(x: &str) -> String {
    x.to_string()
}

fn list(xs: &[&str]) -> Vec<String> {
    xs.iter().map(|x| x.to_string()).collect()
}

#[test]
fn value_names() {
    assert_eq!(Latest::Major.as_str(), "major");
    assert_eq!(Latest::Minor.as_str(), "minor");
    assert_eq!(Latest::Patch.as_str(), "patch");
    assert_eq!(Arch::Amd64.as_str(), "amd64");
    assert_eq!(Arch::_386.as_str(), "386");
    assert_eq!(Os::Darwin.as_str(), "darwin");
    assert_eq!(Os::Linux.as_str(), "linux");
    assert_eq!(Os::Windows.as_str(), "windows");
    assert_eq!(Arch::current(true), Arch::Amd64);
    assert_eq!(Arch::current(false), Arch::_386);
}

#[test]
fn preprocess_version_request() {
    let mut a = Args { command: None, version: 3, flags: Flags { verbose: 0, quiet: 0 } };
    a.preprocess();
    assert_eq!((a.version, a.flags.quiet), (1, 2));
    let mut a = Args { command: None, version: 1, flags: Flags { verbose: 2, quiet: 0 } };
    a.preprocess();
    assert_eq!((a.version, a.flags.quiet), (2, 4));
    let mut b = Args { command: None, version: 2, flags: Flags { verbose: 2, quiet: 4 } };
    b.preprocess();
    assert_eq!((b.version, b.flags.quiet), (2, 4));
    let mut c = Args { command: None, version: 0, flags: Flags { verbose: 5, quiet: 1 } };
    c.preprocess();
    assert_eq!((c.version, c.flags.quiet), (0, 1));
}

#[test]
fn invocation_order() {
    let a = Args { command: Some(Command::LsAlias), version: 1, flags: Flags { verbose: 0, quiet: 0 } };
    assert_eq!(invocation(a), Invocation::ShowVersion { with_shim: false });
    let a = Args { command: None, version: 2, flags: Flags { verbose: 0, quiet: 0 } };
    assert_eq!(invocation(a), Invocation::ShowVersion { with_shim: true });
    let a = Args { command: None, version: 0, flags: Flags { verbose: 0, quiet: 0 } };
    assert_eq!(invocation(a), Invocation::Help);
    let a = Args { command: Some(Command::Current), version: 0, flags: Flags { verbose: 0, quiet: 0 } };
    assert_eq!(invocation(a), Invocation::Dispatch(Command::Current));
}

#[test]
fn current_alias_name() {
    assert!(names_current_alias("current"));
    assert!(names_current_alias("  CURRENT\t"));
    assert!(names_current_alias("Current"));
    assert!(!names_current_alias("cur"));
    assert!(!names_current_alias("current2"));
}

#[test]
fn alias_commands() {
    assert_eq!(
        plan_command(Command::Alias { name: s("default"), version: None }),
        Step::Passthrough(list(&["alias", "default"]))
    );
    assert_eq!(
        plan_command(Command::Alias { name: s("default"), version: Some(s("17")) }),
        Step::Run(list(&["alias", "default", "17"]))
    );
    assert_eq!(
        plan_command(Command::Alias { name: s(" Current "), version: Some(s("17")) }),
        Step::Use { version: s("17"), hinted: true }
    );
    assert_eq!(
        plan_command(Command::Alias { name: s("current"), version: None }),
        Step::Passthrough(list(&["alias", "current"]))
    );
    assert_eq!(
        plan_command_with(Command::Alias { name: s("x"), version: Some(s("1")) }, true),
        Step::Use { version: s("1"), hinted: true }
    );
    assert_eq!(plan_command(Command::Current), Step::Passthrough(list(&["alias", "current"])));
}

#[test]
fn install_commands() {
    assert_eq!(
        plan_command(Command::Install { version: s("zulu@17"), output: None }),
        Step::Install {
            args: list(&["install", "zulu@17"]),
            progress: s("Downloading"),
            set_current: Some(s("zulu@17")),
        }
    );
    assert_eq!(
        plan_command(Command::Install { version: s("zulu@17"), output: Some(s("/opt/jdk")) }),
        Step::Install {
            args: list(&["install", "zulu@17", "--output", "/opt/jdk"]),
            progress: s("Downloading"),
            set_current: None,
        }
    );
}

#[test]
fn reserved_current() {
    assert_eq!(
        plan_command(Command::Link { name: s(" current "), path: Some(s("/x")) }),
        Step::Refuse(Refusal::ReservedLinkName)
    );
    assert_eq!(
        plan_command(Command::Unalias { name: s("current") }),
        Step::Refuse(Refusal::ReservedUnaliasName)
    );
    // only the exact (trimmed) name is reserved for links and unalias
    assert_eq!(
        plan_command(Command::Unalias { name: s("Current") }),
        Step::Run(list(&["unalias", "Current"]))
    );
    assert_eq!(
        plan_command(Command::Link { name: s("jdk"), path: None }),
        Step::Passthrough(list(&["link", "jdk"]))
    );
    assert_eq!(
        plan_command(Command::Link { name: s("jdk"), path: Some(s("/x")) }),
        Step::Run(list(&["link", "jdk", "/x"]))
    );
}

#[test]
fn listing_commands() {
    assert_eq!(plan_command(Command::Ls { latest: None }), Step::Passthrough(list(&["ls"])));
    assert_eq!(
        plan_command(Command::Ls { latest: Some(Latest::Patch) }),
        Step::Passthrough(list(&["ls", "--latest", "patch"]))
    );
    assert_eq!(plan_command(Command::LsAlias), Step::Passthrough(list(&["ls-alias"])));
    assert_eq!(
        plan_command(Command::LsRemote { arch: Arch::Amd64, latest: None, os: Os::Linux }),
        Step::Passthrough(list(&["ls-remote", "--arch", "amd64", "--os", "linux"]))
    );
    assert_eq!(
        plan_command(Command::LsRemote { arch: Arch::_386, latest: Some(Latest::Major), os: Os::Windows }),
        Step::Passthrough(list(&["ls-remote", "--arch", "386", "--os", "windows", "--latest", "major"]))
    );
}

#[test]
fn other_commands() {
    assert_eq!(
        plan_command(Command::Uninstall { version: s("zulu@17") }),
        Step::Run(list(&["uninstall", "zulu@17"]))
    );
    assert_eq!(plan_command(Command::Unlink { name: s("jdk") }), Step::Run(list(&["unlink", "jdk"])));
    assert_eq!(
        plan_command(Command::Use { version: s("17") }),
        Step::Use { version: s("17"), hinted: false }
    );
    assert_eq!(
        plan_command(Command::Which { version: s("17"), home: true }),
        Step::Passthrough(list(&["which", "17", "--home"]))
    );
    assert_eq!(
        plan_command(Command::Which { version: s("17"), home: false }),
        Step::Passthrough(list(&["which", "17"]))
    );
}

#[test]
fn install_sets_current_only_when_unset() {
    assert_eq!(after_install("zulu@17", Some("")), Some(list(&["alias", "current", "zulu@17"])));
    assert_eq!(after_install("zulu@17", Some("temurin@21")), None);
    assert_eq!(after_install("zulu@17", None), None);
}

#[test]
fn use_selects_and_sets_current() {
    let xs = list(&["zulu@17.0.1", "temurin@21"]);
    assert_eq!(use_args("ZULU", &xs), Ok(list(&["alias", "current", "zulu@17.0.1"])));
    assert_eq!(
        use_args("8", &xs),
        Err(UseError::NotInstalled { version: s("8") })
    );
}
