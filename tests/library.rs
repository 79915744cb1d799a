use runfile::exec::{
    advance, cache_key, cache_key_of_digest, choose_program, exe_not_found, execution_failed,
    exit_outcome, Event, Program, RunError, Stage, Step,
};
use runfile::lang::{lang_from_tag, Lang};
use runfile::parser::{chars_of, parse};
use runfile::parser::IncludeRequest;
use runfile::tree::{bind, find_command, Command, Resolution, RunTree};
use std::str::FromStr;

fn args(v: &[&str]) -> Vec<String> {
    v.iter().map(|s| s.to_string()).collect()
}

const SAMPLE: &str = "/// Says hello\ncmd hello(name) {\n    echo hi $name\n}\n\nsub group {\n    py inner() {\n        print('x')\n    }\n}\n\nrs build { fn main() { println!(\"{}\", 1); } }\n";

#[test]
fn tags_map_to_languages() {
    for t in ["cmd", "fn", "sh", "shell"] {
        assert_eq!(Lang::from_str(t), Ok(Lang::Shell));
    }
    assert_eq!(Lang::from_str("bash"), Ok(Lang::Bash));
    assert_eq!(Lang::from_str("rs"), Ok(Lang::Rust));
    assert_eq!(Lang::from_str("rust"), Ok(Lang::Rust));
    assert_eq!(Lang::from_str("c"), Ok(Lang::C));
    for t in ["c++", "cpp", "cplusplus"] {
        assert_eq!(Lang::from_str(t), Ok(Lang::Cpp));
    }
    for t in ["c#", "cs", "csharp"] {
        assert_eq!(Lang::from_str(t), Ok(Lang::CSharp));
    }
    assert_eq!(Lang::from_str("py"), Ok(Lang::Python));
    assert_eq!(Lang::from_str("javascript"), Ok(Lang::Javascript));
    assert_eq!(lang_from_tag("js"), Some(Lang::Javascript));
}

#[test]
fn tags_are_case_sensitive() {
    assert_eq!(Lang::from_str("Bash"), Err("Bash".to_string()));
    assert_eq!(Lang::from_str("ruby"), Err("ruby".to_string()));
    assert_eq!(lang_from_tag(""), None);
}

#[test]
fn language_capabilities() {
    assert_eq!(Lang::default(), Lang::Shell);
    assert_eq!(Lang::Cpp.as_str(), "c++");
    assert_eq!(Lang::Python.binary(), "python3");
    assert_eq!(Lang::Rust.nix_packages(), vec!["cargo", "rustc"]);
    assert!(Lang::CSharp.is_compiled());
    assert!(!Lang::Bash.is_compiled());
}

#[test]
fn execution_failed_message() {
    assert_eq!(
        execution_failed("gcc", "No such file"),
        "'gcc' failed to execute command\n\nComplete error: No such file"
    );
}

#[test]
fn exe_not_found_message() {
    let m = exe_not_found("node", "cannot find binary path");
    assert!(m.starts_with("'node' executable could not be found."));
    assert!(m.ends_with("Complete error: cannot find binary path"));
}

#[test]
fn missing_executable_without_provisioning() {
    let r = choose_program(Lang::C, Err("cannot find binary path".to_string()), false);
    match r {
        Err(RunError::ExecutableNotFound { binary, hint }) => {
            assert_eq!(binary, "gcc");
            assert!(hint.contains("'gcc'"));
        }
        other => panic!("unexpected {:?}", other),
    }
}

#[test]
fn missing_executable_with_provisioning() {
    let r = choose_program(Lang::Javascript, Err("missing".to_string()), true);
    assert_eq!(r, Ok(Program::Provisioned { packages: vec!["nodejs"], binary: "node" }));
    let r = choose_program(Lang::Bash, Ok("/bin/bash".to_string()), false);
    assert_eq!(r, Ok(Program::OnPath("/bin/bash".to_string())));
}

#[test]
fn exit_status_mapping() {
    assert_eq!(exit_outcome(true, Some(0)), Ok(()));
    assert_eq!(exit_outcome(false, Some(3)), Err(RunError::NonZeroExit { code: Some(3) }));
    assert_eq!(exit_outcome(false, None), Err(RunError::NonZeroExit { code: None }));
}

#[test]
fn cache_key_is_content_addressed() {
    assert_eq!(cache_key(Lang::Rust, ""), "cache/rust/d41d8cd98f00b204e9800998ecf8427e");
    assert_eq!(cache_key(Lang::C, "abc"), "cache/c/900150983cd24fb0d6963f7d28e17f72");
    assert_eq!(cache_key(Lang::C, "abc"), cache_key(Lang::C, "abc"));
    assert_ne!(cache_key(Lang::C, "abc"), cache_key(Lang::C, "abd"));
    assert_eq!(cache_key_of_digest(Lang::CSharp, "ff"), "cache/c#/ff");
}

#[test]
fn cached_project_skips_scaffold_but_compiles() {
    // first run: nothing cached
    let (s, a) = advance(Stage::Probing, Event::Probed { exists: false });
    assert_eq!(a, Step::Scaffold);
    let (s, a) = advance(s, Event::Done);
    assert_eq!(a, Step::WriteMain);
    let (s, a) = advance(s, Event::Done);
    assert_eq!(a, Step::Compile);
    let (s, a) = advance(s, Event::Compiled { success: true, stderr: Vec::new() });
    assert_eq!(a, Step::Run);
    let (s, a) = advance(s, Event::Exited { success: true, code: Some(0) });
    assert_eq!((s, a), (Stage::Succeeded, Step::Finish));
    // second run: the directory exists
    let (s, a) = advance(Stage::Probing, Event::Probed { exists: true });
    assert_eq!((s, a), (Stage::Compiling, Step::Compile));
}

#[test]
fn compile_failure_is_verbatim() {
    let err = b"error[E0425]: cannot find value `x`\n  --> src/main.rs:1:1\n".to_vec();
    let (s, a) = advance(Stage::Compiling, Event::Compiled { success: false, stderr: err.clone() });
    assert_eq!(a, Step::Finish);
    assert_eq!(s, Stage::Failed(RunError::CompileFailed { stderr: err }));
    let raw = vec![0xff, 0xfe, b'e', b'r', b'r', 0x80];
    let (s, _) = advance(Stage::Compiling, Event::Compiled { success: false, stderr: raw.clone() });
    assert_eq!(s, Stage::Failed(RunError::CompileFailed { stderr: raw }));
}

#[test]
fn failing_child_and_broken_step() {
    let (s, a) = advance(Stage::Running, Event::Exited { success: false, code: Some(2) });
    assert_eq!((s, a), (Stage::Failed(RunError::NonZeroExit { code: Some(2) }), Step::Finish));
    let e = RunError::Io { problem: "Could not create project directory".to_string() };
    let (s, _) = advance(Stage::Scaffolding, Event::Broke(e.clone()));
    assert_eq!(s, Stage::Failed(e));
}

#[test]
fn parses_sample() {
    let t = parse(SAMPLE).expect("valid runfile").tree;
    assert_eq!(t.nodes.len(), 2);
    let root = &t.nodes[0];
    assert_eq!(root.commands.len(), 2);
    let hello = &root.commands[0];
    assert_eq!(hello.name, "hello");
    assert_eq!(hello.doc.as_deref(), Some(" Says hello"));
    assert_eq!(hello.params, vec!["name".to_string()]);
    assert_eq!(hello.lang, Lang::Shell);
    assert_eq!(hello.body, "\n    echo hi $name\n");
    let build = &root.commands[1];
    assert_eq!(build.lang, Lang::Rust);
    assert!(build.params.is_empty());
    assert_eq!(build.body, " fn main() { println!(\"{}\", 1); } ");
    assert_eq!(root.subcommands.len(), 1);
    assert_eq!(root.subcommands[0].name, "group");
    let inner = &t.nodes[root.subcommands[0].node].commands[0];
    assert_eq!(inner.name, "inner");
    assert_eq!(inner.lang, Lang::Python);
}

#[test]
fn parsing_is_deterministic() {
    assert_eq!(parse(SAMPLE), parse(SAMPLE));
    assert_eq!(parse(""), parse(""));
}

#[test]
fn empty_runfile_has_no_commands() {
    let t = parse("  // nothing here\n").unwrap().tree;
    assert_eq!(t.nodes.len(), 1);
    assert!(t.nodes[0].commands.is_empty());
}

fn assert_within(src: &str) -> usize {
    let d = parse(src).unwrap_err();
    assert!(!d.is_empty());
    let n = chars_of(src).len();
    for x in &d {
        assert!(x.start <= x.end && x.end <= n, "{:?}", x);
    }
    d.len()
}

#[test]
fn invalid_runfiles_give_diagnostics() {
    assert_within("cmd a {");
    assert_within("ruby a { puts 1 }");
    assert_within("cmd a { x }\ncmd a { y }");
    assert_within("}");
    assert_within("sub g { cmd a { x }");
    assert_within("cmd { x }");
    assert_within("cmd a(x y { z }");
    assert_within("cmd a ! { }");
    assert_within("sub g cmd");
    assert_within("é");
}

#[test]
fn diagnostics_are_all_reported() {
    let d = parse("ruby a { x }\ncmd b { y }\ncmd b { z }\n}").unwrap_err();
    assert_eq!(d.len(), 3);
    assert_eq!((d[0].start, d[0].end), (0, 4));
    assert_eq!(d[0].message, "unknown language");
}

#[test]
fn unterminated_body_span() {
    let d = parse("cmd a {\n echo").unwrap_err();
    assert_eq!(d.len(), 1);
    assert_eq!((d[0].start, d[0].end), (6, 13));
}

#[test]
fn lookup_is_name_exact() {
    let t = parse("cmd hello { echo hi }\ncmd Hello { echo HI }").unwrap().tree;
    assert_eq!(find_command(&t.nodes[0].commands, "hello"), Some(0));
    assert_eq!(find_command(&t.nodes[0].commands, "Hello"), Some(1));
    assert_eq!(find_command(&t.nodes[0].commands, "hell"), None);
    assert_eq!(find_command(&t.nodes[0].commands, "hello!"), None);
    let u = parse("cmd Hello { echo HI }\ncmd hello { echo hi }").unwrap().tree;
    let i = find_command(&u.nodes[0].commands, "hello").unwrap();
    assert_eq!(u.nodes[0].commands[i].body, " echo hi ");
    assert_eq!(t.resolve(&args(&["hell"])), Resolution::NotFound { node: 0 });
}

#[test]
fn resolves_through_blocks() {
    let t = parse(SAMPLE).unwrap().tree;
    let r = t.resolve(&args(&["group", "inner", "x"]));
    match r {
        Resolution::Found { node, index, consumed } => {
            assert_eq!(t.nodes[node].commands[index].name, "inner");
            assert_eq!(consumed, 2);
        }
        _ => panic!("not found"),
    }
    assert_eq!(t.resolve(&args(&["hello", "bob"])), Resolution::Found { node: 0, index: 0, consumed: 1 });
}

#[test]
fn unknown_command_runs_default() {
    let t = parse("cmd default { echo d }\ncmd x { echo x }\nsub g { cmd y { } }").unwrap().tree;
    assert_eq!(t.resolve(&args(&["zzz", "a", "b"])), Resolution::Found { node: 0, index: 0, consumed: 0 });
    assert_eq!(t.resolve(&args(&[])), Resolution::Found { node: 0, index: 0, consumed: 0 });
    let b = bind(&t.nodes[0].commands[0], &args(&["zzz", "a", "b"]), 0);
    assert_eq!(b.extra, args(&["zzz", "a", "b"]));
}

#[test]
fn unknown_command_without_default() {
    let t = parse("cmd a { }\ncmd b { }\nsub g { cmd c { } }").unwrap().tree;
    assert_eq!(t.resolve(&args(&["zzz"])), Resolution::NotFound { node: 0 });
    assert_eq!(t.command_list(0), args(&["a", "b"]));
}

#[test]
fn binds_by_position() {
    let c = Command {
        name: "c".to_string(),
        doc: None,
        params: args(&["a", "b"]),
        lang: Lang::Shell,
        body: String::new(),
    };
    let b = bind(&c, &args(&["c", "1", "2", "3", "4"]), 1);
    assert_eq!(b.values, vec![Some("1".to_string()), Some("2".to_string())]);
    assert_eq!(b.extra, args(&["3", "4"]));
    let b = bind(&c, &args(&["c", "1"]), 1);
    assert_eq!(b.values, vec![Some("1".to_string()), None]);
    assert!(b.extra.is_empty());
}

#[test]
fn tree_building() {
    let mut t = RunTree::new();
    let k = t.add_block(0, "g".to_string()).unwrap();
    assert_eq!(k, 1);
    assert_eq!(t.add_block(0, "g".to_string()), None);
    let c = Command { name: "x".to_string(), doc: None, params: vec![], lang: Lang::C, body: String::new() };
    assert!(t.add_command(k, c.clone()));
    assert!(!t.add_command(k, c));
}

#[test]
fn include_directives_are_collected() {
    let f = parse("include tools \"tools.run\"\nsub g { include more \"x/more.run\" }").unwrap();
    assert_eq!(
        f.includes,
        vec![
            IncludeRequest { node: 0, name: "tools".to_string(), path: "tools.run".to_string() },
            IncludeRequest { node: 1, name: "more".to_string(), path: "x/more.run".to_string() },
        ]
    );
    assert_within("include tools tools.run");
    assert_within("include tools \"tools.run");
}

#[test]
fn includes_are_merged_by_name() {
    let mut t = parse("cmd a { }").unwrap().tree;
    let other = parse("cmd b { echo b }\nsub s { cmd c { } }").unwrap().tree;
    let k = t.add_include(0, "lib".to_string(), other.clone()).unwrap();
    assert_eq!(k, 1);
    assert_eq!(t.nodes.len(), 3);
    assert_eq!(t.nodes[0].includes[0].name, "lib");
    assert_eq!(t.nodes[1].subcommands[0].node, 2);
    assert_eq!(t.add_include(0, "lib".to_string(), other), None);
    match t.resolve(&args(&["lib", "s", "c"])) {
        Resolution::Found { node, index, consumed } => {
            assert_eq!((node, consumed), (2, 3));
            assert_eq!(t.nodes[node].commands[index].name, "c");
        }
        _ => panic!("not found"),
    }
    assert_eq!(t.resolve(&args(&["lib", "b"])), Resolution::Found { node: 1, index: 0, consumed: 2 });
}

#[test]
fn blank_runfile_parses_to_empty_tree() {
    let f = parse(" \n\t\r\n  ").unwrap();
    assert_eq!(f.tree, RunTree::new());
    assert!(f.includes.is_empty());
}

#[test]
fn characters_and_text_helpers() {
    assert_eq!(chars_of("aé c"), vec!['a', 'é', ' ', 'c']);
    assert!(runfile::lang::same_text("abc", "abc"));
    assert!(!runfile::lang::same_text("abc", "ab"));
}

#[test]
fn diagnostics_count_characters() {
    let d = parse("é ruby a { }").unwrap_err();
    assert_eq!(d.len(), 2);
    assert_eq!((d[0].start, d[0].end), (0, 1));
    assert_eq!((d[1].start, d[1].end), (2, 6));
}

#[test]
fn duplicate_include_is_rejected() {
    let d = parse("include a \"x.run\"\ninclude a \"y.run\"").unwrap_err();
    assert_eq!(d.len(), 1);
    assert_eq!((d[0].start, d[0].end), (26, 27));
    assert!(parse("include a \"x.run\"\nsub g { include a \"y.run\" }").is_ok());
}

#[test]
fn first_command_is_read_exactly() {
    let f = parse("\n  bash  greet {echo {nested}}\ncmd other { }").unwrap();
    let c = &f.tree.nodes[0].commands[0];
    assert_eq!(c.name, "greet");
    assert_eq!(c.lang, Lang::Bash);
    assert!(c.params.is_empty());
    assert_eq!(c.body, "echo {nested}");
}

#[test]
fn first_item_rejections() {
    assert!(parse("  } cmd a { }").is_err());
    assert!(parse("@ cmd a { }").is_err());
    assert!(parse("ruby a { }").is_err());
    assert!(parse("cmd a { {").is_err());
    assert!(parse("sub a { }").is_ok());
}

#[test]
fn listing_puts_default_first() {
    let t = parse("cmd a { }\ncmd b { }\ncmd default { }\ncmd c { }").unwrap().tree;
    assert_eq!(t.listing_order(0), vec![2, 0, 1, 3]);
    let u = parse("cmd a { }\ncmd b { }").unwrap().tree;
    assert_eq!(u.listing_order(0), vec![0, 1]);
}
