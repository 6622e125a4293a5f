use vrsh::builtins::{cd_target, handle_alias, BuiltInError};
use vrsh::colors::{bg_color, bg_color_code, fg_color, fg_color_code, reset_color, Color, ColorError};
use vrsh::errors::ParseError;
use vrsh::expand::{evaluate_cmd, flatten_output, parse_input, Expansion, Step};
use vrsh::grammar::parse_command;
use vrsh::initial::parse_initial_cmd;
use vrsh::pipeline::{arg_to_string, plan_pipeline, Action, Input, Output};
use vrsh::prompt::{parse_prompt, prompt_expand, Argument, PromptCmdPart, PromptContext, PromptEscape};
use vrsh::replacements::{abbreviate_home, parse_replacements, perform_replacement, perform_replacements};
use vrsh::state::{get_env_variable, new_state, read_var, set_variable, EnvValue, State, StateError};
use vrsh::text::replace_all;
use vrsh::types::{Arg, Assignment, Cmd, CmdType, InitialCmdPart, Redirect, ReplacementPart};

fn state() -> State {
    new_state(
        EnvValue::Value("/home/user".to_string()),
        EnvValue::Value("user".to_string()),
    )
    .unwrap()
}

fn expand(line: &str, st: &mut State) -> Result<Cmd, ParseError> {
    let mut ex: Expansion = parse_input(&line.to_string())?;
    match ex.step(st) {
        Step::Done(c) => Ok(c),
        Step::Failed(e) => Err(e),
        Step::Run(_) => panic!("unexpected substitution"),
    }
}

fn stage(c: &Cmd, i: usize) -> (&str, Vec<String>, usize) {
    match &c.parts[i] {
        CmdType::Cmd(p) => (
            p.cmd.as_str(),
            p.args.iter().map(arg_to_string).collect(),
            p.redirects.len(),
        ),
        CmdType::Variable(_, _) => panic!("not a stage"),
    }
}

fn spawn(a: &Action) -> (&str, &Vec<String>, &Input, &Output) {
    match a {
        Action::Spawn { program, args, input, output } => (program.as_str(), args, input, output),
        other => panic!("not a spawn: {:?}", other),
    }
}

#[test]
fn echo_hello_spawns_echo_inheriting_stdio() {
    let mut st = state();
    let cmd = expand("echo hello", &mut st).unwrap();
    let plan = plan_pipeline(cmd);
    assert_eq!(plan.len(), 1);
    let (p, args, i, o) = spawn(&plan[0]);
    assert_eq!(p, "echo");
    assert_eq!(args, &vec!["hello".to_string()]);
    assert!(matches!(i, Input::Inherit));
    assert!(matches!(o, Output::Target));
}

#[test]
fn cd_then_cd_without_argument() {
    let mut st = state();
    let cmd = expand("cd /tmp", &mut st).unwrap();
    let plan = plan_pipeline(cmd);
    match &plan[0] {
        Action::ChangeDir(args) => assert_eq!(cd_target(args).unwrap(), "/tmp"),
        other => panic!("{:?}", other),
    }
    let cmd = expand("cd", &mut st).unwrap();
    let plan = plan_pipeline(cmd);
    match &plan[0] {
        Action::ChangeDir(args) => {
            assert!(matches!(cd_target(args), Err(BuiltInError::NoArgument)))
        }
        other => panic!("{:?}", other),
    }
}

#[test]
fn cd_rejects_two_arguments_and_strings() {
    let two = vec![Arg::Word("a".to_string()), Arg::Word("b".to_string())];
    assert!(matches!(cd_target(&two), Err(BuiltInError::TooManyArguments(2, 1))));
    let s = vec![Arg::String("a b".to_string())];
    assert!(matches!(cd_target(&s), Err(BuiltInError::InvalidArgument)));
}

#[test]
fn alias_replaces_bare_word_before_command_pass() {
    let mut st = state();
    let cmd = expand("alias ll='ls -la'", &mut st).unwrap();
    let plan = plan_pipeline(cmd);
    match plan.into_iter().next().unwrap() {
        Action::Alias(args) => handle_alias(args, &mut st).unwrap(),
        other => panic!("{:?}", other),
    }
    assert_eq!(perform_replacement(&"ll".to_string(), &st), "ls -la");
    let cmd = expand("ll", &mut st).unwrap();
    let (p, args, _) = stage(&cmd, 0);
    assert_eq!(p, "ls");
    assert_eq!(args, vec!["-la".to_string()]);
}

#[test]
fn alias_errors() {
    let mut st = state();
    assert!(matches!(handle_alias(vec![], &mut st), Err(BuiltInError::NoArgument)));
    let two = vec![Arg::Word("a".to_string()), Arg::Word("b".to_string())];
    assert!(matches!(handle_alias(two, &mut st), Err(BuiltInError::TooManyArguments(2, 1))));
    let w = vec![Arg::Word("a".to_string())];
    assert!(matches!(handle_alias(w, &mut st), Err(BuiltInError::InvalidArgument)));
    assert!(st.aliases.is_empty());
}

#[test]
fn alias_redefinition_keeps_one_entry() {
    let mut st = state();
    let a = |v: &str| vec![Arg::Assignment("g".to_string(), Assignment::Word(v.to_string()))];
    handle_alias(a("git"), &mut st).unwrap();
    handle_alias(a("grep"), &mut st).unwrap();
    assert_eq!(st.aliases.len(), 1);
    assert_eq!(perform_replacement(&"g".to_string(), &st), "grep");
}

#[test]
fn false_pipe_true_spawns_both_last_stage_first() {
    let mut st = state();
    let cmd = expand("false | true", &mut st).unwrap();
    let plan = plan_pipeline(cmd);
    assert_eq!(plan.len(), 2);
    let (first, _, i0, o0) = spawn(&plan[0]);
    assert_eq!(first, "true");
    assert!(matches!(i0, Input::Pipe));
    assert!(matches!(o0, Output::Target));
    let (second, _, i1, o1) = spawn(&plan[1]);
    assert_eq!(second, "false");
    assert!(matches!(i1, Input::Inherit));
    assert!(matches!(o1, Output::IntoNext));
}

#[test]
fn output_redirect_writes_file() {
    let mut st = state();
    let cmd = expand("echo hi > /tmp/out.txt", &mut st).unwrap();
    let plan = plan_pipeline(cmd);
    let (p, args, i, o) = spawn(&plan[0]);
    assert_eq!(p, "echo");
    assert_eq!(args, &vec!["hi".to_string()]);
    assert!(matches!(i, Input::Inherit));
    match o {
        Output::File(f) => assert_eq!(f, "/tmp/out.txt"),
        other => panic!("{:?}", other),
    }
}

#[test]
fn last_redirect_wins() {
    let mut st = state();
    let cmd = expand("cat < a < b > c > d", &mut st).unwrap();
    let plan = plan_pipeline(cmd);
    let (_, _, i, o) = spawn(&plan[0]);
    assert!(matches!(i, Input::File(f) if f == "b"));
    assert!(matches!(o, Output::File(f) if f == "d"));
}

#[test]
fn three_stage_wiring() {
    let mut st = state();
    let cmd = expand("a | b | c", &mut st).unwrap();
    let plan = plan_pipeline(cmd);
    let names: Vec<&str> = plan.iter().map(|a| spawn(a).0).collect();
    assert_eq!(names, vec!["c", "b", "a"]);
    assert!(matches!(spawn(&plan[1]).2, Input::Pipe));
    assert!(matches!(spawn(&plan[1]).3, Output::IntoNext));
    assert!(matches!(spawn(&plan[2]).2, Input::Inherit));
}

#[test]
fn exit_ends_the_plan() {
    let mut st = state();
    let cmd = expand("echo a | exit", &mut st).unwrap();
    let plan = plan_pipeline(cmd);
    assert_eq!(plan.len(), 1);
    assert!(matches!(plan[0], Action::Exit));
}

#[test]
fn nested_substitution_runs_innermost_first() {
    let mut st = state();
    let mut ex = parse_input(&"echo $(echo $(echo hi))".to_string()).unwrap();
    let first = match ex.step(&st) {
        Step::Run(c) => c,
        other => panic!("{:?}", other),
    };
    let (p, args, _) = stage(&first, 0);
    assert_eq!((p, args), ("echo", vec!["hi".to_string()]));
    ex.resume(&"hi\n".to_string());
    let second = match ex.step(&st) {
        Step::Run(c) => c,
        other => panic!("{:?}", other),
    };
    let (p, args, _) = stage(&second, 0);
    assert_eq!((p, args), ("echo", vec!["hi".to_string()]));
    ex.resume(&"hi\n".to_string());
    let last = match ex.step(&mut st) {
        Step::Done(c) => c,
        other => panic!("{:?}", other),
    };
    let (p, args, _) = stage(&last, 0);
    assert_eq!((p, args), ("echo", vec!["hi".to_string()]));
}

#[test]
fn substitution_output_is_flattened() {
    assert_eq!(flatten_output(&"a\nb\n".to_string()), "a b");
    assert_eq!(flatten_output(&"a\n\n".to_string()), "a\n".replace('\n', " "));
    assert_eq!(flatten_output(&"".to_string()), "");
}

#[test]
fn blank_and_comment_lines_are_ignored() {
    assert!(matches!(parse_input(&"".to_string()), Err(ParseError::InputEmpty)));
    assert!(matches!(parse_input(&"   ".to_string()), Err(ParseError::InputEmpty)));
    assert!(matches!(parse_input(&"  # note".to_string()), Err(ParseError::Comment)));
}

#[test]
fn syntax_errors_name_the_pass() {
    match parse_input(&"echo 'open".to_string()) {
        Err(ParseError::SyntaxError(t, pass)) => {
            assert_eq!(t, "echo 'open");
            assert_eq!(pass, "initial");
        }
        other => panic!("{:?}", other.err()),
    }
    assert!(matches!(parse_initial_cmd(&"echo )".to_string()), Err(ParseError::SyntaxError(_, _))));
    assert!(matches!(parse_initial_cmd(&"echo $(ls".to_string()), Err(ParseError::SyntaxError(_, _))));
    let st = state();
    match perform_replacements(&"echo \"open".to_string(), &st) {
        Err(ParseError::SyntaxError(_, pass)) => assert_eq!(pass, "replacements"),
        other => panic!("{:?}", other),
    }
    match evaluate_cmd(&"echo |".to_string(), &st) {
        Err(ParseError::SyntaxError(t, pass)) => {
            assert_eq!(t, "echo |");
            assert_eq!(pass, "command");
        }
        other => panic!("{:?}", other),
    }
    assert!(parse_command(&"> f".to_string()).is_err());
    assert!(parse_command(&"echo >".to_string()).is_err());
}

#[test]
fn first_pass_parts() {
    let c = parse_initial_cmd(&"a 'b $(c)' \"it's )\" $(d)".to_string()).unwrap();
    assert!(matches!(&c.parts[0], InitialCmdPart::String(s) if s == "a "));
    assert!(matches!(&c.parts[1], InitialCmdPart::SingleQuotedString(s) if s == "b $(c)"));
    assert!(matches!(&c.parts[2], InitialCmdPart::String(s) if s == " \"it's )\" "));
    assert!(matches!(&c.parts[3], InitialCmdPart::CalculationStart));
    assert!(matches!(&c.parts[4], InitialCmdPart::String(s) if s == "d"));
    assert!(matches!(&c.parts[5], InitialCmdPart::CalculationEnd));
    assert_eq!(c.parts.len(), 6);
}

#[test]
fn single_quotes_protect_from_substitution() {
    let mut st = state();
    set_variable("x".to_string(), "1".to_string(), &mut st);
    let cmd = expand("echo '$x ~' $x ~/d", &mut st).unwrap();
    let (_, args, _) = stage(&cmd, 0);
    assert_eq!(args, vec!["$x ~".to_string(), "1".to_string(), "/home/user/d".to_string()]);
}

#[test]
fn second_pass_parts() {
    let r = parse_replacements(&"ls  \"a b\" $HOME x$y".to_string()).unwrap();
    let kinds: Vec<String> = r
        .parts
        .iter()
        .map(|p| match p {
            ReplacementPart::String(s) => format!("S:{}", s),
            ReplacementPart::Word(w) => format!("W:{}", w),
            ReplacementPart::Variable(v) => format!("V:{}", v),
        })
        .collect();
    assert_eq!(kinds, vec!["W:ls", "S:  ", "S:\"a b\"", "S: ", "V:HOME", "S: ", "W:x", "V:y"]);
}

#[test]
fn variables_read_and_assign() {
    let mut st = state();
    assert_eq!(read_var(&"x".to_string(), &st), "");
    let cmd = expand("x=5", &mut st).unwrap();
    let plan = plan_pipeline(cmd);
    match plan.into_iter().next().unwrap() {
        Action::SetVariable(k, v) => set_variable(k, v, &mut st),
        other => panic!("{:?}", other),
    }
    assert_eq!(read_var(&"x".to_string(), &st), "5");
    set_variable("x".to_string(), "6".to_string(), &mut st);
    assert_eq!(read_var(&"x".to_string(), &st), "6");
    assert_eq!(st.variables.len(), 1);
    let cmd = expand("echo $x $nope.", &mut st).unwrap();
    let (_, args, _) = stage(&cmd, 0);
    assert_eq!(args, vec!["6".to_string(), ".".to_string()]);
}

#[test]
fn assignments_in_command_pass() {
    let c = parse_command(&"y=2 cmd a=b c=\"d e\" --o=p".to_string()).unwrap();
    assert!(matches!(&c.parts[0], CmdType::Variable(n, v) if n == "y" && v == "2"));
    match &c.parts[1] {
        CmdType::Cmd(p) => {
            assert_eq!(p.cmd, "cmd");
            assert!(matches!(&p.args[0], Arg::Assignment(n, Assignment::Word(v)) if n == "a" && v == "b"));
            assert!(matches!(&p.args[1], Arg::Assignment(n, Assignment::String(v)) if n == "c" && v == "d e"));
            assert!(matches!(&p.args[2], Arg::Word(w) if w == "--o=p"));
            assert_eq!(arg_to_string(&p.args[1]), "c=d e");
        }
        other => panic!("{:?}", other),
    }
    let c = parse_command(&"".to_string()).unwrap();
    assert!(c.parts.is_empty());
    let c = parse_command(&"sort<in|wc>out".to_string()).unwrap();
    assert_eq!(c.parts.len(), 2);
    assert!(matches!(&c.parts[0], CmdType::Cmd(p) if matches!(&p.redirects[0], Redirect::In(f) if f == "in")));
}

#[test]
fn home_marker_expansion() {
    let st = state();
    assert_eq!(perform_replacement(&"~".to_string(), &st), "/home/user");
    let once = perform_replacement(&"~/a~".to_string(), &st);
    assert_eq!(once, "/home/user/a/home/user");
    assert_eq!(perform_replacement(&once, &st), once);
}

#[test]
fn alias_expansion_is_stable() {
    let mut st = state();
    handle_alias(
        vec![Arg::Assignment("ll".to_string(), Assignment::String("ls -la".to_string()))],
        &mut st,
    )
    .unwrap();
    let once = perform_replacement(&"ll".to_string(), &st);
    assert_eq!(once, "ls -la");
    assert_eq!(perform_replacement(&once, &st), once);
}

#[test]
fn replace_all_matches_str_replace() {
    let v = |s: &str| s.chars().collect::<Vec<char>>();
    for (s, p, r) in [("aXbXc", "X", "yy"), ("abc", "", "-"), ("aaaa", "aa", "b"), ("", "a", "b")] {
        let out: String = replace_all(&v(s), &v(p), &v(r)).into_iter().collect();
        assert_eq!(out, s.replace(p, r));
    }
}

#[test]
fn state_from_environment() {
    assert!(matches!(new_state(EnvValue::Unset, EnvValue::Unset), Err(StateError::EnvVarNotSet(v)) if v == "HOME"));
    assert!(matches!(
        new_state(EnvValue::Value("/h".to_string()), EnvValue::Value("".to_string())),
        Err(StateError::EnvVarEmpty(v)) if v == "USER"
    ));
    assert!(matches!(get_env_variable("X", EnvValue::NotUnicode), Err(StateError::InvalidEnvVar(v)) if v == "X"));
    let st = state();
    assert_eq!(st.home, "/home/user");
    assert_eq!(st.username, "user");
}

#[test]
fn colors() {
    assert_eq!(Color::Pink.to_number(), 200);
    assert_eq!(Color::BrightGreen.to_number(), 34);
    assert!(matches!(Color::from_string("bluegreen"), Ok(Color::BlueGreen)));
    assert!(matches!(Color::from_string("Red"), Err(ColorError::InvalidColor(s)) if s == "Red"));
    assert_eq!(fg_color_code(7), "\x1b[38;5;7m");
    assert_eq!(bg_color_code(255), "\x1b[48;5;255m");
    assert_eq!(fg_color(Color::Red), "\x1b[38;5;1m");
    assert_eq!(bg_color(Color::Pink), "\x1b[48;5;200m");
    assert_eq!(reset_color(), "\x1b[0m");
}

fn ctx() -> PromptContext {
    PromptContext {
        username: "ann".to_string(),
        cwd: "/home/ann/src/vrsh".to_string(),
        home: "/home/ann".to_string(),
        git: " on main".to_string(),
    }
}

#[test]
fn prompt_template_expansion() {
    let parts = parse_prompt(&"%n:%~ %P|%c%g %%".to_string()).unwrap();
    assert_eq!(prompt_expand(&parts, &ctx()).unwrap(), "ann:~/src/vrsh ~/src/|vrsh on main %");
    let parts = parse_prompt(&"%F{red}x%f%K{200}y%k%d".to_string()).unwrap();
    assert_eq!(
        prompt_expand(&parts, &ctx()).unwrap(),
        "\x1b[38;5;1mx\x1b[0m\x1b[48;5;200my\x1b[0m/home/ann/src/vrsh"
    );
}

#[test]
fn prompt_template_errors() {
    assert!(parse_prompt(&"50%".to_string()).is_none());
    assert!(parse_prompt(&"%q".to_string()).is_none());
    assert!(parse_prompt(&"%F{red".to_string()).is_none());
    let parts = parse_prompt(&"%F{256}".to_string()).unwrap();
    assert!(matches!(&parts[0], PromptCmdPart::Escaped(PromptEscape::FGColorStart(Argument::Word(w))) if w == "256"));
    assert!(matches!(prompt_expand(&parts, &ctx()), Err(ColorError::InvalidColor(w)) if w == "256"));
}

#[test]
fn home_abbreviation() {
    assert_eq!(abbreviate_home(&"/home/u/x".to_string(), &"/home/u".to_string()), "~/x");
    assert_eq!(abbreviate_home(&"/tmp".to_string(), &"/home/u".to_string()), "/tmp");
}

#[test]
fn abbreviation_then_expansion_gives_the_path_back() {
    let st = state();
    let path = "/home/user/src/home/user".to_string();
    let short = abbreviate_home(&path, &st.home);
    assert_eq!(short, "~/src~");
    assert_eq!(perform_replacement(&short, &st), path);
}
