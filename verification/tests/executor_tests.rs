use editrion_core::executor::{
    build_exec_args, build_login_shell_cmdline, build_override_flags, build_shell_cmdline,
    effective_cwd, Channel, InputDelivery, RunSession,
};

#[test]
fn successful_run_emits_streams_then_one_ok_completion() {
    let mut session = RunSession::new("run-1".to_string());

    let ev1 = session.on_stdout_line("\x1b[32mfirst\x1b[0m");
    assert_eq!(ev1.run_id, "run-1");
    assert_eq!(ev1.channel, Channel::Stdout);
    assert_eq!(ev1.data, "first\n");

    let ev2 = session.on_stdout_line("second");
    assert_eq!(ev2.data, "second\n");

    let done = session.complete(true);
    assert_eq!(done.run_id, "run-1");
    assert!(done.ok);
    assert_eq!(done.payload, "first\nsecond\n");
}

#[test]
fn failing_run_payload_holds_every_line() {
    let mut session = RunSession::new("run-2".to_string());
    let lines = ["one", "\x1b[31mtwo\x1b[0m", "three"];
    let mut events = Vec::new();
    for line in lines {
        events.push(session.on_stdout_line(line));
    }
    assert_eq!(events.len(), 3);

    let done = session.complete(false);
    assert!(!done.ok);
    assert_eq!(done.payload, "one\ntwo\nthree\n");
    for ev in &events {
        assert!(done.payload.contains(ev.data.as_str()));
    }
}

#[test]
fn stderr_feeds_the_buffer_without_events() {
    let mut session = RunSession::new("run-3".to_string());
    session.on_stderr_line("warning: \x1b[33mcareful\x1b[0m");
    let ev = session.on_stdout_line("output");
    assert_eq!(ev.data, "output\n");

    let done = session.complete(false);
    assert_eq!(done.payload, "warning: careful\noutput\n");
}

#[test]
fn success_payload_is_stdout_derived_only() {
    let mut session = RunSession::new("run-4".to_string());
    session.on_stderr_line("noise on stderr");
    session.on_stdout_line("real output");
    session.on_stderr_line("more noise");

    let done = session.complete(true);
    assert!(done.ok);
    assert_eq!(done.payload, "real output\n");
}

#[test]
fn override_flags_render_model_and_pairs() {
    let flags = build_override_flags(
        &Some("gpt-5".to_string()),
        &vec![
            ("effort".to_string(), "high".to_string()),
            ("sandbox".to_string(), "off".to_string()),
        ],
    );
    assert_eq!(
        flags,
        vec![
            "--model".to_string(),
            "gpt-5".to_string(),
            "-c".to_string(),
            "effort=high".to_string(),
            "-c".to_string(),
            "sandbox=off".to_string(),
        ]
    );

    let none = build_override_flags(&None, &vec![]);
    assert!(none.is_empty());
}

#[test]
fn exec_args_carry_subcommand_flags_and_delivery() {
    let flags = vec!["--model".to_string(), "gpt-5".to_string()];
    let stdin_args = build_exec_args(flags.clone(), InputDelivery::Stdin, "the prompt");
    assert_eq!(
        stdin_args,
        vec![
            "exec".to_string(),
            "--skip-git-repo-check".to_string(),
            "--model".to_string(),
            "gpt-5".to_string(),
        ]
    );

    let arg_args = build_exec_args(flags, InputDelivery::TrailingArg, "the prompt");
    assert_eq!(arg_args.last().map(String::as_str), Some("the prompt"));
    assert_eq!(arg_args.len(), 5);
}

#[test]
fn shell_cmdline_quotes_every_argument() {
    let args = vec!["exec".to_string(), "-c".to_string(), "a=$HOME".to_string()];
    let line = build_shell_cmdline("codex", &args);
    assert_eq!(line, "'codex' 'exec' '-c' 'a=$HOME'");
}

#[test]
fn login_cmdline_is_tool_and_login() {
    assert_eq!(build_login_shell_cmdline("codex"), "'codex' 'login'");
}

#[test]
fn working_directory_applies_only_when_it_is_a_directory() {
    assert_eq!(
        effective_cwd(Some("/tmp".to_string()), true).as_deref(),
        Some("/tmp")
    );
    assert!(effective_cwd(Some("/missing".to_string()), false).is_none());
    assert!(effective_cwd(None, false).is_none());
}
