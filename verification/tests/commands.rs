use cmdparse::{Context, Flags, OptDecl, OptGroup, ParseError};

fn args(list: &[&str]) -> Vec<String> {
    list.iter().map(|s| s.to_string()).collect()
}

#[test]
fn test_command_valid_passed() {
    let mut ctx = Context::new(
        "test [option] command [command-options]",
        args(&["test", "command"]),
    );
    let (cmd_res, cmd) = ctx.add_command("command", "description").unwrap();
    let cmd_opt = cmd.add_option(&mut ctx, None, Some('b'), None, Flags::defaults()).unwrap();
    assert!(ctx.validate().is_ok());
    assert!(cmd_res.check(&ctx));
    assert!(!cmd_opt.check(&ctx));
}

#[test]
fn test_command_valid_unpassed() {
    let mut ctx = Context::new(
        "test [option] command [command-options]",
        args(&["test", "notacommand"]),
    );
    let (cmd_res, cmd) = ctx.add_command("command", "description").unwrap();
    let cmd_opt = cmd.add_option(&mut ctx, None, Some('b'), None, Flags::defaults()).unwrap();
    assert!(ctx.validate().is_ok());
    assert!(!cmd_res.check(&ctx));
    assert!(!cmd_opt.check(&ctx));
}

#[test]
fn test_command_invalid_command_option() {
    let mut ctx = Context::new(
        "test [option] command [command-options]",
        args(&["test", "-a", "command2", "-a"]),
    );
    ctx.add_option(None, Some('a'), None, Flags::defaults()).unwrap();
    ctx.add_option(None, Some('u'), None, Flags::defaults()).unwrap();
    {
        let (_, cmd2) = ctx.add_command("command2", "description").unwrap();
        cmd2.add_option(&mut ctx, None, Some('b'), None, Flags::defaults()).unwrap();
        cmd2.add_option(&mut ctx, None, Some('c'), None, Flags::defaults()).unwrap();
    }
    assert!(ctx.validate().is_err());
}

#[test]
fn test_command_invalid_command() {
    let mut ctx = Context::new(
        "test [option] command [command-options]",
        args(&["test", "-a", "command", "-b"]),
    );
    ctx.add_option(None, Some('a'), None, Flags::defaults()).unwrap();
    ctx.add_option(None, Some('u'), None, Flags::defaults()).unwrap();
    {
        let (_, cmd2) = ctx.add_command("command2", "description").unwrap();
        cmd2.add_option(&mut ctx, None, Some('b'), None, Flags::defaults()).unwrap();
        cmd2.add_option(&mut ctx, None, Some('c'), None, Flags::defaults()).unwrap();
    }
    assert!(ctx.validate().is_err());
}

#[test]
fn test_command_option_check_results() {
    let mut ctx = Context::new(
        "test [option] command [command-options]",
        args(&["test", "-a", "command2", "-b"]),
    );
    let a_opt = ctx.add_option(None, Some('a'), None, Flags::defaults()).unwrap();
    let u_opt = ctx.add_option(None, Some('u'), None, Flags::defaults()).unwrap();
    let (cmd_res, cmd) = ctx.add_command("command", "description").unwrap();
    let cmd_a_opt = cmd.add_option(&mut ctx, None, Some('a'), None, Flags::defaults()).unwrap();
    let cmd_b_opt = cmd.add_option(&mut ctx, None, Some('b'), None, Flags::defaults()).unwrap();
    let (cmd2_res, cmd2) = ctx.add_command("command2", "description").unwrap();
    let cmd2_b_opt = cmd2.add_option(&mut ctx, None, Some('b'), None, Flags::defaults()).unwrap();
    let cmd2_c_opt = cmd2.add_option(&mut ctx, None, Some('c'), None, Flags::defaults()).unwrap();
    assert!(ctx.validate().is_ok());

    assert!(a_opt.check(&ctx));
    assert!(!u_opt.check(&ctx));
    assert!(!cmd_res.check(&ctx));
    assert!(!cmd_a_opt.check(&ctx));
    assert!(!cmd_b_opt.check(&ctx));
    assert!(cmd2_res.check(&ctx));
    assert!(cmd2_b_opt.check(&ctx));
    assert!(!cmd2_c_opt.check(&ctx));
}

#[test]
fn test_command_option_with() {
    let mut ctx = Context::new(
        "test [options] command [command-options] [argument]",
        args(&["test", "-a", "-c", "command", "-b", "-c", "cvalue", "argument"]),
    );

    let a_opt = ctx.add_sopt('a', "Option a");
    let b_opt = ctx.add_sopt('b', "Option b");
    let c_opt = ctx.add_sopt('c', "Option c");

    let decls = vec![
        OptDecl {
            long_name: None,
            short_name: Some('b'),
            description: Some("Cmd option b".to_string()),
            flags: Flags::defaults(),
        },
        OptDecl {
            long_name: None,
            short_name: Some('c'),
            description: Some("Cmd option c".to_string()),
            flags: Flags::takes_arg(),
        },
        OptDecl {
            long_name: None,
            short_name: Some('d'),
            description: Some("Cmd option d".to_string()),
            flags: Flags::defaults(),
        },
        OptDecl {
            long_name: Some("fopt".to_string()),
            short_name: Some('f'),
            description: Some("Cmd option f".to_string()),
            flags: Flags::defaults(),
        },
    ];
    let (cmd_res, handles) = ctx.add_cmd_with("command", "description", decls).unwrap();
    let (cmd_b, cmd_c, cmd_d, cmd_f) = (handles[0], handles[1], handles[2], handles[3]);

    assert!(ctx.validate().is_ok());

    assert!(a_opt.check(&ctx));
    assert!(!b_opt.check(&ctx));
    assert!(c_opt.check(&ctx));

    assert!(cmd_res.check(&ctx));
    assert!(cmd_b.check(&ctx));
    assert!(!cmd_d.check(&ctx));
    assert!(!cmd_f.check(&ctx));

    match cmd_c.take_value::<String>(&mut ctx) {
        Ok(Some(val)) => assert!(val == "cvalue"),
        _ => assert!(false),
    }

    assert!(ctx.get_args()[0] == "argument");
}

#[test]
fn test_command_selected_exactly_once() {
    let mut ctx = Context::new("test command", args(&["test", "command", "command"]));
    let (cmd_res, _) = ctx.add_command("command", "description").unwrap();
    let err = ctx.validate().unwrap_err();
    assert_eq!(err, ParseError::UnexpectedCommand("command".to_string()));
    assert!(cmd_res.check(&ctx));
}

#[test]
fn test_selection_flag_false_before_validate() {
    let mut ctx = Context::new("test command", args(&["test", "command"]));
    let (cmd_res, _) = ctx.add_command("command", "description").unwrap();
    assert!(!cmd_res.check(&ctx));
    assert!(ctx.validate().is_ok());
    assert!(cmd_res.check(&ctx));
}

#[test]
fn test_command_scope_collects_leftovers() {
    let mut ctx = Context::new("test command [argument]", args(&["test", "command", "tail"]));
    let (cmd_res, _) = ctx.add_command("command", "description").unwrap();
    assert!(ctx.validate().is_ok());
    assert!(cmd_res.check(&ctx));
    assert_eq!(ctx.get_args().len(), 1);
    assert!(ctx.get_args()[0] == "tail");
}
