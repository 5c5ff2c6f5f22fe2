use zek::prompt::show_target;
use zek::prompt::tokenize;
use zek::prompt::CommandHandler;
use zek::prompt::Dispatch;
use zek::prompt::ShowTarget;

#[test]
fn tokenize_splits_on_whitespace_runs() {
    let toks = tokenize("  help   me now ");
    assert_eq!(
        toks,
        vec!["help".to_string(), "me".to_string(), "now".to_string()]
    );
}

#[test]
fn tokenize_empty_and_all_whitespace() {
    assert_eq!(tokenize(""), Vec::<String>::new());
    assert_eq!(tokenize("   \t \r\n  "), Vec::<String>::new());
}

#[test]
fn tokenize_single_token_no_padding() {
    assert_eq!(tokenize("exit"), vec!["exit".to_string()]);
}

#[test]
fn tokenize_unicode_whitespace() {
    assert_eq!(
        tokenize("show\u{3000}payloads\u{a0}"),
        vec!["show".to_string(), "payloads".to_string()]
    );
}

#[test]
fn lookup_after_register_finds_handler() {
    let mut reg: CommandHandler<u64> = CommandHandler::new();
    reg.register_command("help", 7);
    assert_eq!(reg.lookup("help"), Some(7));
    assert_eq!(reg.lookup("exit"), None);
}

#[test]
fn last_registration_wins() {
    let mut reg: CommandHandler<u64> = CommandHandler::new();
    reg.register_command("help", 1);
    reg.register_command("exit", 2);
    reg.register_command("help", 3);
    assert_eq!(reg.lookup("help"), Some(3));
    assert_eq!(reg.lookup("exit"), Some(2));
}

#[test]
fn dispatch_whitespace_only_is_no_action() {
    let mut reg: CommandHandler<u64> = CommandHandler::new();
    reg.register_command("help", 1);
    assert!(matches!(reg.execute("   \t  "), Dispatch::Empty));
    assert!(matches!(reg.execute(""), Dispatch::Empty));
}

#[test]
fn dispatch_help_invokes_with_empty_args() {
    let mut reg: CommandHandler<u64> = CommandHandler::new();
    reg.register_command("help", 1);
    match reg.execute("help") {
        Dispatch::Invoke(h, args) => {
            assert_eq!(h, 1);
            assert!(args.is_empty());
        }
        _ => panic!("expected the registered handler to be invoked"),
    }
}

#[test]
fn dispatch_unknown_command_reports_name() {
    let reg: CommandHandler<u64> = CommandHandler::new();
    match reg.execute("unknown_cmd foo bar") {
        Dispatch::Unknown(name) => assert_eq!(name, "unknown_cmd"),
        _ => panic!("an unregistered name must be reported, not invoked"),
    }
}

#[test]
fn dispatch_exit_selects_exit_handler() {
    let mut reg: CommandHandler<u64> = CommandHandler::new();
    reg.register_command("help", 1);
    reg.register_command("exit", 2);
    match reg.execute("exit") {
        Dispatch::Invoke(h, args) => {
            assert_eq!(h, 2);
            assert!(args.is_empty());
        }
        _ => panic!("exit is registered and must be selected"),
    }
}

#[test]
fn show_target_decides_by_first_argument() {
    assert_eq!(
        show_target(&vec!["payloads".to_string()]),
        ShowTarget::Payloads
    );
    assert_eq!(
        show_target(&vec!["exploits".to_string(), "extra".to_string()]),
        ShowTarget::Exploits
    );
    assert_eq!(show_target(&Vec::new()), ShowTarget::Usage);
    assert_eq!(
        show_target(&vec!["notes".to_string()]),
        ShowTarget::Usage
    );
}

#[test]
fn dispatch_passes_remaining_tokens_as_args() {
    let mut reg: CommandHandler<u64> = CommandHandler::new();
    reg.register_command("run", 4);
    match reg.execute("  run  payload.py  --fast ") {
        Dispatch::Invoke(h, args) => {
            assert_eq!(h, 4);
            assert_eq!(args, vec!["payload.py".to_string(), "--fast".to_string()]);
        }
        _ => panic!("run is registered and must be selected"),
    }
}
