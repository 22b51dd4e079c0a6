use fishnet::config::{
    choose_exe, engines_note, http_connect_timeout_secs, http_timeout_secs, ini_engine,
    locate_engine, program_word, user_agent, ExeChoice, Located,
};

fn some(text: &str) -> Option<String> {
    Some(text.to_string())
}

#[test]
fn engine_in_the_configuration_file() {
    assert_eq!(ini_engine("engine=/usr/bin/stockfish"), some("/usr/bin/stockfish"));
    assert_eq!(ini_engine("[Fishnet]\r\nkey=abc\r\n  engine = sf \r\n"), some("sf"));
    assert_eq!(ini_engine("engine=\"C:\\engine one\\sf.exe\""), some("C:\\engine one\\sf.exe"));
    assert_eq!(ini_engine("engine = '\"sf\"'"), some("sf"));
    assert_eq!(ini_engine("engine=a=b"), some("a=b"));
    assert_eq!(ini_engine("engine=first\nengine=second"), some("first"));
    assert_eq!(ini_engine("engine=\nengine=''\nengine=second"), some("second"));
    assert_eq!(ini_engine("engine=' sf '"), some(" sf "));
}

#[test]
fn no_engine_in_the_configuration_file() {
    for content in ["", "engine", "engine  = sf", "Engine=sf", "# engine=sf", "engine=", "engine=\"\""] {
        assert_eq!(ini_engine(content), None, "{content}");
    }
}

#[test]
fn environment_comes_first() {
    assert_eq!(choose_exe(some("a"), some("engine=b"), true), ExeChoice::Named("a".to_string()));
    assert_eq!(choose_exe(some(""), None, true), ExeChoice::Named(String::new()));
}

#[test]
fn configuration_file_comes_second() {
    assert_eq!(choose_exe(None, some("engine=b"), true), ExeChoice::Named("b".to_string()));
    assert_eq!(choose_exe(None, some("cores=4"), true), ExeChoice::AsGiven);
}

#[test]
fn current_directory_comes_last() {
    assert_eq!(choose_exe(None, None, true), ExeChoice::InCwd);
    assert_eq!(choose_exe(None, None, false), ExeChoice::AsGiven);
}

#[test]
fn where_the_engine_is() {
    assert_eq!(locate_engine(true, None), Located::AtPath);
    assert_eq!(locate_engine(true, Some(false)), Located::AtPath);
    assert_eq!(locate_engine(false, Some(true)), Located::InCwd);
    assert_eq!(locate_engine(false, Some(false)), Located::Missing);
    assert_eq!(locate_engine(false, None), Located::AtPath);
}

#[test]
fn timeouts() {
    assert_eq!(http_timeout_secs(None), 30);
    assert_eq!(http_timeout_secs(some("5")), 5);
    assert_eq!(http_timeout_secs(some("5s")), 30);
    assert_eq!(http_timeout_secs(some("-5")), 30);
    assert_eq!(http_connect_timeout_secs(None), 10);
    assert_eq!(http_connect_timeout_secs(some("0")), 0);
    assert_eq!(http_connect_timeout_secs(some("")), 10);
}

#[test]
fn introduction_to_the_server() {
    assert_eq!(user_agent("fishnet", "linux", "x86_64", "2.9.4"), "fishnet-linux-x86_64/2.9.4");
}

#[test]
fn program_as_a_word_of_the_shell() {
    assert_eq!(program_word(None), "./fishnet");
    assert_eq!(program_word(some("/opt/fish-net_1.0/fishnet")), "/opt/fish-net_1.0/fishnet");
    for (program, unix, windows) in [
        ("my fishnet", "'my fishnet'", "\"my fishnet\""),
        ("it's!", "'it'\\''s'\\!''", "it's!"),
        ("", "''", "\"\""),
        ("C:\\my fishnet\\", "'C:\\my fishnet\\'", "\"C:\\my fishnet\\\\\""),
        ("a \\\"b\"", "'a \\\"b\"'", "\"a \\\\\\\"b\\\"\""),
    ] {
        let expected = if std::path::MAIN_SEPARATOR == '/' { unix } else { windows };
        assert_eq!(program_word(some(program)), expected);
    }
}

#[test]
fn note_on_the_engines() {
    assert_eq!(
        engines_note("stockfish", "fairy-stockfish", "./fishnet"),
        "Engines: stockfish, fairy-stockfish (for GPLv3, run: ./fishnet license)"
    );
}
