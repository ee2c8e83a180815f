use cesure::console::{parse_command, Command, Setting};

#[test]
fn simple_commands() {
    assert!(matches!(parse_command("stop"), Command::Stop));
    assert!(matches!(parse_command("  show  "), Command::Show));
    assert!(matches!(parse_command("hide extra words"), Command::Hide));
    assert!(matches!(parse_command(""), Command::Empty));
    assert!(matches!(parse_command(" \t "), Command::Empty));
    assert!(matches!(parse_command("halt"), Command::Unknown));
    assert!(matches!(parse_command("stopp"), Command::Unknown));
}

#[test]
fn setting_commands_keep_their_argument() {
    match parse_command("setlr 0.05") {
        Command::SetValue(Setting::LearningRate, arg) => assert_eq!(arg, "0.05"),
        other => panic!("unexpected {:?}", other),
    }
    match parse_command("setmom\t0.9") {
        Command::SetValue(Setting::Momentum, arg) => assert_eq!(arg, "0.9"),
        other => panic!("unexpected {:?}", other),
    }
    match parse_command("setmag0 1.5 ignored") {
        Command::SetValue(Setting::MagnitudeStart, arg) => assert_eq!(arg, "1.5"),
        other => panic!("unexpected {:?}", other),
    }
    match parse_command("setmag1 abc") {
        Command::SetValue(Setting::MagnitudeEnd, arg) => assert_eq!(arg, "abc"),
        other => panic!("unexpected {:?}", other),
    }
    match parse_command("setlr") {
        Command::MissingArgument(word) => assert_eq!(word, "setlr"),
        other => panic!("unexpected {:?}", other),
    }
}

#[test]
fn iteration_command() {
    assert!(matches!(parse_command("setiters 250"), Command::SetIterations(250)));
    assert!(matches!(parse_command("setiters 007"), Command::SetIterations(7)));
    assert!(matches!(parse_command("setiters +7"), Command::SetIterations(7)));
    assert!(matches!(parse_command("setiters 18446744073709551616"), Command::InvalidIterations(_)));
    assert!(matches!(parse_command("setiters +"), Command::InvalidIterations(_)));
    match parse_command("setiters -3") {
        Command::InvalidIterations(arg) => assert_eq!(arg, "-3"),
        other => panic!("unexpected {:?}", other),
    }
    match parse_command("setiters") {
        Command::MissingArgument(word) => assert_eq!(word, "setiters"),
        other => panic!("unexpected {:?}", other),
    }
}

#[test]
fn white_space_class_matches_std() {
    for code in (0u32..0x3100).chain([0xFEFFu32, 0x1F600, 0x10FFFF]) {
        if let Some(c) = char::from_u32(code) {
            let line = format!("show{}x", c);
            let is_show = matches!(parse_command(&line), Command::Show);
            assert_eq!(is_show, c.is_whitespace(), "U+{:X}", code);
        }
    }
}
