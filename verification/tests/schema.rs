use encage_build::schema::{
    parse_octal, Command, CommandArgs, CommandCopy, CommandExec, CommandExecType,
    CommandType, ExecFields, SchemaError,
};

fn strings(items: &[&str]) -> Vec<String> {
    items.iter().map(|s| s.to_string()).collect()
}

fn encoded(command: &Command) -> Vec<u8> {
    let mut out = Vec::new();
    command.encode(&mut out);
    out
}

#[test]
fn octal_numbers_are_read() {
    assert_eq!(parse_octal("0"), Ok(0));
    assert_eq!(parse_octal("644"), Ok(0o644));
    assert_eq!(parse_octal("0755"), Ok(0o755));
    assert_eq!(parse_octal("+17"), Ok(15));
    assert_eq!(parse_octal("000000000000000007"), Ok(7));
    assert_eq!(parse_octal("37777777777"), Ok(u32::MAX));
}

#[test]
fn what_is_no_octal_number_is_refused() {
    for text in ["", "+", "-1", "8", "12a", "0x10", " 7", "7 ", "++1", "40000000000", "777777777777", "١"] {
        assert_eq!(parse_octal(text), Err(SchemaError::ModeNotOctal), "{:?}", text);
    }
}

#[test]
fn octal_numbers_are_read_as_the_standard_library_reads_them() {
    let samples = [
        "", "+", "-", "0", "7", "8", "10", "+10", "-10", "644", "0644", "100644", "37777777777",
        "40000000000", "037777777777", "1234567", "12345678", "+0", "00", "7+", "٧",
    ];
    for text in samples {
        assert_eq!(parse_octal(text).ok(), u32::from_str_radix(text, 8).ok(), "{:?}", text);
    }
}

#[test]
fn command_types_are_read_by_name() {
    assert_eq!(CommandType::from_name(Some("copy")), Ok(CommandType::Copy));
    assert_eq!(CommandType::from_name(Some("host")), Ok(CommandType::Host));
    assert_eq!(CommandType::from_name(Some("image")), Ok(CommandType::Image));
    assert_eq!(CommandType::from_name(Some("ocf")), Ok(CommandType::Ocf));
    assert_eq!(CommandType::from_name(Some("Copy")), Err(SchemaError::UnknownCommandType));
    assert_eq!(CommandType::from_name(Some("")), Err(SchemaError::UnknownCommandType));
    assert_eq!(CommandType::from_name(None), Err(SchemaError::MissingType));
}

#[test]
fn argument_vector_is_split_into_program_and_arguments() {
    assert_eq!(
        CommandArgs::from_args(strings(&["make", "-j", "4"])),
        Ok(CommandArgs::Exec { process: "make".to_string(), args: strings(&["-j", "4"]) })
    );
    assert_eq!(
        CommandArgs::from_args(strings(&["true"])),
        Ok(CommandArgs::Exec { process: "true".to_string(), args: vec![] })
    );
    assert_eq!(CommandArgs::from_args(vec![]), Err(SchemaError::NoArguments));
}

#[test]
fn copy_step_takes_its_mode_in_octal() {
    assert_eq!(
        CommandCopy::from_fields("a".to_string(), "/b".to_string(), Some("755")),
        Ok(CommandCopy { src: "a".to_string(), dest: "/b".to_string(), mode: Some(0o755) })
    );
    assert_eq!(
        CommandCopy::from_fields("a".to_string(), "/b".to_string(), None),
        Ok(CommandCopy { src: "a".to_string(), dest: "/b".to_string(), mode: None })
    );
    assert_eq!(
        CommandCopy::from_fields("a".to_string(), "/b".to_string(), Some("rwx")),
        Err(SchemaError::ModeNotOctal)
    );
}

fn fields(root: Option<&str>, command: Option<CommandArgs>, commands: Vec<CommandArgs>) -> ExecFields {
    ExecFields {
        cwd: Some("/work".to_string()),
        root: root.map(|s| s.to_string()),
        command,
        commands,
    }
}

#[test]
fn exec_step_puts_the_single_process_first() {
    let one = CommandArgs::Shell("echo one".to_string());
    let two = CommandArgs::Shell("echo two".to_string());
    let three = CommandArgs::Shell("echo three".to_string());
    assert_eq!(
        CommandExec::from_fields(
            CommandType::Host,
            fields(None, Some(one.clone()), vec![two.clone(), three.clone()])
        ),
        Ok(CommandExec {
            kind: CommandExecType::Host,
            cwd: Some("/work".to_string()),
            commands: vec![one.clone(), two.clone(), three.clone()],
        })
    );
    assert_eq!(
        CommandExec::from_fields(CommandType::Image, fields(Some("/ignored"), None, vec![two.clone()])),
        Ok(CommandExec {
            kind: CommandExecType::Image,
            cwd: Some("/work".to_string()),
            commands: vec![two.clone()],
        })
    );
    assert_eq!(
        CommandExec::from_fields(CommandType::Ocf, fields(Some("/bundle"), Some(one.clone()), vec![])),
        Ok(CommandExec {
            kind: CommandExecType::Ocf { root: "/bundle".to_string() },
            cwd: Some("/work".to_string()),
            commands: vec![one],
        })
    );
}

#[test]
fn exec_step_needs_a_root_for_ocf_and_a_process() {
    let one = CommandArgs::Shell("echo one".to_string());
    assert_eq!(
        CommandExec::from_fields(CommandType::Ocf, fields(None, Some(one), vec![])),
        Err(SchemaError::OcfRequiresRoot)
    );
    assert_eq!(
        CommandExec::from_fields(CommandType::Ocf, fields(None, None, vec![])),
        Err(SchemaError::OcfRequiresRoot)
    );
    assert_eq!(
        CommandExec::from_fields(CommandType::Ocf, fields(Some("/bundle"), None, vec![])),
        Err(SchemaError::MissingCommand)
    );
    assert_eq!(
        CommandExec::from_fields(CommandType::Host, fields(None, None, vec![])),
        Err(SchemaError::MissingCommand)
    );
}

#[test]
fn copy_step_is_encoded_field_by_field() {
    let command = Command::Copy(CommandCopy {
        src: "a".to_string(),
        dest: "bé".to_string(),
        mode: Some(0o644),
    });
    let expected: Vec<u8> = vec![
        0, // copy
        1, 0, 0, 0, 0, 0, 0, 0, b'a', // src
        3, 0, 0, 0, 0, 0, 0, 0, b'b', 0xc3, 0xa9, // dest
        1, 0xa4, 0x01, 0, 0, // mode
    ];
    assert_eq!(encoded(&command), expected);
}

#[test]
fn exec_step_is_encoded_field_by_field() {
    let command = Command::Exec(CommandExec {
        kind: CommandExecType::Ocf { root: "r".to_string() },
        cwd: None,
        commands: vec![
            CommandArgs::Shell("s".to_string()),
            CommandArgs::Exec { process: "p".to_string(), args: strings(&["x", ""]) },
        ],
    });
    let expected: Vec<u8> = vec![
        1, // exec
        2, 1, 0, 0, 0, 0, 0, 0, 0, b'r', // ocf and its root
        0, // no cwd
        2, 0, 0, 0, 0, 0, 0, 0, // two processes
        0, 1, 0, 0, 0, 0, 0, 0, 0, b's', // script
        1, 1, 0, 0, 0, 0, 0, 0, 0, b'p', // program
        2, 0, 0, 0, 0, 0, 0, 0, // two arguments
        1, 0, 0, 0, 0, 0, 0, 0, b'x', //
        0, 0, 0, 0, 0, 0, 0, 0,
    ];
    assert_eq!(encoded(&command), expected);
}

#[test]
fn encoding_is_appended_to_what_is_there() {
    let command = Command::Exec(CommandExec {
        kind: CommandExecType::Host,
        cwd: Some("d".to_string()),
        commands: vec![],
    });
    let mut out = vec![9u8, 9];
    command.encode(&mut out);
    assert_eq!(out, vec![9, 9, 1, 1, 1, 1, 0, 0, 0, 0, 0, 0, 0, b'd', 0, 0, 0, 0, 0, 0, 0, 0]);
}

#[test]
fn encoding_tells_apart_what_differs() {
    let exec = |kind: CommandExecType, cwd: Option<&str>, commands: Vec<CommandArgs>| {
        Command::Exec(CommandExec { kind, cwd: cwd.map(|s| s.to_string()), commands })
    };
    let samples = vec![
        Command::Copy(CommandCopy { src: "ab".to_string(), dest: "c".to_string(), mode: None }),
        Command::Copy(CommandCopy { src: "a".to_string(), dest: "bc".to_string(), mode: None }),
        Command::Copy(CommandCopy { src: "a".to_string(), dest: "bc".to_string(), mode: Some(0) }),
        Command::Copy(CommandCopy { src: "a".to_string(), dest: "bc".to_string(), mode: Some(1) }),
        exec(CommandExecType::Host, None, vec![]),
        exec(CommandExecType::Image, None, vec![]),
        exec(CommandExecType::Ocf { root: "".to_string() }, None, vec![]),
        exec(CommandExecType::Host, Some(""), vec![]),
        exec(CommandExecType::Host, None, vec![CommandArgs::Shell("a b".to_string())]),
        exec(
            CommandExecType::Host,
            None,
            vec![CommandArgs::Exec { process: "a".to_string(), args: strings(&["b"]) }],
        ),
        exec(
            CommandExecType::Host,
            None,
            vec![CommandArgs::Exec { process: "a".to_string(), args: strings(&["b", ""]) }],
        ),
        exec(
            CommandExecType::Host,
            None,
            vec![
                CommandArgs::Exec { process: "a".to_string(), args: vec![] },
                CommandArgs::Exec { process: "b".to_string(), args: vec![] },
            ],
        ),
    ];
    for (i, a) in samples.iter().enumerate() {
        for (j, b) in samples.iter().enumerate() {
            assert_eq!(encoded(a) == encoded(b), i == j, "{:?} and {:?}", a, b);
        }
    }
}
