use encage_build::command::{linearize, mode_string, path_below, CommandContext};
use encage_build::dag::ToShellString;
use encage_build::schema::{
    Command, CommandArgs, CommandCopy, CommandExec, CommandExecType, Image, ImageRecipe,
};
use encage_build::stamp::Stamp;
use encage_build::dag::ToFilePath;

fn recipe(dest: &str, commands: Vec<Command>) -> ImageRecipe {
    ImageRecipe { image: Image { dest: dest.to_string() }, commands, mounts: vec![] }
}

fn copy(src: &str, dest: &str, mode: Option<u32>) -> Command {
    Command::Copy(CommandCopy { src: src.to_string(), dest: dest.to_string(), mode })
}

fn exec(kind: CommandExecType, commands: Vec<CommandArgs>) -> Command {
    Command::Exec(CommandExec { kind, cwd: None, commands })
}

fn program(words: &[&str]) -> CommandArgs {
    CommandArgs::Exec {
        process: words[0].to_string(),
        args: words[1..].iter().map(|s| s.to_string()).collect(),
    }
}

fn line(dest: &str, command: Command) -> String {
    let recipe = recipe(dest, vec![command]);
    CommandContext::new(&recipe, &recipe.commands[0]).to_shell_string()
}

#[test]
fn mode_is_written_in_octal_four_digits_wide() {
    assert_eq!(mode_string(None), "0644");
    assert_eq!(mode_string(Some(0)), "0000");
    assert_eq!(mode_string(Some(7)), "0007");
    assert_eq!(mode_string(Some(0o755)), "0755");
    assert_eq!(mode_string(Some(0o4755)), "4755");
    assert_eq!(mode_string(Some(0o100644)), "100644");
    assert_eq!(mode_string(Some(u32::MAX)), "37777777777");
    for bits in [1u32, 8, 63, 64, 511, 512, 4095, 4096, 32767, 32768, 1 << 31] {
        assert_eq!(mode_string(Some(bits)), format!("{:04o}", bits));
    }
}

#[test]
fn paths_are_joined_by_one_slash() {
    assert_eq!(path_below("/img", "etc/passwd"), "/img/etc/passwd");
    assert_eq!(path_below("/img/", "etc/passwd"), "/img/etc/passwd");
    assert_eq!(path_below("", "etc/passwd"), "etc/passwd");
    assert_eq!(path_below("/img", ""), "/img/");
    assert_eq!(path_below("/", "x"), "/x");
    assert_eq!(path_below("/img", "/etc"), "/etc");
    assert_eq!(path_below("img//", "x"), "img//x");
}

#[test]
fn paths_are_joined_as_the_standard_library_joins_them() {
    for base in ["", "/", "/img", "/img/", "a/b", "a b/"] {
        for rel in ["", "x", "x/y", "/x", "//x", "x/", "é"] {
            let joined = std::path::Path::new(base).join(rel);
            assert_eq!(path_below(base, rel), joined.display().to_string(), "{:?} {:?}", base, rel);
        }
    }
}

#[test]
fn copy_installs_below_the_image() {
    assert_eq!(
        line("/img", copy("src file", "/etc/conf", None)),
        "install -Dm 0644 'src file' /img/etc/conf"
    );
    assert_eq!(
        line("/img/", copy("a", "///usr/bin/a", Some(0o755))),
        "install -Dm 0755 a /img/usr/bin/a"
    );
    assert_eq!(line("", copy("a", "b", Some(0o100600))), "install -Dm 100600 a b");
    assert_eq!(line("/my img", copy("", "/", None)), "install -Dm 0644 '' '/my img/'");
}

#[test]
fn exec_on_the_host_runs_the_process_as_it_is() {
    assert_eq!(
        line("/img", exec(CommandExecType::Host, vec![program(&["make", "-C", "my dir"])])),
        "make -C 'my dir'"
    );
    assert_eq!(
        line(
            "/img",
            exec(CommandExecType::Host, vec![CommandArgs::Shell("echo it's".to_string())])
        ),
        "sh -ec 'echo it'\\''s'"
    );
}

#[test]
fn exec_in_the_image_goes_through_the_launcher() {
    assert_eq!(
        line("/my img", exec(CommandExecType::Image, vec![program(&["ldconfig"])])),
        "encage-run exec '/my img' ldconfig"
    );
    assert_eq!(
        line(
            "/img",
            exec(
                CommandExecType::Ocf { root: "/bundle".to_string() },
                vec![CommandArgs::Shell("true".to_string())]
            )
        ),
        "encage-run ocf /bundle sh -ec true"
    );
}

#[test]
fn processes_of_one_step_are_joined_by_and() {
    assert_eq!(
        line(
            "/img",
            exec(
                CommandExecType::Image,
                vec![
                    program(&["a"]),
                    CommandArgs::Shell("b c".to_string()),
                    program(&["d", ""]),
                ]
            )
        ),
        "encage-run exec /img a && encage-run exec /img sh -ec 'b c' && encage-run exec /img d ''"
    );
    assert_eq!(line("/img", exec(CommandExecType::Host, vec![])), "");
}

fn stamp_of(command: &Command) -> String {
    let mut payload = Vec::new();
    command.encode(&mut payload);
    Stamp::new("stamp-", &payload).to_file_path()
}

#[test]
fn steps_are_chained_by_their_stamps() {
    let recipe = recipe(
        "/img",
        vec![
            copy("a", "/a", None),
            exec(CommandExecType::Host, vec![program(&["make"])]),
            copy("b", "/b", Some(0o600)),
        ],
    );
    let one = stamp_of(&recipe.commands[0]);
    let two = stamp_of(&recipe.commands[1]);
    let three = stamp_of(&recipe.commands[2]);
    let mut text = String::new();
    linearize(&recipe).write_makefile(&mut text);
    let expected = format!(
        "{one} : \n\tinstall -Dm 0644 a /img/a && touch {one}\n\
         {two} : {one} \n\tmake && touch {two}\n\
         {three} : {two} \n\tinstall -Dm 0600 b /img/b && touch {three}\n"
    );
    assert_eq!(text, expected);
}

#[test]
fn recipe_without_steps_gives_no_rule() {
    let recipe = recipe("/img", vec![]);
    let mut text = String::new();
    linearize(&recipe).write_makefile(&mut text);
    assert_eq!(text, "");
}
