use encage_build::dag::{ToFilePath, ToShellString};
use encage_build::schema::{Command, CommandArgs, CommandCopy, CommandExec, CommandExecType};
use encage_build::stamp::{Stamp, Stamper};
use std::collections::hash_map::DefaultHasher;
use std::collections::HashSet;
use std::hash::Hasher;

fn hashed(payload: &[u8]) -> u64 {
    let mut hasher = DefaultHasher::new();
    hasher.write(payload);
    hasher.finish()
}

#[test]
fn stamp_is_prefix_hash_and_suffix() {
    let name = Stamp::new("stamp-", b"payload").to_file_path();
    assert_eq!(name, format!("stamp-{:016x}.stamp", hashed(b"payload")));
    assert_eq!(name.len(), "stamp-".len() + 16 + ".stamp".len());
    assert!(name.starts_with("stamp-"));
    assert!(name.ends_with(".stamp"));
    assert!(name[6..22].chars().all(|c| c.is_ascii_digit() || ('a'..='f').contains(&c)));
}

#[test]
fn stamp_of_the_same_payload_is_the_same() {
    let payload = b"the same bytes";
    let first = Stamp::new("out/", payload);
    let second = Stamp::new("out/", payload);
    assert_eq!(first.to_file_path(), second.to_file_path());
    assert_eq!(first.clone().to_file_path(), first.to_file_path());
}

#[test]
fn stamp_keeps_leading_zeros_of_the_hash() {
    let mut shortest = 16;
    for n in 0u32..4096 {
        let payload = n.to_le_bytes();
        let hash = hashed(&payload);
        let name = Stamp::new("", &payload).to_file_path();
        assert_eq!(name, format!("{:016x}.stamp", hash));
        shortest = shortest.min(format!("{:x}", hash).len());
    }
    assert!(shortest < 16);
}

#[test]
fn stamp_prefix_is_taken_as_it_is() {
    let name = Stamp::new("dir with space/é-", b"").to_file_path();
    assert_eq!(name, format!("dir with space/é-{:016x}.stamp", hashed(b"")));
}

#[test]
fn stamps_of_distinct_commands_differ() {
    let mut commands = Vec::new();
    for i in 0..40 {
        commands.push(Command::Copy(CommandCopy {
            src: format!("src{}", i),
            dest: "/dest".to_string(),
            mode: None,
        }));
        commands.push(Command::Copy(CommandCopy {
            src: "src".to_string(),
            dest: format!("/dest{}", i),
            mode: Some(i),
        }));
        commands.push(Command::Exec(CommandExec {
            kind: CommandExecType::Host,
            cwd: None,
            commands: vec![CommandArgs::Shell(format!("echo {}", i))],
        }));
        commands.push(Command::Exec(CommandExec {
            kind: CommandExecType::Ocf { root: format!("/root{}", i) },
            cwd: None,
            commands: vec![CommandArgs::Exec { process: "true".to_string(), args: vec![] }],
        }));
    }
    let mut names = HashSet::new();
    for command in &commands {
        let mut payload = Vec::new();
        command.encode(&mut payload);
        names.insert(Stamp::new("stamp-", &payload).to_file_path());
    }
    assert_eq!(names.len(), commands.len());
}

#[test]
fn stamper_touches_the_stamp_after_the_command() {
    let stamp = Stamp::new("stamp-", b"x");
    let name = stamp.to_file_path();
    let stamped = Stamper::new("make all".to_string(), stamp);
    assert_eq!(stamped.to_shell_string(), format!("make all && touch {}", name));
}

#[test]
fn stamper_quotes_the_name_of_the_stamp() {
    let stamp = Stamp::new("my stamps/", b"x");
    let name = stamp.to_file_path();
    let stamped = Stamper::new("true".to_string(), stamp);
    assert_eq!(stamped.to_shell_string(), format!("true && touch '{}'", name));
}
