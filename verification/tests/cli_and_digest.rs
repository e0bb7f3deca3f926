use pls::cli::{parse_command, Command};
use pls::digest::sha256_hex;

fn args(xs: &[&str]) -> Vec<String> {
    xs.iter().map(|s| s.to_string()).collect()
}

#[test]
fn help_and_simple_commands() {
    assert!(matches!(parse_command(&args(&["pls"])), Ok(Command::Help)));
    assert!(matches!(parse_command(&args(&["pls", "-h"])), Ok(Command::Help)));
    assert!(matches!(parse_command(&args(&["pls", "ls"])), Ok(Command::List)));
    assert!(matches!(parse_command(&args(&["pls", "update"])), Ok(Command::Update)));
    assert!(matches!(parse_command(&args(&["pls", "repo", "update"])), Ok(Command::RepoUpdate)));
    match parse_command(&args(&["pls", "rm", "yplay"])) {
        Ok(Command::Remove(p)) => assert_eq!(p, "yplay"),
        _ => panic!("expected remove"),
    }
    match parse_command(&args(&["pls", "install", "yplay"])) {
        Ok(Command::Install(p)) => assert_eq!(p, "yplay"),
        _ => panic!("expected install"),
    }
}

#[test]
fn usage_errors() {
    assert_eq!(parse_command(&args(&["pls", "install"])).err(), Some("install what? give me a package name".to_string()));
    assert_eq!(parse_command(&args(&["pls", "remove"])).err(), Some("remove what?".to_string()));
    assert_eq!(parse_command(&args(&["pls", "info"])).err(), Some("info about what?".to_string()));
    assert_eq!(parse_command(&args(&["pls", "repo"])).err(), Some("repo what? try 'pls repo update'".to_string()));
    assert_eq!(parse_command(&args(&["pls", "repo", "x"])).err(), Some("unknown repo command: x".to_string()));
    assert_eq!(parse_command(&args(&["pls", "bundle"])).err(), Some("bundle what? try 'pls bundle gaming'".to_string()));
    assert_eq!(parse_command(&args(&["pls", "fly"])).err(), Some("nah 'fly' is not a thing, try 'pls help'".to_string()));
}

#[test]
fn add_arguments() {
    match parse_command(&args(&["pls", "add", ".", "--output", "/tmp/repo"])) {
        Ok(Command::Add { path, is_draft, output_dir }) => {
            assert_eq!(path, ".");
            assert!(!is_draft);
            assert_eq!(output_dir, Some("/tmp/repo".to_string()));
        }
        _ => panic!("expected add"),
    }
    match parse_command(&args(&["pls", "add", "--draft", "-o"])) {
        Ok(Command::Add { path, is_draft, output_dir }) => {
            assert_eq!(path, ".");
            assert!(is_draft);
            assert_eq!(output_dir, None);
        }
        _ => panic!("expected add"),
    }
    match parse_command(&args(&["pls", "add", "proj", "--draft"])) {
        Ok(Command::Add { path, is_draft, .. }) => {
            assert_eq!(path, "proj");
            assert!(is_draft);
        }
        _ => panic!("expected add"),
    }
}

#[test]
fn checksum_is_sha256_in_lowercase_hex() {
    assert_eq!(sha256_hex(b"abc"), "ba7816bf8f01cfea414140de5dae2223b00361a396177a9cb410ff61f20015ad");
    assert_eq!(sha256_hex(b""), "e3b0c44298fc1c149afbf4c8996fb92427ae41e4649b934ca495991b7852b855");
    assert_eq!(sha256_hex(b"abc").len(), 64);
}
