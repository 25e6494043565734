use rustypac::cli::{parse_args, CliError, Command};

fn parse(arguments: &[&str]) -> Result<Command, CliError> {
    let arguments: Vec<String> = arguments.iter().map(|argument| argument.to_string()).collect();
    parse_args(&arguments)
}

#[test]
fn parses_download_and_preserves_output_spelling() {
    let output = "./cache/../cache/package.pkg.tar.zst.part";

    let command = parse(&["RustyPac", "https://mirror.example/package", output]).unwrap();

    assert_eq!(
        command,
        Command::Download {
            url: "https://mirror.example/package".to_owned(),
            output: output.to_owned(),
        }
    );
}

#[test]
fn parses_enable() {
    assert_eq!(parse(&["RustyPac", "--enable"]).unwrap(), Command::Enable);
}

#[test]
fn parses_disable() {
    assert_eq!(parse(&["RustyPac", "--disable"]).unwrap(), Command::Disable);
}

#[test]
fn rejects_missing_arguments() {
    for arguments in [
        ["RustyPac"].as_slice(),
        ["RustyPac", "https://mirror.example/package"].as_slice(),
    ] {
        assert!(parse(arguments).is_err(), "{arguments:?} must be rejected");
    }
}

#[test]
fn rejects_excess_arguments() {
    for arguments in [
        ["RustyPac", "--enable", "extra"].as_slice(),
        ["RustyPac", "--disable", "extra"].as_slice(),
        [
            "RustyPac",
            "https://mirror.example/package",
            "package.part",
            "extra",
        ]
        .as_slice(),
    ] {
        assert!(parse(arguments).is_err(), "{arguments:?} must be rejected");
    }
}

#[test]
fn rejects_mixed_option_and_download_arguments() {
    for arguments in [
        ["RustyPac", "--enable", "package.part"].as_slice(),
        ["RustyPac", "https://mirror.example/package", "--disable"].as_slice(),
        ["RustyPac", "--disable", "https://mirror.example/package"].as_slice(),
    ] {
        assert!(parse(arguments).is_err(), "{arguments:?} must be rejected");
    }
}

#[test]
fn rejects_no_arguments_at_all() {
    assert_eq!(parse(&[]), Err(CliError));
}

#[test]
fn an_option_is_no_url_but_a_dash_is_an_output() {
    assert_eq!(parse(&["RustyPac", "--help", "out"]), Err(CliError));
    assert_eq!(
        parse(&["RustyPac", "-", "--other"]),
        Ok(Command::Download { url: "-".to_owned(), output: "--other".to_owned() })
    );
}

#[test]
fn the_usage_is_reported() {
    assert_eq!(
        CliError.message(),
        "usage: RustyPac URL OUTPUT | RustyPac --enable | RustyPac --disable"
    );
}
